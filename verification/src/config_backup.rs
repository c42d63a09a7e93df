//! Backups of the whole configuration: what goes into one, which are accepted, what an import does.
use crate::file_name;
use crate::json;
use crate::json::{Json, JsonModel};
use crate::number;
use crate::platform::Platform;
use crate::text;
use vstd::prelude::*;

verus! {

pub const BACKUP_FORMAT: &'static str = "codex-plus-plus-backup";

pub const SCHEMA_VERSION: u32 = 1;

pub const MAX_BACKUP_BYTES: u64 = 33_554_432;

/// Where the parts of the configuration stand.
#[derive(Debug, Clone)]
pub struct ConfigBackupPaths {
    pub settings_path: String,
    pub codex_home: String,
    pub user_scripts_dir: String,
    pub user_scripts_config_path: String,
    pub automatic_backup_dir: String,
}

/// What an import reports.
#[derive(Debug, Clone)]
pub struct ConfigImportResult {
    pub imported_from: String,
    pub automatic_backup_path: String,
    pub user_script_count: usize,
}

/// A script of the user.
#[derive(Debug)]
pub struct UserScriptBackup {
    pub name: String,
    pub contents: String,
}

pub struct ScriptModel {
    pub name: Seq<char>,
    pub contents: Seq<char>,
}

impl View for UserScriptBackup {
    type V = ScriptModel;

    open spec fn view(&self) -> ScriptModel {
        ScriptModel { name: self.name@, contents: self.contents@ }
    }
}

pub open spec fn scripts(files: Seq<UserScriptBackup>) -> Seq<ScriptModel> {
    files.map_values(|s: UserScriptBackup| s@)
}

/// The two files of Codex.
#[derive(Debug)]
pub struct CodexLiveBackup {
    pub config_toml: Option<String>,
    pub auth_json: Option<String>,
}

/// The scripts of the user and their configuration.
#[derive(Debug)]
pub struct UserScriptsBackup {
    pub config: Json,
    pub files: Vec<UserScriptBackup>,
}

/// A backup of the whole configuration.
#[derive(Debug)]
pub struct ConfigBackup {
    pub format: String,
    pub schema_version: u32,
    pub app_version: String,
    pub exported_at_unix: u64,
    pub settings: Json,
    pub codex_live: CodexLiveBackup,
    pub user_scripts: UserScriptsBackup,
}

#[verifier::ext_equal]
pub struct BackupModel {
    pub format: Seq<char>,
    pub schema_version: u32,
    pub app_version: Seq<char>,
    pub exported_at_unix: u64,
    pub settings: JsonModel,
    pub config_toml: Option<Seq<char>>,
    pub auth_json: Option<Seq<char>>,
    pub script_config: JsonModel,
    pub scripts: Seq<ScriptModel>,
}

impl View for ConfigBackup {
    type V = BackupModel;

    open spec fn view(&self) -> BackupModel {
        BackupModel {
            format: self.format@,
            schema_version: self.schema_version,
            app_version: self.app_version@,
            exported_at_unix: self.exported_at_unix,
            settings: self.settings@,
            config_toml: text::opt_text(self.codex_live.config_toml),
            auth_json: text::opt_text(self.codex_live.auth_json),
            script_config: self.user_scripts.config@,
            scripts: scripts(self.user_scripts.files@),
        }
    }
}

// ---------------------------------------------------------------------------------------
// Script names
// ---------------------------------------------------------------------------------------

/// Whether a name is that of a script in the directory of the scripts.
pub open spec fn script_name(name: Seq<char>, platform: Platform) -> bool {
    match file_name::sole_component(name, platform) {
        Some(component) => file_name::extension_of(component) == Some("js"@),
        None => false,
    }
}

/// Whether a name is that of a script in the directory of the scripts.
pub fn validate_script_name(name: &str, platform: Platform) -> (r: bool)
    ensures
        r == script_name(name@, platform),
{
    match file_name::single_component(text::chars_of(name).as_slice(), platform) {
        Some(component) => match file_name::extension(component.as_slice()) {
            Some(e) => text::same_chars(e.as_slice(), text::chars_of("js").as_slice()),
            None => false,
        },
        None => false,
    }
}

// ---------------------------------------------------------------------------------------
// Accepting a backup
// ---------------------------------------------------------------------------------------

/// Why a backup is refused.
#[derive(Debug)]
pub enum BackupError {
    UnsupportedFormat(String),
    UnsupportedSchema(u32),
    SettingsNotObject,
    SettingsInvalid,
    ScriptConfigNotObject,
    ConfigTomlInvalid,
    AuthJsonInvalid,
    InvalidScriptName(String),
    DuplicateScript(String),
}

pub enum BackupErrorModel {
    UnsupportedFormat(Seq<char>),
    UnsupportedSchema(u32),
    SettingsNotObject,
    SettingsInvalid,
    ScriptConfigNotObject,
    ConfigTomlInvalid,
    AuthJsonInvalid,
    InvalidScriptName(Seq<char>),
    DuplicateScript(Seq<char>),
}

impl View for BackupError {
    type V = BackupErrorModel;

    open spec fn view(&self) -> BackupErrorModel {
        match *self {
            BackupError::UnsupportedFormat(s) => BackupErrorModel::UnsupportedFormat(s@),
            BackupError::UnsupportedSchema(n) => BackupErrorModel::UnsupportedSchema(n),
            BackupError::SettingsNotObject => BackupErrorModel::SettingsNotObject,
            BackupError::SettingsInvalid => BackupErrorModel::SettingsInvalid,
            BackupError::ScriptConfigNotObject => BackupErrorModel::ScriptConfigNotObject,
            BackupError::ConfigTomlInvalid => BackupErrorModel::ConfigTomlInvalid,
            BackupError::AuthJsonInvalid => BackupErrorModel::AuthJsonInvalid,
            BackupError::InvalidScriptName(s) => BackupErrorModel::InvalidScriptName(s@),
            BackupError::DuplicateScript(s) => BackupErrorModel::DuplicateScript(s@),
        }
    }
}

impl BackupErrorModel {
    pub open spec fn says(self) -> Seq<char> {
        match self {
            BackupErrorModel::UnsupportedFormat(s) => "unsupported backup format: "@ + s,
            BackupErrorModel::UnsupportedSchema(n) => "unsupported backup schema version: "@
                + number::decimal(n as nat),
            BackupErrorModel::SettingsNotObject => "backup settings must be a JSON object"@,
            BackupErrorModel::SettingsInvalid => "backup settings are invalid"@,
            BackupErrorModel::ScriptConfigNotObject =>
                "backup user script config must be a JSON object"@,
            BackupErrorModel::ConfigTomlInvalid => "backup config.toml is invalid"@,
            BackupErrorModel::AuthJsonInvalid => "backup auth.json is invalid"@,
            BackupErrorModel::InvalidScriptName(s) => "invalid user script filename: "@ + s,
            BackupErrorModel::DuplicateScript(s) => "duplicate user script in backup: "@ + s,
        }
    }
}

impl BackupError {
    pub fn message(&self) -> (r: String)
        ensures
            r@ == self@.says(),
    {
        match self {
            BackupError::UnsupportedFormat(s) =>
                "unsupported backup format: ".to_owned().concat(s.as_str()),
            BackupError::UnsupportedSchema(n) => {
                let digits = text::text_of(number::decimal_chars(*n as u128).as_slice());
                "unsupported backup schema version: ".to_owned().concat(digits.as_str())
            },
            BackupError::SettingsNotObject => "backup settings must be a JSON object".to_owned(),
            BackupError::SettingsInvalid => "backup settings are invalid".to_owned(),
            BackupError::ScriptConfigNotObject =>
                "backup user script config must be a JSON object".to_owned(),
            BackupError::ConfigTomlInvalid => "backup config.toml is invalid".to_owned(),
            BackupError::AuthJsonInvalid => "backup auth.json is invalid".to_owned(),
            BackupError::InvalidScriptName(s) =>
                "invalid user script filename: ".to_owned().concat(s.as_str()),
            BackupError::DuplicateScript(s) =>
                "duplicate user script in backup: ".to_owned().concat(s.as_str()),
        }
    }
}

/// Whether one of the scripts has this name, upper and lower case being the same.
pub open spec fn has_script(files: Seq<ScriptModel>, name: Seq<char>) -> bool {
    exists|i: int|
        0 <= i < files.len() && text::lowered((#[trigger] files[i]).name) == text::lowered(name)
}

/// Why the scripts of a backup are refused: the first with a bad name, or with the name of one before
/// it.
pub open spec fn scripts_error(files: Seq<ScriptModel>, platform: Platform) -> Option<
    BackupErrorModel,
>
    decreases files.len(),
{
    if files.len() == 0 {
        None
    } else {
        let name = files.last().name;
        match scripts_error(files.drop_last(), platform) {
            Some(e) => Some(e),
            None => if !script_name(name, platform) {
                Some(BackupErrorModel::InvalidScriptName(name))
            } else if has_script(files.drop_last(), name) {
                Some(BackupErrorModel::DuplicateScript(name))
            } else {
                None
            },
        }
    }
}

/// Why a backup is refused, its settings, its configuration and its login being valid or not.
pub open spec fn backup_error(
    backup: BackupModel,
    settings_valid: bool,
    config_valid: bool,
    auth_valid: bool,
    platform: Platform,
) -> Option<BackupErrorModel> {
    if backup.format != BACKUP_FORMAT@ {
        Some(BackupErrorModel::UnsupportedFormat(backup.format))
    } else if backup.schema_version != SCHEMA_VERSION {
        Some(BackupErrorModel::UnsupportedSchema(backup.schema_version))
    } else if backup.settings !is Object {
        Some(BackupErrorModel::SettingsNotObject)
    } else if !settings_valid {
        Some(BackupErrorModel::SettingsInvalid)
    } else if backup.script_config !is Object {
        Some(BackupErrorModel::ScriptConfigNotObject)
    } else if !config_valid {
        Some(BackupErrorModel::ConfigTomlInvalid)
    } else if !auth_valid {
        Some(BackupErrorModel::AuthJsonInvalid)
    } else {
        scripts_error(backup.scripts, platform)
    }
}

/// Whether `str::parse::<toml::Value>` accepts the text.
pub uninterp spec fn toml_parses(text: Seq<char>) -> bool;

/// `str::parse::<toml::Value>` accepts or refuses the text; which of the two depends on the text
/// alone.
#[verifier::external_body]
fn is_toml(text: &str) -> (r: bool)
    ensures
        r == toml_parses(text@),
{
    text.parse::<toml::Value>().is_ok()
}

fn listed_before(files: &Vec<UserScriptBackup>, count: usize, name: &Vec<char>) -> (r: bool)
    requires
        count <= files@.len(),
    ensures
        r == exists|i: int|
            0 <= i < count && text::lowered((#[trigger] scripts(files@)[i]).name) == text::lowered(
                name@,
            ),
{
    let lower = text::lower_chars(name.as_slice());
    for i in 0..count
        invariant
            count <= files@.len(),
            lower@ == text::lowered(name@),
            forall|j: int|
                0 <= j < i ==> text::lowered((#[trigger] scripts(files@)[j]).name) != lower@,
    {
        let other = text::lower_chars(text::chars_of(files[i].name.as_str()).as_slice());
        assert(scripts(files@)[i as int].name == files@[i as int].name@);
        if text::same_chars(other.as_slice(), lower.as_slice()) {
            return true;
        }
    }
    false
}

fn check_scripts(files: &Vec<UserScriptBackup>, platform: Platform) -> (r: Result<(), BackupError>)
    ensures
        match r {
            Ok(_) => scripts_error(scripts(files@), platform) is None,
            Err(e) => scripts_error(scripts(files@), platform) == Some(e@),
        },
{
    let ghost model = scripts(files@);
    for i in 0..files.len()
        invariant
            model == scripts(files@),
            scripts_error(model.take(i as int), platform) is None,
    {
        let ghost front = model.take(i as int);
        assert(model.take(i + 1).drop_last() =~= front);
        assert(model.take(i + 1).last() == files@[i as int]@);
        let name = &files[i].name;
        let chars = text::chars_of(name.as_str());
        let good = validate_script_name(name.as_str(), platform);
        let repeated = listed_before(files, i, &chars);
        proof {
            if repeated {
                let j = choose|j: int|
                    0 <= j < i && text::lowered((#[trigger] model[j]).name) == text::lowered(name@);
                assert(front[j] == model[j]);
                assert(has_script(front, name@));
            } else {
                assert forall|j: int| 0 <= j < front.len() implies text::lowered(
                    (#[trigger] front[j]).name,
                ) != text::lowered(name@) by {
                    assert(front[j] == model[j]);
                }
            }
            if !good || repeated {
                lemma_scripts_error_stays(model, i + 1, platform);
            }
        }
        if !good {
            return Err(BackupError::InvalidScriptName(name.clone()));
        }
        if repeated {
            return Err(BackupError::DuplicateScript(name.clone()));
        }
    }
    assert(model.take(files@.len() as int) =~= model);
    Ok(())
}

proof fn lemma_scripts_error_stays(files: Seq<ScriptModel>, n: int, platform: Platform)
    requires
        0 <= n <= files.len(),
        scripts_error(files.take(n), platform) is Some,
    ensures
        scripts_error(files, platform) == scripts_error(files.take(n), platform),
    decreases files.len(),
{
    if n < files.len() {
        assert(files.drop_last().take(n) =~= files.take(n));
        lemma_scripts_error_stays(files.drop_last(), n, platform);
    } else {
        assert(files.take(n) =~= files);
    }
}

/// Decides whether a backup is accepted, its settings, its configuration and its login being valid or
/// not.
pub fn check_backup(
    backup: &ConfigBackup,
    settings_valid: bool,
    config_valid: bool,
    auth_valid: bool,
    platform: Platform,
) -> (r: Result<(), BackupError>)
    ensures
        match r {
            Ok(_) => backup_error(backup@, settings_valid, config_valid, auth_valid, platform) is None,
            Err(e) => backup_error(backup@, settings_valid, config_valid, auth_valid, platform)
                == Some(e@),
        },
{
    if !text::same_text(backup.format.as_str(), BACKUP_FORMAT) {
        Err(BackupError::UnsupportedFormat(backup.format.clone()))
    } else if backup.schema_version != SCHEMA_VERSION {
        Err(BackupError::UnsupportedSchema(backup.schema_version))
    } else if !backup.settings.is_object() {
        Err(BackupError::SettingsNotObject)
    } else if !settings_valid {
        Err(BackupError::SettingsInvalid)
    } else if !backup.user_scripts.config.is_object() {
        Err(BackupError::ScriptConfigNotObject)
    } else if !config_valid {
        Err(BackupError::ConfigTomlInvalid)
    } else if !auth_valid {
        Err(BackupError::AuthJsonInvalid)
    } else {
        check_scripts(&backup.user_scripts.files, platform)
    }
}

/// Whether the configuration in a backup is valid: it is TOML, or left out.
pub open spec fn config_is_valid(backup: BackupModel) -> bool {
    match backup.config_toml {
        Some(s) => toml_parses(s),
        None => true,
    }
}

/// Whether the login in a backup is valid: it is JSON, or left out.
pub open spec fn auth_is_valid(backup: BackupModel) -> bool {
    match backup.auth_json {
        Some(s) => json::json_parsed(s) is Some,
        None => true,
    }
}

/// Decides whether a backup is accepted, its settings being those of this program or not.
pub fn validate_backup(backup: &ConfigBackup, settings_valid: bool, platform: Platform) -> (r: Result<
    (),
    BackupError,
>)
    ensures
        match r {
            Ok(_) => backup_error(
                backup@,
                settings_valid,
                config_is_valid(backup@),
                auth_is_valid(backup@),
                platform,
            ) is None,
            Err(e) => backup_error(
                backup@,
                settings_valid,
                config_is_valid(backup@),
                auth_is_valid(backup@),
                platform,
            ) == Some(e@),
        },
{
    let config_valid = match &backup.codex_live.config_toml {
        Some(s) => is_toml(s.as_str()),
        None => true,
    };
    let auth_valid = match &backup.codex_live.auth_json {
        Some(s) => json::parse_json(s.as_str()).is_some(),
        None => true,
    };
    check_backup(backup, settings_valid, config_valid, auth_valid, platform)
}

/// Whether a file of this length is read as a backup.
pub fn backup_fits(length: u64) -> (r: bool)
    ensures
        r == (length <= MAX_BACKUP_BYTES),
{
    length <= MAX_BACKUP_BYTES
}

/// The scripts of an accepted backup stay in the directory of the scripts, and no two of them
/// have the same name, upper and lower case being the same.
pub proof fn law_accepted_scripts_are_safe(files: Seq<ScriptModel>, platform: Platform)
    requires
        scripts_error(files, platform) is None,
    ensures
        forall|i: int|
            0 <= i < files.len() ==> script_name((#[trigger] files[i]).name, platform),
        forall|i: int, j: int|
            0 <= i < j < files.len() ==> text::lowered((#[trigger] files[i]).name) != text::lowered(
                (#[trigger] files[j]).name,
            ),
    decreases files.len(),
{
    if files.len() > 0 {
        let front = files.drop_last();
        law_accepted_scripts_are_safe(front, platform);
        assert forall|i: int| 0 <= i < files.len() implies script_name(
            (#[trigger] files[i]).name,
            platform,
        ) by {
            if i < front.len() {
                assert(files[i] == front[i]);
            }
        }
        assert forall|i: int, j: int| 0 <= i < j < files.len() implies text::lowered(
            (#[trigger] files[i]).name,
        ) != text::lowered((#[trigger] files[j]).name) by {
            assert(files[i] == front[i]);
            if j < front.len() {
                assert(files[j] == front[j]);
            }
        }
    }
}

// ---------------------------------------------------------------------------------------
// Making a backup
// ---------------------------------------------------------------------------------------

/// Why the JSON object in a file cannot be used.
#[derive(Clone, Copy, Debug, PartialEq, Eq, Structural)]
pub enum ObjectError {
    InvalidJson,
    NotObject,
}

/// The text for a file whose JSON object cannot be used.
pub fn object_error_message(error: ObjectError, path: &str) -> (r: String)
    ensures
        r@ == (match error {
            ObjectError::InvalidJson => "invalid JSON in "@ + path@,
            ObjectError::NotObject => "expected a JSON object in "@ + path@,
        }),
{
    match error {
        ObjectError::InvalidJson => "invalid JSON in ".to_owned().concat(path),
        ObjectError::NotObject => "expected a JSON object in ".to_owned().concat(path),
    }
}

/// The object that a document is, if it is one.
pub open spec fn as_object(document: Option<JsonModel>) -> Result<JsonModel, ObjectError> {
    match document {
        None => Err(ObjectError::InvalidJson),
        Some(d) => if d is Object {
            Ok(d)
        } else {
            Err(ObjectError::NotObject)
        },
    }
}

/// The object in a file, or another one where there is no file.
pub open spec fn object_in(file: Option<Seq<char>>, default: JsonModel) -> Result<
    JsonModel,
    ObjectError,
> {
    match file {
        None => Ok(default),
        Some(s) => as_object(json::json_parsed(s)),
    }
}

/// The object that a document is, if it is one.
pub fn object_of(document: Option<Json>) -> (r: Result<Json, ObjectError>)
    ensures
        match r {
            Ok(d) => as_object(
                match document {
                    Some(d) => Some(d@),
                    None => None,
                },
            ) == Ok::<JsonModel, ObjectError>(d@),
            Err(e) => as_object(
                match document {
                    Some(d) => Some(d@),
                    None => None,
                },
            ) == Err::<JsonModel, ObjectError>(e),
        },
{
    match document {
        None => Err(ObjectError::InvalidJson),
        Some(d) => if d.is_object() {
            Ok(d)
        } else {
            Err(ObjectError::NotObject)
        },
    }
}

/// The object in a file, or another one where there is no file.
pub fn read_json_object_or_default(file: Option<&str>, default: Json) -> (r: Result<
    Json,
    ObjectError,
>)
    ensures
        ({
            let expected = object_in(
                match file {
                    Some(s) => Some(s@),
                    None => None,
                },
                default@,
            );
            match r {
                Ok(d) => expected == Ok::<JsonModel, ObjectError>(d@),
                Err(e) => expected == Err::<JsonModel, ObjectError>(e),
            }
        }),
{
    match file {
        None => Ok(default),
        Some(s) => object_of(json::parse_json(s)),
    }
}

/// The script that a file in the directory of the scripts is, by the extension and the name of
/// the file, which are absent where they are no text. A file without the extension of a script or
/// without a name is none.
pub open spec fn listed_script(
    extension: Option<Seq<char>>,
    name: Option<Seq<char>>,
    platform: Platform,
) -> Result<Option<Seq<char>>, BackupErrorModel> {
    match name {
        Some(n) => if extension != Some("js"@) {
            Ok(None)
        } else if script_name(n, platform) {
            Ok(Some(n))
        } else {
            Err(BackupErrorModel::InvalidScriptName(n))
        },
        None => Ok(None),
    }
}

pub fn list_script(extension: Option<&str>, name: Option<&str>, platform: Platform) -> (r: Result<
    Option<String>,
    BackupError,
>)
    ensures
        ({
            let expected = listed_script(
                match extension {
                    Some(e) => Some(e@),
                    None => None,
                },
                match name {
                    Some(n) => Some(n@),
                    None => None,
                },
                platform,
            );
            match r {
                Ok(listed) => expected == Ok::<Option<Seq<char>>, BackupErrorModel>(
                    text::opt_text(listed),
                ),
                Err(e) => expected == Err::<Option<Seq<char>>, BackupErrorModel>(e@),
            }
        }),
{
    let script = match extension {
        Some(e) => text::same_text(e, "js"),
        None => false,
    };
    match name {
        Some(n) => if !script {
            Ok(None)
        } else if validate_script_name(n, platform) {
            Ok(Some(n.to_owned()))
        } else {
            Err(BackupError::InvalidScriptName(n.to_owned()))
        },
        None => Ok(None),
    }
}

/// The settings where there are none.
pub fn default_settings() -> (r: Json)
    ensures
        r@ == JsonModel::Object(Seq::empty()),
{
    broadcast use json::lemma_view;

    let none: Vec<(String, Json)> = Vec::new();
    assert(json::entry_models(none@) =~= Seq::empty());
    Json::Object(none)
}

/// The configuration of the scripts where there is none.
pub open spec fn default_script_config_model() -> JsonModel {
    JsonModel::Object(
        seq![
            ("enabled"@, JsonModel::Bool(true)),
            ("scripts"@, JsonModel::Object(Seq::empty())),
        ],
    )
}

pub fn default_script_config() -> (r: Json)
    ensures
        r@ == default_script_config_model(),
{
    broadcast use json::lemma_view;

    let mut fields: Vec<(String, Json)> = Vec::new();
    fields.push(("enabled".to_owned(), Json::Bool(true)));
    fields.push(("scripts".to_owned(), default_settings()));
    assert(json::entry_models(fields@) =~= default_script_config_model()->Object_0);
    Json::Object(fields)
}

/// The scripts with one more behind all whose names come no later.
pub open spec fn placed(sorted: Seq<ScriptModel>, script: ScriptModel) -> Seq<ScriptModel>
    decreases sorted.len(),
{
    if sorted.len() == 0 || text::at_most(sorted.last().name, script.name) {
        sorted.push(script)
    } else {
        placed(sorted.drop_last(), script).push(sorted.last())
    }
}

/// The scripts in the order of their names.
pub open spec fn by_name(files: Seq<ScriptModel>) -> Seq<ScriptModel>
    decreases files.len(),
{
    if files.len() == 0 {
        files
    } else {
        placed(by_name(files.drop_last()), files.last())
    }
}

fn place(sorted: &mut Vec<UserScriptBackup>, script: UserScriptBackup)
    ensures
        scripts(final(sorted)@) == placed(scripts(old(sorted)@), script@),
{
    let ghost all = scripts(sorted@);
    let name = text::chars_of(script.name.as_str());
    let mut k: usize = sorted.len();
    assert(all.take(k as int) =~= all);
    assert(placed(all, script@) + all.skip(k as int) =~= placed(all, script@));
    while k > 0
        invariant
            k <= sorted@.len(),
            all == scripts(sorted@),
            sorted@ == old(sorted)@,
            name@ == script.name@,
            placed(all.take(k as int), script@) + all.skip(k as int) == placed(all, script@),
        ensures
            k <= sorted@.len(),
            all == scripts(sorted@),
            sorted@ == old(sorted)@,
            all.take(k as int).push(script@) + all.skip(k as int) == placed(all, script@),
        decreases k,
    {
        let ghost front = all.take(k as int);
        assert(front.last() == sorted@[k - 1]@);
        let before = text::chars_of(sorted[k - 1].name.as_str());
        if text::is_at_most(before.as_slice(), name.as_slice()) {
            break;
        }
        proof {
            assert(front.drop_last() =~= all.take(k - 1));
            let rest = placed(all.take(k - 1), script@);
            assert(rest.push(front.last()) + all.skip(k as int) =~= rest + all.skip(k - 1));
        }
        k = k - 1;
    }
    let ghost model = script@;
    sorted.insert(k, script);
    assert(scripts(sorted@) =~= all.take(k as int).push(model) + all.skip(k as int));
}

/// Sorts scripts by their names.
pub fn sort_scripts(files: Vec<UserScriptBackup>) -> (r: Vec<UserScriptBackup>)
    ensures
        scripts(r@) == by_name(scripts(files@)),
{
    let ghost all = scripts(files@);
    let mut rest = files;
    let mut back: Vec<UserScriptBackup> = Vec::new();
    while rest.len() > 0
        invariant
            scripts(rest@) + scripts(back@).reverse() == all,
        decreases rest@.len(),
    {
        let ghost before = scripts(rest@);
        let ghost behind = scripts(back@);
        match rest.pop() {
            Some(script) => {
                back.push(script);
                proof {
                    assert(scripts(rest@) =~= before.drop_last());
                    assert(scripts(back@) =~= behind.push(before.last()));
                    assert(scripts(rest@) + scripts(back@).reverse() =~= before
                        + behind.reverse());
                }
            },
            None => {},
        }
    }
    assert(scripts(back@).reverse() =~= all);
    let mut sorted: Vec<UserScriptBackup> = Vec::new();
    let ghost mut taken: int = 0;
    assert(scripts(sorted@) =~= by_name(all.take(0)));
    while back.len() > 0
        invariant
            0 <= taken <= all.len(),
            scripts(back@).reverse() == all.skip(taken),
            scripts(sorted@) == by_name(all.take(taken)),
        decreases back@.len(),
    {
        let ghost behind = scripts(back@);
        match back.pop() {
            Some(script) => {
                proof {
                    assert(script@ == behind.last());
                    assert(behind.reverse()[0] == behind.last());
                    assert(behind.reverse().len() == behind.len());
                    assert(taken < all.len());
                    assert(all.skip(taken)[0] == all[taken]);
                    assert(scripts(back@) =~= behind.drop_last());
                    assert(scripts(back@).reverse() =~= all.skip(taken).skip(1));
                    assert(all.skip(taken).skip(1) =~= all.skip(taken + 1));
                    assert(all.take(taken + 1).drop_last() =~= all.take(taken));
                    taken = taken + 1;
                }
                place(&mut sorted, script);
            },
            None => {},
        }
    }
    assert(all.skip(taken).len() == 0);
    assert(all.take(taken) =~= all);
    sorted
}

/// A backup of the parts of the configuration, with the version of this program and the time.
pub fn collect_backup(
    app_version: &str,
    exported_at_unix: u64,
    settings: Json,
    config_toml: Option<String>,
    auth_json: Option<String>,
    script_config: Json,
    files: Vec<UserScriptBackup>,
) -> (r: ConfigBackup)
    ensures
        r@ == (BackupModel {
            format: BACKUP_FORMAT@,
            schema_version: SCHEMA_VERSION,
            app_version: app_version@,
            exported_at_unix,
            settings: settings@,
            config_toml: text::opt_text(config_toml),
            auth_json: text::opt_text(auth_json),
            script_config: script_config@,
            scripts: by_name(scripts(files@)),
        }),
{
    ConfigBackup {
        format: BACKUP_FORMAT.to_owned(),
        schema_version: SCHEMA_VERSION,
        app_version: app_version.to_owned(),
        exported_at_unix,
        settings,
        codex_live: CodexLiveBackup { config_toml, auth_json },
        user_scripts: UserScriptsBackup { config: script_config, files: sort_scripts(files) },
    }
}

/// The name of the backup that is made before an import.
pub fn automatic_backup_name(millis: u128) -> (r: String)
    ensures
        r@ == "codex-plus-before-import-"@ + number::decimal(millis as nat) + ".json"@,
{
    let digits = text::text_of(number::decimal_chars(millis).as_slice());
    "codex-plus-before-import-".to_owned().concat(digits.as_str()).concat(".json")
}

// ---------------------------------------------------------------------------------------
// The order of the scripts
// ---------------------------------------------------------------------------------------

pub open spec fn is_by_name(files: Seq<ScriptModel>) -> bool {
    forall|i: int, j: int|
        0 <= i < j < files.len() ==> text::at_most(
            (#[trigger] files[i]).name,
            (#[trigger] files[j]).name,
        )
}

proof fn lemma_placed_members(sorted: Seq<ScriptModel>, script: ScriptModel)
    ensures
        placed(sorted, script).len() == sorted.len() + 1,
        forall|i: int|
            0 <= i < placed(sorted, script).len() ==> (#[trigger] placed(sorted, script)[i])
                == script || sorted.contains(placed(sorted, script)[i]),
        placed(sorted, script).to_multiset() == sorted.to_multiset().insert(script),
    decreases sorted.len(),
{
    if sorted.len() == 0 || text::at_most(sorted.last().name, script.name) {
        vstd::seq_lib::to_multiset_build(sorted, script);
        assert forall|i: int| 0 <= i < sorted.len() implies sorted.contains(
            #[trigger] sorted.push(script)[i],
        ) by {
            assert(sorted[i] == sorted.push(script)[i]);
        }
    } else {
        let front = sorted.drop_last();
        lemma_placed_members(front, script);
        let shorter = placed(front, script);
        let whole = placed(sorted, script);
        vstd::seq_lib::to_multiset_build(shorter, sorted.last());
        vstd::seq_lib::to_multiset_build(front, sorted.last());
        assert(front.push(sorted.last()) =~= sorted);
        assert(whole.to_multiset() =~= sorted.to_multiset().insert(script));
        assert forall|i: int| 0 <= i < whole.len() implies (#[trigger] whole[i]) == script
            || sorted.contains(whole[i]) by {
            if i < shorter.len() {
                assert(whole[i] == shorter[i]);
                if shorter[i] != script {
                    let k = front.index_of(shorter[i]);
                    assert(sorted[k] == shorter[i]);
                }
            } else {
                assert(sorted[sorted.len() - 1] == whole[i]);
            }
        }
    }
}

proof fn lemma_placed_sorted(sorted: Seq<ScriptModel>, script: ScriptModel)
    requires
        is_by_name(sorted),
    ensures
        is_by_name(placed(sorted, script)),
    decreases sorted.len(),
{
    let whole = placed(sorted, script);
    if sorted.len() == 0 || text::at_most(sorted.last().name, script.name) {
        assert forall|i: int, j: int| 0 <= i < j < whole.len() implies text::at_most(
            (#[trigger] whole[i]).name,
            (#[trigger] whole[j]).name,
        ) by {
            assert(whole[i] == sorted[i]);
            if j < sorted.len() {
                assert(whole[j] == sorted[j]);
            } else if i < sorted.len() - 1 {
                assert(text::at_most(sorted[i].name, sorted[sorted.len() - 1].name));
                text::lemma_at_most_transitive(sorted[i].name, sorted.last().name, script.name);
            }
        }
    } else {
        let front = sorted.drop_last();
        assert forall|i: int, j: int| 0 <= i < j < front.len() implies text::at_most(
            (#[trigger] front[i]).name,
            (#[trigger] front[j]).name,
        ) by {
            assert(front[i] == sorted[i] && front[j] == sorted[j]);
        }
        lemma_placed_sorted(front, script);
        lemma_placed_members(front, script);
        text::lemma_at_most_total(sorted.last().name, script.name);
        let shorter = placed(front, script);
        assert forall|i: int, j: int| 0 <= i < j < whole.len() implies text::at_most(
            (#[trigger] whole[i]).name,
            (#[trigger] whole[j]).name,
        ) by {
            assert(whole[i] == shorter[i]);
            if j < shorter.len() {
                assert(whole[j] == shorter[j]);
            } else if shorter[i] != script {
                let k = front.index_of(shorter[i]);
                assert(sorted[k] == shorter[i]);
                assert(text::at_most(sorted[k].name, sorted[sorted.len() - 1].name));
            }
        }
    }
}

/// A backup holds each script that was there, and it holds them in the order of their names.
pub proof fn law_backup_holds_every_script_in_order(files: Seq<ScriptModel>)
    ensures
        by_name(files).to_multiset() == files.to_multiset(),
        is_by_name(by_name(files)),
    decreases files.len(),
{
    if files.len() > 0 {
        let front = files.drop_last();
        law_backup_holds_every_script_in_order(front);
        lemma_placed_members(by_name(front), files.last());
        lemma_placed_sorted(by_name(front), files.last());
        vstd::seq_lib::to_multiset_build(front, files.last());
        assert(front.push(files.last()) =~= files);
    }
}

/// Whether every name is that of a script, and no two are the same, upper and lower case being
/// the same.
pub open spec fn well_named(files: Seq<ScriptModel>, platform: Platform) -> bool {
    &&& forall|i: int| 0 <= i < files.len() ==> script_name((#[trigger] files[i]).name, platform)
    &&& forall|i: int, j: int|
        0 <= i < j < files.len() ==> text::lowered((#[trigger] files[i]).name) != text::lowered(
            (#[trigger] files[j]).name,
        )
}

proof fn lemma_well_named_scripts_pass(files: Seq<ScriptModel>, platform: Platform)
    requires
        well_named(files, platform),
    ensures
        scripts_error(files, platform) is None,
    decreases files.len(),
{
    if files.len() > 0 {
        let front = files.drop_last();
        assert(well_named(front, platform)) by {
            assert forall|i: int| 0 <= i < front.len() implies script_name(
                (#[trigger] front[i]).name,
                platform,
            ) by {
                assert(front[i] == files[i]);
            }
            assert forall|i: int, j: int| 0 <= i < j < front.len() implies text::lowered(
                (#[trigger] front[i]).name,
            ) != text::lowered((#[trigger] front[j]).name) by {
                assert(front[i] == files[i] && front[j] == files[j]);
            }
        }
        lemma_well_named_scripts_pass(front, platform);
        assert(script_name(files[files.len() - 1].name, platform));
        if has_script(front, files.last().name) {
            let i = choose|i: int|
                0 <= i < front.len() && text::lowered((#[trigger] front[i]).name) == text::lowered(
                    files.last().name,
                );
            assert(files[i] == front[i]);
            assert(text::lowered(files[i].name) != text::lowered(files[files.len() - 1].name));
        }
    }
}

proof fn lemma_placed_well_named(
    sorted: Seq<ScriptModel>,
    script: ScriptModel,
    platform: Platform,
)
    requires
        well_named(sorted.push(script), platform),
    ensures
        well_named(placed(sorted, script), platform),
    decreases sorted.len(),
{
    let all = sorted.push(script);
    if sorted.len() > 0 && !text::at_most(sorted.last().name, script.name) {
        let front = sorted.drop_last();
        let shorter = placed(front, script);
        let whole = placed(sorted, script);
        let last = sorted.last();
        assert(well_named(front.push(script), platform)) by {
            let some = front.push(script);
            assert forall|i: int| 0 <= i < some.len() implies script_name(
                (#[trigger] some[i]).name,
                platform,
            ) by {
                let k = if i < front.len() { i } else { all.len() - 1 };
                assert(some[i] == all[k]);
            }
            assert forall|i: int, j: int| 0 <= i < j < some.len() implies text::lowered(
                (#[trigger] some[i]).name,
            ) != text::lowered((#[trigger] some[j]).name) by {
                let k = if j < front.len() { j } else { all.len() - 1 };
                assert(some[i] == all[i] && some[j] == all[k]);
            }
        }
        lemma_placed_well_named(front, script, platform);
        lemma_placed_members(front, script);
        assert(all[all.len() - 2] == last);
        assert forall|i: int| 0 <= i < whole.len() implies script_name(
            (#[trigger] whole[i]).name,
            platform,
        ) by {
            if i < shorter.len() {
                assert(whole[i] == shorter[i]);
            } else {
                assert(script_name(all[all.len() - 2].name, platform));
            }
        }
        assert forall|i: int, j: int| 0 <= i < j < whole.len() implies text::lowered(
            (#[trigger] whole[i]).name,
        ) != text::lowered((#[trigger] whole[j]).name) by {
            assert(whole[i] == shorter[i]);
            if j < shorter.len() {
                assert(whole[j] == shorter[j]);
            } else if shorter[i] == script {
                assert(text::lowered(all[all.len() - 2].name) != text::lowered(
                    all[all.len() - 1].name,
                ));
            } else {
                let k = front.index_of(shorter[i]);
                assert(all[k] == shorter[i]);
                assert(text::lowered(all[k].name) != text::lowered(all[all.len() - 2].name));
            }
        }
    }
}

proof fn lemma_by_name_well_named(files: Seq<ScriptModel>, platform: Platform)
    requires
        well_named(files, platform),
    ensures
        well_named(by_name(files), platform),
        by_name(files).len() == files.len(),
        forall|i: int|
            0 <= i < by_name(files).len() ==> files.contains(#[trigger] by_name(files)[i]),
    decreases files.len(),
{
    if files.len() > 0 {
        let front = files.drop_last();
        let last = files.last();
        assert(well_named(front, platform)) by {
            assert forall|i: int| 0 <= i < front.len() implies script_name(
                (#[trigger] front[i]).name,
                platform,
            ) by {
                assert(front[i] == files[i]);
            }
            assert forall|i: int, j: int| 0 <= i < j < front.len() implies text::lowered(
                (#[trigger] front[i]).name,
            ) != text::lowered((#[trigger] front[j]).name) by {
                assert(front[i] == files[i] && front[j] == files[j]);
            }
        }
        lemma_by_name_well_named(front, platform);
        let sorted = by_name(front);
        assert(files[files.len() - 1] == last);
        assert(well_named(sorted.push(last), platform)) by {
            let some = sorted.push(last);
            assert forall|i: int| 0 <= i < some.len() implies script_name(
                (#[trigger] some[i]).name,
                platform,
            ) by {
                if i < sorted.len() {
                    assert(some[i] == sorted[i]);
                } else {
                    assert(script_name(files[files.len() - 1].name, platform));
                }
            }
            assert forall|i: int, j: int| 0 <= i < j < some.len() implies text::lowered(
                (#[trigger] some[i]).name,
            ) != text::lowered((#[trigger] some[j]).name) by {
                assert(some[i] == sorted[i]);
                if j < sorted.len() {
                    assert(some[j] == sorted[j]);
                } else {
                    let k = front.index_of(sorted[i]);
                    assert(files[k] == sorted[i]);
                    assert(text::lowered(files[k].name) != text::lowered(
                        files[files.len() - 1].name,
                    ));
                }
            }
        }
        lemma_placed_well_named(sorted, last, platform);
        lemma_placed_members(sorted, last);
        assert forall|i: int| 0 <= i < by_name(files).len() implies files.contains(
            #[trigger] by_name(files)[i],
        ) by {
            if by_name(files)[i] != last {
                let k = sorted.index_of(by_name(files)[i]);
                assert(front.contains(sorted[k]));
                let m = front.index_of(sorted[k]);
                assert(files[m] == by_name(files)[i]);
            }
        }
    }
}

/// A backup that is made is accepted by an import: where the settings and the configuration of
/// the scripts are objects, the files of Codex are valid, and the names of the scripts differ in
/// more than upper and lower case.
pub proof fn law_made_backup_is_accepted(
    backup: BackupModel,
    files: Seq<ScriptModel>,
    platform: Platform,
)
    requires
        backup.format == BACKUP_FORMAT@,
        backup.schema_version == SCHEMA_VERSION,
        backup.settings is Object,
        backup.script_config is Object,
        backup.scripts == by_name(files),
        config_is_valid(backup),
        auth_is_valid(backup),
        well_named(files, platform),
    ensures
        backup_error(backup, true, config_is_valid(backup), auth_is_valid(backup), platform) is None,
{
    lemma_by_name_well_named(files, platform);
    lemma_well_named_scripts_pass(backup.scripts, platform);
}

// ---------------------------------------------------------------------------------------
// What is accepted and what is kept
// ---------------------------------------------------------------------------------------

/// A plain name is that of a script where its extension is `js`; a path into another directory is
/// none.
pub proof fn law_scripts_are_told_by_extension(
    name: &str,
    stem: Seq<char>,
    ext: Seq<char>,
    platform: Platform,
    r: bool,
)
    requires
        call_ensures(validate_script_name, (name, platform), r),
        stem.len() > 0,
        stem.push('.') + ext != seq!['.', '.'],
        !ext.contains('.'),
        !(stem.push('.') + ext).contains('/'),
        platform == Platform::Windows ==> !(stem.push('.') + ext).contains('\\') && stem.push('.')[1]
            != ':',
    ensures
        name@ == stem.push('.') + ext ==> (r <==> ext == "js"@),
        name@ == seq!['/'] + (stem.push('.') + ext) ==> !r,
        name@ == (stem.push('.') + ext).push('/') + (stem.push('.') + ext) ==> !r,
{
    let plain = stem.push('.') + ext;
    file_name::law_extension_follows_the_last_dot(stem, ext);
    assert(plain != seq!['.']) by {
        assert(plain.len() >= 2);
    }
    assert(plain[1] == stem.push('.')[1]);
    file_name::law_plain_name_names_itself(plain, plain, platform);
}

/// Whether two names differ in more than upper and lower case.
pub open spec fn differs(a: Seq<char>, b: Seq<char>) -> bool {
    text::lowered(a) != text::lowered(b)
}

/// Scripts are checked one after the other. What is said of the first that is refused stays; the
/// next one is refused where its name is not that of a script, or differs from one before it in
/// upper and lower case at most.
pub proof fn law_scripts_are_checked_in_order(
    files: Seq<ScriptModel>,
    next: ScriptModel,
    platform: Platform,
)
    ensures
        scripts_error(Seq::empty(), platform) is None,
        scripts_error(files, platform) is Some ==> scripts_error(files.push(next), platform)
            == scripts_error(files, platform),
        scripts_error(files, platform) is None ==> scripts_error(files.push(next), platform) == (
        if !script_name(next.name, platform) {
            Some(BackupErrorModel::InvalidScriptName(next.name))
        } else if forall|i: int|
            0 <= i < files.len() ==> differs((#[trigger] files[i]).name, next.name) {
            None
        } else {
            Some(BackupErrorModel::DuplicateScript(next.name))
        }),
{
    assert(files.push(next).drop_last() =~= files);
    assert(files.push(next).last() == next);
    if has_script(files, next.name) {
        let i = choose|i: int|
            0 <= i < files.len() && text::lowered((#[trigger] files[i]).name) == text::lowered(
                next.name,
            );
        assert(!differs(files[i].name, next.name));
    }
}

/// A backup is accepted where it is one of this program and of this version, its settings and the
/// configuration of its scripts are objects, its settings are valid, the two files of Codex are
/// valid or left out, and its scripts are accepted. The first of these that fails is the error.
pub proof fn law_backup_is_checked_part_by_part(
    backup: ConfigBackup,
    settings_valid: bool,
    platform: Platform,
    r: Result<(), BackupError>,
)
    requires
        call_ensures(validate_backup, (&backup, settings_valid, platform), r),
    ensures
        ({
            let config = backup.codex_live.config_toml;
            let auth = backup.codex_live.auth_json;
            let found = scripts_error(scripts(backup.user_scripts.files@), platform);
            if backup.format@ != "codex-plus-plus-backup"@ {
                r is Err && r->Err_0 is UnsupportedFormat && (r->Err_0->UnsupportedFormat_0)@
                    == backup.format@
            } else if backup.schema_version != 1 {
                r is Err && r->Err_0 is UnsupportedSchema && r->Err_0->UnsupportedSchema_0
                    == backup.schema_version
            } else if !(backup.settings@ is Object) {
                r is Err && r->Err_0 is SettingsNotObject
            } else if !settings_valid {
                r is Err && r->Err_0 is SettingsInvalid
            } else if !(backup.user_scripts.config@ is Object) {
                r is Err && r->Err_0 is ScriptConfigNotObject
            } else if config is Some && !toml_parses(config->0@) {
                r is Err && r->Err_0 is ConfigTomlInvalid
            } else if auth is Some && json::json_parsed(auth->0@) is None {
                r is Err && r->Err_0 is AuthJsonInvalid
            } else {
                match r {
                    Ok(_) => found is None,
                    Err(BackupError::InvalidScriptName(name)) => found == Some(
                        BackupErrorModel::InvalidScriptName(name@),
                    ),
                    Err(BackupError::DuplicateScript(name)) => found == Some(
                        BackupErrorModel::DuplicateScript(name@),
                    ),
                    Err(_) => false,
                }
            }
        }),
{
    lemma_scripts_error_kind(scripts(backup.user_scripts.files@), platform);
}

proof fn lemma_scripts_error_kind(files: Seq<ScriptModel>, platform: Platform)
    ensures
        match scripts_error(files, platform) {
            None => true,
            Some(e) => e is InvalidScriptName || e is DuplicateScript,
        },
    decreases files.len(),
{
    if files.len() > 0 {
        lemma_scripts_error_kind(files.drop_last(), platform);
    }
}

/// What is made a backup of stands in it, each in its place, and the scripts in the order of
/// their names.
pub proof fn law_backup_holds_each_part(
    app_version: &str,
    time: u64,
    settings: Json,
    config_toml: Option<String>,
    auth_json: Option<String>,
    script_config: Json,
    files: Vec<UserScriptBackup>,
    r: ConfigBackup,
)
    requires
        call_ensures(
            collect_backup,
            (app_version, time, settings, config_toml, auth_json, script_config, files),
            r,
        ),
    ensures
        r.format@ == "codex-plus-plus-backup"@,
        r.schema_version == 1,
        r.app_version@ == app_version@,
        r.exported_at_unix == time,
        r.settings@ == settings@,
        r.user_scripts.config@ == script_config@,
        r.codex_live.config_toml is Some <==> config_toml is Some,
        config_toml is Some ==> r.codex_live.config_toml->0@ == config_toml->0@,
        r.codex_live.auth_json is Some <==> auth_json is Some,
        auth_json is Some ==> r.codex_live.auth_json->0@ == auth_json->0@,
        scripts(r.user_scripts.files@).to_multiset() == scripts(files@).to_multiset(),
        forall|i: int, j: int|
            0 <= i < j < r.user_scripts.files@.len() ==> text::at_most(
                (#[trigger] r.user_scripts.files@[i]).name@,
                (#[trigger] r.user_scripts.files@[j]).name@,
            ),
{
    let all = scripts(r.user_scripts.files@);
    law_backup_holds_every_script_in_order(scripts(files@));
    assert forall|i: int, j: int| 0 <= i < j < r.user_scripts.files@.len() implies text::at_most(
        (#[trigger] r.user_scripts.files@[i]).name@,
        (#[trigger] r.user_scripts.files@[j]).name@,
    ) by {
        assert(text::at_most(all[i].name, all[j].name));
    }
}

/// What is read of a script is what its fields hold, and of scripts what each holds.
pub proof fn law_scripts_are_read_by_their_fields(files: Seq<UserScriptBackup>, i: int)
    requires
        0 <= i < files.len(),
    ensures
        scripts(files).len() == files.len(),
        scripts(files)[i].name == files[i].name@,
        scripts(files)[i].contents == files[i].contents@,
{
}

/// A file of up to 32 MiB is read as a backup.
pub proof fn law_backups_are_limited(length: u64, r: bool)
    requires
        call_ensures(backup_fits, (length,), r),
    ensures
        r <==> length <= 32 * 1024 * 1024,
{
}

/// The object in a file is what the file says; where there is no file the other one is taken, and
/// a file that says something else is an error.
pub proof fn law_object_is_what_the_file_says(
    file: Option<&str>,
    default: Json,
    r: Result<Json, ObjectError>,
)
    requires
        call_ensures(read_json_object_or_default, (file, default), r),
    ensures
        match file {
            None => r is Ok && r->Ok_0@ == default@,
            Some(s) => match json::json_parsed(s@) {
                None => r == Err::<Json, ObjectError>(ObjectError::InvalidJson),
                Some(document) => if document is Object {
                    r is Ok && r->Ok_0@ == document
                } else {
                    r == Err::<Json, ObjectError>(ObjectError::NotObject)
                },
            },
        },
{
}

/// A file in the directory of the scripts goes into a backup where its extension is `js`; then
/// its name must be that of a script.
pub proof fn law_files_are_listed_by_extension(
    extension: Option<&str>,
    name: Option<&str>,
    platform: Platform,
    accepted: bool,
    r: Result<Option<String>, BackupError>,
)
    requires
        call_ensures(list_script, (extension, name, platform), r),
        name is Some ==> call_ensures(validate_script_name, (name->0, platform), accepted),
    ensures
        ({
            let listed = name is Some && extension is Some && extension->0@ == "js"@;
            &&& !listed ==> r is Ok && r->Ok_0 is None
            &&& listed && accepted ==> r is Ok && r->Ok_0 is Some && r->Ok_0->0@ == name->0@
            &&& listed && !accepted ==> r is Err && r->Err_0 is InvalidScriptName && (
            r->Err_0->InvalidScriptName_0)@ == name->0@
        }),
{
}

/// Where there is no configuration of the scripts they are switched on, and none of them is named.
pub proof fn law_scripts_are_on_by_default(r: Json)
    requires
        call_ensures(default_script_config, (), r),
    ensures
        r@.boolean_at("enabled"@) == Some(true),
        r@.get("scripts"@) == Some(JsonModel::Object(Seq::empty())),
{
    reveal_strlit("enabled");
    reveal_strlit("scripts");
    assert("enabled"@[0] == 'e' && "scripts"@[0] == 's');
    let fields = default_script_config_model()->Object_0;
    json::lemma_entry_found(fields, 0);
    json::lemma_entry_found(fields, 1);
}

/// Each reason for which a backup is refused has words of its own, which name what is refused.
pub proof fn law_backup_errors_are_told_apart(error: BackupError, r: String)
    requires
        call_ensures(BackupError::message, (&error,), r),
    ensures
        r@ == (match error {
            BackupError::UnsupportedFormat(s) => "unsupported backup format: "@ + s@,
            BackupError::UnsupportedSchema(n) => "unsupported backup schema version: "@
                + number::decimal(n as nat),
            BackupError::SettingsNotObject => "backup settings must be a JSON object"@,
            BackupError::SettingsInvalid => "backup settings are invalid"@,
            BackupError::ScriptConfigNotObject =>
                "backup user script config must be a JSON object"@,
            BackupError::ConfigTomlInvalid => "backup config.toml is invalid"@,
            BackupError::AuthJsonInvalid => "backup auth.json is invalid"@,
            BackupError::InvalidScriptName(s) => "invalid user script filename: "@ + s@,
            BackupError::DuplicateScript(s) => "duplicate user script in backup: "@ + s@,
        }),
{
}

/// The backups that are made before imports at different times have different names.
pub proof fn law_automatic_backups_are_named_by_time(a: u128, b: u128, name: String, other: String)
    requires
        call_ensures(automatic_backup_name, (a,), name),
        call_ensures(automatic_backup_name, (b,), other),
    ensures
        text::begins(name@, "codex-plus-before-import-"@),
        text::ends(name@, ".json"@),
        name@ == other@ ==> a == b,
{
    let front = "codex-plus-before-import-"@;
    let back = ".json"@;
    let x = number::decimal(a as nat);
    let y = number::decimal(b as nat);
    assert(name@.subrange(0, front.len() as int) =~= front);
    assert(name@.subrange(name@.len() - back.len(), name@.len() as int) =~= back);
    if name@ == other@ {
        assert(x.len() == y.len());
        assert(name@.subrange(front.len() as int, (front.len() + x.len()) as int) =~= x);
        assert(other@.subrange(front.len() as int, (front.len() + y.len()) as int) =~= y);
        number::law_decimal_reads_back(a as nat);
        number::law_decimal_reads_back(b as nat);
    }
}

} // verus!
