//! What the import of a backup writes and removes.
use crate::config_backup;
use crate::config_backup::{BackupModel, ConfigBackup, ConfigImportResult, ScriptModel, UserScriptBackup};
use crate::file_name;
use crate::json;
use crate::json::JsonModel;
use crate::json_order;
use crate::platform::Platform;
use crate::text;
use vstd::prelude::*;

verus! {

/// What an import writes, in this order: the settings, the two files of Codex, which are removed
/// where the backup has none, the configuration of the scripts, and the scripts.
pub struct ImportPlan {
    pub settings: Vec<u8>,
    pub config_toml: Option<String>,
    pub auth_json: Option<String>,
    pub script_config: Vec<u8>,
    pub scripts: Vec<UserScriptBackup>,
}

/// Whether a plan is that of the import of a backup. The settings and the configuration of the
/// scripts are written as those of the backup, tidied, and read back as that where their numbers
/// are integers and they are not too deep.
pub open spec fn is_plan_of(plan: ImportPlan, backup: BackupModel) -> bool {
    &&& plan.settings@ == json::json_pretty(json_order::tidied(backup.settings))
    &&& json::is_readable(backup.settings) ==> json::reads_as(
        plan.settings@,
        json_order::tidied(backup.settings),
    )
    &&& plan.script_config@ == json::json_pretty(json_order::tidied(backup.script_config))
    &&& json::is_readable(backup.script_config) ==> json::reads_as(
        plan.script_config@,
        json_order::tidied(backup.script_config),
    )
    &&& text::opt_text(plan.config_toml) == backup.config_toml
    &&& text::opt_text(plan.auth_json) == backup.auth_json
    &&& config_backup::scripts(plan.scripts@) == backup.scripts
}

/// Says what the import of a backup writes.
pub fn plan_import(backup: ConfigBackup) -> (r: ImportPlan)
    ensures
        is_plan_of(r, backup@),
{
    ImportPlan {
        settings: json::pretty_json(&backup.settings),
        script_config: json::pretty_json(&backup.user_scripts.config),
        config_toml: backup.codex_live.config_toml,
        auth_json: backup.codex_live.auth_json,
        scripts: backup.user_scripts.files,
    }
}

/// What an import reports.
pub fn import_result(imported_from: String, automatic_backup_path: String, plan: &ImportPlan) -> (r:
    ConfigImportResult)
    ensures
        r.imported_from@ == imported_from@,
        r.automatic_backup_path@ == automatic_backup_path@,
        r.user_script_count as nat == config_backup::scripts(plan.scripts@).len(),
{
    ConfigImportResult {
        imported_from,
        automatic_backup_path,
        user_script_count: plan.scripts.len(),
    }
}

/// Whether an import removes a file from the directory of the scripts: it is a script, and the backup
/// has none of its name. The extension and the name are absent where they are no text.
pub fn removes_script(
    extension: Option<&str>,
    name: Option<&str>,
    scripts: &Vec<UserScriptBackup>,
) -> (r: bool)
    ensures
        r == ((match extension {
            Some(e) => e@ == "js"@,
            None => false,
        }) && !config_backup::has_script(
            config_backup::scripts(scripts@),
            match name {
                Some(n) => n@,
                None => Seq::empty(),
            },
        )),
{
    let script = match extension {
        Some(e) => text::same_text(e, "js"),
        None => false,
    };
    if !script {
        return false;
    }
    let chars = match name {
        Some(n) => text::chars_of(n),
        None => Vec::new(),
    };
    let ghost model = config_backup::scripts(scripts@);
    let ghost wanted: Seq<char> = match name {
        Some(n) => n@,
        None => Seq::empty(),
    };
    assert(chars@ =~= wanted);
    let lower = text::lower_chars(chars.as_slice());
    for i in 0..scripts.len()
        invariant
            model == config_backup::scripts(scripts@),
            wanted == (match name {
                Some(n) => n@,
                None => Seq::<char>::empty(),
            }),
            lower@ == text::lowered(wanted),
            forall|j: int| 0 <= j < i ==> text::lowered((#[trigger] model[j]).name) != lower@,
    {
        let other = text::lower_chars(text::chars_of(scripts[i].name.as_str()).as_slice());
        assert(model[i as int].name == scripts@[i as int].name@);
        if text::same_chars(other.as_slice(), lower.as_slice()) {
            assert(text::lowered(model[i as int].name) == text::lowered(wanted));
            return false;
        }
    }
    true
}

/// The last extension of the file that is written before it takes the place of another, or of the one
/// that is put aside meanwhile.
pub fn staging_extension(extension: Option<&str>, aside: bool) -> (r: String)
    ensures
        r@ == (match extension {
            Some(e) => e@,
            None => "file"@,
        }) + (if aside {
            ".import.old"@
        } else {
            ".import.tmp"@
        }),
{
    text::owned_or(extension, "file").concat(
        if aside {
            ".import.old"
        } else {
            ".import.tmp"
        },
    )
}

// ---------------------------------------------------------------------------------------
// The directory of the scripts
// ---------------------------------------------------------------------------------------

/// The contents of the files in a directory, by their names.
pub type Directory = Map<Seq<char>, Seq<char>>;

/// Whether a name is that of a script.
pub open spec fn is_script(name: Seq<char>) -> bool {
    file_name::extension_of(name) == Some("js"@)
}

/// The directory without the scripts that the backup does not have.
pub open spec fn cleared(directory: Directory, files: Seq<ScriptModel>) -> Directory {
    Map::new(
        |name: Seq<char>|
            directory.contains_key(name) && !(is_script(name) && !config_backup::has_script(
                files,
                name,
            )),
        |name: Seq<char>| directory[name],
    )
}

/// The name under which a script stands in the directory.
pub open spec fn target(script: ScriptModel, platform: Platform) -> Seq<char> {
    file_name::sole_component(script.name, platform)->0
}

/// The directory once the scripts have been written, one after the other.
pub open spec fn written(
    directory: Directory,
    files: Seq<ScriptModel>,
    platform: Platform,
) -> Directory
    decreases files.len(),
{
    if files.len() == 0 {
        directory
    } else {
        written(directory, files.drop_last(), platform).insert(
            target(files.last(), platform),
            files.last().contents,
        )
    }
}

/// The directory of the scripts after an import.
pub open spec fn imported(
    directory: Directory,
    files: Seq<ScriptModel>,
    platform: Platform,
) -> Directory {
    written(cleared(directory, files), files, platform)
}

/// Whether a file is the same in both directories, or in neither.
pub open spec fn same_file(a: Directory, b: Directory, name: Seq<char>) -> bool {
    a.contains_key(name) == b.contains_key(name) && (a.contains_key(name) ==> a[name] == b[name])
}

proof fn lemma_written(directory: Directory, files: Seq<ScriptModel>, platform: Platform)
    ensures
        forall|name: Seq<char>| #[trigger]
            written(directory, files, platform).contains_key(name) ==> directory.contains_key(name)
                || exists|i: int| 0 <= i < files.len() && target(#[trigger] files[i], platform) == name,
        forall|name: Seq<char>|
            (forall|i: int| 0 <= i < files.len() ==> target(#[trigger] files[i], platform) != name)
                ==> (#[trigger] written(directory, files, platform).contains_key(name)
                == directory.contains_key(name)) && written(directory, files, platform)[name]
                == directory[name],
    decreases files.len(),
{
    if files.len() > 0 {
        let front = files.drop_last();
        lemma_written(directory, front, platform);
        let before = written(directory, front, platform);
        let after = written(directory, files, platform);
        assert forall|name: Seq<char>| #[trigger] after.contains_key(name) implies directory.contains_key(
            name,
        ) || exists|i: int| 0 <= i < files.len() && target(#[trigger] files[i], platform) == name by {
            if name == target(files.last(), platform) {
                assert(target(files[files.len() - 1], platform) == name);
            } else {
                assert(before.contains_key(name));
                if !directory.contains_key(name) {
                    let i = choose|i: int|
                        0 <= i < front.len() && target(#[trigger] front[i], platform) == name;
                    assert(files[i] == front[i]);
                }
            }
        }
        assert forall|name: Seq<char>|
            (forall|i: int| 0 <= i < files.len() ==> target(#[trigger] files[i], platform)
                != name) implies (#[trigger] after.contains_key(name) == directory.contains_key(name))
            && after[name] == directory[name] by {
            assert(target(files[files.len() - 1], platform) != name);
            assert forall|i: int| 0 <= i < front.len() implies target(#[trigger] front[i], platform)
                != name by {
                assert(front[i] == files[i]);
            }
            assert(before.contains_key(name) == directory.contains_key(name));
        }
    }
}

proof fn lemma_written_contents(
    directory: Directory,
    files: Seq<ScriptModel>,
    platform: Platform,
    i: int,
)
    requires
        0 <= i < files.len(),
        forall|a: int, b: int|
            0 <= a < b < files.len() ==> target(#[trigger] files[a], platform) != target(
                #[trigger] files[b],
                platform,
            ),
    ensures
        written(directory, files, platform).contains_key(target(files[i], platform)),
        written(directory, files, platform)[target(files[i], platform)] == files[i].contents,
    decreases files.len(),
{
    if i < files.len() - 1 {
        let front = files.drop_last();
        assert forall|a: int, b: int| 0 <= a < b < front.len() implies target(
            #[trigger] front[a],
            platform,
        ) != target(#[trigger] front[b], platform) by {
            assert(front[a] == files[a] && front[b] == files[b]);
        }
        lemma_written_contents(directory, front, platform, i);
        assert(front[i] == files[i]);
        assert(target(files[i], platform) != target(files[files.len() - 1], platform));
    }
}

/// A name without separators that differs from that of an accepted script in case only is, but for
/// case, the name under which the script stands.
proof fn lemma_target_case(script: ScriptModel, name: Seq<char>, platform: Platform)
    requires
        config_backup::script_name(script.name, platform),
        text::lowered(script.name) == text::lowered(name),
        forall|i: int|
            0 <= i < name.len() ==> !file_name::separators(platform).has(#[trigger] name[i]),
    ensures
        target(script, platform) == script.name,
{
    let class = file_name::separators(platform);
    assert(script.name.len() == text::lowered(script.name).len());
    assert(name.len() == text::lowered(name).len());
    assert forall|i: int| 0 <= i < script.name.len() implies !class.has(#[trigger] script.name[i]) by {
        assert(text::lowered(script.name)[i] == text::lower(script.name[i]));
        assert(text::lowered(name)[i] == text::lower(name[i]));
        assert(!class.has(name[i]));
    }
    text::lemma_single_piece(script.name, class);
}

/// An import brings back the scripts of the backup and no others: each stands in the directory
/// with its content, any script that stands there has, but for case, the name of one of them, and
/// the files that are no scripts are what they were. Two scripts of the backup may not stand
/// under one name.
pub proof fn law_import_restores_the_scripts(
    directory: Directory,
    files: Seq<ScriptModel>,
    platform: Platform,
)
    requires
        config_backup::scripts_error(files, platform) is None,
        plain_names(directory, platform),
        forall|a: int, b: int|
            0 <= a < b < files.len() ==> target(#[trigger] files[a], platform) != target(
                #[trigger] files[b],
                platform,
            ),
    ensures
        forall|i: int|
            0 <= i < files.len() ==> imported(directory, files, platform).contains_key(
                target(#[trigger] files[i], platform),
            ) && imported(directory, files, platform)[target(files[i], platform)]
                == files[i].contents,
        forall|name: Seq<char>| #[trigger]
            imported(directory, files, platform).contains_key(name) && is_script(name)
                ==> exists|i: int|
                0 <= i < files.len() && text::lowered(target(#[trigger] files[i], platform))
                    == text::lowered(name),
        forall|name: Seq<char>|
            !is_script(name) ==> #[trigger] same_file(
                imported(directory, files, platform),
                directory,
                name,
            ),
{
    config_backup::law_accepted_scripts_are_safe(files, platform);
    let rest = cleared(directory, files);
    let after = imported(directory, files, platform);
    lemma_written(rest, files, platform);
    assert forall|i: int| 0 <= i < files.len() implies after.contains_key(
        target(#[trigger] files[i], platform),
    ) && after[target(files[i], platform)] == files[i].contents by {
        lemma_written_contents(rest, files, platform, i);
    }
    assert forall|name: Seq<char>| #[trigger] after.contains_key(name) && is_script(
        name,
    ) implies exists|i: int|
        0 <= i < files.len() && text::lowered(target(#[trigger] files[i], platform))
            == text::lowered(name) by {
        if rest.contains_key(name) {
            assert(config_backup::has_script(files, name));
            let i = choose|i: int|
                0 <= i < files.len() && text::lowered((#[trigger] files[i]).name) == text::lowered(
                    name,
                );
            assert(config_backup::script_name(files[i].name, platform));
            lemma_target_case(files[i], name, platform);
            assert(text::lowered(target(files[i], platform)) == text::lowered(name));
        } else {
            let i = choose|i: int|
                0 <= i < files.len() && target(#[trigger] files[i], platform) == name;
            assert(text::lowered(target(files[i], platform)) == text::lowered(name));
        }
    }
    assert forall|name: Seq<char>| !is_script(name) implies #[trigger] same_file(
        after,
        directory,
        name,
    ) by {
        assert forall|i: int| 0 <= i < files.len() implies target(#[trigger] files[i], platform)
            != name by {
            assert(config_backup::script_name(files[i].name, platform));
        }
        assert(after.contains_key(name) == rest.contains_key(name));
        assert(after[name] == rest[name]);
    }
}

// ---------------------------------------------------------------------------------------
// An export and the import of it
// ---------------------------------------------------------------------------------------

/// The configuration: the texts of the files that are there, and the directory of the scripts.
pub struct ConfigState {
    pub settings: Option<Seq<char>>,
    pub config_toml: Option<Seq<char>>,
    pub auth_json: Option<Seq<char>>,
    pub script_config: Option<Seq<char>>,
    pub scripts: Directory,
}

/// Whether no name in a directory holds a separator.
pub open spec fn plain_names(directory: Directory, platform: Platform) -> bool {
    forall|name: Seq<char>, i: int|
        directory.contains_key(name) && 0 <= i < name.len() ==> !file_name::separators(
            platform,
        ).has(#[trigger] name[i])
}

/// Whether the files are the scripts of a directory, each once.
pub open spec fn lists_scripts(files: Seq<ScriptModel>, directory: Directory) -> bool {
    &&& forall|i: int|
        0 <= i < files.len() ==> is_script((#[trigger] files[i]).name) && directory.contains_key(
            files[i].name,
        ) && directory[files[i].name] == files[i].contents
    &&& forall|name: Seq<char>| #[trigger]
        directory.contains_key(name) && is_script(name) ==> exists|i: int|
            0 <= i < files.len() && (#[trigger] files[i]).name == name
    &&& forall|i: int, j: int|
        0 <= i < j < files.len() ==> (#[trigger] files[i]).name != (#[trigger] files[j]).name
}

/// Whether a backup is one of a configuration, the scripts having been found as `files`.
pub open spec fn is_backup_of(
    backup: BackupModel,
    state: ConfigState,
    files: Seq<ScriptModel>,
) -> bool {
    &&& config_backup::object_in(state.settings, JsonModel::Object(Seq::empty())) == Ok::<
        JsonModel,
        config_backup::ObjectError,
    >(backup.settings)
    &&& config_backup::object_in(
        state.script_config,
        config_backup::default_script_config_model(),
    ) == Ok::<JsonModel, config_backup::ObjectError>(backup.script_config)
    &&& backup.config_toml == state.config_toml
    &&& backup.auth_json == state.auth_json
    &&& lists_scripts(files, state.scripts)
    &&& backup.scripts == config_backup::by_name(files)
}

/// The configuration once a plan has been carried out.
pub open spec fn carried_out(
    plan: ImportPlan,
    state: ConfigState,
    platform: Platform,
) -> ConfigState {
    ConfigState {
        settings: Some(vstd::utf8::decode_utf8(plan.settings@)),
        config_toml: text::opt_text(plan.config_toml),
        auth_json: text::opt_text(plan.auth_json),
        script_config: Some(vstd::utf8::decode_utf8(plan.script_config@)),
        scripts: imported(state.scripts, config_backup::scripts(plan.scripts@), platform),
    }
}

proof fn lemma_same_scripts(files: Seq<ScriptModel>)
    ensures
        config_backup::by_name(files).len() == files.len(),
        forall|script: ScriptModel| #[trigger]
            config_backup::by_name(files).contains(script) == files.contains(script),
{
    let sorted = config_backup::by_name(files);
    config_backup::law_backup_holds_every_script_in_order(files);
    assert(sorted.to_multiset().len() == files.to_multiset().len());
    broadcast use vstd::seq_lib::group_to_multiset_ensures;

    assert(sorted.to_multiset().len() == sorted.len());
    assert(files.to_multiset().len() == files.len());
    assert forall|script: ScriptModel| #[trigger]
        sorted.contains(script) == files.contains(script) by {
        assert(sorted.to_multiset().count(script) > 0 <==> sorted.contains(script));
        assert(files.to_multiset().count(script) > 0 <==> files.contains(script));
    }
}

/// A name without separators is the name under which its script stands.
proof fn lemma_target_is_name(script: ScriptModel, directory: Directory, platform: Platform)
    requires
        config_backup::script_name(script.name, platform),
        directory.contains_key(script.name),
        plain_names(directory, platform),
    ensures
        target(script, platform) == script.name,
{
    assert forall|i: int| 0 <= i < script.name.len() implies !file_name::separators(platform).has(
        #[trigger] script.name[i],
    ) by {
        assert(directory.contains_key(script.name));
    }
    lemma_target_case(script, script.name, platform);
}

/// A script that was exported is there after the import, as it was.
proof fn lemma_script_comes_back(
    before: Directory,
    later: Directory,
    files: Seq<ScriptModel>,
    platform: Platform,
    name: Seq<char>,
)
    requires
        lists_scripts(files, before),
        config_backup::scripts_error(config_backup::by_name(files), platform) is None,
        plain_names(before, platform),
        before.contains_key(name),
        is_script(name),
    ensures
        same_file(imported(later, config_backup::by_name(files), platform), before, name),
{
    let sorted = config_backup::by_name(files);
    lemma_same_scripts(files);
    config_backup::law_accepted_scripts_are_safe(sorted, platform);
    assert forall|a: int| 0 <= a < sorted.len() implies before.contains_key(
        (#[trigger] sorted[a]).name,
    ) && before[sorted[a].name] == sorted[a].contents && target(sorted[a], platform)
        == sorted[a].name by {
        assert(sorted.contains(sorted[a]));
        assert(files.contains(sorted[a]));
        let k = choose|k: int| 0 <= k < files.len() && files[k] == sorted[a];
        assert(before.contains_key(files[k].name));
        lemma_target_is_name(sorted[a], before, platform);
    }
    assert forall|a: int, b: int| 0 <= a < b < sorted.len() implies target(
        #[trigger] sorted[a],
        platform,
    ) != target(#[trigger] sorted[b], platform) by {
        assert(text::lowered(sorted[a].name) != text::lowered(sorted[b].name));
    }
    let k = choose|k: int| 0 <= k < files.len() && (#[trigger] files[k]).name == name;
    assert(files.contains(files[k]));
    assert(sorted.contains(files[k]));
    let i = choose|i: int| 0 <= i < sorted.len() && sorted[i] == files[k];
    lemma_written_contents(cleared(later, sorted), sorted, platform, i);
}

/// A script that was not exported is not there after the import.
proof fn lemma_no_other_script(
    before: Directory,
    later: Directory,
    files: Seq<ScriptModel>,
    platform: Platform,
    name: Seq<char>,
)
    requires
        lists_scripts(files, before),
        config_backup::scripts_error(config_backup::by_name(files), platform) is None,
        plain_names(before, platform),
        later.contains_key(name) && config_backup::has_script(files, name) ==> before.contains_key(
            name,
        ),
        !before.contains_key(name),
        is_script(name),
    ensures
        !imported(later, config_backup::by_name(files), platform).contains_key(name),
{
    let sorted = config_backup::by_name(files);
    let rest = cleared(later, sorted);
    lemma_same_scripts(files);
    config_backup::law_accepted_scripts_are_safe(sorted, platform);
    lemma_written(rest, sorted, platform);
    if written(rest, sorted, platform).contains_key(name) {
        if rest.contains_key(name) {
            assert(config_backup::has_script(sorted, name));
            let i = choose|i: int|
                0 <= i < sorted.len() && text::lowered((#[trigger] sorted[i]).name)
                    == text::lowered(name);
            assert(sorted.contains(sorted[i]));
            let k = choose|k: int| 0 <= k < files.len() && files[k] == sorted[i];
            assert(text::lowered(files[k].name) == text::lowered(name));
        } else {
            let i = choose|i: int|
                0 <= i < sorted.len() && target(#[trigger] sorted[i], platform) == name;
            assert(sorted.contains(sorted[i]));
            let k = choose|k: int| 0 <= k < files.len() && files[k] == sorted[i];
            assert(before.contains_key(files[k].name));
            lemma_target_is_name(sorted[i], before, platform);
        }
    }
}

/// What was exported is what is there once the export has been imported, whatever was changed in
/// between: the settings and the configuration of the scripts are the same documents, and the
/// documents that stand for them where there were none; the two files of Codex are the same, or
/// absent again; and the scripts are the same, with no other beside them. The files in the
/// directory that are no scripts are what they were before the import. The settings and the
/// configuration of the scripts hold no numbers but integers, or are read back as they were
/// written all the same, and no script came in between whose name differs from that of an
/// exported one in case only.
pub proof fn law_import_restores_the_export(
    before: ConfigState,
    files: Seq<ScriptModel>,
    backup: BackupModel,
    later: ConfigState,
    plan: ImportPlan,
    platform: Platform,
)
    requires
        is_backup_of(backup, before, files),
        is_plan_of(plan, backup),
        config_backup::scripts_error(backup.scripts, platform) is None,
        json::is_readable(backup.settings) || json::reads_as(
            plan.settings@,
            json_order::tidied(backup.settings),
        ),
        json::is_readable(backup.script_config) || json::reads_as(
            plan.script_config@,
            json_order::tidied(backup.script_config),
        ),
        plain_names(before.scripts, platform),
        plain_names(later.scripts, platform),
        forall|name: Seq<char>| #[trigger]
            later.scripts.contains_key(name) && config_backup::has_script(files, name)
                ==> before.scripts.contains_key(name),
    ensures
        ({
            let after = carried_out(plan, later, platform);
            &&& config_backup::object_in(after.settings, JsonModel::Object(Seq::empty())) == Ok::<
                JsonModel,
                config_backup::ObjectError,
            >(json_order::tidied(backup.settings))
            &&& config_backup::object_in(
                after.script_config,
                config_backup::default_script_config_model(),
            ) == Ok::<JsonModel, config_backup::ObjectError>(
                json_order::tidied(backup.script_config),
            )
            &&& after.config_toml == before.config_toml
            &&& after.auth_json == before.auth_json
            &&& forall|name: Seq<char>|
                is_script(name) ==> #[trigger] same_file(after.scripts, before.scripts, name)
            &&& forall|name: Seq<char>|
                !is_script(name) ==> #[trigger] same_file(after.scripts, later.scripts, name)
            &&& config_backup::scripts(plan.scripts@).len() == files.len()
        }),
{
    let sorted = backup.scripts;
    let after = carried_out(plan, later, platform);
    lemma_same_scripts(files);
    config_backup::law_accepted_scripts_are_safe(sorted, platform);
    assert forall|name: Seq<char>| is_script(name) implies #[trigger] same_file(
        after.scripts,
        before.scripts,
        name,
    ) by {
        if before.scripts.contains_key(name) {
            lemma_script_comes_back(before.scripts, later.scripts, files, platform, name);
        } else {
            lemma_no_other_script(before.scripts, later.scripts, files, platform, name);
        }
    }
    assert forall|a: int| 0 <= a < sorted.len() implies target(#[trigger] sorted[a], platform)
        == sorted[a].name by {
        assert(sorted.contains(sorted[a]));
        let k = choose|k: int| 0 <= k < files.len() && files[k] == sorted[a];
        assert(before.scripts.contains_key(files[k].name));
        lemma_target_is_name(sorted[a], before.scripts, platform);
    }
    assert forall|a: int, b: int| 0 <= a < b < sorted.len() implies target(
        #[trigger] sorted[a],
        platform,
    ) != target(#[trigger] sorted[b], platform) by {
        assert(text::lowered(sorted[a].name) != text::lowered(sorted[b].name));
    }
    law_import_restores_the_scripts(later.scripts, sorted, platform);
}

/// A plan writes each part of the backup in its place. What the backup leaves out of the two
/// files of Codex is removed.
pub proof fn law_plan_writes_each_part(backup: ConfigBackup, r: ImportPlan)
    requires
        call_ensures(plan_import, (backup,), r),
    ensures
        r.settings@ == json::json_pretty(json_order::tidied(backup.settings@)),
        r.script_config@ == json::json_pretty(json_order::tidied(backup.user_scripts.config@)),
        r.config_toml is Some <==> backup.codex_live.config_toml is Some,
        backup.codex_live.config_toml is Some ==> r.config_toml->0@
            == backup.codex_live.config_toml->0@,
        r.auth_json is Some <==> backup.codex_live.auth_json is Some,
        backup.codex_live.auth_json is Some ==> r.auth_json->0@ == backup.codex_live.auth_json->0@,
        r.scripts@.len() == backup.user_scripts.files@.len(),
        forall|i: int|
            0 <= i < r.scripts@.len() ==> (#[trigger] r.scripts@[i]).name@
                == backup.user_scripts.files@[i].name@ && r.scripts@[i].contents@
                == backup.user_scripts.files@[i].contents@,
{
    let planned = config_backup::scripts(r.scripts@);
    let kept = config_backup::scripts(backup.user_scripts.files@);
    assert(planned == kept);
    assert(planned.len() == r.scripts@.len());
    assert forall|i: int| 0 <= i < r.scripts@.len() implies (#[trigger] r.scripts@[i]).name@
        == backup.user_scripts.files@[i].name@ && r.scripts@[i].contents@
        == backup.user_scripts.files@[i].contents@ by {
        assert(planned[i] == r.scripts@[i]@);
        assert(kept[i] == backup.user_scripts.files@[i]@);
    }
}

/// A script is removed where the backup has none whose name differs from its own in upper and
/// lower case at most; what is no script stays.
pub proof fn law_other_scripts_are_removed(
    extension: &str,
    name: &str,
    scripts: Vec<UserScriptBackup>,
    r: bool,
)
    requires
        call_ensures(removes_script, (Some(extension), Some(name), &scripts), r),
    ensures
        r <==> extension@ == "js"@ && forall|i: int|
            0 <= i < scripts@.len() ==> text::lowered((#[trigger] scripts@[i]).name@)
                != text::lowered(name@),
{
    let model = config_backup::scripts(scripts@);
    assert forall|i: int| 0 <= i < scripts@.len() implies (#[trigger] scripts@[i]).name@
        == model[i].name by {}
    if config_backup::has_script(model, name@) {
        let i = choose|i: int|
            0 <= i < model.len() && text::lowered((#[trigger] model[i]).name) == text::lowered(
                name@,
            );
        assert(scripts@[i].name@ == model[i].name);
    } else {
        assert forall|i: int| 0 <= i < scripts@.len() implies text::lowered(
            (#[trigger] scripts@[i]).name@,
        ) != text::lowered(name@) by {
            assert(model[i].name == scripts@[i].name@);
        }
    }
}

/// The files of a directory are told apart by their names: a script ends in `js` behind its last dot.
pub proof fn law_script_files_end_in_js(stem: Seq<char>, ext: Seq<char>)
    requires
        stem.len() > 0,
        !ext.contains('.'),
        stem.push('.') + ext != seq!['.', '.'],
    ensures
        is_script(stem.push('.') + ext) <==> ext == "js"@,
        !is_script(ext),
{
    file_name::law_extension_follows_the_last_dot(stem, ext);
}

/// Clearing a directory keeps each file that it keeps as it is, and takes out those scripts alone
/// that the backup does not have.
pub proof fn law_clearing_keeps_the_rest(
    directory: Directory,
    files: Seq<ScriptModel>,
    name: Seq<char>,
)
    requires
        directory.contains_key(name),
    ensures
        cleared(directory, files).contains_key(name) <==> !is_script(name) || exists|i: int|
            0 <= i < files.len() && text::lowered((#[trigger] files[i]).name) == text::lowered(name),
        cleared(directory, files).contains_key(name) ==> cleared(directory, files)[name]
            == directory[name],
{
}

/// What is reported of an import is where it came from, where the backup before it stands, and
/// how many scripts it brought.
pub proof fn law_import_reports_its_scripts(
    from: String,
    aside: String,
    plan: ImportPlan,
    r: ConfigImportResult,
)
    requires
        call_ensures(import_result, (from, aside, &plan), r),
    ensures
        r.imported_from@ == from@,
        r.automatic_backup_path@ == aside@,
        r.user_script_count == plan.scripts@.len(),
{
}

/// What is written and what is put aside never stand under the same name, and both differ from
/// the file itself.
pub proof fn law_staged_files_stand_apart(extension: Option<&str>, staged: String, aside: String)
    requires
        call_ensures(staging_extension, (extension, false), staged),
        call_ensures(staging_extension, (extension, true), aside),
    ensures
        staged@ != aside@,
        extension is Some ==> staged@ == extension->0@ + ".import.tmp"@ && aside@ == extension->0@
            + ".import.old"@,
        extension is None ==> staged@ == "file.import.tmp"@ && aside@ == "file.import.old"@,
{
    reveal_strlit(".import.tmp");
    reveal_strlit(".import.old");
    reveal_strlit("file");
    reveal_strlit("file.import.tmp");
    reveal_strlit("file.import.old");
    assert(".import.tmp"@.len() == 11 && ".import.old"@.len() == 11);
    assert(".import.tmp"@[10] == 'p' && ".import.old"@[10] == 'd');
    assert("file"@ + ".import.tmp"@ =~= "file.import.tmp"@);
    assert("file"@ + ".import.old"@ =~= "file.import.old"@);
    assert(staged@.last() == 'p' && aside@.last() == 'd');
}

} // verus!
