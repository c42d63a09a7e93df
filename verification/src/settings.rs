//! The settings that the rules of this library read.
use crate::ai_shell::CodexAiShell;
use crate::text;
use vstd::prelude::*;

verus! {

/// How a provider is reached.
#[derive(Clone, Copy, Debug, PartialEq, Eq, Structural)]
pub enum RelayMode {
    Official,
    MixedApi,
    PureApi,
    Aggregate,
    CustomModels,
}

/// A provider.
#[derive(Debug, Clone)]
pub struct RelayProfile {
    pub id: String,
    pub relay_mode: RelayMode,
    pub official_mix_api_key: bool,
    pub api_key: String,
    pub auth_contents: String,
}

#[verifier::ext_equal]
pub struct ProfileModel {
    pub id: Seq<char>,
    pub relay_mode: RelayMode,
    pub official_mix_api_key: bool,
    pub api_key: Seq<char>,
    pub auth_contents: Seq<char>,
}

impl View for RelayProfile {
    type V = ProfileModel;

    open spec fn view(&self) -> ProfileModel {
        ProfileModel {
            id: self.id@,
            relay_mode: self.relay_mode,
            official_mix_api_key: self.official_mix_api_key,
            api_key: self.api_key@,
            auth_contents: self.auth_contents@,
        }
    }
}

/// The providers and the text that goes into every configuration.
#[derive(Debug, Clone)]
pub struct BackendSettings {
    pub enhancements_enabled: bool,
    pub codex_app_disable_auto_update: bool,
    pub codex_app_ai_shell: CodexAiShell,
    pub codex_app_memory_embedding_enabled: bool,
    pub codex_app_memory_embedding_base_url: String,
    pub codex_app_memory_embedding_model: String,
    pub codex_app_memory_embedding_api_key: String,
    pub active_relay_id: String,
    pub relay_profiles: Vec<RelayProfile>,
    pub relay_common_config_contents: String,
    pub relay_context_config_contents: String,
    pub computer_use_guard_enabled: bool,
}

#[verifier::ext_equal]
pub struct SettingsModel {
    pub enhancements_enabled: bool,
    pub codex_app_disable_auto_update: bool,
    pub codex_app_ai_shell: CodexAiShell,
    pub codex_app_memory_embedding_enabled: bool,
    pub codex_app_memory_embedding_base_url: Seq<char>,
    pub codex_app_memory_embedding_model: Seq<char>,
    pub codex_app_memory_embedding_api_key: Seq<char>,
    pub active_relay_id: Seq<char>,
    pub relay_profiles: Seq<ProfileModel>,
    pub relay_common_config_contents: Seq<char>,
    pub relay_context_config_contents: Seq<char>,
    pub computer_use_guard_enabled: bool,
}

pub open spec fn profiles(list: Seq<RelayProfile>) -> Seq<ProfileModel> {
    list.map_values(|p: RelayProfile| p@)
}

impl View for BackendSettings {
    type V = SettingsModel;

    open spec fn view(&self) -> SettingsModel {
        SettingsModel {
            enhancements_enabled: self.enhancements_enabled,
            codex_app_disable_auto_update: self.codex_app_disable_auto_update,
            codex_app_ai_shell: self.codex_app_ai_shell,
            codex_app_memory_embedding_enabled: self.codex_app_memory_embedding_enabled,
            codex_app_memory_embedding_base_url: self.codex_app_memory_embedding_base_url@,
            codex_app_memory_embedding_model: self.codex_app_memory_embedding_model@,
            codex_app_memory_embedding_api_key: self.codex_app_memory_embedding_api_key@,
            active_relay_id: self.active_relay_id@,
            relay_profiles: profiles(self.relay_profiles@),
            relay_common_config_contents: self.relay_common_config_contents@,
            relay_context_config_contents: self.relay_context_config_contents@,
            computer_use_guard_enabled: self.computer_use_guard_enabled,
        }
    }
}

impl SettingsModel {
    /// Whether memories are ranked by embeddings: the switch is on, and an address and a model are
    /// given.
    pub open spec fn embeds(self) -> bool {
        self.codex_app_memory_embedding_enabled && !text::is_blank(
            self.codex_app_memory_embedding_base_url,
        ) && !text::is_blank(self.codex_app_memory_embedding_model)
    }
}

/// Whether memories are ranked by embeddings.
pub fn embedding_settings_complete(settings: &BackendSettings) -> (r: bool)
    ensures
        r == settings@.embeds(),
{
    settings.codex_app_memory_embedding_enabled && !text::blank(
        settings.codex_app_memory_embedding_base_url.as_str(),
    ) && !text::blank(settings.codex_app_memory_embedding_model.as_str())
}

/// The sections of the configuration that all providers share: those that are not blank, trimmed,
/// with an empty line between them.
pub open spec fn shared_config(common: Seq<char>, context: Seq<char>) -> Seq<char> {
    if text::is_blank(common) {
        text::trimmed(context)
    } else if text::is_blank(context) {
        text::trimmed(common)
    } else {
        text::trimmed(common) + "\n\n"@ + text::trimmed(context)
    }
}

/// The configuration that all providers share.
pub fn shared_relay_config(settings: &BackendSettings) -> (r: String)
    ensures
        r@ == shared_config(
            settings@.relay_common_config_contents,
            settings@.relay_context_config_contents,
        ),
{
    let common = text::trim(
        text::chars_of(settings.relay_common_config_contents.as_str()).as_slice(),
    );
    let context = text::trim(
        text::chars_of(settings.relay_context_config_contents.as_str()).as_slice(),
    );
    if common.len() == 0 {
        text::text_of(context.as_slice())
    } else if context.len() == 0 {
        text::text_of(common.as_slice())
    } else {
        text::text_of(common.as_slice()).concat("\n\n").concat(
            text::text_of(context.as_slice()).as_str(),
        )
    }
}

// ---------------------------------------------------------------------------------------
// Moving a provider to the official login
// ---------------------------------------------------------------------------------------

/// Why the provider in use cannot be moved to the official login.
#[derive(Clone, Copy, Debug, PartialEq, Eq, Structural)]
pub enum MigrationError {
    NotLoggedIn,
    ProfileMissing,
    ModeUnsupported,
    ApiKeyMissing,
}

impl MigrationError {
    pub open spec fn says(self) -> Seq<char> {
        match self {
            MigrationError::NotLoggedIn => "app-server 未写入有效的 ChatGPT 登录态"@,
            MigrationError::ProfileMissing => "当前供应商已不在配置列表中"@,
            MigrationError::ModeUnsupported =>
                "聚合和自定义模型模式暂不支持自动迁移，请先切换到单一 API 供应商"@,
            MigrationError::ApiKeyMissing => "当前 API 供应商缺少可迁移的 API Key"@,
        }
    }

    pub fn message(&self) -> (r: String)
        ensures
            r@ == self.says(),
    {
        match self {
            MigrationError::NotLoggedIn => "app-server 未写入有效的 ChatGPT 登录态".to_owned(),
            MigrationError::ProfileMissing => "当前供应商已不在配置列表中".to_owned(),
            MigrationError::ModeUnsupported =>
                "聚合和自定义模型模式暂不支持自动迁移，请先切换到单一 API 供应商".to_owned(),
            MigrationError::ApiKeyMissing => "当前 API 供应商缺少可迁移的 API Key".to_owned(),
        }
    }
}

/// The position of the first provider with the id that is in use.
pub open spec fn active_index(settings: SettingsModel, from: int) -> Option<int>
    decreases settings.relay_profiles.len() - from,
{
    if from < 0 || from >= settings.relay_profiles.len() {
        None
    } else if settings.relay_profiles[from].id == settings.active_relay_id {
        Some(from)
    } else {
        active_index(settings, from + 1)
    }
}

/// The provider to move, once the login is there: the one in use, unless it stands for several.
pub open spec fn movable_profile(settings: SettingsModel, authenticated: bool) -> Result<
    int,
    MigrationError,
> {
    if !authenticated {
        Err(MigrationError::NotLoggedIn)
    } else {
        match active_index(settings, 0) {
            None => Err(MigrationError::ProfileMissing),
            Some(i) => if settings.relay_profiles[i].relay_mode == RelayMode::Aggregate
                || settings.relay_profiles[i].relay_mode == RelayMode::CustomModels {
                Err(MigrationError::ModeUnsupported)
            } else {
                Ok(i)
            },
        }
    }
}

/// Whether the moved provider keeps using its API key beside the login.
pub open spec fn keeps_api_key(profile: ProfileModel, api_key: Seq<char>) -> bool {
    profile.relay_mode == RelayMode::PureApi || profile.relay_mode == RelayMode::MixedApi
        || profile.official_mix_api_key || !text::is_blank(api_key)
}

/// The provider moved to the official login, with the content of the login file.
pub open spec fn moved_profile(
    profile: ProfileModel,
    api_key: Seq<char>,
    auth_contents: Seq<char>,
) -> Result<ProfileModel, MigrationError> {
    if keeps_api_key(profile, api_key) && text::is_blank(api_key) {
        Err(MigrationError::ApiKeyMissing)
    } else {
        Ok(
            ProfileModel {
                id: profile.id,
                relay_mode: RelayMode::Official,
                official_mix_api_key: keeps_api_key(profile, api_key),
                api_key: if keeps_api_key(profile, api_key) {
                    api_key
                } else {
                    profile.api_key
                },
                auth_contents,
            },
        )
    }
}

/// Finds the provider to move to the official login.
pub fn find_movable_profile(settings: &BackendSettings, authenticated: bool) -> (r: Result<
    usize,
    MigrationError,
>)
    ensures
        match r {
            Ok(i) => movable_profile(settings@, authenticated) == Ok::<int, MigrationError>(
                i as int,
            ) && i < settings.relay_profiles@.len(),
            Err(e) => movable_profile(settings@, authenticated) == Err::<int, MigrationError>(e),
        },
{
    if !authenticated {
        return Err(MigrationError::NotLoggedIn);
    }
    let mut i: usize = 0;
    while i < settings.relay_profiles.len()
        invariant
            authenticated,
            i <= settings.relay_profiles@.len(),
            active_index(settings@, i as int) == active_index(settings@, 0),
        decreases settings.relay_profiles@.len() - i,
    {
        let profile = &settings.relay_profiles[i];
        assert(settings@.relay_profiles[i as int] == profile@);
        if profile.id == settings.active_relay_id {
            return if profile.relay_mode == RelayMode::Aggregate || profile.relay_mode
                == RelayMode::CustomModels {
                Err(MigrationError::ModeUnsupported)
            } else {
                Ok(i)
            };
        }
        i = i + 1;
    }
    Err(MigrationError::ProfileMissing)
}

/// Moves a provider to the official login. Where that cannot be done the provider stays as it is.
pub fn move_profile(profile: &mut RelayProfile, api_key: String, auth_contents: String) -> (r: Result<
    (),
    MigrationError,
>)
    ensures
        match r {
            Ok(_) => moved_profile(old(profile)@, api_key@, auth_contents@) == Ok::<
                ProfileModel,
                MigrationError,
            >(final(profile)@),
            Err(e) => moved_profile(old(profile)@, api_key@, auth_contents@) == Err::<
                ProfileModel,
                MigrationError,
            >(e) && *final(profile) == *old(profile),
        },
{
    let blank = text::blank(api_key.as_str());
    let mix = profile.relay_mode == RelayMode::PureApi || profile.relay_mode == RelayMode::MixedApi
        || profile.official_mix_api_key || !blank;
    if mix && blank {
        return Err(MigrationError::ApiKeyMissing);
    }
    profile.relay_mode = RelayMode::Official;
    profile.official_mix_api_key = mix;
    profile.auth_contents = auth_contents;
    if mix {
        profile.api_key = api_key;
    }
    Ok(())
}

/// Whether a key is one that `api_key_of` can give for the provider, and the move of the provider
/// with it ends so.
pub open spec fn moves_to<F: Fn(&RelayProfile) -> String>(
    api_key_of: F,
    profile: RelayProfile,
    auth_contents: Seq<char>,
    moved: Result<ProfileModel, MigrationError>,
) -> bool {
    exists|key: String| #[trigger]
        call_ensures(api_key_of, (&profile,), key) && moved_profile(profile@, key@, auth_contents)
            == moved
}

/// The settings with another provider in one place.
pub open spec fn with_profile(settings: SettingsModel, i: int, profile: ProfileModel) -> SettingsModel {
    SettingsModel { relay_profiles: settings.relay_profiles.update(i, profile), ..settings }
}

/// Moves the provider in use to the official login, once the login is there. Where that cannot be
/// done the settings stay as they are.
pub fn migrate_active_profile_after_chatgpt_login<F: Fn(&RelayProfile) -> String>(
    settings: &mut BackendSettings,
    authenticated: bool,
    auth_contents: String,
    api_key_of: F,
) -> (r: Result<usize, MigrationError>)
    requires
        forall|p: &RelayProfile| call_requires(api_key_of, (p,)),
    ensures
        match r {
            Ok(i) => movable_profile(old(settings)@, authenticated) == Ok::<int, MigrationError>(
                i as int,
            ) && i < old(settings).relay_profiles@.len() && exists|moved: ProfileModel| #[trigger]
                moves_to(
                    api_key_of,
                    old(settings).relay_profiles@[i as int],
                    auth_contents@,
                    Ok::<ProfileModel, MigrationError>(moved),
                ) && final(settings)@ == with_profile(old(settings)@, i as int, moved),
            Err(e) => final(settings)@ == old(settings)@ && (match movable_profile(
                old(settings)@,
                authenticated,
            ) {
                Ok(i) => moves_to(
                    api_key_of,
                    old(settings).relay_profiles@[i],
                    auth_contents@,
                    Err::<ProfileModel, MigrationError>(e),
                ),
                Err(found) => e == found,
            }),
        },
{
    let i = match find_movable_profile(settings, authenticated) {
        Ok(i) => i,
        Err(e) => {
            return Err(e);
        },
    };
    let ghost before = settings.relay_profiles@[i as int];
    let key = api_key_of(&settings.relay_profiles[i]);
    let ghost model = key@;
    assert(call_ensures(api_key_of, (&before,), key));
    let outcome = move_profile(&mut settings.relay_profiles[i], key, auth_contents);
    match outcome {
        Ok(_) => {
            let ghost moved = settings.relay_profiles@[i as int]@;
            assert(moves_to(
                api_key_of,
                before,
                auth_contents@,
                Ok::<ProfileModel, MigrationError>(moved),
            ));
            assert(settings@ =~= with_profile(old(settings)@, i as int, moved));
            Ok(i)
        },
        Err(e) => {
            assert(moves_to(
                api_key_of,
                before,
                auth_contents@,
                Err::<ProfileModel, MigrationError>(e),
            ));
            assert(settings.relay_profiles@ =~= old(settings).relay_profiles@);
            Err(e)
        },
    }
}

/// Moving a provider keeps what it is reached by: the provider has its id, the key it had is
/// still its key and still used, and the login is the one that was written.
pub proof fn law_moving_keeps_the_provider(
    profile: ProfileModel,
    api_key: Seq<char>,
    auth_contents: Seq<char>,
)
    requires
        !text::is_blank(api_key),
    ensures
        moved_profile(profile, api_key, auth_contents) matches Ok(moved) && moved.id == profile.id
            && moved.relay_mode == RelayMode::Official && moved.official_mix_api_key
            && moved.api_key == api_key && moved.auth_contents == auth_contents,
{
}

/// Memories are ranked by embeddings where the switch is on and neither the address nor the model
/// is blank.
pub proof fn law_embedding_needs_an_address_and_a_model(settings: BackendSettings, r: bool)
    requires
        call_ensures(embedding_settings_complete, (&settings,), r),
    ensures
        r <==> settings.codex_app_memory_embedding_enabled && !text::is_blank(
            settings.codex_app_memory_embedding_base_url@,
        ) && !text::is_blank(settings.codex_app_memory_embedding_model@),
{
}

/// The shared configuration is what is written in both places, trimmed, the common part first and
/// an empty line between; a place where nothing is written adds nothing.
pub proof fn law_shared_configuration_holds_both_parts(settings: BackendSettings, r: String)
    requires
        call_ensures(shared_relay_config, (&settings,), r),
    ensures
        ({
            let common = text::trimmed(settings.relay_common_config_contents@);
            let context = text::trimmed(settings.relay_context_config_contents@);
            &&& common.len() > 0 && context.len() > 0 ==> r@ == common + seq!['\n', '\n'] + context
            &&& common.len() == 0 ==> r@ == context
            &&& context.len() == 0 ==> r@ == common
        }),
{
    reveal_strlit("\n\n");
    assert("\n\n"@ =~= seq!['\n', '\n']);
    if text::trimmed(settings.relay_common_config_contents@).len() == 0
        && text::trimmed(settings.relay_context_config_contents@).len() == 0 {
        assert(text::trimmed(settings.relay_common_config_contents@) =~= text::trimmed(
            settings.relay_context_config_contents@,
        ));
    }
}

proof fn lemma_active_index(settings: SettingsModel, from: int)
    requires
        0 <= from,
    ensures
        match active_index(settings, from) {
            Some(i) => from <= i < settings.relay_profiles.len() && settings.relay_profiles[i].id
                == settings.active_relay_id && forall|j: int|
                from <= j < i ==> (#[trigger] settings.relay_profiles[j]).id
                    != settings.active_relay_id,
            None => forall|j: int|
                from <= j < settings.relay_profiles.len() ==> (
                #[trigger] settings.relay_profiles[j]).id != settings.active_relay_id,
        },
    decreases settings.relay_profiles.len() - from,
{
    if from < settings.relay_profiles.len() && settings.relay_profiles[from].id
        != settings.active_relay_id {
        lemma_active_index(settings, from + 1);
    }
}

/// The provider that is moved is the first with the id that is in use. None is moved before the
/// login is there, nor one that stands for several.
pub proof fn law_provider_in_use_is_moved(
    settings: BackendSettings,
    authenticated: bool,
    r: Result<usize, MigrationError>,
)
    requires
        call_ensures(find_movable_profile, (&settings, authenticated), r),
    ensures
        ({
            let list = settings.relay_profiles@;
            let active = settings.active_relay_id@;
            match r {
                Ok(i) => {
                    &&& authenticated
                    &&& i < list.len()
                    &&& list[i as int].id@ == active
                    &&& list[i as int].relay_mode != RelayMode::Aggregate
                    &&& list[i as int].relay_mode != RelayMode::CustomModels
                    &&& forall|j: int| 0 <= j < i ==> (#[trigger] list[j]).id@ != active
                },
                Err(MigrationError::NotLoggedIn) => !authenticated,
                Err(MigrationError::ProfileMissing) => authenticated && forall|j: int|
                    0 <= j < list.len() ==> (#[trigger] list[j]).id@ != active,
                Err(MigrationError::ModeUnsupported) => authenticated && exists|i: int|
                    0 <= i < list.len() && (#[trigger] list[i]).id@ == active && (
                    list[i].relay_mode == RelayMode::Aggregate || list[i].relay_mode
                        == RelayMode::CustomModels),
                Err(MigrationError::ApiKeyMissing) => false,
            }
        }),
{
    let list = settings.relay_profiles@;
    lemma_active_index(settings@, 0);
    assert forall|j: int| 0 <= j < list.len() implies (#[trigger] list[j]).id@
        == settings@.relay_profiles[j].id && list[j].relay_mode
        == settings@.relay_profiles[j].relay_mode by {}
    if let Err(MigrationError::ModeUnsupported) = r {
        let i = active_index(settings@, 0)->0;
        assert(list[i].id@ == settings.active_relay_id@);
    }
}

/// A provider that lives by its key cannot be moved without one; one that lives by the login
/// alone is moved without a key, and keeps the key that it had. A key that is given is taken up.
pub proof fn law_key_is_needed_where_it_is_used(
    profile: ProfileModel,
    api_key: Seq<char>,
    auth_contents: Seq<char>,
)
    ensures
        ({
            let by_key = profile.relay_mode == RelayMode::PureApi || profile.relay_mode
                == RelayMode::MixedApi || profile.official_mix_api_key;
            let moved = moved_profile(profile, api_key, auth_contents);
            &&& text::is_blank(api_key) && by_key ==> moved == Err::<ProfileModel, MigrationError>(
                MigrationError::ApiKeyMissing,
            )
            &&& text::is_blank(api_key) && !by_key ==> moved == Ok::<ProfileModel, MigrationError>(
                (ProfileModel {
                    id: profile.id,
                    relay_mode: RelayMode::Official,
                    official_mix_api_key: false,
                    api_key: profile.api_key,
                    auth_contents,
                }),
            )
            &&& !text::is_blank(api_key) ==> moved == Ok::<ProfileModel, MigrationError>(
                (ProfileModel {
                    id: profile.id,
                    relay_mode: RelayMode::Official,
                    official_mix_api_key: true,
                    api_key,
                    auth_contents,
                }),
            )
        }),
{
}

/// Settings with another provider in one place differ from the settings there, and nowhere else.
pub proof fn law_one_provider_is_replaced(settings: SettingsModel, i: int, profile: ProfileModel)
    requires
        0 <= i < settings.relay_profiles.len(),
    ensures
        with_profile(settings, i, profile).relay_profiles.len() == settings.relay_profiles.len(),
        with_profile(settings, i, profile).relay_profiles[i] == profile,
        forall|j: int|
            0 <= j < settings.relay_profiles.len() && j != i ==> (#[trigger] with_profile(
                settings,
                i,
                profile,
            ).relay_profiles[j]) == settings.relay_profiles[j],
        with_profile(
            with_profile(settings, i, profile),
            i,
            settings.relay_profiles[i],
        ) == settings,
{
    let back = with_profile(with_profile(settings, i, profile), i, settings.relay_profiles[i]);
    assert(back.relay_profiles =~= settings.relay_profiles);
}

/// What is read of settings is what their fields hold, and of a provider what its fields hold.
pub proof fn law_settings_are_read_by_their_fields(settings: BackendSettings, i: int)
    ensures
        settings@.enhancements_enabled == settings.enhancements_enabled,
        settings@.codex_app_disable_auto_update == settings.codex_app_disable_auto_update,
        settings@.codex_app_ai_shell == settings.codex_app_ai_shell,
        settings@.codex_app_memory_embedding_enabled == settings.codex_app_memory_embedding_enabled,
        settings@.codex_app_memory_embedding_base_url
            == settings.codex_app_memory_embedding_base_url@,
        settings@.codex_app_memory_embedding_model == settings.codex_app_memory_embedding_model@,
        settings@.codex_app_memory_embedding_api_key == settings.codex_app_memory_embedding_api_key@,
        settings@.computer_use_guard_enabled == settings.computer_use_guard_enabled,
        settings@.active_relay_id == settings.active_relay_id@,
        settings@.relay_common_config_contents == settings.relay_common_config_contents@,
        settings@.relay_context_config_contents == settings.relay_context_config_contents@,
        settings@.relay_profiles.len() == settings.relay_profiles@.len(),
        0 <= i < settings.relay_profiles@.len() ==> ({
            let read = settings@.relay_profiles[i];
            let profile = settings.relay_profiles@[i];
            &&& read.id == profile.id@
            &&& read.relay_mode == profile.relay_mode
            &&& read.official_mix_api_key == profile.official_mix_api_key
            &&& read.api_key == profile.api_key@
            &&& read.auth_contents == profile.auth_contents@
        }),
{
}

/// Each reason for which a provider is not moved has words of its own.
pub proof fn law_migration_errors_are_told_apart(error: MigrationError, r: String)
    requires
        call_ensures(MigrationError::message, (&error,), r),
    ensures
        r@ == (match error {
            MigrationError::NotLoggedIn => "app-server 未写入有效的 ChatGPT 登录态"@,
            MigrationError::ProfileMissing => "当前供应商已不在配置列表中"@,
            MigrationError::ModeUnsupported =>
                "聚合和自定义模型模式暂不支持自动迁移，请先切换到单一 API 供应商"@,
            MigrationError::ApiKeyMissing => "当前 API 供应商缺少可迁移的 API Key"@,
        }),
{
}

/// A move that succeeds takes up a key that the provider was said to have, where there is one,
/// and the login that was written; the provider stays the one that it was.
pub proof fn law_move_takes_up_the_given_key<F: Fn(&RelayProfile) -> String>(
    api_key_of: F,
    profile: RelayProfile,
    auth_contents: Seq<char>,
    moved: ProfileModel,
)
    requires
        moves_to(api_key_of, profile, auth_contents, Ok::<ProfileModel, MigrationError>(moved)),
    ensures
        moved.id == profile.id@,
        moved.relay_mode == RelayMode::Official,
        moved.auth_contents == auth_contents,
        exists|key: String|
            #![trigger call_ensures(api_key_of, (&profile,), key)]
            call_ensures(api_key_of, (&profile,), key) && (!text::is_blank(key@) ==> moved.api_key
                == key@ && moved.official_mix_api_key) && (text::is_blank(key@) ==> moved.api_key
                == profile.api_key@ && !moved.official_mix_api_key),
{
    let key = choose|key: String| #[trigger]
        call_ensures(api_key_of, (&profile,), key) && moved_profile(profile@, key@, auth_contents)
            == Ok::<ProfileModel, MigrationError>(moved);
    law_key_is_needed_where_it_is_used(profile@, key@, auth_contents);
    assert(call_ensures(api_key_of, (&profile,), key));
}

/// A provider is moved in its place: it keeps its id, takes the login and the key, if one is
/// given. Where that cannot be done it stays as it is.
pub proof fn law_provider_is_moved_in_its_place(
    profile: &mut RelayProfile,
    api_key: String,
    auth_contents: String,
    r: Result<(), MigrationError>,
)
    requires
        call_ensures(move_profile, (profile, api_key, auth_contents), r),
    ensures
        r is Err ==> r->Err_0 == MigrationError::ApiKeyMissing && *final(profile) == *old(profile),
        !text::is_blank(api_key@) ==> r is Ok,
        r is Ok ==> final(profile).id@ == old(profile).id@ && final(profile).relay_mode
            == RelayMode::Official && final(profile).auth_contents@ == auth_contents@,
        r is Ok && !text::is_blank(api_key@) ==> final(profile).api_key@ == api_key@
            && final(profile).official_mix_api_key,
        r is Ok && text::is_blank(api_key@) ==> final(profile).api_key@ == old(profile).api_key@
            && !final(profile).official_mix_api_key,
{
    law_key_is_needed_where_it_is_used(old(profile)@, api_key@, auth_contents@);
}

/// Moving the provider in use changes that provider and nothing else of the settings; where it
/// cannot be moved nothing changes.
pub proof fn law_only_the_provider_in_use_changes<F: Fn(&RelayProfile) -> String>(
    settings: &mut BackendSettings,
    authenticated: bool,
    auth_contents: String,
    api_key_of: F,
    r: Result<usize, MigrationError>,
    j: int,
)
    requires
        call_ensures(
            migrate_active_profile_after_chatgpt_login::<F>,
            (settings, authenticated, auth_contents, api_key_of),
            r,
        ),
    ensures
        r is Err ==> final(settings)@ == old(settings)@,
        !authenticated ==> r is Err && r->Err_0 == MigrationError::NotLoggedIn,
        r is Ok ==> ({
            let i = r->Ok_0 as int;
            let before = old(settings)@.relay_profiles;
            let after = final(settings)@.relay_profiles;
            &&& 0 <= i < before.len()
            &&& before[i].id == old(settings)@.active_relay_id
            &&& after.len() == before.len()
            &&& after[i].id == before[i].id
            &&& after[i].relay_mode == RelayMode::Official
            &&& after[i].auth_contents == auth_contents@
            &&& 0 <= j < before.len() && j != i ==> after[j] == before[j]
            &&& final(settings)@.active_relay_id == old(settings)@.active_relay_id
            &&& final(settings)@.relay_common_config_contents
                == old(settings)@.relay_common_config_contents
            &&& final(settings)@.relay_context_config_contents
                == old(settings)@.relay_context_config_contents
        }),
{
    lemma_active_index(old(settings)@, 0);
    if r is Ok {
        let i = r->Ok_0 as int;
        let profile = old(settings).relay_profiles@[i];
        let moved = choose|moved: ProfileModel| #[trigger]
            moves_to(
                api_key_of,
                profile,
                auth_contents@,
                Ok::<ProfileModel, MigrationError>(moved),
            ) && final(settings)@ == with_profile(old(settings)@, i, moved);
        law_move_takes_up_the_given_key(api_key_of, profile, auth_contents@, moved);
        assert(old(settings)@.relay_profiles[i] == profile@);
    }
}

} // verus!
