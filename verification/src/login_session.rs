//! The course of a login, and the way back to what was there before it.
use crate::app_server::LoginCompletion;
use crate::json::{Json, JsonModel};
use crate::official_remote;
use crate::official_remote::{
    ChatGptDeviceLoginStart, ChatGptLoginStart, DeviceLoginStartModel, LoginStartModel, RemoteError,
};
use crate::server_message;
use crate::settings::{BackendSettings, SettingsModel};
use crate::text;
use vstd::prelude::*;

verus! {

// ---------------------------------------------------------------------------------------
// Backups
// ---------------------------------------------------------------------------------------

/// The settings and the two files of Codex as they were before a login.
#[derive(Debug, Clone)]
pub struct LoginBackup {
    settings: BackendSettings,
    config_contents: Option<Vec<u8>>,
    auth_contents: Option<Vec<u8>>,
}

/// The content of a file, if there is one.
pub type FileModel = Option<Seq<u8>>;

pub open spec fn file_model(contents: Option<Vec<u8>>) -> FileModel {
    match contents {
        Some(bytes) => Some(bytes@),
        None => None,
    }
}

/// The settings and the two files of Codex at some time.
#[verifier::ext_equal]
pub struct LoginState {
    pub settings: SettingsModel,
    pub config: FileModel,
    pub auth: FileModel,
}

impl View for LoginBackup {
    type V = LoginState;

    closed spec fn view(&self) -> LoginState {
        LoginState {
            settings: self.settings@,
            config: file_model(self.config_contents),
            auth: file_model(self.auth_contents),
        }
    }
}

/// What brings back a file.
pub enum FileRestore<'a> {
    Write(&'a Vec<u8>),
    Remove,
}

impl<'a> FileRestore<'a> {
    /// The file once it has been brought back, whatever it was before.
    pub open spec fn leaves(self, _before: FileModel) -> FileModel {
        match self {
            FileRestore::Write(bytes) => Some(bytes@),
            FileRestore::Remove => None,
        }
    }
}

/// What brings back the state before a login: the file with the configuration first, that with the
/// login next, and the settings last.
pub struct LoginRestore<'a> {
    pub config: FileRestore<'a>,
    pub auth: FileRestore<'a>,
    pub settings: &'a BackendSettings,
}

impl<'a> LoginRestore<'a> {
    pub open spec fn leaves(self, before: LoginState) -> LoginState {
        LoginState {
            settings: self.settings@,
            config: self.config.leaves(before.config),
            auth: self.auth.leaves(before.auth),
        }
    }
}

/// Keeps the settings and the two files as they are.
pub fn capture_login_backup(
    settings: BackendSettings,
    config_contents: Option<Vec<u8>>,
    auth_contents: Option<Vec<u8>>,
) -> (r: LoginBackup)
    ensures
        r@ == (LoginState {
            settings: settings@,
            config: file_model(config_contents),
            auth: file_model(auth_contents),
        }),
{
    LoginBackup { settings, config_contents, auth_contents }
}

fn restore_optional_file(contents: &Option<Vec<u8>>) -> (r: FileRestore<'_>)
    ensures
        forall|before: FileModel| #[trigger] r.leaves(before) == file_model(*contents),
{
    match contents {
        Some(bytes) => FileRestore::Write(bytes),
        None => FileRestore::Remove,
    }
}

/// Says how a backup is restored: afterwards the settings and both files are what they were when the
/// backup was made, whatever has become of them since.
pub fn restore_login_backup(backup: &LoginBackup) -> (r: LoginRestore<'_>)
    ensures
        forall|before: LoginState| #[trigger] r.leaves(before) == backup@,
{
    let config = restore_optional_file(&backup.config_contents);
    let auth = restore_optional_file(&backup.auth_contents);
    let r = LoginRestore { config, auth, settings: &backup.settings };
    assert forall|before: LoginState| #[trigger] r.leaves(before) == backup@ by {
        assert(config.leaves(before.config) == file_model(backup.config_contents));
        assert(auth.leaves(before.auth) == file_model(backup.auth_contents));
    }
    r
}

// ---------------------------------------------------------------------------------------
// Progress
// ---------------------------------------------------------------------------------------

/// How a login stands.
#[derive(Debug, Clone)]
pub struct ChatGptLoginProgress {
    pub login_id: Option<String>,
    pub state: String,
    pub message: String,
    pub settings: Option<BackendSettings>,
}

pub struct ProgressModel {
    pub login_id: Option<Seq<char>>,
    pub state: Seq<char>,
    pub message: Seq<char>,
    pub settings: Option<SettingsModel>,
}

pub open spec fn opt_settings(settings: Option<BackendSettings>) -> Option<SettingsModel> {
    match settings {
        Some(s) => Some(s@),
        None => None,
    }
}

impl View for ChatGptLoginProgress {
    type V = ProgressModel;

    open spec fn view(&self) -> ProgressModel {
        ProgressModel {
            login_id: text::opt_text(self.login_id),
            state: self.state@,
            message: self.message@,
            settings: opt_settings(self.settings),
        }
    }
}

/// How the user goes through a login.
#[derive(Clone, Copy, Debug, PartialEq, Eq, Structural)]
pub enum PendingLoginMode {
    Browser,
    DeviceCode,
}

/// No login goes on.
pub open spec fn idle(message: Seq<char>) -> ProgressModel {
    ProgressModel { login_id: None, state: "idle"@, message, settings: None }
}

/// The login has not ended yet.
pub open spec fn waiting(login_id: Seq<char>, mode: PendingLoginMode) -> ProgressModel {
    ProgressModel {
        login_id: Some(login_id),
        state: "pending"@,
        message: match mode {
            PendingLoginMode::Browser => "正在等待浏览器完成 ChatGPT 登录。"@,
            PendingLoginMode::DeviceCode =>
                "正在等待设备码授权，可在手机或其他设备完成验证。"@,
        },
        settings: None,
    }
}

/// What a failed login says: the error of the server without what may be secret in it, where
/// anything is left of it.
pub open spec fn failure_text(error: Option<Seq<char>>) -> Seq<char> {
    match error {
        Some(e) => if server_message::sanitized(e).len() > 0 {
            server_message::sanitized(e)
        } else {
            "ChatGPT 登录未完成。"@
        },
        None => "ChatGPT 登录未完成。"@,
    }
}

pub open spec fn failed(login_id: Seq<char>, error: Option<Seq<char>>) -> ProgressModel {
    ProgressModel {
        login_id: Some(login_id),
        state: "failed"@,
        message: failure_text(error),
        settings: None,
    }
}

fn make_progress(
    login_id: Option<String>,
    state: &str,
    message: &str,
    settings: Option<BackendSettings>,
) -> (r: ChatGptLoginProgress)
    ensures
        r@ == (ProgressModel {
            login_id: text::opt_text(login_id),
            state: state@,
            message: message@,
            settings: opt_settings(settings),
        }),
{
    ChatGptLoginProgress { login_id, state: state.to_owned(), message: message.to_owned(), settings }
}

fn make_failed(login_id: String, error: &Option<String>) -> (r: ChatGptLoginProgress)
    ensures
        r@ == failed(login_id@, text::opt_text(*error)),
{
    let message = match error {
        Some(e) => {
            let clean = server_message::sanitize_server_message(e.as_str());
            if text::chars_of(clean.as_str()).len() > 0 {
                clean
            } else {
                "ChatGPT 登录未完成。".to_owned()
            }
        },
        None => "ChatGPT 登录未完成。".to_owned(),
    };
    make_progress(Some(login_id), "failed", message.as_str(), None)
}

/// The answer once a login has succeeded and the provider has been moved.
pub fn login_succeeded(login_id: &str, settings: BackendSettings) -> (r: ChatGptLoginProgress)
    ensures
        r@ == (ProgressModel {
            login_id: Some(login_id@),
            state: "succeeded"@,
            message: "ChatGPT 登录已完成，当前 API 供应商已保留并切换为官方登录混合模式。"@,
            settings: Some(settings@),
        }),
{
    make_progress(
        Some(login_id.to_owned()),
        "succeeded",
        "ChatGPT 登录已完成，当前 API 供应商已保留并切换为官方登录混合模式。",
        Some(settings),
    )
}

/// The answer once a login has been called off and the state before it is back.
pub fn login_canceled(login_id: &str, settings: BackendSettings) -> (r: ChatGptLoginProgress)
    ensures
        r@ == (ProgressModel {
            login_id: Some(login_id@),
            state: "canceled"@,
            message: "ChatGPT 登录已取消，原配置已恢复。"@,
            settings: Some(settings@),
        }),
{
    make_progress(
        Some(login_id.to_owned()),
        "canceled",
        "ChatGPT 登录已取消，原配置已恢复。",
        Some(settings),
    )
}

// ---------------------------------------------------------------------------------------
// The session
// ---------------------------------------------------------------------------------------

/// A login that has not ended.
#[derive(Debug)]
pub struct PendingLogin {
    login_id: String,
    mode: PendingLoginMode,
    backup: LoginBackup,
}

pub struct PendingModel {
    pub login_id: Seq<char>,
    pub mode: PendingLoginMode,
    pub backup: LoginState,
}

impl View for PendingLogin {
    type V = PendingModel;

    closed spec fn view(&self) -> PendingModel {
        PendingModel { login_id: self.login_id@, mode: self.mode, backup: self.backup@ }
    }
}

/// Whether the server is connected, and the login that goes on with it.
#[derive(Debug)]
pub struct OfficialRemoteRuntime {
    connected: bool,
    pending_login: Option<PendingLogin>,
}

pub struct RuntimeModel {
    pub connected: bool,
    pub pending: Option<PendingModel>,
}

impl View for OfficialRemoteRuntime {
    type V = RuntimeModel;

    closed spec fn view(&self) -> RuntimeModel {
        RuntimeModel {
            connected: self.connected,
            pending: match self.pending_login {
                Some(p) => Some(p@),
                None => None,
            },
        }
    }
}

/// What the server answered to a request: a result, or the text of an error.
pub open spec fn answer_model(answer: Result<Json, String>) -> Result<JsonModel, Seq<char>> {
    match answer {
        Ok(v) => Ok(v@),
        Err(e) => Err(e@),
    }
}

/// The login in the browser that an answer begins, or why it does not.
pub open spec fn browser_login(answer: Result<JsonModel, Seq<char>>) -> Result<
    LoginStartModel,
    Seq<char>,
> {
    match answer {
        Err(e) => Err(e),
        Ok(v) => match official_remote::login_start_of(v) {
            Ok(start) => Ok(start),
            Err(e) => Err(e.says()),
        },
    }
}

/// The login by a code that an answer begins, or why it does not.
pub open spec fn device_login(answer: Result<JsonModel, Seq<char>>) -> Result<
    DeviceLoginStartModel,
    Seq<char>,
> {
    match answer {
        Err(e) => Err(e),
        Ok(v) => match official_remote::device_login_start_of(v) {
            Ok(start) => Ok(start),
            Err(e) => Err(e.says()),
        },
    }
}

/// The session once a login has begun, with the state before it.
pub open spec fn with_login(
    state: RuntimeModel,
    login_id: Seq<char>,
    mode: PendingLoginMode,
    backup: LoginState,
) -> RuntimeModel {
    RuntimeModel { pending: Some(PendingModel { login_id, mode, backup }), ..state }
}

/// The session once the login that went on is over.
pub open spec fn without_login(state: RuntimeModel) -> RuntimeModel {
    RuntimeModel { pending: None, ..state }
}

pub open spec fn disconnected(state: RuntimeModel) -> RuntimeModel {
    RuntimeModel { connected: false, ..state }
}

/// What happens when the user asks how a login stands.
pub enum StatusStep {
    /// This is the answer.
    Answer(ChatGptLoginProgress),
    /// The server is asked whether the login has ended.
    Poll,
}

/// What happens once the server has been asked whether the login has ended.
pub enum PolledStep {
    /// It has not.
    Waiting(ChatGptLoginProgress),
    /// It failed: the state before it is restored, and this is the answer.
    Failed(LoginBackup, ChatGptLoginProgress),
    /// It succeeded: the provider is moved. Where that fails the state before the login is restored.
    Migrate(LoginBackup),
}

/// What happens when the user calls off a login.
pub enum CancelStep {
    /// There is none: this is the answer.
    Answer(ChatGptLoginProgress),
    /// The server is told, and the state before the login is restored.
    Restore(LoginBackup),
}

/// Whether the server is asked how a login stands.
pub open spec fn polls(state: RuntimeModel, login_id: Seq<char>) -> bool {
    state.connected && state.pending is Some && state.pending->0.login_id == login_id
}

impl OfficialRemoteRuntime {
    pub fn new() -> (r: OfficialRemoteRuntime)
        ensures
            r@ == (RuntimeModel { connected: false, pending: None }),
    {
        OfficialRemoteRuntime { connected: false, pending_login: None }
    }

    pub fn is_connected(&self) -> (r: bool)
        ensures
            r == self@.connected,
    {
        self.connected
    }

    /// The server has been connected.
    pub fn client_ready(&mut self)
        ensures
            final(self)@ == (RuntimeModel { connected: true, ..old(self)@ }),
    {
        self.connected = true;
    }

    /// A request has ended. The server is let go where it failed.
    pub fn call_ended(&mut self, failed: bool)
        ensures
            final(self)@ == (if failed {
                disconnected(old(self)@)
            } else {
                old(self)@
            }),
    {
        if failed {
            self.connected = false;
        }
    }

    /// Whether a login may begin: only one goes on at a time.
    pub fn login_start(&self) -> (r: Result<(), RemoteError>)
        ensures
            match r {
                Ok(_) => self@.pending is None,
                Err(e) => self@.pending is Some && e == RemoteError::LoginPending,
            },
    {
        match self.pending_login {
            Some(_) => Err(RemoteError::LoginPending),
            None => Ok(()),
        }
    }

    /// Takes in the answer to the start of a login in the browser. Where the login does not
    /// begin, the server is let go and the backup comes back to be restored.
    pub fn login_started(&mut self, backup: LoginBackup, answer: Result<Json, String>) -> (r: Result<
        ChatGptLoginStart,
        (String, LoginBackup),
    >)
        requires
            old(self)@.pending is None,
        ensures
            match r {
                Ok(start) => browser_login(answer_model(answer)) == Ok::<LoginStartModel, Seq<char>>(
                    start@,
                ) && final(self)@ == with_login(
                    old(self)@,
                    start@.login_id,
                    PendingLoginMode::Browser,
                    backup@,
                ),
                Err((e, b)) => browser_login(answer_model(answer)) == Err::<
                    LoginStartModel,
                    Seq<char>,
                >(e@) && b@ == backup@ && final(self)@ == disconnected(old(self)@),
            },
    {
        let begun = match answer {
            Ok(v) => match official_remote::parse_chatgpt_login_start(&v) {
                Ok(start) => Ok(start),
                Err(e) => Err(e.message()),
            },
            Err(e) => Err(e),
        };
        match begun {
            Ok(start) => {
                self.pending_login = Some(
                    PendingLogin {
                        login_id: start.login_id.clone(),
                        mode: PendingLoginMode::Browser,
                        backup,
                    },
                );
                Ok(start)
            },
            Err(e) => {
                self.connected = false;
                Err((e, backup))
            },
        }
    }

    /// Takes in the answer to the start of a login by a code, as one in the browser.
    pub fn device_login_started(&mut self, backup: LoginBackup, answer: Result<Json, String>) -> (r:
        Result<ChatGptDeviceLoginStart, (String, LoginBackup)>)
        requires
            old(self)@.pending is None,
        ensures
            match r {
                Ok(start) => device_login(answer_model(answer)) == Ok::<
                    DeviceLoginStartModel,
                    Seq<char>,
                >(start@) && final(self)@ == with_login(
                    old(self)@,
                    start@.login_id,
                    PendingLoginMode::DeviceCode,
                    backup@,
                ),
                Err((e, b)) => device_login(answer_model(answer)) == Err::<
                    DeviceLoginStartModel,
                    Seq<char>,
                >(e@) && b@ == backup@ && final(self)@ == disconnected(old(self)@),
            },
    {
        let begun = match answer {
            Ok(v) => match official_remote::parse_chatgpt_device_login_start(&v) {
                Ok(start) => Ok(start),
                Err(e) => Err(e.message()),
            },
            Err(e) => Err(e),
        };
        match begun {
            Ok(start) => {
                self.pending_login = Some(
                    PendingLogin {
                        login_id: start.login_id.clone(),
                        mode: PendingLoginMode::DeviceCode,
                        backup,
                    },
                );
                Ok(start)
            },
            Err(e) => {
                self.connected = false;
                Err((e, backup))
            },
        }
    }

    /// Decides what happens when the user asks how a login stands.
    pub fn login_status(&self, login_id: &str) -> (r: Result<StatusStep, RemoteError>)
        ensures
            match r {
                Ok(StatusStep::Answer(progress)) => self@.pending is None && progress@ == idle(
                    "当前没有等待完成的 ChatGPT 登录。"@,
                ),
                Ok(StatusStep::Poll) => polls(self@, login_id@),
                Err(e) => self@.pending is Some && e == (if self@.pending->0.login_id != login_id@ {
                    RemoteError::WrongLogin
                } else {
                    RemoteError::SessionClosed
                }) && !polls(self@, login_id@),
            },
    {
        match &self.pending_login {
            None => Ok(
                StatusStep::Answer(
                    make_progress(None, "idle", "当前没有等待完成的 ChatGPT 登录。", None),
                ),
            ),
            Some(pending) => {
                if !text::same_text(pending.login_id.as_str(), login_id) {
                    Err(RemoteError::WrongLogin)
                } else if !self.connected {
                    Err(RemoteError::SessionClosed)
                } else {
                    Ok(StatusStep::Poll)
                }
            },
        }
    }

    /// Takes in how the login that goes on has ended, if it has.
    pub fn login_polled(&mut self, completion: Option<LoginCompletion>) -> (r: PolledStep)
        requires
            old(self)@.pending is Some,
        ensures
            ({
                let pending = old(self)@.pending->0;
                match r {
                    PolledStep::Waiting(progress) => completion is None && final(self)@ == old(
                        self,
                    )@ && progress@ == waiting(pending.login_id, pending.mode),
                    PolledStep::Failed(backup, progress) => completion is Some
                        && !completion->0.success && backup@ == pending.backup && progress@
                        == failed(pending.login_id, text::opt_text(completion->0.error))
                        && final(self)@ == disconnected(without_login(old(self)@)),
                    PolledStep::Migrate(backup) => completion is Some && completion->0.success
                        && backup@ == pending.backup && final(self)@ == without_login(old(self)@),
                }
            }),
    {
        let pending = self.pending_login.take().unwrap();
        match completion {
            None => {
                let message = match pending.mode {
                    PendingLoginMode::Browser => "正在等待浏览器完成 ChatGPT 登录。",
                    PendingLoginMode::DeviceCode =>
                        "正在等待设备码授权，可在手机或其他设备完成验证。",
                };
                let login_id = pending.login_id.clone();
                self.pending_login = Some(pending);
                PolledStep::Waiting(make_progress(Some(login_id), "pending", message, None))
            },
            Some(ended) => if ended.success {
                PolledStep::Migrate(pending.backup)
            } else {
                self.connected = false;
                PolledStep::Failed(pending.backup, make_failed(pending.login_id, &ended.error))
            },
        }
    }

    /// The text for a login after which the provider could not be moved; the server is let go. It
    /// also says where the state before the login could not be restored.
    pub fn migration_failed(&mut self, error: &str, restore_error: Option<&str>) -> (r: String)
        ensures
            final(self)@ == disconnected(old(self)@),
            r@ == "登录后的供应商迁移失败："@ + error@ + (match restore_error {
                Some(e) => "；回滚也失败："@ + e@,
                None => Seq::<char>::empty(),
            }),
    {
        self.connected = false;
        let message = "登录后的供应商迁移失败：".to_owned().concat(error);
        match restore_error {
            Some(e) => {
                let r = message.concat("；回滚也失败：").concat(e);
                assert(r@ =~= "登录后的供应商迁移失败："@ + error@ + ("；回滚也失败："@
                    + e@));
                r
            },
            None => {
                assert(message@ =~= "登录后的供应商迁移失败："@ + error@
                    + Seq::<char>::empty());
                message
            },
        }
    }

    /// Decides what happens when the user calls off a login.
    pub fn login_cancel(&mut self, login_id: &str) -> (r: Result<CancelStep, RemoteError>)
        ensures
            match r {
                Ok(CancelStep::Answer(progress)) => old(self)@.pending is None && final(self)@ == old(
                    self,
                )@ && progress@ == idle("当前没有等待取消的 ChatGPT 登录。"@),
                Ok(CancelStep::Restore(backup)) => old(self)@.pending is Some
                    && old(self)@.pending->0.login_id == login_id@ && backup@
                    == old(self)@.pending->0.backup && final(self)@ == without_login(old(self)@),
                Err(e) => old(self)@.pending is Some && old(self)@.pending->0.login_id != login_id@
                    && e == RemoteError::WrongLogin && final(self)@ == old(self)@,
            },
    {
        match self.pending_login.take() {
            None => Ok(
                CancelStep::Answer(
                    make_progress(None, "idle", "当前没有等待取消的 ChatGPT 登录。", None),
                ),
            ),
            Some(pending) => {
                if !text::same_text(pending.login_id.as_str(), login_id) {
                    self.pending_login = Some(pending);
                    Err(RemoteError::WrongLogin)
                } else {
                    Ok(CancelStep::Restore(pending.backup))
                }
            },
        }
    }
}

/// A login that is over has left the session as it was before the login began, and what it hands back
/// to be restored is the state that was kept then.
pub proof fn law_login_leaves_the_session_as_it_was(
    state: RuntimeModel,
    login_id: Seq<char>,
    mode: PendingLoginMode,
    backup: LoginState,
)
    requires
        state.pending is None,
    ensures
        without_login(with_login(state, login_id, mode, backup)) == state,
        with_login(state, login_id, mode, backup).pending is Some,
        with_login(state, login_id, mode, backup).pending->0.backup == backup,
        polls(with_login(state, login_id, mode, backup), login_id) == state.connected,
{
}

/// What is restored of a backup is what was kept in it: each file with its bytes, or none where
/// there was none, and the settings.
pub proof fn law_backup_brings_back_what_was_kept(
    settings: BackendSettings,
    config: Option<Vec<u8>>,
    auth: Option<Vec<u8>>,
    backup: LoginBackup,
    r: LoginRestore<'_>,
)
    requires
        call_ensures(capture_login_backup, (settings, config, auth), backup),
        call_ensures(restore_login_backup, (&backup,), r),
    ensures
        r.settings@ == settings@,
        match config {
            Some(bytes) => r.config is Write && (r.config->Write_0)@ == bytes@,
            None => r.config is Remove,
        },
        match auth {
            Some(bytes) => r.auth is Write && (r.auth->Write_0)@ == bytes@,
            None => r.auth is Remove,
        },
{
    let now = LoginState { settings: settings@, config: None, auth: None };
    assert(r.leaves(now) == backup@);
}

/// The session while a login goes on has that login, of that kind, with the state before it; once
/// it is over it has none; and whether the server is connected is another matter. Letting the
/// server go keeps the login.
pub proof fn law_session_keeps_the_login(
    state: RuntimeModel,
    login_id: Seq<char>,
    mode: PendingLoginMode,
    backup: LoginState,
)
    ensures
        with_login(state, login_id, mode, backup).connected == state.connected,
        with_login(state, login_id, mode, backup).pending is Some,
        with_login(state, login_id, mode, backup).pending->0.login_id == login_id,
        with_login(state, login_id, mode, backup).pending->0.mode == mode,
        with_login(state, login_id, mode, backup).pending->0.backup == backup,
        without_login(state).pending is None,
        without_login(state).connected == state.connected,
        !disconnected(state).connected,
        disconnected(state).pending == state.pending,
        polls(state, login_id) <==> state.connected && state.pending is Some
            && state.pending->0.login_id == login_id,
{
}

/// How a login stands is said of that login: a login that goes on is pending, and what is awaited
/// depends on how the user goes through it; one that failed says why, and always says something.
pub proof fn law_progress_says_how_the_login_stands(
    login_id: Seq<char>,
    mode: PendingLoginMode,
    error: Option<Seq<char>>,
    message: Seq<char>,
)
    ensures
        idle(message).login_id is None && idle(message).state == "idle"@ && idle(message).message
            == message && idle(message).settings is None,
        waiting(login_id, mode).login_id == Some(login_id) && waiting(login_id, mode).state
            == "pending"@ && waiting(login_id, mode).settings is None,
        waiting(login_id, mode).message == (if mode == PendingLoginMode::Browser {
            "正在等待浏览器完成 ChatGPT 登录。"@
        } else {
            "正在等待设备码授权，可在手机或其他设备完成验证。"@
        }),
        failed(login_id, error).login_id == Some(login_id) && failed(login_id, error).state
            == "failed"@ && failed(login_id, error).settings is None,
        failed(login_id, error).message.len() > 0,
        error is Some && server_message::sanitized(error->0).len() > 0 ==> failed(
            login_id,
            error,
        ).message == server_message::sanitized(error->0),
        error is None || server_message::sanitized(error->0).len() == 0 ==> failed(
            login_id,
            error,
        ).message == "ChatGPT 登录未完成。"@,
{
    reveal_strlit("ChatGPT 登录未完成。");
}

/// What is read of a progress is what its fields hold.
pub proof fn law_progress_is_read_by_its_fields(progress: ChatGptLoginProgress)
    ensures
        progress@.state == progress.state@,
        progress@.message == progress.message@,
        progress@.login_id is Some <==> progress.login_id is Some,
        progress.login_id is Some ==> progress@.login_id == Some(progress.login_id->0@),
        progress@.settings is Some <==> progress.settings is Some,
        progress.settings is Some ==> progress@.settings == Some(progress.settings->0@),
{
}

/// An answer begins a login where it is one, and an error of the server is handed on as it is.
pub proof fn law_login_begins_where_it_is_answered(
    answer: Result<JsonModel, Seq<char>>,
    given: Result<Json, String>,
)
    ensures
        given is Ok ==> answer_model(given) == Ok::<JsonModel, Seq<char>>(given->Ok_0@),
        given is Err ==> answer_model(given) == Err::<JsonModel, Seq<char>>(given->Err_0@),
        answer is Err ==> browser_login(answer) == Err::<LoginStartModel, Seq<char>>(
            answer->Err_0,
        ) && device_login(answer) == Err::<DeviceLoginStartModel, Seq<char>>(answer->Err_0),
        answer is Ok ==> (browser_login(answer) is Ok <==> official_remote::login_start_of(
            answer->Ok_0,
        ) is Ok) && (device_login(answer) is Ok <==> official_remote::device_login_start_of(
            answer->Ok_0,
        ) is Ok),
        answer is Ok && browser_login(answer) is Ok ==> browser_login(answer)->Ok_0
            == official_remote::login_start_of(answer->Ok_0)->Ok_0,
        answer is Ok && device_login(answer) is Ok ==> device_login(answer)->Ok_0
            == official_remote::device_login_start_of(answer->Ok_0)->Ok_0,
        answer is Ok && browser_login(answer) is Err ==> browser_login(answer)->Err_0
            == official_remote::login_start_of(answer->Ok_0)->Err_0.says(),
        answer is Ok && device_login(answer) is Err ==> device_login(answer)->Err_0
            == official_remote::device_login_start_of(answer->Ok_0)->Err_0.says(),
{
}

/// A login that succeeded says so of itself and brings the settings as they are now, and so does
/// one that was called off.
pub proof fn law_ended_login_brings_the_settings(
    login_id: &str,
    settings: BackendSettings,
    done: ChatGptLoginProgress,
    canceled: ChatGptLoginProgress,
)
    requires
        call_ensures(login_succeeded, (login_id, settings), done),
        call_ensures(login_canceled, (login_id, settings), canceled),
    ensures
        done.state@ == "succeeded"@,
        canceled.state@ == "canceled"@,
        done.login_id is Some && done.login_id->0@ == login_id@,
        canceled.login_id is Some && canceled.login_id->0@ == login_id@,
        done.settings is Some && done.settings->0@ == settings@,
        canceled.settings is Some && canceled.settings->0@ == settings@,
        done.message@ == "ChatGPT 登录已完成，当前 API 供应商已保留并切换为官方登录混合模式。"@,
        canceled.message@ == "ChatGPT 登录已取消，原配置已恢复。"@,
{
}

/// How a login stands is asked of the server where that login goes on and the server is
/// connected. Where none goes on there is nothing to ask; another login is not this one, and
/// without the server the login cannot go on.
pub proof fn law_status_is_asked_of_the_login(
    runtime: OfficialRemoteRuntime,
    login_id: &str,
    r: Result<StatusStep, RemoteError>,
    start: Result<(), RemoteError>,
)
    requires
        call_ensures(OfficialRemoteRuntime::login_status, (&runtime, login_id), r),
        call_ensures(OfficialRemoteRuntime::login_start, (&runtime,), start),
    ensures
        start is Ok <==> runtime@.pending is None,
        start is Err ==> start->Err_0 == RemoteError::LoginPending,
        runtime@.pending is None ==> r is Ok && r->Ok_0 is Answer && (
        r->Ok_0->Answer_0).state@ == "idle"@ && (r->Ok_0->Answer_0).login_id is None && (
        r->Ok_0->Answer_0).settings is None,
        runtime@.pending is Some && runtime@.pending->0.login_id != login_id@ ==> r is Err
            && r->Err_0 == RemoteError::WrongLogin,
        runtime@.pending is Some && runtime@.pending->0.login_id == login_id@ && !runtime@.connected
            ==> r is Err && r->Err_0 == RemoteError::SessionClosed,
        runtime@.pending is Some && runtime@.pending->0.login_id == login_id@ && runtime@.connected
            ==> r is Ok && r->Ok_0 is Poll,
{
}

/// A login that is called off is over, and what is restored is what was kept when it began. Where
/// none goes on, or another, nothing changes.
pub proof fn law_canceled_login_is_over(
    runtime: &mut OfficialRemoteRuntime,
    login_id: &str,
    r: Result<CancelStep, RemoteError>,
)
    requires
        call_ensures(OfficialRemoteRuntime::login_cancel, (runtime, login_id), r),
    ensures
        final(runtime)@.connected == old(runtime)@.connected,
        old(runtime)@.pending is None ==> r is Ok && r->Ok_0 is Answer && (
        r->Ok_0->Answer_0).state@ == "idle"@ && final(runtime)@ == old(runtime)@,
        old(runtime)@.pending is Some && old(runtime)@.pending->0.login_id != login_id@ ==> r is Err
            && r->Err_0 == RemoteError::WrongLogin && final(runtime)@ == old(runtime)@,
        old(runtime)@.pending is Some && old(runtime)@.pending->0.login_id == login_id@ ==> r is Ok
            && r->Ok_0 is Restore && (r->Ok_0->Restore_0)@ == old(runtime)@.pending->0.backup
            && final(runtime)@.pending is None,
{
}

/// A login goes on until the server says how it ended. One that failed gives back what was kept
/// and lets the server go; one that succeeded gives it back too, for the case that the provider
/// cannot be moved, and keeps the server.
pub proof fn law_login_ends_as_the_server_says(
    runtime: &mut OfficialRemoteRuntime,
    completion: Option<LoginCompletion>,
    r: PolledStep,
)
    requires
        old(runtime)@.pending is Some,
        call_ensures(OfficialRemoteRuntime::login_polled, (runtime, completion), r),
    ensures
        ({
            let pending = old(runtime)@.pending->0;
            &&& completion is None ==> r is Waiting && final(runtime)@ == old(runtime)@ && (
            r->Waiting_0).state@ == "pending"@ && (r->Waiting_0).login_id is Some && (
            r->Waiting_0).login_id->0@ == pending.login_id
            &&& completion is Some && completion->0.success ==> r is Migrate && (
            r->Migrate_0)@ == pending.backup && final(runtime)@.pending is None
                && final(runtime)@.connected == old(runtime)@.connected
            &&& completion is Some && !completion->0.success ==> r is Failed && (
            r->Failed_0)@ == pending.backup && (r->Failed_1).state@ == "failed"@ && (
            r->Failed_1).login_id is Some && (r->Failed_1).login_id->0@ == pending.login_id
                && final(runtime)@.pending is None && !final(runtime)@.connected
        }),
{
}

/// A login in the browser goes on once it has begun, with what was kept before it. Where it does
/// not begin, nothing goes on, the server is let go, and what was kept comes back.
pub proof fn law_login_goes_on_once_begun(
    runtime: &mut OfficialRemoteRuntime,
    backup: LoginBackup,
    answer: Result<Json, String>,
    r: Result<ChatGptLoginStart, (String, LoginBackup)>,
)
    requires
        old(runtime)@.pending is None,
        call_ensures(OfficialRemoteRuntime::login_started, (runtime, backup, answer), r),
    ensures
        r is Ok ==> final(runtime)@.pending is Some && final(runtime)@.pending->0.login_id
            == r->Ok_0.login_id@ && final(runtime)@.pending->0.mode == PendingLoginMode::Browser
            && final(runtime)@.pending->0.backup == backup@ && final(runtime)@.connected
            == old(runtime)@.connected,
        r is Ok <==> answer is Ok && official_remote::login_start_of(answer->Ok_0@) is Ok,
        r is Err ==> final(runtime)@.pending is None && !final(runtime)@.connected && (
        r->Err_0.1)@ == backup@,
        answer is Err ==> (r->Err_0.0)@ == answer->Err_0@,
{
}

/// A login by a code goes on as one in the browser does.
pub proof fn law_device_login_goes_on_once_begun(
    runtime: &mut OfficialRemoteRuntime,
    backup: LoginBackup,
    answer: Result<Json, String>,
    r: Result<ChatGptDeviceLoginStart, (String, LoginBackup)>,
)
    requires
        old(runtime)@.pending is None,
        call_ensures(OfficialRemoteRuntime::device_login_started, (runtime, backup, answer), r),
    ensures
        r is Ok ==> final(runtime)@.pending is Some && final(runtime)@.pending->0.login_id
            == r->Ok_0.login_id@ && final(runtime)@.pending->0.mode == PendingLoginMode::DeviceCode
            && final(runtime)@.pending->0.backup == backup@ && final(runtime)@.connected
            == old(runtime)@.connected,
        r is Ok <==> answer is Ok && official_remote::device_login_start_of(answer->Ok_0@) is Ok,
        r is Err ==> final(runtime)@.pending is None && !final(runtime)@.connected && (
        r->Err_0.1)@ == backup@,
        answer is Err ==> (r->Err_0.0)@ == answer->Err_0@,
{
}

/// A request that failed lets the server go, and one that did not keeps it as it was; neither
/// ends a login.
pub proof fn law_failed_request_lets_the_server_go(runtime: &mut OfficialRemoteRuntime, failed: bool)
    requires
        call_ensures(OfficialRemoteRuntime::call_ended, (runtime, failed), ()),
    ensures
        final(runtime)@.pending == old(runtime)@.pending,
        final(runtime)@.connected == (old(runtime)@.connected && !failed),
{
}

/// Once the server is ready it is connected, and a login that goes on does so still.
pub proof fn law_ready_server_is_connected(runtime: &mut OfficialRemoteRuntime)
    requires
        call_ensures(OfficialRemoteRuntime::client_ready, (runtime,), ()),
    ensures
        final(runtime)@.connected,
        final(runtime)@.pending == old(runtime)@.pending,
{
}

} // verus!
