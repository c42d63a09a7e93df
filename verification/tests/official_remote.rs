use codex_plus_core::ai_shell::CodexAiShell;
use codex_plus_core::app_server::LoginCompletion;
use codex_plus_core::json::{compact_json, parse_json};
use codex_plus_core::login_session::{
    capture_login_backup, login_canceled, login_succeeded, restore_login_backup, CancelStep,
    FileRestore, LoginBackup, OfficialRemoteRuntime, PolledStep, StatusStep,
};
use codex_plus_core::official_remote::{
    is_openai_login_url, parse_chatgpt_device_login_start, parse_chatgpt_login_start,
    required_string, RemoteError, ReplyField,
};
use codex_plus_core::platform::Platform;
use codex_plus_core::remote_control::{
    client_list, codex_program_name, is_application_bundle, newest, pairing_claimed,
    remote_environment, remote_snapshot, RemoteCall,
};
use codex_plus_core::settings::{
    find_movable_profile, migrate_active_profile_after_chatgpt_login, move_profile,
    shared_relay_config, BackendSettings, MigrationError, RelayMode, RelayProfile,
};

fn profile(id: &str, mode: RelayMode) -> RelayProfile {
    RelayProfile {
        id: id.to_string(),
        relay_mode: mode,
        official_mix_api_key: false,
        api_key: "sk-provider".to_string(),
        auth_contents: r#"{"auth_mode":"apikey","OPENAI_API_KEY":"sk-provider"}"#.to_string(),
    }
}

fn settings(active: &str, profiles: Vec<RelayProfile>) -> BackendSettings {
    BackendSettings {
        enhancements_enabled: true,
        codex_app_disable_auto_update: false,
        codex_app_ai_shell: CodexAiShell::PowerShell,
        codex_app_memory_embedding_enabled: false,
        codex_app_memory_embedding_base_url: String::new(),
        codex_app_memory_embedding_model: String::new(),
        codex_app_memory_embedding_api_key: String::new(),
        active_relay_id: active.to_string(),
        relay_profiles: profiles,
        relay_common_config_contents: String::new(),
        relay_context_config_contents: String::new(),
        computer_use_guard_enabled: false,
    }
}

const AUTH: &str = r#"{"auth_mode":"chatgpt","tokens":{"access_token":"account-token","refresh_token":"refresh-token"},"last_refresh":"2026-07-19T00:00:00Z"}"#;

#[test]
fn migration_keeps_api_provider_and_chatgpt_auth() {
    let mut settings = settings("api", vec![profile("api", RelayMode::PureApi)]);

    let moved = migrate_active_profile_after_chatgpt_login(
        &mut settings,
        true,
        AUTH.to_string(),
        |profile: &RelayProfile| profile.api_key.clone(),
    )
    .unwrap();
    let profile = &settings.relay_profiles[moved];
    assert_eq!(profile.relay_mode, RelayMode::Official);
    assert!(profile.official_mix_api_key);
    assert_eq!(profile.api_key, "sk-provider");
    assert!(profile.auth_contents.contains("\"auth_mode\":\"chatgpt\""));
    assert!(!profile.auth_contents.contains("OPENAI_API_KEY"));
}

#[test]
fn providers_that_cannot_be_moved_stay() {
    let list = || {
        vec![
            profile("a", RelayMode::Aggregate),
            profile("c", RelayMode::CustomModels),
            profile("m", RelayMode::MixedApi),
            profile("o", RelayMode::Official),
        ]
    };
    let attempt = |active: &str, authenticated: bool, key: &str| {
        let mut settings = settings(active, list());
        let result = migrate_active_profile_after_chatgpt_login(
            &mut settings,
            authenticated,
            AUTH.to_string(),
            |_: &RelayProfile| key.to_string(),
        );
        (result, settings)
    };
    assert_eq!(attempt("m", false, "k").0.unwrap_err(), MigrationError::NotLoggedIn);
    assert_eq!(attempt("x", true, "k").0.unwrap_err(), MigrationError::ProfileMissing);
    assert_eq!(attempt("a", true, "k").0.unwrap_err(), MigrationError::ModeUnsupported);
    assert_eq!(attempt("c", true, "k").0.unwrap_err(), MigrationError::ModeUnsupported);
    let (result, kept) = attempt("m", true, " ");
    assert_eq!(result.unwrap_err(), MigrationError::ApiKeyMissing);
    assert_eq!(kept.relay_profiles[2].relay_mode, RelayMode::MixedApi);
    let (result, moved) = attempt("o", true, "");
    assert_eq!(result.unwrap(), 3);
    assert!(!moved.relay_profiles[3].official_mix_api_key);
    assert_eq!(moved.relay_profiles[3].api_key, "sk-provider");
    assert_eq!(moved.relay_profiles[3].auth_contents, AUTH);
    assert_eq!(find_movable_profile(&settings("m", list()), true).unwrap(), 2);
    let mut one = profile("p", RelayMode::Official);
    move_profile(&mut one, "new".to_string(), "auth".to_string()).unwrap();
    assert!(one.official_mix_api_key);
    assert_eq!(one.api_key, "new");
    assert_eq!(
        MigrationError::NotLoggedIn.message(),
        "app-server 未写入有效的 ChatGPT 登录态"
    );
    assert_eq!(MigrationError::ProfileMissing.message(), "当前供应商已不在配置列表中");
    assert_eq!(
        MigrationError::ModeUnsupported.message(),
        "聚合和自定义模型模式暂不支持自动迁移，请先切换到单一 API 供应商"
    );
    assert_eq!(
        MigrationError::ApiKeyMissing.message(),
        "当前 API 供应商缺少可迁移的 API Key"
    );
}

#[test]
fn shared_sections_are_joined() {
    let joined = |common: &str, context: &str| {
        let mut settings = settings("", vec![]);
        settings.relay_common_config_contents = common.to_string();
        settings.relay_context_config_contents = context.to_string();
        shared_relay_config(&settings)
    };
    assert_eq!(joined(" a \n", "\nb"), "a\n\nb");
    assert_eq!(joined(" ", " b "), "b");
    assert_eq!(joined("a", ""), "a");
    assert_eq!(joined("", ""), "");
}

fn backup(active: &str, config: Option<&str>, auth: Option<&str>) -> LoginBackup {
    capture_login_backup(
        settings(active, vec![]),
        config.map(|s| s.as_bytes().to_vec()),
        auth.map(|s| s.as_bytes().to_vec()),
    )
}

#[test]
fn backup_restore_recovers_files_and_settings() {
    let backup = backup(
        "before",
        Some("model = \"before\"\n"),
        Some("{\"auth_mode\":\"apikey\"}\n"),
    );
    let restore = restore_login_backup(&backup);

    assert!(matches!(restore.config, FileRestore::Write(bytes) if bytes == b"model = \"before\"\n"));
    assert!(matches!(restore.auth, FileRestore::Write(bytes) if bytes == b"{\"auth_mode\":\"apikey\"}\n"));
    assert_eq!(restore.settings.active_relay_id, "before");
}

#[test]
fn files_that_were_not_there_are_removed() {
    let backup = backup("x", None, Some(""));
    let restore = restore_login_backup(&backup);
    assert!(matches!(restore.config, FileRestore::Remove));
    assert!(matches!(restore.auth, FileRestore::Write(bytes) if bytes.is_empty()));
}

#[test]
fn parses_official_device_login_response() {
    let parsed = parse_chatgpt_device_login_start(
        &parse_json(
            r#"{
            "type": "chatgptDeviceCode",
            "loginId": "login-1",
            "verificationUrl": "https://auth.openai.com/codex/device",
            "userCode": "ABCD-EFGH"
        }"#,
        )
        .unwrap(),
    )
    .unwrap();

    assert_eq!(parsed.login_id, "login-1");
    assert_eq!(
        parsed.verification_url,
        "https://auth.openai.com/codex/device"
    );
    assert_eq!(parsed.user_code, "ABCD-EFGH");
}

#[test]
fn rejects_non_openai_device_login_response() {
    let error = parse_chatgpt_device_login_start(
        &parse_json(
            r#"{
            "type": "chatgptDeviceCode",
            "loginId": "login-1",
            "verificationUrl": "https://example.test/device",
            "userCode": "ABCD-EFGH"
        }"#,
        )
        .unwrap(),
    )
    .unwrap_err();

    assert!(error.message().contains("非 OpenAI 官方设备验证地址"));
}

#[test]
fn rejects_non_device_login_response() {
    let error = parse_chatgpt_device_login_start(
        &parse_json(
            r#"{
            "type": "chatgpt",
            "loginId": "login-1",
            "verificationUrl": "https://auth.openai.com/codex/device",
            "userCode": "ABCD-EFGH"
        }"#,
        )
        .unwrap(),
    )
    .unwrap_err();

    assert!(error.message().contains("非设备码登录结果"));
}

#[test]
fn login_answers_must_be_complete() {
    let device = |text: &str| parse_chatgpt_device_login_start(&parse_json(text).unwrap()).unwrap_err();
    assert_eq!(
        device(r#"{"type":"chatgptDeviceCode","loginId":" "}"#),
        RemoteError::Missing(ReplyField::LoginId)
    );
    assert_eq!(
        device(r#"{"type":"chatgptDeviceCode","loginId":"l","verificationUrl":1}"#).message(),
        "app-server 响应缺少 verificationUrl"
    );
    assert_eq!(
        device(r#"{"type":"chatgptDeviceCode","loginId":"l","verificationUrl":"x"}"#),
        RemoteError::Missing(ReplyField::UserCode)
    );
    let login = |text: &str| parse_chatgpt_login_start(&parse_json(text).unwrap());
    assert_eq!(
        login(r#"{"loginId":"l"}"#).unwrap_err().message(),
        "app-server 响应缺少 authUrl"
    );
    assert_eq!(
        login(r#"{"loginId":"l","authUrl":"https://chatgpt.com"}"#).unwrap_err().message(),
        "app-server 返回了非 OpenAI 官方登录地址"
    );
    let start = login(r#"{"loginId":"l","authUrl":"https://chatgpt.com/x"}"#).unwrap();
    assert_eq!(start.login_id, "l");
    assert_eq!(start.auth_url, "https://chatgpt.com/x");
    assert_eq!(start.chatgpt_url, "https://chatgpt.com/");
    assert!(is_openai_login_url("https://auth.openai.com/"));
    assert!(!is_openai_login_url("https://auth.openai.com.evil.test/"));
    assert!(!is_openai_login_url("http://chatgpt.com/"));
    assert_eq!(
        required_string(&parse_json(r#"{"userCode":" c "}"#).unwrap(), ReplyField::UserCode).unwrap(),
        " c "
    );
}

fn browser_answer() -> Result<codex_plus_core::json::Json, String> {
    Ok(parse_json(r#"{"loginId":"l","authUrl":"https://chatgpt.com/x"}"#).unwrap())
}

fn pending() -> OfficialRemoteRuntime {
    let mut runtime = OfficialRemoteRuntime::new();
    runtime.client_ready();
    runtime.login_started(backup("before", None, None), browser_answer()).unwrap();
    runtime
}

fn completion(success: bool, error: Option<&str>) -> Option<LoginCompletion> {
    Some(LoginCompletion {
        success,
        error: error.map(str::to_string),
    })
}

#[test]
fn one_login_goes_on_at_a_time() {
    let runtime = OfficialRemoteRuntime::new();
    assert!(runtime.login_start().is_ok());
    match runtime.login_status("l").unwrap() {
        StatusStep::Answer(progress) => {
            assert_eq!(progress.state, "idle");
            assert_eq!(progress.message, "当前没有等待完成的 ChatGPT 登录。");
            assert!(progress.login_id.is_none());
        }
        StatusStep::Poll => panic!("no login goes on"),
    }
    let mut runtime = pending();
    assert_eq!(
        runtime.login_start().unwrap_err().message(),
        "已有 ChatGPT 登录正在等待完成"
    );
    assert!(matches!(runtime.login_status("l").unwrap(), StatusStep::Poll));
    let wrong = runtime.login_status("x").map(|_| ()).unwrap_err();
    assert_eq!(wrong.message(), "登录任务标识不匹配");
    match runtime.login_polled(None) {
        PolledStep::Waiting(progress) => {
            assert_eq!(progress.state, "pending");
            assert_eq!(progress.message, "正在等待浏览器完成 ChatGPT 登录。");
            assert_eq!(progress.login_id, Some("l".to_string()));
        }
        _ => panic!("the login goes on"),
    }
    runtime.call_ended(false);
    assert!(runtime.is_connected());
    runtime.call_ended(true);
    let closed = runtime.login_status("l").map(|_| ()).unwrap_err();
    assert_eq!(closed.message(), "ChatGPT 登录会话已关闭，请重新发起登录");
}

#[test]
fn a_login_that_does_not_begin_gives_its_backup_back() {
    let mut runtime = OfficialRemoteRuntime::new();
    runtime.client_ready();
    let (error, kept) = runtime
        .login_started(backup("before", None, None), Err("app-server 1: x".to_string()))
        .map(|_| ())
        .unwrap_err();
    assert_eq!(error, "app-server 1: x");
    assert_eq!(restore_login_backup(&kept).settings.active_relay_id, "before");
    assert!(!runtime.is_connected());
    assert!(runtime.login_start().is_ok());
    let (error, _) = runtime
        .device_login_started(backup("before", None, None), browser_answer())
        .map(|_| ())
        .unwrap_err();
    assert_eq!(error, "app-server 返回了非设备码登录结果");
}

#[test]
fn a_login_by_code_says_so_while_it_waits() {
    let mut runtime = OfficialRemoteRuntime::new();
    let answer = parse_json(
        r#"{"type":"chatgptDeviceCode","loginId":"d","verificationUrl":"https://chatgpt.com/d","userCode":"C"}"#,
    )
    .unwrap();
    let start = runtime
        .device_login_started(backup("before", None, None), Ok(answer))
        .map_err(|_| ())
        .unwrap();
    assert_eq!(start.user_code, "C");
    match runtime.login_polled(None) {
        PolledStep::Waiting(progress) => assert_eq!(
            progress.message,
            "正在等待设备码授权，可在手机或其他设备完成验证。"
        ),
        _ => panic!("the login goes on"),
    }
}

#[test]
fn a_failed_login_is_undone() {
    for (error, words) in [
        (Some("denied sk-1"), "denied [redacted]"),
        (Some(" \u{1} "), "ChatGPT 登录未完成。"),
        (None, "ChatGPT 登录未完成。"),
    ] {
        let mut runtime = pending();
        match runtime.login_polled(completion(false, error)) {
            PolledStep::Failed(kept, progress) => {
                assert_eq!(restore_login_backup(&kept).settings.active_relay_id, "before");
                assert_eq!(progress.state, "failed");
                assert_eq!(progress.message, words);
            }
            _ => panic!("the login failed"),
        }
        assert!(!runtime.is_connected());
        assert!(runtime.login_start().is_ok());
    }
}

#[test]
fn a_login_that_succeeds_is_followed_by_the_move() {
    let mut runtime = pending();
    match runtime.login_polled(completion(true, None)) {
        PolledStep::Migrate(kept) => {
            assert_eq!(restore_login_backup(&kept).settings.active_relay_id, "before")
        }
        _ => panic!("the login succeeded"),
    }
    assert!(runtime.is_connected());
    let progress = login_succeeded("l", settings("after", vec![]));
    assert_eq!(progress.state, "succeeded");
    assert_eq!(
        progress.message,
        "ChatGPT 登录已完成，当前 API 供应商已保留并切换为官方登录混合模式。"
    );
    assert_eq!(progress.settings.unwrap().active_relay_id, "after");
    assert_eq!(runtime.migration_failed("x", None), "登录后的供应商迁移失败：x");
    assert_eq!(
        runtime.migration_failed("x", Some("y")),
        "登录后的供应商迁移失败：x；回滚也失败：y"
    );
    assert!(!runtime.is_connected());
}

#[test]
fn a_login_that_is_called_off_is_undone() {
    let mut runtime = pending();
    assert_eq!(
        runtime.login_cancel("x").map(|_| ()).unwrap_err(),
        RemoteError::WrongLogin
    );
    assert!(runtime.login_start().is_err());
    match runtime.login_cancel("l").unwrap() {
        CancelStep::Restore(kept) => {
            assert_eq!(restore_login_backup(&kept).settings.active_relay_id, "before")
        }
        CancelStep::Answer(_) => panic!("a login goes on"),
    }
    match runtime.login_cancel("l").unwrap() {
        CancelStep::Answer(progress) => {
            assert_eq!(progress.message, "当前没有等待取消的 ChatGPT 登录。")
        }
        CancelStep::Restore(_) => panic!("no login goes on"),
    }
    let progress = login_canceled("l", settings("before", vec![]));
    assert_eq!(progress.state, "canceled");
    assert_eq!(progress.message, "ChatGPT 登录已取消，原配置已恢复。");
}

fn params(call: &RemoteCall) -> String {
    String::from_utf8(compact_json(&call.params().unwrap())).unwrap()
}

#[test]
fn requests_have_their_methods_and_parameters() {
    let text = |s: &str| s.to_string();
    let cases = vec![
        (
            RemoteCall::LoginStart,
            "account/login/start",
            r#"{"appBrand":"chatgpt","type":"chatgpt","useHostedLoginSuccessPage":false}"#,
        ),
        (
            RemoteCall::DeviceLoginStart,
            "account/login/start",
            r#"{"type":"chatgptDeviceCode"}"#,
        ),
        (
            RemoteCall::LoginCancel { login_id: text("l") },
            "account/login/cancel",
            r#"{"loginId":"l"}"#,
        ),
        (RemoteCall::AccountRead, "account/read", r#"{"refreshToken":false}"#),
        (RemoteCall::Enable, "remoteControl/enable", r#"{"ephemeral":false}"#),
        (RemoteCall::Disable, "remoteControl/disable", r#"{"ephemeral":false}"#),
        (RemoteCall::PairingStart, "remoteControl/pairing/start", r#"{"manualCode":true}"#),
        (
            RemoteCall::PairingStatus { pairing_code: Some(text("p")), manual_pairing_code: None },
            "remoteControl/pairing/status",
            r#"{"manualPairingCode":null,"pairingCode":"p"}"#,
        ),
        (
            RemoteCall::ClientRevoke { environment_id: text("e"), client_id: text("c") },
            "remoteControl/client/revoke",
            r#"{"clientId":"c","environmentId":"e"}"#,
        ),
        (
            RemoteCall::ClientList { environment_id: text("e") },
            "remoteControl/client/list",
            r#"{"environmentId":"e","limit":100,"order":"desc"}"#,
        ),
    ];
    for (call, method, expected) in &cases {
        assert_eq!(call.method(), *method);
        assert_eq!(params(call), *expected);
    }
    assert_eq!(RemoteCall::StatusRead.method(), "remoteControl/status/read");
    assert!(RemoteCall::StatusRead.params().is_none());
}

#[test]
fn snapshots_say_what_the_answers_say() {
    let account = parse_json(
        r#"{"account":{"type":"chatgpt","email":"e","planType":"plus"},"requiresOpenaiAuth":true}"#,
    )
    .unwrap();
    let remote = parse_json(
        r#"{"status":"enabled","serverName":"s","installationId":"i","environmentId":"v"}"#,
    )
    .unwrap();
    assert_eq!(remote_environment(&remote), Some("v".to_string()));
    let snapshot = remote_snapshot(&account, &remote, Vec::new());
    assert_eq!(snapshot.account_type, "chatgpt");
    assert_eq!(snapshot.account_label, Some("e".to_string()));
    assert_eq!(snapshot.plan_type, Some("plus".to_string()));
    assert!(snapshot.requires_openai_auth);
    assert_eq!(snapshot.status, "enabled");
    assert_eq!(snapshot.server_name, "s");
    assert_eq!(snapshot.installation_id, "i");
    let nothing = parse_json("{}").unwrap();
    let snapshot = remote_snapshot(&nothing, &nothing, Vec::new());
    assert_eq!(snapshot.account_type, "none");
    assert_eq!(snapshot.status, "disabled");
    assert_eq!(snapshot.server_name, "");
    assert!(!snapshot.requires_openai_auth);
    assert!(snapshot.environment_id.is_none());
    assert_eq!(compact_json(&client_list(&nothing)), b"[]".to_vec());
    assert_eq!(
        compact_json(&client_list(&parse_json(r#"{"data":[1]}"#).unwrap())),
        b"[1]".to_vec()
    );
    assert!(pairing_claimed(&parse_json(r#"{"claimed":true}"#).unwrap()));
    assert!(!pairing_claimed(&parse_json(r#"{"claimed":1}"#).unwrap()));
}

#[test]
fn the_newest_program_is_used() {
    assert_eq!(newest(&vec![]), None);
    assert_eq!(newest(&vec![3, 5, -1, 5]), Some(1));
    assert_eq!(codex_program_name(Platform::Windows), "codex.exe");
    assert_eq!(codex_program_name(Platform::MacOs), "codex");
    assert!(is_application_bundle("Codex.app"));
    assert!(!is_application_bundle("Codex") && !is_application_bundle(".app"));
}
