use codex_plus_core::codex_auto_update::{
    apply_codex_auto_update_policy, codex_updater_environment_value, CommandOutcome, PolicyCommand,
    PolicyStep, CODEX_UPDATER_DISABLED_VALUE, CODEX_UPDATER_ENV,
};
use codex_plus_core::codex_config_reload::reload_script;
use codex_plus_core::platform::Platform;
use codex_plus_core::proxy::{
    detect_local_proxy_with, has_proxy_environment, PROXY_AUTO_DETECT_PORTS,
};
use std::collections::HashMap;

#[test]
fn codex_auto_update_control_uses_the_official_codex_environment_gate() {
    assert_eq!(CODEX_UPDATER_ENV, "CODEX_SPARKLE_ENABLED");
    assert_eq!(CODEX_UPDATER_DISABLED_VALUE, "false");
    assert_eq!(
        codex_updater_environment_value(true),
        Some(CODEX_UPDATER_DISABLED_VALUE)
    );
    assert_eq!(codex_updater_environment_value(false), None);
}

fn command(step: PolicyStep) -> PolicyCommand {
    match step {
        PolicyStep::Run(command) => command,
        _ => panic!("a program is run"),
    }
}

#[test]
fn the_variable_is_set_in_the_registry() {
    let add = command(apply_codex_auto_update_policy(true, Platform::Windows));
    assert_eq!(add.program(), "reg.exe");
    assert_eq!(
        add.arguments(),
        vec![
            "add",
            r"HKCU\Environment",
            "/v",
            "CODEX_SPARKLE_ENABLED",
            "/t",
            "REG_SZ",
            "/d",
            "false",
            "/f"
        ]
    );
    assert_eq!(
        add.after(CommandOutcome::Succeeded),
        PolicyStep::Done { broadcast: true }
    );
    assert_eq!(
        add.after(CommandOutcome::Failed),
        PolicyStep::Fail { command: add, started: true }
    );
    assert_eq!(
        add.error_text(true),
        "failed to write the current-user Codex updater environment setting"
    );
    assert_eq!(
        add.error_text(false),
        "failed to start reg.exe while disabling Codex updates"
    );
}

#[test]
fn the_variable_is_removed_from_the_registry_where_it_is() {
    let query = command(apply_codex_auto_update_policy(false, Platform::Windows));
    assert_eq!(
        query.arguments(),
        vec!["query", r"HKCU\Environment", "/v", "CODEX_SPARKLE_ENABLED"]
    );
    assert_eq!(
        query.after(CommandOutcome::Failed),
        PolicyStep::Done { broadcast: true }
    );
    assert_eq!(
        query.after(CommandOutcome::NotStarted),
        PolicyStep::Fail { command: query, started: false }
    );
    assert_eq!(
        query.error_text(false),
        "failed to query the Codex updater environment setting"
    );
    let delete = command(query.after(CommandOutcome::Succeeded));
    assert_eq!(
        delete.arguments(),
        vec!["delete", r"HKCU\Environment", "/v", "CODEX_SPARKLE_ENABLED", "/f"]
    );
    assert_eq!(
        delete.after(CommandOutcome::Succeeded),
        PolicyStep::Done { broadcast: true }
    );
    assert_eq!(
        delete.error_text(true),
        "failed to remove the current-user Codex updater environment setting"
    );
    assert_eq!(
        delete.error_text(false),
        "failed to start reg.exe while enabling Codex updates"
    );
}

#[test]
fn the_variable_is_set_by_launchctl() {
    let set = command(apply_codex_auto_update_policy(true, Platform::MacOs));
    let unset = command(apply_codex_auto_update_policy(false, Platform::MacOs));
    assert_eq!(set.program(), "/bin/launchctl");
    assert_eq!(set.arguments(), vec!["setenv", "CODEX_SPARKLE_ENABLED", "false"]);
    assert_eq!(unset.arguments(), vec!["unsetenv", "CODEX_SPARKLE_ENABLED"]);
    assert_eq!(
        unset.after(CommandOutcome::Succeeded),
        PolicyStep::Done { broadcast: false }
    );
    assert_eq!(
        set.error_text(true),
        "launchctl failed to set the Codex updater environment setting"
    );
    assert_eq!(
        unset.error_text(true),
        "launchctl failed to unset the Codex updater environment setting"
    );
    assert_eq!(
        apply_codex_auto_update_policy(true, Platform::Other),
        PolicyStep::Done { broadcast: false }
    );
}

#[test]
fn the_reload_script_writes_the_limit() {
    let script = reload_script(12);
    assert!(script.starts_with("(async () => {\n  const urls = [\n"));
    assert!(script.contains("        keyPath: \"agents.max_threads\",\n        value: 12,\n        mergeStrategy: \"upsert\",\n"));
    assert!(script.contains("return await module.n(\"batch-write-config-value\", {\n    params: {"));
    assert!(script.ends_with("    },\n  });\n})()"));
}

#[test]
fn proxies_are_found_in_the_environment() {
    let env = |pairs: &[(&str, &str)]| {
        pairs
            .iter()
            .map(|(k, v)| (k.to_string(), v.to_string()))
            .collect::<HashMap<_, _>>()
    };
    for name in ["HTTPS_PROXY", "HTTP_PROXY", "ALL_PROXY", "https_proxy", "http_proxy", "all_proxy"] {
        assert!(has_proxy_environment(&env(&[("PATH", "x"), (name, "http://p")])));
        assert!(!has_proxy_environment(&env(&[(name, "")])));
    }
    assert!(!has_proxy_environment(&env(&[("NO_PROXY", "x"), ("Http_Proxy", "x")])));
}

#[test]
fn the_first_port_that_answers_is_the_proxy() {
    let tried = std::cell::RefCell::new(Vec::new());
    let found = detect_local_proxy_with(|port| {
        tried.borrow_mut().push(port);
        port == 10809 || port == 1080
    });
    assert_eq!(found, Some("http://127.0.0.1:10809".to_string()));
    assert_eq!(tried.into_inner(), vec![7897, 7890, 10809]);
    assert_eq!(detect_local_proxy_with(|_| false), None);
    assert_eq!(PROXY_AUTO_DETECT_PORTS.len(), 5);
}
