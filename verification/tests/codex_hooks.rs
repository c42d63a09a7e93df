use base64::Engine;
use codex_plus_core::ai_shell::{
    ai_shell_hook_output, available_ai_shell, wrap_command_value, wrap_powershell_command,
    CodexAiShell,
};
use codex_plus_core::codex_hooks::{
    hook_command, hooks_object, is_owned_hook_command, merge_hooks, plan_hook_install,
    remove_owned_hooks, shell_quote, HookFileError, OWNED_HOOK_MARKER,
};
use codex_plus_core::hook_event::{
    end_hook, hook_event, log_error, reply_line, HookEvent, HookRun,
};
use codex_plus_core::hook_trust::{
    make_hook_list_request, make_trust_request, plan_trust, select_hooks_to_trust,
    toml_key_segment,
};
use codex_plus_core::json::{compact_json, parse_json, pretty_json, Json, JsonNumber};
use codex_plus_core::json_order::tidy;
use codex_plus_core::platform::Platform;

fn text_of(bytes: Vec<u8>) -> String {
    String::from_utf8(bytes).unwrap()
}

fn compact(json: &Json) -> String {
    text_of(compact_json(json))
}

const USER_HOOKS: &str = r#"{
  "hooks": {
    "UserPromptSubmit": [
      {
        "matcher": "",
        "hooks": [
          {"type":"command","command":"user-memory-tool"},
          {"type":"command","command":"old.exe --codex-plus-hook"}
        ]
      }
    ]
  },
  "custom": true
}"#;

#[test]
fn hook_file_merge_preserves_user_hooks_and_replaces_owned_hooks() {
    for platform in [Platform::Windows, Platform::MacOs, Platform::Other] {
        let result = plan_hook_install(
            Some(USER_HOOKS),
            true,
            r"C:\Program Files\Codex++\codex-plus-plus.exe",
            platform,
        )
        .unwrap();
        let written = parse_json(&text_of(result.bytes)).unwrap();
        let text = compact(&written);

        assert!(written.boolean_at("custom").unwrap());
        assert!(text.contains("user-memory-tool"));
        assert_eq!(text.matches(OWNED_HOOK_MARKER).count(), result.installed);
        assert_eq!(result.removed, 1);
        assert!(result.write);
    }
}

#[test]
fn disabled_enhancements_remove_only_owned_hooks() {
    let contents = r#"{"hooks":{"PreToolUse":[{"matcher":"Bash","hooks":[{"type":"command","command":"keep"},{"type":"command","command":"old --codex-plus-hook"}]}]}}"#;

    let result = plan_hook_install(Some(contents), false, "launcher", Platform::Other).unwrap();
    let text = text_of(result.bytes);

    assert!(text.contains("\"command\": \"keep\""));
    assert!(!text.contains(OWNED_HOOK_MARKER));
    assert_eq!(result.installed, 0);
    assert_eq!(result.removed, 1);
}

#[test]
fn a_missing_hook_file_is_written_with_the_hooks_of_the_platform() {
    let elsewhere = plan_hook_install(None, true, "/opt/codex plus", Platform::Other).unwrap();
    assert_eq!(elsewhere.installed, 1);
    assert_eq!(elsewhere.removed, 0);
    assert!(elsewhere.write);
    let text = text_of(elsewhere.bytes);
    assert!(text.ends_with("}\n"));
    let document = parse_json(&text).unwrap();
    let groups = document.get("hooks").unwrap().items_at("UserPromptSubmit").unwrap();
    assert_eq!(groups.len(), 1);
    assert_eq!(groups[0].text_at("matcher"), Some(""));
    let handler = &groups[0].items_at("hooks").unwrap()[0];
    assert_eq!(
        handler.text_at("command"),
        Some("'/opt/codex plus' --codex-plus-hook")
    );
    assert_eq!(handler.text_at("type"), Some("command"));
    assert_eq!(handler.get("timeout").unwrap().unsigned(), Some(40));
    assert_eq!(
        handler.text_at("statusMessage"),
        Some("Codex++ memory retrieval")
    );

    let windows = plan_hook_install(None, true, r"C:\codex.exe", Platform::Windows).unwrap();
    assert_eq!(windows.installed, 2);
    let document = parse_json(&text_of(windows.bytes)).unwrap();
    let groups = document.get("hooks").unwrap().items_at("PreToolUse").unwrap();
    assert_eq!(groups[0].text_at("matcher"), Some("Bash"));
    let handler = &groups[0].items_at("hooks").unwrap()[0];
    assert_eq!(
        handler.text_at("command"),
        Some("\"C:\\codex.exe\" --codex-plus-hook")
    );
    assert_eq!(handler.get("timeout").unwrap().unsigned(), Some(10));
}

#[test]
fn merging_twice_changes_nothing() {
    let once = plan_hook_install(Some(USER_HOOKS), true, "launcher", Platform::Windows).unwrap();
    let text = text_of(once.bytes);
    let twice = plan_hook_install(Some(&text), true, "launcher", Platform::Windows).unwrap();

    assert!(!twice.write);
    assert_eq!(text_of(twice.bytes), text);
    assert_eq!(twice.removed, once.installed);
}

#[test]
fn a_second_installation_leaves_the_file_as_it_is() {
    let unordered = r#"{"z":[{"b":-3,"a":[1,{"d":2,"c":{}}]}],"hooks":{"Stop":[{"matcher":"","hooks":
        [{"timeout":9,"command":"mine","type":"command"},{"command":"x --codex-plus-hook"}]}],
        "PreToolUse":[7],"Notification":{"b":1,"a":2}},"a":18446744073709551615}"#;
    for platform in [Platform::Windows, Platform::MacOs, Platform::Other] {
        for enabled in [true, false] {
            for contents in [None, Some("{}"), Some(unordered), Some(USER_HOOKS)] {
                let once = plan_hook_install(contents, enabled, "/opt/it's", platform).unwrap();
                let text = text_of(once.bytes);
                let twice = plan_hook_install(Some(&text), enabled, "/opt/it's", platform).unwrap();
                assert!(!twice.write);
                assert_eq!(text_of(twice.bytes), text);
                assert_eq!(twice.installed, once.installed);
                assert_eq!(twice.removed, once.installed);
            }
        }
    }
    let once = plan_hook_install(Some(unordered), false, "l", Platform::Windows).unwrap();
    assert_eq!(once.removed, 1);
    assert_eq!(
        compact(&parse_json(&text_of(once.bytes)).unwrap()),
        [
            r#"{"a":18446744073709551615,"hooks":{"Notification":{"a":2,"b":1},"PreToolUse":[7],"#,
            r#""Stop":[{"hooks":[{"command":"mine","timeout":9,"type":"command"}],"matcher":""}]},"#,
            r#""z":[{"a":[1,{"c":{},"d":2}],"b":-3}]}"#,
        ]
        .concat()
    );
}

#[test]
fn a_hook_file_that_cannot_be_used_is_refused() {
    let plan = |contents: &str| {
        plan_hook_install(Some(contents), true, "launcher", Platform::Windows).unwrap_err()
    };
    assert!(matches!(plan("{"), HookFileError::InvalidJson));
    assert!(matches!(plan("[]"), HookFileError::RootNotObject));
    assert!(matches!(plan(r#"{"hooks":[]}"#), HookFileError::HooksNotObject));
    assert!(matches!(
        plan(r#"{"hooks":{"UserPromptSubmit":{}}}"#),
        HookFileError::PromptHooksNotArray
    ));
    assert!(matches!(
        plan(r#"{"hooks":{"PreToolUse":1}}"#),
        HookFileError::ToolHooksNotArray
    ));
    assert_eq!(
        plan("{").message("hooks.json"),
        "Codex Hook 文件不是有效 JSON：hooks.json"
    );
    assert_eq!(
        plan("1").message("hooks.json"),
        "Codex Hook 文件根节点必须是对象：hooks.json"
    );
    assert_eq!(plan(r#"{"hooks":1}"#).message(""), "hooks 字段必须是对象");
    assert_eq!(
        plan(r#"{"hooks":{"UserPromptSubmit":{}}}"#).message(""),
        "UserPromptSubmit Hook 配置必须是数组"
    );
    assert_eq!(
        plan(r#"{"hooks":{"PreToolUse":1}}"#).message(""),
        "PreToolUse Hook 配置必须是数组"
    );
}

#[test]
fn groups_without_handlers_go_with_their_last_owned_hook() {
    let root = parse_json(
        r#"{"hooks":{"Stop":[{"hooks":[{"command":"x --codex-plus-hook"}]}],"Other":[{"matcher":"m"}]},"a":1}"#,
    )
    .unwrap();
    let merge = merge_hooks(&root, false, "launcher", Platform::Other).unwrap();
    assert_eq!(merge.removed, 1);
    let text = compact(&merge.root);
    assert!(!text.contains("Stop"));
    assert!(text.contains(r#""a":1"#));
}

#[test]
fn a_second_removal_finds_nothing() {
    let root = parse_json(
        r#"{"hooks":{"Stop":[{"hooks":[{"command":"x --codex-plus-hook"},{"command":"a"},
            {"command":"b --codex-plus-hook"},{"command":"c"}]}],"Other":3,
            "Gone":[{"hooks":[{"command":"--codex-plus-hook"}]}]}}"#,
    )
    .unwrap();
    let (once, removed) = remove_owned_hooks(&hooks_object(&root).unwrap());
    assert_eq!(removed, 3);
    assert_eq!(
        compact(&Json::Object(once.clone())),
        r#"{"Other":3,"Stop":[{"hooks":[{"command":"a"},{"command":"c"}]}]}"#
    );
    let (twice, removed) = remove_owned_hooks(&once);
    assert_eq!(removed, 0);
    assert_eq!(twice, once);
}

#[test]
fn owned_commands_are_known_by_their_marker() {
    assert!(is_owned_hook_command("\"a b\" --codex-plus-hook"));
    assert!(is_owned_hook_command("x \"--codex-plus-hook\""));
    assert!(!is_owned_hook_command("x --codex-plus-hooks"));
    assert!(!is_owned_hook_command(""));
    assert!(is_owned_hook_command(&hook_command("it's", Platform::Other)));
    assert!(is_owned_hook_command(&hook_command("C:\\a b.exe", Platform::Windows)));
}

#[test]
fn launcher_paths_are_quoted_for_the_shell() {
    assert_eq!(shell_quote("it's"), "'it'\"'\"'s'");
    assert_eq!(hook_command("a b", Platform::MacOs), "'a b' --codex-plus-hook");
    assert_eq!(
        hook_command("C:\\\"x\"", Platform::Windows),
        "\"C:\\x\" --codex-plus-hook"
    );
}

#[test]
fn only_own_hooks_of_the_user_are_trusted() {
    let listing = parse_json(
        r#"{"data":[{"hooks":[
            {"source":"user","command":"x --codex-plus-hook","key":" k\"1 ","currentHash":" h1 "},
            {"source":"project","command":"x --codex-plus-hook","key":"k2","currentHash":"h2"},
            {"source":"user","command":"x","key":"k3","currentHash":"h3"},
            {"source":"user","command":"x --codex-plus-hook","key":" ","currentHash":"h4"},
            {"source":"user","command":"x --codex-plus-hook","key":"k5"}
        ]},{"hooks":1},{"hooks":[
            {"source":"user","command":"y --codex-plus-hook","key":"k6","currentHash":"h6"}
        ]}]}"#,
    )
    .unwrap();
    let hooks = select_hooks_to_trust(&listing);
    assert_eq!(
        hooks,
        vec![
            ("k\"1".to_string(), "h1".to_string()),
            ("k6".to_string(), "h6".to_string())
        ]
    );
    let request = make_trust_request(&hooks);
    assert_eq!(request.boolean_at("reloadUserConfig"), Some(true));
    let edits = request.items_at("edits").unwrap();
    assert_eq!(edits.len(), 2);
    assert_eq!(
        edits[0].text_at("keyPath"),
        Some("hooks.state.\"k\\\"1\".trusted_hash")
    );
    assert_eq!(edits[0].text_at("value"), Some("h1"));
    assert_eq!(edits[1].text_at("mergeStrategy"), Some("upsert"));
    assert!(select_hooks_to_trust(&parse_json("{}").unwrap()).is_empty());
    let (planned, result) = plan_trust(&listing);
    assert_eq!(planned.unwrap(), request);
    assert_eq!(result.trusted, hooks.len());
    let (planned, result) = plan_trust(&parse_json("{}").unwrap());
    assert!(planned.is_none());
    assert_eq!(result.trusted, 0);
}

#[test]
fn keys_are_quoted_as_json_strings() {
    assert_eq!(toml_key_segment("plain"), "\"plain\"");
    assert_eq!(
        toml_key_segment("a\"b\\c\u{1}\n\u{7f}é"),
        "\"a\\\"b\\\\c\\u0001\\n\u{7f}é\""
    );
    for code in 0..0x500u32 {
        let c = char::from_u32(code).unwrap();
        let written = toml_key_segment(&c.to_string());
        assert_eq!(serde_json::from_str::<String>(&written).unwrap(), c.to_string());
    }
}

#[test]
fn the_hooks_of_a_directory_are_asked_for() {
    assert_eq!(compact(&make_hook_list_request("/a b")), r#"{"cwds":["/a b"]}"#);
}

#[test]
fn powershell_wrapper_round_trips_multiline_command() {
    let command = "Write-Output \"你好\"\nGet-Location";
    let wrapped = wrap_powershell_command(command, CodexAiShell::Pwsh).unwrap();
    let encoded = wrapped.split_whitespace().last().unwrap();
    let bytes = base64::engine::general_purpose::STANDARD
        .decode(encoded)
        .unwrap();
    let utf16 = bytes
        .chunks_exact(2)
        .map(|pair| u16::from_le_bytes([pair[0], pair[1]]))
        .collect::<Vec<_>>();

    assert_eq!(String::from_utf16(&utf16).unwrap(), command);
    assert!(wrapped.starts_with("pwsh.exe "));
}

#[test]
fn wrapped_commands_have_one_form() {
    assert_eq!(
        wrap_powershell_command("ls", CodexAiShell::PowerShell).unwrap(),
        "powershell.exe -NoLogo -NoProfile -NonInteractive -ExecutionPolicy Bypass -EncodedCommand bABzAA=="
    );
    assert_eq!(
        wrap_powershell_command("😀", CodexAiShell::Pwsh).unwrap(),
        "pwsh.exe -NoLogo -NoProfile -NonInteractive -ExecutionPolicy Bypass -EncodedCommand PdgA3g=="
    );
    assert_eq!(wrap_powershell_command(" \n ", CodexAiShell::Pwsh), None);
}

#[test]
fn commands_are_wrapped_where_they_stand() {
    let list = parse_json(r#"["pwd","ls"]"#).unwrap();
    match wrap_command_value(&list, CodexAiShell::Pwsh).unwrap() {
        Json::Array(items) => {
            assert_eq!(items.len(), 2);
            assert_eq!(
                items[1].text().unwrap(),
                wrap_powershell_command("ls", CodexAiShell::Pwsh).unwrap()
            );
        }
        _ => panic!("a list stays a list"),
    }
    assert!(wrap_command_value(&parse_json(r#"["ls",1]"#).unwrap(), CodexAiShell::Pwsh).is_none());
    assert!(wrap_command_value(&parse_json(r#"["ls",""]"#).unwrap(), CodexAiShell::Pwsh).is_none());
    let single = wrap_command_value(&parse_json(r#""ls""#).unwrap(), CodexAiShell::Pwsh).unwrap();
    assert_eq!(
        single.text().unwrap(),
        wrap_powershell_command("ls", CodexAiShell::Pwsh).unwrap()
    );
    assert!(wrap_command_value(&parse_json("1").unwrap(), CodexAiShell::Pwsh).is_none());
}

#[test]
fn the_selected_shell_is_used_where_it_is_there() {
    let (powershell, pwsh) = (CodexAiShell::PowerShell, CodexAiShell::Pwsh);
    assert_eq!(available_ai_shell(pwsh, true, true), pwsh);
    assert_eq!(available_ai_shell(pwsh, false, true), powershell);
    assert_eq!(available_ai_shell(pwsh, false, false), powershell);
    assert_eq!(available_ai_shell(powershell, true, true), powershell);
    assert_eq!(available_ai_shell(powershell, true, false), pwsh);
    assert_eq!(available_ai_shell(powershell, false, false), powershell);
}

#[test]
fn the_shell_tool_is_answered_on_windows_only() {
    let input =
        parse_json(r#"{"tool_name":"Bash","tool_input":{"command":"ls","timeout":5}}"#).unwrap();
    let reply = ai_shell_hook_output(&input, CodexAiShell::Pwsh, Platform::Windows);
    let output = reply.get("hookSpecificOutput").unwrap();
    assert_eq!(output.text_at("hookEventName"), Some("PreToolUse"));
    let updated = output.get("updatedInput").unwrap();
    assert_eq!(updated.get("timeout").unwrap().unsigned(), Some(5));
    assert!(updated.text_at("command").unwrap().starts_with("pwsh.exe "));

    let nothing = |text: &str, platform: Platform| {
        let input = parse_json(text).unwrap();
        compact(&ai_shell_hook_output(&input, CodexAiShell::Pwsh, platform))
    };
    assert_eq!(
        nothing(r#"{"tool_name":"Bash","tool_input":{"command":"ls"}}"#, Platform::Other),
        "{}"
    );
    assert_eq!(
        nothing(r#"{"tool_name":"Edit","tool_input":{"command":"ls"}}"#, Platform::Windows),
        "{}"
    );
    assert_eq!(nothing(r#"{"tool_name":"Bash"}"#, Platform::Windows), "{}");
    assert_eq!(
        nothing(r#"{"tool_name":"Bash","tool_input":{"command":" "}}"#, Platform::Windows),
        "{}"
    );
}

#[test]
fn hooks_are_told_apart_by_their_event() {
    let event = |text: &str| hook_event(&parse_json(text).unwrap());
    assert_eq!(event(r#"{"hook_event_name":"PreToolUse"}"#), HookEvent::ToolUse);
    assert_eq!(event(r#"{"hook_event_name":"UserPromptSubmit"}"#), HookEvent::Prompt);
    assert_eq!(event(r#"{"hook_event_name":"Stop"}"#), HookEvent::Other);
    assert_eq!(event("[]"), HookEvent::Other);
    assert_eq!(reply_line(&parse_json("{}").unwrap()), b"{}\n".to_vec());
}

#[test]
fn hooks_that_fail_answer_nothing_and_are_logged() {
    let input = parse_json(r#"{"hook_event_name":"Stop"}"#).unwrap();
    let reply = parse_json(r#"{"a":1}"#).unwrap();
    let (output, entry) = end_hook(&input, HookRun::Answered(reply.clone()));
    assert_eq!(output, reply);
    assert!(entry.is_none());

    let (output, entry) = end_hook(&input, HookRun::Failed("no\nway".to_string()));
    assert_eq!(compact(&output), "{}");
    let entry = entry.unwrap();
    assert_eq!(entry.name, "codex_hooks.failed");
    assert_eq!(compact(&entry.details), r#"{"error":"noway","event":"Stop"}"#);

    let (_, entry) = end_hook(&Json::Null, HookRun::Failed("x".to_string()));
    assert_eq!(compact(&entry.unwrap().details), r#"{"error":"x","event":null}"#);

    let (output, entry) = end_hook(&Json::Null, HookRun::Unreadable("x".repeat(300)));
    assert_eq!(compact(&output), "{}");
    let entry = entry.unwrap();
    assert_eq!(entry.name, "codex_hooks.invalid_input");
    assert_eq!(compact(&entry.details), format!("{{\"error\":\"{}\"}}", "x".repeat(240)));
    assert_eq!(log_error("n", "e").name, "n");
}

#[test]
fn documents_are_read_and_written() {
    let text = r#"{"a":[1,-2,1.5,"x\n",null,true],"b":{}}"#;
    let document = parse_json(text).unwrap();
    assert_eq!(compact(&document), text);
    assert_eq!(
        text_of(pretty_json(&parse_json(r#"{"a":[1]}"#).unwrap())),
        "{\n  \"a\": [\n    1\n  ]\n}"
    );
    assert!(parse_json("{").is_none());
    let big = parse_json("18446744073709551615").unwrap();
    assert_eq!(big.unsigned(), Some(u64::MAX));
    assert_eq!(big.signed(), None);
    assert_eq!(parse_json("-9223372036854775808").unwrap().signed(), Some(i64::MIN));
    assert_eq!(parse_json("1.0").unwrap().unsigned(), None);
    let twice = Json::Object(vec![
        ("k".to_string(), Json::Bool(true)),
        ("k".to_string(), Json::Bool(false)),
    ]);
    assert_eq!(compact(&twice), r#"{"k":true}"#);
}

#[test]
fn documents_are_tidied_before_they_are_written() {
    let number = |n: i64| Json::Number(JsonNumber::Negative(n));
    let document = Json::Object(vec![
        ("é".to_string(), Json::Null),
        ("b".to_string(), number(3)),
        ("\u{10000}".to_string(), number(-1)),
        ("a".to_string(), Json::Array(vec![Json::Object(vec![
            ("y".to_string(), Json::Bool(true)),
            ("".to_string(), Json::Null),
            ("y".to_string(), Json::Bool(false)),
        ])])),
        ("b".to_string(), Json::Text("second".to_string())),
        ("ba".to_string(), Json::Null),
    ]);
    let written = "{\"a\":[{\"\":null,\"y\":true}],\"b\":3,\"ba\":null,\"é\":null,\"\u{10000}\":-1}";
    assert_eq!(compact(&document), written);
    assert_eq!(tidy(&document), parse_json(written).unwrap());
    assert_eq!(tidy(&tidy(&document)), tidy(&document));
    assert_eq!(
        tidy(&document).get("b").unwrap().unsigned(),
        Some(3)
    );
}

#[test]
fn plain_documents_are_read_back() {
    let deep = |depth: usize| format!("{}{}", "[".repeat(depth), "]".repeat(depth));
    for text in [
        deep(127),
        r#"{"b":[1,-1,18446744073709551615,-9223372036854775808],"a":"\u0000\ud83d\ude00\\\"\n"}"#
            .to_string(),
        r#""x""#.to_string(),
    ] {
        let document = parse_json(&text).unwrap();
        let mut written = text_of(pretty_json(&document));
        assert_eq!(parse_json(&written).unwrap(), document);
        written.push('\n');
        assert_eq!(parse_json(&written).unwrap(), document);
    }
    let near = parse_json("3846.6837209302325").unwrap();
    assert_eq!(compact(&near), "3846.683720930233");
    assert!(parse_json(&deep(128)).is_none());
    assert!(parse_json(&format!("{{\"a\":{}}}", deep(126))).is_some());
    assert!(parse_json(&format!("{{\"a\":{}}}", deep(127))).is_none());
}
