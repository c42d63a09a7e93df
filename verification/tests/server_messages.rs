use codex_plus_core::app_server::{
    classify_reply, make_initialize_params, make_request, ErrorStyle, Reply, ServerSession,
};
use codex_plus_core::json::{compact_json, parse_json, Json};
use codex_plus_core::server_message::{bounded_error, bounded_message, sanitize_server_message};

#[test]
fn server_error_sanitization_removes_url_queries_and_token_like_values() {
    let sanitized = sanitize_server_message(
        "login failed https://auth.openai.com/oauth?code=secret eyJabcdefghijklmnopqrstuvwxyz",
    );

    assert_eq!(
        sanitized,
        "login failed https://auth.openai.com/oauth [redacted]"
    );
    assert!(!sanitized.contains("secret"));
}

#[test]
fn words_that_look_like_secrets_are_taken_out() {
    for secret in [
        "sk-x",
        "eyJ",
        "my_ACCESS_token=1",
        "refresh_token",
        "x-Session-Token",
        "https://h/?refresh_token=1",
    ] {
        assert_eq!(sanitize_server_message(&format!("a {secret}\nb")), "a [redacted] b");
    }
    assert_eq!(sanitize_server_message(&"é".repeat(80)), "é".repeat(80));
    assert_eq!(sanitize_server_message(&"é".repeat(81)), "[redacted]");
    assert_eq!(sanitize_server_message("a\u{0}b\nc"), "ab c");
    assert_eq!(sanitize_server_message(" http://h?x?y "), "http://h");
    assert_eq!(sanitize_server_message("what? ask-me"), "what? ask-me");
    assert_eq!(sanitize_server_message(""), "");
    let long = "ab ".repeat(200);
    assert_eq!(sanitize_server_message(&long), format!("{}a", "ab ".repeat(133)));
}

#[test]
fn messages_are_bounded() {
    assert_eq!(bounded_error("a\nb\u{7f}c"), "abc");
    assert_eq!(bounded_error(&"é".repeat(300)), "é".repeat(240));
    assert_eq!(bounded_message(" a\n b\t"), "a b");
    assert_eq!(bounded_message(&"x ".repeat(40)), vec!["x"; 32].join(" "));
    assert_eq!(bounded_message(&"y".repeat(300)), "y".repeat(240));
}

fn compact(json: &Json) -> String {
    String::from_utf8(compact_json(json)).unwrap()
}

#[test]
fn requests_are_lines_with_ascending_ids() {
    let mut session = ServerSession::new();
    let (id, line) = session.begin("initialize", Some(parse_json("{}").unwrap()));
    assert_eq!(id, 1);
    assert_eq!(
        String::from_utf8(line).unwrap(),
        "{\"id\":1,\"jsonrpc\":\"2.0\",\"method\":\"initialize\",\"params\":{}}\n"
    );
    let (id, line) = session.begin("x", None);
    assert_eq!(id, 2);
    assert!(!String::from_utf8(line).unwrap().contains("params"));
    assert_eq!(
        compact(&make_request(7, "m", None)),
        r#"{"id":7,"jsonrpc":"2.0","method":"m"}"#
    );
    assert_eq!(
        compact(&make_initialize_params("Codex++ Manager", "1.2.49")),
        r#"{"capabilities":{"experimentalApi":true,"optOutNotificationMethods":[],"requestAttestation":false},"clientInfo":{"name":"Codex++ Manager","title":"Codex++","version":"1.2.49"}}"#
    );
}

#[test]
fn answers_are_told_from_other_messages() {
    let reply = |text: &str, style: ErrorStyle| classify_reply(&parse_json(text).unwrap(), 3, style);
    let failed = |text: &str, style: ErrorStyle| match reply(text, style) {
        Reply::Failed(message) => message,
        _ => panic!("an error is reported"),
    };
    assert!(matches!(reply(r#"{"id":4,"result":1}"#, ErrorStyle::Bounded), Reply::Unrelated));
    assert!(matches!(reply(r#"{"id":"3"}"#, ErrorStyle::Bounded), Reply::Unrelated));
    assert!(matches!(
        reply(r#"{"id":3,"result":{"a":1}}"#, ErrorStyle::Bounded),
        Reply::Answered(Json::Object(_))
    ));
    assert!(matches!(reply(r#"{"id":3}"#, ErrorStyle::Bounded), Reply::Answered(Json::Null)));
    let error = r#"{"id":3,"result":1,"error":{"code":-32600,"message":"bad  sk-1"}}"#;
    assert_eq!(failed(error, ErrorStyle::Bounded), "app-server -32600: bad sk-1");
    assert_eq!(failed(error, ErrorStyle::Sanitized), "app-server -32600: bad [redacted]");
    assert_eq!(
        failed(r#"{"id":3,"error":null}"#, ErrorStyle::Sanitized),
        "app-server 0: 未知 app-server 错误"
    );
}

#[test]
fn the_end_of_a_login_is_handed_out_once() {
    let message = |id: &str, success: &str| {
        parse_json(&format!(
            r#"{{"method":"account/login/completed","params":{{"loginId":"{id}","success":{success},"error":"e"}}}}"#
        ))
        .unwrap()
    };
    let mut session = ServerSession::new();
    session.note(&message("a", "false"));
    assert!(matches!(session.receive(1, &message("a", "true")), Reply::Unrelated));
    session.note(&message("b", "null"));
    session.note(&parse_json(r#"{"method":"other","params":{"loginId":"c"}}"#).unwrap());
    session.note(&parse_json(r#"{"method":"account/login/completed"}"#).unwrap());
    let completion = session.take_login_completion("a").unwrap();
    assert!(completion.success);
    assert_eq!(completion.error, Some("e".to_string()));
    assert!(session.take_login_completion("a").is_none());
    assert!(!session.take_login_completion("b").unwrap().success);
    assert!(session.take_login_completion("c").is_none());
    assert!(matches!(
        session.receive(1, &parse_json(r#"{"id":1}"#).unwrap()),
        Reply::Answered(_)
    ));
}
