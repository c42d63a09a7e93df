//! What a hook is run for, and what it answers with.
use crate::json;
use crate::json::{Json, JsonModel};
use crate::json_order;
use crate::server_message;
use crate::text;
use vstd::prelude::*;

verus! {

/// What a hook is run for.
#[derive(Clone, Copy, Debug, PartialEq, Eq, Structural)]
pub enum HookEvent {
    /// A tool is about to be used.
    ToolUse,
    /// The user has sent a prompt.
    Prompt,
    /// Anything else, which is left as it is.
    Other,
}

pub open spec fn event_of(input: JsonModel) -> HookEvent {
    let name = input.text_at("hook_event_name"@);
    if name == Some("PreToolUse"@) {
        HookEvent::ToolUse
    } else if name == Some("UserPromptSubmit"@) {
        HookEvent::Prompt
    } else {
        HookEvent::Other
    }
}

/// Reads from the input of a hook what it is run for.
pub fn hook_event(input: &Json) -> (r: HookEvent)
    ensures
        r == event_of(input@),
{
    match input.text_at("hook_event_name") {
        Some(name) => if text::same_text(name, "PreToolUse") {
            HookEvent::ToolUse
        } else if text::same_text(name, "UserPromptSubmit") {
            HookEvent::Prompt
        } else {
            HookEvent::Other
        },
        None => HookEvent::Other,
    }
}

/// The answer that leaves everything as it is.
pub open spec fn no_reply() -> JsonModel {
    JsonModel::Object(Seq::empty())
}

/// The answer that leaves everything as it is.
pub fn make_no_reply() -> (r: Json)
    ensures
        r@ == no_reply(),
{
    broadcast use json::lemma_view;

    let none: Vec<(String, Json)> = Vec::new();
    assert(json::entry_models(none@) =~= Seq::empty());
    Json::Object(none)
}

/// The line that a hook answers with: a document and a line feed.
pub fn reply_line(reply: &Json) -> (r: Vec<u8>)
    ensures
        r@ == json::json_compact(json_order::tidied(reply@)).push(10),
{
    let mut bytes = json::compact_json(reply);
    bytes.push(10);
    bytes
}

/// How the run of a hook ended.
#[derive(Debug)]
pub enum HookRun {
    /// With an answer.
    Answered(Json),
    /// With an error.
    Failed(String),
    /// The input was no JSON document.
    Unreadable(String),
}

/// What is logged.
#[derive(Debug)]
pub struct LogEntry {
    pub name: String,
    pub details: Json,
}

/// What is logged of a hook that failed: the name of its event, where it has one, and the error.
pub open spec fn failure_details(input: JsonModel, error: Seq<char>) -> JsonModel {
    JsonModel::Object(
        seq![
            (
                "event"@,
                match input.text_at("hook_event_name"@) {
                    Some(name) => JsonModel::Text(name),
                    None => JsonModel::Null,
                },
            ),
            ("error"@, JsonModel::Text(server_message::bounded_error_text(error))),
        ],
    )
}

/// What is logged of an error alone.
pub open spec fn error_details(error: Seq<char>) -> JsonModel {
    JsonModel::Object(seq![("error"@, JsonModel::Text(server_message::bounded_error_text(error)))])
}

/// What is logged of an error alone, under a name.
pub fn log_error(name: &str, error: &str) -> (r: LogEntry)
    ensures
        r.name@ == name@,
        r.details@ == error_details(error@),
{
    broadcast use json::lemma_view;

    let mut fields: Vec<(String, Json)> = Vec::new();
    fields.push(("error".to_owned(), Json::Text(server_message::bounded_error(error))));
    assert(json::entry_models(fields@) =~= error_details(error@)->Object_0);
    LogEntry { name: name.to_owned(), details: Json::Object(fields) }
}

/// What a hook answers with once its run has ended, and what is logged: a hook that failed leaves
/// everything as it is.
pub fn end_hook(input: &Json, run: HookRun) -> (r: (Json, Option<LogEntry>))
    ensures
        match run {
            HookRun::Answered(reply) => r.0@ == reply@ && r.1 is None,
            HookRun::Failed(error) => r.0@ == no_reply() && r.1 is Some && (r.1->0).name@
                == "codex_hooks.failed"@ && (r.1->0).details@ == failure_details(input@, error@),
            HookRun::Unreadable(error) => r.0@ == no_reply() && r.1 is Some && (r.1->0).name@
                == "codex_hooks.invalid_input"@ && (r.1->0).details@ == error_details(error@),
        },
{
    broadcast use json::lemma_view;

    match run {
        HookRun::Answered(reply) => (reply, None),
        HookRun::Failed(error) => {
            let event = match input.text_at("hook_event_name") {
                Some(name) => Json::Text(name.to_owned()),
                None => Json::Null,
            };
            let mut fields: Vec<(String, Json)> = Vec::new();
            fields.push(("event".to_owned(), event));
            fields.push(
                ("error".to_owned(), Json::Text(server_message::bounded_error(error.as_str()))),
            );
            assert(json::entry_models(fields@) =~= failure_details(input@, error@)->Object_0);
            let entry = LogEntry {
                name: "codex_hooks.failed".to_owned(),
                details: Json::Object(fields),
            };
            (make_no_reply(), Some(entry))
        },
        HookRun::Unreadable(error) => (
            make_no_reply(),
            Some(log_error("codex_hooks.invalid_input", error.as_str())),
        ),
    }
}

/// A hook is told by the name of its event: `PreToolUse` is the use of a tool, `UserPromptSubmit`
/// a prompt, and any other name, or none, neither. The answer that leaves everything as it is
/// says nothing at any key.
pub proof fn law_events_are_told_by_name(input: JsonModel, key: Seq<char>)
    ensures
        event_of(input) == HookEvent::ToolUse <==> input.get("hook_event_name"@) == Some(
            JsonModel::Text("PreToolUse"@),
        ),
        event_of(input) == HookEvent::Prompt <==> input.get("hook_event_name"@) == Some(
            JsonModel::Text("UserPromptSubmit"@),
        ),
        no_reply() is Object,
        no_reply().get(key) is None,
{
    reveal_strlit("PreToolUse");
    reveal_strlit("UserPromptSubmit");
    assert("PreToolUse"@.len() == 10 && "UserPromptSubmit"@.len() == 16);
    json::lemma_entry_missing(no_reply()->Object_0, key);
}

/// What is logged of a hook that failed names its event, where it has a name, and the error, of
/// which at most 240 characters are kept and no control character.
pub proof fn law_failures_are_logged(input: JsonModel, error: Seq<char>)
    ensures
        failure_details(input, error).get("event"@) == Some(
            if input.text_at("hook_event_name"@) is Some {
                JsonModel::Text(input.text_at("hook_event_name"@)->0)
            } else {
                JsonModel::Null
            },
        ),
        failure_details(input, error).text_at("error"@) == error_details(error).text_at("error"@),
        error_details(error).text_at("error"@) == Some(server_message::bounded_error_text(error)),
{
    reveal_strlit("event");
    reveal_strlit("error");
    assert("event"@[1] == 'v' && "error"@[1] == 'r');
    json::lemma_entry_found(failure_details(input, error)->Object_0, 0);
    json::lemma_entry_found(failure_details(input, error)->Object_0, 1);
    json::lemma_entry_found(error_details(error)->Object_0, 0);
}

/// A hook that ran to its end answers what it was to answer, and nothing is logged. One that
/// failed answers nothing at any key, and what is logged tells whether it failed or could not
/// read its input.
pub proof fn law_failed_hooks_change_nothing(
    input: Json,
    run: HookRun,
    r: (Json, Option<LogEntry>),
    key: Seq<char>,
)
    requires
        call_ensures(end_hook, (&input, run), r),
    ensures
        run is Answered ==> r.0@ == (run->Answered_0)@ && r.1 is None,
        !(run is Answered) ==> r.0@ is Object && r.0@.get(key) is None && r.1 is Some,
        run is Failed ==> (r.1->0).name@ == "codex_hooks.failed"@ && (r.1->0).details@.text_at(
            "error"@,
        ) == Some(server_message::bounded_error_text((run->Failed_0)@)) && (r.1->0).details@.text_at(
            "event"@,
        ) == input@.text_at("hook_event_name"@),
        run is Unreadable ==> (r.1->0).name@ == "codex_hooks.invalid_input"@ && (
        r.1->0).details@.text_at("error"@) == Some(
            server_message::bounded_error_text((run->Unreadable_0)@),
        ),
{
    law_events_are_told_by_name(input@, key);
    reveal_strlit("event");
    reveal_strlit("error");
    assert("event"@[1] == 'v' && "error"@[1] == 'r');
    match run {
        HookRun::Failed(error) => {
            let fields = failure_details(input@, error@)->Object_0;
            json::lemma_entry_found(fields, 0);
            json::lemma_entry_found(fields, 1);
        },
        HookRun::Unreadable(error) => {
            json::lemma_entry_found(error_details(error@)->Object_0, 0);
        },
        _ => {},
    }
}

/// An answer is written on one line: the document, tidied, and a line feed.
pub proof fn law_answer_is_one_line(reply: Json, r: Vec<u8>)
    requires
        call_ensures(reply_line, (&reply,), r),
    ensures
        r@.len() > 0,
        r@.last() == 10,
        r@.drop_last() == json::json_compact(json_order::tidied(reply@)),
{
    let bytes = json::json_compact(json_order::tidied(reply@));
    assert(bytes.push(10).drop_last() =~= bytes);
}

} // verus!
