//! The hook file of Codex: which hooks belong to Codex++, and how its own are put in and taken out.
use crate::json;
use crate::json::{Entries, Json, JsonModel, JsonNumber};
use crate::json_order;
use crate::platform::Platform;
use crate::text::{self, CharClass};
use vstd::prelude::*;

verus! {

/// The argument by which a hook command of Codex++ is known.
pub const OWNED_HOOK_MARKER: &'static str = "--codex-plus-hook";

/// What was done to the hook file.
#[derive(Debug, Clone, PartialEq, Eq)]
pub struct HookInstallResult {
    pub path: String,
    pub installed: usize,
    pub removed: usize,
}

/// How many hooks were marked as trusted.
#[derive(Debug, Clone, PartialEq, Eq)]
pub struct HookTrustResult {
    pub trusted: usize,
}

// ---------------------------------------------------------------------------------------
// Commands
// ---------------------------------------------------------------------------------------

/// Whether a word, apart from quotation marks around it, is the marker.
pub open spec fn is_marker(word: Seq<char>) -> bool {
    text::trimmed_of(word, CharClass::Quote) == OWNED_HOOK_MARKER@
}

/// Whether a hook command belongs to Codex++: the marker is one of its words.
pub open spec fn is_owned_command(command: Seq<char>) -> bool {
    exists|i: int| 0 <= i < text::words(command).len() && is_marker(#[trigger] text::words(command)[i])
}

pub fn is_owned_hook_command(command: &str) -> (r: bool)
    ensures
        r == is_owned_command(command@),
{
    let words = text::split_words(text::chars_of(command).as_slice());
    let marker = text::chars_of(OWNED_HOOK_MARKER);
    let ghost model = text::words(command@);
    for i in 0..words.len()
        invariant
            model == text::words(command@),
            model == text::texts(words@),
            marker@ == OWNED_HOOK_MARKER@,
            forall|j: int| 0 <= j < i ==> !is_marker(#[trigger] model[j]),
    {
        let bare = text::trim_of(words[i].as_slice(), CharClass::Quote);
        assert(model[i as int] == words@[i as int]@);
        if text::same_chars(bare.as_slice(), marker.as_slice()) {
            assert(is_marker(model[i as int]));
            return true;
        }
    }
    false
}

/// A text in the single quotation marks of a shell.
pub open spec fn shell_quoted(value: Seq<char>) -> Seq<char> {
    seq!['\''] + text::replaced(value, '\'', seq!['\'', '"', '\'', '"', '\'']) + seq!['\'']
}

pub fn shell_quote(value: &str) -> (r: String)
    ensures
        r@ == shell_quoted(value@),
{
    let mut quote: Vec<char> = Vec::new();
    quote.push('\'');
    quote.push('"');
    quote.push('\'');
    quote.push('"');
    quote.push('\'');
    assert(quote@ =~= seq!['\'', '"', '\'', '"', '\'']);
    let inner = text::replace(text::chars_of(value).as_slice(), '\'', quote.as_slice());
    let mut r: Vec<char> = Vec::new();
    r.push('\'');
    text::append(&mut r, inner.as_slice());
    r.push('\'');
    assert(r@ =~= shell_quoted(value@));
    text::text_of(r.as_slice())
}

/// Where a shell stands while it reads a word.
pub enum ShellState {
    Bare,
    Single,
    Double,
}

/// The word that a shell reads from a text in quotation marks. There is none where a quotation is not
/// closed, or where a character stands that a shell may take for something else than itself.
pub open spec fn shell_word(s: Seq<char>, state: ShellState) -> Option<Seq<char>>
    decreases s.len(),
{
    if s.len() == 0 {
        if state is Bare {
            Some(Seq::empty())
        } else {
            None
        }
    } else {
        let c = s[0];
        let rest = s.skip(1);
        match state {
            ShellState::Bare => if c == '\'' {
                shell_word(rest, ShellState::Single)
            } else if c == '"' {
                shell_word(rest, ShellState::Double)
            } else {
                None
            },
            ShellState::Single => if c == '\'' {
                shell_word(rest, ShellState::Bare)
            } else {
                led_by(c, shell_word(rest, ShellState::Single))
            },
            ShellState::Double => if c == '"' {
                shell_word(rest, ShellState::Bare)
            } else if c == '$' || c == '`' || c == '\\' || c == '!' {
                None
            } else {
                led_by(c, shell_word(rest, ShellState::Double))
            },
        }
    }
}

/// A word with one more character before it.
pub open spec fn led_by(c: char, word: Option<Seq<char>>) -> Option<Seq<char>> {
    match word {
        Some(w) => Some(seq![c] + w),
        None => None,
    }
}

proof fn lemma_shell_reads(value: Seq<char>)
    ensures
        shell_word(
            text::replaced(value, '\'', seq!['\'', '"', '\'', '"', '\'']) + seq!['\''],
            ShellState::Single,
        ) == Some(value),
    decreases value.len(),
{
    let quote = seq!['\'', '"', '\'', '"', '\''];
    let written = text::replaced(value, '\'', quote) + seq!['\''];
    if value.len() == 0 {
        assert(written =~= seq!['\'']);
        assert(written.skip(1) =~= Seq::<char>::empty());
        assert(shell_word(written.skip(1), ShellState::Bare) == Some(Seq::<char>::empty()));
        assert(value =~= Seq::<char>::empty());
    } else {
        let rest = value.skip(1);
        let tail = text::replaced(rest, '\'', quote) + seq!['\''];
        text::lemma_replaced_front(value, '\'', quote);
        lemma_shell_reads(rest);
        assert(value =~= seq![value[0]] + rest);
        if value[0] == '\'' {
            assert(written =~= quote + tail);
            assert(written.skip(1).skip(1).skip(1).skip(1).skip(1) =~= tail);
            reveal_with_fuel(shell_word, 6);
        } else {
            assert(written =~= seq![value[0]] + tail);
            assert(written.skip(1) =~= tail);
        }
    }
}

/// A shell reads the quoted text back as it was, whatever stands in it.
pub proof fn law_shell_quote_reads_back(value: Seq<char>)
    ensures
        shell_word(shell_quoted(value), ShellState::Bare) == Some(value),
{
    let written = text::replaced(value, '\'', seq!['\'', '"', '\'', '"', '\'']) + seq!['\''];
    lemma_shell_reads(value);
    assert(shell_quoted(value).skip(1) =~= written);
}

/// The command that starts the launcher as a hook.
pub open spec fn hook_command_of(launcher: Seq<char>, platform: Platform) -> Seq<char> {
    let program = if platform == Platform::Windows {
        seq!['"'] + text::replaced(launcher, '"', Seq::empty()) + seq!['"']
    } else {
        shell_quoted(launcher)
    };
    program + seq![' '] + OWNED_HOOK_MARKER@
}

pub fn hook_command(launcher_path: &str, platform: Platform) -> (r: String)
    ensures
        r@ == hook_command_of(launcher_path@, platform),
{
    let mut r: Vec<char> = match platform {
        Platform::Windows => {
            let none: Vec<char> = Vec::new();
            assert(none@ =~= Seq::<char>::empty());
            let bare = text::replace(
                text::chars_of(launcher_path).as_slice(),
                '"',
                none.as_slice(),
            );
            let mut program: Vec<char> = Vec::new();
            program.push('"');
            text::append(&mut program, bare.as_slice());
            program.push('"');
            assert(program@ =~= seq!['"'] + bare@ + seq!['"']);
            program
        },
        _ => text::chars_of(shell_quote(launcher_path).as_str()),
    };
    r.push(' ');
    text::append(&mut r, text::chars_of(OWNED_HOOK_MARKER).as_slice());
    assert(r@ =~= hook_command_of(launcher_path@, platform));
    text::text_of(r.as_slice())
}

/// The command by which the launcher is installed is known as one of Codex++.
pub proof fn law_hook_command_is_owned(launcher: Seq<char>, platform: Platform)
    ensures
        is_owned_command(hook_command_of(launcher, platform)),
{
    let command = hook_command_of(launcher, platform);
    let marker = OWNED_HOOK_MARKER@;
    reveal_strlit("--codex-plus-hook");
    assert(marker.len() == 17);
    let front = command.take(command.len() - 18);
    assert(command =~= front.push(' ') + marker);
    assert forall|i: int| 0 <= i < marker.len() implies !text::is_space(#[trigger] marker[i]) by {
        assert(marker[i] == '-' || ('a' <= marker[i] <= 'z'));
    }
    text::lemma_last_word(front, ' ', marker);
    let words = text::words(command);
    assert(text::trimmed_start(marker, CharClass::Quote) == marker);
    assert(text::trimmed_end(marker, CharClass::Quote) == marker);
    assert(is_marker(text::words(command)[words.len() - 1]));
}

// ---------------------------------------------------------------------------------------
// The hook document
// ---------------------------------------------------------------------------------------

/// Why a hook file cannot be changed.
#[derive(Debug, Clone, Copy, PartialEq, Eq)]
pub enum HookFileError {
    /// The file is no JSON document.
    InvalidJson,
    /// The document is no object.
    RootNotObject,
    /// The field `hooks` is no object.
    HooksNotObject,
    /// What is configured for an event of Codex++ is no array.
    PromptHooksNotArray,
    ToolHooksNotArray,
}

/// Whether a handler runs a command of Codex++.
pub open spec fn is_owned_handler(handler: JsonModel) -> bool {
    match handler.text_at("command"@) {
        Some(command) => is_owned_command(command),
        None => false,
    }
}

/// The handlers that do not belong to Codex++.
pub open spec fn user_handlers(handlers: Seq<JsonModel>) -> Seq<JsonModel> {
    handlers.filter(|h: JsonModel| !is_owned_handler(h))
}

/// A group without the handlers of Codex++; none where no handler is left. A group that has no
/// list of handlers stays as it is.
pub open spec fn cleaned_group(group: JsonModel) -> Option<JsonModel> {
    match group.get("hooks"@) {
        Some(JsonModel::Array(handlers)) => if user_handlers(handlers).len() == 0 {
            None
        } else {
            Some(
                JsonModel::Object(
                    json::with_entry(
                        group->Object_0,
                        "hooks"@,
                        JsonModel::Array(user_handlers(handlers)),
                    ),
                ),
            )
        },
        _ => Some(group),
    }
}

/// How many handlers of Codex++ a group has.
pub open spec fn owned_in_group(group: JsonModel) -> nat {
    match group.get("hooks"@) {
        Some(JsonModel::Array(handlers)) => (handlers.len() - user_handlers(handlers).len()) as nat,
        _ => 0,
    }
}

pub open spec fn cleaned_groups(groups: Seq<JsonModel>) -> Seq<JsonModel>
    decreases groups.len(),
{
    if groups.len() == 0 {
        groups
    } else {
        let before = cleaned_groups(groups.drop_last());
        match cleaned_group(groups.last()) {
            Some(group) => before.push(group),
            None => before,
        }
    }
}

pub open spec fn owned_in_groups(groups: Seq<JsonModel>) -> nat
    decreases groups.len(),
{
    if groups.len() == 0 {
        0
    } else {
        owned_in_groups(groups.drop_last()) + owned_in_group(groups.last())
    }
}

/// What is configured for an event, without the handlers of Codex++; none where no group is left.
/// What is no list of groups stays as it is.
pub open spec fn cleaned_event(value: JsonModel) -> Option<JsonModel> {
    match value {
        JsonModel::Array(groups) => if cleaned_groups(groups).len() == 0 {
            None
        } else {
            Some(JsonModel::Array(cleaned_groups(groups)))
        },
        _ => Some(value),
    }
}

pub open spec fn owned_in_event(value: JsonModel) -> nat {
    match value {
        JsonModel::Array(groups) => owned_in_groups(groups),
        _ => 0,
    }
}

/// The configuration of all events without the handlers of Codex++.
pub open spec fn cleaned_hooks(hooks: Entries) -> Entries
    decreases hooks.len(),
{
    if hooks.len() == 0 {
        hooks
    } else {
        let before = cleaned_hooks(hooks.drop_last());
        match cleaned_event(hooks.last().1) {
            Some(value) => before.push((hooks.last().0, value)),
            None => before,
        }
    }
}

/// How many handlers of Codex++ there are.
pub open spec fn owned_in_hooks(hooks: Entries) -> nat
    decreases hooks.len(),
{
    if hooks.len() == 0 {
        0
    } else {
        owned_in_hooks(hooks.drop_last()) + owned_in_event(hooks.last().1)
    }
}

/// The group that holds one handler.
pub open spec fn group_of(matcher: Seq<char>, handler: JsonModel) -> JsonModel {
    JsonModel::Object(
        seq![
            ("matcher"@, JsonModel::Text(matcher)),
            ("hooks"@, JsonModel::Array(seq![handler])),
        ],
    )
}

/// The configuration with one more group for an event; none where what is configured for the event
/// is no array.
pub open spec fn with_hook(
    hooks: Entries,
    event: Seq<char>,
    matcher: Seq<char>,
    handler: JsonModel,
) -> Option<Entries> {
    match json::lookup(hooks, event) {
        None => Some(hooks.push((event, JsonModel::Array(seq![group_of(matcher, handler)])))),
        Some(JsonModel::Array(groups)) => Some(
            json::with_entry(
                hooks,
                event,
                JsonModel::Array(groups.push(group_of(matcher, handler))),
            ),
        ),
        Some(_) => None,
    }
}

/// A handler of Codex++.
pub open spec fn own_handler(command: Seq<char>, timeout: u64, status: Seq<char>) -> JsonModel {
    JsonModel::Object(
        seq![
            ("type"@, JsonModel::Text("command"@)),
            ("command"@, JsonModel::Text(command)),
            ("timeout"@, JsonModel::Number(JsonNumber::Unsigned(timeout))),
            ("statusMessage"@, JsonModel::Text(status)),
        ],
    )
}

/// The configuration with the hooks of Codex++ put in: one for prompts and, on Windows, one for
/// the shell tool.
pub open spec fn installed_hooks(hooks: Entries, launcher: Seq<char>, platform: Platform) -> Result<
    Entries,
    HookFileError,
> {
    let command = hook_command_of(launcher, platform);
    match with_hook(
        hooks,
        "UserPromptSubmit"@,
        ""@,
        own_handler(command, 40, "Codex++ memory retrieval"@),
    ) {
        None => Err(HookFileError::PromptHooksNotArray),
        Some(first) => if platform == Platform::Windows {
            match with_hook(
                first,
                "PreToolUse"@,
                "Bash"@,
                own_handler(command, 10, "Codex++ AI shell selection"@),
            ) {
                None => Err(HookFileError::ToolHooksNotArray),
                Some(second) => Ok(second),
            }
        } else {
            Ok(first)
        },
    }
}

/// How many hooks Codex++ installs.
pub open spec fn hooks_to_install(enabled: bool, platform: Platform) -> nat {
    if !enabled {
        0
    } else if platform == Platform::Windows {
        2
    } else {
        1
    }
}

/// The hooks of a document: what it holds at `hooks`, or none where it holds nothing there.
pub open spec fn hooks_of(root: JsonModel) -> Result<Entries, HookFileError> {
    match root {
        JsonModel::Object(entries) => match json::lookup(entries, "hooks"@) {
            None => Ok(Seq::empty()),
            Some(JsonModel::Object(hooks)) => Ok(hooks),
            Some(_) => Err(HookFileError::HooksNotObject),
        },
        _ => Err(HookFileError::RootNotObject),
    }
}

/// The document with the hooks of Codex++ taken out, and put in anew where they are enabled.
pub open spec fn merged_document(
    root: JsonModel,
    enabled: bool,
    launcher: Seq<char>,
    platform: Platform,
) -> Result<JsonModel, HookFileError> {
    match hooks_of(root) {
        Err(e) => Err(e),
        Ok(hooks) => {
            let merged = if enabled {
                installed_hooks(cleaned_hooks(hooks), launcher, platform)
            } else {
                Ok(cleaned_hooks(hooks))
            };
            match merged {
                Err(e) => Err(e),
                Ok(new_hooks) => Ok(
                    JsonModel::Object(
                        json::with_entry(root->Object_0, "hooks"@, JsonModel::Object(new_hooks)),
                    ),
                ),
            }
        },
    }
}

/// A number, or the largest that a `usize` holds where it is larger.
pub open spec fn capped(n: nat) -> usize {
    if n <= usize::MAX {
        n as usize
    } else {
        usize::MAX
    }
}

fn owned_handler(handler: &Json) -> (r: bool)
    ensures
        r == is_owned_handler(handler@),
{
    match handler.text_at("command") {
        Some(command) => is_owned_hook_command(command),
        None => false,
    }
}

fn keep_handlers(handlers: &Vec<Json>) -> (r: Vec<Json>)
    ensures
        json::models(r@) == user_handlers(json::models(handlers@)),
        r@.len() <= handlers@.len(),
{
    let ghost model = json::models(handlers@);
    let ghost keep = |h: JsonModel| !is_owned_handler(h);
    let mut r: Vec<Json> = Vec::new();
    for i in 0..handlers.len()
        invariant
            model == json::models(handlers@),
            keep == (|h: JsonModel| !is_owned_handler(h)),
            json::models(r@) == model.take(i as int).filter(keep),
            r@.len() <= i,
    {
        proof {
            assert(model.take(i + 1).drop_last() =~= model.take(i as int));
            assert(model[i as int] == handlers@[i as int]@);
            reveal(Seq::filter);
        }
        if !owned_handler(&handlers[i]) {
            let ghost before = r@;
            let handler = handlers[i].clone();
            r.push(handler);
            assert(json::models(r@) =~= json::models(before).push(handler@));
        }
    }
    assert(model.take(handlers@.len() as int) =~= model);
    r
}

fn clean_group(group: &Json) -> (r: (Option<Json>, usize))
    ensures
        match r.0 {
            Some(g) => cleaned_group(group@) == Some(g@),
            None => cleaned_group(group@) is None,
        },
        r.1 as nat == owned_in_group(group@),
{
    broadcast use json::lemma_view;

    match group {
        Json::Object(entries) => {
            let i: usize = json::find_key(entries, "hooks");
            if i < entries.len() {
                match &entries[i].1 {
                    Json::Array(handlers) => {
                        let kept = keep_handlers(handlers);
                        let removed: usize = handlers.len() - kept.len();
                        assert(group@.get("hooks"@) == Some(
                            JsonModel::Array(json::models(handlers@)),
                        ));
                        assert(json::models(kept@).len() == kept@.len());
                        if kept.len() == 0 {
                            return (None, removed);
                        }
                        let copy = group.clone();
                        match copy {
                            Json::Object(mut new_entries) => {
                                let value = Json::Array(kept);
                                assert(json::entry_models(new_entries@) == json::entry_models(
                                    entries@,
                                ));
                                json::set_entry(&mut new_entries, "hooks", value);
                                (Some(Json::Object(new_entries)), removed)
                            },
                            _ => {
                                assert(false);
                                (None, removed)
                            },
                        }
                    },
                    _ => {
                        assert(group@.get("hooks"@) == Some(entries@[i as int].1@));
                        (Some(group.clone()), 0)
                    },
                }
            } else {
                assert(group@.get("hooks"@) is None);
                (Some(group.clone()), 0)
            }
        },
        _ => (Some(group.clone()), 0),
    }
}

fn clean_groups(groups: &Vec<Json>) -> (r: (Vec<Json>, usize))
    ensures
        json::models(r.0@) == cleaned_groups(json::models(groups@)),
        r.1 == capped(owned_in_groups(json::models(groups@))),
{
    let ghost model = json::models(groups@);
    let mut kept: Vec<Json> = Vec::new();
    let mut removed: usize = 0;
    assert(json::models(kept@) =~= cleaned_groups(model.take(0)));
    for i in 0..groups.len()
        invariant
            model == json::models(groups@),
            json::models(kept@) == cleaned_groups(model.take(i as int)),
            removed == capped(owned_in_groups(model.take(i as int))),
    {
        assert(model.take(i + 1).drop_last() =~= model.take(i as int));
        assert(model[i as int] == groups@[i as int]@);
        let (group, count) = clean_group(&groups[i]);
        removed = removed.saturating_add(count);
        match group {
            Some(g) => {
                let ghost before = kept@;
                kept.push(g);
                assert(json::models(kept@) =~= json::models(before).push(g@));
            },
            None => {},
        }
    }
    assert(model.take(groups@.len() as int) =~= model);
    (kept, removed)
}

/// Takes the handlers of Codex++ out of the configuration of all events, and counts them.
pub fn remove_owned_hooks(hooks: &Vec<(String, Json)>) -> (r: (Vec<(String, Json)>, usize))
    ensures
        json::entry_models(r.0@) == cleaned_hooks(json::entry_models(hooks@)),
        r.1 == capped(owned_in_hooks(json::entry_models(hooks@))),
{
    let ghost model = json::entry_models(hooks@);
    let mut kept: Vec<(String, Json)> = Vec::new();
    let mut removed: usize = 0;
    assert(json::entry_models(kept@) =~= cleaned_hooks(model.take(0)));
    for i in 0..hooks.len()
        invariant
            model == json::entry_models(hooks@),
            json::entry_models(kept@) == cleaned_hooks(model.take(i as int)),
            removed == capped(owned_in_hooks(model.take(i as int))),
    {
        assert(model.take(i + 1).drop_last() =~= model.take(i as int));
        let ghost value = hooks@[i as int].1@;
        assert(model[i as int] == (hooks@[i as int].0@, value));
        proof {
            json::lemma_view(hooks@[i as int].1);
        }
        let cleaned: Option<Json> = match &hooks[i].1 {
            Json::Array(groups) => {
                let (left, count) = clean_groups(groups);
                removed = removed.saturating_add(count);
                assert(json::models(left@).len() == left@.len());
                if left.len() == 0 {
                    None
                } else {
                    let value = Json::Array(left);
                    proof {
                        json::lemma_view(value);
                    }
                    Some(value)
                }
            },
            _ => Some(hooks[i].1.clone()),
        };
        match cleaned {
            Some(v) => {
                assert(cleaned_event(value) == Some(v@));
                let ghost before = kept@;
                let key = hooks[i].0.clone();
                kept.push((key, v));
                assert(json::entry_models(kept@) =~= json::entry_models(before).push((key@, v@)));
            },
            None => {},
        }
    }
    assert(model.take(hooks@.len() as int) =~= model);
    (kept, removed)
}

/// Adds a group with one handler for an event; `false` where what is configured for the event is
/// no array.
pub fn append_hook(
    hooks: &mut Vec<(String, Json)>,
    event_name: &str,
    matcher: &str,
    handler: Json,
) -> (r: bool)
    ensures
        match with_hook(json::entry_models(old(hooks)@), event_name@, matcher@, handler@) {
            Some(new_hooks) => r && json::entry_models(final(hooks)@) == new_hooks,
            None => !r && final(hooks)@ == old(hooks)@,
        },
{
    broadcast use json::lemma_view;

    let ghost model = json::entry_models(hooks@);
    let ghost old_handler = handler@;
    let mut handlers: Vec<Json> = Vec::new();
    handlers.push(handler);
    assert(json::models(handlers@) =~= seq![old_handler]);
    let mut fields: Vec<(String, Json)> = Vec::new();
    fields.push(("matcher".to_owned(), Json::Text(matcher.to_owned())));
    fields.push(("hooks".to_owned(), Json::Array(handlers)));
    assert(json::entry_models(fields@) =~= group_of(matcher@, old_handler)->Object_0);
    let group = Json::Object(fields);
    assert(group@ == group_of(matcher@, old_handler));
    let i: usize = json::find_key(hooks, event_name);
    if i < hooks.len() {
        match &hooks[i].1 {
            Json::Array(groups) => {
                let mut new_groups: Vec<Json> = Vec::new();
                for j in 0..groups.len()
                    invariant
                        json::models(new_groups@) == json::models(groups@).take(j as int),
                {
                    let ghost before = new_groups@;
                    let g = groups[j].clone();
                    new_groups.push(g);
                    assert(json::models(new_groups@) =~= json::models(before).push(g@));
                }
                assert(json::models(groups@).take(groups@.len() as int) =~= json::models(groups@));
                let ghost before = new_groups@;
                assert(json::lookup(model, event_name@) == Some(
                    JsonModel::Array(json::models(before)),
                ));
                new_groups.push(group);
                assert(json::models(new_groups@) =~= json::models(before).push(group@));
                json::set_entry(hooks, event_name, Json::Array(new_groups));
                true
            },
            _ => {
                assert(json::lookup(model, event_name@) == Some(hooks@[i as int].1@));
                false
            },
        }
    } else {
        assert(json::lookup(model, event_name@) is None);
        let mut groups: Vec<Json> = Vec::new();
        groups.push(group);
        assert(json::models(groups@) =~= seq![group@]);
        let ghost before = hooks@;
        let value = Json::Array(groups);
        let key = event_name.to_owned();
        hooks.push((key, value));
        assert(json::entry_models(hooks@) =~= json::entry_models(before).push((key@, value@)));
        true
    }
}

fn make_handler(command: String, timeout: u64, status: &str) -> (r: Json)
    ensures
        r@ == own_handler(command@, timeout, status@),
{
    broadcast use json::lemma_view;

    let mut fields: Vec<(String, Json)> = Vec::new();
    fields.push(("type".to_owned(), Json::Text("command".to_owned())));
    fields.push(("command".to_owned(), Json::Text(command)));
    fields.push(("timeout".to_owned(), Json::Number(JsonNumber::Unsigned(timeout))));
    fields.push(("statusMessage".to_owned(), Json::Text(status.to_owned())));
    assert(json::entry_models(fields@) =~= own_handler(command@, timeout, status@)->Object_0);
    Json::Object(fields)
}

fn install_hooks(hooks: &mut Vec<(String, Json)>, launcher: &str, platform: Platform) -> (r:
    Result<usize, HookFileError>)
    ensures
        match installed_hooks(json::entry_models(old(hooks)@), launcher@, platform) {
            Ok(new_hooks) => r == Ok::<usize, HookFileError>(
                hooks_to_install(true, platform) as usize,
            ) && json::entry_models(final(hooks)@) == new_hooks,
            Err(e) => r == Err::<usize, HookFileError>(e),
        },
{
    let prompt_handler = make_handler(
        hook_command(launcher, platform),
        40,
        "Codex++ memory retrieval",
    );
    if !append_hook(hooks, "UserPromptSubmit", "", prompt_handler) {
        return Err(HookFileError::PromptHooksNotArray);
    }
    if platform == Platform::Windows {
        let tool_handler = make_handler(
            hook_command(launcher, platform),
            10,
            "Codex++ AI shell selection",
        );
        if !append_hook(hooks, "PreToolUse", "Bash", tool_handler) {
            return Err(HookFileError::ToolHooksNotArray);
        }
        return Ok(2);
    }
    Ok(1)
}

/// The hooks of a document.
pub fn hooks_object(root: &Json) -> (r: Result<Vec<(String, Json)>, HookFileError>)
    ensures
        match r {
            Ok(hooks) => hooks_of(root@) == Ok::<Entries, HookFileError>(
                json::entry_models(hooks@),
            ),
            Err(e) => hooks_of(root@) == Err::<Entries, HookFileError>(e),
        },
{
    broadcast use json::lemma_view;

    match root {
        Json::Object(entries) => {
            assert(root@.get("hooks"@) == json::lookup(json::entry_models(entries@), "hooks"@));
            match root.get("hooks") {
                None => {
                    let none: Vec<(String, Json)> = Vec::new();
                    assert(json::entry_models(none@) =~= Seq::empty());
                    Ok(none)
                },
                Some(value) => match value.clone() {
                    Json::Object(hooks) => Ok(hooks),
                    _ => Err(HookFileError::HooksNotObject),
                },
            }
        },
        _ => Err(HookFileError::RootNotObject),
    }
}

/// A document with the hooks of Codex++ brought up to date, and what was done for it.
#[derive(Debug)]
pub struct HookMerge {
    pub root: Json,
    pub installed: usize,
    pub removed: usize,
}

/// Takes the hooks of Codex++ out of a document, and puts them in anew where they are enabled.
pub fn merge_hooks(root: &Json, enabled: bool, launcher: &str, platform: Platform) -> (r: Result<
    HookMerge,
    HookFileError,
>)
    ensures
        match r {
            Ok(merge) => {
                &&& merged_document(root@, enabled, launcher@, platform) == Ok::<
                    JsonModel,
                    HookFileError,
                >(merge.root@)
                &&& merge.installed as nat == hooks_to_install(enabled, platform)
                &&& merge.removed == capped(owned_in_hooks(hooks_of(root@)->Ok_0))
            },
            Err(e) => merged_document(root@, enabled, launcher@, platform) == Err::<
                JsonModel,
                HookFileError,
            >(e),
        },
{
    broadcast use json::lemma_view;

    let found = match hooks_object(root) {
        Ok(hooks) => hooks,
        Err(e) => {
            return Err(e);
        },
    };
    let (mut hooks, removed) = remove_owned_hooks(&found);
    let mut installed: usize = 0;
    if enabled {
        match install_hooks(&mut hooks, launcher, platform) {
            Ok(n) => {
                installed = n;
            },
            Err(e) => {
                return Err(e);
            },
        }
    }
    match root.clone() {
        Json::Object(mut entries) => {
            json::set_entry(&mut entries, "hooks", Json::Object(hooks));
            Ok(HookMerge { root: Json::Object(entries), installed, removed })
        },
        _ => {
            assert(false);
            Err(HookFileError::RootNotObject)
        },
    }
}

// ---------------------------------------------------------------------------------------
// What a merge keeps
// ---------------------------------------------------------------------------------------

/// The handlers of the groups that do not belong to Codex++, in order.
pub open spec fn users_in_groups(groups: Seq<JsonModel>) -> Seq<JsonModel>
    decreases groups.len(),
{
    if groups.len() == 0 {
        Seq::empty()
    } else {
        users_in_groups(groups.drop_last()) + user_handlers(groups.last().items_at("hooks"@))
    }
}

/// The handlers for an event that do not belong to Codex++, in order.
pub open spec fn users_of(hooks: Entries, event: Seq<char>) -> Seq<JsonModel> {
    match json::lookup(hooks, event) {
        Some(JsonModel::Array(groups)) => users_in_groups(groups),
        _ => Seq::empty(),
    }
}

proof fn lemma_users_of_users(handlers: Seq<JsonModel>)
    ensures
        user_handlers(user_handlers(handlers)) == user_handlers(handlers),
        user_handlers(handlers).len() <= handlers.len(),
    decreases handlers.len(),
{
    reveal(Seq::filter);
    let keep = |h: JsonModel| !is_owned_handler(h);
    if handlers.len() > 0 {
        let before = handlers.drop_last();
        lemma_users_of_users(before);
        if !is_owned_handler(handlers.last()) {
            let kept = before.filter(keep).push(handlers.last());
            assert(kept.drop_last() =~= before.filter(keep));
        }
    }
}

/// A group that is left has no handler of Codex++, keeps the others, and is not changed again.
proof fn lemma_cleaned_group(group: JsonModel)
    ensures
        match cleaned_group(group) {
            Some(g) => owned_in_group(g) == 0 && user_handlers(g.items_at("hooks"@))
                == user_handlers(group.items_at("hooks"@)) && cleaned_group(g) == Some(g),
            None => user_handlers(group.items_at("hooks"@)) == Seq::<JsonModel>::empty(),
        },
{
    match group.get("hooks"@) {
        Some(JsonModel::Array(handlers)) => {
            lemma_users_of_users(handlers);
            let kept = user_handlers(handlers);
            if kept.len() > 0 {
                json::lemma_with_entry(group->Object_0, "hooks"@, JsonModel::Array(kept));
            } else {
                assert(kept =~= Seq::<JsonModel>::empty());
            }
        },
        _ => {
            reveal(Seq::filter);
        },
    }
}

proof fn lemma_cleaned_groups(groups: Seq<JsonModel>)
    ensures
        owned_in_groups(cleaned_groups(groups)) == 0,
        users_in_groups(cleaned_groups(groups)) == users_in_groups(groups),
        cleaned_groups(cleaned_groups(groups)) == cleaned_groups(groups),
    decreases groups.len(),
{
    if groups.len() > 0 {
        let before = cleaned_groups(groups.drop_last());
        lemma_cleaned_groups(groups.drop_last());
        lemma_cleaned_group(groups.last());
        match cleaned_group(groups.last()) {
            Some(g) => {
                assert(before.push(g).drop_last() =~= before);
            },
            None => {
                assert(users_in_groups(groups) =~= users_in_groups(groups.drop_last()));
            },
        }
    }
}

proof fn lemma_cleaned_event(value: JsonModel)
    ensures
        match cleaned_event(value) {
            Some(v) => owned_in_event(v) == 0 && cleaned_event(v) == Some(v),
            None => true,
        },
{
    if value is Array {
        lemma_cleaned_groups(value->Array_0);
    }
}

proof fn lemma_cleaned_hooks(hooks: Entries)
    ensures
        owned_in_hooks(cleaned_hooks(hooks)) == 0,
        cleaned_hooks(cleaned_hooks(hooks)) == cleaned_hooks(hooks),
    decreases hooks.len(),
{
    if hooks.len() > 0 {
        let before = cleaned_hooks(hooks.drop_last());
        lemma_cleaned_hooks(hooks.drop_last());
        lemma_cleaned_event(hooks.last().1);
        match cleaned_event(hooks.last().1) {
            Some(v) => {
                assert(before.push((hooks.last().0, v)).drop_last() =~= before);
            },
            None => {},
        }
    }
}

/// What is found for an event after cleaning.
pub proof fn lemma_lookup_cleaned(hooks: Entries, event: Seq<char>)
    requires
        json::distinct_keys(hooks),
    ensures
        json::lookup(cleaned_hooks(hooks), event) == (match json::lookup(hooks, event) {
            Some(v) => cleaned_event(v),
            None => None,
        }),
    decreases hooks.len(),
{
    if hooks.len() > 0 {
        let front = hooks.drop_last();
        let (key, value) = hooks.last();
        assert(front.push((key, value)) =~= hooks);
        assert forall|i: int, j: int| 0 <= i < j < front.len() implies (#[trigger] front[i]).0
            != (#[trigger] front[j]).0 by {
            assert(front[i] == hooks[i] && front[j] == hooks[j]);
        }
        lemma_lookup_cleaned(front, event);
        json::lemma_lookup_push(front, key, value, event);
        json::lemma_key_index(front, event);
        if event == key {
            let i = json::key_index(front, event);
            if i < front.len() {
                assert(front[i] == hooks[i]);
                assert(hooks[i].0 != hooks[hooks.len() - 1].0);
            }
        }
        match cleaned_event(value) {
            Some(v) => {
                json::lemma_lookup_push(cleaned_hooks(front), key, v, event);
            },
            None => {},
        }
    }
}

/// Changing what one event holds changes the number of handlers of Codex++ by the difference, and
/// the cleaned configuration not at all where the event is cleaned to the same.
proof fn lemma_change_event(hooks: Entries, i: int, value: JsonModel)
    requires
        0 <= i < hooks.len(),
    ensures
        owned_in_hooks(hooks.update(i, (hooks[i].0, value))) + owned_in_event(hooks[i].1)
            == owned_in_hooks(hooks) + owned_in_event(value),
        cleaned_event(value) == cleaned_event(hooks[i].1) ==> cleaned_hooks(
            hooks.update(i, (hooks[i].0, value)),
        ) == cleaned_hooks(hooks),
    decreases hooks.len(),
{
    let changed = hooks.update(i, (hooks[i].0, value));
    if i == hooks.len() - 1 {
        assert(changed.drop_last() =~= hooks.drop_last());
    } else {
        lemma_change_event(hooks.drop_last(), i, value);
        assert(changed.drop_last() =~= hooks.drop_last().update(i, (hooks[i].0, value)));
    }
}

/// A handler with a command of Codex++ is owned, and so is the one handler of its group.
proof fn lemma_own_group(
    launcher: Seq<char>,
    platform: Platform,
    timeout: u64,
    status: Seq<char>,
    matcher: Seq<char>,
)
    ensures
        ({
            let handler = own_handler(hook_command_of(launcher, platform), timeout, status);
            let group = group_of(matcher, handler);
            &&& is_owned_handler(handler)
            &&& cleaned_group(group) is None
            &&& owned_in_group(group) == 1
            &&& user_handlers(group.items_at("hooks"@)) == Seq::<JsonModel>::empty()
        }),
{
    let command = hook_command_of(launcher, platform);
    let handler = own_handler(command, timeout, status);
    let group = group_of(matcher, handler);
    law_hook_command_is_owned(launcher, platform);
    reveal_strlit("type");
    reveal_strlit("command");
    reveal_strlit("matcher");
    reveal_strlit("hooks");
    assert("type"@.len() == 4 && "command"@.len() == 7);
    assert("matcher"@.len() == 7 && "hooks"@.len() == 5);
    json::lemma_key_index_is(handler->Object_0, "command"@, 1);
    json::lemma_key_index_is(group->Object_0, "hooks"@, 1);
    assert(handler.text_at("command"@) == Some(command));
    reveal(Seq::filter);
    let handlers = seq![handler];
    assert(group.get("hooks"@) == Some(JsonModel::Array(handlers)));
    let keep = |h: JsonModel| !is_owned_handler(h);
    assert(handlers.drop_last() =~= Seq::<JsonModel>::empty());
    assert(handlers.drop_last().filter(keep) =~= Seq::<JsonModel>::empty());
    assert(handlers.last() == handler);
    assert(user_handlers(handlers) =~= Seq::<JsonModel>::empty());
}

/// What adding a group of Codex++ does: one more handler of its own, nothing else.
proof fn lemma_with_own_hook(
    hooks: Entries,
    event: Seq<char>,
    matcher: Seq<char>,
    launcher: Seq<char>,
    platform: Platform,
    timeout: u64,
    status: Seq<char>,
)
    ensures
        ({
            let handler = own_handler(hook_command_of(launcher, platform), timeout, status);
            match with_hook(hooks, event, matcher, handler) {
                Some(changed) => {
                    &&& owned_in_hooks(changed) == owned_in_hooks(hooks) + 1
                    &&& cleaned_hooks(changed) == cleaned_hooks(hooks)
                    &&& forall|e: Seq<char>| #[trigger] users_of(changed, e) == users_of(hooks, e)
                    &&& forall|e: Seq<char>| #[trigger]
                        json::lookup(changed, e) == json::lookup(hooks, e) || (e == event
                            && json::lookup(changed, e) matches Some(JsonModel::Array(_)))
                },
                None => true,
            }
        }),
{
    let handler = own_handler(hook_command_of(launcher, platform), timeout, status);
    let group = group_of(matcher, handler);
    lemma_own_group(launcher, platform, timeout, status, matcher);
    json::lemma_key_index(hooks, event);
    match json::lookup(hooks, event) {
        None => {
            let groups = seq![group];
            let value = JsonModel::Array(groups);
            let changed = hooks.push((event, value));
            assert(groups.drop_last() =~= Seq::<JsonModel>::empty());
            assert(owned_in_groups(groups.drop_last()) == 0);
            assert(cleaned_groups(groups.drop_last()).len() == 0);
            assert(changed.drop_last() =~= hooks);
            assert(users_in_groups(groups.drop_last()) =~= Seq::<JsonModel>::empty());
            assert(users_in_groups(groups) =~= Seq::<JsonModel>::empty());
            assert forall|e: Seq<char>| #[trigger] users_of(changed, e) == users_of(hooks, e) by {
                json::lemma_lookup_push(hooks, event, value, e);
            }
            assert forall|e: Seq<char>| #[trigger]
                json::lookup(changed, e) == json::lookup(hooks, e) || (e == event && json::lookup(
                    changed,
                    e,
                ) matches Some(JsonModel::Array(_))) by {
                json::lemma_lookup_push(hooks, event, value, e);
            }
        },
        Some(JsonModel::Array(groups)) => {
            let more = groups.push(group);
            let value = JsonModel::Array(more);
            let i = json::key_index(hooks, event);
            assert(more.drop_last() =~= groups);
            lemma_change_event(hooks, i, value);
            json::lemma_with_entry(hooks, event, value);
            assert(users_in_groups(more) =~= users_in_groups(groups));
        },
        Some(_) => {},
    }
}

/// Whether something other than an array is configured.
pub open spec fn is_foreign(value: Option<JsonModel>) -> bool {
    match value {
        Some(JsonModel::Array(_)) => false,
        Some(_) => true,
        None => false,
    }
}

/// What putting in the hooks of Codex++ does: its own handlers come in, nothing else changes.
proof fn lemma_installed(hooks: Entries, launcher: Seq<char>, platform: Platform)
    ensures
        match installed_hooks(hooks, launcher, platform) {
            Ok(changed) => {
                &&& owned_in_hooks(changed) == owned_in_hooks(hooks) + hooks_to_install(
                    true,
                    platform,
                )
                &&& cleaned_hooks(changed) == cleaned_hooks(hooks)
                &&& forall|e: Seq<char>| #[trigger] users_of(changed, e) == users_of(hooks, e)
                &&& forall|e: Seq<char>|
                    is_foreign(json::lookup(hooks, e)) ==> #[trigger] json::lookup(changed, e)
                        == json::lookup(hooks, e)
            },
            Err(_) => true,
        },
{
    lemma_with_own_hook(
        hooks,
        "UserPromptSubmit"@,
        ""@,
        launcher,
        platform,
        40,
        "Codex++ memory retrieval"@,
    );
    if platform == Platform::Windows {
        let command = hook_command_of(launcher, platform);
        let first = with_hook(
            hooks,
            "UserPromptSubmit"@,
            ""@,
            own_handler(command, 40, "Codex++ memory retrieval"@),
        );
        if first is Some {
            lemma_with_own_hook(
                first->0,
                "PreToolUse"@,
                "Bash"@,
                launcher,
                platform,
                10,
                "Codex++ AI shell selection"@,
            );
        }
    }
}

/// The hooks of a merged document are those that the merge made, and no other field is touched.
pub proof fn lemma_merged_root(
    root: JsonModel,
    enabled: bool,
    launcher: Seq<char>,
    platform: Platform,
)
    requires
        merged_document(root, enabled, launcher, platform) is Ok,
    ensures
        ({
            let merged = merged_document(root, enabled, launcher, platform)->Ok_0;
            let hooks = hooks_of(root)->Ok_0;
            &&& hooks_of(root) is Ok
            &&& hooks_of(merged) == (if enabled {
                installed_hooks(cleaned_hooks(hooks), launcher, platform)
            } else {
                Ok::<Entries, HookFileError>(cleaned_hooks(hooks))
            })
        }),
{
    let hooks = hooks_of(root)->Ok_0;
    let new_hooks = if enabled {
        installed_hooks(cleaned_hooks(hooks), launcher, platform)->Ok_0
    } else {
        cleaned_hooks(hooks)
    };
    json::lemma_with_entry(root->Object_0, "hooks"@, JsonModel::Object(new_hooks));
}

/// After a merge the handlers of Codex++ in the document are those that the merge installed: none
/// of the old ones is left, and where the hooks are disabled there is none at all.
pub proof fn law_merge_replaces_owned_hooks(
    root: JsonModel,
    enabled: bool,
    launcher: Seq<char>,
    platform: Platform,
)
    requires
        merged_document(root, enabled, launcher, platform) is Ok,
    ensures
        hooks_of(merged_document(root, enabled, launcher, platform)->Ok_0) is Ok,
        owned_in_hooks(hooks_of(merged_document(root, enabled, launcher, platform)->Ok_0)->Ok_0)
            == hooks_to_install(enabled, platform),
{
    lemma_merged_root(root, enabled, launcher, platform);
    let hooks = hooks_of(root)->Ok_0;
    lemma_cleaned_hooks(hooks);
    lemma_installed(cleaned_hooks(hooks), launcher, platform);
}

/// Once the handlers of Codex++ have been taken out, none is left; taking them out again finds
/// none and changes nothing; and every other handler is kept, in its order, for every event, as
/// is what is configured for it where that is no array.
pub proof fn law_removal_is_complete(hooks: Entries, event: Seq<char>)
    ensures
        owned_in_hooks(cleaned_hooks(hooks)) == 0,
        cleaned_hooks(cleaned_hooks(hooks)) == cleaned_hooks(hooks),
        json::distinct_keys(hooks) ==> users_of(cleaned_hooks(hooks), event) == users_of(hooks, event),
        json::distinct_keys(hooks) && is_foreign(json::lookup(hooks, event)) ==> json::lookup(
            cleaned_hooks(hooks),
            event,
        ) == json::lookup(hooks, event),
{
    lemma_cleaned_hooks(hooks);
    if json::distinct_keys(hooks) {
        lemma_lookup_cleaned(hooks, event);
        if let Some(JsonModel::Array(groups)) = json::lookup(hooks, event) {
            lemma_cleaned_groups(groups);
            if cleaned_groups(groups).len() == 0 {
                assert(users_in_groups(cleaned_groups(groups)) =~= Seq::<JsonModel>::empty());
            }
        }
    }
}

/// A merge keeps, for every event, the handlers that do not belong to Codex++, in their order, and
/// what is configured for it where that is no array.
pub proof fn law_merge_keeps_user_hooks(
    root: JsonModel,
    enabled: bool,
    launcher: Seq<char>,
    platform: Platform,
    event: Seq<char>,
)
    requires
        merged_document(root, enabled, launcher, platform) is Ok,
        json::distinct_keys(hooks_of(root)->Ok_0),
    ensures
        users_of(
            hooks_of(merged_document(root, enabled, launcher, platform)->Ok_0)->Ok_0,
            event,
        ) == users_of(hooks_of(root)->Ok_0, event),
        is_foreign(json::lookup(hooks_of(root)->Ok_0, event)) ==> json::lookup(
            hooks_of(merged_document(root, enabled, launcher, platform)->Ok_0)->Ok_0,
            event,
        ) == json::lookup(hooks_of(root)->Ok_0, event),
{
    lemma_merged_root(root, enabled, launcher, platform);
    let hooks = hooks_of(root)->Ok_0;
    law_removal_is_complete(hooks, event);
    lemma_installed(cleaned_hooks(hooks), launcher, platform);
}

/// A merge touches no field of the document but `hooks`.
pub proof fn law_merge_keeps_other_fields(
    root: JsonModel,
    enabled: bool,
    launcher: Seq<char>,
    platform: Platform,
    key: Seq<char>,
)
    requires
        merged_document(root, enabled, launcher, platform) is Ok,
        key != "hooks"@,
    ensures
        merged_document(root, enabled, launcher, platform)->Ok_0.get(key) == root.get(key),
{
    let hooks = hooks_of(root)->Ok_0;
    let new_hooks = if enabled {
        installed_hooks(cleaned_hooks(hooks), launcher, platform)->Ok_0
    } else {
        cleaned_hooks(hooks)
    };
    json::lemma_with_entry(root->Object_0, "hooks"@, JsonModel::Object(new_hooks));
}

/// Merging a second time with the same settings changes nothing.
pub proof fn law_merge_is_idempotent(
    root: JsonModel,
    enabled: bool,
    launcher: Seq<char>,
    platform: Platform,
)
    requires
        merged_document(root, enabled, launcher, platform) is Ok,
    ensures
        merged_document(
            merged_document(root, enabled, launcher, platform)->Ok_0,
            enabled,
            launcher,
            platform,
        ) == merged_document(root, enabled, launcher, platform),
{
    lemma_merged_root(root, enabled, launcher, platform);
    let hooks = hooks_of(root)->Ok_0;
    let clean = cleaned_hooks(hooks);
    lemma_cleaned_hooks(hooks);
    lemma_installed(clean, launcher, platform);
    let new_hooks = if enabled {
        installed_hooks(clean, launcher, platform)->Ok_0
    } else {
        clean
    };
    json::lemma_with_entry(root->Object_0, "hooks"@, JsonModel::Object(new_hooks));
}

// ---------------------------------------------------------------------------------------
// Installing
// ---------------------------------------------------------------------------------------

impl HookFileError {
    /// The words for the error in the hook file at `path`.
    pub fn message(&self, path: &str) -> (r: String)
        ensures
            r@ == (match self {
                HookFileError::InvalidJson => "Codex Hook 文件不是有效 JSON："@ + path@,
                HookFileError::RootNotObject => "Codex Hook 文件根节点必须是对象："@ + path@,
                HookFileError::HooksNotObject => "hooks 字段必须是对象"@,
                HookFileError::PromptHooksNotArray => "UserPromptSubmit Hook 配置必须是数组"@,
                HookFileError::ToolHooksNotArray => "PreToolUse Hook 配置必须是数组"@,
            }),
    {
        match self {
            HookFileError::InvalidJson => "Codex Hook 文件不是有效 JSON：".to_owned().concat(path),
            HookFileError::RootNotObject => "Codex Hook 文件根节点必须是对象：".to_owned().concat(
                path,
            ),
            HookFileError::HooksNotObject => "hooks 字段必须是对象".to_owned(),
            HookFileError::PromptHooksNotArray => "UserPromptSubmit Hook 配置必须是数组".to_owned(),
            HookFileError::ToolHooksNotArray => "PreToolUse Hook 配置必须是数组".to_owned(),
        }
    }
}

/// The document of a hook file: what the file says, or one without hooks where there is no file.
pub open spec fn hook_document(contents: Option<Seq<char>>) -> Result<JsonModel, HookFileError> {
    match contents {
        None => Ok(JsonModel::Object(seq![("hooks"@, JsonModel::Object(Seq::empty()))])),
        Some(s) => match json::json_parsed(s) {
            None => Err(HookFileError::InvalidJson),
            Some(root) => if root is Object {
                Ok(root)
            } else {
                Err(HookFileError::RootNotObject)
            },
        },
    }
}

/// Reads the document of a hook file.
pub fn read_hooks_document(contents: Option<&str>) -> (r: Result<Json, HookFileError>)
    ensures
        ({
            let document = hook_document(
                match contents {
                    Some(s) => Some(s@),
                    None => None,
                },
            );
            match r {
                Ok(root) => document == Ok::<JsonModel, HookFileError>(root@)
                    && json_order::is_tidy(root@) && json_order::nests(
                    root@,
                    json::MAX_DEPTH as nat,
                ),
                Err(e) => document == Err::<JsonModel, HookFileError>(e),
            }
        }),
{
    broadcast use json::lemma_view;

    match contents {
        None => {
            let none: Vec<(String, Json)> = Vec::new();
            let empty = Json::Object(none);
            assert(json::entry_models(none@) =~= Seq::empty());
            let mut entries: Vec<(String, Json)> = Vec::new();
            entries.push(("hooks".to_owned(), empty));
            assert(json::entry_models(entries@) =~= seq![("hooks"@, empty@)]);
            assert(json_order::is_tidy(empty@));
            assert(json_order::nests(empty@, (json::MAX_DEPTH - 1) as nat));
            Ok(Json::Object(entries))
        },
        Some(s) => match json::parse_json(s) {
            None => Err(HookFileError::InvalidJson),
            Some(root) => {
                if root.is_object() {
                    Ok(root)
                } else {
                    Err(HookFileError::RootNotObject)
                }
            },
        },
    }
}

/// How a hook file is to be brought up to date.
#[derive(Debug, PartialEq, Eq)]
pub struct HookInstallPlan {
    /// What the file has to hold.
    pub bytes: Vec<u8>,
    /// Whether it has to be written.
    pub write: bool,
    pub installed: usize,
    pub removed: usize,
}

fn same_bytes(a: &[u8], b: &[u8]) -> (r: bool)
    ensures
        r == (a@ == b@),
{
    if a.len() != b.len() {
        return false;
    }
    for i in 0..a.len()
        invariant
            a@.len() == b@.len(),
            forall|j: int| 0 <= j < i ==> a@[j] == b@[j],
    {
        if a[i] != b[i] {
            assert(a@[i as int] != b@[i as int]);
            return false;
        }
    }
    assert(a@ =~= b@);
    true
}

/// The bytes that are written of a document, and whether they differ from what the file holds.
pub fn hook_file_bytes(root: &Json, contents: Option<&str>) -> (r: (Vec<u8>, bool))
    ensures
        r.0@ == json::json_pretty(json_order::tidied(root@)).push(10),
        r.1 == (match contents {
            Some(s) => vstd::utf8::encode_utf8(s@) != r.0@,
            None => true,
        }),
        json::is_readable(root@) ==> json::reads_as(
            r.0@,
            json_order::tidied(root@),
        ),
{
    let mut bytes = json::pretty_json(root);
    bytes.push(10);
    let write = match contents {
        Some(s) => !same_bytes(s.as_bytes(), bytes.as_slice()),
        None => true,
    };
    (bytes, write)
}

/// Whether a result is the one of planning an installation into a hook file that holds
/// `contents`. What was read of the file is tidy. The bytes that the file has to hold read as the
/// merged document, tidied, where its numbers are integers and it is not too deep.
pub open spec fn is_install_plan(
    r: Result<HookInstallPlan, HookFileError>,
    contents: Option<Seq<char>>,
    enabled: bool,
    launcher: Seq<char>,
    platform: Platform,
) -> bool {
    match hook_document(contents) {
        Err(e) => r == Err::<HookInstallPlan, HookFileError>(e),
        Ok(root) => {
            &&& json_order::is_tidy(root)
            &&& json_order::nests(root, json::MAX_DEPTH as nat)
            &&& match merged_document(root, enabled, launcher, platform) {
                Err(e) => r == Err::<HookInstallPlan, HookFileError>(e),
                Ok(merged) => r is Ok && ({
                    let plan = r->Ok_0;
                    &&& plan.bytes@ == json::json_pretty(json_order::tidied(merged)).push(10)
                    &&& json::is_readable(merged) ==> json::reads_as(
                        plan.bytes@,
                        json_order::tidied(merged),
                    )
                    &&& plan.write == (contents is None || vstd::utf8::encode_utf8(contents->0)
                        != plan.bytes@)
                    &&& plan.installed as nat == hooks_to_install(enabled, platform)
                    &&& plan.removed == capped(owned_in_hooks(hooks_of(root)->Ok_0))
                }),
            }
        },
    }
}

/// Works out what the hook file of Codex has to hold, from what it holds.
pub fn plan_hook_install(
    contents: Option<&str>,
    enabled: bool,
    launcher: &str,
    platform: Platform,
) -> (r: Result<HookInstallPlan, HookFileError>)
    ensures
        is_install_plan(
            r,
            match contents {
                Some(s) => Some(s@),
                None => None,
            },
            enabled,
            launcher@,
            platform,
        ),
{
    let root = match read_hooks_document(contents) {
        Ok(root) => root,
        Err(e) => {
            return Err(e);
        },
    };
    let merge = match merge_hooks(&root, enabled, launcher, platform) {
        Ok(merge) => merge,
        Err(e) => {
            return Err(e);
        },
    };
    let (bytes, write) = hook_file_bytes(&merge.root, contents);
    Ok(HookInstallPlan { bytes, write, installed: merge.installed, removed: merge.removed })
}

} // verus!
