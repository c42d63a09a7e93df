//! What holds of the hook file of Codex as a whole, whatever it held before.
use crate::codex_hooks::{
    append_hook, cleaned_event, cleaned_group, cleaned_groups, cleaned_hooks, group_of, hook_command,
    hook_command_of, hooks_of, installed_hooks, is_owned_command, is_owned_handler,
    law_shell_quote_reads_back, lemma_lookup_cleaned, lemma_merged_root, merge_hooks, own_handler,
    owned_in_group, owned_in_groups, owned_in_hooks, plan_hook_install, shell_quoted, shell_word,
    user_handlers, with_hook, HookFileError, HookInstallPlan, HookMerge, ShellState,
};
use crate::json;
use crate::json::{Entries, Json, JsonModel, JsonNumber};
use crate::platform::Platform;
use crate::text::{self, CharClass};
use vstd::prelude::*;

verus! {

// ---------------------------------------------------------------------------------------
// Commands
// ---------------------------------------------------------------------------------------

/// A command belongs to Codex++ where the marker is one of its words, and not where it is only a
/// part of a word. Quotation marks around the word do not count.
pub proof fn law_commands_are_known_by_the_marker(words: Seq<Seq<char>>)
    requires
        forall|k: int| 0 <= k < words.len() ==> text::is_word(#[trigger] words[k]),
    ensures
        words.contains("--codex-plus-hook"@) ==> is_owned_command(text::joined(words, seq![' '])),
        words.contains(seq!['"'] + "--codex-plus-hook"@ + seq!['"']) ==> is_owned_command(
            text::joined(words, seq![' ']),
        ),
        (forall|k: int|
            0 <= k < words.len() ==> (#[trigger] words[k]) != "--codex-plus-hook"@
                && words[k][0] != '"' && words[k][0] != '\'' && words[k].last() != '"'
                && words[k].last() != '\'') ==> !is_owned_command(text::joined(words, seq![' '])),
{
    let command = text::joined(words, seq![' ']);
    text::lemma_words_of_joined(words);
    reveal_strlit("--codex-plus-hook");
    let marker = "--codex-plus-hook"@;
    assert(marker.len() == 17 && marker[0] == '-' && marker[16] == 'k');
    assert(text::trimmed_start(marker, CharClass::Quote) == marker);
    assert(text::trimmed_end(marker, CharClass::Quote) == marker);
    if words.contains(marker) {
        let k = words.index_of(marker);
        assert(text::words(command)[k] == marker);
    }
    let quoted = seq!['"'] + marker + seq!['"'];
    if words.contains(quoted) {
        let k = words.index_of(quoted);
        assert(text::words(command)[k] == quoted);
        let open = marker + seq!['"'];
        assert(quoted.skip(1) =~= open);
        assert(text::trimmed_start(open, CharClass::Quote) == open);
        assert(text::trimmed_start(quoted, CharClass::Quote) == open);
        assert(open.drop_last() =~= marker);
        assert(text::trimmed_end(open, CharClass::Quote) == marker);
    }
    if forall|k: int|
        0 <= k < words.len() ==> (#[trigger] words[k]) != marker && words[k][0] != '"'
            && words[k][0] != '\'' && words[k].last() != '"' && words[k].last() != '\'' {
        assert forall|k: int| 0 <= k < text::words(command).len() implies text::trimmed_of(
            #[trigger] text::words(command)[k],
            CharClass::Quote,
        ) != marker by {
            let word = words[k];
            assert(text::is_word(words[k]));
            assert(text::trimmed_start(word, CharClass::Quote) == word);
            assert(text::trimmed_end(word, CharClass::Quote) == word);
        }
    }
}

/// The command of a hook is the launcher and the marker. A shell reads the launcher back as it
/// is. On Windows it stands in quotation marks, and none is within.
pub proof fn law_hook_command_starts_the_launcher(launcher: &str, platform: Platform, r: String)
    requires
        call_ensures(hook_command, (launcher, platform), r),
    ensures
        text::ends(r@, " --codex-plus-hook"@),
        platform != Platform::Windows ==> shell_word(
            r@.take(r@.len() - 18),
            ShellState::Bare,
        ) == Some(launcher@),
        platform == Platform::Windows && !launcher@.contains('"') ==> r@ == seq!['"'] + launcher@
            + seq!['"'] + " --codex-plus-hook"@,
{
    reveal_strlit("--codex-plus-hook");
    reveal_strlit(" --codex-plus-hook");
    assert(seq![' '] + "--codex-plus-hook"@ =~= " --codex-plus-hook"@);
    law_shell_quote_reads_back(launcher@);
    let tail = " --codex-plus-hook"@;
    let n = r@.len() - 18;
    assert(r@.skip(n) =~= tail);
    assert(text::occurs_at(r@, tail, n)) by {
        assert(r@.subrange(n, n + 18) =~= tail);
    }
    if platform != Platform::Windows {
        assert(r@.take(n) =~= shell_quoted(launcher@));
    } else if !launcher@.contains('"') {
        lemma_nothing_replaced(launcher@, '"', Seq::empty());
        assert(r@ =~= seq!['"'] + launcher@ + seq!['"'] + tail);
    }
}

proof fn lemma_nothing_replaced(s: Seq<char>, from: char, to: Seq<char>)
    requires
        !s.contains(from),
    ensures
        text::replaced(s, from, to) == s,
    decreases s.len(),
{
    if s.len() > 0 {
        assert(s.contains(s[s.len() - 1]));
        assert(!s.drop_last().contains(from)) by {
            if s.drop_last().contains(from) {
                let i = s.drop_last().index_of(from);
                assert(s[i] == from);
            }
        }
        lemma_nothing_replaced(s.drop_last(), from, to);
        assert(s.drop_last().push(s.last()) =~= s);
    }
}

// ---------------------------------------------------------------------------------------
// What is put in
// ---------------------------------------------------------------------------------------

/// Whether a group has one handler, which runs a command of Codex++ for what `matcher` says.
pub open spec fn runs_command(
    group: JsonModel,
    matcher: Seq<char>,
    command: Seq<char>,
    seconds: u64,
    status: Seq<char>,
) -> bool {
    &&& group.text_at("matcher"@) == Some(matcher)
    &&& group.items_at("hooks"@).len() == 1
    &&& group.items_at("hooks"@)[0].text_at("type"@) == Some("command"@)
    &&& group.items_at("hooks"@)[0].text_at("command"@) == Some(command)
    &&& group.items_at("hooks"@)[0].get("timeout"@) == Some(
        JsonModel::Number(JsonNumber::Unsigned(seconds)),
    )
    &&& group.items_at("hooks"@)[0].text_at("statusMessage"@) == Some(status)
}

proof fn lemma_own_group(matcher: Seq<char>, command: Seq<char>, seconds: u64, status: Seq<char>)
    ensures
        runs_command(
            group_of(matcher, own_handler(command, seconds, status)),
            matcher,
            command,
            seconds,
            status,
        ),
{
    reveal_strlit("matcher");
    reveal_strlit("hooks");
    reveal_strlit("type");
    reveal_strlit("command");
    reveal_strlit("timeout");
    reveal_strlit("statusMessage");
    assert("matcher"@.len() == 7 && "hooks"@.len() == 5 && "type"@.len() == 4);
    assert("command"@[0] == 'c' && "timeout"@[0] == 't' && "statusMessage"@.len() == 13);
    assert("command"@.len() == 7 && "timeout"@.len() == 7);
    let handler = own_handler(command, seconds, status);
    json::lemma_entry_found(handler->Object_0, 0);
    json::lemma_entry_found(handler->Object_0, 1);
    json::lemma_entry_found(handler->Object_0, 2);
    json::lemma_entry_found(handler->Object_0, 3);
    let group = group_of(matcher, handler)->Object_0;
    json::lemma_entry_found(group, 0);
    json::lemma_entry_found(group, 1);
}

/// One more hook for an event stands behind those that are there, and no other event is touched.
proof fn lemma_with_hook(hooks: Entries, event: Seq<char>, matcher: Seq<char>, handler: JsonModel)
    requires
        with_hook(hooks, event, matcher, handler) is Some,
    ensures
        ({
            let changed = with_hook(hooks, event, matcher, handler)->0;
            let groups = JsonModel::Object(hooks).items_at(event);
            &&& JsonModel::Object(changed).items_at(event) == groups.push(
                group_of(matcher, handler),
            )
            &&& forall|e: Seq<char>|
                e != event ==> #[trigger] json::lookup(changed, e) == json::lookup(hooks, e)
        }),
{
    let changed = with_hook(hooks, event, matcher, handler)->0;
    let group = group_of(matcher, handler);
    match json::lookup(hooks, event) {
        None => {
            let value = JsonModel::Array(seq![group]);
            json::lemma_lookup_push(hooks, event, value, event);
            assert(Seq::<JsonModel>::empty().push(group) =~= seq![group]);
            assert forall|e: Seq<char>| e != event implies #[trigger] json::lookup(changed, e)
                == json::lookup(hooks, e) by {
                json::lemma_lookup_push(hooks, event, value, e);
            }
        },
        Some(JsonModel::Array(groups)) => {
            json::lemma_with_entry(hooks, event, JsonModel::Array(groups.push(group)));
        },
        _ => {},
    }
}

/// Where the hooks are enabled, the last group for prompts runs the launcher, with forty seconds
/// for it; on Windows the last group for the shell tool does too, with ten seconds. Where they
/// are not, none is put in.
pub proof fn law_hooks_are_put_in(
    root: Json,
    enabled: bool,
    launcher: &str,
    platform: Platform,
    r: Result<HookMerge, HookFileError>,
)
    requires
        call_ensures(merge_hooks, (&root, enabled, launcher, platform), r),
        r is Ok,
    ensures
        ({
            let merge = r->Ok_0;
            let hooks = merge.root@.get("hooks"@)->0;
            let prompt = hooks.items_at("UserPromptSubmit"@);
            let tool = hooks.items_at("PreToolUse"@);
            let command = hook_command_of(launcher@, platform);
            &&& merge.root@.get("hooks"@) is Some
            &&& hooks is Object
            &&& enabled ==> prompt.len() > 0 && runs_command(
                prompt.last(),
                ""@,
                command,
                40,
                "Codex++ memory retrieval"@,
            )
            &&& enabled && platform == Platform::Windows ==> tool.len() > 0 && runs_command(
                tool.last(),
                "Bash"@,
                command,
                10,
                "Codex++ AI shell selection"@,
            )
            &&& merge.installed == (if !enabled {
                0int
            } else if platform == Platform::Windows {
                2int
            } else {
                1int
            })
        }),
{
    lemma_merged_root(root@, enabled, launcher@, platform);
    let old_hooks = hooks_of(root@)->Ok_0;
    let clean = cleaned_hooks(old_hooks);
    let new_hooks = if enabled {
        installed_hooks(clean, launcher@, platform)->Ok_0
    } else {
        clean
    };
    json::lemma_with_entry(root@->Object_0, "hooks"@, JsonModel::Object(new_hooks));
    if enabled {
        let command = hook_command_of(launcher@, platform);
        let first_handler = own_handler(command, 40, "Codex++ memory retrieval"@);
        lemma_own_group(""@, command, 40, "Codex++ memory retrieval"@);
        lemma_with_hook(clean, "UserPromptSubmit"@, ""@, first_handler);
        if platform == Platform::Windows {
            let first = with_hook(clean, "UserPromptSubmit"@, ""@, first_handler)->0;
            lemma_own_group("Bash"@, command, 10, "Codex++ AI shell selection"@);
            let second_handler = own_handler(command, 10, "Codex++ AI shell selection"@);
            lemma_with_hook(first, "PreToolUse"@, "Bash"@, second_handler);
            reveal_strlit("UserPromptSubmit");
            reveal_strlit("PreToolUse");
            assert("UserPromptSubmit"@.len() == 16 && "PreToolUse"@.len() == 10);
            assert(json::lookup(new_hooks, "UserPromptSubmit"@) == json::lookup(
                first,
                "UserPromptSubmit"@,
            ));
        }
    }
}

/// Whether a document holds something other than an array for an event.
pub open spec fn holds_no_list(root: JsonModel, event: Seq<char>) -> bool {
    match root.get("hooks"@) {
        Some(hooks) => match hooks.get(event) {
            Some(value) => !(value is Array),
            None => false,
        },
        None => false,
    }
}

/// A document can be brought up to date unless it is no object, its hooks are no object, or what
/// is to get a hook of Codex++ holds something other than an array; and the error says which.
pub proof fn law_merge_fails_only_on_other_shapes(
    root: Json,
    enabled: bool,
    launcher: &str,
    platform: Platform,
    r: Result<HookMerge, HookFileError>,
)
    requires
        call_ensures(merge_hooks, (&root, enabled, launcher, platform), r),
        hooks_of(root@) is Ok ==> json::distinct_keys(hooks_of(root@)->Ok_0),
    ensures
        ({
            let windows = platform == Platform::Windows;
            if !(root@ is Object) {
                r == Err::<HookMerge, HookFileError>(HookFileError::RootNotObject)
            } else if root@.get("hooks"@) is Some && !(root@.get("hooks"@)->0 is Object) {
                r == Err::<HookMerge, HookFileError>(HookFileError::HooksNotObject)
            } else if enabled && holds_no_list(root@, "UserPromptSubmit"@) {
                r == Err::<HookMerge, HookFileError>(HookFileError::PromptHooksNotArray)
            } else if enabled && windows && holds_no_list(root@, "PreToolUse"@) {
                r == Err::<HookMerge, HookFileError>(HookFileError::ToolHooksNotArray)
            } else {
                r is Ok
            }
        }),
{
    if hooks_of(root@) is Ok {
        let hooks = hooks_of(root@)->Ok_0;
        let clean = cleaned_hooks(hooks);
        lemma_lookup_cleaned(hooks, "UserPromptSubmit"@);
        lemma_lookup_cleaned(hooks, "PreToolUse"@);
        json::lemma_entry_missing(Seq::empty(), "UserPromptSubmit"@);
        json::lemma_entry_missing(Seq::empty(), "PreToolUse"@);
        if enabled {
            let command = hook_command_of(launcher@, platform);
            let handler = own_handler(command, 40, "Codex++ memory retrieval"@);
            if with_hook(clean, "UserPromptSubmit"@, ""@, handler) is Some {
                lemma_with_hook(clean, "UserPromptSubmit"@, ""@, handler);
                let first = with_hook(clean, "UserPromptSubmit"@, ""@, handler)->0;
                reveal_strlit("UserPromptSubmit");
                reveal_strlit("PreToolUse");
                assert("UserPromptSubmit"@.len() == 16 && "PreToolUse"@.len() == 10);
                assert(json::lookup(first, "PreToolUse"@) == json::lookup(clean, "PreToolUse"@));
            }
        }
    }
}

// ---------------------------------------------------------------------------------------
// What is taken out
// ---------------------------------------------------------------------------------------

/// Handlers are taken out one by one: what is left of two lists is left of both together, and a
/// handler goes if the command that it names belongs to Codex++.
pub proof fn law_handlers_are_taken_out_one_by_one(
    a: Seq<JsonModel>,
    b: Seq<JsonModel>,
    handler: JsonModel,
)
    ensures
        user_handlers(a + b) == user_handlers(a) + user_handlers(b),
        user_handlers(seq![handler]) == (if handler.text_at("command"@) is Some && is_owned_command(
            handler.text_at("command"@)->0,
        ) {
            Seq::<JsonModel>::empty()
        } else {
            seq![handler]
        }),
    decreases b.len(),
{
    reveal(Seq::filter);
    let keep = |h: JsonModel| !is_owned_handler(h);
    let one = seq![handler];
    assert(one.drop_last() =~= Seq::<JsonModel>::empty());
    assert(one.drop_last().filter(keep) =~= Seq::<JsonModel>::empty());
    assert(one.last() == handler);
    assert(user_handlers(one) =~= (if is_owned_handler(handler) {
        Seq::<JsonModel>::empty()
    } else {
        seq![handler]
    }));
    if b.len() == 0 {
        assert(a + b =~= a);
        assert(user_handlers(b) =~= Seq::<JsonModel>::empty());
        assert(user_handlers(a) + user_handlers(b) =~= user_handlers(a));
    } else {
        law_handlers_are_taken_out_one_by_one(a, b.drop_last(), handler);
        assert((a + b).drop_last() =~= a + b.drop_last());
        assert((a + b).last() == b.last());
        assert(user_handlers(a + b) =~= user_handlers(a) + user_handlers(b));
    }
}

/// A group is left with the handlers of the user, and with all else that it says. One whose
/// handlers are all of Codex++ goes, and one that has no list of handlers stays as it is.
pub proof fn law_group_keeps_what_is_not_its_handlers(group: JsonModel, key: Seq<char>)
    requires
        key != "hooks"@,
    ensures
        match group.get("hooks"@) {
            Some(JsonModel::Array(handlers)) => {
                &&& cleaned_group(group) is None <==> user_handlers(handlers).len() == 0
                &&& cleaned_group(group) is Some ==> cleaned_group(group)->0.get("hooks"@) == Some(
                    JsonModel::Array(user_handlers(handlers)),
                ) && cleaned_group(group)->0.get(key) == group.get(key)
                &&& owned_in_group(group) + user_handlers(handlers).len() == handlers.len()
            },
            _ => cleaned_group(group) == Some(group) && owned_in_group(group) == 0,
        },
{
    match group.get("hooks"@) {
        Some(JsonModel::Array(handlers)) => {
            json::lemma_with_entry(
                group->Object_0,
                "hooks"@,
                JsonModel::Array(user_handlers(handlers)),
            );
            lemma_no_more_users(handlers);
        },
        _ => {},
    }
}

proof fn lemma_no_more_users(handlers: Seq<JsonModel>)
    ensures
        user_handlers(handlers).len() <= handlers.len(),
    decreases handlers.len(),
{
    reveal(Seq::filter);
    if handlers.len() > 0 {
        lemma_no_more_users(handlers.drop_last());
    }
}

/// Groups are cleaned one by one, in their order, and so is what is configured for the events;
/// and what is counted is the sum of what each of them had.
pub proof fn law_groups_are_cleaned_one_by_one(
    a: Seq<JsonModel>,
    b: Seq<JsonModel>,
    group: JsonModel,
)
    ensures
        cleaned_groups(a + b) == cleaned_groups(a) + cleaned_groups(b),
        owned_in_groups(a + b) == owned_in_groups(a) + owned_in_groups(b),
        cleaned_groups(seq![group]) == (match cleaned_group(group) {
            Some(g) => seq![g],
            None => Seq::<JsonModel>::empty(),
        }),
        owned_in_groups(seq![group]) == owned_in_group(group),
    decreases b.len(),
{
    let one = seq![group];
    assert(one.drop_last() =~= Seq::<JsonModel>::empty());
    assert(one.last() == group);
    assert(cleaned_groups(one.drop_last()) =~= Seq::<JsonModel>::empty());
    assert(owned_in_groups(one.drop_last()) == 0);
    assert(cleaned_groups(one) =~= (match cleaned_group(group) {
        Some(g) => seq![g],
        None => Seq::<JsonModel>::empty(),
    }));
    if b.len() == 0 {
        assert(a + b =~= a);
        assert(cleaned_groups(a) + cleaned_groups(b) =~= cleaned_groups(a));
    } else {
        law_groups_are_cleaned_one_by_one(a, b.drop_last(), group);
        assert((a + b).drop_last() =~= a + b.drop_last());
        assert((a + b).last() == b.last());
        assert(cleaned_groups(a + b) =~= cleaned_groups(a) + cleaned_groups(b));
    }
}

/// The configuration of the events is cleaned event by event, in their order. An event goes where
/// no group of it is left, and what is no list of groups stays as it is.
pub proof fn law_events_are_cleaned_one_by_one(
    a: Entries,
    b: Entries,
    event: Seq<char>,
    value: JsonModel,
)
    ensures
        cleaned_hooks(a + b) == cleaned_hooks(a) + cleaned_hooks(b),
        owned_in_hooks(a + b) == owned_in_hooks(a) + owned_in_hooks(b),
        match value {
            JsonModel::Array(groups) => {
                &&& owned_in_hooks(seq![(event, value)]) == owned_in_groups(groups)
                &&& cleaned_hooks(seq![(event, value)]) == (if cleaned_groups(groups).len() == 0 {
                    Seq::<(Seq<char>, JsonModel)>::empty()
                } else {
                    seq![(event, JsonModel::Array(cleaned_groups(groups)))]
                })
            },
            _ => cleaned_hooks(seq![(event, value)]) == seq![(event, value)] && owned_in_hooks(
                seq![(event, value)],
            ) == 0,
        },
    decreases b.len(),
{
    let one = seq![(event, value)];
    assert(one.drop_last() =~= Seq::<(Seq<char>, JsonModel)>::empty());
    assert(one.last() == (event, value));
    assert(cleaned_hooks(one.drop_last()) =~= Seq::<(Seq<char>, JsonModel)>::empty());
    assert(owned_in_hooks(one.drop_last()) == 0);
    assert(cleaned_hooks(one) =~= (match cleaned_event(value) {
        Some(v) => seq![(event, v)],
        None => Seq::<(Seq<char>, JsonModel)>::empty(),
    }));
    if b.len() == 0 {
        assert(a + b =~= a);
        assert(cleaned_hooks(a) + cleaned_hooks(b) =~= cleaned_hooks(a));
    } else {
        law_events_are_cleaned_one_by_one(a, b.drop_last(), event, value);
        assert((a + b).drop_last() =~= a + b.drop_last());
        assert((a + b).last() == b.last());
        assert(cleaned_hooks(a + b) =~= cleaned_hooks(a) + cleaned_hooks(b));
    }
}

/// Where the hooks are not enabled, the document is left with the hooks that it had, without
/// those of Codex++; and what is counted as removed is how many those were.
pub proof fn law_disabled_hooks_are_only_taken_out(
    root: Json,
    launcher: &str,
    platform: Platform,
    r: Result<HookMerge, HookFileError>,
)
    requires
        call_ensures(merge_hooks, (&root, false, launcher, platform), r),
        r is Ok,
    ensures
        ({
            let before = match root@.get("hooks"@) {
                Some(JsonModel::Object(hooks)) => hooks,
                _ => Seq::<(Seq<char>, JsonModel)>::empty(),
            };
            &&& r->Ok_0.root@.get("hooks"@) == Some(JsonModel::Object(cleaned_hooks(before)))
            &&& owned_in_hooks(before) <= usize::MAX ==> r->Ok_0.removed == owned_in_hooks(before)
        }),
{
    let before = hooks_of(root@)->Ok_0;
    json::lemma_with_entry(root@->Object_0, "hooks"@, JsonModel::Object(cleaned_hooks(before)));
}

// ---------------------------------------------------------------------------------------
// The file
// ---------------------------------------------------------------------------------------

/// A file is written only where it does not hold already what it has to hold. That is one
/// document and a line break behind it. A file that is there and is no JSON object is left alone.
pub proof fn law_file_is_written_only_where_it_changes(
    contents: Option<&str>,
    enabled: bool,
    launcher: &str,
    platform: Platform,
    r: Result<HookInstallPlan, HookFileError>,
)
    requires
        call_ensures(plan_hook_install, (contents, enabled, launcher, platform), r),
    ensures
        match r {
            Ok(plan) => {
                &&& plan.bytes@.len() > 0
                &&& plan.bytes@.last() == 10
                &&& plan.write <==> (contents is None || vstd::utf8::encode_utf8(contents->0@)
                    != plan.bytes@)
                &&& contents is Some ==> json::json_parsed(contents->0@) is Some
                    && json::json_parsed(contents->0@)->0 is Object
                &&& plan.installed == (if !enabled {
                    0int
                } else if platform == Platform::Windows {
                    2int
                } else {
                    1int
                })
            },
            Err(HookFileError::InvalidJson) => contents is Some && json::json_parsed(
                contents->0@,
            ) is None,
            Err(HookFileError::RootNotObject) => contents is Some && json::json_parsed(
                contents->0@,
            ) is Some && !(json::json_parsed(contents->0@)->0 is Object),
            Err(_) => contents is Some,
        },
{
    if contents is None {
        let none = Seq::<(Seq<char>, JsonModel)>::empty();
        let root = seq![("hooks"@, JsonModel::Object(none))];
        json::lemma_entry_found(root, 0);
        assert(cleaned_hooks(none) =~= none);
        json::lemma_entry_missing(none, "UserPromptSubmit"@);
        json::lemma_entry_missing(none, "PreToolUse"@);
        let command = hook_command_of(launcher@, platform);
        let handler = own_handler(command, 40, "Codex++ memory retrieval"@);
        lemma_with_hook(none, "UserPromptSubmit"@, ""@, handler);
        reveal_strlit("UserPromptSubmit");
        reveal_strlit("PreToolUse");
        assert("UserPromptSubmit"@.len() == 16 && "PreToolUse"@.len() == 10);
        let first = with_hook(none, "UserPromptSubmit"@, ""@, handler)->0;
        assert(json::lookup(first, "PreToolUse"@) is None);
    }
}

/// A hook that is added for an event stands in a group of its own behind those that are there,
/// and no other event is touched. Where something other than an array stands there, nothing is
/// added.
pub proof fn law_added_hook_stands_last(
    hooks: &mut Vec<(String, Json)>,
    event: &str,
    matcher: &str,
    handler: Json,
    other: Seq<char>,
    r: bool,
)
    requires
        call_ensures(append_hook, (hooks, event, matcher, handler), r),
        other != event@,
    ensures
        ({
            let before = JsonModel::Object(json::entry_models(old(hooks)@));
            let after = JsonModel::Object(json::entry_models(final(hooks)@));
            let groups = after.items_at(event@);
            &&& r <==> before.get(event@) is None || before.get(event@)->0 is Array
            &&& after.get(other) == before.get(other)
            &&& !r ==> after == before
            &&& r ==> groups.len() == before.items_at(event@).len() + 1 && groups.drop_last()
                == before.items_at(event@) && groups.last().text_at("matcher"@) == Some(matcher@)
                && groups.last().items_at("hooks"@) == seq![handler@]
        }),
{
    let before = json::entry_models(old(hooks)@);
    if with_hook(before, event@, matcher@, handler@) is Some {
        lemma_with_hook(before, event@, matcher@, handler@);
        let group = group_of(matcher@, handler@);
        let old_groups = JsonModel::Object(before).items_at(event@);
        assert(old_groups.push(group).drop_last() =~= old_groups);
        reveal_strlit("matcher");
        reveal_strlit("hooks");
        assert("matcher"@.len() == 7 && "hooks"@.len() == 5);
        json::lemma_entry_found(group->Object_0, 0);
        json::lemma_entry_found(group->Object_0, 1);
    }
}

} // verus!
