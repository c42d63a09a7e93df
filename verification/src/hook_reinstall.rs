//! Installing the hooks of Codex++ a second time.
use crate::codex_hooks;
use crate::codex_hooks::{HookFileError, HookInstallPlan};
use crate::json;
use crate::json::{Entries, JsonModel};
use crate::json_order;
use crate::json_order::{tidied, tidied_at, tidied_items};
use crate::platform::Platform;
use vstd::prelude::*;

verus! {

// ---------------------------------------------------------------------------------------
// Documents that say the same are merged alike
// ---------------------------------------------------------------------------------------

/// A document that may be missing, tidied.
pub open spec fn tidied_option(document: Option<JsonModel>) -> Option<JsonModel> {
    match document {
        Some(d) => Some(tidied(d)),
        None => None,
    }
}

/// Whether the same is found, tidied, at every key.
pub open spec fn alike(a: Entries, b: Entries) -> bool {
    forall|key: Seq<char>| tidied_at(a, key) == #[trigger] tidied_at(b, key)
}

proof fn lemma_like_get(a: JsonModel, b: JsonModel, key: Seq<char>)
    requires
        tidied(a) == tidied(b),
    ensures
        tidied_option(a.get(key)) == tidied_option(b.get(key)),
        (a is Object) == (b is Object),
        (a is Array) == (b is Array),
        a is Object ==> alike(a->Object_0, b->Object_0),
        a is Array ==> tidied_items(a->Array_0) == tidied_items(b->Array_0),
        a.text() == b.text(),
{
    if a is Object {
        json_order::lemma_alike(a->Object_0, b->Object_0);
        assert(tidied_at(a->Object_0, key) == tidied_at(b->Object_0, key));
    }
}

proof fn lemma_like_owned(a: JsonModel, b: JsonModel)
    requires
        tidied(a) == tidied(b),
    ensures
        codex_hooks::is_owned_handler(a) == codex_hooks::is_owned_handler(b),
{
    lemma_like_get(a, b, "command"@);
    if let (Some(x), Some(y)) = (a.get("command"@), b.get("command"@)) {
        lemma_like_get(x, y, "command"@);
    }
}

/// Equal lists of tidied documents have equal fronts and equal last items.
proof fn lemma_like_last(a: Seq<JsonModel>, b: Seq<JsonModel>)
    requires
        tidied_items(a) == tidied_items(b),
        a.len() > 0,
    ensures
        b.len() == a.len(),
        tidied_items(a.drop_last()) == tidied_items(b.drop_last()),
        tidied(a.last()) == tidied(b.last()),
{
    assert(tidied_items(a).len() == a.len() && tidied_items(b).len() == b.len());
    assert forall|i: int| 0 <= i < a.len() implies tidied(#[trigger] a[i]) == tidied(b[i]) by {
        assert(tidied_items(a)[i] == tidied_items(b)[i]);
    }
    assert(tidied_items(a.drop_last()) =~= tidied_items(b.drop_last())) by {
        assert forall|i: int| 0 <= i < a.len() - 1 implies #[trigger] tidied_items(
            a.drop_last(),
        )[i] == tidied_items(b.drop_last())[i] by {
            assert(a.drop_last()[i] == a[i] && b.drop_last()[i] == b[i]);
            assert(tidied(a[i]) == tidied(b[i]));
        }
    }
    assert(tidied(a[a.len() - 1]) == tidied(b[b.len() - 1]));
}

proof fn lemma_like_push(a: Seq<JsonModel>, b: Seq<JsonModel>, x: JsonModel, y: JsonModel)
    requires
        tidied_items(a) == tidied_items(b),
        tidied(x) == tidied(y),
    ensures
        tidied_items(a.push(x)) == tidied_items(b.push(y)),
{
    assert(tidied_items(a).len() == a.len() && tidied_items(b).len() == b.len());
    assert(tidied_items(a.push(x)) =~= tidied_items(a).push(tidied(x)));
    assert(tidied_items(b.push(y)) =~= tidied_items(b).push(tidied(y)));
}

proof fn lemma_like_users(a: Seq<JsonModel>, b: Seq<JsonModel>)
    requires
        tidied_items(a) == tidied_items(b),
    ensures
        a.len() == b.len(),
        tidied_items(codex_hooks::user_handlers(a)) == tidied_items(codex_hooks::user_handlers(b)),
        codex_hooks::user_handlers(a).len() == codex_hooks::user_handlers(b).len(),
    decreases a.len(),
{
    reveal(Seq::filter);
    assert(tidied_items(a).len() == a.len() && tidied_items(b).len() == b.len());
    if a.len() > 0 {
        lemma_like_last(a, b);
        let fa = a.drop_last();
        let fb = b.drop_last();
        lemma_like_users(fa, fb);
        lemma_like_owned(a.last(), b.last());
        lemma_like_push(
            codex_hooks::user_handlers(fa),
            codex_hooks::user_handlers(fb),
            a.last(),
            b.last(),
        );
    } else {
        assert(a =~= b);
    }
}

proof fn lemma_like_with_entry(
    a: Entries,
    b: Entries,
    key: Seq<char>,
    x: JsonModel,
    y: JsonModel,
)
    requires
        alike(a, b),
        tidied(x) == tidied(y),
    ensures
        alike(json::with_entry(a, key, x), json::with_entry(b, key, y)),
        tidied(JsonModel::Object(json::with_entry(a, key, x))) == tidied(
            JsonModel::Object(json::with_entry(b, key, y)),
        ),
{
    let wa = json::with_entry(a, key, x);
    let wb = json::with_entry(b, key, y);
    json::lemma_with_entry(a, key, x);
    json::lemma_with_entry(b, key, y);
    assert forall|q: Seq<char>| tidied_at(wa, q) == #[trigger] tidied_at(wb, q) by {
        if q != key {
            assert(json::lookup(wa, q) == json::lookup(a, q));
            assert(json::lookup(wb, q) == json::lookup(b, q));
            assert(tidied_at(a, q) == tidied_at(b, q));
        }
    }
    json_order::lemma_alike(wa, wb);
}

proof fn lemma_like_group(a: JsonModel, b: JsonModel)
    requires
        tidied(a) == tidied(b),
    ensures
        tidied_option(codex_hooks::cleaned_group(a)) == tidied_option(codex_hooks::cleaned_group(b)),
        codex_hooks::owned_in_group(a) == codex_hooks::owned_in_group(b),
{
    lemma_like_get(a, b, "hooks"@);
    if let (Some(x), Some(y)) = (a.get("hooks"@), b.get("hooks"@)) {
        lemma_like_get(x, y, "hooks"@);
        if x is Array {
            lemma_like_users(x->Array_0, y->Array_0);
            let ux = codex_hooks::user_handlers(x->Array_0);
            let uy = codex_hooks::user_handlers(y->Array_0);
            lemma_like_with_entry(
                a->Object_0,
                b->Object_0,
                "hooks"@,
                JsonModel::Array(ux),
                JsonModel::Array(uy),
            );
        }
    }
}

proof fn lemma_like_groups(a: Seq<JsonModel>, b: Seq<JsonModel>)
    requires
        tidied_items(a) == tidied_items(b),
    ensures
        tidied_items(codex_hooks::cleaned_groups(a)) == tidied_items(codex_hooks::cleaned_groups(b)),
        codex_hooks::cleaned_groups(a).len() == codex_hooks::cleaned_groups(b).len(),
        codex_hooks::owned_in_groups(a) == codex_hooks::owned_in_groups(b),
    decreases a.len(),
{
    assert(tidied_items(a).len() == a.len() && tidied_items(b).len() == b.len());
    if a.len() > 0 {
        lemma_like_last(a, b);
        let ca = codex_hooks::cleaned_groups(a.drop_last());
        let cb = codex_hooks::cleaned_groups(b.drop_last());
        lemma_like_groups(a.drop_last(), b.drop_last());
        lemma_like_group(a.last(), b.last());
        if let (Some(x), Some(y)) = (
            codex_hooks::cleaned_group(a.last()),
            codex_hooks::cleaned_group(b.last()),
        ) {
            lemma_like_push(ca, cb, x, y);
        }
    } else {
        assert(a =~= b);
    }
}

proof fn lemma_like_event(a: JsonModel, b: JsonModel)
    requires
        tidied(a) == tidied(b),
    ensures
        tidied_option(codex_hooks::cleaned_event(a)) == tidied_option(codex_hooks::cleaned_event(b)),
        codex_hooks::owned_in_event(a) == codex_hooks::owned_in_event(b),
{
    lemma_like_get(a, b, "hooks"@);
    if a is Array {
        lemma_like_groups(a->Array_0, b->Array_0);
    }
}

proof fn lemma_like_cleaned(a: Entries, b: Entries)
    requires
        json::distinct_keys(a),
        json::distinct_keys(b),
        alike(a, b),
    ensures
        alike(codex_hooks::cleaned_hooks(a), codex_hooks::cleaned_hooks(b)),
{
    let ca = codex_hooks::cleaned_hooks(a);
    let cb = codex_hooks::cleaned_hooks(b);
    assert forall|key: Seq<char>| tidied_at(ca, key) == #[trigger] tidied_at(cb, key) by {
        codex_hooks::lemma_lookup_cleaned(a, key);
        codex_hooks::lemma_lookup_cleaned(b, key);
        assert(tidied_at(a, key) == tidied_at(b, key));
        if let (Some(x), Some(y)) = (json::lookup(a, key), json::lookup(b, key)) {
            lemma_like_event(x, y);
        }
    }
}

proof fn lemma_like_with_hook(
    a: Entries,
    b: Entries,
    event: Seq<char>,
    matcher: Seq<char>,
    handler: JsonModel,
)
    requires
        alike(a, b),
    ensures
        ({
            let wa = codex_hooks::with_hook(a, event, matcher, handler);
            let wb = codex_hooks::with_hook(b, event, matcher, handler);
            &&& (wa is Some) == (wb is Some)
            &&& wa is Some ==> alike(wa->0, wb->0)
        }),
{
    let group = codex_hooks::group_of(matcher, handler);
    assert(tidied_at(a, event) == tidied_at(b, event));
    match (json::lookup(a, event), json::lookup(b, event)) {
        (None, None) => {
            let value = JsonModel::Array(seq![group]);
            let wa = a.push((event, value));
            let wb = b.push((event, value));
            assert forall|q: Seq<char>| tidied_at(wa, q) == #[trigger] tidied_at(wb, q) by {
                json::lemma_lookup_push(a, event, value, q);
                json::lemma_lookup_push(b, event, value, q);
                assert(tidied_at(a, q) == tidied_at(b, q));
            }
        },
        (Some(x), Some(y)) => {
            lemma_like_get(x, y, event);
            if x is Array {
                lemma_like_push(x->Array_0, y->Array_0, group, group);
                lemma_like_with_entry(
                    a,
                    b,
                    event,
                    JsonModel::Array(x->Array_0.push(group)),
                    JsonModel::Array(y->Array_0.push(group)),
                );
            }
        },
        _ => {},
    }
}

proof fn lemma_like_installed(a: Entries, b: Entries, launcher: Seq<char>, platform: Platform)
    requires
        alike(a, b),
    ensures
        ({
            let ia = codex_hooks::installed_hooks(a, launcher, platform);
            let ib = codex_hooks::installed_hooks(b, launcher, platform);
            &&& (ia is Ok) == (ib is Ok)
            &&& ia is Ok ==> alike(ia->Ok_0, ib->Ok_0)
        }),
{
    let command = codex_hooks::hook_command_of(launcher, platform);
    let prompt = codex_hooks::own_handler(command, 40, "Codex++ memory retrieval"@);
    lemma_like_with_hook(a, b, "UserPromptSubmit"@, ""@, prompt);
    let first_a = codex_hooks::with_hook(a, "UserPromptSubmit"@, ""@, prompt);
    let first_b = codex_hooks::with_hook(b, "UserPromptSubmit"@, ""@, prompt);
    if first_a is Some && platform == Platform::Windows {
        let tool = codex_hooks::own_handler(command, 10, "Codex++ AI shell selection"@);
        lemma_like_with_hook(first_a->0, first_b->0, "PreToolUse"@, "Bash"@, tool);
    }
}

/// The hooks of a document, tidied or not, are alike.
proof fn lemma_like_hooks_of(a: JsonModel, b: JsonModel)
    requires
        tidied(a) == tidied(b),
        codex_hooks::hooks_of(a) is Ok,
    ensures
        codex_hooks::hooks_of(b) is Ok,
        alike(codex_hooks::hooks_of(a)->Ok_0, codex_hooks::hooks_of(b)->Ok_0),
        alike(a->Object_0, b->Object_0),
        b is Object,
{
    lemma_like_get(a, b, "hooks"@);
    if let (Some(x), Some(y)) = (a.get("hooks"@), b.get("hooks"@)) {
        lemma_like_get(x, y, "hooks"@);
    }
}

/// Documents that say the same are merged to documents that say the same.
proof fn lemma_like_merged(
    a: JsonModel,
    b: JsonModel,
    enabled: bool,
    launcher: Seq<char>,
    platform: Platform,
)
    requires
        tidied(a) == tidied(b),
        codex_hooks::merged_document(a, enabled, launcher, platform) is Ok,
        json::distinct_keys(codex_hooks::hooks_of(a)->Ok_0),
        json::distinct_keys(codex_hooks::hooks_of(b)->Ok_0),
    ensures
        codex_hooks::merged_document(b, enabled, launcher, platform) is Ok,
        tidied(codex_hooks::merged_document(a, enabled, launcher, platform)->Ok_0) == tidied(
            codex_hooks::merged_document(b, enabled, launcher, platform)->Ok_0,
        ),
{
    lemma_like_hooks_of(a, b);
    let ha = codex_hooks::cleaned_hooks(codex_hooks::hooks_of(a)->Ok_0);
    let hb = codex_hooks::cleaned_hooks(codex_hooks::hooks_of(b)->Ok_0);
    lemma_like_cleaned(codex_hooks::hooks_of(a)->Ok_0, codex_hooks::hooks_of(b)->Ok_0);
    lemma_like_installed(ha, hb, launcher, platform);
    let na = if enabled {
        codex_hooks::installed_hooks(ha, launcher, platform)->Ok_0
    } else {
        ha
    };
    let nb = if enabled {
        codex_hooks::installed_hooks(hb, launcher, platform)->Ok_0
    } else {
        hb
    };
    json_order::lemma_alike(na, nb);
    lemma_like_with_entry(
        a->Object_0,
        b->Object_0,
        "hooks"@,
        JsonModel::Object(na),
        JsonModel::Object(nb),
    );
}

// ---------------------------------------------------------------------------------------
// What a merge brings into a document
// ---------------------------------------------------------------------------------------

/// Whether every number in a document is an integer, and no more than `depth` arrays and objects
/// stand in each other.
pub open spec fn fits(document: JsonModel, depth: nat) -> bool {
    json_order::is_whole(document) && json_order::nests(document, depth)
}

pub open spec fn items_fit(items: Seq<JsonModel>, depth: nat) -> bool {
    forall|i: int| 0 <= i < items.len() ==> fits(#[trigger] items[i], depth)
}

pub open spec fn values_fit(entries: Entries, depth: nat) -> bool {
    forall|i: int| 0 <= i < entries.len() ==> fits((#[trigger] entries[i]).1, depth)
}

/// An array fits where its items do, an object where its values do.
proof fn lemma_fits(document: JsonModel, depth: nat)
    requires
        depth > 0,
    ensures
        document matches JsonModel::Array(items) ==> fits(document, depth) == items_fit(
            items,
            (depth - 1) as nat,
        ),
        document matches JsonModel::Object(entries) ==> fits(document, depth) == values_fit(
            entries,
            (depth - 1) as nat,
        ),
{
    match document {
        JsonModel::Array(items) => {
            if fits(document, depth) {
                assert(items_fit(items, (depth - 1) as nat));
            }
            if items_fit(items, (depth - 1) as nat) {
                assert forall|i: int| 0 <= i < items.len() implies json_order::is_whole(
                    #[trigger] items[i],
                ) && json_order::nests(items[i], (depth - 1) as nat) by {
                    assert(fits(items[i], (depth - 1) as nat));
                }
            }
        },
        JsonModel::Object(entries) => {
            if fits(document, depth) {
                assert(values_fit(entries, (depth - 1) as nat));
            }
            if values_fit(entries, (depth - 1) as nat) {
                assert forall|i: int| 0 <= i < entries.len() implies json_order::is_whole(
                    (#[trigger] entries[i]).1,
                ) && json_order::nests(entries[i].1, (depth - 1) as nat) by {
                    assert(fits(entries[i].1, (depth - 1) as nat));
                }
            }
        },
        _ => {},
    }
}

proof fn lemma_users_fit(handlers: Seq<JsonModel>, depth: nat)
    requires
        items_fit(handlers, depth),
    ensures
        items_fit(codex_hooks::user_handlers(handlers), depth),
    decreases handlers.len(),
{
    reveal(Seq::filter);
    if handlers.len() > 0 {
        let front = handlers.drop_last();
        assert forall|i: int| 0 <= i < front.len() implies fits(#[trigger] front[i], depth) by {
            assert(front[i] == handlers[i]);
        }
        lemma_users_fit(front, depth);
        assert(fits(handlers[handlers.len() - 1], depth));
    }
}

proof fn lemma_with_entry_fits(entries: Entries, key: Seq<char>, value: JsonModel, depth: nat)
    requires
        values_fit(entries, depth),
        fits(value, depth),
    ensures
        values_fit(json::with_entry(entries, key, value), depth),
{
    json::lemma_key_index(entries, key);
    let changed = json::with_entry(entries, key, value);
    assert forall|i: int| 0 <= i < changed.len() implies fits((#[trigger] changed[i]).1, depth) by {
        if i < entries.len() && changed[i] != (key, value) {
            assert(changed[i] == entries[i]);
        }
    }
}

proof fn lemma_group_fits(group: JsonModel, depth: nat)
    requires
        fits(group, depth),
        depth >= 2,
    ensures
        codex_hooks::cleaned_group(group) matches Some(g) ==> fits(g, depth),
{
    if let Some(JsonModel::Array(handlers)) = group.get("hooks"@) {
        let entries = group->Object_0;
        lemma_fits(group, depth);
        json::lemma_key_index(entries, "hooks"@);
        let i = json::key_index(entries, "hooks"@);
        assert(fits(entries[i].1, (depth - 1) as nat));
        lemma_fits(entries[i].1, (depth - 1) as nat);
        lemma_users_fit(handlers, (depth - 2) as nat);
        let value = JsonModel::Array(codex_hooks::user_handlers(handlers));
        lemma_fits(value, (depth - 1) as nat);
        lemma_with_entry_fits(entries, "hooks"@, value, (depth - 1) as nat);
        lemma_fits(JsonModel::Object(json::with_entry(entries, "hooks"@, value)), depth);
    }
}

proof fn lemma_groups_fit(groups: Seq<JsonModel>, depth: nat)
    requires
        items_fit(groups, depth),
        depth >= 2,
    ensures
        items_fit(codex_hooks::cleaned_groups(groups), depth),
    decreases groups.len(),
{
    if groups.len() > 0 {
        let front = groups.drop_last();
        assert forall|i: int| 0 <= i < front.len() implies fits(#[trigger] front[i], depth) by {
            assert(front[i] == groups[i]);
        }
        lemma_groups_fit(front, depth);
        assert(fits(groups[groups.len() - 1], depth));
        lemma_group_fits(groups.last(), depth);
    }
}

/// The keys of what is left after cleaning are some of the keys, each once where each was there once.
proof fn lemma_cleaned_keys(hooks: Entries, depth: nat)
    requires
        depth >= 3,
        json::distinct_keys(hooks),
    ensures
        forall|i: int|
            0 <= i < codex_hooks::cleaned_hooks(hooks).len() ==> exists|k: int|
                0 <= k < hooks.len() && (#[trigger] hooks[k]).0 == (
                #[trigger] codex_hooks::cleaned_hooks(hooks)[i]).0,
        json::distinct_keys(codex_hooks::cleaned_hooks(hooks)),
        values_fit(hooks, depth) ==> values_fit(codex_hooks::cleaned_hooks(hooks), depth),
    decreases hooks.len(),
{
    if hooks.len() > 0 {
        let front = hooks.drop_last();
        let (key, value) = hooks.last();
        let before = codex_hooks::cleaned_hooks(front);
        let after = codex_hooks::cleaned_hooks(hooks);
        assert(hooks[hooks.len() - 1] == (key, value));
        assert forall|i: int, j: int| 0 <= i < j < front.len() implies (#[trigger] front[i]).0 != (
        #[trigger] front[j]).0 by {
            assert(front[i] == hooks[i] && front[j] == hooks[j]);
        }
        lemma_cleaned_keys(front, depth);
        assert forall|i: int| 0 <= i < before.len() implies exists|k: int|
            0 <= k < hooks.len() - 1 && (#[trigger] hooks[k]).0 == (#[trigger] before[i]).0 by {
            let k = choose|k: int| 0 <= k < front.len() && (#[trigger] front[k]).0 == before[i].0;
            assert(hooks[k] == front[k]);
        }
        assert forall|i: int| 0 <= i < after.len() implies exists|k: int|
            0 <= k < hooks.len() && (#[trigger] hooks[k]).0 == (#[trigger] after[i]).0 by {
            if i < before.len() {
                assert(after[i] == before[i]);
            }
        }
        assert forall|i: int, j: int| 0 <= i < j < after.len() implies (#[trigger] after[i]).0 != (
        #[trigger] after[j]).0 by {
            assert(after[i] == before[i]);
            if j < before.len() {
                assert(after[j] == before[j]);
            } else {
                let k = choose|k: int|
                    0 <= k < hooks.len() - 1 && (#[trigger] hooks[k]).0 == before[i].0;
                assert(hooks[k].0 != hooks[hooks.len() - 1].0);
            }
        }
        if values_fit(hooks, depth) {
            assert forall|i: int| 0 <= i < front.len() implies fits(
                (#[trigger] front[i]).1,
                depth,
            ) by {
                assert(front[i] == hooks[i]);
            }
            assert(fits(hooks[hooks.len() - 1].1, depth));
            if let JsonModel::Array(groups) = value {
                lemma_fits(value, depth);
                lemma_groups_fit(groups, (depth - 1) as nat);
                lemma_fits(
                    JsonModel::Array(codex_hooks::cleaned_groups(groups)),
                    depth,
                );
            }
            assert(values_fit(before, depth));
        }
    }
}

proof fn lemma_own_group_fits(
    command: Seq<char>,
    timeout: u64,
    status: Seq<char>,
    matcher: Seq<char>,
    depth: nat,
)
    requires
        depth >= 3,
    ensures
        fits(
            codex_hooks::group_of(matcher, codex_hooks::own_handler(command, timeout, status)),
            depth,
        ),
{
    let handler = codex_hooks::own_handler(command, timeout, status);
    let group = codex_hooks::group_of(matcher, handler);
    let list = JsonModel::Array(seq![handler]);
    lemma_fits(handler, (depth - 2) as nat);
    lemma_fits(list, (depth - 1) as nat);
    lemma_fits(group, depth);
    assert(fits(group->Object_0[1].1, (depth - 1) as nat));
    assert(fits(group->Object_0[0].1, (depth - 1) as nat));
}

/// Adding a group keeps each key once, and brings in no number and no great depth.
proof fn lemma_with_hook_fits(
    hooks: Entries,
    event: Seq<char>,
    matcher: Seq<char>,
    command: Seq<char>,
    timeout: u64,
    status: Seq<char>,
    depth: nat,
)
    requires
        depth >= 4,
        json::distinct_keys(hooks),
    ensures
        codex_hooks::with_hook(
            hooks,
            event,
            matcher,
            codex_hooks::own_handler(command, timeout, status),
        ) matches Some(changed) ==> json::distinct_keys(changed) && (values_fit(hooks, depth)
            ==> values_fit(changed, depth)),
{
    let handler = codex_hooks::own_handler(command, timeout, status);
    let group = codex_hooks::group_of(matcher, handler);
    lemma_own_group_fits(command, timeout, status, matcher, (depth - 1) as nat);
    json::lemma_key_index(hooks, event);
    match json::lookup(hooks, event) {
        None => {
            let value = JsonModel::Array(seq![group]);
            lemma_fits(value, depth);
            let changed = hooks.push((event, value));
            assert forall|i: int, j: int| 0 <= i < j < changed.len() implies (
            #[trigger] changed[i]).0 != (#[trigger] changed[j]).0 by {
                assert(changed[i] == hooks[i]);
                if j < hooks.len() {
                    assert(changed[j] == hooks[j]);
                }
            }
            if values_fit(hooks, depth) {
                assert forall|i: int| 0 <= i < changed.len() implies fits(
                    (#[trigger] changed[i]).1,
                    depth,
                ) by {
                    if i < hooks.len() {
                        assert(changed[i] == hooks[i]);
                    }
                }
            }
        },
        Some(JsonModel::Array(groups)) => {
            let more = groups.push(group);
            let value = JsonModel::Array(more);
            let k = json::key_index(hooks, event);
            let changed = json::with_entry(hooks, event, value);
            assert forall|i: int, j: int| 0 <= i < j < changed.len() implies (
            #[trigger] changed[i]).0 != (#[trigger] changed[j]).0 by {
                assert(changed[i].0 == hooks[i].0 && changed[j].0 == hooks[j].0);
            }
            if values_fit(hooks, depth) {
                assert(fits(hooks[k].1, depth));
                lemma_fits(hooks[k].1, depth);
                assert forall|i: int| 0 <= i < more.len() implies fits(
                    #[trigger] more[i],
                    (depth - 1) as nat,
                ) by {
                    if i < groups.len() {
                        assert(more[i] == groups[i]);
                    }
                }
                lemma_fits(value, depth);
                lemma_with_entry_fits(hooks, event, value, depth);
            }
        },
        Some(_) => {},
    }
}

/// The hooks of a merged document have each key once, and the document can be read back where the
/// one that was merged can.
proof fn lemma_merged_fits(
    root: JsonModel,
    enabled: bool,
    launcher: Seq<char>,
    platform: Platform,
    depth: nat,
)
    requires
        codex_hooks::merged_document(root, enabled, launcher, platform) is Ok,
        json_order::is_tidy(root),
        depth >= 6,
    ensures
        ({
            let merged = codex_hooks::merged_document(root, enabled, launcher, platform)->Ok_0;
            &&& json::distinct_keys(codex_hooks::hooks_of(merged)->Ok_0)
            &&& fits(root, depth) ==> fits(merged, depth)
        }),
{
    codex_hooks::lemma_merged_root(root, enabled, launcher, platform);
    let entries = root->Object_0;
    let hooks = codex_hooks::hooks_of(root)->Ok_0;
    let inner = (depth - 2) as nat;
    json::lemma_key_index(entries, "hooks"@);
    let k = json::key_index(entries, "hooks"@);
    lemma_fits(root, depth);
    if k < entries.len() {
        assert(json_order::is_tidy(entries[k].1));
        if fits(root, depth) {
            assert(fits(entries[k].1, (depth - 1) as nat));
            lemma_fits(entries[k].1, (depth - 1) as nat);
        }
    }
    assert(json::distinct_keys(hooks));
    assert(fits(root, depth) ==> values_fit(hooks, inner));
    lemma_cleaned_keys(hooks, inner);
    let clean = codex_hooks::cleaned_hooks(hooks);
    let command = codex_hooks::hook_command_of(launcher, platform);
    let status = "Codex++ memory retrieval"@;
    lemma_with_hook_fits(clean, "UserPromptSubmit"@, ""@, command, 40, status, inner);
    let first = codex_hooks::with_hook(
        clean,
        "UserPromptSubmit"@,
        ""@,
        codex_hooks::own_handler(command, 40, status),
    );
    if enabled && first is Some && platform == Platform::Windows {
        lemma_with_hook_fits(
            first->0,
            "PreToolUse"@,
            "Bash"@,
            command,
            10,
            "Codex++ AI shell selection"@,
            inner,
        );
    }
    let new_hooks = if enabled {
        codex_hooks::installed_hooks(clean, launcher, platform)->Ok_0
    } else {
        clean
    };
    let value = JsonModel::Object(new_hooks);
    if fits(root, depth) {
        lemma_fits(value, (depth - 1) as nat);
        lemma_with_entry_fits(entries, "hooks"@, value, (depth - 1) as nat);
        lemma_fits(JsonModel::Object(json::with_entry(entries, "hooks"@, value)), depth);
    }
}

// ---------------------------------------------------------------------------------------
// Counting
// ---------------------------------------------------------------------------------------

proof fn lemma_owned_put(sorted: Entries, key: Seq<char>, value: JsonModel)
    requires
        forall|i: int| 0 <= i < sorted.len() ==> (#[trigger] sorted[i]).0 != key,
    ensures
        codex_hooks::owned_in_hooks(json_order::put(sorted, key, value))
            == codex_hooks::owned_in_hooks(sorted) + codex_hooks::owned_in_event(value),
    decreases sorted.len(),
{
    let whole = json_order::put(sorted, key, value);
    if sorted.len() == 0 {
        assert(whole.drop_last() =~= sorted);
    } else {
        let front = sorted.drop_last();
        assert(sorted[sorted.len() - 1].0 != key);
        if crate::text::at_most(sorted.last().0, key) {
            assert(whole.drop_last() =~= sorted);
        } else {
            assert forall|i: int| 0 <= i < front.len() implies (#[trigger] front[i]).0 != key by {
                assert(front[i] == sorted[i]);
            }
            lemma_owned_put(front, key, value);
            assert(whole.drop_last() =~= json_order::put(front, key, value));
        }
    }
}

/// Tidying the hooks does not change how many handlers of Codex++ there are.
proof fn lemma_owned_tidied(hooks: Entries)
    requires
        json::distinct_keys(hooks),
    ensures
        codex_hooks::owned_in_hooks(json_order::in_order(json_order::tidied_values(hooks)))
            == codex_hooks::owned_in_hooks(hooks),
    decreases hooks.len(),
{
    let values = json_order::tidied_values(hooks);
    if hooks.len() > 0 {
        let front = hooks.drop_last();
        let (key, value) = hooks.last();
        let front_values = json_order::tidied_values(front);
        assert(values.drop_last() =~= front_values);
        assert forall|i: int, j: int| 0 <= i < j < front.len() implies (#[trigger] front[i]).0 != (
        #[trigger] front[j]).0 by {
            assert(front[i] == hooks[i] && front[j] == hooks[j]);
        }
        lemma_owned_tidied(front);
        let sorted = json_order::in_order(front_values);
        json_order::lemma_in_order(front_values);
        assert forall|i: int| 0 <= i < sorted.len() implies (#[trigger] sorted[i]).0 != key by {
            assert(front_values.contains(sorted[i]));
            let k = choose|k: int| 0 <= k < front_values.len() && front_values[k] == sorted[i];
            assert(hooks[k].0 != hooks[hooks.len() - 1].0);
        }
        lemma_owned_put(sorted, key, tidied(value));
        assert(values.last() == (key, tidied(value)));
        json_order::lemma_tidied_is_tidy(value);
        json_order::lemma_tidy_stays(tidied(value));
        lemma_like_event(value, tidied(value));
    } else {
        assert(values =~= hooks);
    }
}

// ---------------------------------------------------------------------------------------
// The second installation
// ---------------------------------------------------------------------------------------

/// Installing the hooks a second time, with the same settings and the file as the first
/// installation left it, succeeds, installs as many hooks as the first, removes those that the
/// first installed, and leaves the file byte for byte as it is without writing it. The numbers in
/// the file are integers, or it is read back as it was written all the same.
pub proof fn law_second_install_changes_nothing(
    contents: Option<Seq<char>>,
    enabled: bool,
    launcher: Seq<char>,
    platform: Platform,
    first: Result<HookInstallPlan, HookFileError>,
    second: Result<HookInstallPlan, HookFileError>,
)
    requires
        codex_hooks::is_install_plan(first, contents, enabled, launcher, platform),
        first is Ok,
        json_order::is_whole(codex_hooks::hook_document(contents)->Ok_0) || json::reads_as(
            first->Ok_0.bytes@,
            tidied(
                codex_hooks::merged_document(
                    codex_hooks::hook_document(contents)->Ok_0,
                    enabled,
                    launcher,
                    platform,
                )->Ok_0,
            ),
        ),
        codex_hooks::is_install_plan(
            second,
            Some(vstd::utf8::decode_utf8(first->Ok_0.bytes@)),
            enabled,
            launcher,
            platform,
        ),
    ensures
        second is Ok,
        second->Ok_0.bytes@ == first->Ok_0.bytes@,
        !second->Ok_0.write,
        second->Ok_0.installed == first->Ok_0.installed,
        second->Ok_0.removed == first->Ok_0.installed,
{
    let root = codex_hooks::hook_document(contents)->Ok_0;
    let merged = codex_hooks::merged_document(root, enabled, launcher, platform)->Ok_0;
    let depth = json::MAX_DEPTH as nat;
    lemma_merged_fits(root, enabled, launcher, platform, depth);
    assert(json_order::is_whole(root) ==> fits(merged, depth));
    let held = tidied(merged);
    let bytes = first->Ok_0.bytes@;
    assert(codex_hooks::hook_document(Some(vstd::utf8::decode_utf8(bytes))) == Ok::<
        JsonModel,
        HookFileError,
    >(held));
    json_order::lemma_tidied_is_tidy(merged);
    json_order::lemma_tidy_stays(held);
    codex_hooks::law_merge_is_idempotent(root, enabled, launcher, platform);
    codex_hooks::law_merge_replaces_owned_hooks(root, enabled, launcher, platform);
    lemma_like_hooks_of(merged, held);
    let hooks = codex_hooks::hooks_of(merged)->Ok_0;
    let held_hooks = codex_hooks::hooks_of(held)->Ok_0;
    codex_hooks::lemma_merged_root(root, enabled, launcher, platform);
    json::lemma_with_entry(root->Object_0, "hooks"@, JsonModel::Object(hooks));
    json_order::law_tidied_says_the_same(merged->Object_0, "hooks"@);
    assert(merged.get("hooks"@) == Some(JsonModel::Object(hooks)));
    assert(held.get("hooks"@) == Some(tidied(JsonModel::Object(hooks))));
    assert(held_hooks == json_order::in_order(json_order::tidied_values(hooks)));
    json_order::lemma_in_order(json_order::tidied_values(hooks));
    lemma_owned_tidied(hooks);
    lemma_like_merged(merged, held, enabled, launcher, platform);
    vstd::utf8::decode_utf8_encode_utf8(bytes);
}

} // verus!
