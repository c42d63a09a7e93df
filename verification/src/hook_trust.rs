//! Marking the hooks of Codex++ as trusted.
use crate::codex_hooks;
use crate::codex_hooks::HookTrustResult;
use crate::json;
use crate::json::{Json, JsonModel};
use crate::text;
use vstd::prelude::*;

verus! {

/// The key and the hash of a hook that is to be trusted: one that the user configured, that belongs
/// to Codex++, and that has both.
pub open spec fn trust_entry(hook: JsonModel) -> Option<(Seq<char>, Seq<char>)> {
    if hook.text_at("source"@) == Some("user"@) && codex_hooks::is_owned_handler(hook) {
        match (hook.text_at("key"@), hook.text_at("currentHash"@)) {
            (Some(key), Some(hash)) => if text::is_blank(key) || text::is_blank(hash) {
                None
            } else {
                Some((text::trimmed(key), text::trimmed(hash)))
            },
            _ => None,
        }
    } else {
        None
    }
}

pub open spec fn trust_entries(hooks: Seq<JsonModel>) -> Seq<(Seq<char>, Seq<char>)>
    decreases hooks.len(),
{
    if hooks.len() == 0 {
        Seq::empty()
    } else {
        let before = trust_entries(hooks.drop_last());
        match trust_entry(hooks.last()) {
            Some(e) => before.push(e),
            None => before,
        }
    }
}

/// The hooks to be trusted of all directories, in order.
pub open spec fn listed_entries(directories: Seq<JsonModel>) -> Seq<(Seq<char>, Seq<char>)>
    decreases directories.len(),
{
    if directories.len() == 0 {
        Seq::empty()
    } else {
        listed_entries(directories.drop_last()) + trust_entries(
            directories.last().items_at("hooks"@),
        )
    }
}

/// The hooks to be trusted in a list of hooks as the app server gives it.
pub open spec fn hooks_to_trust(listing: JsonModel) -> Seq<(Seq<char>, Seq<char>)> {
    listed_entries(listing.items_at("data"@))
}

pub open spec fn pairs(list: Seq<(String, String)>) -> Seq<(Seq<char>, Seq<char>)> {
    list.map_values(|p: (String, String)| (p.0@, p.1@))
}

fn trusted_entry(hook: &Json) -> (r: Option<(String, String)>)
    ensures
        match r {
            Some(e) => trust_entry(hook@) == Some((e.0@, e.1@)),
            None => trust_entry(hook@) is None,
        },
{
    let from_user = match hook.text_at("source") {
        Some(source) => text::same_text(source, "user"),
        None => false,
    };
    let owned = match hook.text_at("command") {
        Some(command) => codex_hooks::is_owned_hook_command(command),
        None => false,
    };
    if !from_user || !owned {
        return None;
    }
    match (hook.text_at("key"), hook.text_at("currentHash")) {
        (Some(key), Some(hash)) => {
            let key = text::trim(text::chars_of(key).as_slice());
            let hash = text::trim(text::chars_of(hash).as_slice());
            if key.len() == 0 || hash.len() == 0 {
                None
            } else {
                Some((text::text_of(key.as_slice()), text::text_of(hash.as_slice())))
            }
        },
        _ => None,
    }
}

/// The keys and hashes of the hooks to be trusted.
pub fn select_hooks_to_trust(listing: &Json) -> (r: Vec<(String, String)>)
    ensures
        pairs(r@) == hooks_to_trust(listing@),
{
    let mut r: Vec<(String, String)> = Vec::new();
    match listing.items_at("data") {
        None => {
            assert(pairs(r@) =~= hooks_to_trust(listing@));
            r
        },
        Some(directories) => {
            let ghost model = json::models(directories@);
            for i in 0..directories.len()
                invariant
                    model == json::models(directories@),
                    pairs(r@) == listed_entries(model.take(i as int)),
            {
                assert(model.take(i + 1).drop_last() =~= model.take(i as int));
                assert(model[i as int] == directories@[i as int]@);
                let ghost start = pairs(r@);
                match directories[i].items_at("hooks") {
                    None => {
                        assert(start + trust_entries(Seq::empty()) =~= start);
                    },
                    Some(hooks) => {
                        let ghost inner = json::models(hooks@);
                        assert(start + trust_entries(inner.take(0)) =~= start);
                        for j in 0..hooks.len()
                            invariant
                                inner == json::models(hooks@),
                                pairs(r@) == start + trust_entries(inner.take(j as int)),
                        {
                            assert(inner.take(j + 1).drop_last() =~= inner.take(j as int));
                            assert(inner[j as int] == hooks@[j as int]@);
                            match trusted_entry(&hooks[j]) {
                                Some(e) => {
                                    let ghost before = r@;
                                    r.push(e);
                                    assert(pairs(r@) =~= pairs(before).push((e.0@, e.1@)));
                                    assert(pairs(r@) =~= start + trust_entries(inner.take(j + 1)));
                                },
                                None => {},
                            }
                        }
                        assert(inner.take(hooks@.len() as int) =~= inner);
                    },
                }
            }
            assert(model.take(directories@.len() as int) =~= model);
            r
        },
    }
}

/// A key as one segment of a path of keys in TOML.
pub fn toml_key_segment(key: &str) -> (r: String)
    ensures
        r@ == json::json_quoted(key@),
{
    match json::quoted_text(key) {
        Some(s) => s,
        None => "\"codex-plus\"".to_owned(),
    }
}

/// The edit of the configuration that marks one hook as trusted.
pub open spec fn trust_edit(key: Seq<char>, hash: Seq<char>) -> JsonModel {
    JsonModel::Object(
        seq![
            (
                "keyPath"@,
                JsonModel::Text("hooks.state."@ + json::json_quoted(key) + ".trusted_hash"@),
            ),
            ("value"@, JsonModel::Text(hash)),
            ("mergeStrategy"@, JsonModel::Text("upsert"@)),
        ],
    )
}

/// The request that marks hooks as trusted.
pub open spec fn trust_request(hooks: Seq<(Seq<char>, Seq<char>)>) -> JsonModel {
    JsonModel::Object(
        seq![
            (
                "edits"@,
                JsonModel::Array(
                    hooks.map_values(|h: (Seq<char>, Seq<char>)| trust_edit(h.0, h.1)),
                ),
            ),
            ("reloadUserConfig"@, JsonModel::Bool(true)),
        ],
    )
}

fn make_edit(key: &str, hash: &str) -> (r: Json)
    ensures
        r@ == trust_edit(key@, hash@),
{
    broadcast use json::lemma_view;

    let path = "hooks.state.".to_owned().concat(toml_key_segment(key).as_str()).concat(
        ".trusted_hash",
    );
    let mut fields: Vec<(String, Json)> = Vec::new();
    fields.push(("keyPath".to_owned(), Json::Text(path)));
    fields.push(("value".to_owned(), Json::Text(hash.to_owned())));
    fields.push(("mergeStrategy".to_owned(), Json::Text("upsert".to_owned())));
    assert(json::entry_models(fields@) =~= trust_edit(key@, hash@)->Object_0);
    Json::Object(fields)
}

/// The parameters of the request that marks hooks as trusted.
pub fn make_trust_request(hooks: &Vec<(String, String)>) -> (r: Json)
    ensures
        r@ == trust_request(pairs(hooks@)),
{
    broadcast use json::lemma_view;

    let ghost edits = pairs(hooks@).map_values(|h: (Seq<char>, Seq<char>)| trust_edit(h.0, h.1));
    let mut list: Vec<Json> = Vec::new();
    for i in 0..hooks.len()
        invariant
            edits == pairs(hooks@).map_values(
                |h: (Seq<char>, Seq<char>)| trust_edit(h.0, h.1),
            ),
            json::models(list@) == edits.take(i as int),
    {
        let ghost before = list@;
        let edit = make_edit(hooks[i].0.as_str(), hooks[i].1.as_str());
        list.push(edit);
        assert(edits[i as int] == edit@);
        assert(json::models(list@) =~= json::models(before).push(edit@));
    }
    assert(edits.take(hooks@.len() as int) =~= edits);
    let mut fields: Vec<(String, Json)> = Vec::new();
    fields.push(("edits".to_owned(), Json::Array(list)));
    fields.push(("reloadUserConfig".to_owned(), Json::Bool(true)));
    assert(json::entry_models(fields@) =~= trust_request(pairs(hooks@))->Object_0);
    Json::Object(fields)
}

/// What is done about the hooks in a listing: the parameters of the request that marks those to
/// be trusted, where there are any, and how many there are.
pub fn plan_trust(listing: &Json) -> (r: (Option<Json>, HookTrustResult))
    ensures
        match r.0 {
            Some(request) => hooks_to_trust(listing@).len() > 0 && request@ == trust_request(
                hooks_to_trust(listing@),
            ),
            None => hooks_to_trust(listing@).len() == 0,
        },
        r.1.trusted as nat == hooks_to_trust(listing@).len(),
{
    let hooks = select_hooks_to_trust(listing);
    assert(pairs(hooks@).len() == hooks@.len());
    let result = HookTrustResult { trusted: hooks.len() };
    if hooks.len() == 0 {
        (None, result)
    } else {
        (Some(make_trust_request(&hooks)), result)
    }
}

/// The parameters of the request for the hooks that hold in a directory.
pub open spec fn hook_list_request(directory: Seq<char>) -> JsonModel {
    JsonModel::Object(seq![("cwds"@, JsonModel::Array(seq![JsonModel::Text(directory)]))])
}

/// The parameters of the request for the hooks that hold in a directory.
pub fn make_hook_list_request(directory: &str) -> (r: Json)
    ensures
        r@ == hook_list_request(directory@),
{
    broadcast use json::lemma_view;

    let mut directories: Vec<Json> = Vec::new();
    directories.push(Json::Text(directory.to_owned()));
    assert(json::models(directories@) =~= seq![JsonModel::Text(directory@)]);
    let mut fields: Vec<(String, Json)> = Vec::new();
    fields.push(("cwds".to_owned(), Json::Array(directories)));
    assert(json::entry_models(fields@) =~= hook_list_request(directory@)->Object_0);
    Json::Object(fields)
}

// ---------------------------------------------------------------------------------------
// What trust is asked for
// ---------------------------------------------------------------------------------------

/// Each hook is trusted with its own hash: edit `i` of the request names, in its path, the key of
/// hook `i`, in a quotation that reads back as the key, and carries the hash of hook `i`. There
/// are no other edits, each sets its value whether or not there is one, and the configuration is
/// read again.
pub proof fn law_each_hook_is_trusted_with_its_hash(hooks: Vec<(String, String)>, r: Json)
    requires
        call_ensures(make_trust_request, (&hooks,), r),
    ensures
        r@.items_at("edits"@).len() == hooks@.len(),
        forall|i: int|
            0 <= i < hooks@.len() ==> {
                let edit = #[trigger] r@.items_at("edits"@)[i];
                &&& edit.text_at("keyPath"@) == Some(
                    "hooks.state."@ + json::json_quoted(hooks@[i].0@) + ".trusted_hash"@,
                )
                &&& edit.text_at("value"@) == Some(hooks@[i].1@)
                &&& edit.text_at("mergeStrategy"@) == Some("upsert"@)
            },
        r@.boolean_at("reloadUserConfig"@) == Some(true),
{
    reveal_strlit("keyPath");
    reveal_strlit("value");
    reveal_strlit("mergeStrategy");
    reveal_strlit("edits");
    reveal_strlit("reloadUserConfig");
    assert("keyPath"@.len() == 7 && "value"@.len() == 5 && "mergeStrategy"@.len() == 13);
    assert("edits"@.len() == 5 && "reloadUserConfig"@.len() == 16);
    let given = pairs(hooks@);
    let whole = trust_request(given)->Object_0;
    json::lemma_entry_found(whole, 0);
    json::lemma_entry_found(whole, 1);
    assert forall|i: int| 0 <= i < hooks@.len() implies ({
        let edit = #[trigger] r@.items_at("edits"@)[i];
        &&& edit.text_at("keyPath"@) == Some(
            "hooks.state."@ + json::json_quoted(hooks@[i].0@) + ".trusted_hash"@,
        )
        &&& edit.text_at("value"@) == Some(hooks@[i].1@)
        &&& edit.text_at("mergeStrategy"@) == Some("upsert"@)
    }) by {
        let edit = trust_edit(given[i].0, given[i].1);
        assert(given[i] == (hooks@[i].0@, hooks@[i].1@));
        assert(r@.items_at("edits"@)[i] == edit);
        json::lemma_entry_found(edit->Object_0, 0);
        json::lemma_entry_found(edit->Object_0, 1);
        json::lemma_entry_found(edit->Object_0, 2);
    }
}

/// A hook is trusted where the user configured it, its command is one of Codex++, and it has a
/// key and a hash that are not blank; it is trusted by these two, trimmed.
pub proof fn law_own_hooks_of_the_user_are_trusted(hook: JsonModel)
    ensures
        match trust_entry(hook) {
            Some((key, hash)) => {
                &&& hook.get("source"@) == Some(JsonModel::Text("user"@))
                &&& hook.text_at("command"@) is Some
                &&& codex_hooks::is_owned_command(hook.text_at("command"@)->0)
                &&& hook.text_at("key"@) is Some
                &&& key == text::trimmed(hook.text_at("key"@)->0)
                &&& key.len() > 0
                &&& hook.text_at("currentHash"@) is Some
                &&& hash == text::trimmed(hook.text_at("currentHash"@)->0)
                &&& hash.len() > 0
            },
            None => {
                ||| hook.text_at("source"@) != Some("user"@)
                ||| hook.text_at("command"@) is None
                ||| !codex_hooks::is_owned_command(hook.text_at("command"@)->0)
                ||| hook.text_at("key"@) is None
                ||| text::trimmed(hook.text_at("key"@)->0).len() == 0
                ||| hook.text_at("currentHash"@) is None
                ||| text::trimmed(hook.text_at("currentHash"@)->0).len() == 0
            },
        },
{
}

/// The hooks of several directories are those of one after those of the other, and the hooks of
/// one directory are those that are trusted of its list, in order: none is left out, none comes
/// twice.
pub proof fn law_hooks_are_trusted_in_order(
    a: Seq<JsonModel>,
    b: Seq<JsonModel>,
    hooks: Seq<JsonModel>,
    more: Seq<JsonModel>,
    item: JsonModel,
)
    ensures
        listed_entries(a + b) == listed_entries(a) + listed_entries(b),
        listed_entries(seq![item]) == trust_entries(item.items_at("hooks"@)),
        trust_entries(hooks + more) == trust_entries(hooks) + trust_entries(more),
        trust_entry(item) is None ==> trust_entries(seq![item]).len() == 0,
        trust_entry(item) is Some ==> trust_entries(seq![item]) == seq![trust_entry(item)->0],
    decreases b.len(), more.len(),
{
    assert(seq![item].drop_last() =~= Seq::<JsonModel>::empty());
    assert(listed_entries(seq![item].drop_last()) =~= Seq::empty());
    assert(seq![item].last() == item);
    assert(listed_entries(seq![item]) =~= trust_entries(item.items_at("hooks"@)));
    assert(trust_entries(seq![item].drop_last()) =~= Seq::empty());
    if trust_entry(item) is Some {
        assert(trust_entries(seq![item]) =~= seq![trust_entry(item)->0]);
    }
    if more.len() > 0 {
        assert((hooks + more).drop_last() =~= hooks + more.drop_last());
        law_hooks_are_trusted_in_order(a, b, hooks, more.drop_last(), item);
        assert(trust_entries(hooks + more) =~= trust_entries(hooks) + trust_entries(more));
    } else {
        assert(hooks + more =~= hooks);
        assert(trust_entries(hooks) + trust_entries(more) =~= trust_entries(hooks));
    }
    if b.len() > 0 {
        assert((a + b).drop_last() =~= a + b.drop_last());
        law_hooks_are_trusted_in_order(a, b.drop_last(), hooks, more, item);
        assert(listed_entries(a + b) =~= listed_entries(a) + listed_entries(b));
    } else {
        assert(a + b =~= a);
        assert(listed_entries(a) + listed_entries(b) =~= listed_entries(a));
    }
}

/// The hooks to be trusted are those of the list at `data`, and the hooks that are asked for are
/// those of the one directory that is given.
pub proof fn law_hooks_are_asked_for_by_directory(listing: JsonModel, directory: Seq<char>)
    ensures
        listing.get("data"@) matches Some(JsonModel::Array(directories)) ==> hooks_to_trust(listing)
            == listed_entries(directories),
        !(listing.get("data"@) matches Some(JsonModel::Array(_))) ==> hooks_to_trust(listing).len()
            == 0,
        hook_list_request(directory).items_at("cwds"@) == seq![JsonModel::Text(directory)],
{
    json::lemma_entry_found(hook_list_request(directory)->Object_0, 0);
}

/// Hooks are marked where there are any to be trusted, all of them in one request, and as many
/// are reported.
pub proof fn law_all_trusted_hooks_are_marked(listing: Json, r: (Option<Json>, HookTrustResult))
    requires
        call_ensures(plan_trust, (&listing,), r),
    ensures
        ({
            let hooks = hooks_to_trust(listing@);
            &&& r.1.trusted == hooks.len()
            &&& r.0 is Some <==> hooks.len() > 0
            &&& r.0 is Some ==> r.0->0@.items_at("edits"@).len() == hooks.len()
                && r.0->0@.boolean_at("reloadUserConfig"@) == Some(true) && forall|i: int|
                0 <= i < hooks.len() ==> (#[trigger] r.0->0@.items_at("edits"@)[i]).text_at(
                    "value"@,
                ) == Some(hooks[i].1)
        }),
{
    if r.0 is Some {
        let hooks = hooks_to_trust(listing@);
        reveal_strlit("edits");
        reveal_strlit("reloadUserConfig");
        assert("edits"@.len() == 5 && "reloadUserConfig"@.len() == 16);
        let fields = trust_request(hooks)->Object_0;
        json::lemma_entry_found(fields, 0);
        json::lemma_entry_found(fields, 1);
        let edits = r.0->0@.items_at("edits"@);
        assert forall|i: int| 0 <= i < hooks.len() implies (#[trigger] edits[i]).text_at("value"@)
            == Some(hooks[i].1) by {
            reveal_strlit("keyPath");
            reveal_strlit("value");
            assert("keyPath"@.len() == 7 && "value"@.len() == 5);
            let edit = trust_edit(hooks[i].0, hooks[i].1);
            assert(edits[i] == edit);
            json::lemma_entry_found(edit->Object_0, 1);
        }
    }
}

} // verus!
