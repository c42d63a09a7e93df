//! The one form in which documents that say the same are written: in every object each key once, in
//! the order of the keys.
use crate::json;
use crate::json::{Entries, Json, JsonModel, JsonNumber};
use crate::text;
use vstd::prelude::*;

verus! {

/// Whether the keys of the entries come in their order, each once.
pub open spec fn ascending(entries: Entries) -> bool {
    forall|i: int, j: int|
        0 <= i < j < entries.len() ==> text::at_most(
            (#[trigger] entries[i]).0,
            (#[trigger] entries[j]).0,
        ) && entries[i].0 != entries[j].0
}

/// Entries in order with one more at its place. An entry that has the key already stays.
pub open spec fn put(sorted: Entries, key: Seq<char>, value: JsonModel) -> Entries
    decreases sorted.len(),
{
    if sorted.len() == 0 {
        seq![(key, value)]
    } else if sorted.last().0 == key {
        sorted
    } else if text::at_most(sorted.last().0, key) {
        sorted.push((key, value))
    } else {
        put(sorted.drop_last(), key, value).push(sorted.last())
    }
}

/// The entries in the order of their keys, of those with the same key the first.
pub open spec fn in_order(entries: Entries) -> Entries
    decreases entries.len(),
{
    if entries.len() == 0 {
        entries
    } else {
        put(in_order(entries.drop_last()), entries.last().0, entries.last().1)
    }
}

/// A number in its own form: an integer that is not negative is not held as a negative one.
pub open spec fn tidied_number(n: JsonNumber) -> JsonNumber {
    match n {
        JsonNumber::Negative(i) => if i >= 0 {
            JsonNumber::Unsigned(i as u64)
        } else {
            n
        },
        _ => n,
    }
}

/// The document with the entries of every object in order and every number in its own form.
pub open spec fn tidied(document: JsonModel) -> JsonModel
    decreases document,
{
    match document {
        JsonModel::Number(n) => JsonModel::Number(tidied_number(n)),
        JsonModel::Array(items) => JsonModel::Array(tidied_items(items)),
        JsonModel::Object(entries) => JsonModel::Object(in_order(tidied_values(entries))),
        _ => document,
    }
}

/// A list of documents, each tidied.
pub open spec fn tidied_items(items: Seq<JsonModel>) -> Seq<JsonModel>
    decreases items,
{
    Seq::new(
        items.len(),
        |i: int|
            if 0 <= i < items.len() {
                tidied(items[i])
            } else {
                JsonModel::Null
            },
    )
}

/// The entries, each with its value tidied.
pub open spec fn tidied_values(entries: Entries) -> Entries
    decreases entries,
{
    Seq::new(
        entries.len(),
        |i: int|
            if 0 <= i < entries.len() {
                (entries[i].0, tidied(entries[i].1))
            } else {
                (Seq::<char>::empty(), JsonModel::Null)
            },
    )
}

/// Whether in every object of the document the keys come in order, each once, and every number
/// has its own form.
pub open spec fn is_tidy(document: JsonModel) -> bool
    decreases document,
{
    match document {
        JsonModel::Number(JsonNumber::Negative(n)) => n < 0,
        JsonModel::Array(items) => forall|i: int|
            0 <= i < items.len() ==> is_tidy(#[trigger] items[i]),
        JsonModel::Object(entries) => ascending(entries) && forall|i: int|
            0 <= i < entries.len() ==> is_tidy((#[trigger] entries[i]).1),
        _ => true,
    }
}

/// Whether every number of the document is an integer.
pub open spec fn is_whole(document: JsonModel) -> bool
    decreases document,
{
    match document {
        JsonModel::Number(JsonNumber::Other(_)) => false,
        JsonModel::Array(items) => forall|i: int|
            0 <= i < items.len() ==> is_whole(#[trigger] items[i]),
        JsonModel::Object(entries) => forall|i: int|
            0 <= i < entries.len() ==> is_whole((#[trigger] entries[i]).1),
        _ => true,
    }
}

/// Whether no more than `depth` arrays and objects stand in each other.
pub open spec fn nests(document: JsonModel, depth: nat) -> bool
    decreases document,
{
    match document {
        JsonModel::Array(items) => depth > 0 && forall|i: int|
            0 <= i < items.len() ==> nests(#[trigger] items[i], (depth - 1) as nat),
        JsonModel::Object(entries) => depth > 0 && forall|i: int|
            0 <= i < entries.len() ==> nests((#[trigger] entries[i]).1, (depth - 1) as nat),
        _ => true,
    }
}

fn put_entry(sorted: &mut Vec<(String, Json)>, key: String, value: Json)
    ensures
        json::entry_models(final(sorted)@) == put(
            json::entry_models(old(sorted)@),
            key@,
            value@,
        ),
{
    let ghost all = json::entry_models(sorted@);
    let ghost model = (key@, value@);
    let chars = text::chars_of(key.as_str());
    let mut k: usize = sorted.len();
    assert(all.take(k as int) =~= all);
    assert(put(all, key@, value@) + all.skip(k as int) =~= put(all, key@, value@));
    while k > 0
        invariant
            k <= sorted@.len(),
            all == json::entry_models(sorted@),
            sorted@ == old(sorted)@,
            chars@ == key@,
            model == (key@, value@),
            put(all.take(k as int), key@, value@) + all.skip(k as int) == put(all, key@, value@),
        ensures
            k <= sorted@.len(),
            all == json::entry_models(sorted@),
            sorted@ == old(sorted)@,
            model == (key@, value@),
            all.take(k as int).push(model) + all.skip(k as int) == put(all, key@, value@),
        decreases k,
    {
        let ghost front = all.take(k as int);
        assert(front.last() == (sorted@[k - 1].0@, sorted@[k - 1].1@));
        let before = text::chars_of(sorted[k - 1].0.as_str());
        if text::same_chars(before.as_slice(), chars.as_slice()) {
            assert(front + all.skip(k as int) =~= all);
            return ;
        }
        if text::is_at_most(before.as_slice(), chars.as_slice()) {
            break;
        }
        proof {
            assert(front.drop_last() =~= all.take(k - 1));
            let rest = put(all.take(k - 1), key@, value@);
            assert(rest.push(front.last()) + all.skip(k as int) =~= rest + all.skip(k - 1));
        }
        k = k - 1;
        assert(k == 0 ==> all.take(0).push(model) =~= seq![model]);
    }
    sorted.insert(k, (key, value));
    assert(json::entry_models(sorted@) =~= all.take(k as int).push(model) + all.skip(k as int));
}

/// Tidies a document.
pub fn tidy(document: &Json) -> (r: Json)
    ensures
        r@ == tidied(document@),
    decreases document,
{
    broadcast use json::lemma_view;

    match document {
        Json::Number(JsonNumber::Negative(n)) => if *n >= 0 {
            Json::Number(JsonNumber::Unsigned(*n as u64))
        } else {
            Json::Number(JsonNumber::Negative(*n))
        },
        Json::Array(items) => {
            let ghost model = tidied_items(json::models(items@));
            let mut r: Vec<Json> = Vec::new();
            for i in 0..items.len()
                invariant
                    model == tidied_items(json::models(items@)),
                    json::models(r@) == model.take(i as int),
                    decreases_to!(document => items@),
            {
                let item = tidy(&items[i]);
                let ghost before = r@;
                r.push(item);
                assert(json::models(items@)[i as int] == items@[i as int]@);
                assert(json::models(r@) =~= json::models(before).push(item@));
            }
            assert(model.take(items@.len() as int) =~= model);
            Json::Array(r)
        },
        Json::Object(entries) => {
            let ghost model = tidied_values(json::entry_models(entries@));
            let mut r: Vec<(String, Json)> = Vec::new();
            assert(json::entry_models(r@) =~= in_order(model.take(0)));
            for i in 0..entries.len()
                invariant
                    model == tidied_values(json::entry_models(entries@)),
                    json::entry_models(r@) == in_order(model.take(i as int)),
                    decreases_to!(document => entries@),
            {
                let value = tidy(&entries[i].1);
                let key = entries[i].0.clone();
                assert(json::entry_models(entries@)[i as int] == (
                    entries@[i as int].0@,
                    entries@[i as int].1@,
                ));
                assert(model[i as int] == (key@, value@));
                assert(model.take(i + 1).drop_last() =~= model.take(i as int));
                put_entry(&mut r, key, value);
            }
            assert(model.take(entries@.len() as int) =~= model);
            Json::Object(r)
        },
        _ => document.clone(),
    }
}

// ---------------------------------------------------------------------------------------
// What tidying keeps
// ---------------------------------------------------------------------------------------

/// What is found at a key once an entry was put at its place.
pub open spec fn found_after(before: Option<JsonModel>, same_key: bool, value: JsonModel) -> Option<
    JsonModel,
> {
    match before {
        Some(v) => Some(v),
        None => if same_key {
            Some(value)
        } else {
            None
        },
    }
}

proof fn lemma_ascending_front(entries: Entries)
    requires
        ascending(entries),
        entries.len() > 0,
    ensures
        ascending(entries.drop_last()),
        forall|i: int| 0 <= i < entries.len() - 1 ==> (#[trigger] entries[i]).0 != entries.last().0,
{
    let front = entries.drop_last();
    assert forall|i: int, j: int| 0 <= i < j < front.len() implies text::at_most(
        (#[trigger] front[i]).0,
        (#[trigger] front[j]).0,
    ) && front[i].0 != front[j].0 by {
        assert(front[i] == entries[i] && front[j] == entries[j]);
    }
    assert forall|i: int| 0 <= i < entries.len() - 1 implies (#[trigger] entries[i]).0
        != entries.last().0 by {
        assert(entries[i].0 != entries[entries.len() - 1].0);
    }
}

/// Entries in order stay in order when one more comes after all of them.
proof fn lemma_ascending_push(entries: Entries, key: Seq<char>, value: JsonModel)
    requires
        ascending(entries),
        forall|i: int|
            0 <= i < entries.len() ==> text::at_most((#[trigger] entries[i]).0, key)
                && entries[i].0 != key,
    ensures
        ascending(entries.push((key, value))),
{
    let more = entries.push((key, value));
    assert forall|i: int, j: int| 0 <= i < j < more.len() implies text::at_most(
        (#[trigger] more[i]).0,
        (#[trigger] more[j]).0,
    ) && more[i].0 != more[j].0 by {
        assert(more[i] == entries[i]);
        if j < entries.len() {
            assert(more[j] == entries[j]);
        }
    }
}

/// An entry that was put at its place is found; the entries stay in order, and all else is found as
/// before.
proof fn lemma_put(sorted: Entries, key: Seq<char>, value: JsonModel)
    requires
        ascending(sorted),
    ensures
        ascending(put(sorted, key, value)),
        forall|q: Seq<char>| #[trigger]
            json::lookup(put(sorted, key, value), q) == found_after(
                json::lookup(sorted, q),
                q == key,
                value,
            ),
        forall|i: int|
            0 <= i < put(sorted, key, value).len() ==> (#[trigger] put(sorted, key, value)[i]) == (
                key,
                value,
            ) || sorted.contains(put(sorted, key, value)[i]),
    decreases sorted.len(),
{
    let whole = put(sorted, key, value);
    if sorted.len() == 0 {
        assert(whole =~= sorted.push((key, value)));
        assert forall|q: Seq<char>| #[trigger] json::lookup(whole, q) == found_after(
            json::lookup(sorted, q),
            q == key,
            value,
        ) by {
            json::lemma_lookup_push(sorted, key, value, q);
        }
    } else if sorted.last().0 == key {
        let front = sorted.drop_last();
        assert(sorted =~= front.push(sorted.last()));
        assert forall|q: Seq<char>| #[trigger] json::lookup(whole, q) == found_after(
            json::lookup(sorted, q),
            q == key,
            value,
        ) by {
            json::lemma_lookup_push(front, key, sorted.last().1, q);
        }
        assert forall|i: int| 0 <= i < whole.len() implies (#[trigger] whole[i]) == (key, value)
            || sorted.contains(whole[i]) by {
            assert(sorted[i] == whole[i]);
        }
    } else if text::at_most(sorted.last().0, key) {
        assert forall|i: int| 0 <= i < sorted.len() implies text::at_most(
            (#[trigger] sorted[i]).0,
            key,
        ) && sorted[i].0 != key by {
            let last = sorted[sorted.len() - 1].0;
            if i < sorted.len() - 1 {
                assert(text::at_most(sorted[i].0, last) && sorted[i].0 != last);
                text::lemma_at_most_transitive(sorted[i].0, last, key);
                if sorted[i].0 == key {
                    text::lemma_at_most_antisymmetric(last, key);
                }
            }
        }
        lemma_ascending_push(sorted, key, value);
        assert forall|q: Seq<char>| #[trigger] json::lookup(whole, q) == found_after(
            json::lookup(sorted, q),
            q == key,
            value,
        ) by {
            json::lemma_lookup_push(sorted, key, value, q);
        }
        assert forall|i: int| 0 <= i < whole.len() implies (#[trigger] whole[i]) == (key, value)
            || sorted.contains(whole[i]) by {
            if i < sorted.len() {
                assert(sorted[i] == whole[i]);
            }
        }
    } else {
        let front = sorted.drop_last();
        let last = sorted.last();
        let rest = put(front, key, value);
        lemma_ascending_front(sorted);
        lemma_put(front, key, value);
        text::lemma_at_most_total(last.0, key);
        assert(sorted =~= front.push(last));
        assert forall|i: int| 0 <= i < rest.len() implies text::at_most(
            (#[trigger] rest[i]).0,
            last.0,
        ) && rest[i].0 != last.0 by {
            if rest[i] != (key, value) {
                let k = choose|k: int| 0 <= k < front.len() && front[k] == rest[i];
                assert(sorted[k] == front[k]);
                assert(text::at_most(sorted[k].0, sorted[sorted.len() - 1].0));
            }
        }
        lemma_ascending_push(rest, last.0, last.1);
        assert forall|q: Seq<char>| #[trigger] json::lookup(whole, q) == found_after(
            json::lookup(sorted, q),
            q == key,
            value,
        ) by {
            json::lemma_lookup_push(rest, last.0, last.1, q);
            json::lemma_lookup_push(front, last.0, last.1, q);
            assert(json::lookup(rest, q) == found_after(json::lookup(front, q), q == key, value));
        }
        assert forall|i: int| 0 <= i < whole.len() implies (#[trigger] whole[i]) == (key, value)
            || sorted.contains(whole[i]) by {
            if i < rest.len() {
                assert(whole[i] == rest[i]);
                if rest[i] != (key, value) {
                    let k = choose|k: int| 0 <= k < front.len() && front[k] == rest[i];
                    assert(sorted[k] == front[k]);
                }
            } else {
                assert(sorted[sorted.len() - 1] == whole[i]);
            }
        }
    }
}

/// The entries in order are some of the entries, and the same is found at every key.
pub proof fn lemma_in_order(entries: Entries)
    ensures
        ascending(in_order(entries)),
        forall|q: Seq<char>| #[trigger]
            json::lookup(in_order(entries), q) == json::lookup(entries, q),
        forall|i: int|
            0 <= i < in_order(entries).len() ==> entries.contains(#[trigger] in_order(entries)[i]),
    decreases entries.len(),
{
    if entries.len() > 0 {
        let front = entries.drop_last();
        let (key, value) = entries.last();
        lemma_in_order(front);
        lemma_put(in_order(front), key, value);
        assert(entries =~= front.push((key, value)));
        assert forall|q: Seq<char>| #[trigger]
            json::lookup(in_order(entries), q) == json::lookup(entries, q) by {
            json::lemma_lookup_push(front, key, value, q);
            assert(json::lookup(in_order(front), q) == json::lookup(front, q));
        }
        assert forall|i: int| 0 <= i < in_order(entries).len() implies entries.contains(
            #[trigger] in_order(entries)[i],
        ) by {
            let e = in_order(entries)[i];
            if e == (key, value) {
                assert(entries[entries.len() - 1] == e);
            } else {
                let k = choose|k: int| 0 <= k < in_order(front).len() && in_order(front)[k] == e;
                assert(front.contains(in_order(front)[k]));
                let m = choose|m: int| 0 <= m < front.len() && front[m] == e;
                assert(entries[m] == e);
            }
        }
    }
}

/// Entries in order are not changed by being put in order.
proof fn lemma_in_order_stays(entries: Entries)
    requires
        ascending(entries),
    ensures
        in_order(entries) == entries,
    decreases entries.len(),
{
    if entries.len() > 0 {
        let front = entries.drop_last();
        lemma_ascending_front(entries);
        lemma_in_order_stays(front);
        assert(entries =~= front.push(entries.last()));
        if front.len() > 0 {
            assert(front.last() == entries[entries.len() - 2]);
            assert(text::at_most(entries[entries.len() - 2].0, entries[entries.len() - 1].0));
        }
    }
}

/// An entry in order is found at its key.
proof fn lemma_found(entries: Entries, i: int)
    requires
        ascending(entries),
        0 <= i < entries.len(),
    ensures
        json::lookup(entries, entries[i].0) == Some(entries[i].1),
{
    assert forall|j: int| 0 <= j < i implies (#[trigger] entries[j]).0 != entries[i].0 by {}
    json::lemma_key_index_is(entries, entries[i].0, i);
}

/// Where the key that comes last in one list is found in another list, and the other way round, both
/// have it last.
proof fn lemma_same_last(a: Entries, b: Entries)
    requires
        ascending(a),
        ascending(b),
        forall|q: Seq<char>| #[trigger] json::lookup(a, q) == json::lookup(b, q),
        a.len() > 0,
    ensures
        b.len() > 0,
        a.last() == b.last(),
{
    let key = a.last().0;
    lemma_found(a, a.len() - 1);
    assert(json::lookup(b, key) is Some);
    json::lemma_key_index(b, key);
    let i = json::key_index(b, key);
    if i < b.len() - 1 {
        let last = b.last().0;
        lemma_found(b, b.len() - 1);
        assert(json::lookup(a, last) is Some);
        json::lemma_key_index(a, last);
        let k = json::key_index(a, last);
        assert(text::at_most(b[i].0, b[b.len() - 1].0) && b[i].0 != b[b.len() - 1].0);
        if k < a.len() - 1 {
            assert(text::at_most(a[k].0, a[a.len() - 1].0));
        }
        text::lemma_at_most_antisymmetric(key, last);
    }
}

/// Entries in order are the same where the same is found at every key.
pub proof fn lemma_same_entries(a: Entries, b: Entries)
    requires
        ascending(a),
        ascending(b),
        forall|q: Seq<char>| #[trigger] json::lookup(a, q) == json::lookup(b, q),
    ensures
        a == b,
    decreases a.len(),
{
    if a.len() == 0 {
        if b.len() > 0 {
            lemma_same_last(b, a);
        }
        assert(a =~= b);
    } else {
        lemma_same_last(a, b);
        let fa = a.drop_last();
        let fb = b.drop_last();
        let (key, value) = a.last();
        lemma_ascending_front(a);
        lemma_ascending_front(b);
        assert(a =~= fa.push((key, value)));
        assert(b =~= fb.push((key, value)));
        assert forall|q: Seq<char>| #[trigger] json::lookup(fa, q) == json::lookup(fb, q) by {
            json::lemma_lookup_push(fa, key, value, q);
            json::lemma_lookup_push(fb, key, value, q);
            json::lemma_key_index(fa, q);
            json::lemma_key_index(fb, q);
            assert(json::lookup(a, q) == json::lookup(b, q));
            if q == key {
                assert(json::key_index(fa, q) == fa.len()) by {
                    if json::key_index(fa, q) < fa.len() {
                        assert(fa[json::key_index(fa, q)] == a[json::key_index(fa, q)]);
                    }
                }
                assert(json::key_index(fb, q) == fb.len()) by {
                    if json::key_index(fb, q) < fb.len() {
                        assert(fb[json::key_index(fb, q)] == b[json::key_index(fb, q)]);
                    }
                }
            }
        }
        lemma_same_entries(fa, fb);
    }
}

/// What is found at a key, tidied.
pub open spec fn tidied_at(entries: Entries, key: Seq<char>) -> Option<JsonModel> {
    match json::lookup(entries, key) {
        Some(value) => Some(tidied(value)),
        None => None,
    }
}

proof fn lemma_lookup_values(entries: Entries, key: Seq<char>)
    ensures
        json::lookup(tidied_values(entries), key) == tidied_at(entries, key),
{
    let i = json::key_index(entries, key);
    json::lemma_key_index(entries, key);
    json::lemma_key_index_is(tidied_values(entries), key, i);
}

/// A tidied document says at every key, tidied, what the document says there.
pub proof fn law_tidied_says_the_same(entries: Entries, key: Seq<char>)
    ensures
        tidied(JsonModel::Object(entries)) is Object,
        tidied(JsonModel::Object(entries)).get(key) == tidied_at(entries, key),
{
    lemma_in_order(tidied_values(entries));
    lemma_lookup_values(entries, key);
    assert(json::lookup(in_order(tidied_values(entries)), key) == json::lookup(
        tidied_values(entries),
        key,
    ));
}

/// Two objects are tidied to the same where the same is found in them, tidied, at every key, and only
/// there.
pub proof fn lemma_alike(a: Entries, b: Entries)
    ensures
        tidied(JsonModel::Object(a)) == tidied(JsonModel::Object(b)) <==> forall|key: Seq<char>|
            tidied_at(a, key) == #[trigger] tidied_at(b, key),
{
    let ta = in_order(tidied_values(a));
    let tb = in_order(tidied_values(b));
    lemma_in_order(tidied_values(a));
    lemma_in_order(tidied_values(b));
    assert forall|key: Seq<char>| #[trigger]
        json::lookup(ta, key) == tidied_at(a, key) && json::lookup(tb, key) == tidied_at(b, key) by {
        law_tidied_says_the_same(a, key);
        law_tidied_says_the_same(b, key);
    }
    if forall|key: Seq<char>| tidied_at(a, key) == #[trigger] tidied_at(b, key) {
        lemma_same_entries(ta, tb);
    }
    if ta == tb {
        assert forall|key: Seq<char>| tidied_at(a, key) == #[trigger] tidied_at(b, key) by {
            assert(json::lookup(ta, key) == tidied_at(a, key) && json::lookup(tb, key) == tidied_at(
                b,
                key,
            ));
        }
    }
}

/// What was tidied is tidy.
pub proof fn lemma_tidied_is_tidy(document: JsonModel)
    ensures
        is_tidy(tidied(document)),
    decreases document,
{
    match document {
        JsonModel::Array(items) => {
            assert forall|i: int| 0 <= i < items.len() implies is_tidy(
                #[trigger] tidied_items(items)[i],
            ) by {
                lemma_tidied_is_tidy(items[i]);
            }
            assert(is_tidy(JsonModel::Array(tidied_items(items))));
        },
        JsonModel::Object(entries) => {
            let values = tidied_values(entries);
            lemma_in_order(values);
            assert forall|i: int| 0 <= i < in_order(values).len() implies is_tidy(
                (#[trigger] in_order(values)[i]).1,
            ) by {
                assert(values.contains(in_order(values)[i]));
                let k = choose|k: int| 0 <= k < values.len() && values[k] == in_order(values)[i];
                lemma_tidied_is_tidy(entries[k].1);
            }
        },
        _ => {},
    }
}

/// What is tidy is not changed by tidying.
pub proof fn lemma_tidy_stays(document: JsonModel)
    requires
        is_tidy(document),
    ensures
        tidied(document) == document,
    decreases document,
{
    match document {
        JsonModel::Array(items) => {
            assert forall|i: int| 0 <= i < items.len() implies tidied_items(items)[i] == items[i] by {
                lemma_tidy_stays(items[i]);
            }
            assert(tidied_items(items) =~= items);
        },
        JsonModel::Object(entries) => {
            assert forall|i: int| 0 <= i < entries.len() implies tidied_values(entries)[i]
                == entries[i] by {
                lemma_tidy_stays(entries[i].1);
            }
            assert(tidied_values(entries) =~= entries);
            lemma_in_order_stays(entries);
        },
        _ => {},
    }
}

/// Tidying brings in no number and no depth.
pub proof fn lemma_tidied_is_plain(document: JsonModel, depth: nat)
    ensures
        is_whole(document) ==> is_whole(tidied(document)),
        nests(document, depth) ==> nests(tidied(document), depth),
    decreases document,
{
    match document {
        JsonModel::Array(items) => {
            assert forall|i: int| 0 <= i < items.len() implies (is_whole(items[i]) ==> is_whole(
                #[trigger] tidied_items(items)[i],
            )) && (depth > 0 && nests(items[i], (depth - 1) as nat) ==> nests(
                tidied_items(items)[i],
                (depth - 1) as nat,
            )) by {
                if depth > 0 {
                    lemma_tidied_is_plain(items[i], (depth - 1) as nat);
                } else {
                    lemma_tidied_is_plain(items[i], 0);
                }
            }
        },
        JsonModel::Object(entries) => {
            let values = tidied_values(entries);
            lemma_in_order(values);
            assert forall|i: int| 0 <= i < in_order(values).len() implies (is_whole(document)
                ==> is_whole((#[trigger] in_order(values)[i]).1)) && (nests(document, depth)
                ==> nests(in_order(values)[i].1, (depth - 1) as nat)) by {
                assert(values.contains(in_order(values)[i]));
                let k = choose|k: int| 0 <= k < values.len() && values[k] == in_order(values)[i];
                if depth > 0 {
                    lemma_tidied_is_plain(entries[k].1, (depth - 1) as nat);
                } else {
                    lemma_tidied_is_plain(entries[k].1, 0);
                }
                assert(values[k] == (entries[k].0, tidied(entries[k].1)));
            }
        },
        _ => {},
    }
}

} // verus!
