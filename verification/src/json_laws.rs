//! What holds of JSON documents, whatever they say.
use crate::json;
use crate::json::{Entries, Json, JsonModel, JsonNumber};
use crate::json_order;
use crate::text;
use vstd::prelude::*;

verus! {

/// A document is read as what it is and as nothing else.
pub proof fn law_documents_are_read_as_what_they_are(document: JsonModel)
    ensures
        document.text() == (match document {
            JsonModel::Text(s) => Some(s),
            _ => None,
        }),
        document.boolean() == (match document {
            JsonModel::Bool(b) => Some(b),
            _ => None,
        }),
        document.items() == (match document {
            JsonModel::Array(items) => Some(items),
            _ => None,
        }),
        document.unsigned() is Some <==> document is Number && document->Number_0 is Unsigned,
        document.unsigned() is Some ==> document == JsonModel::Number(
            JsonNumber::Unsigned(document.unsigned()->0),
        ),
        document.signed() is Some && document.signed()->0 >= 0 && document->Number_0 is Unsigned
            ==> document.unsigned() is Some && document.unsigned()->0 == document.signed()->0,
        document matches JsonModel::Number(JsonNumber::Unsigned(n)) ==> (document.signed() is Some
            <==> n < 0x8000_0000_0000_0000),
        document matches JsonModel::Number(JsonNumber::Negative(n)) ==> document.signed() == Some(n),
        !(document is Number) ==> document.signed() is None,
{
}

/// What is found at a key is the value of the first entry with that key, and nothing where there
/// is none, or where the document is no object. A text, a truth value and a list are found there
/// where the value is one.
pub proof fn law_first_entry_counts(
    before: Entries,
    key: Seq<char>,
    value: JsonModel,
    after: Entries,
)
    requires
        forall|i: int| 0 <= i < before.len() ==> (#[trigger] before[i]).0 != key,
    ensures
        JsonModel::Object(before).get(key) is None,
        JsonModel::Object(before.push((key, value)) + after).get(key) == Some(value),
        JsonModel::Object(before.push((key, value)) + after).text_at(key) == value.text(),
        JsonModel::Object(before.push((key, value)) + after).boolean_at(key) == value.boolean(),
        JsonModel::Object(before.push((key, value)) + after).items_at(key) == (match value {
            JsonModel::Array(items) => items,
            _ => Seq::<JsonModel>::empty(),
        }),
        !(value is Object) ==> value.get(key) is None && value.text_at(key) is None
            && value.boolean_at(key) is None && value.items_at(key).len() == 0,
{
    json::lemma_entry_missing(before, key);
    let whole = before.push((key, value)) + after;
    let n = before.len() as int;
    assert(whole[n] == (key, value));
    assert forall|j: int| 0 <= j < n implies (#[trigger] whole[j]).0 != key by {
        assert(whole[j] == before[j]);
    }
    json::lemma_entry_found(whole, n);
}

/// An entry that is set is found, and what is found at every other key stays.
pub proof fn law_set_entry_is_found(
    entries: Entries,
    key: Seq<char>,
    value: JsonModel,
    other: Seq<char>,
)
    requires
        other != key,
    ensures
        json::lookup(json::with_entry(entries, key, value), key) == Some(value),
        json::lookup(json::with_entry(entries, key, value), other) == json::lookup(entries, other),
        json::lookup(entries, key) is Some ==> json::with_entry(entries, key, value).len()
            == entries.len(),
        json::lookup(entries, key) is None ==> json::with_entry(entries, key, value) == entries.push(
            (key, value),
        ),
{
    json::lemma_with_entry(entries, key, value);
    json::lemma_key_index(entries, key);
}

/// What a document stands for is what it holds: each item and each entry in its place.
pub proof fn law_documents_stand_for_what_they_hold(document: Json, i: int)
    ensures
        match document {
            Json::Null => document@ is Null,
            Json::Bool(b) => document@ == JsonModel::Bool(b),
            Json::Number(n) => document@ == JsonModel::Number(n),
            Json::Text(s) => document@ == JsonModel::Text(s@),
            Json::Array(items) => document@ is Array && document@->Array_0.len() == items@.len() && (0
                <= i < items@.len() ==> document@->Array_0[i] == items@[i]@),
            Json::Object(entries) => document@ is Object && document@->Object_0.len()
                == entries@.len() && (0 <= i < entries@.len() ==> document@->Object_0[i].0
                == entries@[i].0@ && document@->Object_0[i].1 == entries@[i].1@),
        },
{
    broadcast use json::lemma_view;

}

/// A character of a quoted text stands for itself, but for the quotation mark, the backslash and
/// the control characters below the blank, which stand behind a backslash; and the text has a
/// quotation mark at either end.
pub proof fn law_quoted_text_is_escaped(a: Seq<char>, c: char)
    ensures
        json::json_quoted(Seq::empty()) == seq!['"', '"'],
        ({
            let before = json::json_quoted(a);
            let after = json::json_quoted(a.push(c));
            let plain = c >= ' ' && c != '"' && c != '\\';
            &&& before.len() >= 2 && before[0] == '"' && before.last() == '"'
            &&& plain ==> after == before.drop_last() + seq![c, '"']
            &&& c == '"' || c == '\\' ==> after == before.drop_last() + seq!['\\', c, '"']
            &&& c == '\n' ==> after == before.drop_last() + seq!['\\', 'n', '"']
            &&& c == '\r' ==> after == before.drop_last() + seq!['\\', 'r', '"']
            &&& c == '\t' ==> after == before.drop_last() + seq!['\\', 't', '"']
            &&& !plain ==> after[before.len() - 1] == '\\' && after.len() >= before.len() + 2
        }),
{
    let none = Seq::<char>::empty();
    assert(json::all_escaped(none) =~= none);
    assert(json::json_quoted(none) =~= seq!['"', '"']);
    assert(a.push(c).drop_last() =~= a);
    let before = json::json_quoted(a);
    let after = json::json_quoted(a.push(c));
    assert(before.drop_last() =~= seq!['"'] + json::all_escaped(a));
    assert(after =~= before.drop_last() + (json::escaped(c) + seq!['"']));
    assert(json::escaped(c).len() > 0);
    assert(after[before.len() - 1] == json::escaped(c)[0]);
    if c == '\n' {
        assert(json::escaped(c) + seq!['"'] =~= seq!['\\', 'n', '"']);
    } else if c == '\r' {
        assert(json::escaped(c) + seq!['"'] =~= seq!['\\', 'r', '"']);
    } else if c == '\t' {
        assert(json::escaped(c) + seq!['"'] =~= seq!['\\', 't', '"']);
    } else if c == '"' || c == '\\' {
        assert(json::escaped(c) + seq!['"'] =~= seq!['\\', c, '"']);
    } else if c >= ' ' {
        assert(json::escaped(c) + seq!['"'] =~= seq![c, '"']);
    }
}

/// Tidying a list tidies its items, each in its place, and tidying an object leaves what it says
/// at each key, tidied, with the keys in order and each once. Texts and truth values stay, and of
/// the numbers only the form may change. To tidy twice is to tidy once.
pub proof fn law_tidying_changes_the_form_alone(
    document: JsonModel,
    items: Seq<JsonModel>,
    entries: Entries,
    i: int,
    j: int,
    key: Seq<char>,
)
    ensures
        json_order::tidied(json_order::tidied(document)) == json_order::tidied(document),
        document is Null || document is Bool || document is Text ==> json_order::tidied(document)
            == document,
        json_order::tidied(document).signed() == document.signed(),
        json_order::tidied(JsonModel::Array(items)) is Array,
        json_order::tidied(JsonModel::Array(items))->Array_0.len() == items.len(),
        0 <= i < items.len() ==> json_order::tidied(JsonModel::Array(items))->Array_0[i]
            == json_order::tidied(items[i]),
        json_order::tidied(JsonModel::Object(entries)) is Object,
        json_order::tidied(JsonModel::Object(entries)).get(key) == (match JsonModel::Object(
            entries,
        ).get(key) {
            Some(value) => Some(json_order::tidied(value)),
            None => None,
        }),
        ({
            let sorted = json_order::tidied(JsonModel::Object(entries))->Object_0;
            0 <= i < j < sorted.len() ==> text::at_most(sorted[i].0, sorted[j].0) && sorted[i].0
                != sorted[j].0
        }),
{
    json_order::lemma_tidied_is_tidy(document);
    json_order::lemma_tidy_stays(json_order::tidied(document));
    json_order::law_tidied_says_the_same(entries, key);
    json_order::lemma_tidied_is_tidy(JsonModel::Object(entries));
    let sorted = json_order::tidied(JsonModel::Object(entries))->Object_0;
    assert(json_order::ascending(sorted));
}

} // verus!
