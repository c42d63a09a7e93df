//! JSON documents.
//!
//! `Json` holds a document as plain values, `JsonModel` is what it stands for. The text form is
//! the business of the `serde_json` crate: see `parse_json`, `pretty_json` and `compact_json`.
use crate::json_order;
use crate::text::same_text;
use vstd::prelude::*;

verus! {

/// `serde_json::Number`: a number as `serde_json` holds it.
#[verifier::external_type_specification]
#[verifier::external_body]
pub struct ExNumber(serde_json::Number);

/// `serde_json::Number::clone` gives back the number.
pub assume_specification[ <serde_json::Number as Clone>::clone ](n: &serde_json::Number) -> (r:
    serde_json::Number)
    ensures
        r == *n,
;

/// A number that is no integer, as it was read. There is no other way to come by one.
#[derive(Debug, PartialEq)]
pub struct OtherNumber {
    number: serde_json::Number,
}

/// A number: integers are told apart from the rest, which is only carried along.
#[derive(Debug, PartialEq)]
pub enum JsonNumber {
    /// An integer that is not negative.
    Unsigned(u64),
    /// A negative integer.
    Negative(i64),
    /// Any other number.
    Other(OtherNumber),
}

/// A JSON document. An object keeps its entries in a list; where a key occurs more than once,
/// the first entry counts.
#[derive(Debug, PartialEq)]
pub enum Json {
    Null,
    Bool(bool),
    Number(JsonNumber),
    Text(String),
    Array(Vec<Json>),
    Object(Vec<(String, Json)>),
}

/// The entries of an object.
pub type Entries = Seq<(Seq<char>, JsonModel)>;

/// What a document stands for.
#[verifier::ext_equal]
pub enum JsonModel {
    Null,
    Bool(bool),
    Number(JsonNumber),
    Text(Seq<char>),
    Array(Seq<JsonModel>),
    Object(Seq<(Seq<char>, JsonModel)>),
}

/// The model of a document.
pub open spec fn model_of(json: Json) -> JsonModel
    decreases json,
{
    match json {
        Json::Null => JsonModel::Null,
        Json::Bool(b) => JsonModel::Bool(b),
        Json::Number(n) => JsonModel::Number(n),
        Json::Text(s) => JsonModel::Text(s@),
        Json::Array(items) => JsonModel::Array(
            Seq::new(
                items@.len(),
                |i: int|
                    if 0 <= i < items@.len() {
                        model_of(items@[i])
                    } else {
                        JsonModel::Null
                    },
            ),
        ),
        Json::Object(entries) => JsonModel::Object(
            Seq::new(
                entries@.len(),
                |i: int|
                    if 0 <= i < entries@.len() {
                        (entries@[i].0@, model_of(entries@[i].1))
                    } else {
                        (Seq::<char>::empty(), JsonModel::Null)
                    },
            ),
        ),
    }
}

impl View for Json {
    type V = JsonModel;

    open spec fn view(&self) -> JsonModel {
        model_of(*self)
    }
}

impl Clone for JsonNumber {
    fn clone(&self) -> (r: JsonNumber)
        ensures
            r == *self,
    {
        match self {
            JsonNumber::Unsigned(n) => JsonNumber::Unsigned(*n),
            JsonNumber::Negative(n) => JsonNumber::Negative(*n),
            JsonNumber::Other(n) => JsonNumber::Other(OtherNumber { number: n.number.clone() }),
        }
    }
}

/// The models of a list of documents.
pub open spec fn models(items: Seq<Json>) -> Seq<JsonModel> {
    items.map_values(|j: Json| j@)
}

/// The models of the entries of an object.
pub open spec fn entry_models(entries: Seq<(String, Json)>) -> Entries {
    entries.map_values(|e: (String, Json)| (e.0@, e.1@))
}

/// The view of an array is the list of the views of its items, and that of an object the list of
/// the views of its entries.
pub broadcast proof fn lemma_view(json: Json)
    ensures
        json matches Json::Array(items) ==> #[trigger] json.view() == JsonModel::Array(models(items@)),
        json matches Json::Object(entries) ==> json.view() == JsonModel::Object(
            entry_models(entries@),
        ),
{
    match json {
        Json::Array(items) => {
            assert(json@->Array_0 =~= models(items@));
        },
        Json::Object(entries) => {
            assert(json@->Object_0 =~= entry_models(entries@));
        },
        _ => {},
    }
}

impl Clone for Json {
    fn clone(&self) -> (r: Json)
        ensures
            r@ == self@,
        decreases self,
    {
        broadcast use lemma_view;

        match self {
            Json::Null => Json::Null,
            Json::Bool(b) => Json::Bool(*b),
            Json::Number(n) => Json::Number(n.clone()),
            Json::Text(s) => Json::Text(s.clone()),
            Json::Array(items) => {
                let mut copy: Vec<Json> = Vec::new();
                for i in 0..items.len()
                    invariant
                        models(copy@) == models(items@).take(i as int),
                        decreases_to!(self => items@),
                {
                    let item = items[i].clone();
                    let ghost before = copy@;
                    copy.push(item);
                    assert(models(copy@) =~= models(before).push(item@));
                }
                assert(models(items@).take(items@.len() as int) =~= models(items@));
                Json::Array(copy)
            },
            Json::Object(entries) => {
                let mut copy: Vec<(String, Json)> = Vec::new();
                for i in 0..entries.len()
                    invariant
                        entry_models(copy@) == entry_models(entries@).take(i as int),
                        decreases_to!(self => entries@),
                {
                    let value = entries[i].1.clone();
                    let key = entries[i].0.clone();
                    let ghost before = copy@;
                    copy.push((key, value));
                    assert(entry_models(copy@) =~= entry_models(before).push((key@, value@)));
                }
                assert(entry_models(entries@).take(entries@.len() as int) =~= entry_models(
                    entries@,
                ));
                Json::Object(copy)
            },
        }
    }
}

// ---------------------------------------------------------------------------------------
// Looking into documents
// ---------------------------------------------------------------------------------------

/// The position of the first entry with the key, or the number of entries where there is none.
pub open spec fn key_index(entries: Entries, key: Seq<char>) -> int
    decreases entries.len(),
{
    if entries.len() == 0 {
        0
    } else if entries[0].0 == key {
        0
    } else {
        1 + key_index(entries.skip(1), key)
    }
}

pub open spec fn lookup(entries: Entries, key: Seq<char>) -> Option<JsonModel> {
    let i = key_index(entries, key);
    if i < entries.len() {
        Some(entries[i].1)
    } else {
        None
    }
}

/// The entries with `key` bound to `value`: in place of the first entry with the key, or at the
/// end.
pub open spec fn with_entry(entries: Entries, key: Seq<char>, value: JsonModel) -> Entries {
    let i = key_index(entries, key);
    if i < entries.len() {
        entries.update(i, (key, value))
    } else {
        entries.push((key, value))
    }
}

/// What `key_index` says of the entries.
pub proof fn lemma_key_index(entries: Entries, key: Seq<char>)
    ensures
        0 <= key_index(entries, key) <= entries.len(),
        key_index(entries, key) < entries.len() ==> entries[key_index(entries, key)].0 == key,
        forall|j: int| 0 <= j < key_index(entries, key) ==> (#[trigger] entries[j]).0 != key,
    decreases entries.len(),
{
    if entries.len() > 0 && entries[0].0 != key {
        lemma_key_index(entries.skip(1), key);
        let k = key_index(entries.skip(1), key);
        assert(key_index(entries, key) == 1 + k);
        assert forall|j: int| 0 <= j < 1 + k implies (#[trigger] entries[j]).0 != key by {
            if j > 0 {
                assert(entries.skip(1)[j - 1] == entries[j]);
            }
        }
    }
}

/// A position with those properties is the one that `key_index` names.
pub proof fn lemma_key_index_is(entries: Entries, key: Seq<char>, i: int)
    requires
        0 <= i <= entries.len(),
        i < entries.len() ==> entries[i].0 == key,
        forall|j: int| 0 <= j < i ==> (#[trigger] entries[j]).0 != key,
    ensures
        key_index(entries, key) == i,
{
    lemma_key_index(entries, key);
    let k = key_index(entries, key);
    if k < i {
        assert(entries[k].0 != key);
    }
    if i < k {
        assert(entries[i].0 != key);
    }
}

/// Adding an entry at the end changes what is found only for its key, and only where the key was
/// not there before.
pub proof fn lemma_lookup_push(entries: Entries, key: Seq<char>, value: JsonModel, k: Seq<char>)
    ensures
        lookup(entries.push((key, value)), k) == (match lookup(entries, k) {
            Some(v) => Some(v),
            None => if k == key {
                Some(value)
            } else {
                None
            },
        }),
        key_index(entries.push((key, value)), k) == (if key_index(entries, k) < entries.len() || k
            == key {
            key_index(entries, k)
        } else {
            entries.len() as int + 1
        }),
{
    lemma_key_index(entries, k);
    let longer = entries.push((key, value));
    let i = key_index(entries, k);
    if i < entries.len() || k == key {
        lemma_key_index_is(longer, k, i);
    } else {
        lemma_key_index_is(longer, k, longer.len() as int);
    }
}

/// A key that is bound to a value is found with that value, at its old place or at the end, and no
/// other key is touched.
pub proof fn lemma_with_entry(entries: Entries, key: Seq<char>, value: JsonModel)
    ensures
        lookup(with_entry(entries, key, value), key) == Some(value),
        key_index(with_entry(entries, key, value), key) == key_index(entries, key),
        with_entry(with_entry(entries, key, value), key, value) == with_entry(entries, key, value),
        forall|k: Seq<char>|
            k != key ==> #[trigger] lookup(with_entry(entries, key, value), k) == lookup(
                entries,
                k,
            ),
{
    let changed = with_entry(entries, key, value);
    let i = key_index(entries, key);
    lemma_key_index(entries, key);
    lemma_key_index_is(changed, key, i);
    assert(with_entry(changed, key, value) =~= changed);
    assert forall|k: Seq<char>| k != key implies #[trigger] lookup(changed, k) == lookup(
        entries,
        k,
    ) by {
        if i < entries.len() {
            lemma_key_index(entries, k);
            let j = key_index(entries, k);
            assert(j != i);
            lemma_key_index_is(changed, k, j);
        } else {
            lemma_lookup_push(entries, key, value, k);
        }
    }
}

/// Whether no key occurs twice.
pub open spec fn distinct_keys(entries: Entries) -> bool {
    forall|i: int, j: int|
        0 <= i < j < entries.len() ==> (#[trigger] entries[i]).0 != (#[trigger] entries[j]).0
}

impl JsonModel {
    /// The value at `key`, where the document is an object that has it.
    pub open spec fn get(self, key: Seq<char>) -> Option<JsonModel> {
        match self {
            JsonModel::Object(entries) => lookup(entries, key),
            _ => None,
        }
    }

    pub open spec fn text(self) -> Option<Seq<char>> {
        match self {
            JsonModel::Text(s) => Some(s),
            _ => None,
        }
    }

    pub open spec fn boolean(self) -> Option<bool> {
        match self {
            JsonModel::Bool(b) => Some(b),
            _ => None,
        }
    }

    pub open spec fn unsigned(self) -> Option<u64> {
        match self {
            JsonModel::Number(JsonNumber::Unsigned(n)) => Some(n),
            _ => None,
        }
    }

    pub open spec fn signed(self) -> Option<i64> {
        match self {
            JsonModel::Number(JsonNumber::Unsigned(n)) => if n <= i64::MAX {
                Some(n as i64)
            } else {
                None
            },
            JsonModel::Number(JsonNumber::Negative(n)) => Some(n),
            _ => None,
        }
    }

    pub open spec fn items(self) -> Option<Seq<JsonModel>> {
        match self {
            JsonModel::Array(items) => Some(items),
            _ => None,
        }
    }

    pub open spec fn text_at(self, key: Seq<char>) -> Option<Seq<char>> {
        match self.get(key) {
            Some(v) => v.text(),
            None => None,
        }
    }

    pub open spec fn boolean_at(self, key: Seq<char>) -> Option<bool> {
        match self.get(key) {
            Some(v) => v.boolean(),
            None => None,
        }
    }

    /// The items of the array at `key`, and none where there is no array.
    pub open spec fn items_at(self, key: Seq<char>) -> Seq<JsonModel> {
        match self.get(key) {
            Some(JsonModel::Array(items)) => items,
            _ => Seq::empty(),
        }
    }
}

/// The position of the first entry with the key, or the number of entries where there is none.
pub fn find_key(entries: &Vec<(String, Json)>, key: &str) -> (i: usize)
    ensures
        i as int == key_index(entry_models(entries@), key@),
        i <= entries@.len(),
{
    let ghost model = entry_models(entries@);
    let mut i: usize = 0;
    while i < entries.len()
        invariant
            model == entry_models(entries@),
            i <= entries@.len(),
            forall|j: int| 0 <= j < i ==> (#[trigger] model[j]).0 != key@,
        decreases entries@.len() - i,
    {
        if same_text(entries[i].0.as_str(), key) {
            proof {
                lemma_key_index_is(model, key@, i as int);
            }
            return i;
        }
        i += 1;
    }
    proof {
        lemma_key_index_is(model, key@, i as int);
    }
    i
}

/// Binds `key` to `value`.
pub fn set_entry(entries: &mut Vec<(String, Json)>, key: &str, value: Json)
    ensures
        entry_models(final(entries)@) == with_entry(entry_models(old(entries)@), key@, value@),
{
    let i: usize = find_key(entries, key);
    let ghost before = entries@;
    let key = key.to_owned();
    if i < entries.len() {
        entries.set(i, (key, value));
        assert(entry_models(entries@) =~= entry_models(before).update(i as int, (key@, value@)));
    } else {
        entries.push((key, value));
        assert(entry_models(entries@) =~= entry_models(before).push((key@, value@)));
    }
}

impl Json {
    pub fn get(&self, key: &str) -> (r: Option<&Json>)
        ensures
            match r {
                Some(v) => self@.get(key@) == Some(v@),
                None => self@.get(key@) is None,
            },
    {
        broadcast use lemma_view;

        match self {
            Json::Object(entries) => {
                let i: usize = find_key(entries, key);
                if i < entries.len() {
                    Some(&entries[i].1)
                } else {
                    None
                }
            },
            _ => None,
        }
    }

    pub fn text(&self) -> (r: Option<&str>)
        ensures
            match r {
                Some(s) => self@.text() == Some(s@),
                None => self@.text() is None,
            },
    {
        match self {
            Json::Text(s) => Some(s.as_str()),
            _ => None,
        }
    }

    pub fn boolean(&self) -> (r: Option<bool>)
        ensures
            r == self@.boolean(),
    {
        match self {
            Json::Bool(b) => Some(*b),
            _ => None,
        }
    }

    pub fn unsigned(&self) -> (r: Option<u64>)
        ensures
            r == self@.unsigned(),
    {
        match self {
            Json::Number(JsonNumber::Unsigned(n)) => Some(*n),
            _ => None,
        }
    }

    pub fn signed(&self) -> (r: Option<i64>)
        ensures
            r == self@.signed(),
    {
        match self {
            Json::Number(JsonNumber::Unsigned(n)) => if *n <= i64::MAX as u64 {
                Some(*n as i64)
            } else {
                None
            },
            Json::Number(JsonNumber::Negative(n)) => Some(*n),
            _ => None,
        }
    }

    pub fn is_object(&self) -> (r: bool)
        ensures
            r == (self@ is Object),
    {
        match self {
            Json::Object(_) => true,
            _ => false,
        }
    }

    /// The text at `key`.
    pub fn text_at(&self, key: &str) -> (r: Option<&str>)
        ensures
            match r {
                Some(s) => self@.text_at(key@) == Some(s@),
                None => self@.text_at(key@) is None,
            },
    {
        match self.get(key) {
            Some(v) => v.text(),
            None => None,
        }
    }

    /// The truth value at `key`.
    pub fn boolean_at(&self, key: &str) -> (r: Option<bool>)
        ensures
            r == self@.boolean_at(key@),
    {
        match self.get(key) {
            Some(v) => v.boolean(),
            None => None,
        }
    }

    /// The items of the array at `key`, where there is one.
    pub fn items_at(&self, key: &str) -> (r: Option<&Vec<Json>>)
        ensures
            match r {
                Some(items) => self@.items_at(key@) == models(items@),
                None => self@.items_at(key@) == Seq::<JsonModel>::empty(),
            },
    {
        broadcast use lemma_view;

        match self.get(key) {
            Some(Json::Array(items)) => Some(items),
            _ => None,
        }
    }
}

// ---------------------------------------------------------------------------------------
// Text form
// ---------------------------------------------------------------------------------------

/// `serde_json::Value`: a document as `serde_json` holds it.
#[verifier::external_type_specification]
#[verifier::external_body]
pub struct ExValue(serde_json::Value);

/// The document that a `serde_json::Value` holds, objects in the order in which it walks them.
pub uninterp spec fn value_model(value: serde_json::Value) -> JsonModel;

/// The document that `serde_json::from_str` reads from the text, where it accepts it.
pub uninterp spec fn json_parsed(text: Seq<char>) -> Option<JsonModel>;

/// How many arrays and objects may stand in each other in a text that is read.
pub const MAX_DEPTH: usize = 127;

/// Whether bytes are read as the document.
pub open spec fn reads_as(bytes: Seq<u8>, document: JsonModel) -> bool {
    vstd::utf8::valid_utf8(bytes) && json_parsed(vstd::utf8::decode_utf8(bytes)) == Some(document)
}

/// What `serde_json::to_vec_pretty` writes of the document that the value holds.
pub uninterp spec fn json_pretty(held: JsonModel) -> Seq<u8>;

/// What `serde_json::to_vec` writes of the document that the value holds.
pub uninterp spec fn json_compact(held: JsonModel) -> Seq<u8>;

/// `serde_json::from_str` reads the text as a `Value`, or refuses it; which of the two, and the
/// document that comes out, depend on the text alone. It refuses a text in which more than
/// `MAX_DEPTH` arrays and objects stand in each other.
#[verifier::external_body]
fn parse_value(text: &str) -> (r: Option<serde_json::Value>)
    ensures
        match r {
            Some(value) => json_parsed(text@) == Some(value_model(value)) && json_order::nests(
                value_model(value),
                MAX_DEPTH as nat,
            ),
            None => json_parsed(text@) is None,
        },
{
    serde_json::from_str::<serde_json::Value>(text).ok()
}

/// Takes a `serde_json::Value` apart into the document that it holds: one arm for each variant,
/// integers by `Number::as_u64` and `Number::as_i64`. A `serde_json::Map` is a `BTreeMap`, which
/// has each key once and walks the keys in their order; a number that is an `i64` and no `u64` is
/// negative.
#[verifier::external_body]
fn json_of(value: serde_json::Value) -> (json: Json)
    ensures
        json@ == value_model(value),
        json_order::is_tidy(json@),
{
    match value {
        serde_json::Value::Null => Json::Null,
        serde_json::Value::Bool(b) => Json::Bool(b),
        serde_json::Value::Number(number) => Json::Number(match (number.as_u64(), number.as_i64()) {
            (Some(u), _) => JsonNumber::Unsigned(u),
            (None, Some(i)) => JsonNumber::Negative(i),
            (None, None) => JsonNumber::Other(OtherNumber { number }),
        }),
        serde_json::Value::String(s) => Json::Text(s),
        serde_json::Value::Array(items) => Json::Array(items.into_iter().map(json_of).collect()),
        serde_json::Value::Object(map) => Json::Object(
            map.into_iter().map(|(k, v)| (k, json_of(v))).collect()),
    }
}

/// Builds the `serde_json::Value` of a tidy document: one arm for each variant, objects by
/// collecting the entries into a `serde_json::Map`. As it is a `BTreeMap`, the value holds
/// entries whose keys come in their order, each once, as they are.
#[verifier::external_body]
fn value_of(json: &Json) -> (value: serde_json::Value)
    requires
        json_order::is_tidy(json@),
    ensures
        value_model(value) == json@,
{
    match json {
        Json::Null => serde_json::Value::Null,
        Json::Bool(b) => serde_json::Value::Bool(*b),
        Json::Number(JsonNumber::Unsigned(n)) => serde_json::Value::from(*n),
        Json::Number(JsonNumber::Negative(n)) => serde_json::Value::from(*n),
        Json::Number(JsonNumber::Other(n)) => serde_json::Value::Number(n.number.clone()),
        Json::Text(s) => serde_json::Value::String(s.clone()),
        Json::Array(items) => serde_json::Value::Array(items.iter().map(value_of).collect()),
        Json::Object(entries) => serde_json::Value::Object(
            entries.iter().map(|(k, v)| (k.clone(), value_of(v))).collect()),
    }
}

/// `serde_json::to_vec_pretty` on a value does not fail; the bytes depend on the document that it
/// holds alone. Where every number is an integer and the document is not too deep to be read,
/// `serde_json::from_str` reads the bytes as that document, with a line feed behind them too.
/// Nothing is said of other documents: a number that is no integer may be read as one next to it.
#[verifier::external_body]
fn pretty_bytes(value: &serde_json::Value) -> (r: Option<Vec<u8>>)
    ensures
        r is Some,
        r->0@ == json_pretty(value_model(*value)),
        json_order::is_whole(value_model(*value)) && json_order::nests(
            value_model(*value),
            MAX_DEPTH as nat,
        ) ==> reads_as(r->0@, value_model(*value)) && reads_as(r->0@.push(10), value_model(*value)),
{
    serde_json::to_vec_pretty(value).ok()
}

/// `serde_json::to_vec` on a value does not fail; the bytes depend on the document that it holds
/// alone.
#[verifier::external_body]
fn compact_bytes(value: &serde_json::Value) -> (r: Option<Vec<u8>>)
    ensures
        r is Some,
        r->0@ == json_compact(value_model(*value)),
{
    serde_json::to_vec(value).ok()
}

/// Reads a document. What was read is tidy.
pub fn parse_json(text: &str) -> (r: Option<Json>)
    ensures
        match r {
            Some(json) => json_parsed(text@) == Some(json@) && json_order::is_tidy(json@)
                && json_order::nests(json@, MAX_DEPTH as nat),
            None => json_parsed(text@) is None,
        },
{
    match parse_value(text) {
        Some(value) => Some(json_of(value)),
        None => None,
    }
}

/// Whether the bytes of a document can be read back as it is, tidied.
pub open spec fn is_readable(document: JsonModel) -> bool {
    json_order::is_whole(document) && json_order::nests(document, MAX_DEPTH as nat)
}

/// The bytes of a document, tidied, indented over several lines.
pub fn pretty_json(json: &Json) -> (r: Vec<u8>)
    ensures
        r@ == json_pretty(json_order::tidied(json@)),
        is_readable(json@) ==> reads_as(r@, json_order::tidied(json@)) && reads_as(
            r@.push(10),
            json_order::tidied(json@),
        ),
{
    proof {
        json_order::lemma_tidied_is_tidy(json@);
        json_order::lemma_tidied_is_plain(json@, MAX_DEPTH as nat);
    }
    pretty_bytes(&value_of(&json_order::tidy(json))).unwrap()
}

/// The bytes of a document, tidied, on one line.
pub fn compact_json(json: &Json) -> (r: Vec<u8>)
    ensures
        r@ == json_compact(json_order::tidied(json@)),
{
    proof {
        json_order::lemma_tidied_is_tidy(json@);
    }
    compact_bytes(&value_of(&json_order::tidy(json))).unwrap()
}

// ---------------------------------------------------------------------------------------
// Quoted text
// ---------------------------------------------------------------------------------------

pub open spec fn hex_digit(n: nat) -> char {
    if n < 10 {
        (('0' as u32) + n) as char
    } else {
        (('a' as u32) + n - 10) as char
    }
}

/// A character as it stands in a JSON string.
pub open spec fn escaped(c: char) -> Seq<char> {
    if c == '"' {
        seq!['\\', '"']
    } else if c == '\\' {
        seq!['\\', '\\']
    } else if c == '\u{8}' {
        seq!['\\', 'b']
    } else if c == '\t' {
        seq!['\\', 't']
    } else if c == '\n' {
        seq!['\\', 'n']
    } else if c == '\u{c}' {
        seq!['\\', 'f']
    } else if c == '\r' {
        seq!['\\', 'r']
    } else if (c as u32) < 0x20 {
        seq!['\\', 'u', '0', '0', hex_digit(c as nat / 16), hex_digit(c as nat % 16)]
    } else {
        seq![c]
    }
}

pub open spec fn all_escaped(s: Seq<char>) -> Seq<char>
    decreases s.len(),
{
    if s.len() == 0 {
        s
    } else {
        all_escaped(s.drop_last()) + escaped(s.last())
    }
}

/// A text as a JSON string.
pub open spec fn json_quoted(s: Seq<char>) -> Seq<char> {
    seq!['"'] + all_escaped(s) + seq!['"']
}

/// The character that an escape ends up as.
pub open spec fn simple_escape(c: char) -> Option<char> {
    if c == '"' || c == '\\' {
        Some(c)
    } else if c == 'b' {
        Some('\u{8}')
    } else if c == 't' {
        Some('\t')
    } else if c == 'n' {
        Some('\n')
    } else if c == 'f' {
        Some('\u{c}')
    } else if c == 'r' {
        Some('\r')
    } else {
        None
    }
}

/// The number that a hexadecimal digit stands for.
pub open spec fn hex_value(c: char) -> nat {
    if '0' <= c <= '9' {
        (c as nat - '0' as nat) as nat
    } else {
        (c as nat - 'a' as nat + 10) as nat
    }
}

/// The text that the inside of a quoted text stands for: an unescaped quotation mark would end
/// it, and escapes with a number are read below U+0100.
pub open spec fn unescaped(s: Seq<char>) -> Option<Seq<char>>
    decreases s.len(),
{
    if s.len() == 0 {
        Some(Seq::empty())
    } else if s[0] == '"' {
        None
    } else if s[0] != '\\' {
        put_before(s[0], unescaped(s.skip(1)))
    } else if s.len() >= 2 && simple_escape(s[1]) is Some {
        put_before(simple_escape(s[1])->0, unescaped(s.skip(2)))
    } else if s.len() >= 6 && s[1] == 'u' && s[2] == '0' && s[3] == '0' {
        put_before(
            (hex_value(s[4]) * 16 + hex_value(s[5])) as char,
            unescaped(s.skip(6)),
        )
    } else {
        None
    }
}

pub open spec fn put_before(c: char, rest: Option<Seq<char>>) -> Option<Seq<char>> {
    match rest {
        Some(s) => Some(seq![c] + s),
        None => None,
    }
}

proof fn lemma_escaped_front(s: Seq<char>)
    requires
        s.len() > 0,
    ensures
        all_escaped(s) == escaped(s[0]) + all_escaped(s.skip(1)),
    decreases s.len(),
{
    if s.len() == 1 {
        assert(s.drop_last() =~= Seq::<char>::empty());
        assert(s.skip(1) =~= Seq::<char>::empty());
        assert(all_escaped(s) =~= escaped(s[0]) + all_escaped(s.skip(1)));
    } else {
        lemma_escaped_front(s.drop_last());
        assert(s.drop_last().skip(1) =~= s.skip(1).drop_last());
        assert(all_escaped(s) =~= escaped(s[0]) + all_escaped(s.skip(1)));
    }
}

proof fn lemma_hex_digit(n: nat)
    requires
        n < 16,
    ensures
        hex_value(hex_digit(n)) == n,
{
}

proof fn lemma_numbered_escape(c: char)
    requires
        (c as u32) < 0x20,
    ensures
        (hex_value(hex_digit(c as nat / 16)) * 16 + hex_value(hex_digit(c as nat % 16))) as char == c,
{
    lemma_hex_digit(c as nat / 16);
    lemma_hex_digit(c as nat % 16);
}

proof fn lemma_unescape_numbered(c: char, rest: Seq<char>)
    requires
        escaped(c).len() == 6,
    ensures
        unescaped(escaped(c) + rest) == put_before(c, unescaped(rest)),
{
    let whole = escaped(c) + rest;
    assert(whole.skip(6) =~= rest);
    assert(whole[0] == '\\' && whole[1] == 'u' && whole[2] == '0' && whole[3] == '0');
    assert(whole[4] == hex_digit(c as nat / 16) && whole[5] == hex_digit(c as nat % 16));
    lemma_numbered_escape(c);
}

proof fn lemma_unescape_simple(c: char, rest: Seq<char>)
    requires
        escaped(c).len() < 6,
    ensures
        unescaped(escaped(c) + rest) == put_before(c, unescaped(rest)),
{
    let whole = escaped(c) + rest;
    assert(whole[0] == escaped(c)[0]);
    if escaped(c).len() == 2 {
        assert(whole.skip(2) =~= rest);
        assert(whole[1] == escaped(c)[1]);
    } else {
        assert(whole.skip(1) =~= rest);
    }
}

/// What stands between the quotation marks of a quoted text reads back as the text, and nothing in it
/// ends it early.
pub proof fn law_quoted_text_reads_back(s: Seq<char>)
    ensures
        unescaped(all_escaped(s)) == Some(s),
    decreases s.len(),
{
    if s.len() == 0 {
        assert(s =~= Seq::<char>::empty());
    } else {
        let rest = s.skip(1);
        law_quoted_text_reads_back(rest);
        lemma_escaped_front(s);
        if escaped(s[0]).len() == 6 {
            lemma_unescape_numbered(s[0], all_escaped(rest));
        } else {
            lemma_unescape_simple(s[0], all_escaped(rest));
        }
        assert(s =~= seq![s[0]] + rest);
    }
}

/// `serde_json::to_string` on a text gives the text as a JSON string: in quotation marks, with
/// `"`, `\` and the control characters below U+0020 escaped. It does not fail.
#[verifier::external_body]
pub(crate) fn quoted_text(s: &str) -> (r: Option<String>)
    ensures
        r is Some,
        r->0@ == json_quoted(s@),
{
    serde_json::to_string(s).ok()
}

/// The first entry with its key is found there.
pub proof fn lemma_entry_found(entries: Entries, i: int)
    requires
        0 <= i < entries.len(),
        forall|j: int| 0 <= j < i ==> (#[trigger] entries[j]).0 != entries[i].0,
    ensures
        lookup(entries, entries[i].0) == Some(entries[i].1),
{
    lemma_key_index_is(entries, entries[i].0, i);
}

/// Where no entry has a key, nothing is found there.
pub proof fn lemma_entry_missing(entries: Entries, key: Seq<char>)
    requires
        forall|j: int| 0 <= j < entries.len() ==> (#[trigger] entries[j]).0 != key,
    ensures
        lookup(entries, key) is None,
{
    lemma_key_index_is(entries, key, entries.len() as int);
}

} // verus!
