//! Embeddings of memory chunks: the service that makes them, and the cache that keeps them.
use crate::json;
use crate::json::{Json, JsonModel};
use crate::number;
use crate::text::{self, CharClass};
use vstd::prelude::*;

verus! {

pub const MAX_EMBEDDING_DIMENSIONS: usize = 8_192;

pub const EMBEDDING_BATCH_SIZE: usize = 32;

pub const CACHE_VERSION: u8 = 1;

/// The file that keeps the cache.
pub const EMBEDDING_CACHE_FILE: &'static str = "memory-embeddings-cache.json";

/// Why memories are not ranked by embeddings.
#[derive(Clone, Copy, Debug, PartialEq, Eq, Structural)]
pub enum EmbeddingError {
    InvalidBaseUrl,
    UnsupportedScheme,
    Status(u16),
    InvalidVector,
    MissingVector,
    CountMismatch,
    NoQueryVector,
}

impl EmbeddingError {
    pub open spec fn says(self) -> Seq<char> {
        match self {
            EmbeddingError::InvalidBaseUrl => "记忆嵌入 Base URL 无效"@,
            EmbeddingError::UnsupportedScheme => "记忆嵌入 Base URL 只支持 HTTP 或 HTTPS"@,
            EmbeddingError::Status(code) => "嵌入接口返回 HTTP "@ + number::decimal(code as nat),
            EmbeddingError::InvalidVector => "嵌入接口返回了无效向量"@,
            EmbeddingError::MissingVector => "嵌入接口缺少向量"@,
            EmbeddingError::CountMismatch => "嵌入接口返回的文档向量数量不匹配"@,
            EmbeddingError::NoQueryVector => "嵌入接口未返回查询向量"@,
        }
    }

    pub fn message(&self) -> (r: String)
        ensures
            r@ == self.says(),
    {
        match self {
            EmbeddingError::InvalidBaseUrl => "记忆嵌入 Base URL 无效".to_owned(),
            EmbeddingError::UnsupportedScheme =>
                "记忆嵌入 Base URL 只支持 HTTP 或 HTTPS".to_owned(),
            EmbeddingError::Status(code) => {
                let digits = text::text_of(number::decimal_chars(*code as u128).as_slice());
                "嵌入接口返回 HTTP ".to_owned().concat(digits.as_str())
            },
            EmbeddingError::InvalidVector => "嵌入接口返回了无效向量".to_owned(),
            EmbeddingError::MissingVector => "嵌入接口缺少向量".to_owned(),
            EmbeddingError::CountMismatch =>
                "嵌入接口返回的文档向量数量不匹配".to_owned(),
            EmbeddingError::NoQueryVector => "嵌入接口未返回查询向量".to_owned(),
        }
    }
}

// ---------------------------------------------------------------------------------------
// The address of the service
// ---------------------------------------------------------------------------------------

/// The scheme, the path and the whole text of the address that `reqwest::Url::parse` reads from a
/// text, where it accepts it.
pub uninterp spec fn url_read(address: Seq<char>) -> Option<(Seq<char>, Seq<char>, Seq<char>)>;

/// The text of the address that `reqwest::Url::parse` reads from a text, once `set_path` has given it
/// another path.
pub uninterp spec fn url_with_path(address: Seq<char>, path: Seq<char>) -> Option<Seq<char>>;

/// Whether a scheme is one of the two of the web.
pub open spec fn web_scheme(scheme: Seq<char>) -> bool {
    scheme == "http"@ || scheme == "https"@
}

/// Whether a text is one more segment of a path, of lower-case letters.
pub open spec fn plain_segment(s: Seq<char>) -> bool {
    s.len() > 1 && s[0] == '/' && forall|i: int| 0 < i < s.len() ==> 'a' <= #[trigger] s[i] <= 'z'
}

/// Whether a text holds no white space.
pub open spec fn is_solid(s: Seq<char>) -> bool {
    forall|i: int| 0 <= i < s.len() ==> !text::is_space(#[trigger] s[i])
}

/// Whether a text is of letters and digits of ASCII, colons, slashes, points, single hyphens and
/// underscores alone, so that nothing in it is encoded, and no name in it is one of other letters
/// in ASCII.
pub open spec fn plain_address(s: Seq<char>) -> bool {
    &&& forall|i: int|
        0 <= i < s.len() ==> text::is_ascii_alphanumeric(#[trigger] s[i]) || s[i] == ':' || s[i]
            == '/' || s[i] == '.' || s[i] == '-' || s[i] == '_'
    &&& !text::occurs(s, "--"@)
}

/// `reqwest::Url::parse` reads an address, or refuses it, and `scheme`, `path` and `as_str` give
/// its parts; all this depends on the text alone. The path has at most twelve characters for each
/// character of the text, which is one percent-encoded character of four bytes, and one more. The
/// text of the web address that a plain text gives holds no white space and reads as the same
/// address. Nothing of the kind is said of other texts: the name of a host in other letters may
/// be given in a form that is too long to be read.
#[verifier::external_body]
fn read_url(address: &str) -> (r: Option<(String, String, String)>)
    ensures
        match r {
            Some(u) => url_read(address@) == Some((u.0@, u.1@, u.2@)) && u.1@.len() <= 12
                * address@.len() + 1 && (plain_address(address@) && web_scheme(u.0@) ==> is_solid(
                u.2@,
            ) && url_read(u.2@) == Some((u.0@, u.1@, u.2@))),
            None => url_read(address@) is None,
        },
{
    let url = reqwest::Url::parse(address).ok()?;
    Some((url.scheme().to_owned(), url.path().to_owned(), url.as_str().to_owned()))
}

/// `reqwest::Url::parse` and `Url::set_path` give the address with another path; its text depends
/// on the two texts alone. Where a plain text gives a web address whose own path, without the
/// slashes at its end, gets one more plain segment, the text reads as that address, and holds no
/// white space. The limits keep the text below the 4 GiB that an address may have, beyond which
/// `set_path` panics, however its characters are encoded.
#[verifier::external_body]
fn replace_url_path(address: &str, path: &str) -> (r: Option<String>)
    requires
        address@.len() <= 0x100_0000,
        path@.len() <= 0x1000_0000,
    ensures
        match r {
            Some(u) => url_with_path(address@, path@) == Some(u@) && url_read(address@) is Some && (
            forall|segment: Seq<char>|
                plain_address(address@) && web_scheme((url_read(address@)->0).0)
                    && #[trigger] plain_segment(segment) && path@ == text::trimmed_end(
                    (url_read(address@)->0).1,
                    CharClass::Slash,
                ) + segment ==> is_solid(u@) && url_read(u@) == Some(
                    ((url_read(address@)->0).0, path@, u@),
                )),
            None => url_with_path(address@, path@) is None && url_read(address@) is None,
        },
{
    let mut url = reqwest::Url::parse(address).ok()?;
    url.set_path(path);
    Some(url.as_str().to_owned())
}

/// The path of the service: `/embeddings` is added where the path does not end with it, slashes
/// at its end aside. There is nothing to change where it does.
pub open spec fn extended_path(path: Seq<char>) -> Option<Seq<char>> {
    let short = text::trimmed_end(path, CharClass::Slash);
    if text::ends(short, "/embeddings"@) {
        None
    } else {
        Some(short + "/embeddings"@)
    }
}

/// What becomes of the path of an address: only web addresses are used.
pub open spec fn service_path(scheme: Seq<char>, path: Seq<char>) -> Result<
    Option<Seq<char>>,
    EmbeddingError,
> {
    if !web_scheme(scheme) {
        Err(EmbeddingError::UnsupportedScheme)
    } else {
        Ok(extended_path(path))
    }
}

/// The address of the service for the address that the user gave.
pub open spec fn endpoint_of(base: Seq<char>) -> Result<Seq<char>, EmbeddingError> {
    match url_read(text::trimmed(base)) {
        None => Err(EmbeddingError::InvalidBaseUrl),
        Some((scheme, path, whole)) => match service_path(scheme, path) {
            Err(e) => Err(e),
            Ok(None) => Ok(whole),
            Ok(Some(longer)) => match url_with_path(text::trimmed(base), longer) {
                Some(u) => Ok(u),
                None => Err(EmbeddingError::InvalidBaseUrl),
            },
        },
    }
}

pub open spec fn opt_chars(s: Option<Seq<char>>, t: Option<String>) -> bool {
    match t {
        Some(t) => s == Some(t@),
        None => s is None,
    }
}

/// Decides what becomes of the path of an address.
pub fn embeddings_path(scheme: &str, path: &str) -> (r: Result<Option<String>, EmbeddingError>)
    ensures
        match r {
            Ok(p) => service_path(scheme@, path@) is Ok && opt_chars(
                service_path(scheme@, path@)->Ok_0,
                p,
            ),
            Err(e) => service_path(scheme@, path@) == Err::<Option<Seq<char>>, EmbeddingError>(e),
        },
{
    if !(text::same_text(scheme, "http") || text::same_text(scheme, "https")) {
        return Err(EmbeddingError::UnsupportedScheme);
    }
    let short = text::trim_end(text::chars_of(path).as_slice(), CharClass::Slash);
    if text::ends_with(short.as_slice(), text::chars_of("/embeddings").as_slice()) {
        Ok(None)
    } else {
        Ok(Some(text::text_of(short.as_slice()).concat("/embeddings")))
    }
}

/// The path of the service is extended once: what has been extended is not extended again.
pub proof fn law_path_is_extended_once(path: Seq<char>)
    ensures
        extended_path(path) matches Some(longer) ==> extended_path(longer) is None,
{
    reveal_strlit("/embeddings");
    let short = text::trimmed_end(path, CharClass::Slash);
    let longer = short + "/embeddings"@;
    let end = "/embeddings"@;
    assert(longer.last() == end.last());
    assert(text::trimmed_end(longer, CharClass::Slash) == longer);
    assert(longer.subrange(longer.len() - end.len(), longer.len() as int) =~= end);
}

proof fn lemma_solid_is_trimmed(s: Seq<char>)
    requires
        is_solid(s),
    ensures
        text::trimmed(s) == s,
{
    if s.len() > 0 {
        assert(!text::is_space(s[0]));
        assert(!text::is_space(s[s.len() - 1]));
    }
}

/// The address of the service. The address of a service, where it comes of a plain text, is its own.
pub fn embeddings_endpoint(base_url: &str) -> (r: Result<String, EmbeddingError>)
    requires
        base_url@.len() <= 0x100_0000,
    ensures
        match r {
            Ok(endpoint) => endpoint_of(base_url@) == Ok::<Seq<char>, EmbeddingError>(endpoint@) && (
            plain_address(text::trimmed(base_url@)) ==> endpoint_of(endpoint@) == Ok::<
                Seq<char>,
                EmbeddingError,
            >(endpoint@)),
            Err(e) => endpoint_of(base_url@) == Err::<Seq<char>, EmbeddingError>(e),
        },
{
    let base = text::text_of(text::trim(text::chars_of(base_url).as_slice()).as_slice());
    proof {
        text::lemma_trimmed_len(base_url@);
    }
    let (scheme, path, whole) = match read_url(base.as_str()) {
        Some(u) => u,
        None => {
            return Err(EmbeddingError::InvalidBaseUrl);
        },
    };
    match embeddings_path(scheme.as_str(), path.as_str()) {
        Err(e) => Err(e),
        Ok(None) => {
            proof {
                if plain_address(base@) {
                    lemma_solid_is_trimmed(whole@);
                }
            }
            Ok(whole)
        },
        Ok(Some(longer)) => {
            proof {
                reveal_strlit("/embeddings");
                text::lemma_trimmed_end(path@, CharClass::Slash);
                assert(plain_segment("/embeddings"@));
                law_path_is_extended_once(path@);
            }
            match replace_url_path(base.as_str(), longer.as_str()) {
                Some(u) => {
                    proof {
                        if plain_address(base@) {
                            lemma_solid_is_trimmed(u@);
                        }
                    }
                    Ok(u)
                },
                None => Err(EmbeddingError::InvalidBaseUrl),
            }
        },
    }
}

// ---------------------------------------------------------------------------------------
// Asking the service
// ---------------------------------------------------------------------------------------

/// The body of a request for the embeddings of texts.
pub open spec fn embedding_request(model: Seq<char>, inputs: Seq<Seq<char>>) -> JsonModel {
    JsonModel::Object(
        seq![
            ("model"@, JsonModel::Text(model)),
            ("input"@, JsonModel::Array(inputs.map_values(|s: Seq<char>| JsonModel::Text(s)))),
        ],
    )
}

pub fn make_embedding_request(model: &str, inputs: &Vec<String>) -> (r: Json)
    ensures
        r@ == embedding_request(model@, text::strings(inputs@)),
{
    broadcast use json::lemma_view;

    let ghost wanted = text::strings(inputs@).map_values(|s: Seq<char>| JsonModel::Text(s));
    let mut list: Vec<Json> = Vec::new();
    for i in 0..inputs.len()
        invariant
            wanted == text::strings(inputs@).map_values(|s: Seq<char>| JsonModel::Text(s)),
            json::models(list@) == wanted.take(i as int),
    {
        let ghost before = list@;
        let item = Json::Text(inputs[i].clone());
        assert(wanted[i as int] == item@);
        list.push(item);
        assert(json::models(list@) =~= json::models(before).push(item@));
        assert(json::models(list@) =~= wanted.take(i + 1));
    }
    assert(wanted.take(inputs@.len() as int) =~= wanted);
    let mut fields: Vec<(String, Json)> = Vec::new();
    fields.push(("model".to_owned(), Json::Text(model.to_owned())));
    fields.push(("input".to_owned(), Json::Array(list)));
    assert(json::entry_models(fields@) =~= embedding_request(
        model@,
        text::strings(inputs@),
    )->Object_0);
    Json::Object(fields)
}

/// Whether the service answered a request.
pub fn check_status(code: u16) -> (r: Result<(), EmbeddingError>)
    ensures
        match r {
            Ok(_) => 200 <= code < 300,
            Err(e) => !(200 <= code < 300) && e == EmbeddingError::Status(code),
        },
{
    if 200 <= code && code < 300 {
        Ok(())
    } else {
        Err(EmbeddingError::Status(code))
    }
}

/// The embedding of one of the texts that were sent, by the bits of its numbers in single precision.
#[derive(Debug)]
pub struct EmbeddingDatum {
    pub index: usize,
    pub embedding: Vec<u32>,
}

pub struct DatumModel {
    pub index: usize,
    pub embedding: Seq<u32>,
}

impl View for EmbeddingDatum {
    type V = DatumModel;

    open spec fn view(&self) -> DatumModel {
        DatumModel { index: self.index, embedding: self.embedding@ }
    }
}

pub open spec fn data_models(data: Seq<EmbeddingDatum>) -> Seq<DatumModel> {
    data.map_values(|d: EmbeddingDatum| d@)
}

/// Whether the bits of a number in single precision are those of a finite number: not all bits of the
/// exponent are set.
pub open spec fn finite(bits: u32) -> bool {
    bits & 0x7f80_0000 != 0x7f80_0000
}

/// Whether an embedding can be used: it belongs to one of the texts, it is neither empty nor too
/// long, and its numbers are finite.
pub open spec fn usable(datum: DatumModel, count: nat) -> bool {
    &&& datum.index < count
    &&& 0 < datum.embedding.len() <= MAX_EMBEDDING_DIMENSIONS
    &&& forall|i: int| 0 <= i < datum.embedding.len() ==> finite(#[trigger] datum.embedding[i])
}

pub open spec fn all_usable(data: Seq<DatumModel>, count: nat) -> bool {
    forall|i: int| 0 <= i < data.len() ==> usable(#[trigger] data[i], count)
}

/// The last embedding that is given for a text.
pub open spec fn last_for(data: Seq<DatumModel>, index: int) -> Option<Seq<u32>>
    decreases data.len(),
{
    if data.len() == 0 {
        None
    } else if data.last().index == index {
        Some(data.last().embedding)
    } else {
        last_for(data.drop_last(), index)
    }
}

pub open spec fn vectors(list: Seq<Vec<u32>>) -> Seq<Seq<u32>> {
    list.map_values(|v: Vec<u32>| v@)
}

/// The embeddings in the order of the texts: each text needs one, and all that were given must be
/// usable.
pub open spec fn ordered(data: Seq<DatumModel>, count: nat) -> Result<
    Seq<Seq<u32>>,
    EmbeddingError,
> {
    if !all_usable(data, count) {
        Err(EmbeddingError::InvalidVector)
    } else if exists|i: int| 0 <= i < count && #[trigger] last_for(data, i) is None {
        Err(EmbeddingError::MissingVector)
    } else {
        Ok(Seq::new(count, |i: int| last_for(data, i)->0))
    }
}

fn is_usable(datum: &EmbeddingDatum, count: usize) -> (r: bool)
    ensures
        r == usable(datum@, count as nat),
{
    if datum.index >= count || datum.embedding.len() == 0 || datum.embedding.len()
        > MAX_EMBEDDING_DIMENSIONS {
        return false;
    }
    for i in 0..datum.embedding.len()
        invariant
            forall|j: int| 0 <= j < i ==> finite(#[trigger] datum.embedding@[j]),
    {
        if datum.embedding[i] & 0x7f80_0000 == 0x7f80_0000 {
            assert(!finite(datum@.embedding[i as int]));
            return false;
        }
    }
    true
}

/// Whether a slot holds what has been given for a text in the data behind a position.
spec fn slot_is(slot: Option<Vec<u32>>, found: Option<Seq<u32>>) -> bool {
    match slot {
        Some(v) => found == Some(v@),
        None => found is None,
    }
}

proof fn lemma_last_for(data: Seq<DatumModel>, n: int, index: int)
    requires
        0 <= n < data.len(),
    ensures
        last_for(data.skip(n), index) == (match last_for(data.skip(n + 1), index) {
            Some(v) => Some(v),
            None => if data[n].index == index {
                Some(data[n].embedding)
            } else {
                None
            },
        }),
    decreases data.len() - n,
{
    let whole = data.skip(n);
    if n + 1 == data.len() {
        assert(whole.drop_last() =~= Seq::<DatumModel>::empty());
        assert(data.skip(n + 1) =~= Seq::<DatumModel>::empty());
    } else {
        let shorter = data.drop_last();
        lemma_last_for(shorter, n, index);
        assert(shorter.skip(n) =~= whole.drop_last());
        assert(shorter.skip(n + 1) =~= data.skip(n + 1).drop_last());
    }
}

/// Puts the embeddings that the service gave in the order of the texts.
pub fn order_embeddings(data: Vec<EmbeddingDatum>, count: usize) -> (r: Result<
    Vec<Vec<u32>>,
    EmbeddingError,
>)
    ensures
        match r {
            Ok(v) => ordered(data_models(data@), count as nat) == Ok::<
                Seq<Seq<u32>>,
                EmbeddingError,
            >(vectors(v@)),
            Err(e) => ordered(data_models(data@), count as nat) == Err::<
                Seq<Seq<u32>>,
                EmbeddingError,
            >(e),
        },
{
    let ghost model = data_models(data@);
    for i in 0..data.len()
        invariant
            model == data_models(data@),
            forall|j: int| 0 <= j < i ==> usable(#[trigger] model[j], count as nat),
    {
        assert(model[i as int] == data@[i as int]@);
        if !is_usable(&data[i], count) {
            assert(!usable(model[i as int], count as nat));
            return Err(EmbeddingError::InvalidVector);
        }
    }
    assert(all_usable(model, count as nat));
    let mut slots: Vec<Option<Vec<u32>>> = Vec::new();
    for i in 0..count
        invariant
            slots@.len() == i,
            forall|j: int| 0 <= j < i ==> #[trigger] slots@[j] is None,
    {
        slots.push(None);
    }
    let mut rest = data;
    assert(model.take(rest@.len() as int) =~= model);
    assert(model.skip(rest@.len() as int) =~= Seq::<DatumModel>::empty());
    while rest.len() > 0
        invariant
            all_usable(model, count as nat),
            rest@.len() <= model.len(),
            data_models(rest@) == model.take(rest@.len() as int),
            slots@.len() == count,
            forall|j: int|
                0 <= j < count ==> slot_is(
                    #[trigger] slots@[j],
                    last_for(model.skip(rest@.len() as int), j),
                ),
        decreases rest@.len(),
    {
        let ghost n = rest@.len() - 1;
        let ghost before = slots@;
        proof {
            assert(data_models(rest@)[n] == rest@[n]@);
            assert(model[n] == rest@[n]@);
            assert(usable(model[n], count as nat));
        }
        match rest.pop() {
            Some(datum) => {
                let index = datum.index;
                if slots[index].is_none() {
                    slots[index] = Some(datum.embedding);
                }
                proof {
                    assert(data_models(rest@) =~= model.take(n));
                    assert forall|j: int| 0 <= j < count implies slot_is(
                        #[trigger] slots@[j],
                        last_for(model.skip(n), j),
                    ) by {
                        lemma_last_for(model, n, j);
                        assert(slot_is(before[j], last_for(model.skip(n + 1), j)));
                    }
                }
            },
            None => {},
        }
    }
    assert(model.skip(0) =~= model);
    let mut r: Vec<Vec<u32>> = Vec::new();
    let ghost all = slots@;
    let mut taken: usize = 0;
    while slots.len() > 0
        invariant
            model == data_models(data@),
            all_usable(model, count as nat),
            all.len() == count,
            taken + slots@.len() == count,
            slots@ == all.skip(taken as int),
            r@.len() == taken,
            forall|j: int| 0 <= j < count ==> slot_is(#[trigger] all[j], last_for(model, j)),
            forall|j: int| 0 <= j < taken ==> last_for(model, j) == Some(#[trigger] vectors(r@)[j]),
        decreases slots@.len(),
    {
        let ghost before = r@;
        assert(slots@[0] == all[taken as int]);
        match slots.remove(0) {
            Some(v) => {
                r.push(v);
                proof {
                    assert(vectors(r@) =~= vectors(before).push(v@));
                    assert(slots@ =~= all.skip(taken + 1));
                }
                taken = taken + 1;
            },
            None => {
                assert(last_for(model, taken as int) is None);
                return Err(EmbeddingError::MissingVector);
            },
        }
    }
    proof {
        let expected = Seq::new(count as nat, |i: int| last_for(model, i)->0);
        assert(vectors(r@).len() == count);
        assert forall|i: int| 0 <= i < count implies #[trigger] last_for(model, i) is Some by {
            assert(last_for(model, i) == Some(vectors(r@)[i]));
        }
        assert(vectors(r@) =~= expected);
    }
    Ok(r)
}

// ---------------------------------------------------------------------------------------
// What is asked and what is taken
// ---------------------------------------------------------------------------------------

/// A request names the model and holds the texts, all of them and in their order.
pub proof fn law_request_holds_the_texts(model: &str, inputs: Vec<String>, r: Json)
    requires
        call_ensures(make_embedding_request, (model, &inputs), r),
    ensures
        r@.text_at("model"@) == Some(model@),
        r@.items_at("input"@).len() == inputs@.len(),
        forall|i: int|
            0 <= i < inputs@.len() ==> #[trigger] r@.items_at("input"@)[i] == JsonModel::Text(
                inputs@[i]@,
            ),
{
    reveal_strlit("model");
    reveal_strlit("input");
    assert("model"@[0] == 'm' && "input"@[0] == 'i');
    let whole = embedding_request(model@, text::strings(inputs@))->Object_0;
    json::lemma_entry_found(whole, 0);
    json::lemma_entry_found(whole, 1);
    assert(forall|i: int|
        0 <= i < inputs@.len() ==> #[trigger] text::strings(inputs@)[i] == inputs@[i]@);
}

/// A number in single precision is finite where the eight bits of its exponent are not all set.
proof fn lemma_finite(bits: u32)
    ensures
        finite(bits) <==> (bits / 0x80_0000) % 0x100 != 0xff,
{
    assert((bits & 0x7f80_0000 != 0x7f80_0000) <==> (bits / 0x80_0000) % 0x100 != 0xff)
        by (bit_vector);
}

/// Whether an embedding can be taken: it is for one of the texts, has between one and 8192
/// numbers, and all of them are finite.
pub open spec fn can_be_taken(datum: EmbeddingDatum, count: nat) -> bool {
    &&& datum.index < count
    &&& 1 <= datum.embedding@.len() <= 8192
    &&& forall|i: int|
        0 <= i < datum.embedding@.len() ==> ((#[trigger] datum.embedding@[i]) / 0x80_0000) % 0x100
            != 0xff
}

proof fn lemma_can_be_taken(datum: EmbeddingDatum, count: nat)
    ensures
        can_be_taken(datum, count) == usable(datum@, count),
{
    assert forall|i: int| 0 <= i < datum.embedding@.len() implies finite(
        #[trigger] datum.embedding@[i],
    ) == ((datum.embedding@[i] / 0x80_0000) % 0x100 != 0xff) by {
        lemma_finite(datum.embedding@[i]);
    }
    if can_be_taken(datum, count) {
        assert(forall|i: int|
            0 <= i < datum.embedding@.len() ==> finite(#[trigger] datum@.embedding[i]));
    }
    if usable(datum@, count) {
        assert forall|i: int| 0 <= i < datum.embedding@.len() implies ((
        #[trigger] datum.embedding@[i]) / 0x80_0000) % 0x100 != 0xff by {
            assert(finite(datum@.embedding[i]));
        }
    }
}

/// What is found for a text is the embedding of the last datum that names it.
proof fn lemma_last_for_is(data: Seq<DatumModel>, index: int)
    ensures
        match last_for(data, index) {
            Some(v) => exists|k: int|
                0 <= k < data.len() && (#[trigger] data[k]).index == index && data[k].embedding == v
                    && forall|j: int| k < j < data.len() ==> (#[trigger] data[j]).index != index,
            None => forall|j: int| 0 <= j < data.len() ==> (#[trigger] data[j]).index != index,
        },
    decreases data.len(),
{
    if data.len() > 0 {
        let front = data.drop_last();
        let n = data.len() - 1;
        if data.last().index == index {
            assert(data[n].index == index);
        } else {
            lemma_last_for_is(front, index);
            match last_for(front, index) {
                Some(v) => {
                    let k = choose|k: int|
                        0 <= k < front.len() && (#[trigger] front[k]).index == index
                            && front[k].embedding == v && forall|j: int|
                            k < j < front.len() ==> (#[trigger] front[j]).index != index;
                    assert(data[k] == front[k]);
                    assert forall|j: int| k < j < data.len() implies (#[trigger] data[j]).index
                        != index by {
                        if j < n {
                            assert(data[j] == front[j]);
                        }
                    }
                },
                None => {
                    assert forall|j: int| 0 <= j < data.len() implies (#[trigger] data[j]).index
                        != index by {
                        if j < n {
                            assert(data[j] == front[j]);
                        }
                    }
                },
            }
        }
    }
}

/// Each text gets the embedding that was given for it, of several the last, in the order of the
/// texts. Nothing is taken where one of the embeddings cannot be, or where a text has none.
pub proof fn law_each_text_gets_its_embedding(
    data: Vec<EmbeddingDatum>,
    count: usize,
    r: Result<Vec<Vec<u32>>, EmbeddingError>,
)
    requires
        call_ensures(order_embeddings, (data, count), r),
    ensures
        match r {
            Ok(v) => {
                &&& v@.len() == count
                &&& forall|k: int|
                    0 <= k < data@.len() ==> can_be_taken(#[trigger] data@[k], count as nat)
                &&& forall|i: int|
                    0 <= i < count ==> is_last_given(data@, i, (#[trigger] v@[i])@)
            },
            Err(EmbeddingError::InvalidVector) => exists|k: int|
                0 <= k < data@.len() && !can_be_taken(#[trigger] data@[k], count as nat),
            Err(EmbeddingError::MissingVector) => exists|i: int|
                0 <= i < count && #[trigger] has_none(data@, i),
            Err(_) => false,
        },
{
    let model = data_models(data@);
    assert forall|k: int| 0 <= k < data@.len() implies can_be_taken(
        #[trigger] data@[k],
        count as nat,
    ) == usable(model[k], count as nat) by {
        lemma_can_be_taken(data@[k], count as nat);
        assert(model[k] == data@[k]@);
    }
    if !all_usable(model, count as nat) {
        let k = choose|k: int| 0 <= k < model.len() && !usable(#[trigger] model[k], count as nat);
        assert(!can_be_taken(data@[k], count as nat));
    } else {
        assert forall|k: int| 0 <= k < data@.len() implies can_be_taken(
            #[trigger] data@[k],
            count as nat,
        ) by {
            assert(usable(model[k], count as nat));
        }
        match r {
            Ok(v) => {
                assert(vectors(v@).len() == v@.len());
                assert forall|i: int| 0 <= i < count implies is_last_given(
                    data@,
                    i,
                    (#[trigger] v@[i])@,
                ) by {
                    lemma_last_for_is(model, i);
                    assert(vectors(v@)[i] == v@[i]@);
                    assert(last_for(model, i) is Some);
                    let k = choose|k: int|
                        0 <= k < model.len() && (#[trigger] model[k]).index == i
                            && model[k].embedding == last_for(model, i)->0 && forall|j: int|
                            k < j < model.len() ==> (#[trigger] model[j]).index != i;
                    assert(model[k] == data@[k]@);
                    assert forall|j: int| k < j < data@.len() implies (#[trigger] data@[j]).index
                        != i by {
                        assert(model[j] == data@[j]@);
                    }
                }
            },
            Err(_) => {
                let i = choose|i: int| 0 <= i < count && #[trigger] last_for(model, i) is None;
                lemma_last_for_is(model, i);
                assert forall|k: int| 0 <= k < data@.len() implies (#[trigger] data@[k]).index
                    != i by {
                    assert(model[k] == data@[k]@);
                }
                assert(has_none(data@, i));
            },
        }
    }
}

/// Whether numbers are the last that are given for a text.
pub open spec fn is_last_given(data: Seq<EmbeddingDatum>, i: int, numbers: Seq<u32>) -> bool {
    exists|k: int|
        0 <= k < data.len() && (#[trigger] data[k]).index == i && data[k].embedding@ == numbers
            && forall|j: int| k < j < data.len() ==> (#[trigger] data[j]).index != i
}

/// Whether no embedding is for a text.
pub open spec fn has_none(data: Seq<EmbeddingDatum>, i: int) -> bool {
    forall|k: int| 0 <= k < data.len() ==> (#[trigger] data[k]).index != i
}

/// The path of the service is that of the address, slashes at its end aside, with `/embeddings`
/// behind it; where it ends so already there is nothing to change. Addresses of the web alone are
/// used, and those are the ones with the scheme `http` or `https`.
pub proof fn law_path_of_the_service(scheme: Seq<char>, path: Seq<char>, tail: Seq<char>)
    requires
        forall|i: int| 0 <= i < tail.len() ==> (#[trigger] tail[i]) == '/',
        path.len() == 0 || path.last() != '/',
    ensures
        service_path(scheme, path + tail) is Ok <==> scheme == "http"@ || scheme == "https"@,
        service_path(scheme, path + tail) is Err ==> service_path(scheme, path + tail) == Err::<
            Option<Seq<char>>,
            EmbeddingError,
        >(EmbeddingError::UnsupportedScheme),
        extended_path(path + tail) == (if text::ends(path, "/embeddings"@) {
            None
        } else {
            Some(path + "/embeddings"@)
        }),
        service_path(scheme, path + tail) is Ok ==> service_path(scheme, path + tail)->Ok_0
            == extended_path(path + tail),
    decreases tail.len(),
{
    if tail.len() == 0 {
        assert(path + tail =~= path);
    } else {
        let less = tail.drop_last();
        assert forall|i: int| 0 <= i < less.len() implies (#[trigger] less[i]) == '/' by {
            assert(less[i] == tail[i]);
        }
        law_path_of_the_service(scheme, path, less);
        assert((path + tail).drop_last() =~= path + less);
        assert((path + tail).last() == tail[tail.len() - 1]);
    }
}

/// An address that cannot be read, or is none of the web, is refused with the reason; white space
/// around it does not count; and one that can be used is used as it was read, or with the longer
/// path in place of its own.
pub proof fn law_endpoint_is_read_from_the_address(base: Seq<char>)
    ensures
        ({
            let address = text::trimmed(base);
            match url_read(address) {
                None => endpoint_of(base) == Err::<Seq<char>, EmbeddingError>(
                    EmbeddingError::InvalidBaseUrl,
                ),
                Some((scheme, path, whole)) => if scheme != "http"@ && scheme != "https"@ {
                    endpoint_of(base) == Err::<Seq<char>, EmbeddingError>(
                        EmbeddingError::UnsupportedScheme,
                    )
                } else {
                    let short = text::trimmed_end(path, CharClass::Slash);
                    if text::ends(short, "/embeddings"@) {
                        endpoint_of(base) == Ok::<Seq<char>, EmbeddingError>(whole)
                    } else {
                        match url_with_path(address, short + "/embeddings"@) {
                            Some(u) => endpoint_of(base) == Ok::<Seq<char>, EmbeddingError>(u),
                            None => endpoint_of(base) is Err,
                        }
                    }
                },
            }
        }),
{
}

/// A service has answered where its status is one of the two hundreds, and any other status is
/// the error.
pub proof fn law_status_tells_whether_it_was_answered(code: u16, r: Result<(), EmbeddingError>)
    requires
        call_ensures(check_status, (code,), r),
    ensures
        code / 100 == 2 ==> r is Ok,
        code / 100 != 2 ==> r == Err::<(), EmbeddingError>(EmbeddingError::Status(code)),
{
}

/// Each error has words of its own, and those for a status name it.
pub proof fn law_embedding_errors_are_told_apart(error: EmbeddingError, r: String)
    requires
        call_ensures(EmbeddingError::message, (&error,), r),
    ensures
        r@ == (match error {
            EmbeddingError::InvalidBaseUrl => "记忆嵌入 Base URL 无效"@,
            EmbeddingError::UnsupportedScheme => "记忆嵌入 Base URL 只支持 HTTP 或 HTTPS"@,
            EmbeddingError::Status(code) => "嵌入接口返回 HTTP "@ + number::decimal(code as nat),
            EmbeddingError::InvalidVector => "嵌入接口返回了无效向量"@,
            EmbeddingError::MissingVector => "嵌入接口缺少向量"@,
            EmbeddingError::CountMismatch => "嵌入接口返回的文档向量数量不匹配"@,
            EmbeddingError::NoQueryVector => "嵌入接口未返回查询向量"@,
        }),
{
}

/// The path of the service is left as it is where it ends in `/embeddings`, slashes behind that
/// aside, and else made longer by that; an address that is none of the web has no such path.
pub proof fn law_path_is_made_longer_once(
    scheme: &str,
    path: &str,
    short: Seq<char>,
    tail: Seq<char>,
    r: Result<Option<String>, EmbeddingError>,
)
    requires
        call_ensures(embeddings_path, (scheme, path), r),
        path@ == short + tail,
        forall|i: int| 0 <= i < tail.len() ==> (#[trigger] tail[i]) == '/',
        short.len() == 0 || short.last() != '/',
    ensures
        scheme@ != "http"@ && scheme@ != "https"@ ==> r == Err::<Option<String>, EmbeddingError>(
            EmbeddingError::UnsupportedScheme,
        ),
        scheme@ == "http"@ || scheme@ == "https"@ ==> r is Ok && (if text::ends(
            short,
            "/embeddings"@,
        ) {
            r->Ok_0 is None
        } else {
            r->Ok_0 is Some && r->Ok_0->0@ == short + "/embeddings"@
        }),
{
    law_path_of_the_service(scheme@, short, tail);
}

} // verus!
