//! Memory texts: cutting them into chunks and into search terms.
use crate::text::{self, CharClass};
use vstd::prelude::*;

verus! {

pub const MAX_MEMORY_CHUNK_CHARS: usize = 1_400;

// ---------------------------------------------------------------------------------------
// Chunks
// ---------------------------------------------------------------------------------------

/// The parts, trimmed, of those that are not blank.
pub open spec fn trimmed_parts(parts: Seq<Seq<char>>) -> Seq<Seq<char>>
    decreases parts.len(),
{
    if parts.len() == 0 {
        parts
    } else {
        let before = trimmed_parts(parts.drop_last());
        if text::is_blank(parts.last()) {
            before
        } else {
            before.push(text::trimmed(parts.last()))
        }
    }
}

/// The paragraphs of a text: what stands between blank lines, trimmed.
pub open spec fn paragraphs(s: Seq<char>) -> Seq<Seq<char>> {
    trimmed_parts(text::parts_between(s, seq!['\n', '\n']))
}

/// A text cut after every `limit` characters.
pub open spec fn cut(s: Seq<char>, limit: nat) -> Seq<Seq<char>>
    decreases s.len(),
{
    if limit == 0 || s.len() <= limit {
        if s.len() == 0 {
            Seq::empty()
        } else {
            seq![s]
        }
    } else {
        seq![s.take(limit as int)] + cut(s.skip(limit as int), limit)
    }
}

/// A text cut after every `limit` characters, each part trimmed, blank parts left out.
pub open spec fn limited_parts(s: Seq<char>, limit: nat) -> Seq<Seq<char>> {
    trimmed_parts(cut(s, limit))
}

/// Chunks that are complete, and the one that is being filled.
pub struct Packing {
    pub done: Seq<Seq<char>>,
    pub current: Seq<char>,
}

/// The complete chunks with the current one behind them, where it holds anything.
pub open spec fn closed(packing: Packing) -> Seq<Seq<char>> {
    if packing.current.len() == 0 {
        packing.done
    } else {
        packing.done.push(packing.current)
    }
}

/// Adds a paragraph: to the current chunk where it fits, else to a new one. A paragraph that is
/// longer than a chunk is cut into chunks of its own.
pub open spec fn packed_with(packing: Packing, paragraph: Seq<char>) -> Packing {
    if paragraph.len() > MAX_MEMORY_CHUNK_CHARS {
        Packing {
            done: closed(packing) + limited_parts(paragraph, MAX_MEMORY_CHUNK_CHARS as nat),
            current: Seq::empty(),
        }
    } else if packing.current.len() == 0 {
        Packing { done: packing.done, current: paragraph }
    } else if packing.current.len() + 2 + paragraph.len() > MAX_MEMORY_CHUNK_CHARS {
        Packing { done: closed(packing), current: paragraph }
    } else {
        Packing { done: packing.done, current: packing.current + seq!['\n', '\n'] + paragraph }
    }
}

pub open spec fn packed(paragraphs: Seq<Seq<char>>) -> Packing
    decreases paragraphs.len(),
{
    if paragraphs.len() == 0 {
        Packing { done: Seq::empty(), current: Seq::empty() }
    } else {
        packed_with(packed(paragraphs.drop_last()), paragraphs.last())
    }
}

/// The chunks of a memory text.
pub open spec fn chunks_of(s: Seq<char>) -> Seq<Seq<char>> {
    closed(packed(paragraphs(s)))
}

fn trim_parts(parts: &Vec<Vec<char>>) -> (r: Vec<Vec<char>>)
    ensures
        text::texts(r@) == trimmed_parts(text::texts(parts@)),
{
    let ghost model = text::texts(parts@);
    let mut r: Vec<Vec<char>> = Vec::new();
    assert(text::texts(r@) =~= trimmed_parts(model.take(0)));
    for i in 0..parts.len()
        invariant
            model == text::texts(parts@),
            text::texts(r@) == trimmed_parts(model.take(i as int)),
    {
        assert(model.take(i + 1).drop_last() =~= model.take(i as int));
        assert(model[i as int] == parts@[i as int]@);
        let part = text::trim(parts[i].as_slice());
        if part.len() > 0 {
            let ghost before = r@;
            r.push(part);
            assert(text::texts(r@) =~= text::texts(before).push(part@));
        }
    }
    assert(model.take(parts@.len() as int) =~= model);
    r
}

fn cut_at(chars: &[char], limit: usize) -> (r: Vec<Vec<char>>)
    requires
        limit > 0,
    ensures
        text::texts(r@) == cut(chars@, limit as nat),
{
    let mut r: Vec<Vec<char>> = Vec::new();
    let mut start: usize = 0;
    assert(chars@.skip(0) =~= chars@);
    assert(text::texts(r@) + cut(chars@, limit as nat) =~= cut(chars@, limit as nat));
    while chars.len() - start > limit
        invariant
            limit > 0,
            start <= chars@.len(),
            text::texts(r@) + cut(chars@.skip(start as int), limit as nat) == cut(
                chars@,
                limit as nat,
            ),
        decreases chars@.len() - start,
    {
        let ghost rest = chars@.skip(start as int);
        let ghost before = r@;
        let part = text::range(chars, start, start + limit);
        assert(part@ =~= rest.take(limit as int));
        r.push(part);
        start = start + limit;
        assert(chars@.skip(start as int) =~= rest.skip(limit as int));
        assert(text::texts(r@) =~= text::texts(before).push(part@));
        assert(text::texts(r@) + cut(chars@.skip(start as int), limit as nat) =~= text::texts(
            before,
        ) + cut(rest, limit as nat));
    }
    let ghost rest = chars@.skip(start as int);
    if start < chars.len() {
        let ghost before = r@;
        let part = text::range(chars, start, chars.len());
        assert(part@ =~= rest);
        r.push(part);
        assert(text::texts(r@) =~= text::texts(before) + seq![rest]);
    } else {
        assert(text::texts(r@) + cut(rest, limit as nat) =~= text::texts(r@));
    }
    r
}

/// The text cut after every `limit` characters, each part trimmed, blank parts left out.
fn limit_parts(chars: &[char], limit: usize) -> (r: Vec<Vec<char>>)
    requires
        limit > 0,
    ensures
        text::texts(r@) == limited_parts(chars@, limit as nat),
{
    trim_parts(&cut_at(chars, limit))
}

/// Appends lists of characters to a list of strings.
fn push_texts(list: &mut Vec<String>, more: &Vec<Vec<char>>)
    ensures
        text::strings(final(list)@) == text::strings(old(list)@) + text::texts(more@),
{
    let ghost model = text::texts(more@);
    for i in 0..more.len()
        invariant
            model == text::texts(more@),
            text::strings(list@) == text::strings(old(list)@) + model.take(i as int),
    {
        let ghost before = list@;
        let s = text::text_of(more[i].as_slice());
        assert(model[i as int] == s@);
        list.push(s);
        assert(text::strings(list@) =~= text::strings(before).push(s@));
        assert(text::strings(list@) =~= text::strings(old(list)@) + model.take(i + 1));
    }
    assert(model.take(more@.len() as int) =~= model);
}

/// Cuts a text after every `limit` characters; each part is trimmed, and blank parts are left out.
pub fn split_at_char_limit(s: &str, limit: usize) -> (r: Vec<String>)
    requires
        limit > 0,
    ensures
        text::strings(r@) == limited_parts(s@, limit as nat),
{
    let mut r: Vec<String> = Vec::new();
    push_texts(&mut r, &limit_parts(text::chars_of(s).as_slice(), limit));
    assert(text::strings(r@) =~= limited_parts(s@, limit as nat));
    r
}

/// Cuts a memory text into chunks.
pub fn chunk_memory_text(s: &str) -> (r: Vec<String>)
    ensures
        text::strings(r@) == chunks_of(s@),
{
    let mut gap: Vec<char> = Vec::new();
    gap.push('\n');
    gap.push('\n');
    assert(gap@ =~= seq!['\n', '\n']);
    let list = trim_parts(&text::split_between(text::chars_of(s).as_slice(), gap.as_slice()));
    let ghost model = paragraphs(s@);
    let mut chunks: Vec<String> = Vec::new();
    let mut current: Vec<char> = Vec::new();
    assert(text::strings(chunks@) =~= packed(model.take(0)).done);
    assert(current@ =~= packed(model.take(0)).current);
    for i in 0..list.len()
        invariant
            gap@ == seq!['\n', '\n'],
            model == paragraphs(s@),
            model == text::texts(list@),
            current@.len() <= MAX_MEMORY_CHUNK_CHARS,
            text::strings(chunks@) == packed(model.take(i as int)).done,
            current@ == packed(model.take(i as int)).current,
    {
        let paragraph = &list[i];
        let ghost packing = packed(model.take(i as int));
        assert(model.take(i + 1).drop_last() =~= model.take(i as int));
        assert(model[i as int] == paragraph@);
        if paragraph.len() > MAX_MEMORY_CHUNK_CHARS {
            if current.len() > 0 {
                let ghost before = chunks@;
                let chunk = text::text_of(current.as_slice());
                chunks.push(chunk);
                assert(text::strings(chunks@) =~= text::strings(before).push(chunk@));
                current = Vec::new();
            }
            let parts = limit_parts(paragraph.as_slice(), MAX_MEMORY_CHUNK_CHARS);
            push_texts(&mut chunks, &parts);
            assert(current@ =~= Seq::<char>::empty());
        } else if current.len() == 0 {
            text::append(&mut current, paragraph.as_slice());
            assert(current@ =~= paragraph@);
        } else if current.len() + 2 + paragraph.len() > MAX_MEMORY_CHUNK_CHARS {
            let ghost before = chunks@;
            let chunk = text::text_of(current.as_slice());
            chunks.push(chunk);
            assert(text::strings(chunks@) =~= text::strings(before).push(chunk@));
            current = text::range(paragraph.as_slice(), 0, paragraph.len());
            assert(current@ =~= paragraph@);
        } else {
            text::append(&mut current, gap.as_slice());
            text::append(&mut current, paragraph.as_slice());
        }
    }
    assert(model.take(list@.len() as int) =~= model);
    if current.len() > 0 {
        let ghost before = chunks@;
        let chunk = text::text_of(current.as_slice());
        chunks.push(chunk);
        assert(text::strings(chunks@) =~= text::strings(before).push(chunk@));
    }
    chunks
}

/// Whether a text holds something, is trimmed, and is no longer than a chunk may be.
pub open spec fn is_chunk(s: Seq<char>) -> bool {
    text::is_bare(s) && s.len() <= MAX_MEMORY_CHUNK_CHARS
}

proof fn lemma_trimmed_parts_len(parts: Seq<Seq<char>>, limit: nat)
    requires
        forall|i: int| 0 <= i < parts.len() ==> (#[trigger] parts[i]).len() <= limit,
    ensures
        forall|i: int|
            0 <= i < trimmed_parts(parts).len() ==> 0 < (#[trigger] trimmed_parts(parts)[i]).len()
                <= limit,
    decreases parts.len(),
{
    if parts.len() > 0 {
        assert forall|i: int| 0 <= i < parts.drop_last().len() implies (
        #[trigger] parts.drop_last()[i]).len() <= limit by {
            assert(parts.drop_last()[i] == parts[i]);
        }
        lemma_trimmed_parts_len(parts.drop_last(), limit);
        text::lemma_trimmed_len(parts.last());
        assert(parts[parts.len() - 1].len() <= limit);
        let before = trimmed_parts(parts.drop_last());
        assert forall|i: int| 0 <= i < trimmed_parts(parts).len() implies 0 < (
        #[trigger] trimmed_parts(parts)[i]).len() <= limit by {
            if i < before.len() {
                assert(trimmed_parts(parts)[i] == before[i]);
            }
        }
    }
}

proof fn lemma_trimmed_parts_bare(parts: Seq<Seq<char>>)
    ensures
        forall|i: int|
            0 <= i < trimmed_parts(parts).len() ==> text::is_bare(#[trigger] trimmed_parts(parts)[i]),
    decreases parts.len(),
{
    if parts.len() > 0 {
        lemma_trimmed_parts_bare(parts.drop_last());
        text::lemma_bare(parts.last());
        let before = trimmed_parts(parts.drop_last());
        assert forall|i: int| 0 <= i < trimmed_parts(parts).len() implies text::is_bare(
            #[trigger] trimmed_parts(parts)[i],
        ) by {
            if i < before.len() {
                assert(trimmed_parts(parts)[i] == before[i]);
            }
        }
    }
}

proof fn lemma_cut_len(s: Seq<char>, limit: nat)
    requires
        limit > 0,
    ensures
        forall|i: int| 0 <= i < cut(s, limit).len() ==> (#[trigger] cut(s, limit)[i]).len() <= limit,
    decreases s.len(),
{
    if s.len() > limit {
        lemma_cut_len(s.skip(limit as int), limit);
        let rest = cut(s.skip(limit as int), limit);
        assert forall|i: int| 0 <= i < cut(s, limit).len() implies (#[trigger] cut(s, limit)[i]).len()
            <= limit by {
            if i > 0 {
                assert(cut(s, limit)[i] == rest[i - 1]);
            }
        }
    }
}

proof fn lemma_packed_bounded(list: Seq<Seq<char>>)
    requires
        forall|i: int| 0 <= i < list.len() ==> text::is_bare(#[trigger] list[i]),
    ensures
        packed(list).current.len() > 0 ==> is_chunk(packed(list).current),
        forall|i: int|
            0 <= i < packed(list).done.len() ==> is_chunk(#[trigger] packed(list).done[i]),
    decreases list.len(),
{
    if list.len() > 0 {
        assert forall|i: int| 0 <= i < list.drop_last().len() implies text::is_bare(
            #[trigger] list.drop_last()[i],
        ) by {
            assert(list.drop_last()[i] == list[i]);
        }
        lemma_packed_bounded(list.drop_last());
        let before = packed(list.drop_last());
        let p = list.last();
        assert(p == list[list.len() - 1]);
        if p.len() > MAX_MEMORY_CHUNK_CHARS {
            lemma_cut_len(p, MAX_MEMORY_CHUNK_CHARS as nat);
            lemma_trimmed_parts_len(
                cut(p, MAX_MEMORY_CHUNK_CHARS as nat),
                MAX_MEMORY_CHUNK_CHARS as nat,
            );
            lemma_trimmed_parts_bare(cut(p, MAX_MEMORY_CHUNK_CHARS as nat));
            let more = limited_parts(p, MAX_MEMORY_CHUNK_CHARS as nat);
            let done = packed(list).done;
            assert forall|i: int| 0 <= i < done.len() implies is_chunk(#[trigger] done[i]) by {
                if i < before.done.len() {
                    assert(done[i] == before.done[i]);
                } else if i < closed(before).len() {
                    assert(done[i] == before.current);
                } else {
                    assert(done[i] == more[i - closed(before).len()]);
                }
            }
        }
    }
}

/// Every chunk of a memory text holds something and is trimmed, and none is longer than a chunk
/// may be.
pub proof fn law_chunks_are_bounded(s: Seq<char>)
    ensures
        forall|i: int|
            0 <= i < chunks_of(s).len() ==> is_chunk(#[trigger] chunks_of(s)[i]) && text::trimmed(
                chunks_of(s)[i],
            ) == chunks_of(s)[i],
{
    lemma_trimmed_parts_bare(text::parts_between(s, seq!['\n', '\n']));
    lemma_packed_bounded(paragraphs(s));
    assert forall|i: int| 0 <= i < chunks_of(s).len() implies is_chunk(#[trigger] chunks_of(s)[i])
        && text::trimmed(chunks_of(s)[i]) == chunks_of(s)[i] by {
        text::lemma_bare(chunks_of(s)[i]);
    }
}

/// The characters of a text that are no white space.
pub open spec fn solid(s: Seq<char>) -> Seq<char> {
    s.filter(|c: char| !text::is_space(c))
}

/// The characters of several texts, one after the other, that are no white space.
pub open spec fn solid_all(parts: Seq<Seq<char>>) -> Seq<char>
    decreases parts.len(),
{
    if parts.len() == 0 {
        Seq::empty()
    } else {
        solid_all(parts.drop_last()) + solid(parts.last())
    }
}

pub proof fn lemma_solid_add(a: Seq<char>, b: Seq<char>)
    ensures
        solid(a + b) == solid(a) + solid(b),
{
    Seq::filter_distributes_over_add(a, b, |c: char| !text::is_space(c));
}

pub proof fn lemma_solid_space(s: Seq<char>)
    requires
        forall|i: int| 0 <= i < s.len() ==> text::is_space(#[trigger] s[i]),
    ensures
        solid(s) == Seq::<char>::empty(),
    decreases s.len(),
{
    reveal(Seq::filter);
    if s.len() > 0 {
        assert forall|i: int| 0 <= i < s.drop_last().len() implies text::is_space(
            #[trigger] s.drop_last()[i],
        ) by {
            assert(s.drop_last()[i] == s[i]);
        }
        lemma_solid_space(s.drop_last());
        assert(text::is_space(s[s.len() - 1]));
    }
    assert(solid(s) =~= Seq::<char>::empty());
}

pub proof fn lemma_solid_all_add(a: Seq<Seq<char>>, b: Seq<Seq<char>>)
    ensures
        solid_all(a + b) == solid_all(a) + solid_all(b),
    decreases b.len(),
{
    if b.len() == 0 {
        assert(a + b =~= a);
        assert(solid_all(a) + solid_all(b) =~= solid_all(a));
    } else {
        assert((a + b).drop_last() =~= a + b.drop_last());
        lemma_solid_all_add(a, b.drop_last());
        assert(solid_all(a + b) =~= solid_all(a) + solid_all(b));
    }
}

pub proof fn lemma_solid_all_one(s: Seq<char>)
    ensures
        solid_all(seq![s]) == solid(s),
{
    assert(solid_all(seq![s].drop_last()) == Seq::<char>::empty());
    assert(solid_all(seq![s]) =~= solid(seq![s].last()));
}

proof fn lemma_trimmed_start_solid(s: Seq<char>)
    ensures
        solid(text::trimmed_start(s, CharClass::Whitespace)) == solid(s),
    decreases s.len(),
{
    if s.len() > 0 && CharClass::Whitespace.has(s[0]) {
        lemma_trimmed_start_solid(s.skip(1));
        lemma_solid_add(s.take(1), s.skip(1));
        assert(s.take(1) + s.skip(1) =~= s);
        lemma_solid_space(s.take(1));
        assert(solid(s) =~= solid(s.skip(1)));
    }
}

pub proof fn lemma_trimmed_end_solid(s: Seq<char>)
    ensures
        solid(text::trimmed_end(s, CharClass::Whitespace)) == solid(s),
    decreases s.len(),
{
    if s.len() > 0 && CharClass::Whitespace.has(s.last()) {
        lemma_trimmed_end_solid(s.drop_last());
        lemma_solid_add(s.drop_last(), seq![s.last()]);
        assert(s.drop_last() + seq![s.last()] =~= s);
        lemma_solid_space(seq![s.last()]);
        assert(solid(s) =~= solid(s.drop_last()));
    }
}

pub proof fn lemma_trimmed_solid(s: Seq<char>)
    ensures
        solid(text::trimmed(s)) == solid(s),
        text::is_blank(s) ==> solid(s) == Seq::<char>::empty(),
{
    lemma_trimmed_start_solid(s);
    lemma_trimmed_end_solid(text::trimmed_start(s, CharClass::Whitespace));
    if text::is_blank(s) {
        lemma_solid_space(text::trimmed(s));
    }
}

proof fn lemma_trimmed_parts_solid(parts: Seq<Seq<char>>)
    ensures
        solid_all(trimmed_parts(parts)) == solid_all(parts),
    decreases parts.len(),
{
    if parts.len() > 0 {
        lemma_trimmed_parts_solid(parts.drop_last());
        lemma_trimmed_solid(parts.last());
        let before = trimmed_parts(parts.drop_last());
        assert(before.push(text::trimmed(parts.last())).drop_last() =~= before);
        assert(solid_all(trimmed_parts(parts)) =~= solid_all(parts));
    }
}

proof fn lemma_cut_solid(s: Seq<char>, limit: nat)
    requires
        limit > 0,
    ensures
        solid_all(cut(s, limit)) == solid(s),
    decreases s.len(),
{
    if s.len() > limit {
        let front = s.take(limit as int);
        let rest = s.skip(limit as int);
        lemma_cut_solid(rest, limit);
        lemma_solid_all_add(seq![front], cut(rest, limit));
        lemma_solid_all_one(front);
        lemma_solid_add(front, rest);
        assert(front + rest =~= s);
    } else if s.len() > 0 {
        lemma_solid_all_one(s);
    } else {
        lemma_solid_space(s);
    }
}

proof fn lemma_first_occurrence_stands(s: Seq<char>, pattern: Seq<char>, from: int)
    requires
        0 <= from,
    ensures
        text::first_occurrence(s, pattern, from) matches Some(i) ==> from <= i && i + pattern.len()
            <= s.len() && s.subrange(i, i + pattern.len()) == pattern,
    decreases s.len() - from + 1,
{
    if from + pattern.len() <= s.len() {
        lemma_first_occurrence_stands(s, pattern, from + 1);
    }
}

proof fn lemma_parts_solid(s: Seq<char>, pattern: Seq<char>)
    requires
        forall|i: int| 0 <= i < pattern.len() ==> text::is_space(#[trigger] pattern[i]),
    ensures
        solid_all(text::parts_between(s, pattern)) == solid(s),
    decreases s.len(),
{
    lemma_first_occurrence_stands(s, pattern, 0);
    lemma_solid_all_one(s);
    match text::first_occurrence(s, pattern, 0) {
        Some(i) => {
            if pattern.len() > 0 {
                let front = s.take(i);
                let rest = s.skip(i + pattern.len());
                lemma_parts_solid(rest, pattern);
                lemma_solid_all_add(seq![front], text::parts_between(rest, pattern));
                lemma_solid_all_one(front);
                lemma_solid_space(pattern);
                lemma_solid_add(front, pattern);
                lemma_solid_add(front + pattern, rest);
                assert(front + pattern + rest =~= s);
                assert(solid(front) + solid(pattern) =~= solid(front));
            }
        },
        None => {},
    }
}

proof fn lemma_packed_solid(list: Seq<Seq<char>>)
    ensures
        solid_all(closed(packed(list))) == solid_all(list),
    decreases list.len(),
{
    if list.len() > 0 {
        lemma_packed_solid(list.drop_last());
        let before = packed(list.drop_last());
        let p = list.last();
        let gap = seq!['\n', '\n'];
        lemma_solid_space(Seq::<char>::empty());
        if before.current.len() > 0 {
            assert(before.done.push(before.current).drop_last() =~= before.done);
        } else {
            assert(before.current =~= Seq::<char>::empty());
        }
        assert(solid_all(closed(before)) =~= solid_all(before.done) + solid(before.current));
        if p.len() > MAX_MEMORY_CHUNK_CHARS {
            let parts = cut(p, MAX_MEMORY_CHUNK_CHARS as nat);
            lemma_cut_solid(p, MAX_MEMORY_CHUNK_CHARS as nat);
            lemma_trimmed_parts_solid(parts);
            lemma_solid_all_add(closed(before), trimmed_parts(parts));
        } else {
            let after = packed(list);
            if after.current.len() > 0 {
                assert(after.done.push(after.current).drop_last() =~= after.done);
            } else {
                assert(after.current =~= Seq::<char>::empty());
            }
            assert(solid_all(closed(after)) =~= solid_all(after.done) + solid(after.current));
            if before.current.len() > 0 && before.current.len() + 2 + p.len()
                <= MAX_MEMORY_CHUNK_CHARS {
                lemma_solid_space(gap);
                lemma_solid_add(before.current, gap);
                lemma_solid_add(before.current + gap, p);
                assert(solid(after.current) =~= solid(before.current) + solid(p));
            }
            assert(solid_all(closed(after)) =~= solid_all(list));
        }
    }
}

/// Cutting a memory text into chunks drops and moves nothing but white space: the other characters
/// of the chunks, one chunk after the other, are those of the text.
pub proof fn law_chunks_keep_the_text(s: Seq<char>)
    ensures
        solid_all(chunks_of(s)) == solid(s),
{
    let gap = seq!['\n', '\n'];
    lemma_parts_solid(s, gap);
    lemma_trimmed_parts_solid(text::parts_between(s, gap));
    lemma_packed_solid(paragraphs(s));
}

// ---------------------------------------------------------------------------------------
// Terms
// ---------------------------------------------------------------------------------------

/// What a character is to the search.
#[derive(Clone, Copy, PartialEq, Eq, Structural)]
pub enum TermKind {
    /// Part of a word of ASCII letters, digits and underscores.
    Word,
    /// An ideograph.
    Cjk,
    /// Neither.
    Other,
}

/// Whether a character is an ideograph.
pub open spec fn cjk(c: char) -> bool {
    let n = c as u32;
    0x3400 <= n <= 0x4dbf || 0x4e00 <= n <= 0x9fff || 0xf900 <= n <= 0xfaff || 0x20000 <= n
        <= 0x2fa1f
}

pub open spec fn kind_of(c: char) -> TermKind {
    if text::is_ascii_alphanumeric(c) || c == '_' {
        TermKind::Word
    } else if cjk(c) {
        TermKind::Cjk
    } else {
        TermKind::Other
    }
}

/// How many characters at the start of a text are of a kind.
pub open spec fn run_length(s: Seq<char>, kind: TermKind) -> nat
    decreases s.len(),
{
    if s.len() > 0 && kind_of(s[0]) == kind {
        1 + run_length(s.skip(1), kind)
    } else {
        0
    }
}

/// The terms of a run of characters of one kind: a word is one term, in lower case; of a run of
/// ideographs each is a term, and behind them each two neighbours.
pub open spec fn run_terms(run: Seq<char>, kind: TermKind) -> Seq<Seq<char>> {
    match kind {
        TermKind::Word => seq![text::lowered(run)],
        TermKind::Cjk => Seq::new(run.len(), |i: int| seq![run[i]]) + Seq::new(
            (run.len() - 1) as nat,
            |i: int| seq![run[i], run[i + 1]],
        ),
        TermKind::Other => Seq::empty(),
    }
}

/// The search terms of a text, run by run.
pub open spec fn terms_of(s: Seq<char>) -> Seq<Seq<char>>
    decreases s.len(),
{
    if s.len() == 0 {
        Seq::empty()
    } else {
        let kind = kind_of(s[0]);
        let n = run_length(s, kind) as int;
        if 0 < n <= s.len() {
            run_terms(s.take(n), kind) + terms_of(s.skip(n))
        } else {
            Seq::empty()
        }
    }
}

proof fn lemma_run_length(s: Seq<char>, kind: TermKind)
    ensures
        run_length(s, kind) <= s.len(),
        forall|i: int| 0 <= i < run_length(s, kind) ==> kind_of(#[trigger] s[i]) == kind,
        run_length(s, kind) < s.len() ==> kind_of(s[run_length(s, kind) as int]) != kind,
    decreases s.len(),
{
    if s.len() > 0 && kind_of(s[0]) == kind {
        let rest = s.skip(1);
        lemma_run_length(rest, kind);
        assert forall|i: int| 0 <= i < run_length(s, kind) implies kind_of(#[trigger] s[i])
            == kind by {
            if i > 0 {
                assert(s[i] == rest[i - 1]);
            }
        }
    }
}

proof fn lemma_run_length_is(s: Seq<char>, kind: TermKind, n: int)
    requires
        0 <= n <= s.len(),
        forall|i: int| 0 <= i < n ==> kind_of(#[trigger] s[i]) == kind,
        n < s.len() ==> kind_of(s[n]) != kind,
    ensures
        run_length(s, kind) == n,
{
    lemma_run_length(s, kind);
    let m = run_length(s, kind) as int;
    if m < n {
        assert(kind_of(s[m]) == kind);
    }
}

pub fn is_cjk(character: char) -> (r: bool)
    ensures
        r == cjk(character),
{
    let n: u32 = character as u32;
    (0x3400 <= n && n <= 0x4dbf) || (0x4e00 <= n && n <= 0x9fff) || (0xf900 <= n && n <= 0xfaff)
        || (0x20000 <= n && n <= 0x2fa1f)
}

fn term_kind(c: char) -> (r: TermKind)
    ensures
        r == kind_of(c),
{
    if text::ascii_alphanumeric(c) || c == '_' {
        TermKind::Word
    } else if is_cjk(c) {
        TermKind::Cjk
    } else {
        TermKind::Other
    }
}

/// Appends the terms of a run of characters of one kind.
fn push_run(terms: &mut Vec<String>, run: &[char], kind: TermKind)
    requires
        run@.len() > 0,
    ensures
        text::strings(final(terms)@) == text::strings(old(terms)@) + run_terms(run@, kind),
{
    let ghost start = text::strings(terms@);
    let ghost expected = run_terms(run@, kind);
    match kind {
        TermKind::Word => {
            let ghost before = terms@;
            let term = text::text_of(text::lower_chars(run).as_slice());
            terms.push(term);
            assert(text::strings(terms@) =~= text::strings(before).push(term@));
            assert(text::strings(terms@) =~= start + expected);
        },
        TermKind::Cjk => {
            for i in 0..run.len()
                invariant
                    expected == run_terms(run@, TermKind::Cjk),
                    run@.len() > 0,
                    text::strings(terms@) == start + expected.take(i as int),
            {
                let ghost before = terms@;
                let term = text::text_of(text::range(run, i, i + 1).as_slice());
                assert(term@ =~= seq![run@[i as int]]);
                terms.push(term);
                assert(text::strings(terms@) =~= text::strings(before).push(term@));
                assert(text::strings(terms@) =~= start + expected.take(i + 1));
            }
            for i in 0..run.len() - 1
                invariant
                    expected == run_terms(run@, TermKind::Cjk),
                    run@.len() > 0,
                    text::strings(terms@) == start + expected.take(run@.len() + i),
            {
                let ghost before = terms@;
                let term = text::text_of(text::range(run, i, i + 2).as_slice());
                assert(term@ =~= seq![run@[i as int], run@[i + 1]]);
                terms.push(term);
                assert(text::strings(terms@) =~= text::strings(before).push(term@));
                assert(text::strings(terms@) =~= start + expected.take(run@.len() + i + 1));
            }
            assert(expected.take(run@.len() + run@.len() - 1) =~= expected);
        },
        TermKind::Other => {
            assert(text::strings(terms@) =~= start + expected);
        },
    }
}

/// Takes the search terms out of a text.
pub fn tokenize(text: &str) -> (r: Vec<String>)
    ensures
        text::strings(r@) == terms_of(text@),
{
    let chars = text::chars_of(text);
    let mut terms: Vec<String> = Vec::new();
    let mut start: usize = 0;
    assert(chars@.skip(0) =~= chars@);
    assert(text::strings(terms@) + terms_of(chars@) =~= terms_of(chars@));
    while start < chars.len()
        invariant
            chars@ == text@,
            start <= chars@.len(),
            text::strings(terms@) + terms_of(chars@.skip(start as int)) == terms_of(text@),
        decreases chars@.len() - start,
    {
        let ghost rest = chars@.skip(start as int);
        let kind = term_kind(chars[start]);
        let mut end: usize = start + 1;
        while end < chars.len() && term_kind(chars[end]) == kind
            invariant
                start < end <= chars@.len(),
                forall|i: int| start <= i < end ==> kind_of(#[trigger] chars@[i]) == kind,
            decreases chars@.len() - end,
        {
            end = end + 1;
        }
        let run = text::range(chars.as_slice(), start, end);
        proof {
            let n = end - start;
            assert forall|i: int| 0 <= i < n implies kind_of(#[trigger] rest[i]) == kind by {
                assert(rest[i] == chars@[start + i]);
            }
            lemma_run_length_is(rest, kind, n);
            assert(run@ =~= rest.take(n));
            assert(chars@.skip(end as int) =~= rest.skip(n));
        }
        let ghost before = text::strings(terms@);
        push_run(&mut terms, run.as_slice(), kind);
        assert(text::strings(terms@) + terms_of(chars@.skip(end as int)) =~= before + terms_of(
            rest,
        ));
        start = end;
    }
    assert(text::strings(terms@) + terms_of(chars@.skip(start as int)) =~= text::strings(terms@));
    terms
}

/// Whether a text is a search term: a word of ASCII letters, digits and underscores in lower
/// case, or one or two ideographs.
pub open spec fn is_term(s: Seq<char>) -> bool {
    ||| s.len() > 0 && forall|i: int|
        0 <= i < s.len() ==> kind_of(#[trigger] s[i]) == TermKind::Word && text::lower(s[i]) == s[i]
    ||| 1 <= s.len() <= 2 && forall|i: int|
        0 <= i < s.len() ==> kind_of(#[trigger] s[i]) == TermKind::Cjk
}

proof fn lemma_run_terms(run: Seq<char>, kind: TermKind)
    requires
        run.len() > 0,
        forall|i: int| 0 <= i < run.len() ==> kind_of(#[trigger] run[i]) == kind,
    ensures
        forall|i: int| 0 <= i < run_terms(run, kind).len() ==> is_term(#[trigger] run_terms(run, kind)[i]),
{
    let terms = run_terms(run, kind);
    assert forall|i: int| 0 <= i < terms.len() implies is_term(#[trigger] terms[i]) by {
        if kind == TermKind::Word {
            let word = text::lowered(run);
            assert forall|k: int| 0 <= k < word.len() implies kind_of(#[trigger] word[k])
                == TermKind::Word && text::lower(word[k]) == word[k] by {
                assert(kind_of(run[k]) == kind);
            }
            assert(terms[i] == word);
        } else if i < run.len() {
            assert(terms[i] == seq![run[i]]);
        } else {
            let k = i - run.len();
            assert(terms[i] == seq![run[k], run[k + 1]]);
        }
    }
}

/// Every search term of a text is a word in lower case, or one or two ideographs.
pub proof fn law_terms_are_terms(s: Seq<char>)
    ensures
        forall|i: int| 0 <= i < terms_of(s).len() ==> is_term(#[trigger] terms_of(s)[i]),
    decreases s.len(),
{
    if s.len() > 0 {
        let kind = kind_of(s[0]);
        lemma_run_length(s, kind);
        let n = run_length(s, kind) as int;
        law_terms_are_terms(s.skip(n));
        let first = run_terms(s.take(n), kind);
        lemma_run_terms(s.take(n), kind);
        assert forall|i: int| 0 <= i < terms_of(s).len() implies is_term(
            #[trigger] terms_of(s)[i],
        ) by {
            if i < first.len() {
                assert(terms_of(s)[i] == first[i]);
            } else {
                assert(terms_of(s)[i] == terms_of(s.skip(n))[i - first.len()]);
            }
        }
    }
}

/// What is of no kind at the start of a text gives no terms.
proof fn lemma_terms_behind_others(s: Seq<char>)
    ensures
        terms_of(s.skip(run_length(s, TermKind::Other) as int)) == terms_of(s),
{
    lemma_run_length(s, TermKind::Other);
    let n = run_length(s, TermKind::Other) as int;
    if n == 0 {
        assert(s.skip(0) =~= s);
    } else {
        assert(terms_of(s) =~= terms_of(s.skip(n)));
    }
}

/// A character that is neither part of a word nor an ideograph parts the terms: those of a text
/// are the terms before it and the terms behind it. White space is of that kind.
pub proof fn law_terms_are_parted(a: Seq<char>, c: char, b: Seq<char>)
    requires
        text::is_space(c) || kind_of(c) == TermKind::Other,
    ensures
        terms_of(a + seq![c] + b) == terms_of(a) + terms_of(b),
    decreases a.len(),
{
    let s = a + seq![c] + b;
    assert(kind_of(c) == TermKind::Other);
    let m = run_length(b, TermKind::Other) as int;
    lemma_run_length(b, TermKind::Other);
    lemma_terms_behind_others(b);
    if a.len() == 0 {
        assert forall|i: int| 0 <= i < 1 + m implies kind_of(#[trigger] s[i]) == TermKind::Other by {
            if i > 0 {
                assert(s[i] == b[i - 1]);
            }
        }
        if 1 + m < s.len() {
            assert(s[1 + m] == b[m]);
        }
        lemma_run_length_is(s, TermKind::Other, 1 + m);
        assert(s.skip(1 + m) =~= b.skip(m));
        assert(terms_of(s) =~= terms_of(b));
        assert(terms_of(a) + terms_of(b) =~= terms_of(b));
    } else {
        let kind = kind_of(a[0]);
        let n = run_length(a, kind) as int;
        lemma_run_length(a, kind);
        assert(s[0] == a[0]);
        if n < a.len() || kind != TermKind::Other {
            assert forall|i: int| 0 <= i < n implies kind_of(#[trigger] s[i]) == kind by {
                assert(s[i] == a[i]);
            }
            if n < a.len() {
                assert(s[n] == a[n]);
            } else {
                assert(s[n] == c);
            }
            lemma_run_length_is(s, kind, n);
            assert(s.take(n) =~= a.take(n));
            assert(s.skip(n) =~= a.skip(n) + seq![c] + b);
            law_terms_are_parted(a.skip(n), c, b);
            assert(terms_of(s) =~= terms_of(a) + terms_of(b));
        } else {
            let k = n + 1 + m;
            assert forall|i: int| 0 <= i < k implies kind_of(#[trigger] s[i]) == kind by {
                if i < n {
                    assert(s[i] == a[i]);
                } else if i > n {
                    assert(s[i] == b[i - n - 1]);
                }
            }
            if k < s.len() {
                assert(s[k] == b[m]);
            }
            lemma_run_length_is(s, kind, k);
            assert(s.skip(k) =~= b.skip(m));
            assert(terms_of(s) =~= terms_of(b));
            assert(a.skip(n) =~= Seq::<char>::empty());
            assert(terms_of(a) =~= Seq::<Seq<char>>::empty());
            assert(terms_of(a) + terms_of(b) =~= terms_of(b));
        }
    }
}

/// The search does not tell upper case from lower case: a text has the terms of the text in lower
/// case.
pub proof fn law_terms_ignore_case(s: Seq<char>)
    ensures
        terms_of(text::lowered(s)) == terms_of(s),
    decreases s.len(),
{
    let low = text::lowered(s);
    if s.len() > 0 {
        let kind = kind_of(s[0]);
        lemma_run_length(s, kind);
        let n = run_length(s, kind) as int;
        assert(low[0] == text::lower(s[0]));
        assert forall|i: int| 0 <= i < n implies kind_of(#[trigger] low[i]) == kind by {
            assert(kind_of(s[i]) == kind);
        }
        lemma_run_length_is(low, kind, n);
        assert(low.skip(n) =~= text::lowered(s.skip(n)));
        law_terms_ignore_case(s.skip(n));
        let run = s.take(n);
        assert forall|i: int| 0 <= i < n && kind == TermKind::Cjk implies low[i] == #[trigger] run[i] by {
            assert(kind_of(s[i]) == kind);
        }
        if kind == TermKind::Word {
            assert(text::lowered(low.take(n)) =~= text::lowered(run));
        } else if kind == TermKind::Cjk {
            assert(low.take(n) =~= run);
        }
        assert(run_terms(low.take(n), kind) =~= run_terms(run, kind));
    } else {
        assert(low =~= s);
    }
}

// ---------------------------------------------------------------------------------------
// What terms and chunks are
// ---------------------------------------------------------------------------------------

/// Whether a character is an ASCII letter, a digit or an underscore.
pub open spec fn is_word_character(c: char) -> bool {
    'a' <= c <= 'z' || 'A' <= c <= 'Z' || '0' <= c <= '9' || c == '_'
}

/// Whether a character is an ideograph.
pub open spec fn is_ideograph(c: char) -> bool {
    '\u{3400}' <= c <= '\u{4dbf}' || '\u{4e00}' <= c <= '\u{9fff}' || '\u{f900}' <= c <= '\u{faff}'
        || '\u{20000}' <= c <= '\u{2fa1f}'
}

proof fn lemma_kind(c: char)
    ensures
        kind_of(c) == TermKind::Word <==> is_word_character(c),
        kind_of(c) == TermKind::Cjk <==> is_ideograph(c),
        kind_of(c) == TermKind::Other <==> !is_word_character(c) && !is_ideograph(c),
{
}

/// What a character is to the search is told by what it is.
pub proof fn law_characters_are_told_apart(c: char, r: bool)
    requires
        call_ensures(is_cjk, (c,), r),
    ensures
        r == is_ideograph(c),
        kind_of(c) == TermKind::Word <==> is_word_character(c),
        kind_of(c) == TermKind::Cjk <==> is_ideograph(c),
        kind_of(c) == TermKind::Other <==> !is_word_character(c) && !is_ideograph(c),
{
}

proof fn lemma_whole_run(run: Seq<char>, kind: TermKind)
    requires
        run.len() > 0,
        forall|i: int| 0 <= i < run.len() ==> kind_of(#[trigger] run[i]) == kind,
    ensures
        terms_of(run) == run_terms(run, kind),
{
    let n = run.len() as int;
    lemma_run_length_is(run, kind, n);
    assert(kind_of(run[0]) == kind);
    assert(run.take(n) =~= run);
    assert(run.skip(n) =~= Seq::<char>::empty());
    assert(terms_of(run.skip(n)) =~= Seq::<Seq<char>>::empty());
    assert(terms_of(run) =~= run_terms(run, kind));
}

/// A word is one term, with its capital letters made small; an ideograph is one too, and so are
/// each two that stand side by side, behind the single ones; and what is neither gives no term.
pub proof fn law_runs_give_their_terms(run: Seq<char>)
    requires
        run.len() > 0,
    ensures
        (forall|i: int| 0 <= i < run.len() ==> is_word_character(#[trigger] run[i])) ==> terms_of(
            run,
        ).len() == 1 && terms_of(run)[0].len() == run.len() && forall|i: int|
            0 <= i < run.len() ==> #[trigger] terms_of(run)[0][i] == (if 'A' <= run[i] <= 'Z' {
                (run[i] as u32 + 32) as char
            } else {
                run[i]
            }),
        (forall|i: int| 0 <= i < run.len() ==> is_ideograph(#[trigger] run[i])) ==> {
            &&& terms_of(run).len() == 2 * run.len() - 1
            &&& forall|i: int| 0 <= i < run.len() ==> #[trigger] terms_of(run)[i] == seq![run[i]]
            &&& forall|i: int|
                run.len() <= i < 2 * run.len() - 1 ==> #[trigger] terms_of(run)[i] == seq![
                    run[i - run.len()],
                    run[i - run.len() + 1],
                ]
        },
        (forall|i: int|
            0 <= i < run.len() ==> !is_word_character(#[trigger] run[i]) && !is_ideograph(run[i]))
            ==> terms_of(run).len() == 0,
{
    if forall|i: int| 0 <= i < run.len() ==> is_word_character(#[trigger] run[i]) {
        assert forall|i: int| 0 <= i < run.len() implies kind_of(#[trigger] run[i])
            == TermKind::Word by {
            assert(is_word_character(run[i]));
        }
        lemma_whole_run(run, TermKind::Word);
    }
    if forall|i: int| 0 <= i < run.len() ==> is_ideograph(#[trigger] run[i]) {
        assert forall|i: int| 0 <= i < run.len() implies kind_of(#[trigger] run[i])
            == TermKind::Cjk by {
            assert(is_ideograph(run[i]));
        }
        lemma_whole_run(run, TermKind::Cjk);
    }
    if forall|i: int|
        0 <= i < run.len() ==> !is_word_character(#[trigger] run[i]) && !is_ideograph(run[i]) {
        assert forall|i: int| 0 <= i < run.len() implies kind_of(#[trigger] run[i])
            == TermKind::Other by {
            lemma_kind(run[i]);
        }
        lemma_whole_run(run, TermKind::Other);
    }
}

/// A word ends where something else follows it, and so does a row of ideographs: the terms are
/// those of the first and those of what follows.
pub proof fn law_runs_end_where_the_kind_changes(run: Seq<char>, rest: Seq<char>)
    requires
        run.len() > 0,
        (forall|i: int| 0 <= i < run.len() ==> is_word_character(#[trigger] run[i])) && (rest.len()
            == 0 || !is_word_character(rest[0])) || (forall|i: int|
            0 <= i < run.len() ==> is_ideograph(#[trigger] run[i])) && (rest.len() == 0
            || !is_ideograph(rest[0])) || (forall|i: int|
            0 <= i < run.len() ==> !is_word_character(#[trigger] run[i]) && !is_ideograph(run[i]))
            && (rest.len() == 0 || is_word_character(rest[0]) || is_ideograph(rest[0])),
    ensures
        terms_of(run + rest) == terms_of(run) + terms_of(rest),
{
    let kind = kind_of(run[0]);
    let s = run + rest;
    let n = run.len() as int;
    let first = run[0];
    assert forall|i: int| 0 <= i < run.len() implies kind_of(#[trigger] run[i]) == kind by {
        lemma_kind(run[i]);
        lemma_kind(first);
    }
    lemma_whole_run(run, kind);
    assert forall|i: int| 0 <= i < n implies kind_of(#[trigger] s[i]) == kind by {
        assert(s[i] == run[i]);
    }
    if n < s.len() {
        assert(s[n] == rest[0]);
        lemma_kind(rest[0]);
        lemma_kind(first);
    }
    lemma_run_length_is(s, kind, n);
    assert(s.take(n) =~= run);
    assert(s.skip(n) =~= rest);
}

/// The parts of two lists are trimmed as those of each.
proof fn lemma_trimmed_parts_add(a: Seq<Seq<char>>, b: Seq<Seq<char>>)
    ensures
        trimmed_parts(a + b) == trimmed_parts(a) + trimmed_parts(b),
    decreases b.len(),
{
    if b.len() == 0 {
        assert(a + b =~= a);
        assert(trimmed_parts(a) + trimmed_parts(b) =~= trimmed_parts(a));
    } else {
        lemma_trimmed_parts_add(a, b.drop_last());
        assert((a + b).drop_last() =~= a + b.drop_last());
        assert((a + b).last() == b.last());
        assert(trimmed_parts(a + b) =~= trimmed_parts(a) + trimmed_parts(b));
    }
}

proof fn lemma_one_trimmed_part(s: Seq<char>)
    ensures
        trimmed_parts(seq![s]) == (if text::trimmed(s).len() == 0 {
            Seq::<Seq<char>>::empty()
        } else {
            seq![text::trimmed(s)]
        }),
{
    assert(seq![s].drop_last() =~= Seq::<Seq<char>>::empty());
    assert(seq![s].last() == s);
    assert(trimmed_parts(seq![s].drop_last()) =~= Seq::<Seq<char>>::empty());
    assert(trimmed_parts(seq![s]) =~= (if text::trimmed(s).len() == 0 {
        Seq::<Seq<char>>::empty()
    } else {
        seq![text::trimmed(s)]
    }));
}

/// A text that is too long is cut after each so many characters; white space at the ends of the
/// parts is left out, and so is a part that has nothing else.
pub proof fn law_long_text_is_cut_at_the_limit(a: Seq<char>, b: Seq<char>, limit: nat)
    requires
        limit > 0,
    ensures
        a.len() <= limit ==> limited_parts(a, limit) == (if text::trimmed(a).len() == 0 {
            Seq::<Seq<char>>::empty()
        } else {
            seq![text::trimmed(a)]
        }),
        a.len() == limit ==> limited_parts(a + b, limit) == limited_parts(a, limit)
            + limited_parts(b, limit),
{
    lemma_one_trimmed_part(a);
    if a.len() == 0 {
        assert(text::trimmed(a) =~= Seq::<char>::empty());
        assert(trimmed_parts(Seq::<Seq<char>>::empty()) =~= Seq::<Seq<char>>::empty());
    }
    if a.len() == limit {
        if b.len() == 0 {
            assert(a + b =~= a);
            assert(limited_parts(b, limit) =~= Seq::<Seq<char>>::empty());
            assert(limited_parts(a, limit) + limited_parts(b, limit) =~= limited_parts(a, limit));
        } else {
            assert((a + b).take(limit as int) =~= a);
            assert((a + b).skip(limit as int) =~= b);
            lemma_trimmed_parts_add(seq![a], cut(b, limit));
        }
    }
}

/// Whether two line breaks stand side by side at a place.
pub open spec fn breaks_twice(s: Seq<char>, i: int) -> bool {
    0 <= i && i + 1 < s.len() && s[i] == '\n' && s[i + 1] == '\n'
}

proof fn lemma_first_gap(a: Seq<char>, b: Seq<char>, from: int)
    requires
        0 <= from <= a.len(),
        forall|i: int| !#[trigger] breaks_twice(a, i),
        a.len() == 0 || a.last() != '\n',
    ensures
        text::first_occurrence(a + seq!['\n', '\n'] + b, seq!['\n', '\n'], from) == Some(
            a.len() as int,
        ),
    decreases a.len() - from,
{
    let gap = seq!['\n', '\n'];
    let s = a + gap + b;
    if from == a.len() {
        assert(s.subrange(from, from + 2) =~= gap);
    } else {
        assert(!breaks_twice(a, from));
        assert(s.subrange(from, from + 2)[0] == s[from] && s.subrange(from, from + 2)[1] == s[from
            + 1]);
        assert(s[from] == a[from]);
        if from + 1 < a.len() {
            assert(s[from + 1] == a[from + 1]);
        }
        assert(s.subrange(from, from + 2) != gap) by {
            if s.subrange(from, from + 2) == gap {
                assert(gap[0] == '\n' && gap[1] == '\n');
            }
        }
        lemma_first_gap(a, b, from + 1);
    }
}

proof fn lemma_no_gap(a: Seq<char>, from: int)
    requires
        0 <= from,
        forall|i: int| !#[trigger] breaks_twice(a, i),
    ensures
        text::first_occurrence(a, seq!['\n', '\n'], from) is None,
    decreases a.len() - from + 1,
{
    let gap = seq!['\n', '\n'];
    if from + 2 <= a.len() {
        assert(!breaks_twice(a, from));
        assert(a.subrange(from, from + 2) != gap) by {
            if a.subrange(from, from + 2) == gap {
                assert(a.subrange(from, from + 2)[0] == gap[0]);
                assert(a.subrange(from, from + 2)[1] == gap[1]);
            }
        }
        lemma_no_gap(a, from + 1);
    }
}

/// A paragraph ends at an empty line: the paragraphs of a text are what stands before its first
/// empty line, trimmed, and those of what follows it. What is blank is no paragraph.
pub proof fn law_paragraphs_end_at_empty_lines(a: Seq<char>, b: Seq<char>)
    requires
        forall|i: int| !#[trigger] breaks_twice(a, i),
    ensures
        paragraphs(a) == (if text::trimmed(a).len() == 0 {
            Seq::<Seq<char>>::empty()
        } else {
            seq![text::trimmed(a)]
        }),
        a.len() == 0 || a.last() != '\n' ==> paragraphs(a + seq!['\n', '\n'] + b) == paragraphs(a)
            + paragraphs(b),
{
    let gap = seq!['\n', '\n'];
    lemma_no_gap(a, 0);
    lemma_one_trimmed_part(a);
    if a.len() == 0 || a.last() != '\n' {
        let s = a + gap + b;
        lemma_first_gap(a, b, 0);
        assert(s.take(a.len() as int) =~= a);
        assert(s.skip(a.len() as int + 2) =~= b);
        lemma_trimmed_parts_add(seq![a], text::parts_between(b, gap));
    }
}

proof fn lemma_current_is_filled(list: Seq<Seq<char>>)
    requires
        forall|i: int| 0 <= i < list.len() ==> (#[trigger] list[i]).len() > 0,
    ensures
        packed(list).current.len() == 0 <==> list.len() == 0 || list.last().len() > 1400,
    decreases list.len(),
{
    if list.len() > 0 {
        let front = list.drop_last();
        assert forall|i: int| 0 <= i < front.len() implies (#[trigger] front[i]).len() > 0 by {
            assert(front[i] == list[i]);
        }
        assert(list[list.len() - 1].len() > 0);
        lemma_current_is_filled(front);
    }
}

/// Paragraphs are put into chunks one after the other. The next one comes into the chunk of the
/// last where both, with an empty line between, are not longer than 1400 characters, and else
/// begins a chunk. One that is longer is cut into chunks of its own, and the next one after it
/// begins a chunk.
pub proof fn law_paragraphs_are_packed_in_order(list: Seq<Seq<char>>, next: Seq<char>)
    requires
        forall|i: int| 0 <= i < list.len() ==> (#[trigger] list[i]).len() > 0,
        next.len() > 0,
    ensures
        ({
            let before = closed(packed(list));
            let after = closed(packed(list.push(next)));
            let open = list.len() > 0 && list.last().len() <= 1400;
            &&& list.len() == 0 ==> before.len() == 0
            &&& open ==> before.len() > 0
            &&& next.len() > 1400 ==> after == before + limited_parts(next, 1400)
            &&& next.len() <= 1400 && !open ==> after == before.push(next)
            &&& next.len() <= 1400 && open && before.last().len() + 2 + next.len() <= 1400 ==> after
                == before.drop_last().push(before.last() + seq!['\n', '\n'] + next)
            &&& next.len() <= 1400 && open && before.last().len() + 2 + next.len() > 1400 ==> after
                == before.push(next)
        }),
{
    lemma_current_is_filled(list);
    assert(list.push(next).drop_last() =~= list);
    assert(list.push(next).last() == next);
    let packing = packed(list);
    let before = closed(packing);
    let after = closed(packed(list.push(next)));
    if packing.current.len() > 0 {
        assert(before.drop_last() =~= packing.done);
        assert(before.last() == packing.current);
    }
    if next.len() > 1400 {
        assert(after == before + limited_parts(next, 1400));
    } else if packing.current.len() == 0 {
        assert(after =~= before.push(next));
    } else if packing.current.len() + 2 + next.len() > 1400 {
        assert(after =~= before.push(next));
    } else {
        assert(after =~= before.drop_last().push(before.last() + seq!['\n', '\n'] + next));
    }
}

/// The chunks of a text are its paragraphs, packed in order; and each of them has something, no
/// white space at its ends, and no more than 1400 characters.
pub proof fn law_chunks_are_packed_paragraphs(s: &str, r: Vec<String>, i: int)
    requires
        call_ensures(chunk_memory_text, (s,), r),
    ensures
        text::strings(r@) == closed(packed(paragraphs(s@))),
        0 <= i < r@.len() ==> 0 < r@[i]@.len() <= 1400 && text::trimmed(r@[i]@) == r@[i]@,
{
    law_chunks_are_bounded(s@);
    if 0 <= i < r@.len() {
        assert(text::strings(r@)[i] == r@[i]@);
        assert(is_chunk(r@[i]@));
    }
}

} // verus!
