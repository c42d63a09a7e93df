//! Characters and text.
//!
//! Text is modelled as the sequence of its characters. The executable functions work on
//! `Vec<char>` and `&[char]`; `chars_of` and `text_of` convert from and to `str` and `String`.
use vstd::prelude::*;

verus! {

/// `String::push` appends the character to the text.
pub assume_specification[ String::push ](s: &mut String, ch: char)
    ensures
        final(s)@ == old(s)@.push(ch),
;

/// A set of characters that text is trimmed of or split at.
#[derive(Clone, Copy, Debug, PartialEq, Eq)]
pub enum CharClass {
    /// The Unicode property White_Space.
    Whitespace,
    /// The line feed.
    Newline,
    /// The two ASCII quotation marks.
    Quote,
    /// The forward slash.
    Slash,
    /// The slash and the backslash.
    AnySlash,
    /// The dot.
    Dot,
    /// The question mark.
    Question,
    /// The letter that may stand before a version number.
    VersionMark,
}

/// The Unicode property White_Space.
pub open spec fn is_space(c: char) -> bool {
    ||| '\u{9}' <= c <= '\u{d}'
    ||| c == ' '
    ||| c == '\u{85}'
    ||| c == '\u{a0}'
    ||| c == '\u{1680}'
    ||| '\u{2000}' <= c <= '\u{200a}'
    ||| c == '\u{2028}'
    ||| c == '\u{2029}'
    ||| c == '\u{202f}'
    ||| c == '\u{205f}'
    ||| c == '\u{3000}'
}

/// The Unicode category Cc, the control characters.
pub open spec fn is_control(c: char) -> bool {
    c <= '\u{1f}' || '\u{7f}' <= c <= '\u{9f}'
}

pub open spec fn is_ascii_digit(c: char) -> bool {
    '0' <= c <= '9'
}

pub open spec fn is_ascii_alphanumeric(c: char) -> bool {
    ('0' <= c <= '9') || ('a' <= c <= 'z') || ('A' <= c <= 'Z')
}

/// The ASCII lower case of a character.
pub open spec fn lower(c: char) -> char {
    if 'A' <= c <= 'Z' {
        (c as u32 + 32) as char
    } else {
        c
    }
}

pub open spec fn lowered(s: Seq<char>) -> Seq<char> {
    s.map_values(|c: char| lower(c))
}

impl CharClass {
    pub open spec fn has(self, c: char) -> bool {
        match self {
            CharClass::Whitespace => is_space(c),
            CharClass::Newline => c == '\n',
            CharClass::Quote => c == '"' || c == '\'',
            CharClass::Slash => c == '/',
            CharClass::AnySlash => c == '/' || c == '\\',
            CharClass::Dot => c == '.',
            CharClass::Question => c == '?',
            CharClass::VersionMark => c == 'v' || c == 'V',
        }
    }

    pub fn contains(&self, c: char) -> (r: bool)
        ensures
            r == self.has(c),
    {
        match self {
            CharClass::Whitespace => whitespace(c),
            CharClass::Newline => c == '\n',
            CharClass::Quote => c == '"' || c == '\'',
            CharClass::Slash => c == '/',
            CharClass::AnySlash => c == '/' || c == '\\',
            CharClass::Dot => c == '.',
            CharClass::Question => c == '?',
            CharClass::VersionMark => c == 'v' || c == 'V',
        }
    }
}

pub fn whitespace(c: char) -> (r: bool)
    ensures
        r == is_space(c),
{
    ('\u{9}' <= c && c <= '\u{d}') || c == ' ' || c == '\u{85}' || c == '\u{a0}' || c == '\u{1680}'
        || ('\u{2000}' <= c && c <= '\u{200a}') || c == '\u{2028}' || c == '\u{2029}' || c
        == '\u{202f}' || c == '\u{205f}' || c == '\u{3000}'
}

pub fn control(c: char) -> (r: bool)
    ensures
        r == is_control(c),
{
    c <= '\u{1f}' || ('\u{7f}' <= c && c <= '\u{9f}')
}

pub fn ascii_digit(c: char) -> (r: bool)
    ensures
        r == is_ascii_digit(c),
{
    '0' <= c && c <= '9'
}

pub fn ascii_alphanumeric(c: char) -> (r: bool)
    ensures
        r == is_ascii_alphanumeric(c),
{
    ('0' <= c && c <= '9') || ('a' <= c && c <= 'z') || ('A' <= c && c <= 'Z')
}

pub fn lower_char(c: char) -> (r: char)
    ensures
        r == lower(c),
{
    if 'A' <= c && c <= 'Z' {
        (c as u8 + 32) as char
    } else {
        c
    }
}

/// The texts that a list of character lists stands for.
pub open spec fn texts(list: Seq<Vec<char>>) -> Seq<Seq<char>> {
    list.map_values(|x: Vec<char>| x@)
}

/// The texts of a list of strings.
pub open spec fn strings(list: Seq<String>) -> Seq<Seq<char>> {
    list.map_values(|x: String| x@)
}

/// The characters of `text`, in order.
pub fn chars_of(text: &str) -> (chars: Vec<char>)
    ensures
        chars@ == text@,
{
    let mut chars: Vec<char> = Vec::new();
    for c in it: text.chars()
        invariant
            it.seq() == text@,
            chars@ == text@.take(it.index()),
    {
        chars.push(c);
    }
    chars
}

/// The text made of `chars`.
pub fn text_of(chars: &[char]) -> (text: String)
    ensures
        text@ == chars@,
{
    let mut text = String::new();
    for i in 0..chars.len()
        invariant
            text@ == chars@.take(i as int),
    {
        text.push(chars[i]);
    }
    assert(chars@.take(chars@.len() as int) =~= chars@);
    text
}

/// The text of an optional string.
pub open spec fn opt_text(s: Option<String>) -> Option<Seq<char>> {
    match s {
        Some(s) => Some(s@),
        None => None,
    }
}

/// The text, or the empty text where there is none.
pub open spec fn text_or_empty(s: Option<Seq<char>>) -> Seq<char> {
    match s {
        Some(s) => s,
        None => Seq::empty(),
    }
}

/// A copy of the text, or of `default` where there is none.
pub fn owned_or(s: Option<&str>, default: &str) -> (r: String)
    ensures
        r@ == (match s {
            Some(s) => s@,
            None => default@,
        }),
{
    match s {
        Some(s) => s.to_owned(),
        None => default.to_owned(),
    }
}

/// A copy of the text, where there is one.
pub fn owned(s: Option<&str>) -> (r: Option<String>)
    ensures
        opt_text(r) == (match s {
            Some(s) => Some(s@),
            None => None::<Seq<char>>,
        }),
{
    match s {
        Some(s) => Some(s.to_owned()),
        None => None,
    }
}

/// Whether two texts are the same.
pub fn same_text(a: &str, b: &str) -> (r: bool)
    ensures
        r == (a@ == b@),
{
    a.to_owned() == b.to_owned()
}

/// Whether a text is one of several.
pub fn lists(list: &Vec<String>, text: &String) -> (r: bool)
    ensures
        r == strings(list@).contains(text@),
{
    for i in 0..list.len()
        invariant
            forall|j: int| 0 <= j < i ==> (#[trigger] list@[j])@ != text@,
    {
        if list[i] == *text {
            assert(strings(list@)[i as int] == text@);
            return true;
        }
    }
    assert forall|j: int| 0 <= j < list@.len() implies #[trigger] strings(list@)[j] != text@ by {
        assert(strings(list@)[j] == list@[j]@);
    }
    false
}

/// Whether two lists of characters are the same.
pub fn same_chars(a: &[char], b: &[char]) -> (r: bool)
    ensures
        r == (a@ == b@),
{
    if a.len() != b.len() {
        return false;
    }
    for i in 0..a.len()
        invariant
            a@.len() == b@.len(),
            a@.take(i as int) == b@.take(i as int),
    {
        if a[i] != b[i] {
            assert(a@[i as int] != b@[i as int]);
            return false;
        }
        assert(a@.take(i + 1) =~= a@.take(i as int).push(a@[i as int]));
        assert(b@.take(i + 1) =~= b@.take(i as int).push(b@[i as int]));
    }
    assert(a@.take(a@.len() as int) =~= a@);
    assert(b@.take(b@.len() as int) =~= b@);
    true
}

/// The characters from position `from` up to position `to`.
pub fn range(chars: &[char], from: usize, to: usize) -> (r: Vec<char>)
    requires
        from <= to <= chars@.len(),
    ensures
        r@ == chars@.subrange(from as int, to as int),
{
    let mut r: Vec<char> = Vec::new();
    for i in from..to
        invariant
            from <= to <= chars@.len(),
            r@ == chars@.subrange(from as int, i as int),
    {
        r.push(chars[i]);
    }
    r
}

/// Appends `more` to `chars`.
pub fn append(chars: &mut Vec<char>, more: &[char])
    ensures
        final(chars)@ == old(chars)@ + more@,
{
    for i in 0..more.len()
        invariant
            chars@ == old(chars)@ + more@.take(i as int),
    {
        chars.push(more[i]);
    }
    assert(more@.take(more@.len() as int) =~= more@);
}

pub fn lower_chars(chars: &[char]) -> (r: Vec<char>)
    ensures
        r@ == lowered(chars@),
{
    let mut r: Vec<char> = Vec::new();
    for i in 0..chars.len()
        invariant
            r@ == lowered(chars@.take(i as int)),
    {
        r.push(lower_char(chars[i]));
        assert(lowered(chars@.take(i + 1)) =~= lowered(chars@.take(i as int)).push(
            lower(chars@[i as int]),
        ));
    }
    assert(chars@.take(chars@.len() as int) =~= chars@);
    r
}

/// The first `limit` characters, or all of them where there are fewer.
pub open spec fn clipped(s: Seq<char>, limit: nat) -> Seq<char> {
    if s.len() <= limit {
        s
    } else {
        s.take(limit as int)
    }
}

pub fn clip(chars: &[char], limit: usize) -> (r: Vec<char>)
    ensures
        r@ == clipped(chars@, limit as nat),
{
    let end: usize = if chars.len() <= limit {
        chars.len()
    } else {
        limit
    };
    range(chars, 0, end)
}

// ---------------------------------------------------------------------------------------
// Trimming
// ---------------------------------------------------------------------------------------

/// The text as far as a limit.
pub fn truncate_chars(value: &str, limit: usize) -> (r: String)
    ensures
        r@ == clipped(value@, limit as nat),
{
    text_of(clip(chars_of(value).as_slice(), limit).as_slice())
}

/// The text without the characters of `class` at its start.
pub open spec fn trimmed_start(s: Seq<char>, class: CharClass) -> Seq<char>
    decreases s.len(),
{
    if s.len() > 0 && class.has(s[0]) {
        trimmed_start(s.skip(1), class)
    } else {
        s
    }
}

/// The text without the characters of `class` at its end.
pub open spec fn trimmed_end(s: Seq<char>, class: CharClass) -> Seq<char>
    decreases s.len(),
{
    if s.len() > 0 && class.has(s.last()) {
        trimmed_end(s.drop_last(), class)
    } else {
        s
    }
}

/// The text without the characters of `class` at either end.
pub open spec fn trimmed_of(s: Seq<char>, class: CharClass) -> Seq<char> {
    trimmed_end(trimmed_start(s, class), class)
}

/// The text without white space at either end.
pub open spec fn trimmed(s: Seq<char>) -> Seq<char> {
    trimmed_of(s, CharClass::Whitespace)
}

/// Whether nothing but white space stands in the text.
pub open spec fn is_blank(s: Seq<char>) -> bool {
    trimmed(s).len() == 0
}

pub fn trim_start(chars: &[char], class: CharClass) -> (r: Vec<char>)
    ensures
        r@ == trimmed_start(chars@, class),
{
    let mut i: usize = 0;
    assert(chars@.skip(0) =~= chars@);
    while i < chars.len() && class.contains(chars[i])
        invariant
            i <= chars@.len(),
            trimmed_start(chars@.skip(i as int), class) == trimmed_start(chars@, class),
        decreases chars@.len() - i,
    {
        assert(chars@.skip(i as int).skip(1) =~= chars@.skip(i + 1));
        i += 1;
    }
    assert(chars@.skip(i as int) =~= chars@.subrange(i as int, chars@.len() as int));
    range(chars, i, chars.len())
}

pub fn trim_end(chars: &[char], class: CharClass) -> (r: Vec<char>)
    ensures
        r@ == trimmed_end(chars@, class),
{
    let mut i: usize = chars.len();
    assert(chars@.take(i as int) =~= chars@);
    while i > 0 && class.contains(chars[i - 1])
        invariant
            i <= chars@.len(),
            trimmed_end(chars@.take(i as int), class) == trimmed_end(chars@, class),
        decreases i,
    {
        assert(chars@.take(i as int).drop_last() =~= chars@.take(i - 1));
        i -= 1;
    }
    assert(chars@.take(i as int) =~= chars@.subrange(0, i as int));
    range(chars, 0, i)
}

pub fn trim_of(chars: &[char], class: CharClass) -> (r: Vec<char>)
    ensures
        r@ == trimmed_of(chars@, class),
{
    trim_end(trim_start(chars, class).as_slice(), class)
}

pub fn trim(chars: &[char]) -> (r: Vec<char>)
    ensures
        r@ == trimmed(chars@),
{
    trim_of(chars, CharClass::Whitespace)
}

/// Whether nothing but white space stands in `text`.
pub fn blank(text: &str) -> (r: bool)
    ensures
        r == is_blank(text@),
{
    trim(chars_of(text).as_slice()).len() == 0
}

// ---------------------------------------------------------------------------------------
// Searching
// ---------------------------------------------------------------------------------------

/// Whether `pattern` stands in `s` at position `i`.
pub open spec fn occurs_at(s: Seq<char>, pattern: Seq<char>, i: int) -> bool {
    0 <= i && i + pattern.len() <= s.len() && s.subrange(i, i + pattern.len()) == pattern
}

/// Whether `pattern` stands anywhere in `s`.
pub open spec fn occurs(s: Seq<char>, pattern: Seq<char>) -> bool {
    exists|i: int| #[trigger] occurs_at(s, pattern, i)
}

pub open spec fn begins(s: Seq<char>, pattern: Seq<char>) -> bool {
    occurs_at(s, pattern, 0)
}

pub open spec fn ends(s: Seq<char>, pattern: Seq<char>) -> bool {
    occurs_at(s, pattern, s.len() - pattern.len())
}

pub fn stands_at(chars: &[char], pattern: &[char], i: usize) -> (r: bool)
    ensures
        r == occurs_at(chars@, pattern@, i as int),
{
    if pattern.len() > chars.len() || i > chars.len() - pattern.len() {
        return false;
    }
    same_chars(range(chars, i, i + pattern.len()).as_slice(), pattern)
}

pub fn contains(chars: &[char], pattern: &[char]) -> (r: bool)
    ensures
        r == occurs(chars@, pattern@),
{
    if pattern.len() > chars.len() {
        return false;
    }
    let last: usize = chars.len() - pattern.len();
    let mut i: usize = 0;
    while i <= last
        invariant
            last + pattern@.len() == chars@.len(),
            i <= last + 1,
            forall|k: int| 0 <= k < i ==> !#[trigger] occurs_at(chars@, pattern@, k),
        decreases last + 1 - i,
    {
        if stands_at(chars, pattern, i) {
            return true;
        }
        if i == last {
            return false;
        }
        i += 1;
    }
    false
}

pub fn starts_with(chars: &[char], pattern: &[char]) -> (r: bool)
    ensures
        r == begins(chars@, pattern@),
{
    stands_at(chars, pattern, 0)
}

pub fn ends_with(chars: &[char], pattern: &[char]) -> (r: bool)
    ensures
        r == ends(chars@, pattern@),
{
    if pattern.len() > chars.len() {
        return false;
    }
    stands_at(chars, pattern, chars.len() - pattern.len())
}

// ---------------------------------------------------------------------------------------
// Splitting and joining
// ---------------------------------------------------------------------------------------

/// The pieces of `s` between the characters of `class`: one more than there are of those.
pub open spec fn pieces(s: Seq<char>, class: CharClass) -> Seq<Seq<char>>
    decreases s.len(),
{
    if s.len() == 0 {
        seq![Seq::<char>::empty()]
    } else {
        let before = pieces(s.drop_last(), class);
        if class.has(s.last()) {
            before.push(Seq::<char>::empty())
        } else {
            before.drop_last().push(before.last().push(s.last()))
        }
    }
}

/// The words of `s`: its longest runs of characters that are not white space.
pub open spec fn words(s: Seq<char>) -> Seq<Seq<char>> {
    pieces(s, CharClass::Whitespace).filter(|w: Seq<char>| w.len() > 0)
}

/// The texts of `parts`, with `separator` between each two.
pub open spec fn joined(parts: Seq<Seq<char>>, separator: Seq<char>) -> Seq<char>
    decreases parts.len(),
{
    if parts.len() == 0 {
        Seq::<char>::empty()
    } else if parts.len() == 1 {
        parts[0]
    } else {
        joined(parts.drop_last(), separator) + separator + parts.last()
    }
}

pub proof fn lemma_pieces_nonempty(s: Seq<char>, class: CharClass)
    ensures
        pieces(s, class).len() > 0,
    decreases s.len(),
{
    if s.len() > 0 {
        lemma_pieces_nonempty(s.drop_last(), class);
    }
}

pub fn split_pieces(chars: &[char], class: CharClass) -> (r: Vec<Vec<char>>)
    ensures
        texts(r@) == pieces(chars@, class),
        r@.len() > 0,
{
    let mut done: Vec<Vec<char>> = Vec::new();
    let mut current: Vec<char> = Vec::new();
    proof {
        assert(texts(done@).push(current@) =~= pieces(chars@.take(0), class));
    }
    for i in 0..chars.len()
        invariant
            texts(done@).push(current@) == pieces(chars@.take(i as int), class),
    {
        let c: char = chars[i];
        let ghost before = texts(done@).push(current@);
        proof {
            assert(chars@.take(i + 1).drop_last() =~= chars@.take(i as int));
            assert(before.drop_last() =~= texts(done@));
        }
        if class.contains(c) {
            done.push(current);
            current = Vec::new();
            assert(texts(done@) =~= before);
        } else {
            current.push(c);
        }
    }
    assert(chars@.take(chars@.len() as int) =~= chars@);
    let ghost before = texts(done@).push(current@);
    done.push(current);
    assert(texts(done@) =~= before);
    done
}

pub fn split_words(chars: &[char]) -> (r: Vec<Vec<char>>)
    ensures
        texts(r@) == words(chars@),
{
    let parts = split_pieces(chars, CharClass::Whitespace);
    let ghost nonempty = |w: Seq<char>| w.len() > 0;
    let mut r: Vec<Vec<char>> = Vec::new();
    for i in 0..parts.len()
        invariant
            nonempty == (|w: Seq<char>| w.len() > 0),
            texts(r@) == texts(parts@).take(i as int).filter(nonempty),
    {
        proof {
            assert(texts(parts@).take(i + 1).drop_last() =~= texts(parts@).take(i as int));
            reveal(Seq::filter);
        }
        if parts[i].len() > 0 {
            let ghost before = r@;
            let part = range(parts[i].as_slice(), 0, parts[i].len());
            assert(part@ =~= parts@[i as int]@);
            r.push(part);
            assert(texts(r@) =~= texts(before).push(part@));
        }
    }
    assert(texts(parts@).take(parts@.len() as int) =~= texts(parts@));
    r
}

pub fn join(parts: &[Vec<char>], separator: &[char]) -> (r: Vec<char>)
    ensures
        r@ == joined(texts(parts@), separator@),
{
    let mut r: Vec<char> = Vec::new();
    for i in 0..parts.len()
        invariant
            r@ == joined(texts(parts@).take(i as int), separator@),
    {
        let ghost list = texts(parts@).take(i + 1);
        assert(list.drop_last() =~= texts(parts@).take(i as int));
        if i > 0 {
            append(&mut r, separator);
        }
        append(&mut r, parts[i].as_slice());
        proof {
            if i == 0 {
                assert(r@ =~= parts@[0]@);
            }
        }
    }
    assert(texts(parts@).take(parts@.len() as int) =~= texts(parts@));
    r
}

/// The first position from `from` on at which `pattern` stands in `s`.
pub open spec fn first_occurrence(s: Seq<char>, pattern: Seq<char>, from: int) -> Option<int>
    decreases s.len() - from + 1,
{
    if from + pattern.len() > s.len() {
        None
    } else if occurs_at(s, pattern, from) {
        Some(from)
    } else {
        first_occurrence(s, pattern, from + 1)
    }
}

pub fn find(chars: &[char], pattern: &[char], from: usize) -> (r: Option<usize>)
    requires
        from <= chars@.len(),
    ensures
        match r {
            Some(i) => first_occurrence(chars@, pattern@, from as int) == Some(i as int) && from
                <= i && occurs_at(chars@, pattern@, i as int),
            None => first_occurrence(chars@, pattern@, from as int) is None,
        },
{
    let mut i: usize = from;
    while pattern.len() <= chars.len() - i
        invariant
            from <= i <= chars@.len(),
            first_occurrence(chars@, pattern@, i as int) == first_occurrence(
                chars@,
                pattern@,
                from as int,
            ),
        decreases chars@.len() - i,
    {
        if stands_at(chars, pattern, i) {
            return Some(i);
        }
        if i == chars.len() {
            assert(first_occurrence(chars@, pattern@, i + 1) is None);
            return None;
        }
        i += 1;
    }
    None
}

/// The parts of `s` between the occurrences of `pattern`, found from the left.
pub open spec fn parts_between(s: Seq<char>, pattern: Seq<char>) -> Seq<Seq<char>>
    decreases s.len(),
{
    match first_occurrence(s, pattern, 0) {
        Some(i) => if pattern.len() > 0 && 0 <= i && i + pattern.len() <= s.len() {
            seq![s.take(i)] + parts_between(s.skip(i + pattern.len()), pattern)
        } else {
            seq![s]
        },
        None => seq![s],
    }
}

proof fn lemma_first_occurrence_shift(s: Seq<char>, pattern: Seq<char>, start: int, from: int)
    requires
        0 <= start <= from,
        start <= s.len(),
    ensures
        first_occurrence(s.skip(start), pattern, from - start) == (match first_occurrence(
            s,
            pattern,
            from,
        ) {
            Some(i) => Some(i - start),
            None => None,
        }),
    decreases s.len() - from + 1,
{
    if from + pattern.len() <= s.len() {
        assert(s.skip(start).subrange(from - start, from - start + pattern.len()) =~= s.subrange(
            from,
            from + pattern.len(),
        ));
        lemma_first_occurrence_shift(s, pattern, start, from + 1);
    }
}

pub fn split_between(chars: &[char], pattern: &[char]) -> (r: Vec<Vec<char>>)
    requires
        pattern@.len() > 0,
    ensures
        texts(r@) == parts_between(chars@, pattern@),
{
    let mut r: Vec<Vec<char>> = Vec::new();
    let mut start: usize = 0;
    assert(chars@.skip(0) =~= chars@);
    assert(texts(r@) + parts_between(chars@, pattern@) =~= parts_between(chars@, pattern@));
    loop
        invariant
            pattern@.len() > 0,
            start <= chars@.len(),
            texts(r@) + parts_between(chars@.skip(start as int), pattern@) == parts_between(
                chars@,
                pattern@,
            ),
        decreases chars@.len() - start,
    {
        let ghost rest = chars@.skip(start as int);
        let ghost before = r@;
        proof {
            lemma_first_occurrence_shift(chars@, pattern@, start as int, start as int);
        }
        match find(chars, pattern, start) {
            Some(i) => {
                let part = range(chars, start, i);
                assert(part@ =~= rest.take(i - start));
                r.push(part);
                assert(i + pattern@.len() <= chars.len());
                start = i + pattern.len();
                assert(chars@.skip(start as int) =~= rest.skip(start - (chars@.len() - rest.len())));
                assert(texts(r@) =~= texts(before).push(part@));
                assert(texts(r@) + parts_between(chars@.skip(start as int), pattern@) =~= texts(
                    before,
                ) + parts_between(rest, pattern@));
            },
            None => {
                let part = range(chars, start, chars.len());
                assert(part@ =~= rest);
                r.push(part);
                assert(texts(r@) =~= texts(before) + seq![rest]);
                return r;
            },
        }
    }
}

// ---------------------------------------------------------------------------------------
// Replacing
// ---------------------------------------------------------------------------------------

/// The text with every `from` replaced by the text `to`.
pub open spec fn replaced(s: Seq<char>, from: char, to: Seq<char>) -> Seq<char>
    decreases s.len(),
{
    if s.len() == 0 {
        s
    } else {
        let before = replaced(s.drop_last(), from, to);
        if s.last() == from {
            before + to
        } else {
            before.push(s.last())
        }
    }
}

/// Replacing goes character by character, from the front as well as from the back.
pub proof fn lemma_replaced_front(s: Seq<char>, from: char, to: Seq<char>)
    requires
        s.len() > 0,
    ensures
        replaced(s, from, to) == (if s[0] == from {
            to
        } else {
            seq![s[0]]
        }) + replaced(s.skip(1), from, to),
    decreases s.len(),
{
    let first = if s[0] == from {
        to
    } else {
        seq![s[0]]
    };
    if s.len() == 1 {
        assert(s.drop_last() =~= Seq::<char>::empty());
        assert(s.skip(1) =~= Seq::<char>::empty());
        assert(replaced(s, from, to) =~= first + replaced(s.skip(1), from, to));
    } else {
        lemma_replaced_front(s.drop_last(), from, to);
        assert(s.drop_last().skip(1) =~= s.skip(1).drop_last());
        assert(replaced(s, from, to) =~= first + replaced(s.skip(1), from, to));
    }
}

pub fn replace(chars: &[char], from: char, to: &[char]) -> (r: Vec<char>)
    ensures
        r@ == replaced(chars@, from, to@),
{
    let mut r: Vec<char> = Vec::new();
    for i in 0..chars.len()
        invariant
            r@ == replaced(chars@.take(i as int), from, to@),
    {
        assert(chars@.take(i + 1).drop_last() =~= chars@.take(i as int));
        if chars[i] == from {
            append(&mut r, to);
        } else {
            r.push(chars[i]);
        }
    }
    assert(chars@.take(chars@.len() as int) =~= chars@);
    r
}

/// The text with every line break, be it `\r\n`, `\r` or `\n`, written as `\n`.
pub open spec fn unified_newlines(s: Seq<char>) -> Seq<char>
    decreases s.len(),
{
    if s.len() == 0 {
        s
    } else if s[0] == '\r' {
        seq!['\n'] + unified_newlines(
            s.skip(
                if s.len() > 1 && s[1] == '\n' {
                    2
                } else {
                    1
                },
            ),
        )
    } else {
        seq![s[0]] + unified_newlines(s.skip(1))
    }
}

pub fn unify_newlines(chars: &[char]) -> (r: Vec<char>)
    ensures
        r@ == unified_newlines(chars@),
{
    let mut r: Vec<char> = Vec::new();
    let mut i: usize = 0;
    assert(chars@.skip(0) =~= chars@);
    assert(r@ + unified_newlines(chars@) =~= unified_newlines(chars@));
    while i < chars.len()
        invariant
            i <= chars@.len(),
            r@ + unified_newlines(chars@.skip(i as int)) == unified_newlines(chars@),
        decreases chars@.len() - i,
    {
        let ghost rest = chars@.skip(i as int);
        let ghost before = r@;
        assert(rest.skip(1) =~= chars@.skip(i + 1));
        if chars[i] == '\r' {
            r.push('\n');
            if i + 1 < chars.len() && chars[i + 1] == '\n' {
                assert(rest.skip(2) =~= chars@.skip(i + 2));
                i += 2;
            } else {
                i += 1;
            }
            assert(r@ + unified_newlines(chars@.skip(i as int)) =~= before + unified_newlines(rest));
        } else {
            r.push(chars[i]);
            i += 1;
            assert(r@ + unified_newlines(chars@.skip(i as int)) =~= before + unified_newlines(rest));
        }
    }
    assert(r@ + unified_newlines(chars@.skip(i as int)) =~= r@);
    r
}

/// The lines of a text whose line breaks are `\n`; a break at the very end begins no line.
pub open spec fn lines(s: Seq<char>) -> Seq<Seq<char>> {
    let parts = pieces(s, CharClass::Newline);
    if parts.last().len() == 0 {
        parts.drop_last()
    } else {
        parts
    }
}

pub fn split_lines(chars: &[char]) -> (r: Vec<Vec<char>>)
    ensures
        texts(r@) == lines(chars@),
{
    let mut parts = split_pieces(chars, CharClass::Newline);
    let ghost model = texts(parts@);
    let last: usize = parts.len() - 1;
    assert(model.last() == parts@[last as int]@);
    if parts[last].len() == 0 {
        let _ = parts.pop();
        assert(texts(parts@) =~= model.drop_last());
    }
    parts
}

// ---------------------------------------------------------------------------------------
// Facts
// ---------------------------------------------------------------------------------------

/// Trimmed text is part of the text, and ends in no character of the class.
pub proof fn lemma_trimmed_end(s: Seq<char>, class: CharClass)
    ensures
        trimmed_end(s, class).len() <= s.len(),
        trimmed_end(s, class) == s.take(trimmed_end(s, class).len() as int),
        trimmed_end(s, class).len() > 0 ==> !class.has(trimmed_end(s, class).last()),
    decreases s.len(),
{
    if s.len() > 0 && class.has(s.last()) {
        lemma_trimmed_end(s.drop_last(), class);
        let n = trimmed_end(s, class).len() as int;
        assert(s.drop_last().take(n) =~= s.take(n));
    } else {
        assert(s.take(s.len() as int) =~= s);
    }
}

/// Trimming makes no text longer.
pub proof fn lemma_trimmed_len(s: Seq<char>)
    ensures
        trimmed(s).len() <= s.len(),
{
    lemma_trimmed_start_len(s, CharClass::Whitespace);
    lemma_trimmed_end(trimmed_start(s, CharClass::Whitespace), CharClass::Whitespace);
}

proof fn lemma_trimmed_start_len(s: Seq<char>, class: CharClass)
    ensures
        trimmed_start(s, class).len() <= s.len(),
    decreases s.len(),
{
    if s.len() > 0 && class.has(s[0]) {
        lemma_trimmed_start_len(s.skip(1), class);
    }
}

/// Whether a text holds something, and neither begins nor ends with white space.
pub open spec fn is_bare(s: Seq<char>) -> bool {
    s.len() > 0 && !is_space(s[0]) && !is_space(s.last())
}

proof fn lemma_trimmed_start_first(s: Seq<char>, class: CharClass)
    ensures
        trimmed_start(s, class).len() > 0 ==> !class.has(trimmed_start(s, class)[0]),
    decreases s.len(),
{
    if s.len() > 0 && class.has(s[0]) {
        lemma_trimmed_start_first(s.skip(1), class);
    }
}

/// Trimmed text that holds something has no white space at either end, and text that has none
/// there is not changed by trimming.
pub proof fn lemma_bare(s: Seq<char>)
    ensures
        trimmed(s).len() > 0 ==> is_bare(trimmed(s)),
        is_bare(s) ==> trimmed(s) == s,
{
    let front = trimmed_start(s, CharClass::Whitespace);
    lemma_trimmed_start_first(s, CharClass::Whitespace);
    lemma_trimmed_end(front, CharClass::Whitespace);
}

/// Joining more parts only adds to the text.
pub proof fn lemma_joined_prefix(parts: Seq<Seq<char>>, separator: Seq<char>, k: int)
    requires
        0 <= k <= parts.len(),
    ensures
        joined(parts.take(k), separator).len() <= joined(parts, separator).len(),
        joined(parts, separator).take(joined(parts.take(k), separator).len() as int) == joined(
            parts.take(k),
            separator,
        ),
    decreases parts.len(),
{
    let short = joined(parts.take(k), separator);
    let long = joined(parts, separator);
    if k == parts.len() {
        assert(parts.take(k) =~= parts);
        assert(long.take(long.len() as int) =~= long);
    } else if k == 0 {
        assert(parts.take(0) =~= Seq::<Seq<char>>::empty());
        assert(long.take(0) =~= short);
    } else {
        lemma_joined_prefix(parts.drop_last(), separator, k);
        assert(parts.drop_last().take(k) =~= parts.take(k));
        let middle = joined(parts.drop_last(), separator);
        assert(long == middle + separator + parts.last());
        assert(long.take(short.len() as int) =~= middle.take(short.len() as int));
    }
}

/// Text behind a character of a class that holds none of it itself is the last piece.
pub proof fn lemma_last_piece(front: Seq<char>, c: char, word: Seq<char>, class: CharClass)
    requires
        class.has(c),
        forall|i: int| 0 <= i < word.len() ==> !class.has(#[trigger] word[i]),
    ensures
        pieces(front.push(c) + word, class) == pieces(front, class).push(word),
    decreases word.len(),
{
    let whole = front.push(c) + word;
    if word.len() == 0 {
        assert(whole =~= front.push(c));
        assert(whole.drop_last() =~= front);
        assert(word =~= Seq::<char>::empty());
    } else {
        assert(whole.drop_last() =~= front.push(c) + word.drop_last());
        assert forall|i: int| 0 <= i < word.drop_last().len() implies !class.has(
            #[trigger] word.drop_last()[i],
        ) by {
            assert(word.drop_last()[i] == word[i]);
        }
        lemma_last_piece(front, c, word.drop_last(), class);
        assert(!class.has(word[word.len() - 1]));
        assert(word.drop_last().push(word.last()) =~= word);
        let parts = pieces(front, class);
        assert(parts.push(word.drop_last()).drop_last() =~= parts);
    }
}

/// Text behind a white space character that holds none itself is the last word.
pub proof fn lemma_last_word(front: Seq<char>, c: char, word: Seq<char>)
    requires
        is_space(c),
        word.len() > 0,
        forall|i: int| 0 <= i < word.len() ==> !is_space(#[trigger] word[i]),
    ensures
        words(front.push(c) + word) == words(front).push(word),
{
    lemma_last_piece(front, c, word, CharClass::Whitespace);
    reveal(Seq::filter);
    let parts = pieces(front, CharClass::Whitespace);
    assert(parts.push(word).drop_last() =~= parts);
}

/// Whether a text holds something, and no white space.
pub open spec fn is_word(s: Seq<char>) -> bool {
    s.len() > 0 && forall|i: int| 0 <= i < s.len() ==> !is_space(#[trigger] s[i])
}

/// No piece holds a character that the text was split at.
pub proof fn lemma_pieces_hold_no_separator(s: Seq<char>, class: CharClass)
    ensures
        forall|i: int, j: int|
            0 <= i < pieces(s, class).len() && 0 <= j < pieces(s, class)[i].len()
                ==> !class.has(#[trigger] pieces(s, class)[i][j]),
    decreases s.len(),
{
    if s.len() > 0 {
        lemma_pieces_nonempty(s.drop_last(), class);
        lemma_pieces_hold_no_separator(s.drop_last(), class);
        let before = pieces(s.drop_last(), class);
        let after = pieces(s, class);
        assert forall|i: int, j: int|
            0 <= i < after.len() && 0 <= j < after[i].len() implies !class.has(
            #[trigger] after[i][j],
        ) by {
            if i < before.len() - 1 {
                assert(after[i] == before[i]);
                assert(!class.has(before[i][j]));
            } else if i < before.len() {
                if j < before[i].len() {
                    assert(after[i][j] == before[i][j]);
                    assert(!class.has(before[i][j]));
                }
            }
        }
    }
}

/// Every word holds something, and no white space.
pub proof fn lemma_words_are_words(s: Seq<char>)
    ensures
        forall|k: int| 0 <= k < words(s).len() ==> is_word(#[trigger] words(s)[k]),
{
    let parts = pieces(s, CharClass::Whitespace);
    let nonempty = |w: Seq<char>| w.len() > 0;
    lemma_pieces_hold_no_separator(s, CharClass::Whitespace);
    assert forall|k: int| 0 <= k < words(s).len() implies is_word(#[trigger] words(s)[k]) by {
        parts.lemma_filter_pred(nonempty, k);
        let w = words(s)[k];
        assert(parts.filter(nonempty).contains(w));
        parts.lemma_filter_contains_rev(nonempty, w);
        let j = parts.index_of(w);
        assert forall|i: int| 0 <= i < w.len() implies !is_space(#[trigger] w[i]) by {
            assert(parts[j][i] == w[i]);
        }
    }
}

proof fn lemma_few_words(word: Seq<char>)
    requires
        word.len() == 0 || is_word(word),
    ensures
        words(word) == (if word.len() == 0 {
            Seq::<Seq<char>>::empty()
        } else {
            seq![word]
        }),
{
    reveal(Seq::filter);
    let nonempty = |w: Seq<char>| w.len() > 0;
    lemma_single_piece(word, CharClass::Whitespace);
    assert(seq![word].drop_last() =~= Seq::<Seq<char>>::empty());
    assert(seq![word].drop_last().filter(nonempty) =~= Seq::<Seq<char>>::empty());
    assert(seq![word].last() == word);
}

/// The words of a text made of words with one blank between each two are these words.
pub proof fn lemma_words_of_joined(parts: Seq<Seq<char>>)
    requires
        forall|k: int| 0 <= k < parts.len() ==> is_word(#[trigger] parts[k]),
    ensures
        words(joined(parts, seq![' '])) == parts,
    decreases parts.len(),
{
    if parts.len() == 0 {
        lemma_few_words(Seq::<char>::empty());
    } else if parts.len() == 1 {
        assert(is_word(parts[0]));
        lemma_few_words(parts[0]);
        assert(seq![parts[0]] =~= parts);
    } else {
        let front = joined(parts.drop_last(), seq![' ']);
        assert forall|k: int| 0 <= k < parts.drop_last().len() implies is_word(
            #[trigger] parts.drop_last()[k],
        ) by {
            assert(parts.drop_last()[k] == parts[k]);
        }
        lemma_words_of_joined(parts.drop_last());
        assert(is_word(parts[parts.len() - 1]));
        lemma_last_word(front, ' ', parts.last());
        assert(front + seq![' '] + parts.last() =~= front.push(' ') + parts.last());
        assert(parts.drop_last().push(parts.last()) =~= parts);
    }
}

/// A text that holds no character of `class` is its only piece.
pub proof fn lemma_single_piece(word: Seq<char>, class: CharClass)
    requires
        forall|i: int| 0 <= i < word.len() ==> !class.has(#[trigger] word[i]),
    ensures
        pieces(word, class) == seq![word],
    decreases word.len(),
{
    if word.len() == 0 {
        assert(word =~= Seq::<char>::empty());
    } else {
        let front = word.drop_last();
        assert forall|i: int| 0 <= i < front.len() implies !class.has(#[trigger] front[i]) by {
            assert(front[i] == word[i]);
        }
        lemma_single_piece(front, class);
        assert(!class.has(word[word.len() - 1]));
        assert(front.push(word.last()) =~= word);
        assert(seq![front].drop_last().push(word) =~= seq![word]);
    }
}

// ---------------------------------------------------------------------------------------
// Order
// ---------------------------------------------------------------------------------------

/// Whether a text comes no later than another in the order of the numbers of their characters.
pub open spec fn at_most(a: Seq<char>, b: Seq<char>) -> bool
    decreases a.len(),
{
    if a.len() == 0 {
        true
    } else if b.len() == 0 {
        false
    } else if a[0] != b[0] {
        a[0] < b[0]
    } else {
        at_most(a.skip(1), b.skip(1))
    }
}

pub fn is_at_most(a: &[char], b: &[char]) -> (r: bool)
    ensures
        r == at_most(a@, b@),
{
    let mut i: usize = 0;
    assert(a@.skip(0) =~= a@);
    assert(b@.skip(0) =~= b@);
    while i < a.len()
        invariant
            i <= a@.len(),
            i <= b@.len(),
            at_most(a@.skip(i as int), b@.skip(i as int)) == at_most(a@, b@),
        decreases a@.len() - i,
    {
        if i >= b.len() {
            return false;
        }
        if a[i] != b[i] {
            return a[i] < b[i];
        }
        assert(a@.skip(i as int).skip(1) =~= a@.skip(i + 1));
        assert(b@.skip(i as int).skip(1) =~= b@.skip(i + 1));
        i = i + 1;
    }
    true
}

pub proof fn lemma_at_most_total(a: Seq<char>, b: Seq<char>)
    ensures
        at_most(a, b) || at_most(b, a),
    decreases a.len(),
{
    if a.len() > 0 && b.len() > 0 && a[0] == b[0] {
        lemma_at_most_total(a.skip(1), b.skip(1));
    }
}

pub proof fn lemma_at_most_transitive(a: Seq<char>, b: Seq<char>, c: Seq<char>)
    requires
        at_most(a, b),
        at_most(b, c),
    ensures
        at_most(a, c),
    decreases a.len(),
{
    if a.len() > 0 && a[0] == b[0] && b[0] == c[0] {
        lemma_at_most_transitive(a.skip(1), b.skip(1), c.skip(1));
    }
}

/// Two texts of which neither comes later than the other are the same.
pub proof fn lemma_at_most_antisymmetric(a: Seq<char>, b: Seq<char>)
    requires
        at_most(a, b),
        at_most(b, a),
    ensures
        a == b,
    decreases a.len(),
{
    if a.len() > 0 && b.len() > 0 {
        lemma_at_most_antisymmetric(a.skip(1), b.skip(1));
        assert(a =~= seq![a[0]] + a.skip(1));
        assert(b =~= seq![b[0]] + b.skip(1));
    } else {
        assert(a =~= b);
    }
}

} // verus!
