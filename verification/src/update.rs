//! Releases of Codex++: reading them, comparing versions, and choosing the installer.
use crate::file_name;
use crate::json;
use crate::json::Json;
use crate::json::JsonModel;
use crate::number;
use crate::platform::{Arch, Platform};
use crate::text::{self, CharClass};
use vstd::prelude::*;

verus! {

pub const DEFAULT_REPOSITORY: &'static str = "Alunixa-Code/CodexPlusPlusPlus";

pub const DEFAULT_LATEST_RELEASE_API_URL: &'static str =
    "https://api.github.com/repos/Alunixa-Code/CodexPlusPlusPlus/releases/latest";

pub const DEFAULT_RELEASES_PAGE_URL: &'static str =
    "https://github.com/Alunixa-Code/CodexPlusPlusPlus/releases";

pub const MAX_RELEASE_SUMMARY_CHARS: usize = 1200;

pub const MAX_RELEASE_SUMMARY_LINES: usize = 12;

/// An installer that a release offers.
#[derive(Debug, Clone, PartialEq, Eq)]
pub struct ReleaseAsset {
    pub name: String,
    pub browser_download_url: String,
}

/// A published release.
#[derive(Debug, Clone, PartialEq, Eq)]
pub struct Release {
    pub version: String,
    pub url: String,
    pub body: String,
    pub asset_name: Option<String>,
    pub asset_url: Option<String>,
}

/// What came of asking for a newer release.
#[derive(Debug, Clone, PartialEq, Eq)]
pub struct UpdateCheck {
    pub current_version: String,
    pub latest_version: Option<String>,
    pub release_summary: String,
    pub asset_name: Option<String>,
    pub asset_url: Option<String>,
    pub update_available: bool,
}

/// An installer that was downloaded and started.
#[derive(Debug, Clone, PartialEq, Eq)]
pub struct UpdateInstall {
    pub release: Release,
    pub installer_path: String,
    pub launched: bool,
}

/// Why a version tag cannot be read.
#[derive(Debug, Clone, Copy, PartialEq, Eq)]
pub enum VersionError {
    /// The tag does not have the form of a version.
    InvalidTag,
    /// A number of the version is missing.
    EmptyNumber,
    /// A number of the version does not fit into 64 bits.
    LargeNumber,
}

// ---------------------------------------------------------------------------------------
// Versions
// ---------------------------------------------------------------------------------------

/// The position of the first `-` or `+`, or the length of the text.
pub open spec fn core_length(s: Seq<char>) -> int
    decreases s.len(),
{
    if s.len() == 0 || s[0] == '-' || s[0] == '+' {
        0
    } else {
        1 + core_length(s.skip(1))
    }
}

/// The numbers that the parts of a version stand for; the first bad part decides the error.
pub open spec fn version_numbers(parts: Seq<Seq<char>>) -> Result<Seq<u64>, VersionError>
    decreases parts.len(),
{
    if parts.len() == 0 {
        Ok(Seq::empty())
    } else {
        match version_numbers(parts.drop_last()) {
            Err(e) => Err(e),
            Ok(numbers) => if parts.last().len() == 0 {
                Err(VersionError::EmptyNumber)
            } else if number::digits_value(parts.last()) > u64::MAX {
                Err(VersionError::LargeNumber)
            } else {
                Ok(numbers.push(number::digits_value(parts.last()) as u64))
            },
        }
    }
}

/// Whether a text can be the row of numbers of a version.
pub open spec fn is_version_core(core: Seq<char>) -> bool {
    &&& core.len() > 0
    &&& core[0] != '.'
    &&& core.last() != '.'
    &&& forall|i: int|
        0 <= i < core.len() ==> text::is_ascii_digit(#[trigger] core[i]) || core[i] == '.'
}

pub open spec fn has_space(s: Seq<char>) -> bool {
    exists|i: int| 0 <= i < s.len() && text::is_space(#[trigger] s[i])
}

/// The numbers of a version tag: white space around it, the letter `v` before it and what follows
/// a `-` or `+` do not count.
pub open spec fn version_of(tag: Seq<char>) -> Result<Seq<u64>, VersionError> {
    let normalized = text::trimmed_start(text::trimmed(tag), CharClass::VersionMark);
    let core = normalized.take(core_length(normalized));
    let suffix = normalized.skip(core_length(normalized));
    if is_version_core(core) && !has_space(suffix) {
        version_numbers(text::pieces(core, CharClass::Dot))
    } else {
        Err(VersionError::InvalidTag)
    }
}

pub proof fn lemma_core_length(s: Seq<char>)
    ensures
        0 <= core_length(s) <= s.len(),
    decreases s.len(),
{
    if s.len() > 0 {
        lemma_core_length(s.skip(1));
    }
}

fn core_end(s: &[char]) -> (n: usize)
    ensures
        n as int == core_length(s@),
        n <= s@.len(),
{
    let mut n: usize = 0;
    assert(s@.skip(0) =~= s@);
    while n < s.len() && s[n] != '-' && s[n] != '+'
        invariant
            n <= s@.len(),
            core_length(s@) == n + core_length(s@.skip(n as int)),
        decreases s@.len() - n,
    {
        assert(s@.skip(n as int).skip(1) =~= s@.skip(n + 1));
        n += 1;
    }
    n
}

fn version_core(core: &[char]) -> (r: bool)
    ensures
        r == is_version_core(core@),
{
    if core.len() == 0 || core[0] == '.' || core[core.len() - 1] == '.' {
        return false;
    }
    for i in 0..core.len()
        invariant
            forall|j: int|
                0 <= j < i ==> text::is_ascii_digit(#[trigger] core@[j]) || core@[j] == '.',
    {
        if !text::ascii_digit(core[i]) && core[i] != '.' {
            assert(!text::is_ascii_digit(core@[i as int]));
            return false;
        }
    }
    true
}

fn holds_space(s: &[char]) -> (r: bool)
    ensures
        r == has_space(s@),
{
    for i in 0..s.len()
        invariant
            forall|j: int| 0 <= j < i ==> !text::is_space(#[trigger] s@[j]),
    {
        if text::whitespace(s[i]) {
            assert(text::is_space(s@[i as int]));
            return true;
        }
    }
    false
}

/// The pieces of a row of digits and dots are rows of digits.
proof fn lemma_pieces_are_digits(core: Seq<char>)
    requires
        forall|i: int|
            0 <= i < core.len() ==> text::is_ascii_digit(#[trigger] core[i]) || core[i] == '.',
    ensures
        forall|i: int|
            0 <= i < text::pieces(core, CharClass::Dot).len() ==> number::all_digits(
                #[trigger] text::pieces(core, CharClass::Dot)[i],
            ),
    decreases core.len(),
{
    if core.len() > 0 {
        text::lemma_pieces_nonempty(core.drop_last(), CharClass::Dot);
        lemma_pieces_are_digits(core.drop_last());
        let before = text::pieces(core.drop_last(), CharClass::Dot);
        let after = text::pieces(core, CharClass::Dot);
        assert(number::all_digits(before.last()));
        assert forall|i: int| 0 <= i < after.len() implies number::all_digits(
            #[trigger] after[i],
        ) by {
            if i < before.len() - 1 {
                assert(after[i] == before[i]);
                assert(number::all_digits(before[i]));
            } else if i == before.len() - 1 {
                if core.last() == '.' {
                    assert(after[i] == before[i]);
                } else {
                    assert(after[i] == before.last().push(core.last()));
                }
            }
        }
    }
}

/// The first bad part decides what is said of the whole version.
proof fn lemma_bad_part(parts: Seq<Seq<char>>, i: int)
    requires
        0 <= i <= parts.len(),
        version_numbers(parts.take(i)) is Err,
    ensures
        version_numbers(parts) == version_numbers(parts.take(i)),
    decreases parts.len(),
{
    if i == parts.len() {
        assert(parts.take(i) =~= parts);
    } else {
        assert(parts.drop_last().take(i) =~= parts.take(i));
        lemma_bad_part(parts.drop_last(), i);
    }
}

fn read_numbers(parts: &Vec<Vec<char>>) -> (r: Result<Vec<u64>, VersionError>)
    requires
        forall|i: int| 0 <= i < parts@.len() ==> number::all_digits(#[trigger] parts@[i]@),
    ensures
        match r {
            Ok(numbers) => version_numbers(text::texts(parts@)) == Ok::<Seq<u64>, VersionError>(
                numbers@,
            ),
            Err(e) => version_numbers(text::texts(parts@)) == Err::<Seq<u64>, VersionError>(e),
        },
{
    let ghost model = text::texts(parts@);
    let mut numbers: Vec<u64> = Vec::new();
    for i in 0..parts.len()
        invariant
            model == text::texts(parts@),
            forall|j: int| 0 <= j < parts@.len() ==> number::all_digits(#[trigger] parts@[j]@),
            version_numbers(model.take(i as int)) == Ok::<Seq<u64>, VersionError>(numbers@),
    {
        proof {
            assert(model.take(i + 1).drop_last() =~= model.take(i as int));
            assert(number::all_digits(parts@[i as int]@));
            if version_numbers(model.take(i + 1)) is Err {
                lemma_bad_part(model, i + 1);
            }
        }
        match number::parse_digits(parts[i].as_slice()) {
            Some(n) => {
                numbers.push(n);
            },
            None => {
                if parts[i].len() == 0 {
                    return Err(VersionError::EmptyNumber);
                }
                return Err(VersionError::LargeNumber);
            },
        }
    }
    assert(model.take(parts@.len() as int) =~= model);
    Ok(numbers)
}

/// Reads a version tag.
pub fn parse_version_tag(value: &str) -> (r: Result<Vec<u64>, VersionError>)
    ensures
        match r {
            Ok(numbers) => version_of(value@) == Ok::<Seq<u64>, VersionError>(numbers@),
            Err(e) => version_of(value@) == Err::<Seq<u64>, VersionError>(e),
        },
{
    let trimmed = text::trim(text::chars_of(value).as_slice());
    let normalized = text::trim_start(trimmed.as_slice(), CharClass::VersionMark);
    let end: usize = core_end(normalized.as_slice());
    let core = text::range(normalized.as_slice(), 0, end);
    let suffix = text::range(normalized.as_slice(), end, normalized.len());
    assert(core@ =~= normalized@.take(end as int));
    assert(suffix@ =~= normalized@.skip(end as int));
    if !version_core(core.as_slice()) || holds_space(suffix.as_slice()) {
        return Err(VersionError::InvalidTag);
    }
    let parts = text::split_pieces(core.as_slice(), CharClass::Dot);
    proof {
        lemma_pieces_are_digits(core@);
        assert forall|i: int| 0 <= i < parts@.len() implies number::all_digits(
            #[trigger] parts@[i]@,
        ) by {
            assert(text::texts(parts@)[i] == parts@[i]@);
        }
    }
    read_numbers(&parts)
}

/// The number at a place of a version; a missing number counts as zero.
pub open spec fn number_at(version: Seq<u64>, i: int) -> u64 {
    if 0 <= i < version.len() {
        version[i]
    } else {
        0
    }
}

/// Whether version `a` is larger than `b` at place `i` and the two agree before it.
pub open spec fn larger_at(a: Seq<u64>, b: Seq<u64>, i: int) -> bool {
    &&& 0 <= i
    &&& number_at(a, i) > number_at(b, i)
    &&& forall|j: int| 0 <= j < i ==> number_at(a, j) == number_at(b, j)
}

/// Whether version `a` is newer than version `b`.
pub open spec fn is_newer(a: Seq<u64>, b: Seq<u64>) -> bool {
    exists|i: int| larger_at(a, b, i)
}

fn newer(a: &Vec<u64>, b: &Vec<u64>) -> (r: bool)
    ensures
        r == is_newer(a@, b@),
{
    let len: usize = if a.len() < b.len() {
        b.len()
    } else {
        a.len()
    };
    for i in 0..len
        invariant
            len >= a@.len(),
            len >= b@.len(),
            forall|j: int| 0 <= j < i ==> number_at(a@, j) == number_at(b@, j),
    {
        let x: u64 = if i < a.len() {
            a[i]
        } else {
            0
        };
        let y: u64 = if i < b.len() {
            b[i]
        } else {
            0
        };
        assert(x == number_at(a@, i as int) && y == number_at(b@, i as int));
        if x > y {
            assert(larger_at(a@, b@, i as int));
            return true;
        }
        if x < y {
            assert forall|k: int| !larger_at(a@, b@, k) by {
                if k > i {
                    assert(number_at(a@, i as int) != number_at(b@, i as int));
                }
            }
            return false;
        }
    }
    assert forall|k: int| !larger_at(a@, b@, k) by {}
    false
}

/// Whether the version tag `candidate` is newer than the version tag `current`.
pub fn is_newer_version(candidate: &str, current: &str) -> (r: Result<bool, VersionError>)
    ensures
        r == newer_version(candidate@, current@),
{
    let left = match parse_version_tag(candidate) {
        Ok(v) => v,
        Err(e) => {
            return Err(e);
        },
    };
    let right = match parse_version_tag(current) {
        Ok(v) => v,
        Err(e) => {
            return Err(e);
        },
    };
    Ok(newer(&left, &right))
}

/// The comparison of two version tags; a tag that cannot be read is reported, the first one first.
pub open spec fn newer_version(candidate: Seq<char>, current: Seq<char>) -> Result<
    bool,
    VersionError,
> {
    match (version_of(candidate), version_of(current)) {
        (Err(e), _) => Err(e),
        (Ok(_), Err(e)) => Err(e),
        (Ok(a), Ok(b)) => Ok(is_newer(a, b)),
    }
}

/// No version is newer than itself.
pub proof fn law_newer_is_irreflexive(a: Seq<u64>)
    ensures
        !is_newer(a, a),
{
}

/// Of two versions at most one is newer than the other.
pub proof fn law_newer_is_asymmetric(a: Seq<u64>, b: Seq<u64>)
    requires
        is_newer(a, b),
    ensures
        !is_newer(b, a),
{
    let i = choose|i: int| larger_at(a, b, i);
    assert forall|k: int| !larger_at(b, a, k) by {
        if k > i {
            assert(number_at(a, i) != number_at(b, i));
        } else if k < i {
            assert(number_at(a, k) == number_at(b, k));
        }
    }
}

/// What is newer than a newer version is newer.
pub proof fn law_newer_is_transitive(a: Seq<u64>, b: Seq<u64>, c: Seq<u64>)
    requires
        is_newer(a, b),
        is_newer(b, c),
    ensures
        is_newer(a, c),
{
    let i = choose|i: int| larger_at(a, b, i);
    let j = choose|j: int| larger_at(b, c, j);
    let k = if i < j {
        i
    } else {
        j
    };
    if i < j {
        assert(number_at(b, i) == number_at(c, i));
    }
    if j < i {
        assert(number_at(a, j) == number_at(b, j));
    }
    assert forall|m: int| 0 <= m < k implies number_at(a, m) == number_at(c, m) by {
        assert(number_at(a, m) == number_at(b, m));
        assert(number_at(b, m) == number_at(c, m));
    }
    assert(larger_at(a, c, k));
}

/// Zeros at the end of a version do not count.
pub proof fn law_trailing_zeros_do_not_count(a: Seq<u64>, b: Seq<u64>)
    ensures
        is_newer(a.push(0), b) == is_newer(a, b),
        is_newer(b, a.push(0)) == is_newer(b, a),
{
    assert forall|i: int| number_at(a.push(0), i) == number_at(a, i) by {}
    assert forall|i: int| larger_at(a.push(0), b, i) == larger_at(a, b, i) by {
        assert(forall|j: int| number_at(a.push(0), j) == number_at(a, j));
    }
    assert forall|i: int| larger_at(b, a.push(0), i) == larger_at(b, a, i) by {
        assert(forall|j: int| number_at(a.push(0), j) == number_at(a, j));
    }
    if is_newer(a, b) {
        let i = choose|i: int| larger_at(a, b, i);
        assert(larger_at(a.push(0), b, i));
    }
    if is_newer(b, a) {
        let i = choose|i: int| larger_at(b, a, i);
        assert(larger_at(b, a.push(0), i));
    }
    if is_newer(a.push(0), b) {
        let i = choose|i: int| larger_at(a.push(0), b, i);
        assert(larger_at(a, b, i));
    }
    if is_newer(b, a.push(0)) {
        let i = choose|i: int| larger_at(b, a.push(0), i);
        assert(larger_at(b, a, i));
    }
}

proof fn lemma_trimmed_start_behind(s: Seq<char>, more: Seq<char>, class: CharClass)
    requires
        text::trimmed_start(s, class).len() > 0,
    ensures
        text::trimmed_start(s + more, class) == text::trimmed_start(s, class) + more,
    decreases s.len(),
{
    if s.len() > 0 && class.has(s[0]) {
        lemma_trimmed_start_behind(s.skip(1), more, class);
        assert((s + more).skip(1) =~= s.skip(1) + more);
    }
}

proof fn lemma_core_length_behind(s: Seq<char>, more: Seq<char>)
    requires
        more.len() > 0,
    ensures
        core_length(s + more) == (if core_length(s) < s.len() {
            core_length(s)
        } else {
            s.len() + core_length(more)
        }),
    decreases s.len(),
{
    lemma_core_length(s);
    if s.len() == 0 {
        assert(s + more =~= more);
    } else if s[0] != '-' && s[0] != '+' {
        assert((s + more).skip(1) =~= s.skip(1) + more);
        lemma_core_length_behind(s.skip(1), more);
    }
}

/// What is added behind a version tag is added behind its numbers and its suffix.
proof fn lemma_tag_behind(tag: Seq<char>, more: Seq<char>)
    requires
        version_of(tag) is Ok,
        tag.len() > 0,
        !text::is_space(tag.last()),
        more.len() > 0,
        !text::is_space(more.last()),
    ensures
        text::trimmed_start(text::trimmed(tag + more), CharClass::VersionMark)
            == text::trimmed_start(text::trimmed(tag), CharClass::VersionMark) + more,
        text::trimmed_start(text::trimmed(tag), CharClass::VersionMark).len() > 0,
{
    let space = CharClass::Whitespace;
    let bare = text::trimmed_start(tag, space);
    let normalized = text::trimmed_start(text::trimmed(tag), CharClass::VersionMark);
    lemma_core_length(normalized);
    assert(normalized.len() > 0);
    lemma_trimmed_last(tag, space);
    assert(text::trimmed(tag) == bare);
    assert(bare.len() > 0) by {
        if bare.len() == 0 {
            assert(normalized == bare);
        }
    }
    lemma_trimmed_start_behind(tag, more, space);
    assert((bare + more).last() == more.last());
    assert(text::trimmed(tag + more) == bare + more);
    lemma_trimmed_start_behind(bare, more, CharClass::VersionMark);
}

/// A text that does not end with a character of a class does not once its start is trimmed.
proof fn lemma_trimmed_last(s: Seq<char>, class: CharClass)
    requires
        s.len() > 0,
        !class.has(s.last()),
    ensures
        text::trimmed_start(s, class).len() > 0,
        text::trimmed_start(s, class).last() == s.last(),
    decreases s.len(),
{
    if class.has(s[0]) {
        lemma_trimmed_last(s.skip(1), class);
    }
}

/// A suffix of a version tag, from a `-` or `+` on, does not count: with it or without it a tag
/// compares with any other in the same way.
pub proof fn law_suffix_does_not_count(tag: Seq<char>, suffix: Seq<char>, other: Seq<char>)
    requires
        version_of(tag) is Ok,
        tag.len() > 0,
        !text::is_space(tag.last()),
        suffix.len() > 0,
        suffix[0] == '-' || suffix[0] == '+',
        !has_space(suffix),
    ensures
        version_of(tag + suffix) == version_of(tag),
        newer_version(tag + suffix, other) == newer_version(tag, other),
        newer_version(other, tag + suffix) == newer_version(other, tag),
{
    let before = text::trimmed_start(text::trimmed(tag), CharClass::VersionMark);
    let after = text::trimmed_start(text::trimmed(tag + suffix), CharClass::VersionMark);
    assert(!text::is_space(suffix[suffix.len() - 1]));
    lemma_tag_behind(tag, suffix);
    lemma_core_length(before);
    lemma_core_length_behind(before, suffix);
    let n = core_length(before);
    assert(core_length(after) == n);
    assert(after.take(n) =~= before.take(n));
    assert forall|i: int| 0 <= i < after.skip(n).len() implies !text::is_space(
        #[trigger] after.skip(n)[i],
    ) by {
        if i < before.len() - n {
            assert(after.skip(n)[i] == before.skip(n)[i]);
        } else {
            assert(after.skip(n)[i] == suffix[i - (before.len() - n)]);
        }
    }
}

/// Another `.0` behind the numbers of a version tag does not count: with it or without it a tag
/// without a suffix compares with any other in the same way.
pub proof fn law_appended_zero_does_not_count(tag: Seq<char>, other: Seq<char>)
    requires
        version_of(tag) is Ok,
        tag.len() > 0,
        !text::is_space(tag.last()),
        forall|i: int| 0 <= i < tag.len() ==> (#[trigger] tag[i]) != '-' && tag[i] != '+',
    ensures
        version_of(tag + seq!['.', '0']) is Ok,
        newer_version(tag + seq!['.', '0'], other) == newer_version(tag, other),
        newer_version(other, tag + seq!['.', '0']) == newer_version(other, tag),
{
    let more = seq!['.', '0'];
    let before = text::trimmed_start(text::trimmed(tag), CharClass::VersionMark);
    let after = text::trimmed_start(text::trimmed(tag + more), CharClass::VersionMark);
    lemma_tag_behind(tag, more);
    lemma_trimmed_last(tag, CharClass::Whitespace);
    let bare = text::trimmed_start(tag, CharClass::Whitespace);
    assert(text::trimmed(tag) == bare);
    lemma_no_marks(tag, CharClass::Whitespace);
    lemma_no_marks(bare, CharClass::VersionMark);
    lemma_whole_core(before);
    assert(before.take(before.len() as int) =~= before);
    assert forall|i: int| 0 <= i < after.len() implies (#[trigger] after[i]) != '-' && after[i]
        != '+' by {
        if i < before.len() {
            assert(after[i] == before[i]);
        }
    }
    lemma_whole_core(after);
    assert(after.take(after.len() as int) =~= after);
    assert(is_version_core(before));
    assert forall|i: int| 0 <= i < after.len() implies text::is_ascii_digit(#[trigger] after[i])
        || after[i] == '.' by {
        if i < before.len() {
            assert(after[i] == before[i]);
        }
    }
    assert(after[0] == before[0]);
    assert(is_version_core(after));
    let zero = seq!['0'];
    assert(after =~= before.push('.') + zero);
    text::lemma_last_piece(before, '.', zero, CharClass::Dot);
    let parts = text::pieces(before, CharClass::Dot);
    assert(parts.push(zero).drop_last() =~= parts);
    assert(zero.drop_last() =~= Seq::<char>::empty());
    assert(number::digits_value(zero.drop_last()) == 0);
    assert(number::digits_value(zero) == 0);
    let numbers = version_of(tag)->Ok_0;
    assert(version_of(tag + more) == Ok::<Seq<u64>, VersionError>(numbers.push(0)));
    if version_of(other) is Ok {
        law_trailing_zeros_do_not_count(numbers, version_of(other)->Ok_0);
    }
}

proof fn lemma_no_marks(s: Seq<char>, class: CharClass)
    requires
        forall|i: int| 0 <= i < s.len() ==> (#[trigger] s[i]) != '-' && s[i] != '+',
    ensures
        forall|i: int|
            0 <= i < text::trimmed_start(s, class).len() ==> (#[trigger] text::trimmed_start(
                s,
                class,
            )[i]) != '-' && text::trimmed_start(s, class)[i] != '+',
    decreases s.len(),
{
    if s.len() > 0 && class.has(s[0]) {
        let rest = s.skip(1);
        assert forall|i: int| 0 <= i < rest.len() implies (#[trigger] rest[i]) != '-' && rest[i]
            != '+' by {
            assert(rest[i] == s[i + 1]);
        }
        lemma_no_marks(rest, class);
        assert(text::trimmed_start(s, class) == text::trimmed_start(rest, class));
    } else {
        assert(text::trimmed_start(s, class) == s);
    }
}

pub proof fn lemma_whole_core(s: Seq<char>)
    requires
        forall|i: int| 0 <= i < s.len() ==> (#[trigger] s[i]) != '-' && s[i] != '+',
    ensures
        core_length(s) == s.len(),
    decreases s.len(),
{
    if s.len() > 0 {
        let rest = s.skip(1);
        assert forall|i: int| 0 <= i < rest.len() implies (#[trigger] rest[i]) != '-' && rest[i]
            != '+' by {
            assert(rest[i] == s[i + 1]);
        }
        assert(s[0] != '-' && s[0] != '+');
        lemma_whole_core(rest);
    }
}

// ---------------------------------------------------------------------------------------
// Release notes
// ---------------------------------------------------------------------------------------

/// What is put behind release notes that were cut.
pub const TRUNCATION_NOTE: &'static str = "\n\n[Release notes truncated]";

/// The lines of release notes that count: trimmed, without blank lines at the start and with one
/// blank line in place of several.
pub open spec fn kept_lines(lines: Seq<Seq<char>>) -> Seq<Seq<char>>
    decreases lines.len(),
{
    if lines.len() == 0 {
        lines
    } else {
        let before = kept_lines(lines.drop_last());
        let line = text::trimmed(lines.last());
        if line.len() == 0 && (before.len() == 0 || before.last().len() == 0) {
            before
        } else {
            before.push(line)
        }
    }
}

/// The first lines of release notes, as many as a summary may have.
pub open spec fn shown_notes(kept: Seq<Seq<char>>) -> Seq<char> {
    text::joined(
        if kept.len() <= MAX_RELEASE_SUMMARY_LINES {
            kept
        } else {
            kept.take(MAX_RELEASE_SUMMARY_LINES as int)
        },
        seq!['\n'],
    )
}

/// Whether release notes have more lines or characters than a summary may have.
pub open spec fn notes_exceed(kept: Seq<Seq<char>>) -> bool {
    let shown = shown_notes(kept);
    ||| kept.len() > MAX_RELEASE_SUMMARY_LINES
    ||| shown.len() > MAX_RELEASE_SUMMARY_CHARS
    ||| shown.len() == MAX_RELEASE_SUMMARY_CHARS && shown.last() == '\n'
}

/// The summary of release notes.
pub open spec fn summary_of(body: Seq<char>) -> Seq<char> {
    let kept = kept_lines(text::lines(text::unified_newlines(body)));
    let shown = text::trimmed_end(
        text::clipped(shown_notes(kept), MAX_RELEASE_SUMMARY_CHARS as nat),
        CharClass::Whitespace,
    );
    if notes_exceed(kept) {
        shown + TRUNCATION_NOTE@
    } else {
        shown
    }
}

proof fn lemma_kept_prefix(lines: Seq<Seq<char>>, i: int)
    requires
        0 <= i <= lines.len(),
    ensures
        kept_lines(lines.take(i)).len() <= kept_lines(lines).len(),
        kept_lines(lines).take(kept_lines(lines.take(i)).len() as int) == kept_lines(lines.take(i)),
    decreases lines.len(),
{
    let short = kept_lines(lines.take(i));
    let long = kept_lines(lines);
    if i == lines.len() {
        assert(lines.take(i) =~= lines);
        assert(long.take(long.len() as int) =~= long);
    } else {
        lemma_kept_prefix(lines.drop_last(), i);
        assert(lines.drop_last().take(i) =~= lines.take(i));
        let middle = kept_lines(lines.drop_last());
        assert(long.take(short.len() as int) =~= middle.take(short.len() as int));
    }
}

/// What the notes that fit so far say of the whole.
proof fn lemma_shown_prefix(lines: Seq<Seq<char>>, i: int)
    requires
        0 <= i <= lines.len(),
        kept_lines(lines.take(i)).len() <= MAX_RELEASE_SUMMARY_LINES,
    ensures
        ({
            let part = text::joined(kept_lines(lines.take(i)), seq!['\n']);
            let shown = shown_notes(kept_lines(lines));
            &&& part.len() <= shown.len()
            &&& shown.take(part.len() as int) == part
        }),
{
    lemma_kept_prefix(lines, i);
    let kept = kept_lines(lines);
    let first = if kept.len() <= MAX_RELEASE_SUMMARY_LINES {
        kept
    } else {
        kept.take(MAX_RELEASE_SUMMARY_LINES as int)
    };
    let n = kept_lines(lines.take(i)).len() as int;
    assert(first.take(n) =~= kept.take(n));
    text::lemma_joined_prefix(first, seq!['\n'], n);
}

fn finish_summary(output: Vec<char>, truncated: bool) -> (r: String)
    ensures
        r@ == text::trimmed_end(output@, CharClass::Whitespace) + (if truncated {
            TRUNCATION_NOTE@
        } else {
            Seq::<char>::empty()
        }),
{
    let mut r = text::trim_end(output.as_slice(), CharClass::Whitespace);
    if truncated {
        text::append(&mut r, text::chars_of(TRUNCATION_NOTE).as_slice());
    }
    assert(r@ =~= text::trimmed_end(output@, CharClass::Whitespace) + (if truncated {
        TRUNCATION_NOTE@
    } else {
        Seq::<char>::empty()
    }));
    text::text_of(r.as_slice())
}

/// Shortens release notes to a summary.
pub fn bounded_release_summary(body: &str) -> (r: String)
    ensures
        r@ == summary_of(body@),
{
    let normalized = text::unify_newlines(text::chars_of(body).as_slice());
    let all_lines = text::split_lines(normalized.as_slice());
    let ghost lines = text::lines(text::unified_newlines(body@));
    let mut output: Vec<char> = Vec::new();
    let mut line_count: usize = 0;
    let mut previous_blank: bool = false;
    assert(kept_lines(lines.take(0)) =~= Seq::<Seq<char>>::empty());
    for i in 0..all_lines.len()
        invariant
            lines == text::lines(text::unified_newlines(body@)),
            lines == text::texts(all_lines@),
            output@ == text::joined(kept_lines(lines.take(i as int)), seq!['\n']),
            line_count == kept_lines(lines.take(i as int)).len(),
            line_count <= MAX_RELEASE_SUMMARY_LINES,
            output@.len() <= MAX_RELEASE_SUMMARY_CHARS,
            output@.len() == MAX_RELEASE_SUMMARY_CHARS ==> output@.last() != '\n',
            (output@.len() == 0) == (line_count == 0),
            previous_blank == (line_count > 0 && kept_lines(lines.take(i as int)).last().len()
                == 0),
    {
        let line = text::trim(all_lines[i].as_slice());
        let blank = line.len() == 0;
        let ghost before = kept_lines(lines.take(i as int));
        let ghost after = kept_lines(lines.take(i + 1));
        let ghost start = output@;
        proof {
            assert(lines.take(i + 1).drop_last() =~= lines.take(i as int));
            assert(line@ == text::trimmed(lines[i as int]));
        }
        if !blank || (!previous_blank && output.len() > 0) {
            proof {
                assert(after == before.push(line@));
                assert(after.drop_last() =~= before);
                text::lemma_trimmed_end(
                    text::trimmed_start(lines[i as int], CharClass::Whitespace),
                    CharClass::Whitespace,
                );
            }
            if line_count >= MAX_RELEASE_SUMMARY_LINES {
                proof {
                    lemma_kept_prefix(lines, i + 1);
                    lemma_kept_prefix(lines, i as int);
                    lemma_shown_prefix(lines, i as int);
                    assert(kept_lines(lines).take(12) =~= before);
                }
                return finish_summary(output, true);
            }
            proof {
                lemma_shown_prefix(lines, i + 1);
            }
            let ghost shown = shown_notes(kept_lines(lines));
            let ghost grown = text::joined(after, seq!['\n']);
            let used: usize = output.len() + (if output.len() > 0 {
                1usize
            } else {
                0usize
            });
            proof {
                if before.len() == 0 {
                    assert(grown =~= line@);
                } else {
                    assert(grown == start + seq!['\n'] + line@);
                }
            }
            if used >= MAX_RELEASE_SUMMARY_CHARS {
                proof {
                    let clip = text::clipped(shown, MAX_RELEASE_SUMMARY_CHARS as nat);
                    assert(grown.len() >= start.len() + 1);
                    assert(grown[start.len() as int] == '\n');
                    assert(shown[start.len() as int] == shown.take(grown.len() as int)[start.len() as int]);
                    if start.len() == MAX_RELEASE_SUMMARY_CHARS {
                        assert(clip =~= shown.take(grown.len() as int).take(start.len() as int));
                        assert(clip =~= start);
                    } else {
                        assert(clip =~= shown.take(grown.len() as int).take(start.len() as int + 1));
                        assert(clip =~= start.push('\n'));
                        assert(clip.drop_last() =~= start);
                    }
                }
                return finish_summary(output, true);
            }
            let available: usize = MAX_RELEASE_SUMMARY_CHARS - used;
            if output.len() > 0 {
                output.push('\n');
            }
            if line.len() > available {
                let part = text::range(line.as_slice(), 0, available);
                text::append(&mut output, part.as_slice());
                proof {
                    let clip = text::clipped(shown, MAX_RELEASE_SUMMARY_CHARS as nat);
                    assert(clip =~= shown.take(grown.len() as int).take(
                        MAX_RELEASE_SUMMARY_CHARS as int,
                    ));
                    assert(output@ =~= grown.take(MAX_RELEASE_SUMMARY_CHARS as int));
                }
                return finish_summary(output, true);
            }
            text::append(&mut output, line.as_slice());
            assert(output@ =~= grown);
            line_count += 1;
            previous_blank = blank;
        }
    }
    proof {
        assert(lines.take(all_lines@.len() as int) =~= lines);
    }
    finish_summary(output, false)
}

/// A summary has at most as many characters as its limit and the note together.
pub proof fn law_summary_is_bounded(body: Seq<char>)
    ensures
        summary_of(body).len() <= MAX_RELEASE_SUMMARY_CHARS + TRUNCATION_NOTE@.len(),
{
    let kept = kept_lines(text::lines(text::unified_newlines(body)));
    text::lemma_trimmed_end(
        text::clipped(shown_notes(kept), MAX_RELEASE_SUMMARY_CHARS as nat),
        CharClass::Whitespace,
    );
}

// ---------------------------------------------------------------------------------------
// Installers
// ---------------------------------------------------------------------------------------

/// The letters and digits of a name.
pub open spec fn compact_name(name: Seq<char>) -> Seq<char> {
    name.filter(|c: char| text::is_ascii_alphanumeric(c))
}

pub open spec fn names_codex_plus(name: Seq<char>) -> bool {
    text::occurs(compact_name(name), "codexplusplus"@) || text::occurs(
        compact_name(name),
        "codexplus"@,
    )
}

pub open spec fn names_x64(name: Seq<char>) -> bool {
    text::occurs(name, "x64"@) || text::occurs(name, "x86_64"@) || text::occurs(name, "amd64"@)
}

pub open spec fn names_arm64(name: Seq<char>) -> bool {
    text::occurs(name, "arm64"@) || text::occurs(name, "aarch64"@)
}

/// Whether a file is an installer of Codex++ for macOS.
pub open spec fn is_macos_installer(name: Seq<char>) -> bool {
    names_codex_plus(name) && (text::ends(name, ".dmg"@) || text::ends(name, ".pkg"@))
}

/// Whether a file for macOS suits the architecture: it names this one alone, or none.
pub open spec fn suits_macos_arch(name: Seq<char>, arch: Arch) -> bool {
    let x64 = names_x64(text::lowered(name));
    let arm64 = names_arm64(text::lowered(name));
    if !x64 && !arm64 {
        true
    } else {
        match arch {
            Arch::X86_64 => x64 && !arm64,
            Arch::Aarch64 => arm64 && !x64,
            Arch::Other => false,
        }
    }
}

/// Whether a file for Windows is made for another architecture.
pub open spec fn is_wrong_windows_arch(name: Seq<char>, arch: Arch) -> bool {
    match arch {
        Arch::X86_64 => names_arm64(name),
        Arch::Aarch64 => names_x64(name),
        Arch::Other => true,
    }
}

/// How well a file suits Windows: packages come first, then setup programs.
pub open spec fn windows_rank(name: Seq<char>, arch: Arch) -> Option<u8> {
    if !names_codex_plus(name) || is_wrong_windows_arch(name, arch) {
        None
    } else if text::ends(name, ".msi"@) {
        Some(0)
    } else if text::ends(name, ".exe"@) && (text::occurs(name, "setup"@) || text::occurs(
        name,
        "installer"@,
    ) || text::occurs(name, "install"@)) {
        Some(1)
    } else {
        None
    }
}

/// How well a file suits a machine: the lower the better, and none where it does not.
pub open spec fn rank_of(name: Seq<char>, platform: Platform, arch: Arch) -> Option<u8> {
    match platform {
        Platform::MacOs => if is_macos_installer(name) && suits_macos_arch(name, arch) {
            Some(0)
        } else {
            None
        },
        Platform::Windows => windows_rank(name, arch),
        Platform::Other => None,
    }
}

/// The rank of an asset by its name and address; one that lacks either does not count.
pub open spec fn asset_rank(
    asset: (Seq<char>, Seq<char>),
    platform: Platform,
    arch: Arch,
) -> Option<u8> {
    if text::is_blank(asset.0) || text::is_blank(asset.1) {
        None
    } else {
        rank_of(text::lowered(asset.0), platform, arch)
    }
}

/// Whether the asset at position `i` is the first of those with the best rank.
pub open spec fn is_choice(
    assets: Seq<(Seq<char>, Seq<char>)>,
    platform: Platform,
    arch: Arch,
    i: int,
) -> bool {
    &&& 0 <= i < assets.len()
    &&& asset_rank(assets[i], platform, arch) is Some
    &&& forall|j: int|
        0 <= j < assets.len() && asset_rank(#[trigger] assets[j], platform, arch) is Some
            ==> asset_rank(assets[i], platform, arch)->0 <= asset_rank(
            assets[j],
            platform,
            arch,
        )->0 && (j < i ==> asset_rank(assets[i], platform, arch)->0 < asset_rank(
            assets[j],
            platform,
            arch,
        )->0)
}

/// The asset that is offered: the first of those with the best rank.
pub open spec fn chosen_asset(
    assets: Seq<(Seq<char>, Seq<char>)>,
    platform: Platform,
    arch: Arch,
) -> Option<(Seq<char>, Seq<char>)> {
    if exists|i: int| is_choice(assets, platform, arch, i) {
        Some(assets[choose|i: int| is_choice(assets, platform, arch, i)])
    } else {
        None
    }
}

pub open spec fn pair_texts(pairs: Seq<(String, String)>) -> Seq<(Seq<char>, Seq<char>)> {
    pairs.map_values(|p: (String, String)| (p.0@, p.1@))
}

pub open spec fn asset_texts(asset: Option<ReleaseAsset>) -> Option<(Seq<char>, Seq<char>)> {
    match asset {
        Some(a) => Some((a.name@, a.browser_download_url@)),
        None => None,
    }
}

/// No two assets are both the choice.
proof fn lemma_choice_is_unique(
    assets: Seq<(Seq<char>, Seq<char>)>,
    platform: Platform,
    arch: Arch,
    i: int,
)
    requires
        is_choice(assets, platform, arch, i),
    ensures
        chosen_asset(assets, platform, arch) == Some(assets[i]),
{
    let k = choose|k: int| is_choice(assets, platform, arch, k);
    assert(is_choice(assets, platform, arch, k));
    assert(asset_rank(assets[k], platform, arch) is Some);
    assert(asset_rank(assets[i], platform, arch) is Some);
}

/// An asset is offered exactly where one suits the machine; it is one of the assets, and none suits
/// the machine better.
pub proof fn law_offer_is_best(
    assets: Seq<(Seq<char>, Seq<char>)>,
    platform: Platform,
    arch: Arch,
)
    ensures
        match chosen_asset(assets, platform, arch) {
            Some(a) => assets.contains(a) && asset_rank(a, platform, arch) is Some && forall|j: int|
                0 <= j < assets.len() && asset_rank(#[trigger] assets[j], platform, arch) is Some
                    ==> asset_rank(a, platform, arch)->0 <= asset_rank(
                    assets[j],
                    platform,
                    arch,
                )->0,
            None => forall|j: int|
                0 <= j < assets.len() ==> asset_rank(#[trigger] assets[j], platform, arch) is None,
        },
    decreases assets.len(),
{
    if assets.len() > 0 {
        let before = assets.drop_last();
        law_offer_is_best(before, platform, arch);
        let n = assets.len() - 1;
        let r = asset_rank(assets[n], platform, arch);
        if exists|i: int| is_choice(before, platform, arch, i) {
            let i = choose|i: int| is_choice(before, platform, arch, i);
            assert(before[i] == assets[i]);
            let best = if r is Some && r->0 < asset_rank(assets[i], platform, arch)->0 {
                n
            } else {
                i
            };
            assert forall|j: int|
                0 <= j < assets.len() && asset_rank(
                    #[trigger] assets[j],
                    platform,
                    arch,
                ) is Some implies asset_rank(assets[best], platform, arch)->0 <= asset_rank(
                assets[j],
                platform,
                arch,
            )->0 && (j < best ==> asset_rank(assets[best], platform, arch)->0 < asset_rank(
                assets[j],
                platform,
                arch,
            )->0) by {
                if j < n {
                    assert(before[j] == assets[j]);
                }
            }
            assert(is_choice(assets, platform, arch, best));
            lemma_choice_is_unique(assets, platform, arch, best);
        } else {
            assert forall|j: int| 0 <= j < n implies asset_rank(
                #[trigger] assets[j],
                platform,
                arch,
            ) is None by {
                assert(before[j] == assets[j]);
            }
            if r is Some {
                assert(is_choice(assets, platform, arch, n));
                lemma_choice_is_unique(assets, platform, arch, n);
            } else {
                assert forall|j: int| 0 <= j < assets.len() implies asset_rank(
                    #[trigger] assets[j],
                    platform,
                    arch,
                ) is None by {
                    if j < n {
                        assert(before[j] == assets[j]);
                    }
                }
                assert(!exists|i: int| is_choice(assets, platform, arch, i));
            }
        }
    } else {
        assert(!exists|i: int| is_choice(assets, platform, arch, i));
    }
}

fn holds(name: &[char], pattern: &str) -> (r: bool)
    ensures
        r == text::occurs(name@, pattern@),
{
    text::contains(name, text::chars_of(pattern).as_slice())
}

fn closes(name: &[char], pattern: &str) -> (r: bool)
    ensures
        r == text::ends(name@, pattern@),
{
    text::ends_with(name, text::chars_of(pattern).as_slice())
}

pub fn is_codex_plus_asset(name: &[char]) -> (r: bool)
    ensures
        r == names_codex_plus(name@),
{
    let ghost keep = |c: char| text::is_ascii_alphanumeric(c);
    let mut compact: Vec<char> = Vec::new();
    for i in 0..name.len()
        invariant
            keep == (|c: char| text::is_ascii_alphanumeric(c)),
            compact@ == name@.take(i as int).filter(keep),
    {
        proof {
            assert(name@.take(i + 1).drop_last() =~= name@.take(i as int));
            reveal(Seq::filter);
        }
        if text::ascii_alphanumeric(name[i]) {
            compact.push(name[i]);
        }
    }
    assert(name@.take(name@.len() as int) =~= name@);
    holds(compact.as_slice(), "codexplusplus") || holds(compact.as_slice(), "codexplus")
}

fn says_x64(name: &[char]) -> (r: bool)
    ensures
        r == names_x64(name@),
{
    holds(name, "x64") || holds(name, "x86_64") || holds(name, "amd64")
}

fn says_arm64(name: &[char]) -> (r: bool)
    ensures
        r == names_arm64(name@),
{
    holds(name, "arm64") || holds(name, "aarch64")
}

pub fn is_macos_installer_asset(name: &[char]) -> (r: bool)
    ensures
        r == is_macos_installer(name@),
{
    is_codex_plus_asset(name) && (closes(name, ".dmg") || closes(name, ".pkg"))
}

pub fn is_macos_native_arch_asset(name: &[char], arch: Arch) -> (r: bool)
    ensures
        r == suits_macos_arch(name@, arch),
{
    let lower = text::lower_chars(name);
    let x64 = says_x64(lower.as_slice());
    let arm64 = says_arm64(lower.as_slice());
    if !x64 && !arm64 {
        return true;
    }
    match arch {
        Arch::X86_64 => x64 && !arm64,
        Arch::Aarch64 => arm64 && !x64,
        Arch::Other => false,
    }
}

pub fn windows_asset_is_wrong_arch(name: &[char], arch: Arch) -> (r: bool)
    ensures
        r == is_wrong_windows_arch(name@, arch),
{
    match arch {
        Arch::X86_64 => says_arm64(name),
        Arch::Aarch64 => says_x64(name),
        Arch::Other => true,
    }
}

pub fn windows_asset_rank(name: &[char], arch: Arch) -> (r: Option<u8>)
    ensures
        r == windows_rank(name@, arch),
{
    if !is_codex_plus_asset(name) || windows_asset_is_wrong_arch(name, arch) {
        return None;
    }
    if closes(name, ".msi") {
        return Some(0);
    }
    if closes(name, ".exe") && (holds(name, "setup") || holds(name, "installer") || holds(
        name,
        "install",
    )) {
        return Some(1);
    }
    None
}

pub fn platform_asset_rank(name: &[char], platform: Platform, arch: Arch) -> (r: Option<u8>)
    ensures
        r == rank_of(name@, platform, arch),
{
    match platform {
        Platform::MacOs => if is_macos_installer_asset(name) && is_macos_native_arch_asset(
            name,
            arch,
        ) {
            Some(0)
        } else {
            None
        },
        Platform::Windows => windows_asset_rank(name, arch),
        Platform::Other => None,
    }
}

/// The asset, given by name and address, that suits the machine best.
pub fn select_update_asset(
    assets: &[(String, String)],
    platform: Platform,
    arch: Arch,
) -> (r: Option<ReleaseAsset>)
    ensures
        asset_texts(r) == chosen_asset(pair_texts(assets@), platform, arch),
{
    let ghost model = pair_texts(assets@);
    let mut best: Option<(u8, usize)> = None;
    for i in 0..assets.len()
        invariant
            model == pair_texts(assets@),
            match best {
                Some((rank, k)) => k < i && asset_rank(model[k as int], platform, arch) == Some(
                    rank,
                ) && is_choice(model.take(i as int), platform, arch, k as int),
                None => forall|j: int|
                    0 <= j < i ==> asset_rank(#[trigger] model[j], platform, arch) is None,
            },
    {
        let name = assets[i].0.as_str();
        let url = assets[i].1.as_str();
        let mut found: Option<u8> = None;
        if !text::blank(name) && !text::blank(url) {
            found =
            platform_asset_rank(
                text::lower_chars(text::chars_of(name).as_slice()).as_slice(),
                platform,
                arch,
            );
        }
        let ghost before = model.take(i as int);
        let ghost after = model.take(i + 1);
        proof {
            assert(model[i as int] == (name@, url@));
            assert(found == asset_rank(model[i as int], platform, arch));
            assert(forall|j: int| 0 <= j < i ==> before[j] == after[j]);
            assert(after[i as int] == model[i as int]);
        }
        match found {
            Some(rank) => {
                let better = match best {
                    Some((r, _)) => rank < r,
                    None => true,
                };
                if better {
                    best = Some((rank, i));
                    assert forall|j: int|
                        0 <= j < after.len() && asset_rank(
                            #[trigger] after[j],
                            platform,
                            arch,
                        ) is Some implies rank <= asset_rank(after[j], platform, arch)->0 && (j < i
                        ==> rank < asset_rank(after[j], platform, arch)->0) by {
                        if j < i {
                            assert(after[j] == before[j]);
                            assert(before[j] == model[j]);
                        }
                    }
                    assert(is_choice(after, platform, arch, i as int));
                } else {
                    let ghost k = (best->0).1 as int;
                    assert(is_choice(before, platform, arch, k));
                    assert forall|j: int|
                        0 <= j < after.len() && asset_rank(
                            #[trigger] after[j],
                            platform,
                            arch,
                        ) is Some implies asset_rank(after[k], platform, arch)->0 <= asset_rank(
                        after[j],
                        platform,
                        arch,
                    )->0 && (j < k ==> asset_rank(after[k], platform, arch)->0 < asset_rank(
                        after[j],
                        platform,
                        arch,
                    )->0) by {
                        if j < i {
                            assert(after[j] == before[j]);
                        }
                    }
                    assert(is_choice(after, platform, arch, k));
                }
            },
            None => {
                proof {
                    if best is Some {
                        let k = (best->0).1 as int;
                        assert(is_choice(before, platform, arch, k));
                        assert forall|j: int|
                            0 <= j < after.len() && asset_rank(
                                #[trigger] after[j],
                                platform,
                                arch,
                            ) is Some implies asset_rank(after[k], platform, arch)->0 <= asset_rank(
                            after[j],
                            platform,
                            arch,
                        )->0 && (j < k ==> asset_rank(after[k], platform, arch)->0 < asset_rank(
                            after[j],
                            platform,
                            arch,
                        )->0) by {
                            if j < i {
                                assert(after[j] == before[j]);
                            }
                        }
                        assert(is_choice(after, platform, arch, k));
                    }
                }
            },
        }
    }
    assert(model.take(assets@.len() as int) =~= model);
    match best {
        Some((_, k)) => {
            proof {
                lemma_choice_is_unique(model, platform, arch, k as int);
            }
            Some(
                ReleaseAsset {
                    name: assets[k].0.clone(),
                    browser_download_url: assets[k].1.clone(),
                },
            )
        },
        None => {
            proof {
                assert(!exists|i: int| is_choice(model, platform, arch, i));
            }
            None
        },
    }
}

// ---------------------------------------------------------------------------------------
// Reading releases
// ---------------------------------------------------------------------------------------

/// Why the description of a release is refused.
#[derive(Debug, Clone, Copy, PartialEq, Eq)]
pub enum ReleaseError {
    Draft,
    Prerelease,
    MissingTagName,
    MissingVersion,
}

impl ReleaseError {
    /// The words for the error.
    pub fn message(&self) -> (r: String)
        ensures
            r@ == (match self {
                ReleaseError::Draft => "latest GitHub release is a draft"@,
                ReleaseError::Prerelease => "latest GitHub release is a prerelease"@,
                ReleaseError::MissingTagName => "release payload missing tag_name"@,
                ReleaseError::MissingVersion => "latest.json missing version"@,
            }),
    {
        match self {
            ReleaseError::Draft => "latest GitHub release is a draft".to_owned(),
            ReleaseError::Prerelease => "latest GitHub release is a prerelease".to_owned(),
            ReleaseError::MissingTagName => "release payload missing tag_name".to_owned(),
            ReleaseError::MissingVersion => "latest.json missing version".to_owned(),
        }
    }
}

/// What a release says.
pub struct ReleaseModel {
    pub version: Seq<char>,
    pub url: Seq<char>,
    pub body: Seq<char>,
    pub asset: Option<(Seq<char>, Seq<char>)>,
}

impl Release {
    /// Whether the release says what the model says.
    pub open spec fn says(self, model: ReleaseModel) -> bool {
        &&& self.version@ == model.version
        &&& self.url@ == model.url
        &&& self.body@ == model.body
        &&& match model.asset {
            Some((name, url)) => text::opt_text(self.asset_name) == Some(name) && text::opt_text(
                self.asset_url,
            ) == Some(url),
            None => self.asset_name is None && self.asset_url is None,
        }
    }
}

/// The value at the first of two keys that is there.
pub open spec fn either(payload: JsonModel, first: Seq<char>, second: Seq<char>) -> Option<
    JsonModel,
> {
    match payload.get(first) {
        Some(v) => Some(v),
        None => payload.get(second),
    }
}

pub open spec fn as_text(value: Option<JsonModel>) -> Option<Seq<char>> {
    match value {
        Some(v) => v.text(),
        None => None,
    }
}

/// The name and the address of an asset as GitHub describes it.
pub open spec fn github_asset(asset: JsonModel) -> Option<(Seq<char>, Seq<char>)> {
    match (asset.text_at("name"@), asset.text_at("browser_download_url"@)) {
        (Some(name), Some(url)) => Some((name, url)),
        _ => None,
    }
}

/// The name and the address of an asset as `latest.json` describes it.
pub open spec fn listed_asset(asset: JsonModel) -> Option<(Seq<char>, Seq<char>)> {
    match (asset.text_at("name"@), as_text(either(asset, "url"@, "browser_download_url"@))) {
        (Some(name), Some(url)) => Some((name, url)),
        _ => None,
    }
}

/// The assets among `items` that have a name and an address.
pub open spec fn described_assets(items: Seq<JsonModel>, github: bool) -> Seq<
    (Seq<char>, Seq<char>),
>
    decreases items.len(),
{
    if items.len() == 0 {
        Seq::empty()
    } else {
        let before = described_assets(items.drop_last(), github);
        let asset = if github {
            github_asset(items.last())
        } else {
            listed_asset(items.last())
        };
        match asset {
            Some(a) => before.push(a),
            None => before,
        }
    }
}

/// The release that GitHub describes.
pub open spec fn github_release(payload: JsonModel, platform: Platform, arch: Arch) -> Result<
    ReleaseModel,
    ReleaseError,
> {
    if payload.boolean_at("draft"@) == Some(true) {
        Err(ReleaseError::Draft)
    } else if payload.boolean_at("prerelease"@) == Some(true) {
        Err(ReleaseError::Prerelease)
    } else {
        match payload.text_at("tag_name"@) {
            None => Err(ReleaseError::MissingTagName),
            Some(version) => Ok(
                ReleaseModel {
                    version,
                    url: text::text_or_empty(payload.text_at("html_url"@)),
                    body: summary_of(text::text_or_empty(payload.text_at("body"@))),
                    asset: chosen_asset(
                        described_assets(payload.items_at("assets"@), true),
                        platform,
                        arch,
                    ),
                },
            ),
        }
    }
}

/// The release that `latest.json` describes.
pub open spec fn listed_release(payload: JsonModel, platform: Platform, arch: Arch) -> Result<
    ReleaseModel,
    ReleaseError,
> {
    match as_text(either(payload, "version"@, "tag_name"@)) {
        None => Err(ReleaseError::MissingVersion),
        Some(version) => Ok(
            ReleaseModel {
                version,
                url: text::text_or_empty(as_text(either(payload, "url"@, "html_url"@))),
                body: text::text_or_empty(
                    as_text(
                        match payload.get("body"@) {
                            Some(v) => Some(v),
                            None => either(payload, "release_summary"@, "notes"@),
                        },
                    ),
                ),
                asset: chosen_asset(
                    described_assets(payload.items_at("assets"@), false),
                    platform,
                    arch,
                ),
            },
        ),
    }
}

/// The value at the first of two keys that is there.
fn get_either<'a>(payload: &'a Json, first: &str, second: &str) -> (r: Option<&'a Json>)
    ensures
        match r {
            Some(v) => either(payload@, first@, second@) == Some(v@),
            None => either(payload@, first@, second@) is None,
        },
{
    match payload.get(first) {
        Some(v) => Some(v),
        None => payload.get(second),
    }
}

fn text_in(value: Option<&Json>) -> (r: Option<&str>)
    ensures
        match r {
            Some(s) => value is Some && value->0@.text() == Some(s@),
            None => value is None || value->0@.text() is None,
        },
{
    match value {
        Some(v) => v.text(),
        None => None,
    }
}

fn read_assets(payload: &Json, github: bool) -> (r: Vec<(String, String)>)
    ensures
        pair_texts(r@) == described_assets(payload@.items_at("assets"@), github),
{
    let mut r: Vec<(String, String)> = Vec::new();
    match payload.items_at("assets") {
        None => {
            assert(pair_texts(r@) =~= described_assets(Seq::empty(), github));
            r
        },
        Some(items) => {
            let ghost model = json::models(items@);
            for i in 0..items.len()
                invariant
                    model == json::models(items@),
                    pair_texts(r@) == described_assets(model.take(i as int), github),
            {
                let item = &items[i];
                assert(model.take(i + 1).drop_last() =~= model.take(i as int));
                assert(model[i as int] == item@);
                let name = item.text_at("name");
                let url = if github {
                    item.text_at("browser_download_url")
                } else {
                    text_in(get_either(item, "url", "browser_download_url"))
                };
                match (name, url) {
                    (Some(name), Some(url)) => {
                        let ghost before = r@;
                        r.push((name.to_owned(), url.to_owned()));
                        assert(pair_texts(r@) =~= pair_texts(before).push((name@, url@)));
                    },
                    _ => {},
                }
            }
            assert(model.take(items@.len() as int) =~= model);
            r
        },
    }
}

/// Reads the description of a release that GitHub gives.
pub fn release_from_github_payload(payload: &Json, platform: Platform, arch: Arch) -> (r: Result<
    Release,
    ReleaseError,
>)
    ensures
        match r {
            Ok(release) => github_release(payload@, platform, arch) is Ok && release.says(
                github_release(payload@, platform, arch)->Ok_0,
            ),
            Err(e) => github_release(payload@, platform, arch) == Err::<ReleaseModel, ReleaseError>(
                e,
            ),
        },
{
    if payload.boolean_at("draft") == Some(true) {
        return Err(ReleaseError::Draft);
    }
    if payload.boolean_at("prerelease") == Some(true) {
        return Err(ReleaseError::Prerelease);
    }
    let version = match payload.text_at("tag_name") {
        Some(v) => v.to_owned(),
        None => {
            return Err(ReleaseError::MissingTagName);
        },
    };
    let assets = read_assets(payload, true);
    let (asset_name, asset_url) = match select_update_asset(assets.as_slice(), platform, arch) {
        Some(asset) => (Some(asset.name), Some(asset.browser_download_url)),
        None => (None, None),
    };
    proof {
        reveal_strlit("");
        assert(""@ =~= Seq::<char>::empty());
    }
    Ok(
        Release {
            version,
            url: text::owned_or(payload.text_at("html_url"), ""),
            body: bounded_release_summary(text::owned_or(payload.text_at("body"), "").as_str()),
            asset_name,
            asset_url,
        },
    )
}

/// Reads the description of a release in `latest.json`.
pub fn release_from_latest_json_payload(payload: &Json, platform: Platform, arch: Arch) -> (r:
    Result<Release, ReleaseError>)
    ensures
        match r {
            Ok(release) => listed_release(payload@, platform, arch) is Ok && release.says(
                listed_release(payload@, platform, arch)->Ok_0,
            ),
            Err(e) => listed_release(payload@, platform, arch) == Err::<ReleaseModel, ReleaseError>(
                e,
            ),
        },
{
    let version = match text_in(get_either(payload, "version", "tag_name")) {
        Some(v) => v.to_owned(),
        None => {
            return Err(ReleaseError::MissingVersion);
        },
    };
    let assets = read_assets(payload, false);
    let (asset_name, asset_url) = match select_update_asset(assets.as_slice(), platform, arch) {
        Some(asset) => (Some(asset.name), Some(asset.browser_download_url)),
        None => (None, None),
    };
    let notes = match payload.get("body") {
        Some(v) => Some(v),
        None => get_either(payload, "release_summary", "notes"),
    };
    proof {
        reveal_strlit("");
        assert(""@ =~= Seq::<char>::empty());
    }
    Ok(
        Release {
            version,
            url: text::owned_or(text_in(get_either(payload, "url", "html_url")), ""),
            body: text::owned_or(text_in(notes), ""),
            asset_name,
            asset_url,
        },
    )
}

// ---------------------------------------------------------------------------------------
// Updating
// ---------------------------------------------------------------------------------------

/// The words for a version tag that cannot be read.
pub open spec fn version_error_text(error: VersionError, tag: Seq<char>) -> Seq<char> {
    match error {
        VersionError::InvalidTag => "Invalid version tag: "@ + tag,
        VersionError::EmptyNumber => "cannot parse integer from empty string"@,
        VersionError::LargeNumber => "number too large to fit in target type"@,
    }
}

/// The words for a version tag that cannot be read.
pub fn version_error_message(error: VersionError, tag: &str) -> (r: String)
    ensures
        r@ == version_error_text(error, tag@),
{
    match error {
        VersionError::InvalidTag => "Invalid version tag: ".to_owned().concat(tag),
        VersionError::EmptyNumber => "cannot parse integer from empty string".to_owned(),
        VersionError::LargeNumber => "number too large to fit in target type".to_owned(),
    }
}

/// Of two version tags that were compared, the one that the error is about: the first that cannot be
/// read.
pub open spec fn unreadable_tag(candidate: Seq<char>, current: Seq<char>) -> Seq<char> {
    if version_of(candidate) is Err {
        candidate
    } else {
        current
    }
}

/// The words for two version tags that cannot be compared.
pub fn comparison_error_message(error: VersionError, candidate: &str, current: &str) -> (r: String)
    ensures
        r@ == version_error_text(error, unreadable_tag(candidate@, current@)),
{
    match parse_version_tag(candidate) {
        Err(_) => version_error_message(error, candidate),
        Ok(_) => version_error_message(error, current),
    }
}

/// What is reported of a release to someone who runs `current_version`.
pub fn update_check(release: Release, current_version: &str) -> (r: Result<
    UpdateCheck,
    VersionError,
>)
    ensures
        match r {
            Ok(check) => {
                &&& newer_version(release.version@, current_version@) == Ok::<bool, VersionError>(
                    check.update_available,
                )
                &&& check.current_version@ == current_version@
                &&& check.latest_version == Some(release.version)
                &&& check.release_summary == release.body
                &&& check.asset_name == release.asset_name
                &&& check.asset_url == release.asset_url
            },
            Err(e) => newer_version(release.version@, current_version@) == Err::<
                bool,
                VersionError,
            >(e),
        },
{
    match is_newer_version(release.version.as_str(), current_version) {
        Ok(update_available) => Ok(
            UpdateCheck {
                current_version: current_version.to_owned(),
                latest_version: Some(release.version),
                release_summary: release.body,
                asset_name: release.asset_name,
                asset_url: release.asset_url,
                update_available,
            },
        ),
        Err(e) => Err(e),
    }
}

/// Why a release is not installed.
#[derive(Debug, Clone, Copy, PartialEq, Eq)]
pub enum InstallError {
    Version(VersionError),
    NotNewer,
    NoAsset,
    IllegalName,
}

/// Where the installer of a release is to be had, for someone who runs `installed`.
pub fn update_source(release: &Release, installed: &str) -> (r: Result<String, InstallError>)
    ensures
        match newer_version(release.version@, installed@) {
            Err(e) => r == Err::<String, InstallError>(InstallError::Version(e)),
            Ok(false) => r == Err::<String, InstallError>(InstallError::NotNewer),
            Ok(true) => match release.asset_url {
                Some(url) => r is Ok && r->Ok_0@ == url@,
                None => r == Err::<String, InstallError>(InstallError::NoAsset),
            },
        },
{
    match is_newer_version(release.version.as_str(), installed) {
        Err(e) => Err(InstallError::Version(e)),
        Ok(newer) => {
            if !newer {
                return Err(InstallError::NotNewer);
            }
            match &release.asset_url {
                Some(url) => Ok(url.clone()),
                None => Err(InstallError::NoAsset),
            }
        },
    }
}

/// The file name under which an asset is stored: the name itself, where it is one plain file name.
pub open spec fn safe_name(name: Seq<char>, platform: Platform) -> Option<Seq<char>> {
    if text::is_blank(name) {
        None
    } else {
        file_name::sole_component(name, platform)
    }
}

/// The file name under which an asset is stored, or `IllegalName`.
pub fn safe_asset_name(name: &str, platform: Platform) -> (r: Result<String, InstallError>)
    ensures
        match safe_name(name@, platform) {
            Some(file) => r is Ok && r->Ok_0@ == file,
            None => r == Err::<String, InstallError>(InstallError::IllegalName),
        },
{
    if text::blank(name) {
        return Err(InstallError::IllegalName);
    }
    match file_name::single_component(text::chars_of(name).as_slice(), platform) {
        Some(file) => Ok(text::text_of(file.as_slice())),
        None => Err(InstallError::IllegalName),
    }
}

/// The file name under which the asset of a release is stored.
pub fn download_name(release: &Release, platform: Platform) -> (r: Result<String, InstallError>)
    ensures
        match release.asset_name {
            None => r == Err::<String, InstallError>(InstallError::NoAsset),
            Some(name) => match safe_name(name@, platform) {
                Some(file) => r is Ok && r->Ok_0@ == file,
                None => r == Err::<String, InstallError>(InstallError::IllegalName),
            },
        },
{
    match &release.asset_name {
        None => Err(InstallError::NoAsset),
        Some(name) => safe_asset_name(name.as_str(), platform),
    }
}

/// The words for a release that is not installed by someone who runs `installed`.
pub open spec fn install_error_text(
    error: InstallError,
    version: Seq<char>,
    asset_name: Seq<char>,
    installed: Seq<char>,
) -> Seq<char> {
    match error {
        InstallError::Version(e) => version_error_text(e, unreadable_tag(version, installed)),
        InstallError::NotNewer => "Release "@ + version + " is not newer than the installed version "@
            + installed,
        InstallError::NoAsset => "没有可下载的 Release asset"@,
        InstallError::IllegalName => "非法 Release asset 文件名: "@ + asset_name,
    }
}

/// The words for a release that is not installed by someone who runs `installed`.
pub fn install_error_message(error: InstallError, release: &Release, installed: &str) -> (r: String)
    ensures
        r@ == install_error_text(
            error,
            release.version@,
            text::text_or_empty(text::opt_text(release.asset_name)),
            installed@,
        ),
{
    match error {
        InstallError::Version(e) => comparison_error_message(
            e,
            release.version.as_str(),
            installed,
        ),
        InstallError::NotNewer => "Release ".to_owned().concat(release.version.as_str()).concat(
            " is not newer than the installed version ",
        ).concat(installed),
        InstallError::NoAsset => "没有可下载的 Release asset".to_owned(),
        InstallError::IllegalName => {
            proof {
                reveal_strlit("");
                assert(""@ =~= Seq::<char>::empty());
            }
            let name = match &release.asset_name {
                Some(name) => name.as_str(),
                None => "",
            };
            "非法 Release asset 文件名: ".to_owned().concat(name)
        },
    }
}

/// How an installer is started.
#[derive(Debug, Clone, Copy, PartialEq, Eq, Structural)]
pub enum InstallerLaunch {
    /// It is run.
    Run,
    /// It is opened by the program `open`.
    Open,
    /// It is not.
    Unsupported,
}

pub fn installer_launch(platform: Platform) -> (r: InstallerLaunch)
    ensures
        r == (match platform {
            Platform::Windows => InstallerLaunch::Run,
            Platform::MacOs => InstallerLaunch::Open,
            Platform::Other => InstallerLaunch::Unsupported,
        }),
{
    match platform {
        Platform::Windows => InstallerLaunch::Run,
        Platform::MacOs => InstallerLaunch::Open,
        Platform::Other => InstallerLaunch::Unsupported,
    }
}

/// The words for an installer that could not be started for a reason.
pub fn launch_error_message(launch: InstallerLaunch, reason: &str) -> (r: String)
    ensures
        r@ == (match launch {
            InstallerLaunch::Run => "启动安装包失败："@ + reason@,
            InstallerLaunch::Open => "打开 DMG 失败："@ + reason@,
            InstallerLaunch::Unsupported => "当前平台不支持启动安装包"@,
        }),
{
    match launch {
        InstallerLaunch::Run => "启动安装包失败：".to_owned().concat(reason),
        InstallerLaunch::Open => "打开 DMG 失败：".to_owned().concat(reason),
        InstallerLaunch::Unsupported => "当前平台不支持启动安装包".to_owned(),
    }
}

/// A stored asset stays in the directory that it is stored in: its file name holds no separator
/// and is neither `.` nor `..`.
pub proof fn law_asset_stays_in_directory(name: Seq<char>, platform: Platform)
    requires
        safe_name(name, platform) is Some,
    ensures
        ({
            let file = safe_name(name, platform)->0;
            &&& file.len() > 0
            &&& file != seq!['.']
            &&& file != seq!['.', '.']
            &&& forall|i: int|
                0 <= i < file.len() ==> !file_name::separators(platform).has(#[trigger] file[i])
        }),
{
    file_name::law_sole_component_stays_in_directory(name, platform);
}

} // verus!
