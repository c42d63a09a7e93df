//! File names: which text names a single file, and its extension.
use crate::platform::Platform;
use crate::text::{self, CharClass};
use vstd::prelude::*;

verus! {

/// The characters that separate the components of a path.
pub open spec fn separators(platform: Platform) -> CharClass {
    if platform == Platform::Windows {
        CharClass::AnySlash
    } else {
        CharClass::Slash
    }
}

/// Whether a path starts with a drive, as in `C:`.
pub open spec fn drive_prefixed(path: Seq<char>) -> bool {
    path.len() >= 2 && (('a' <= path[0] <= 'z') || ('A' <= path[0] <= 'Z')) && path[1] == ':'
}

/// Whether a part of a path behind a separator adds no component.
pub open spec fn is_void_part(part: Seq<char>) -> bool {
    part.len() == 0 || part == seq!['.']
}

/// Whether a first part of a path is a plain name.
pub open spec fn is_plain_part(part: Seq<char>) -> bool {
    part.len() > 0 && part != seq!['.'] && part != seq!['.', '.']
}

/// The one component of a path, where it has just one and that is a plain name.
pub open spec fn sole_component(path: Seq<char>, platform: Platform) -> Option<Seq<char>> {
    let parts = text::pieces(path, separators(platform));
    if !(platform == Platform::Windows && drive_prefixed(path)) && is_plain_part(parts[0]) && (
    forall|i: int| 1 <= i < parts.len() ==> is_void_part(#[trigger] parts[i])) {
        Some(parts[0])
    } else {
        None
    }
}

/// The position of the last dot, or -1.
pub open spec fn last_dot(name: Seq<char>) -> int
    decreases name.len(),
{
    if name.len() == 0 {
        -1
    } else if name.last() == '.' {
        name.len() - 1
    } else {
        last_dot(name.drop_last())
    }
}

/// What follows the last dot of a file name, where something stands before that dot.
pub open spec fn extension_of(name: Seq<char>) -> Option<Seq<char>> {
    let dot = last_dot(name);
    if dot > 0 && name != seq!['.', '.'] {
        Some(name.skip(dot + 1))
    } else {
        None
    }
}

/// The sole component of a path stays in the directory that it is joined to: it is not empty, it
/// holds no separator, and it is neither `.` nor `..`.
pub proof fn law_sole_component_stays_in_directory(path: Seq<char>, platform: Platform)
    requires
        sole_component(path, platform) is Some,
    ensures
        ({
            let name = sole_component(path, platform)->0;
            &&& name.len() > 0
            &&& name != seq!['.']
            &&& name != seq!['.', '.']
            &&& forall|i: int| 0 <= i < name.len() ==> !separators(platform).has(#[trigger] name[i])
        }),
{
    text::lemma_pieces_nonempty(path, separators(platform));
    text::lemma_pieces_hold_no_separator(path, separators(platform));
}

fn plain_part(part: &[char]) -> (r: bool)
    ensures
        r == is_plain_part(part@),
{
    let dot = part.len() == 1 && part[0] == '.';
    let dots = part.len() == 2 && part[0] == '.' && part[1] == '.';
    proof {
        if dot {
            assert(part@ =~= seq!['.']);
        }
        if dots {
            assert(part@ =~= seq!['.', '.']);
        }
    }
    part.len() > 0 && !dot && !dots
}

fn void_part(part: &[char]) -> (r: bool)
    ensures
        r == is_void_part(part@),
{
    let dot = part.len() == 1 && part[0] == '.';
    proof {
        if dot {
            assert(part@ =~= seq!['.']);
        }
    }
    part.len() == 0 || dot
}

fn has_drive(path: &[char]) -> (r: bool)
    ensures
        r == drive_prefixed(path@),
{
    path.len() >= 2 && (('a' <= path[0] && path[0] <= 'z') || ('A' <= path[0] && path[0] <= 'Z'))
        && path[1] == ':'
}

/// The one component of a path, where it has just one and that is a plain name.
pub fn single_component(path: &[char], platform: Platform) -> (r: Option<Vec<char>>)
    ensures
        match r {
            Some(name) => sole_component(path@, platform) == Some(name@),
            None => sole_component(path@, platform) is None,
        },
{
    let class = match platform {
        Platform::Windows => CharClass::AnySlash,
        _ => CharClass::Slash,
    };
    let parts = text::split_pieces(path, class);
    let ghost model = text::pieces(path@, separators(platform));
    assert(forall|i: int| 0 <= i < parts@.len() ==> (#[trigger] model[i]) == parts@[i]@);
    if platform == Platform::Windows && has_drive(path) {
        return None;
    }
    if !plain_part(parts[0].as_slice()) {
        return None;
    }
    for i in 1..parts.len()
        invariant
            model == text::pieces(path@, separators(platform)),
            model == text::texts(parts@),
            forall|j: int| 1 <= j < i ==> is_void_part(#[trigger] model[j]),
    {
        if !void_part(parts[i].as_slice()) {
            assert(!is_void_part(model[i as int]));
            return None;
        }
        assert(model[i as int] == parts@[i as int]@);
    }
    Some(text::range(parts[0].as_slice(), 0, parts[0].len()))
}

/// What follows the last dot of a file name, where something stands before that dot.
pub fn extension(name: &[char]) -> (r: Option<Vec<char>>)
    ensures
        match r {
            Some(e) => extension_of(name@) == Some(e@),
            None => extension_of(name@) is None,
        },
{
    let dots = name.len() == 2 && name[0] == '.' && name[1] == '.';
    proof {
        if dots {
            assert(name@ =~= seq!['.', '.']);
        }
    }
    if dots {
        return None;
    }
    let mut i: usize = name.len();
    assert(name@.take(i as int) =~= name@);
    while i > 0
        invariant
            i <= name@.len(),
            name@ != seq!['.', '.'],
            last_dot(name@) == last_dot(name@.take(i as int)),
        decreases i,
    {
        if name[i - 1] == '.' {
            assert(last_dot(name@.take(i as int)) == i - 1);
            if i == 1 {
                return None;
            }
            assert(name@.skip(i as int) =~= name@.subrange(i as int, name@.len() as int));
            return Some(text::range(name, i, name.len()));
        }
        assert(name@.take(i as int).drop_last() =~= name@.take(i - 1));
        i -= 1;
    }
    None
}

proof fn lemma_last_dot(stem: Seq<char>, ext: Seq<char>)
    requires
        !ext.contains('.'),
    ensures
        last_dot(stem.push('.') + ext) == stem.len(),
        last_dot(ext) == -1,
    decreases ext.len(),
{
    let name = stem.push('.') + ext;
    if ext.len() == 0 {
        assert(name =~= stem.push('.'));
    } else {
        assert(ext.contains(ext[ext.len() - 1]));
        assert(name.drop_last() =~= stem.push('.') + ext.drop_last());
        assert(!ext.drop_last().contains('.')) by {
            if ext.drop_last().contains('.') {
                let i = ext.drop_last().index_of('.');
                assert(ext[i] == '.');
            }
        }
        lemma_last_dot(stem, ext.drop_last());
    }
}

/// The extension of a name is what follows its last dot. A name without a dot, or with its only
/// dot in front, has none.
pub proof fn law_extension_follows_the_last_dot(stem: Seq<char>, ext: Seq<char>)
    requires
        !ext.contains('.'),
    ensures
        stem.len() > 0 && stem.push('.') + ext != seq!['.', '.'] ==> extension_of(
            stem.push('.') + ext,
        ) == Some(ext),
        extension_of(ext) is None,
        extension_of(seq!['.'] + ext) is None,
{
    lemma_last_dot(stem, ext);
    lemma_last_dot(Seq::empty(), ext);
    assert((stem.push('.') + ext).skip(stem.len() as int + 1) =~= ext);
    assert(Seq::<char>::empty().push('.') + ext =~= seq!['.'] + ext);
}

/// A plain name names itself, also with a slash behind it; a name within a directory, and one
/// from the root, names no single file; and so do the names of the directory itself and of the
/// one above.
pub proof fn law_plain_name_names_itself(name: Seq<char>, other: Seq<char>, platform: Platform)
    requires
        name.len() > 0,
        name != seq!['.'],
        name != seq!['.', '.'],
        !name.contains('/'),
        platform == Platform::Windows ==> !name.contains('\\') && !(name.len() >= 2 && name[1]
            == ':'),
        other.len() > 0,
        other != seq!['.'],
        !other.contains('/'),
        platform == Platform::Windows ==> !other.contains('\\'),
    ensures
        sole_component(name, platform) == Some(name),
        sole_component(name.push('/'), platform) == Some(name),
        sole_component(name.push('/') + other, platform) is None,
        sole_component(seq!['/'] + name, platform) is None,
        sole_component(seq!['.'], platform) is None,
        sole_component(seq!['.', '.'], platform) is None,
        sole_component(Seq::empty(), platform) is None,
{
    let class = separators(platform);
    lemma_no_separator(name, platform);
    lemma_no_separator(other, platform);
    lemma_no_separator(seq!['.'], platform);
    lemma_no_separator(seq!['.', '.'], platform);
    let none = Seq::<char>::empty();
    lemma_no_separator(none, platform);
    text::lemma_single_piece(name, class);
    text::lemma_single_piece(none, class);
    text::lemma_single_piece(seq!['.'], class);
    text::lemma_single_piece(seq!['.', '.'], class);
    assert(sole_component(seq!['.'], platform) is None);
    assert(sole_component(seq!['.', '.'], platform) is None);
    text::lemma_last_piece(name, '/', none, class);
    assert(name.push('/') + none =~= name.push('/'));
    let closed = text::pieces(name.push('/'), class);
    assert(closed == seq![name].push(none));
    assert(closed[0] == name && closed[1] == none);
    text::lemma_last_piece(name, '/', other, class);
    let inner = text::pieces(name.push('/') + other, class);
    assert(inner == seq![name].push(other));
    assert(!is_void_part(inner[1]));
    text::lemma_last_piece(none, '/', name, class);
    assert(none.push('/') + name =~= seq!['/'] + name);
    let rooted = text::pieces(seq!['/'] + name, class);
    assert(rooted == seq![none].push(name));
    assert(!is_plain_part(rooted[0]));
}

proof fn lemma_no_separator(s: Seq<char>, platform: Platform)
    requires
        !s.contains('/'),
        platform == Platform::Windows ==> !s.contains('\\'),
    ensures
        forall|i: int| 0 <= i < s.len() ==> !separators(platform).has(#[trigger] s[i]),
{
    assert forall|i: int| 0 <= i < s.len() implies !separators(platform).has(#[trigger] s[i]) by {
        assert(s.contains(s[i]));
    }
}

/// On Windows what begins with a letter and a colon names a place on a drive, and no single file;
/// elsewhere a colon is a character like others.
pub proof fn law_drive_names_no_single_file(letter: char, rest: Seq<char>, platform: Platform)
    requires
        'a' <= letter <= 'z' || 'A' <= letter <= 'Z',
        !rest.contains('/'),
    ensures
        platform == Platform::Windows ==> sole_component(seq![letter, ':'] + rest, platform) is None,
        platform != Platform::Windows ==> sole_component(seq![letter, ':'] + rest, platform) == Some(
            seq![letter, ':'] + rest,
        ),
{
    let name = seq![letter, ':'] + rest;
    assert(name[0] == letter && name[1] == ':');
    if platform != Platform::Windows {
        assert(!name.contains('/')) by {
            if name.contains('/') {
                let i = name.index_of('/');
                assert(i >= 2);
                assert(rest[i - 2] == '/');
            }
        }
        let other = seq![letter];
        assert(other[0] == letter && seq!['.'][0] == '.');
        law_plain_name_names_itself(name, other, platform);
    }
}

} // verus!
