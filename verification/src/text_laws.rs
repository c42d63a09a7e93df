//! What holds of text, whatever stands in it.
use crate::text;
use crate::text::CharClass;
use vstd::prelude::*;

verus! {

// ---------------------------------------------------------------------------------------
// Characters
// ---------------------------------------------------------------------------------------

/// White space is what has the Unicode property, and the control characters are those below the
/// blank and those from 127 to 159.
pub proof fn law_characters_are_classed(c: char, space: bool, control: bool)
    requires
        call_ensures(text::whitespace, (c,), space),
        call_ensures(text::control, (c,), control),
    ensures
        space <==> 9 <= c as int <= 13 || c as int == 32 || c as int == 0x85 || c as int == 0xa0
            || c as int == 0x1680 || 0x2000 <= c as int <= 0x200a || c as int == 0x2028 || c as int
            == 0x2029 || c as int == 0x202f || c as int == 0x205f || c as int == 0x3000,
        control <==> c as int <= 31 || 127 <= c as int <= 159,
        text::is_space(c) == space,
        text::is_control(c) == control,
{
}

/// The digits and the letters are those of ASCII.
pub proof fn law_ascii_is_told_apart(c: char, digit: bool, alphanumeric: bool)
    requires
        call_ensures(text::ascii_digit, (c,), digit),
        call_ensures(text::ascii_alphanumeric, (c,), alphanumeric),
    ensures
        digit <==> 48 <= c as int <= 57,
        alphanumeric <==> 48 <= c as int <= 57 || 65 <= c as int <= 90 || 97 <= c as int <= 122,
{
}

/// Each class of characters has the characters that it is named after.
pub proof fn law_classes_have_their_characters(class: CharClass, c: char, r: bool)
    requires
        call_ensures(CharClass::contains, (&class, c), r),
    ensures
        r == class.has(c),
        class is Whitespace ==> (r <==> text::is_space(c)),
        class is Newline ==> (r <==> c as int == 10),
        class is Quote ==> (r <==> c == '"' || c == '\''),
        class is Slash ==> (r <==> c == '/'),
        class is AnySlash ==> (r <==> c == '/' || c == '\\'),
        class is Dot ==> (r <==> c == '.'),
        class is Question ==> (r <==> c == '?'),
        class is VersionMark ==> (r <==> c == 'v' || c == 'V'),
{
}

proof fn lemma_small_letter(c: char)
    ensures
        'A' <= c <= 'Z' ==> text::lower(c) as int == c as int + 32,
        !('A' <= c <= 'Z') ==> text::lower(c) == c,
{
}

/// Each capital letter of ASCII becomes the small one, and every other character stays, in its place.
pub proof fn law_capital_letters_become_small(s: Seq<char>, i: int)
    requires
        0 <= i < s.len(),
    ensures
        text::lowered(s).len() == s.len(),
        'A' <= s[i] <= 'Z' ==> text::lowered(s)[i] as int == s[i] as int + 32,
        !('A' <= s[i] <= 'Z') ==> text::lowered(s)[i] == s[i],
        text::lowered(text::lowered(s)) == text::lowered(s),
{
    lemma_small_letter(s[i]);
    assert forall|k: int| 0 <= k < s.len() implies text::lower(
        text::lower(#[trigger] s[k]),
    ) == text::lower(s[k]) by {
        lemma_small_letter(s[k]);
        lemma_small_letter(text::lower(s[k]));
    }
    assert(text::lowered(text::lowered(s)) =~= text::lowered(s));
}

// ---------------------------------------------------------------------------------------
// Trimming
// ---------------------------------------------------------------------------------------

/// Whether a text is made of characters of a class alone.
pub open spec fn is_all(s: Seq<char>, class: CharClass) -> bool {
    forall|i: int| 0 <= i < s.len() ==> class.has(#[trigger] s[i])
}

proof fn lemma_start(front: Seq<char>, rest: Seq<char>, class: CharClass)
    requires
        is_all(front, class),
        rest.len() == 0 || !class.has(rest[0]),
    ensures
        text::trimmed_start(front + rest, class) == rest,
    decreases front.len(),
{
    let s = front + rest;
    if front.len() == 0 {
        assert(s =~= rest);
    } else {
        assert(class.has(front[0]));
        assert(s[0] == front[0]);
        assert(s.skip(1) =~= front.skip(1) + rest);
        assert forall|i: int| 0 <= i < front.skip(1).len() implies class.has(
            #[trigger] front.skip(1)[i],
        ) by {
            assert(class.has(front[i + 1]));
        }
        lemma_start(front.skip(1), rest, class);
    }
}

proof fn lemma_end(rest: Seq<char>, back: Seq<char>, class: CharClass)
    requires
        is_all(back, class),
        rest.len() == 0 || !class.has(rest.last()),
    ensures
        text::trimmed_end(rest + back, class) == rest,
    decreases back.len(),
{
    let s = rest + back;
    if back.len() == 0 {
        assert(s =~= rest);
    } else {
        assert(class.has(back[back.len() - 1]));
        assert(s.last() == back.last());
        assert(s.drop_last() =~= rest + back.drop_last());
        assert forall|i: int| 0 <= i < back.drop_last().len() implies class.has(
            #[trigger] back.drop_last()[i],
        ) by {
            assert(class.has(back[i]));
        }
        lemma_end(rest, back.drop_last(), class);
    }
}

/// What is trimmed is taken from the two ends and from nowhere else: all of it that stands there,
/// and nothing in between.
pub proof fn law_trimming_takes_both_ends(
    front: Seq<char>,
    middle: Seq<char>,
    back: Seq<char>,
    class: CharClass,
)
    requires
        is_all(front, class),
        is_all(back, class),
        middle.len() > 0,
        !class.has(middle[0]),
        !class.has(middle.last()),
    ensures
        text::trimmed_start(front + middle + back, class) == middle + back,
        text::trimmed_end(front + middle + back, class) == front + middle,
        text::trimmed_of(front + middle + back, class) == middle,
        class is Whitespace ==> text::trimmed(front + middle + back) == middle && !text::is_blank(
            front + middle + back,
        ),
{
    assert(front + middle + back =~= front + (middle + back));
    lemma_start(front, middle + back, class);
    lemma_end(front + middle, back, class);
    lemma_end(middle, back, class);
}

/// Nothing is left of a text that is white space, and such a text is blank.
pub proof fn law_white_space_is_blank(s: Seq<char>, class: CharClass)
    requires
        is_all(s, class),
    ensures
        text::trimmed_of(s, class).len() == 0,
        text::trimmed_end(s, class).len() == 0,
        class is Whitespace ==> text::is_blank(s),
{
    let none = Seq::<char>::empty();
    lemma_start(s, none, class);
    lemma_end(none, s, class);
    assert(s + none =~= s);
    assert(none + s =~= s);
}

// ---------------------------------------------------------------------------------------
// Searching
// ---------------------------------------------------------------------------------------

/// A text begins with another where it has its characters at the start, ends with it where it has
/// them at the end, and holds it where it has them somewhere.
pub proof fn law_patterns_are_found_character_by_character(s: Seq<char>, pattern: Seq<char>)
    ensures
        text::begins(s, pattern) <==> pattern.len() <= s.len() && forall|i: int|
            0 <= i < pattern.len() ==> s[i] == #[trigger] pattern[i],
        text::ends(s, pattern) <==> pattern.len() <= s.len() && forall|i: int|
            0 <= i < pattern.len() ==> s[s.len() - pattern.len() + i] == #[trigger] pattern[i],
        text::occurs(s, pattern) <==> exists|k: int| #[trigger] text::begins(s.skip(k), pattern) && 0
            <= k <= s.len(),
{
    lemma_stands(s, pattern, 0);
    lemma_stands(s, pattern, s.len() - pattern.len());
    if text::occurs(s, pattern) {
        let k = choose|k: int| #[trigger] text::occurs_at(s, pattern, k);
        assert(s.skip(k).subrange(0, pattern.len() as int) =~= s.subrange(k, k + pattern.len()));
        assert(text::begins(s.skip(k), pattern));
    }
    if exists|k: int| #[trigger] text::begins(s.skip(k), pattern) && 0 <= k <= s.len() {
        let k = choose|k: int| #[trigger] text::begins(s.skip(k), pattern) && 0 <= k <= s.len();
        assert(s.skip(k).subrange(0, pattern.len() as int) =~= s.subrange(k, k + pattern.len()));
        assert(text::occurs_at(s, pattern, k));
    }
}

proof fn lemma_stands(s: Seq<char>, pattern: Seq<char>, at: int)
    ensures
        text::occurs_at(s, pattern, at) <==> 0 <= at && at + pattern.len() <= s.len() && forall|
            i: int,
        |
            0 <= i < pattern.len() ==> s[at + i] == #[trigger] pattern[i],
{
    if 0 <= at && at + pattern.len() <= s.len() {
        let part = s.subrange(at, at + pattern.len());
        if part == pattern {
            assert forall|i: int| 0 <= i < pattern.len() implies s[at + i] == #[trigger] pattern[i] by {
                assert(part[i] == s[at + i]);
            }
        }
        if forall|i: int| 0 <= i < pattern.len() ==> s[at + i] == #[trigger] pattern[i] {
            assert(part =~= pattern);
        }
    }
}

// ---------------------------------------------------------------------------------------
// Splitting and joining
// ---------------------------------------------------------------------------------------

/// A text is split at each character of the class, and only there: the pieces are those before
/// the character and those behind it.
pub proof fn law_text_is_split_at_each_separator(
    a: Seq<char>,
    c: char,
    b: Seq<char>,
    class: CharClass,
)
    requires
        class.has(c),
    ensures
        text::pieces(a.push(c) + b, class) == text::pieces(a, class) + text::pieces(b, class),
        (forall|i: int| 0 <= i < a.len() ==> !class.has(#[trigger] a[i])) ==> text::pieces(a, class)
            == seq![a],
    decreases b.len(),
{
    if forall|i: int| 0 <= i < a.len() ==> !class.has(#[trigger] a[i]) {
        text::lemma_single_piece(a, class);
    }
    if b.len() == 0 {
        assert(a.push(c) + b =~= a.push(c));
        assert(a.push(c).drop_last() =~= a);
        assert(text::pieces(b, class) =~= seq![Seq::<char>::empty()]);
        assert(text::pieces(a, class).push(Seq::<char>::empty()) =~= text::pieces(a, class)
            + text::pieces(b, class));
    } else {
        let front = b.drop_last();
        law_text_is_split_at_each_separator(a, c, front, class);
        assert((a.push(c) + b).drop_last() =~= a.push(c) + front);
        assert((a.push(c) + b).last() == b.last());
        text::lemma_pieces_nonempty(front, class);
        let head = text::pieces(a, class);
        let tail = text::pieces(front, class);
        assert((head + tail).last() == tail.last());
        assert((head + tail).drop_last() =~= head + tail.drop_last());
        if class.has(b.last()) {
            assert((head + tail).push(Seq::<char>::empty()) =~= head + tail.push(
                Seq::<char>::empty(),
            ));
        } else {
            assert((head + tail.drop_last()).push(tail.last().push(b.last())) =~= head
                + tail.drop_last().push(tail.last().push(b.last())));
        }
    }
}

/// White space stands between words: the words are those before it and those behind it. A text
/// without white space is a word, unless it is empty.
pub proof fn law_white_space_stands_between_words(a: Seq<char>, c: char, b: Seq<char>)
    requires
        text::is_space(c),
    ensures
        text::words(a.push(c) + b) == text::words(a) + text::words(b),
        a.len() > 0 && (forall|i: int| 0 <= i < a.len() ==> !text::is_space(#[trigger] a[i]))
            ==> text::words(a) == seq![a],
        text::words(Seq::empty()).len() == 0,
{
    let class = CharClass::Whitespace;
    let nonempty = |w: Seq<char>| w.len() > 0;
    assert(class.has(c));
    law_text_is_split_at_each_separator(a, c, b, class);
    lemma_filter_add(text::pieces(a, class), text::pieces(b, class), nonempty);
    let none = Seq::<char>::empty();
    assert(text::words(none) =~= Seq::<Seq<char>>::empty()) by {
        reveal(Seq::filter);
        assert(text::pieces(none, class) =~= seq![none]);
        assert(seq![none].drop_last() =~= Seq::<Seq<char>>::empty());
        assert(seq![none].drop_last().filter(nonempty) =~= Seq::<Seq<char>>::empty());
        assert(seq![none].last() == none);
    }
    if a.len() > 0 && forall|i: int| 0 <= i < a.len() ==> !text::is_space(#[trigger] a[i]) {
        assert(seq![a][0] == a);
        text::lemma_words_of_joined(seq![a]);
        assert(text::joined(seq![a], seq![' ']) == a);
    }
}

proof fn lemma_filter_add(
    a: Seq<Seq<char>>,
    b: Seq<Seq<char>>,
    keep: spec_fn(Seq<char>) -> bool,
)
    ensures
        (a + b).filter(keep) == a.filter(keep) + b.filter(keep),
    decreases b.len(),
{
    reveal(Seq::filter);
    if b.len() == 0 {
        assert(a + b =~= a);
        assert(a.filter(keep) + b.filter(keep) =~= a.filter(keep));
    } else {
        lemma_filter_add(a, b.drop_last(), keep);
        assert((a + b).drop_last() =~= a + b.drop_last());
        assert((a + b).last() == b.last());
        assert((a + b).filter(keep) =~= a.filter(keep) + b.filter(keep));
    }
}

/// Joined texts stand one behind the other, with the separator between each two and nowhere else.
pub proof fn law_separator_stands_between_texts(
    parts: Seq<Seq<char>>,
    next: Seq<char>,
    separator: Seq<char>,
)
    ensures
        text::joined(Seq::empty(), separator).len() == 0,
        text::joined(seq![next], separator) == next,
        parts.len() > 0 ==> text::joined(parts.push(next), separator) == text::joined(
            parts,
            separator,
        ) + separator + next,
{
    if parts.len() > 0 {
        assert(parts.push(next).drop_last() =~= parts);
    }
}

/// The lines of a text are what stands between its line breaks; a break at the very end begins no
/// line.
pub proof fn law_lines_end_at_line_breaks(a: Seq<char>, b: Seq<char>)
    requires
        !a.contains('\n'),
    ensures
        text::lines(a) == (if a.len() == 0 {
            Seq::<Seq<char>>::empty()
        } else {
            seq![a]
        }),
        text::lines(a.push('\n') + b) == seq![a] + text::lines(b),
{
    let class = CharClass::Newline;
    assert forall|i: int| 0 <= i < a.len() implies !class.has(#[trigger] a[i]) by {
        assert(a.contains(a[i]));
    }
    assert(class.has('\n'));
    law_text_is_split_at_each_separator(a, '\n', b, class);
    text::lemma_pieces_nonempty(b, class);
    let tail = text::pieces(b, class);
    assert((seq![a] + tail).last() == tail.last());
    assert((seq![a] + tail).drop_last() =~= seq![a] + tail.drop_last());
    assert(seq![a].last() == a);
    assert(seq![a].drop_last() =~= Seq::<Seq<char>>::empty());
}

// ---------------------------------------------------------------------------------------
// Replacing
// ---------------------------------------------------------------------------------------

/// Each character is replaced by itself or by the text for it, and the rest stands as before.
pub proof fn law_characters_are_replaced_one_by_one(
    a: Seq<char>,
    b: Seq<char>,
    c: char,
    from: char,
    to: Seq<char>,
)
    ensures
        text::replaced(a + b, from, to) == text::replaced(a, from, to) + text::replaced(b, from, to),
        text::replaced(seq![c], from, to) == (if c == from {
            to
        } else {
            seq![c]
        }),
    decreases b.len(),
{
    let none = Seq::<char>::empty();
    assert(seq![c].drop_last() =~= none);
    assert(text::replaced(none, from, to) =~= none);
    assert(seq![c].last() == c);
    assert(text::replaced(seq![c], from, to) =~= (if c == from {
        to
    } else {
        seq![c]
    }));
    if b.len() == 0 {
        assert(a + b =~= a);
        assert(text::replaced(a, from, to) + text::replaced(b, from, to) =~= text::replaced(
            a,
            from,
            to,
        ));
    } else {
        law_characters_are_replaced_one_by_one(a, b.drop_last(), c, from, to);
        assert((a + b).drop_last() =~= a + b.drop_last());
        assert((a + b).last() == b.last());
        assert(text::replaced(a + b, from, to) =~= text::replaced(a, from, to) + text::replaced(
            b,
            from,
            to,
        ));
    }
}

/// Every way to break a line becomes one line feed, and a carriage return and a line feed are one
/// break; the rest stays.
pub proof fn law_line_breaks_become_alike(c: char, s: Seq<char>)
    ensures
        c != '\r' ==> text::unified_newlines(seq![c] + s) == seq![c] + text::unified_newlines(s),
        text::unified_newlines(seq!['\r', '\n'] + s) == seq!['\n'] + text::unified_newlines(s),
        s.len() == 0 || s[0] != '\n' ==> text::unified_newlines(seq!['\r'] + s) == seq!['\n']
            + text::unified_newlines(s),
{
    assert((seq![c] + s).skip(1) =~= s);
    assert((seq!['\r', '\n'] + s).skip(2) =~= s);
    assert((seq!['\r'] + s).skip(1) =~= s);
}

/// A text is clipped at its end, and only where it is too long.
pub proof fn law_text_is_clipped_at_its_end(value: &str, limit: usize, r: String)
    requires
        call_ensures(text::truncate_chars, (value, limit), r),
    ensures
        value@.len() <= limit ==> r@ == value@,
        value@.len() > limit ==> r@.len() == limit && r@ == value@.take(limit as int),
{
}

// ---------------------------------------------------------------------------------------
// Order
// ---------------------------------------------------------------------------------------

/// Texts are in the order of their first characters that differ, and a text comes before those
/// that go on behind it.
pub proof fn law_first_difference_orders_texts(
    same: Seq<char>,
    x: char,
    a: Seq<char>,
    y: char,
    b: Seq<char>,
)
    ensures
        x != y ==> (text::at_most(same.push(x) + a, same.push(y) + b) <==> x < y),
        text::at_most(same, same + a),
        !text::at_most(same.push(x) + a, same),
    decreases same.len(),
{
    if same.len() == 0 {
        assert((same.push(x) + a)[0] == x);
        assert((same.push(y) + b)[0] == y);
    } else {
        let rest = same.skip(1);
        law_first_difference_orders_texts(rest, x, a, y, b);
        assert((same.push(x) + a).skip(1) =~= rest.push(x) + a);
        assert((same.push(y) + b).skip(1) =~= rest.push(y) + b);
        assert((same + a).skip(1) =~= rest + a);
    }
}

/// What a list of texts stands for is the text of each, in its place; and a text that is left out
/// stands for none.
pub proof fn law_lists_stand_for_their_texts(
    strings: Seq<String>,
    texts: Seq<Vec<char>>,
    left: Option<String>,
    i: int,
)
    ensures
        text::strings(strings).len() == strings.len(),
        0 <= i < strings.len() ==> text::strings(strings)[i] == strings[i]@,
        text::texts(texts).len() == texts.len(),
        0 <= i < texts.len() ==> text::texts(texts)[i] == texts[i]@,
        text::opt_text(left) is Some <==> left is Some,
        left is Some ==> text::opt_text(left) == Some(left->0@),
        text::text_or_empty(text::opt_text(left)) == (if left is Some {
            left->0@
        } else {
            Seq::<char>::empty()
        }),
{
}

} // verus!
