//! Messages of other programs, made fit for display and for logs.
use crate::text::{self, CharClass};
use vstd::prelude::*;

verus! {

/// The text without its control characters, as far as a limit.
pub open spec fn bounded_error_text(s: Seq<char>) -> Seq<char> {
    text::clipped(s.filter(|c: char| !text::is_control(c)), 240)
}

/// The first words of a message with one blank between each two, as far as a limit.
pub open spec fn bounded_message_text(s: Seq<char>) -> Seq<char> {
    let words = text::words(s);
    text::clipped(
        text::joined(
            if words.len() > 32 {
                words.take(32)
            } else {
                words
            },
            seq![' '],
        ),
        240,
    )
}

/// The message of an error in a log is short and holds no control character.
pub proof fn law_bounded_error_is_plain(s: Seq<char>)
    ensures
        bounded_error_text(s).len() <= 240,
        forall|i: int|
            0 <= i < bounded_error_text(s).len() ==> !text::is_control(
                #[trigger] bounded_error_text(s)[i],
            ),
{
    let keep = |c: char| !text::is_control(c);
    assert forall|i: int| 0 <= i < bounded_error_text(s).len() implies !text::is_control(
        #[trigger] bounded_error_text(s)[i],
    ) by {
        s.lemma_filter_pred(keep, i);
        assert(bounded_error_text(s)[i] == s.filter(keep)[i]);
    }
}

/// Whether a word may be a secret: it is very long, or looks like a token.
pub open spec fn secret_like(word: Seq<char>) -> bool {
    ||| vstd::utf8::encode_utf8(word).len() > 160
    ||| text::begins(word, "eyJ"@)
    ||| text::begins(word, "sk-"@)
    ||| text::occurs(text::lowered(word), "access_token"@)
    ||| text::occurs(text::lowered(word), "refresh_token"@)
    ||| text::occurs(text::lowered(word), "session-token"@)
}

pub open spec fn is_web_address(word: Seq<char>) -> bool {
    text::begins(word, "https://"@) || text::begins(word, "http://"@)
}

/// A word without what may be secret in it: the whole word, or the query of a web address.
pub open spec fn sanitized_word(word: Seq<char>) -> Seq<char> {
    if secret_like(word) {
        "[redacted]"@
    } else if is_web_address(word) {
        text::pieces(word, CharClass::Question)[0]
    } else {
        word
    }
}

/// The words of the first part of a message, each without what may be secret in it.
pub open spec fn sanitized_words(message: Seq<char>) -> Seq<Seq<char>> {
    text::words(
        text::clipped(message.filter(|c: char| !text::is_control(c) || c == '\n'), 400),
    ).map_values(|w: Seq<char>| sanitized_word(w))
}

pub open spec fn sanitized(message: Seq<char>) -> Seq<char> {
    text::joined(sanitized_words(message), seq![' '])
}

/// The message of an error in a form that fits a log.
pub fn bounded_error(message: &str) -> (r: String)
    ensures
        r@ == bounded_error_text(message@),
{
    let chars = text::chars_of(message);
    let ghost keep = |c: char| !text::is_control(c);
    let mut kept: Vec<char> = Vec::new();
    for i in 0..chars.len()
        invariant
            keep == (|c: char| !text::is_control(c)),
            kept@ == chars@.take(i as int).filter(keep),
    {
        proof {
            reveal(Seq::filter);
            assert(chars@.take(i + 1).drop_last() =~= chars@.take(i as int));
        }
        if !text::control(chars[i]) {
            kept.push(chars[i]);
        }
    }
    assert(chars@.take(chars@.len() as int) =~= chars@);
    text::text_of(text::clip(kept.as_slice(), 240).as_slice())
}

/// The message of a server in a form that fits a line.
pub fn bounded_message(message: &str) -> (r: String)
    ensures
        r@ == bounded_message_text(message@),
{
    let mut words = text::split_words(text::chars_of(message).as_slice());
    let ghost all = text::texts(words@);
    if words.len() > 32 {
        words.truncate(32);
        assert(text::texts(words@) =~= all.take(32));
    }
    let blank = vec![' '];
    assert(blank@ =~= seq![' ']);
    let line = text::join(words.as_slice(), blank.as_slice());
    text::text_of(text::clip(line.as_slice(), 240).as_slice())
}

fn stands_in(chars: &Vec<char>, pattern: &str) -> (r: bool)
    ensures
        r == text::occurs(chars@, pattern@),
{
    text::contains(chars.as_slice(), text::chars_of(pattern).as_slice())
}

fn opens_with(chars: &Vec<char>, pattern: &str) -> (r: bool)
    ensures
        r == text::begins(chars@, pattern@),
{
    text::starts_with(chars.as_slice(), text::chars_of(pattern).as_slice())
}

fn may_be_secret(word: &Vec<char>) -> (r: bool)
    ensures
        r == secret_like(word@),
{
    let lower = text::lower_chars(word.as_slice());
    let written = text::text_of(word.as_slice());
    written.as_str().as_bytes().len() > 160 || opens_with(word, "eyJ") || opens_with(word, "sk-")
        || stands_in(&lower, "access_token") || stands_in(&lower, "refresh_token") || stands_in(
        &lower,
        "session-token",
    )
}

fn sanitize_word(word: &Vec<char>) -> (r: Vec<char>)
    ensures
        r@ == sanitized_word(word@),
{
    if may_be_secret(word) {
        text::chars_of("[redacted]")
    } else if opens_with(word, "https://") || opens_with(word, "http://") {
        let parts = text::split_pieces(word.as_slice(), CharClass::Question);
        assert(text::texts(parts@)[0] == parts@[0]@);
        let r = text::range(parts[0].as_slice(), 0, parts[0].len());
        assert(r@ =~= parts@[0]@);
        r
    } else {
        let r = text::range(word.as_slice(), 0, word.len());
        assert(r@ =~= word@);
        r
    }
}

/// The message of a server without what may be secret in it.
pub fn sanitize_server_message(message: &str) -> (r: String)
    ensures
        r@ == sanitized(message@),
{
    let chars = text::chars_of(message);
    let ghost keep = |c: char| !text::is_control(c) || c == '\n';
    let mut kept: Vec<char> = Vec::new();
    for i in 0..chars.len()
        invariant
            keep == (|c: char| !text::is_control(c) || c == '\n'),
            kept@ == chars@.take(i as int).filter(keep),
    {
        proof {
            reveal(Seq::filter);
            assert(chars@.take(i + 1).drop_last() =~= chars@.take(i as int));
        }
        if !text::control(chars[i]) || chars[i] == '\n' {
            kept.push(chars[i]);
        }
    }
    assert(chars@.take(chars@.len() as int) =~= chars@);
    let words = text::split_words(text::clip(kept.as_slice(), 400).as_slice());
    let ghost expected = sanitized_words(message@);
    let mut clean: Vec<Vec<char>> = Vec::new();
    for i in 0..words.len()
        invariant
            expected == text::texts(words@).map_values(|w: Seq<char>| sanitized_word(w)),
            text::texts(clean@) == expected.take(i as int),
    {
        let ghost before = clean@;
        let word = sanitize_word(&words[i]);
        assert(expected[i as int] == word@);
        clean.push(word);
        assert(text::texts(clean@) =~= text::texts(before).push(word@));
        assert(text::texts(clean@) =~= expected.take(i + 1));
    }
    assert(expected.take(words@.len() as int) =~= expected);
    let blank = vec![' '];
    assert(blank@ =~= seq![' ']);
    text::text_of(text::join(clean.as_slice(), blank.as_slice()).as_slice())
}

/// Whether nothing in a word needs to be taken out.
pub open spec fn is_clean(word: Seq<char>) -> bool {
    !secret_like(word) && (is_web_address(word) ==> !word.contains('?'))
}

proof fn lemma_prefix_bytes(word: Seq<char>, n: int)
    requires
        0 <= n <= word.len(),
    ensures
        vstd::utf8::encode_utf8(word.take(n)).len() <= vstd::utf8::encode_utf8(word).len(),
    decreases n,
{
    if n > 0 {
        lemma_prefix_bytes(word.drop_first(), n - 1);
        assert(word.take(n).drop_first() =~= word.drop_first().take(n - 1));
    }
}

proof fn lemma_prefix_is_no_secret(word: Seq<char>, n: int)
    requires
        0 <= n <= word.len(),
        !secret_like(word),
    ensures
        !secret_like(word.take(n)),
{
    let short = word.take(n);
    lemma_prefix_bytes(word, n);
    assert forall|pattern: Seq<char>, i: int| #[trigger]
        text::occurs_at(short, pattern, i) implies text::occurs_at(word, pattern, i) by {
        assert(word.subrange(i, i + pattern.len()) =~= short.subrange(i, i + pattern.len()));
    }
    assert forall|pattern: Seq<char>, i: int| #[trigger]
        text::occurs_at(text::lowered(short), pattern, i) implies text::occurs_at(
        text::lowered(word),
        pattern,
        i,
    ) by {
        assert(text::lowered(word).subrange(i, i + pattern.len()) =~= text::lowered(short).subrange(
            i,
            i + pattern.len(),
        ));
    }
}

/// The piece of a word up to its first question mark.
proof fn lemma_first_piece(word: Seq<char>)
    ensures
        ({
            let first = text::pieces(word, CharClass::Question)[0];
            &&& text::pieces(word, CharClass::Question).len() > 0
            &&& first.len() <= word.len()
            &&& first == word.take(first.len() as int)
            &&& !first.contains('?')
            &&& first.len() < word.len() ==> word[first.len() as int] == '?'
            &&& text::pieces(word, CharClass::Question).len() == 1 ==> first == word
            &&& text::pieces(word, CharClass::Question).len() > 1 ==> first.len() < word.len()
        }),
    decreases word.len(),
{
    if word.len() > 0 {
        let front = word.drop_last();
        lemma_first_piece(front);
        let before = text::pieces(front, CharClass::Question);
        let first = text::pieces(word, CharClass::Question)[0];
        if word.last() == '?' {
            assert(first == before[0]);
            assert(word.take(first.len() as int) =~= front.take(first.len() as int));
        } else if before.len() > 1 {
            assert(first == before[0]);
            assert(word.take(first.len() as int) =~= front.take(first.len() as int));
        } else {
            assert(first =~= word);
            assert(word.take(first.len() as int) =~= word);
        }
    } else {
        assert(word.take(0) =~= Seq::<char>::empty());
    }
}

proof fn lemma_address_kept(word: Seq<char>, start: Seq<char>, n: int)
    requires
        text::begins(word, start),
        !start.contains('?'),
        0 <= n <= word.len(),
        n < word.len() ==> word[n] == '?',
    ensures
        n >= start.len(),
{
    if n < start.len() {
        assert(word.subrange(0, start.len() as int)[n] == word[n]);
        assert(start[n] == '?');
    }
}

proof fn lemma_sanitized_word(word: Seq<char>)
    requires
        text::is_word(word),
    ensures
        text::is_word(sanitized_word(word)),
        is_clean(sanitized_word(word)),
{
    reveal_strlit("[redacted]");
    reveal_strlit("eyJ");
    reveal_strlit("sk-");
    reveal_strlit("access_token");
    reveal_strlit("refresh_token");
    reveal_strlit("session-token");
    reveal_strlit("https://");
    reveal_strlit("http://");
    if secret_like(word) {
        let mark = "[redacted]"@;
        assert(vstd::utf8::is_ascii_chars(mark));
        vstd::utf8::is_ascii_chars_encode_utf8(mark);
        assert(mark[0] == '[');
        if text::begins(mark, "eyJ"@) {
            assert(mark.subrange(0, 3)[0] == 'e');
        }
        if text::begins(mark, "sk-"@) {
            assert(mark.subrange(0, 3)[0] == 's');
        }
        if text::begins(mark, "https://"@) {
            assert(mark.subrange(0, 8)[0] == 'h');
        }
        if text::begins(mark, "http://"@) {
            assert(mark.subrange(0, 7)[0] == 'h');
        }
    } else if is_web_address(word) {
        lemma_first_piece(word);
        let first = sanitized_word(word);
        let n = first.len() as int;
        if text::begins(word, "https://"@) {
            lemma_address_kept(word, "https://"@, n);
        } else {
            lemma_address_kept(word, "http://"@, n);
        }
        lemma_prefix_is_no_secret(word, n);
        assert forall|i: int| 0 <= i < first.len() implies !text::is_space(#[trigger] first[i]) by {
            assert(first[i] == word[i]);
        }
    }
}

/// No word of a sanitized message looks like a secret, and no web address in it has a query.
pub proof fn law_sanitized_message_is_clean(message: Seq<char>)
    ensures
        forall|k: int|
            0 <= k < text::words(sanitized(message)).len() ==> is_clean(
                #[trigger] text::words(sanitized(message))[k],
            ),
{
    let words = text::words(
        text::clipped(message.filter(|c: char| !text::is_control(c) || c == '\n'), 400),
    );
    let clean = sanitized_words(message);
    text::lemma_words_are_words(
        text::clipped(message.filter(|c: char| !text::is_control(c) || c == '\n'), 400),
    );
    assert forall|k: int| 0 <= k < clean.len() implies text::is_word(#[trigger] clean[k])
        && is_clean(clean[k]) by {
        assert(text::is_word(words[k]));
        lemma_sanitized_word(words[k]);
    }
    text::lemma_words_of_joined(clean);
}

/// Whether a word looks like something that is kept secret.
pub open spec fn looks_secret(word: Seq<char>) -> bool {
    ||| vstd::utf8::encode_utf8(word).len() > 160
    ||| text::begins(word, "eyJ"@)
    ||| text::begins(word, "sk-"@)
    ||| text::occurs(text::lowered(word), "access_token"@)
    ||| text::occurs(text::lowered(word), "refresh_token"@)
    ||| text::occurs(text::lowered(word), "session-token"@)
}

/// Whether a word is shown in place of another: what looks secret is not shown at all, a web
/// address is shown up to its first question mark, and everything else as it is.
pub open spec fn is_shown_for(word: Seq<char>, shown: Seq<char>) -> bool {
    if looks_secret(word) {
        shown == "[redacted]"@
    } else if text::begins(word, "https://"@) || text::begins(word, "http://"@) {
        &&& shown.len() <= word.len()
        &&& shown == word.take(shown.len() as int)
        &&& !shown.contains('?')
        &&& shown.len() < word.len() ==> word[shown.len() as int] == '?'
    } else {
        shown == word
    }
}

/// The words of a message that is not too long are all shown, each in its place.
pub proof fn law_words_are_shown_in_their_places(words: Seq<Seq<char>>)
    requires
        forall|k: int| 0 <= k < words.len() ==> text::is_word(#[trigger] words[k]),
        text::joined(words, seq![' ']).len() <= 400,
        forall|i: int|
            0 <= i < text::joined(words, seq![' ']).len() ==> !text::is_control(
                #[trigger] text::joined(words, seq![' '])[i],
            ),
    ensures
        text::words(sanitized(text::joined(words, seq![' ']))).len() == words.len(),
        forall|k: int|
            0 <= k < words.len() ==> is_shown_for(
                words[k],
                #[trigger] text::words(sanitized(text::joined(words, seq![' '])))[k],
            ),
{
    let message = text::joined(words, seq![' ']);
    let keep = |c: char| !text::is_control(c) || c == '\n';
    lemma_all_kept(message, keep);
    text::lemma_words_of_joined(words);
    let clean = sanitized_words(message);
    assert(text::clipped(message, 400) =~= message);
    assert forall|k: int| 0 <= k < clean.len() implies text::is_word(#[trigger] clean[k])
        && is_shown_for(words[k], clean[k]) by {
        assert(text::is_word(words[k]));
        lemma_sanitized_word(words[k]);
        lemma_first_piece(words[k]);
    }
    text::lemma_words_of_joined(clean);
}

proof fn lemma_all_kept(s: Seq<char>, keep: spec_fn(char) -> bool)
    requires
        forall|i: int| 0 <= i < s.len() ==> keep(#[trigger] s[i]),
    ensures
        s.filter(keep) == s,
    decreases s.len(),
{
    reveal(Seq::filter);
    if s.len() > 0 {
        let front = s.drop_last();
        assert forall|i: int| 0 <= i < front.len() implies keep(#[trigger] front[i]) by {
            assert(front[i] == s[i]);
        }
        assert(keep(s[s.len() - 1]));
        lemma_all_kept(front, keep);
        assert(front.push(s.last()) =~= s);
    } else {
        assert(s.filter(keep) =~= s);
    }
}

proof fn lemma_one_left_out(a: Seq<char>, c: char, b: Seq<char>, keep: spec_fn(char) -> bool)
    requires
        !keep(c),
    ensures
        (a.push(c) + b).filter(keep) == (a + b).filter(keep),
    decreases b.len(),
{
    reveal(Seq::filter);
    if b.len() == 0 {
        assert(a.push(c) + b =~= a.push(c));
        assert(a.push(c).drop_last() =~= a);
        assert(a + b =~= a);
    } else {
        lemma_one_left_out(a, c, b.drop_last(), keep);
        assert((a.push(c) + b).drop_last() =~= a.push(c) + b.drop_last());
        assert((a + b).drop_last() =~= a + b.drop_last());
    }
}

/// Of a message as of an error in a log a control character is left out, wherever it stands; a
/// line break in a message stands between words.
pub proof fn law_control_characters_are_left_out(a: Seq<char>, c: char, b: Seq<char>)
    requires
        c < '\u{20}' || '\u{7f}' <= c <= '\u{9f}',
    ensures
        bounded_error_text(a.push(c) + b) == bounded_error_text(a + b),
        c != '\n' ==> sanitized(a.push(c) + b) == sanitized(a + b),
{
    lemma_one_left_out(a, c, b, |c: char| !text::is_control(c));
    if c != '\n' {
        lemma_one_left_out(a, c, b, |c: char| !text::is_control(c) || c == '\n');
    }
}

/// A short error without control characters is logged as it is; of a long one its first 240
/// characters are.
pub proof fn law_error_is_cut_at_its_end(a: Seq<char>, b: Seq<char>)
    requires
        forall|i: int| 0 <= i < a.len() ==> !text::is_control(#[trigger] a[i]),
        forall|i: int| 0 <= i < b.len() ==> !text::is_control(#[trigger] b[i]),
    ensures
        a.len() <= 240 ==> bounded_error_text(a) == a,
        a.len() == 240 ==> bounded_error_text(a + b) == a,
{
    let keep = |c: char| !text::is_control(c);
    lemma_all_kept(a, keep);
    assert forall|i: int| 0 <= i < (a + b).len() implies keep(#[trigger] (a + b)[i]) by {
        if i >= a.len() {
            assert((a + b)[i] == b[i - a.len()]);
        }
    }
    lemma_all_kept(a + b, keep);
    if a.len() <= 240 {
        assert(text::clipped(a, 240) =~= a);
    }
    if a.len() == 240 {
        assert(text::clipped(a + b, 240) =~= a);
    }
}

/// A message in one line is its first 32 words with one blank between each two, or the first 240
/// characters of that.
pub proof fn law_message_is_its_first_words(words: Seq<Seq<char>>)
    requires
        forall|k: int| 0 <= k < words.len() ==> text::is_word(#[trigger] words[k]),
    ensures
        ({
            let first = if words.len() <= 32 {
                words
            } else {
                words.take(32)
            };
            let line = text::joined(first, seq![' ']);
            let r = bounded_message_text(text::joined(words, seq![' ']));
            &&& line.len() <= 240 ==> r == line
            &&& line.len() > 240 ==> r == line.take(240)
        }),
{
    text::lemma_words_of_joined(words);
    let first = if words.len() <= 32 {
        words
    } else {
        words.take(32)
    };
    let line = text::joined(first, seq![' ']);
    if line.len() <= 240 {
        assert(text::clipped(line, 240) =~= line);
    } else {
        assert(text::clipped(line, 240) =~= line.take(240));
    }
}

} // verus!
