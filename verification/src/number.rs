//! Decimal numerals.
use crate::text;
use vstd::prelude::*;

verus! {

/// The character of a digit.
pub open spec fn digit(d: nat) -> char {
    (('0' as u32) + d) as char
}

/// The decimal numeral of a number, without leading zeros.
pub open spec fn decimal(n: nat) -> Seq<char>
    decreases n,
{
    if n < 10 {
        seq![digit(n)]
    } else {
        decimal(n / 10).push(digit(n % 10))
    }
}

/// The decimal numeral of an integer.
pub open spec fn signed_decimal(n: int) -> Seq<char> {
    if n < 0 {
        seq!['-'] + decimal((-n) as nat)
    } else {
        decimal(n as nat)
    }
}

/// The number that a row of digits stands for.
pub open spec fn digits_value(s: Seq<char>) -> nat
    decreases s.len(),
{
    if s.len() == 0 {
        0
    } else {
        10 * digits_value(s.drop_last()) + (s.last() as nat - '0' as nat) as nat
    }
}

/// Whether the text is made of decimal digits only.
pub open spec fn all_digits(s: Seq<char>) -> bool {
    forall|i: int| 0 <= i < s.len() ==> text::is_ascii_digit(#[trigger] s[i])
}

/// Reading the numeral of a number gives the number back.
pub proof fn law_decimal_reads_back(n: nat)
    ensures
        digits_value(decimal(n)) == n,
        all_digits(decimal(n)),
        decimal(n).len() > 0,
    decreases n,
{
    if n < 10 {
        assert(decimal(n).drop_last() =~= Seq::<char>::empty());
        assert(digits_value(decimal(n).drop_last()) == 0);
    } else {
        law_decimal_reads_back(n / 10);
        assert(decimal(n).drop_last() =~= decimal(n / 10));
    }
}

fn digit_char(d: u8) -> (c: char)
    requires
        d < 10,
    ensures
        c == digit(d as nat),
{
    (48 + d) as char
}

/// The decimal numeral of a number.
pub fn decimal_chars(n: u128) -> (r: Vec<char>)
    ensures
        r@ == decimal(n as nat),
    decreases n,
{
    if n < 10 {
        let mut r: Vec<char> = Vec::new();
        r.push(digit_char(n as u8));
        assert(r@ =~= seq![digit(n as nat)]);
        r
    } else {
        let mut r: Vec<char> = decimal_chars(n / 10);
        r.push(digit_char((n % 10) as u8));
        r
    }
}

/// The decimal numeral of an integer.
pub fn signed_decimal_chars(n: i64) -> (r: Vec<char>)
    ensures
        r@ == signed_decimal(n as int),
{
    if n < 0 {
        let mut r: Vec<char> = Vec::new();
        r.push('-');
        let size: u128 = (-(n as i128)) as u128;
        let digits: Vec<char> = decimal_chars(size);
        text::append(&mut r, digits.as_slice());
        assert(r@ =~= seq!['-'] + decimal(size as nat));
        r
    } else {
        decimal_chars(n as u128)
    }
}

/// Longer rows of digits stand for numbers that are not smaller.
proof fn lemma_prefix_value(s: Seq<char>, i: int)
    requires
        all_digits(s),
        0 <= i <= s.len(),
    ensures
        digits_value(s.take(i)) <= digits_value(s),
    decreases s.len(),
{
    if i == s.len() {
        assert(s.take(i) =~= s);
    } else {
        lemma_prefix_value(s.drop_last(), i);
        assert(s.drop_last().take(i) =~= s.take(i));
    }
}

/// Reads a row of digits as a number of 64 bits: none where it is empty or the number is too
/// large.
pub fn parse_digits(chars: &[char]) -> (r: Option<u64>)
    requires
        all_digits(chars@),
    ensures
        match r {
            Some(n) => chars@.len() > 0 && n as nat == digits_value(chars@),
            None => chars@.len() == 0 || digits_value(chars@) > u64::MAX,
        },
{
    if chars.len() == 0 {
        return None;
    }
    let mut n: u64 = 0;
    for i in 0..chars.len()
        invariant
            all_digits(chars@),
            n as nat == digits_value(chars@.take(i as int)),
    {
        assert(text::is_ascii_digit(chars@[i as int]));
        let d: u64 = (chars[i] as u8 - 48) as u64;
        assert(chars@.take(i + 1).drop_last() =~= chars@.take(i as int));
        assert(digits_value(chars@.take(i + 1)) == 10 * n as nat + d as nat);
        if n > (u64::MAX - d) / 10 {
            proof {
                lemma_prefix_value(chars@, i + 1);
            }
            return None;
        }
        n = 10 * n + d;
    }
    assert(chars@.take(chars@.len() as int) =~= chars@);
    Some(n)
}

/// A numeral is written in base ten: its last digit is what is left of the number by ten, and
/// what stands before is the numeral of the rest. It starts with no zero, unless it is zero.
pub proof fn law_numeral_is_in_base_ten(n: nat)
    ensures
        n < 10 ==> decimal(n).len() == 1 && decimal(n)[0] as nat == 48 + n,
        n >= 10 ==> decimal(n).drop_last() == decimal(n / 10) && decimal(n).last() as nat == 48 + n
            % 10,
        n > 0 ==> decimal(n)[0] != '0',
    decreases n,
{
    if n >= 10 {
        law_numeral_is_in_base_ten(n / 10);
        law_decimal_reads_back(n / 10);
        assert(decimal(n).drop_last() =~= decimal(n / 10));
    }
}

/// A numeral with one more digit stands for ten times as much and the digit.
pub proof fn law_digits_are_read_in_base_ten(s: Seq<char>, c: char)
    requires
        '0' <= c <= '9',
    ensures
        digits_value(Seq::empty()) == 0,
        digits_value(s.push(c)) == 10 * digits_value(s) + (c as nat - 48),
{
    assert(s.push(c).drop_last() =~= s);
}

/// The numeral of a negative number is a sign and the numeral of what the number is below zero.
pub proof fn law_sign_stands_before_negative_numbers(n: int)
    ensures
        n >= 0 ==> signed_decimal(n) == decimal(n as nat),
        n < 0 ==> signed_decimal(n).len() > 0 && signed_decimal(n)[0] == '-' && signed_decimal(
            n,
        ).skip(1) == decimal((-n) as nat),
{
    if n < 0 {
        assert(signed_decimal(n).skip(1) =~= decimal((-n) as nat));
    }
}

/// A number that is written in digits is read back as the number, as far as a number of 64 bits
/// can be.
pub proof fn law_written_number_is_read_back(
    n: u64,
    digits: Vec<char>,
    chars: &[char],
    r: Option<u64>,
)
    requires
        call_ensures(decimal_chars, (n as u128,), digits),
        chars@ == digits@,
        call_ensures(parse_digits, (chars,), r),
    ensures
        r == Some(n),
{
    law_decimal_reads_back(n as nat);
}

} // verus!
