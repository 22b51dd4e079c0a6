//! Decimal numbers: how they are written to the engine and how they are read
//! from it.

#[allow(unused_imports)]
use vstd::arithmetic::power::{lemma_pow0, pow};
use vstd::prelude::*;

use crate::text::chars_of;

verus! {

/// The digit that stands for `n`.
pub open spec fn digit(n: nat) -> char {
    ('0' as u32 + n) as char
}

/// Whether `c` is a decimal digit.
pub open spec fn is_digit(c: char) -> bool {
    '0' <= c <= '9'
}

/// The decimal digits of `n`, without leading zeros.
pub open spec fn digits(n: nat) -> Seq<char>
    decreases n,
{
    if n < 10 {
        seq![digit(n)]
    } else {
        digits(n / 10).push(digit(n % 10))
    }
}

/// The digits of `n`, after a minus sign if it is negative.
pub open spec fn signed_digits(n: int) -> Seq<char> {
    if n < 0 {
        seq!['-'] + digits((-n) as nat)
    } else {
        digits(n as nat)
    }
}

/// Whether `s` is one or more decimal digits.
pub open spec fn is_number(s: Seq<char>) -> bool {
    s.len() > 0 && forall|i: int| 0 <= i < s.len() ==> is_digit(#[trigger] s[i])
}

/// The number that a row of decimal digits stands for.
pub open spec fn value(s: Seq<char>) -> nat
    decreases s.len(),
{
    if s.len() == 0 {
        0
    } else {
        10 * value(s.drop_last()) + (s.last() as u32 - '0' as u32) as nat
    }
}

/// `s` without the sign `sign` in front, if it has one.
pub open spec fn without_sign(s: Seq<char>, sign: char) -> Seq<char> {
    if s.len() > 0 && s[0] == sign {
        s.skip(1)
    } else {
        s
    }
}

/// The number that `s` stands for: one or more digits, after a plus sign or
/// none; nothing if it is written otherwise or larger than `max`.
pub open spec fn read_number(s: Seq<char>, max: nat) -> Option<nat> {
    let body = without_sign(s, '+');
    if is_number(body) && value(body) <= max {
        Some(value(body))
    } else {
        None
    }
}

/// The number that `s` stands for: one or more digits, after a plus or a minus
/// sign or none; nothing if it is written otherwise or does not fit in 64 bits.
pub open spec fn read_signed(s: Seq<char>) -> Option<int> {
    if s.len() > 0 && s[0] == '-' {
        if is_number(s.skip(1)) && -value(s.skip(1)) >= i64::MIN {
            Some(-value(s.skip(1)))
        } else {
            None
        }
    } else {
        match read_number(s, i64::MAX as nat) {
            Some(n) => Some(n as int),
            None => None,
        }
    }
}

/// The digits of a number are digits, and stand for it.
pub proof fn law_digits_stand_for_number(n: nat)
    ensures
        is_number(digits(n)),
        value(digits(n)) == n,
        digits(n)[0] != '-',
        digits(n)[0] != '+',
    decreases n,
{
    if n < 10 {
        assert(digits(n).drop_last() == Seq::<char>::empty());
        assert(value(Seq::<char>::empty()) == 0);
    } else {
        law_digits_stand_for_number(n / 10);
        let s = digits(n);
        assert(s.drop_last() == digits(n / 10));
        assert forall|i: int| 0 <= i < s.len() implies is_digit(#[trigger] s[i]) by {
            if i < s.len() - 1 {
                assert(s[i] == digits(n / 10)[i]);
            }
        }
        assert(s[0] == digits(n / 10)[0]);
    }
}

/// A number that is written out is read back as the same number.
pub proof fn law_written_number_is_read_back(n: nat, max: nat)
    requires
        n <= max,
    ensures
        read_number(digits(n), max) == Some(n),
{
    law_digits_stand_for_number(n);
}

/// A signed number that is written out is read back as the same number.
pub proof fn law_written_signed_number_is_read_back(n: i64)
    ensures
        read_signed(signed_digits(n as int)) == Some(n as int),
{
    if n < 0 {
        law_digits_stand_for_number((-n) as nat);
        assert(signed_digits(n as int).skip(1) == digits((-n) as nat));
    } else {
        law_digits_stand_for_number(n as nat);
    }
}

/// Reads the digits of `chars` from `from` on.
fn parse_digits(chars: &Vec<char>, from: usize, max: u64) -> (n: Option<u64>)
    requires
        from <= chars.len(),
    ensures
        ({
            let body = chars@.skip(from as int);
            match n {
                Some(n) => is_number(body) && value(body) == n && n <= max,
                None => !is_number(body) || value(body) > max,
            }
        }),
{
    let ghost body = chars@.skip(from as int);
    if from == chars.len() {
        return None;
    }
    let mut i: usize = from;
    let mut n: u64 = 0;
    let mut large: bool = false;
    assert(body.take(0) == Seq::<char>::empty());
    while i < chars.len()
        invariant
            from <= i <= chars.len(),
            body == chars@.skip(from as int),
            forall|j: int| 0 <= j < i - from ==> is_digit(#[trigger] body[j]),
            !large ==> n <= max && n == value(body.take(i - from)),
            large ==> value(body.take(i - from)) > max,
        decreases chars.len() - i,
    {
        let c = chars[i];
        assert(body[i - from] == c);
        assert(body.take(i - from + 1).drop_last() == body.take(i - from));
        if !('0' <= c && c <= '9') {
            return None;
        }
        let d: u64 = c as u64 - '0' as u64;
        if !large {
            if d <= max && n <= max / 10 && n * 10 <= max - d {
                n = n * 10 + d;
            } else {
                large = true;
            }
        }
        i = i + 1;
    }
    assert(body.take(chars.len() - from) == body);
    if large {
        None
    } else {
        Some(n)
    }
}

/// Reads an unsigned number of at most `max`.
pub fn parse_number(text: &str, max: u64) -> (n: Option<u64>)
    ensures
        match n {
            Some(n) => read_number(text@, max as nat) == Some(n as nat),
            None => read_number(text@, max as nat) is None,
        },
{
    let chars = chars_of(text);
    if chars.len() > 0 && chars[0] == '+' {
        parse_digits(&chars, 1, max)
    } else {
        assert(chars@.skip(0) == chars@);
        parse_digits(&chars, 0, max)
    }
}

/// Reads a signed number.
pub fn parse_signed(text: &str) -> (n: Option<i64>)
    ensures
        match n {
            Some(n) => read_signed(text@) == Some(n as int),
            None => read_signed(text@) is None,
        },
{
    let chars = chars_of(text);
    if chars.len() > 0 && chars[0] == '-' {
        match parse_digits(&chars, 1, 0x8000_0000_0000_0000) {
            None => None,
            Some(n) => {
                if n == 0x8000_0000_0000_0000 {
                    Some(i64::MIN)
                } else {
                    Some(-(n as i64))
                }
            },
        }
    } else {
        match parse_number(text, 0x7fff_ffff_ffff_ffff) {
            None => None,
            Some(n) => Some(n as i64),
        }
    }
}

/// Writes the digits of `n` at the end of `text`.
pub fn push_number(text: &mut String, n: u128)
    ensures
        final(text)@ == old(text)@ + digits(n as nat),
    decreases n,
{
    if n < 10 {
        push_digit(text, n as u8);
        assert(old(text)@ + digits(n as nat) == old(text)@.push(digit(n as nat)));
    } else {
        push_number(text, n / 10);
        push_digit(text, (n % 10) as u8);
        assert(old(text)@ + digits(n as nat) == (old(text)@ + digits((n / 10) as nat)).push(
            digit((n % 10) as nat),
        ));
    }
}

/// Writes one digit at the end of `text`.
fn push_digit(text: &mut String, n: u8)
    requires
        n < 10,
    ensures
        final(text)@ == old(text)@.push(digit(n as nat)),
{
    text.push((48 + n) as char);
}

/// The digits of `n`.
pub fn number_text(n: u128) -> (text: String)
    ensures
        text@ == digits(n as nat),
{
    let mut text = String::new();
    push_number(&mut text, n);
    assert(Seq::<char>::empty() + digits(n as nat) == digits(n as nat));
    text
}

/// The digits of `n`, after a minus sign if it is negative.
pub fn signed_text(n: i64) -> (text: String)
    ensures
        text@ == signed_digits(n as int),
{
    let mut text = String::new();
    if n < 0 {
        text.push('-');
        push_number(&mut text, -(n as i128) as u128);
        assert(Seq::<char>::empty().push('-') == seq!['-']);
    } else {
        push_number(&mut text, n as u128);
        assert(Seq::<char>::empty() + digits(n as nat) == digits(n as nat));
    }
    text
}

/// A numeral is one or more of the ten digits, nothing else, and its digits count
/// by their places: in a row of digits, the left part counts ten times as much
/// for each digit of the right part.
pub proof fn law_digits_count_by_place(left: Seq<char>, right: Seq<char>)
    ensures
        is_number(left) <==> left.len() > 0 && forall|i: int|
            0 <= i < left.len() ==> "0123456789"@.contains(#[trigger] left[i]),
        left.len() == 0 ==> value(left) == 0,
        forall|d: int| 0 <= d < 10 ==> value(seq![#[trigger] "0123456789"@[d]]) == d,
        value(left + right) == value(left) * pow(10, right.len()) + value(right),
    decreases right.len(),
{
    reveal_strlit("0123456789");
    let ten = "0123456789"@;
    assert forall|d: int| 0 <= d < 10 implies value(seq![#[trigger] ten[d]]) == d by {
        assert(seq![ten[d]].drop_last() =~= Seq::empty());
        assert(value(Seq::<char>::empty()) == 0);
    }
    assert forall|c: char| is_digit(c) == ten.contains(c) by {
        if is_digit(c) {
            assert(ten[c as u32 - '0' as u32] == c);
        }
    }
    assert forall|i: int| 0 <= i < left.len() && is_number(left) implies ten.contains(
        #[trigger] left[i],
    ) by {
        assert(is_digit(left[i]));
    }
    if right.len() == 0 {
        assert(left + right =~= left);
        lemma_pow0(10);
    } else {
        let shorter = right.drop_last();
        law_digits_count_by_place(left, shorter);
        assert((left + right).drop_last() =~= left + shorter);
        assert((left + right).last() == right.last());
        reveal(pow);
        let p = pow(10, shorter.len());
        assert(pow(10, right.len()) == 10 * p);
        let a = value(left) as int;
        assert(10 * (a * p) == a * (10 * p)) by (nonlinear_arith);
    }
}

/// A number is written as a numeral that stands for it, without needless zeros
/// in front.
pub proof fn law_written_without_needless_zeros(n: nat)
    ensures
        is_number(digits(n)),
        value(digits(n)) == n,
        digits(n)[0] == '0' ==> n == 0 && digits(n).len() == 1,
    decreases n,
{
    law_digits_stand_for_number(n);
    if n >= 10 {
        law_written_without_needless_zeros(n / 10);
        assert(digits(n)[0] == digits(n / 10)[0]);
    }
}

/// What is read as an unsigned number: a numeral, with or without one plus sign,
/// that stands for a number up to the greatest one. It is read as that number.
pub proof fn law_numerals_are_read(numeral: Seq<char>, max: nat)
    ensures
        is_number(numeral) && value(numeral) <= max ==> read_number(numeral, max) == Some(
            value(numeral),
        ) && read_number(seq!['+'] + numeral, max) == Some(value(numeral)),
        is_number(numeral) && value(numeral) > max ==> read_number(numeral, max) is None
            && read_number(seq!['+'] + numeral, max) is None,
        !is_number(numeral) ==> read_number(seq!['+'] + numeral, max) is None,
        !is_number(numeral) && (numeral.len() == 0 || numeral[0] != '+') ==> read_number(
            numeral,
            max,
        ) is None,
{
    assert((seq!['+'] + numeral).skip(1) =~= numeral);
    if is_number(numeral) {
        assert(is_digit(numeral[0]));
    }
}

/// What is read as a signed number: a numeral, with or without one sign, that
/// stands for a number of 64 bits. A minus sign makes it negative.
pub proof fn law_signed_numerals_are_read(numeral: Seq<char>)
    ensures
        is_number(numeral) && value(numeral) <= 0x7fff_ffff_ffff_ffff ==> read_signed(numeral)
            == Some(value(numeral) as int) && read_signed(seq!['+'] + numeral) == Some(
            value(numeral) as int,
        ),
        is_number(numeral) && value(numeral) > 0x7fff_ffff_ffff_ffff ==> read_signed(numeral)
            is None && read_signed(seq!['+'] + numeral) is None,
        is_number(numeral) && value(numeral) <= 0x8000_0000_0000_0000 ==> read_signed(
            seq!['-'] + numeral,
        ) == Some(-value(numeral)),
        is_number(numeral) && value(numeral) > 0x8000_0000_0000_0000 ==> read_signed(
            seq!['-'] + numeral,
        ) is None,
        !is_number(numeral) ==> read_signed(seq!['+'] + numeral) is None && read_signed(
            seq!['-'] + numeral,
        ) is None,
        !is_number(numeral) && (numeral.len() == 0 || (numeral[0] != '+' && numeral[0] != '-'))
            ==> read_signed(numeral) is None,
{
    assert((seq!['+'] + numeral).skip(1) =~= numeral);
    assert((seq!['-'] + numeral).skip(1) =~= numeral);
    if is_number(numeral) {
        assert(is_digit(numeral[0]));
    }
}

/// A negative number is written with one minus sign before what is written for
/// the positive one.
pub proof fn law_minus_sign_is_written_first(n: nat)
    ensures
        signed_digits(n as int) == digits(n),
        n > 0 ==> signed_digits(-n) == seq!['-'] + digits(n),
{
}

} // verus!
