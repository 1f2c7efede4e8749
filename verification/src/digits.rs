//! Decimal text: formatting integers as decimal strings and parsing
//! them back.
//!
//! Descriptor ids travel as six-digit zero-padded decimal text, table
//! files key their entries by decimal strings, and path components are
//! decimal numbers; this module gives both directions an exact
//! specification.

use vstd::prelude::*;
use crate::BufrKitError;

verus! {

/// The decimal digit character for `d` in 0..=9.
pub open spec fn digit_char(d: int) -> char {
    if d == 0 {
        '0'
    } else if d == 1 {
        '1'
    } else if d == 2 {
        '2'
    } else if d == 3 {
        '3'
    } else if d == 4 {
        '4'
    } else if d == 5 {
        '5'
    } else if d == 6 {
        '6'
    } else if d == 7 {
        '7'
    } else if d == 8 {
        '8'
    } else {
        '9'
    }
}

/// The numeric value of a decimal digit character, or -1 for any other
/// character.
pub open spec fn digit_value(c: char) -> int {
    if c == '0' {
        0
    } else if c == '1' {
        1
    } else if c == '2' {
        2
    } else if c == '3' {
        3
    } else if c == '4' {
        4
    } else if c == '5' {
        5
    } else if c == '6' {
        6
    } else if c == '7' {
        7
    } else if c == '8' {
        8
    } else if c == '9' {
        9
    } else {
        -1
    }
}

/// The decimal digit sequence of a non-negative number, most
/// significant digit first, with no leading zeros (except for 0
/// itself).
pub open spec fn dec_digits(n: nat) -> Seq<char>
    decreases n,
{
    if n < 10 {
        seq![digit_char(n as int)]
    } else {
        dec_digits(n / 10) + seq![digit_char(n as int % 10)]
    }
}

/// The decimal string of an integer: a minus sign for negative values,
/// then the digits of the magnitude.
pub open spec fn dec_string(n: int) -> Seq<char> {
    if n < 0 {
        seq!['-'] + dec_digits((-n) as nat)
    } else {
        dec_digits(n as nat)
    }
}

/// `s` left-padded with '0' up to width `w`.
pub open spec fn zero_pad(s: Seq<char>, w: int) -> Seq<char>
    decreases w - s.len(),
{
    if s.len() >= w {
        s
    } else {
        zero_pad(seq!['0'] + s, w)
    }
}

/// Append the decimal digit `d` to `s`.
fn push_digit(s: &mut String, d: u8)
    requires
        d < 10,
    ensures
        final(s)@ == old(s)@ + seq![digit_char(d as int)],
{
    proof {
        reveal_strlit("0");
        reveal_strlit("1");
        reveal_strlit("2");
        reveal_strlit("3");
        reveal_strlit("4");
        reveal_strlit("5");
        reveal_strlit("6");
        reveal_strlit("7");
        reveal_strlit("8");
        reveal_strlit("9");
    }
    if d == 0 {
        s.append("0");
    } else if d == 1 {
        s.append("1");
    } else if d == 2 {
        s.append("2");
    } else if d == 3 {
        s.append("3");
    } else if d == 4 {
        s.append("4");
    } else if d == 5 {
        s.append("5");
    } else if d == 6 {
        s.append("6");
    } else if d == 7 {
        s.append("7");
    } else if d == 8 {
        s.append("8");
    } else {
        s.append("9");
    }
    assert(s@ =~= old(s)@ + seq![digit_char(d as int)]);
}

/// Append the decimal digits of `n` to `s`, most significant first.
pub fn push_decimal(s: &mut String, n: u64)
    ensures
        final(s)@ == old(s)@ + dec_digits(n as nat),
    decreases n,
{
    if n < 10 {
        push_digit(s, n as u8);
    } else {
        push_decimal(s, n / 10);
        push_digit(s, (n % 10) as u8);
        assert(s@ =~= old(s)@ + dec_digits(n as nat));
    }
}

/// The decimal string of a non-negative number.
pub fn u64_to_string(n: u64) -> (r: String)
    ensures
        r@ == dec_digits(n as nat),
{
    let mut s = String::new();
    push_decimal(&mut s, n);
    proof {
        assert(s@ =~= dec_digits(n as nat));
    }
    s
}

/// The decimal string of a signed number.
pub fn isize_to_string(n: isize) -> (r: String)
    ensures
        r@ == dec_string(n as int),
{
    let mut s = String::new();
    if n < 0 {
        proof {
            reveal_strlit("-");
        }
        s.append("-");
        let wide: i128 = n as i128;
        let mag: u64 = (-wide) as u64;
        push_decimal(&mut s, mag);
        proof {
            assert(s@ =~= dec_string(n as int));
        }
    } else {
        push_decimal(&mut s, n as u64);
    }
    s
}

/// The decimal digits of `n`, left-padded with zeros to width `w`.
/// The six-digit canonical form of a descriptor id is `w == 6`.
pub fn u64_to_padded_string(n: u64, w: usize) -> (r: String)
    requires
        w <= 32,
    ensures
        r@ == zero_pad(dec_digits(n as nat), w as int),
{
    let digits = u64_to_string(n);
    let len = digits.as_str().unicode_len();
    proof {
        lemma_dec_digits_len(n as nat);
    }
    let mut s = String::new();
    let mut pad: usize = 0;
    let need: usize = if len < w {
        w - len
    } else {
        0
    };
    proof {
        reveal_strlit("0");
    }
    while pad < need
        invariant
            pad <= need,
            need <= 32,
            s@ =~= Seq::new(pad as nat, |i: int| '0'),
            "0"@ == seq!['0'],
        decreases need - pad,
    {
        s.append("0");
        proof {
            assert(s@ =~= Seq::new((pad + 1) as nat, |i: int| '0'));
        }
        pad = pad + 1;
    }
    s.append(digits.as_str());
    proof {
        lemma_zero_pad_shape(dec_digits(n as nat), w as int);
        assert(s@ =~= zero_pad(dec_digits(n as nat), w as int));
    }
    s
}

/// The digit sequence of a number is never empty.
pub proof fn lemma_dec_digits_len(n: nat)
    ensures
        dec_digits(n).len() >= 1,
    decreases n,
{
    if n >= 10 {
        lemma_dec_digits_len(n / 10)
    }
}

/// True iff `s` is one or more decimal digit characters.
pub open spec fn is_digits(s: Seq<char>) -> bool {
    s.len() >= 1 && forall|i: int| 0 <= i < s.len() ==> digit_value(s[i]) >= 0
}

/// The value of a digit sequence, most significant first. Empty
/// sequences count as 0; `is_digits` rules them out where it matters.
pub open spec fn digits_value(s: Seq<char>) -> int
    decreases s.len(),
{
    if s.len() == 0 {
        0
    } else {
        digits_value(s.drop_last()) * 10 + digit_value(s.last())
    }
}

/// What parsing decimal text yields: an optional sign followed by one
/// or more digits, with any other shape rejected.
pub open spec fn parse_decimal_spec(s: Seq<char>) -> Option<int> {
    if s.len() >= 1 && s[0] == '-' && is_digits(s.skip(1)) {
        Option::Some(-digits_value(s.skip(1)))
    } else if s.len() >= 1 && s[0] == '+' && is_digits(s.skip(1)) {
        Option::Some(digits_value(s.skip(1)))
    } else if is_digits(s) {
        Option::Some(digits_value(s))
    } else {
        Option::None
    }
}

/// A digit sequence has a non-negative value.
pub proof fn lemma_digits_value_nonneg(s: Seq<char>)
    requires
        forall|i: int| 0 <= i < s.len() ==> digit_value(s[i]) >= 0,
    ensures
        digits_value(s) >= 0,
    decreases s.len(),
{
    if s.len() > 0 {
        lemma_digits_value_nonneg(s.drop_last());
    }
}

/// Reading further digits never shrinks the value.
pub proof fn lemma_digits_value_prefix_le(s: Seq<char>, k: int)
    requires
        forall|i: int| 0 <= i < s.len() ==> digit_value(s[i]) >= 0,
        0 <= k <= s.len(),
    ensures
        digits_value(s.take(k)) <= digits_value(s),
    decreases s.len() - k,
{
    if k < s.len() {
        lemma_digits_value_prefix_le(s, k + 1);
        assert(s.take(k + 1).drop_last() =~= s.take(k));
        lemma_digits_value_nonneg(s.take(k));
        assert(digits_value(s.take(k + 1)) == digits_value(s.take(k)) * 10 + digit_value(
            s.take(k + 1).last(),
        ));
    } else {
        assert(s.take(k) =~= s);
    }
}

/// The numeric value of a decimal digit character.
fn digit_val(c: char) -> (r: Option<u8>)
    ensures
        match r {
            Some(d) => d < 10 && digit_value(c) == d,
            None => digit_value(c) == -1,
        },
{
    if c == '0' {
        Some(0)
    } else if c == '1' {
        Some(1)
    } else if c == '2' {
        Some(2)
    } else if c == '3' {
        Some(3)
    } else if c == '4' {
        Some(4)
    } else if c == '5' {
        Some(5)
    } else if c == '6' {
        Some(6)
    } else if c == '7' {
        Some(7)
    } else if c == '8' {
        Some(8)
    } else if c == '9' {
        Some(9)
    } else {
        None
    }
}

/// Parse decimal text as a signed machine integer, as the table files
/// carry descriptor ids: an optional sign, then digits. Anything else,
/// or a value outside the `isize` range, is an error.
#[verifier::loop_isolation(false)]
pub fn parse_isize(s: &str) -> (r: Result<isize, BufrKitError>)
    ensures
        match r {
            Ok(v) => parse_decimal_spec(s@) == Option::Some(v as int),
            Err(_) => match parse_decimal_spec(s@) {
                Option::Some(w) => w < isize::MIN || w > isize::MAX,
                Option::None => true,
            },
        },
{
    let len = s.unicode_len();
    if len == 0 {
        return Err(BufrKitError::new(String::from_str("empty number")));
    }
    let first = s.get_char(0);
    let neg = first == '-';
    let signed = neg || first == '+';
    let start: usize = if signed {
        1
    } else {
        0
    };
    if len == start {
        return Err(BufrKitError::new(String::from_str("no digits in number")));
    }
    let ghost digs = if signed {
        s@.skip(1)
    } else {
        s@
    };
    // Magnitude limit: one more than `isize::MAX`, the magnitude of
    // `isize::MIN`.
    let limit: u64 = isize::MAX as u64 + 1;
    let mut mag: u64 = 0;
    let mut i: usize = start;
    assert(digs.take(0) =~= Seq::<char>::empty());
    while i < len
        invariant
            start <= i <= len,
            forall|j: int| 0 <= j < i - start ==> digit_value(digs[j]) >= 0,
            mag == digits_value(digs.take(i - start)),
            mag <= limit,
        decreases len - i,
    {
        let c = s.get_char(i);
        let d = match digit_val(c) {
            Some(d) => d,
            None => {
                assert(digit_value(digs[i - start]) == -1);
                assert(!is_digits(digs));
                return Err(BufrKitError::new(String::from_str("invalid digit in number")));
            },
        };
        if mag > (limit - d as u64) / 10 {
            // The digits so far already exceed the representable
            // magnitude, and further digits cannot shrink it.
            proof {
                assert(digs.take(i - start + 1).drop_last() =~= digs.take(i - start));
                assert(digits_value(digs.take(i - start + 1)) > limit);
                if is_digits(digs) {
                    lemma_digits_value_prefix_le(digs, i - start + 1);
                }
            }
            return Err(BufrKitError::new(String::from_str("number out of range")));
        }
        proof {
            assert(digs.take(i - start + 1).drop_last() =~= digs.take(i - start));
        }
        mag = mag * 10 + d as u64;
        i = i + 1;
    }
    assert(digs.take(i - start) =~= digs);
    assert(is_digits(digs));
    if neg {
        if mag > limit {
            return Err(BufrKitError::new(String::from_str("number out of range")));
        }
        let wide: i128 = -(mag as i128);
        assert(isize::MIN <= wide <= isize::MAX);
        Ok(wide as isize)
    } else {
        if mag >= limit {
            return Err(BufrKitError::new(String::from_str("number out of range")));
        }
        assert(mag <= isize::MAX);
        Ok(mag as isize)
    }
}

/// Padding prepends exactly the missing zeros.
pub proof fn lemma_zero_pad_shape(s: Seq<char>, w: int)
    ensures
        s.len() >= w ==> zero_pad(s, w) == s,
        s.len() < w ==> zero_pad(s, w) =~= Seq::new((w - s.len()) as nat, |i: int| '0') + s,
    decreases w - s.len(),
{
    if s.len() < w {
        lemma_zero_pad_shape(seq!['0'] + s, w);
        if (seq!['0'] + s).len() < w {
            assert(zero_pad(s, w) =~= Seq::new((w - s.len()) as nat, |i: int| '0') + s);
        } else {
            assert(zero_pad(s, w) =~= Seq::new((w - s.len()) as nat, |i: int| '0') + s);
        }
    }
}

} // verus!
