//! Decimal numbers as they stand in the state stream.

use vstd::prelude::*;

verus! {

/// The byte of the digit `d`.
pub open spec fn digit_byte(d: int) -> u8 {
    ('0' as u8 + d) as u8
}

/// The decimal digits of `n`, without leading zeros.
pub open spec fn digits(n: nat) -> Seq<u8>
    decreases n,
{
    if n < 10 {
        seq![digit_byte(n as int)]
    } else {
        digits(n / 10).push(digit_byte((n % 10) as int))
    }
}

/// The decimal form of `v`, with a minus sign in front if it is negative.
pub open spec fn signed_digits(v: int) -> Seq<u8> {
    if v < 0 {
        seq!['-' as u8] + digits((-v) as nat)
    } else {
        digits(v as nat)
    }
}

/// Whether `c` is a decimal digit.
pub open spec fn is_digit(c: char) -> bool {
    '0' <= c <= '9'
}

/// Whether `s` is one decimal digit or more.
pub open spec fn is_number(s: Seq<char>) -> bool {
    s.len() > 0 && forall|i: int| 0 <= i < s.len() ==> is_digit(#[trigger] s[i])
}

/// The number that the digits `s` stand for.
pub open spec fn number_value(s: Seq<char>) -> nat
    decreases s.len(),
{
    if s.len() == 0 {
        0
    } else {
        (number_value(s.drop_last()) * 10 + (s.last() as int - '0' as int)) as nat
    }
}

/// The number that `s` stands for, if it is a number with or without a minus
/// sign in front.
pub open spec fn signed_value(s: Seq<char>) -> Option<int> {
    if s.len() > 0 && s[0] == '-' {
        if is_number(s.skip(1)) {
            Some(-(number_value(s.skip(1)) as int))
        } else {
            None
        }
    } else if is_number(s) {
        Some(number_value(s) as int)
    } else {
        None
    }
}

/// Puts the decimal digits of `n` at the end of `out`.
pub fn push_digits(out: &mut Vec<u8>, n: u64)
    ensures
        final(out)@ == old(out)@ + digits(n as nat),
    decreases n,
{
    if n >= 10 {
        push_digits(out, n / 10);
    }
    let d: u8 = (n % 10) as u8;
    out.push('0' as u8 + d);
    assert(out@ =~= old(out)@ + digits(n as nat));
}

/// Puts the decimal form of `v` at the end of `out`.
pub fn push_signed(out: &mut Vec<u8>, v: i32)
    ensures
        final(out)@ == old(out)@ + signed_digits(v as int),
{
    if v < 0 {
        out.push('-' as u8);
        let magnitude: u64 = (-(v as i64)) as u64;
        push_digits(out, magnitude);
        assert(out@ =~= old(out)@ + signed_digits(v as int));
    } else {
        push_digits(out, v as u64);
    }
}

/// The number that `chars[from..]` stands for, if it is a number that fits.
pub fn parse_digits(chars: &Vec<char>, from: usize) -> (res: Option<u64>)
    requires
        from <= chars@.len(),
    ensures
        res == if is_number(chars@.skip(from as int)) && number_value(chars@.skip(from as int))
            <= u64::MAX {
            Some(number_value(chars@.skip(from as int)) as u64)
        } else {
            None
        },
{
    let ghost s = chars@.skip(from as int);
    if from == chars.len() {
        return None;
    }
    let mut value: u64 = 0;
    let mut i: usize = from;
    while i < chars.len()
        invariant
            from <= i <= chars@.len(),
            s == chars@.skip(from as int),
            is_number(s.take(i - from)) || i == from,
            value == number_value(s.take(i - from)),
        decreases chars@.len() - i,
    {
        let c = chars[i];
        proof {
            assert(s.take(i + 1 - from).drop_last() =~= s.take(i - from));
            assert(s.take(i + 1 - from).last() == c);
            assert(s[i - from] == c);
        }
        if !(c >= '0' && c <= '9') {
            return None;
        }
        let d: u64 = (c as u32 - '0' as u32) as u64;
        proof {
            if is_number(s) {
                lemma_value_grows(s, i + 1 - from);
            }
        }
        if value > (u64::MAX - d) / 10 {
            return None;
        }
        value = value * 10 + d;
        proof {
            assert forall|k: int| 0 <= k < i + 1 - from implies is_digit(
                #[trigger] s.take(i + 1 - from)[k],
            ) by {
                if k < i - from {
                    assert(s.take(i - from)[k] == s[k]);
                }
            }
        }
        i += 1;
    }
    assert(s.take(i - from) =~= s);
    Some(value)
}

/// The number a string of digits stands for is no smaller than the number
/// any of its prefixes stands for.
pub proof fn lemma_value_grows(s: Seq<char>, k: int)
    requires
        0 <= k <= s.len(),
        forall|i: int| k <= i < s.len() ==> is_digit(#[trigger] s[i]),
    ensures
        number_value(s.take(k)) <= number_value(s),
    decreases s.len(),
{
    if k == s.len() {
        assert(s.take(k) =~= s);
    } else {
        assert(s.drop_last().take(k) =~= s.take(k));
        lemma_value_grows(s.drop_last(), k);
        assert(is_digit(s[s.len() - 1]));
    }
}

/// The signed number that `chars` stands for, if it is one that fits.
pub fn parse_signed(chars: &Vec<char>) -> (res: Option<i32>)
    ensures
        res == match signed_value(chars@) {
            Some(v) => if i32::MIN <= v <= i32::MAX {
                Some(v as i32)
            } else {
                None
            },
            None => None,
        },
{
    if chars.len() > 0 && chars[0] == '-' {
        match parse_digits(chars, 1) {
            Some(m) => if m <= 2147483648 {
                Some((-(m as i64)) as i32)
            } else {
                None
            },
            None => {
                proof {
                    if is_number(chars@.skip(1)) {
                        assert(number_value(chars@.skip(1)) > u64::MAX);
                    }
                }
                None
            },
        }
    } else {
        assert(chars@.skip(0) =~= chars@);
        match parse_digits(chars, 0) {
            Some(m) => if m <= 2147483647 {
                Some(m as i32)
            } else {
                None
            },
            None => None,
        }
    }
}

/// The unsigned number that `chars` stands for, if it is one that fits.
pub fn parse_unsigned(chars: &Vec<char>) -> (res: Option<u64>)
    ensures
        res == if is_number(chars@) && number_value(chars@) <= u64::MAX {
            Some(number_value(chars@) as u64)
        } else {
            None
        },
{
    assert(chars@.skip(0) =~= chars@);
    parse_digits(chars, 0)
}

/// The characters that the decimal digits of `n` are read as.
pub open spec fn digit_chars(n: nat) -> Seq<char> {
    Seq::new(digits(n).len(), |i: int| digits(n)[i] as char)
}

/// The digits of a number are digits, and stand for the number.
pub proof fn lemma_digits_value(n: nat)
    ensures
        digits(n).len() > 0,
        is_number(digit_chars(n)),
        number_value(digit_chars(n)) == n,
        forall|i: int| 0 <= i < digits(n).len() ==> '0' as u8 <= #[trigger] digits(n)[i] <= '9' as u8,
    decreases n,
{
    if n < 10 {
        assert(digit_chars(n).drop_last() =~= Seq::<char>::empty());
        assert(number_value(Seq::<char>::empty()) == 0);
        assert(digit_chars(n).last() == digits(n)[0] as char);
    } else {
        lemma_digits_value(n / 10);
        assert(digit_chars(n).drop_last() =~= digit_chars(n / 10));
        assert(digit_chars(n).last() == digit_byte((n % 10) as int) as char);
        assert forall|i: int| 0 <= i < digits(n).len() implies '0' as u8 <= #[trigger] digits(
            n,
        )[i] <= '9' as u8 by {
            if i < digits(n / 10).len() {
                assert(digits(n)[i] == digits(n / 10)[i]);
            }
        }
        assert forall|i: int| 0 <= i < digit_chars(n).len() implies is_digit(
            #[trigger] digit_chars(n)[i],
        ) by {
            assert('0' as u8 <= digits(n)[i] <= '9' as u8);
        }
    }
}

/// The characters that the decimal form of `v` is read as.
pub open spec fn signed_chars(v: int) -> Seq<char> {
    Seq::new(signed_digits(v).len(), |i: int| signed_digits(v)[i] as char)
}

/// The decimal form of a number stands for the number.
pub proof fn lemma_signed_value(v: int)
    ensures
        signed_value(signed_chars(v)) == Some(v),
        forall|i: int|
            0 <= i < signed_digits(v).len() ==> (#[trigger] signed_digits(v)[i]) < 0x80
                && signed_digits(v)[i] != 0x0a,
{
    if v < 0 {
        lemma_digits_value((-v) as nat);
        assert(signed_chars(v).skip(1) =~= digit_chars((-v) as nat));
        assert(signed_chars(v)[0] == '-');
    } else {
        lemma_digits_value(v as nat);
        assert(signed_chars(v) =~= digit_chars(v as nat));
        assert(signed_chars(v)[0] != '-') by {
            assert('0' as u8 <= digits(v as nat)[0] <= '9' as u8);
        }
    }
    assert forall|i: int| 0 <= i < signed_digits(v).len() implies (#[trigger] signed_digits(
        v,
    )[i]) < 0x80 && signed_digits(v)[i] != 0x0a by {
        if v < 0 {
            if i > 0 {
                assert('0' as u8 <= digits((-v) as nat)[i - 1] <= '9' as u8);
            }
        } else {
            assert('0' as u8 <= digits(v as nat)[i] <= '9' as u8);
        }
    }
}

} // verus!
