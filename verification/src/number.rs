//! Decimal numbers in text.

use vstd::prelude::*;

verus! {

/// Whether `c` is one of the digits `0` to `9`.
pub open spec fn is_digit(c: char) -> bool {
    0x30 <= c as u32 <= 0x39
}

/// The number that the digit `c` stands for.
pub open spec fn digit_of(c: char) -> nat {
    (c as u32 - 0x30) as nat
}

/// Whether `s` holds digits only.
pub open spec fn all_digits(s: Seq<char>) -> bool {
    forall|i: int| 0 <= i < s.len() ==> is_digit(#[trigger] s[i])
}

/// The number that the digits of `s` write in base ten.
pub open spec fn digits_value(s: Seq<char>) -> nat
    decreases s.len(),
{
    if s.len() == 0 {
        0
    } else {
        digits_value(s.drop_last()) * 10 + digit_of(s.last())
    }
}

/// What follows the sign of a number: all of `s` where it has none.
pub open spec fn after_sign(s: Seq<char>, minus: bool) -> Seq<char> {
    if s.len() > 0 && (s[0] == '+' || (minus && s[0] == '-')) {
        s.drop_first()
    } else {
        s
    }
}

/// The number that `s` writes as an optional `+` and one or more digits, where
/// it fits in 16 bits.
pub open spec fn parse_u16(s: Seq<char>) -> Option<u16> {
    let d = after_sign(s, false);
    if d.len() > 0 && all_digits(d) && digits_value(d) <= u16::MAX {
        Some(digits_value(d) as u16)
    } else {
        None
    }
}

/// The number that `s` writes as an optional `+` or `-` and one or more
/// digits, where it fits in 32 bits with a sign.
pub open spec fn parse_i32(s: Seq<char>) -> Option<i32> {
    let d = after_sign(s, true);
    let v = if s.len() > 0 && s[0] == '-' {
        -(digits_value(d) as int)
    } else {
        digits_value(d) as int
    };
    if d.len() > 0 && all_digits(d) && i32::MIN <= v <= i32::MAX {
        Some(v as i32)
    } else {
        None
    }
}

/// What a run of characters turned out to be when read as digits.
enum Digits {
    /// Empty, or something other than a digit is in it.
    Invalid,
    /// Digits that write a number above the limit.
    Over,
    /// Digits that write this number.
    Value(u64),
}

/// Reads `s` from index `start` on as digits that write a number up to `cap`.
fn read_digits(s: &Vec<char>, start: usize, cap: u64) -> (r: Digits)
    requires
        start <= s.len(),
        cap <= 0xffff_ffff_ffff,
    ensures
        ({
            let d = s@.skip(start as int);
            match r {
                Digits::Invalid => !(d.len() > 0 && all_digits(d)),
                Digits::Over => d.len() > 0 && all_digits(d) && digits_value(d) > cap,
                Digits::Value(v) => d.len() > 0 && all_digits(d) && digits_value(d) == v && v
                    <= cap,
            }
        }),
{
    let ghost d = s@.skip(start as int);
    if start == s.len() {
        return Digits::Invalid;
    }
    let mut acc: u64 = 0;
    let mut over = false;
    let mut i: usize = start;
    assert(d.take(0) == Seq::<char>::empty());
    while i < s.len()
        invariant
            start <= i <= s.len(),
            cap <= 0xffff_ffff_ffff,
            d == s@.skip(start as int),
            all_digits(d.take(i - start)),
            !over ==> acc == digits_value(d.take(i - start)) && acc <= cap,
            over ==> digits_value(d.take(i - start)) > cap,
        decreases s.len() - i,
    {
        let n: u32 = s[i] as u32;
        if !(0x30 <= n && n <= 0x39) {
            assert(!is_digit(d[i - start]));
            return Digits::Invalid;
        }
        proof {
            let next = d.take(i + 1 - start);
            assert(next.drop_last() == d.take(i - start));
            assert(next.last() == s@[i as int]);
            assert forall|j: int| 0 <= j < next.len() implies is_digit(#[trigger] next[j]) by {
                if j < next.len() - 1 {
                    assert(next[j] == d.take(i - start)[j]);
                }
            }
        }
        if !over {
            let v: u64 = acc * 10 + (n - 0x30) as u64;
            if v > cap {
                over = true;
            } else {
                acc = v;
            }
        }
        i += 1;
    }
    assert(d.take(s.len() - start) == d);
    if over {
        Digits::Over
    } else {
        Digits::Value(acc)
    }
}

/// The number that `s` writes, as `parse_u16` reads it.
pub fn read_u16(s: &Vec<char>) -> (r: Option<u16>)
    ensures
        r == parse_u16(s@),
{
    let start: usize = if s.len() > 0 && s[0] == '+' {
        1
    } else {
        0
    };
    assert(s@.skip(start as int) == after_sign(s@, false));
    match read_digits(s, start, 0xffff) {
        Digits::Value(v) => Some(v as u16),
        _ => None,
    }
}

/// The number that `s` writes, as `parse_i32` reads it.
pub fn read_i32(s: &Vec<char>) -> (r: Option<i32>)
    ensures
        r == parse_i32(s@),
{
    let minus = s.len() > 0 && s[0] == '-';
    let start: usize = if s.len() > 0 && (s[0] == '+' || s[0] == '-') {
        1
    } else {
        0
    };
    assert(s@.skip(start as int) == after_sign(s@, true));
    match read_digits(s, start, 0x8000_0000) {
        Digits::Value(v) => {
            if minus {
                Some((0 - (v as i64)) as i32)
            } else if v <= 0x7fff_ffff {
                Some(v as i32)
            } else {
                None
            }
        },
        _ => None,
    }
}

/// The character that writes the digit `d`.
pub open spec fn digit_char(d: nat) -> char {
    (0x30 + d) as char
}

/// `n` written in base ten, with no leading zero but for zero itself.
pub open spec fn decimal(n: nat) -> Seq<char>
    decreases n,
{
    if n < 10 {
        seq![digit_char(n)]
    } else {
        decimal(n / 10).push(digit_char(n % 10))
    }
}

/// Appends `n`, written in base ten, to `out`.
pub fn push_decimal(out: &mut Vec<char>, n: u64)
    ensures
        final(out)@ == old(out)@ + decimal(n as nat),
    decreases n,
{
    if n >= 10 {
        push_decimal(out, n / 10);
    }
    let d: u8 = (n % 10) as u8;
    let c: char = (0x30 + d) as char;
    assert(c == digit_char((n % 10) as nat));
    out.push(c);
    proof {
        if n < 10 {
            assert(out@ == old(out)@ + decimal(n as nat));
        } else {
            assert(out@ == old(out)@ + decimal(n as nat));
        }
    }
}


/// A number written in base ten is made of digits that write the number.
pub proof fn lemma_decimal_digits(n: nat)
    ensures
        decimal(n).len() > 0,
        all_digits(decimal(n)),
        digits_value(decimal(n)) == n,
        decimal(n)[0] != '+',
        decimal(n)[0] != '-',
    decreases n,
{
    if n < 10 {
        let d = decimal(n);
        assert(d.len() == 1);
        assert(d[0] == digit_char(n));
        assert(d.drop_last() == Seq::<char>::empty());
        assert(digits_value(d.drop_last()) == 0);
    } else {
        lemma_decimal_digits(n / 10);
        let init = decimal(n / 10);
        let d = decimal(n);
        assert(d == init.push(digit_char(n % 10)));
        assert(d.drop_last() == init);
        assert(d[0] == init[0]);
        assert forall|i: int| 0 <= i < d.len() implies is_digit(#[trigger] d[i]) by {
            if i < init.len() {
                assert(d[i] == init[i]);
            }
        }
    }
}

/// A port written in base ten reads back as the port.
pub proof fn lemma_port_round_trip(p: u16)
    ensures
        parse_u16(decimal(p as nat)) == Some(p),
{
    lemma_decimal_digits(p as nat);
}

/// A number written in base ten reads back as the number, with a minus sign
/// before it as its negative.
pub proof fn lemma_i32_round_trip(v: i32)
    ensures
        v >= 0 ==> parse_i32(decimal(v as nat)) == Some(v),
        v < 0 ==> parse_i32(seq!['-'] + decimal((-v) as nat)) == Some(v),
{
    if v >= 0 {
        lemma_decimal_digits(v as nat);
    } else {
        let d = decimal((-v) as nat);
        lemma_decimal_digits((-v) as nat);
        let s = seq!['-'] + d;
        assert(s[0] == '-');
        assert(s.drop_first() == d);
    }
}

} // verus!
