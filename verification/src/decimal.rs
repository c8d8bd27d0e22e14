//! Reading unsigned decimal numbers: an optional `+`, then one or more
//! ASCII digits, and nothing else.

use vstd::prelude::*;
use vstd::string::StringExecFns;

verus! {

/// The number that the first `n` digits spell.
pub open spec fn digits_value(s: Seq<u8>, n: int) -> int
    decreases n,
{
    if n <= 0 {
        0
    } else {
        digits_value(s, n - 1) * 10 + (s[n - 1] - 0x30)
    }
}

/// Every byte is an ASCII digit.
pub open spec fn all_digits(s: Seq<u8>) -> bool {
    forall|i: int| 0 <= i < s.len() ==> 0x30 <= #[trigger] s[i] <= 0x39
}

/// The text without a leading `+`.
pub open spec fn unsigned_part(s: Seq<u8>) -> Seq<u8> {
    if s.len() > 0 && s[0] == 0x2b {
        s.subrange(1, s.len() as int)
    } else {
        s
    }
}

/// The number that a text spells, if it spells one.
pub open spec fn decimal(s: Seq<u8>) -> Option<int> {
    let digits = unsigned_part(s);
    if digits.len() > 0 && all_digits(digits) {
        Some(digits_value(digits, digits.len() as int))
    } else {
        None
    }
}

/// The number that a text spells, if it spells one of at most `max`.
pub open spec fn decimal_up_to(s: Seq<u8>, max: int) -> Option<int> {
    match decimal(s) {
        Some(value) => if value <= max {
            Some(value)
        } else {
            None
        },
        None => None,
    }
}

/// More digits never spell a smaller number.
pub proof fn lemma_digits_value_grows(s: Seq<u8>, m: int, n: int)
    requires
        0 <= m <= n <= s.len(),
        all_digits(s),
    ensures
        0 <= digits_value(s, m) <= digits_value(s, n),
    decreases n,
{
    if n > 0 {
        if m < n {
            lemma_digits_value_grows(s, m, n - 1);
            assert(0x30 <= s[n - 1] <= 0x39);
        } else {
            lemma_digits_value_grows(s, m - 1, n - 1);
            assert(0x30 <= s[n - 1] <= 0x39);
        }
    }
}

/// Read a decimal number of at most `max`.
fn parse_up_to(s: &[u8], max: u64) -> (value: Option<u64>)
    requires
        max <= u32::MAX,
    ensures
        match value {
            Some(v) => decimal_up_to(s@, max as int) == Some(v as int),
            None => decimal_up_to(s@, max as int) is None,
        },
{
    let len = s.len();
    let start: usize = if len > 0 && s[0] == 0x2b {
        1
    } else {
        0
    };
    if start == len {
        return None;
    }
    let ghost digits = unsigned_part(s@);
    assert(digits =~= s@.subrange(start as int, len as int));
    let mut value: u64 = 0;
    let mut i: usize = start;
    while i < len
        invariant
            start <= i <= len,
            len == s@.len(),
            max <= u32::MAX,
            digits == s@.subrange(start as int, len as int),
            digits == unsigned_part(s@),
            forall|k: int| 0 <= k < i - start ==> 0x30 <= #[trigger] digits[k] <= 0x39,
            value == digits_value(digits, i - start),
            value <= max,
        decreases len - i,
    {
        let b = s[i];
        if b < 0x30 || b > 0x39 {
            assert(digits[i - start] == b);
            return None;
        }
        assert(digits[i - start] == b);
        let next = value * 10 + (b - 0x30) as u64;
        if next > max {
            proof {
                assert(next == digits_value(digits, i - start + 1));
                if all_digits(digits) {
                    lemma_digits_value_grows(digits, i - start + 1, digits.len() as int);
                }
            }
            return None;
        }
        value = next;
        i = i + 1;
    }
    assert(all_digits(digits));
    Some(value)
}

/// Read a `u32` as `str::parse` does: an optional `+` and digits, no
/// white space, no sign alone, no number above `u32::MAX`.
pub fn parse_u32(s: &[u8]) -> (value: Option<u32>)
    ensures
        match value {
            Some(v) => decimal_up_to(s@, u32::MAX as int) == Some(v as int),
            None => decimal_up_to(s@, u32::MAX as int) is None,
        },
{
    match parse_up_to(s, 0xffff_ffff) {
        Some(v) => Some(v as u32),
        None => None,
    }
}

/// Read a `u16` as `str::parse` does.
pub fn parse_u16(s: &[u8]) -> (value: Option<u16>)
    ensures
        match value {
            Some(v) => decimal_up_to(s@, u16::MAX as int) == Some(v as int),
            None => decimal_up_to(s@, u16::MAX as int) is None,
        },
{
    match parse_up_to(s, 0xffff) {
        Some(v) => Some(v as u16),
        None => None,
    }
}

/// The character of a decimal digit.
pub open spec fn digit_char(digit: int) -> char {
    if digit == 0 {
        '0'
    } else if digit == 1 {
        '1'
    } else if digit == 2 {
        '2'
    } else if digit == 3 {
        '3'
    } else if digit == 4 {
        '4'
    } else if digit == 5 {
        '5'
    } else if digit == 6 {
        '6'
    } else if digit == 7 {
        '7'
    } else if digit == 8 {
        '8'
    } else {
        '9'
    }
}

/// A number written in decimal digits, without leading zeros.
pub open spec fn decimal_text(n: nat) -> Seq<char>
    decreases n,
{
    if n < 10 {
        seq![digit_char(n as int)]
    } else {
        decimal_text(n / 10).push(digit_char((n % 10) as int))
    }
}

/// The text of one decimal digit.
fn digit_text(digit: u64) -> (text: &'static str)
    requires
        digit < 10,
    ensures
        text@ == seq![digit_char(digit as int)],
{
    proof {
        reveal_strlit("0");
        reveal_strlit("1");
        reveal_strlit("2");
        reveal_strlit("3");
        reveal_strlit("4");
        reveal_strlit("5");
        reveal_strlit("6");
        reveal_strlit("7");
        reveal_strlit("8");
        reveal_strlit("9");
    }
    let text = if digit == 0 {
        "0"
    } else if digit == 1 {
        "1"
    } else if digit == 2 {
        "2"
    } else if digit == 3 {
        "3"
    } else if digit == 4 {
        "4"
    } else if digit == 5 {
        "5"
    } else if digit == 6 {
        "6"
    } else if digit == 7 {
        "7"
    } else if digit == 8 {
        "8"
    } else {
        "9"
    };
    assert(text@ =~= seq![digit_char(digit as int)]);
    text
}

/// Append a number in decimal digits to a text.
pub fn write_decimal(out: &mut String, n: u64)
    ensures
        final(out)@ == old(out)@ + decimal_text(n as nat),
    decreases n,
{
    if n >= 10 {
        write_decimal(out, n / 10);
    }
    out.append(digit_text(n % 10));
    assert(out@ =~= old(out)@ + decimal_text(n as nat));
}

} // verus!
