//! Decimal and hexadecimal numbers as they stand in text.

use vstd::prelude::*;

verus! {

/// `b` is one of the ASCII digits `0` to `9`.
pub open spec fn is_digit(b: u8) -> bool {
    48 <= b <= 57
}

/// How many digits stand at the front of `s` before anything else.
pub open spec fn digit_run(s: Seq<u8>) -> int
    decreases s.len(),
{
    if s.len() == 0 || !is_digit(s[0]) {
        0
    } else {
        1 + digit_run(s.drop_first())
    }
}

/// `s` holds digits and nothing else.
pub open spec fn all_digits(s: Seq<u8>) -> bool {
    digit_run(s) == s.len()
}

/// The number that the digits `s` write in base ten.
pub open spec fn decimal_value(s: Seq<u8>) -> int
    decreases s.len(),
{
    if s.len() == 0 {
        0
    } else {
        decimal_value(s.drop_last()) * 10 + (s.last() - 48)
    }
}

/// The number that `s` writes, if `s` is a run of digits whose value fits
/// into 64 bits.
pub open spec fn spec_parse_u64(s: Seq<u8>) -> Option<u64> {
    if s.len() > 0 && all_digits(s) && decimal_value(s) <= u64::MAX {
        Some(decimal_value(s) as u64)
    } else {
        None
    }
}

/// Reads the run of digits that starts at `from`: where it ends, and the
/// number it writes, or `None` for one that does not fit into 64 bits.
pub fn scan_digits(bytes: &[u8], from: usize) -> (found: (usize, Option<u64>))
    requires
        from <= bytes@.len(),
    ensures
        found.0 == from + digit_run(bytes@.skip(from as int)),
        from <= found.0 <= bytes@.len(),
        0 <= decimal_value(bytes@.subrange(from as int, found.0 as int)),
        found.1 == if decimal_value(bytes@.subrange(from as int, found.0 as int)) <= u64::MAX {
            Some(decimal_value(bytes@.subrange(from as int, found.0 as int)) as u64)
        } else {
            None::<u64>
        },
{
    let n: usize = bytes.len();
    let mut i: usize = from;
    let mut value: Option<u64> = Some(0);
    assert(bytes@.subrange(from as int, from as int).len() == 0);
    while i < n && bytes[i] >= 48 && bytes[i] <= 57
        invariant
            n == bytes@.len(),
            from <= i <= n,
            digit_run(bytes@.skip(from as int)) == (i - from) + digit_run(bytes@.skip(i as int)),
            0 <= decimal_value(bytes@.subrange(from as int, i as int)),
            value == if decimal_value(bytes@.subrange(from as int, i as int)) <= u64::MAX {
                Some(decimal_value(bytes@.subrange(from as int, i as int)) as u64)
            } else {
                None::<u64>
            },
        decreases n - i,
    {
        let digit: u64 = (bytes[i] - 48) as u64;
        proof {
            let here = bytes@.skip(i as int);
            assert(here[0] == bytes@[i as int]);
            assert(here.drop_first() =~= bytes@.skip(i + 1));
            let longer = bytes@.subrange(from as int, i + 1);
            assert(longer.drop_last() =~= bytes@.subrange(from as int, i as int));
            assert(longer.last() == bytes@[i as int]);
        }
        value = match value {
            Some(v) => match v.checked_mul(10) {
                Some(tens) => tens.checked_add(digit),
                None => None,
            },
            None => None,
        };
        i = i + 1;
    }
    proof {
        let here = bytes@.skip(i as int);
        if i < n {
            assert(here[0] == bytes@[i as int]);
        }
    }
    (i, value)
}

/// Reads `bytes` as a decimal number: one or more digits and nothing else,
/// with a value that fits into 64 bits.
pub fn parse_u64(bytes: &[u8]) -> (value: Option<u64>)
    ensures
        value == spec_parse_u64(bytes@),
{
    let (end, value) = scan_digits(bytes, 0);
    proof {
        assert(bytes@.skip(0) =~= bytes@);
        if end == bytes@.len() {
            assert(bytes@.subrange(0, end as int) =~= bytes@);
        }
    }
    if end == bytes.len() && end > 0 {
        value
    } else {
        None
    }
}

/// The character that writes the digit `d`.
pub open spec fn digit_char(d: int) -> char {
    if d == 0 {
        '0'
    } else if d == 1 {
        '1'
    } else if d == 2 {
        '2'
    } else if d == 3 {
        '3'
    } else if d == 4 {
        '4'
    } else if d == 5 {
        '5'
    } else if d == 6 {
        '6'
    } else if d == 7 {
        '7'
    } else if d == 8 {
        '8'
    } else {
        '9'
    }
}

/// The digits of `n` in base ten, the highest place first and without
/// leading zeros; a lone `0` for zero.
pub open spec fn decimal_text(n: nat) -> Seq<char>
    decreases n,
{
    if n < 10 {
        seq![digit_char(n as int)]
    } else {
        decimal_text(n / 10).push(digit_char((n % 10) as int))
    }
}

/// The text of one digit.
fn digit_str(d: u64) -> (s: &'static str)
    requires
        d < 10,
    ensures
        s@ == seq![digit_char(d as int)],
{
    proof {
        reveal_strlit("0");
        reveal_strlit("1");
        reveal_strlit("2");
        reveal_strlit("3");
        reveal_strlit("4");
        reveal_strlit("5");
        reveal_strlit("6");
        reveal_strlit("7");
        reveal_strlit("8");
        reveal_strlit("9");
    }
    let s = if d == 0 {
        "0"
    } else if d == 1 {
        "1"
    } else if d == 2 {
        "2"
    } else if d == 3 {
        "3"
    } else if d == 4 {
        "4"
    } else if d == 5 {
        "5"
    } else if d == 6 {
        "6"
    } else if d == 7 {
        "7"
    } else if d == 8 {
        "8"
    } else {
        "9"
    };
    assert(s@ =~= seq![digit_char(d as int)]);
    s
}

/// Writes `n` in base ten behind what `out` holds.
pub fn push_decimal(out: &mut String, n: u64)
    ensures
        final(out)@ == old(out)@ + decimal_text(n as nat),
    decreases n,
{
    if n >= 10 {
        push_decimal(out, n / 10);
    }
    out.append(digit_str(n % 10));
}

/// The value of a hexadecimal digit in either case, or `None` for any other
/// byte.
pub open spec fn hex_value(b: u8) -> Option<int> {
    if 48 <= b <= 57 {
        Some(b - 48)
    } else if 97 <= b <= 102 {
        Some(b - 87)
    } else if 65 <= b <= 70 {
        Some(b - 55)
    } else {
        None
    }
}

/// Reads one hexadecimal digit.
pub fn hex_digit(b: u8) -> (value: Option<u8>)
    ensures
        match value {
            Some(v) => hex_value(b) == Some(v as int) && v < 16,
            None => hex_value(b) is None,
        },
{
    if b >= 48 && b <= 57 {
        Some(b - 48)
    } else if b >= 97 && b <= 102 {
        Some(b - 87)
    } else if b >= 65 && b <= 70 {
        Some(b - 55)
    } else {
        None
    }
}

/// The byte that two hexadecimal digits write, the high one first.
pub open spec fn hex_pair(high: u8, low: u8) -> Option<u8> {
    if hex_value(high) is Some && hex_value(low) is Some {
        Some((hex_value(high).unwrap() * 16 + hex_value(low).unwrap()) as u8)
    } else {
        None
    }
}

/// Reads two hexadecimal digits as one byte.
pub fn parse_hex_pair(high: u8, low: u8) -> (value: Option<u8>)
    ensures
        value == hex_pair(high, low),
{
    match (hex_digit(high), hex_digit(low)) {
        (Some(h), Some(l)) => Some(h * 16 + l),
        _ => None,
    }
}

} // verus!
