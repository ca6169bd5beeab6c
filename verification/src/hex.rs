//! Hexadecimal digits.

use vstd::prelude::*;

verus! {

/// Whether `c` is one of `0`-`9`, `a`-`f` or `A`-`F`.
pub open spec fn is_hex_digit(c: char) -> bool {
    ||| '0' <= c <= '9'
    ||| 'a' <= c <= 'f'
    ||| 'A' <= c <= 'F'
}

/// The number that a hexadecimal digit stands for: `0`-`9` for themselves,
/// the letters for ten to fifteen, in either case.
pub open spec fn hex_digit_value(c: char) -> int
    recommends
        is_hex_digit(c),
{
    if '0' <= c <= '9' {
        c as int - '0' as int
    } else if 'a' <= c <= 'f' {
        c as int - 'a' as int + 10
    } else {
        c as int - 'A' as int + 10
    }
}

/// Decodes one hexadecimal digit; `None` for any other character.
pub fn hex_value(c: char) -> (value: Option<u8>)
    ensures
        value is Some <==> is_hex_digit(c),
        value matches Some(v) ==> v == hex_digit_value(c) && v < 16,
{
    if '0' <= c && c <= '9' {
        Some((c as u32 - '0' as u32) as u8)
    } else if 'a' <= c && c <= 'f' {
        Some((c as u32 - 'a' as u32 + 10) as u8)
    } else if 'A' <= c && c <= 'F' {
        Some((c as u32 - 'A' as u32 + 10) as u8)
    } else {
        None
    }
}

/// A hexadecimal digit stands for a number below sixteen, and a small letter
/// for the same number as its capital.
pub proof fn lemma_hex_digit_value(c: char)
    requires
        is_hex_digit(c),
    ensures
        0 <= hex_digit_value(c) < 16,
        'a' <= c <= 'f' ==> hex_digit_value(c) == hex_digit_value(
            (c as int - 'a' as int + 'A' as int) as char,
        ),
{
}

} // verus!
