//! Hardware addresses in their written form: twelve hexadecimal digits, with
//! colons or hyphens between them wherever the writer likes.

use crate::hex::{hex_digit_value, hex_value, is_hex_digit};
use vstd::prelude::*;

verus! {

/// The number of bytes in a hardware address.
pub const ADDRESS_LEN: usize = 6;

/// The number of hexadecimal digits that a written address holds.
pub const DIGIT_COUNT: usize = 12;

/// A hardware address, its bytes in the order in which they are written.
pub type HardwareAddress = [u8; ADDRESS_LEN];

/// Why a written address was rejected.
#[derive(Clone, Copy, Debug, PartialEq, Eq)]
pub enum AddressFormatError {
    /// Without its separators the text is not twelve characters long.
    InvalidLength,
    /// A pair of characters does not spell a byte in hexadecimal. The pair is
    /// given as it stood in the text: `high` came first.
    InvalidDigit { high: char, low: char },
}

/// Whether `c` is one of the two characters that may stand between the digits
/// of a written address.
pub open spec fn is_separator(c: char) -> bool {
    c == ':' || c == '-'
}

/// What is left of `s` once every separator is taken out.
pub open spec fn strip_separators(s: Seq<char>) -> Seq<char> {
    s.filter(|c: char| !is_separator(c))
}

/// Whether every character of `digits` is a hexadecimal digit.
pub open spec fn all_hex(digits: Seq<char>) -> bool {
    forall|k: int| 0 <= k < digits.len() ==> is_hex_digit(#[trigger] digits[k])
}

/// Whether `text` is a written address: twelve hexadecimal digits and, among
/// them, any number of separators.
pub open spec fn is_written_address(text: Seq<char>) -> bool {
    strip_separators(text).len() == DIGIT_COUNT && all_hex(strip_separators(text))
}

/// Whether both characters of the pair at `index` are hexadecimal digits.
/// Pair `index` is made of the characters `2 * index` and `2 * index + 1`.
pub open spec fn pair_is_hex(digits: Seq<char>, index: int) -> bool {
    is_hex_digit(digits[2 * index]) && is_hex_digit(digits[2 * index + 1])
}

/// The byte that the pair at `index` spells, its first character being the
/// more significant one.
pub open spec fn pair_value(digits: Seq<char>, index: int) -> int {
    16 * hex_digit_value(digits[2 * index]) + hex_digit_value(digits[2 * index + 1])
}

/// The index of the first pair from `from` on that is not hexadecimal, or
/// `ADDRESS_LEN` if there is none.
pub open spec fn first_invalid_pair(digits: Seq<char>, from: int) -> int
    decreases ADDRESS_LEN - from,
{
    if from >= ADDRESS_LEN {
        ADDRESS_LEN as int
    } else if !pair_is_hex(digits, from) {
        from
    } else {
        first_invalid_pair(digits, from + 1)
    }
}

/// The six bytes that twelve hexadecimal digits spell, in the order of the
/// pairs.
pub open spec fn decoded(digits: Seq<char>) -> Seq<u8> {
    Seq::new(ADDRESS_LEN as nat, |i: int| pair_value(digits, i) as u8)
}

/// What parsing `text` gives: the address, or the reason for which the text is
/// no address. The length is judged first, then the pairs from left to right.
pub open spec fn parsed_address(text: Seq<char>) -> Result<Seq<u8>, AddressFormatError> {
    let digits = strip_separators(text);
    let bad = first_invalid_pair(digits, 0);
    if digits.len() != DIGIT_COUNT {
        Err(AddressFormatError::InvalidLength)
    } else if bad < ADDRESS_LEN {
        Err(AddressFormatError::InvalidDigit { high: digits[2 * bad], low: digits[2 * bad + 1] })
    } else {
        Ok(decoded(digits))
    }
}

/// Twelve digits written as six pairs with `separator` between one pair and
/// the next, as in `01:23:45:67:89:AB`.
pub open spec fn delimited(digits: Seq<char>, separator: char) -> Seq<char> {
    digits.subrange(0, 2).push(separator) + digits.subrange(2, 4).push(separator)
        + digits.subrange(4, 6).push(separator) + digits.subrange(6, 8).push(separator)
        + digits.subrange(8, 10).push(separator) + digits.subrange(10, 12)
}

impl AddressFormatError {
    /// The sentence that tells a user what was wrong. For a bad digit it ends
    /// with the pair that was found.
    pub open spec fn message_text(self) -> Seq<char> {
        match self {
            AddressFormatError::InvalidLength => "Invalid MAC address length"@,
            AddressFormatError::InvalidDigit { high, low } => {
                "MAC address contains an invalid hexadecimal digit "@.push(high).push(low)
            },
        }
    }

    /// The error as a sentence for the user.
    pub fn message(&self) -> (text: String)
        ensures
            text@ == self.message_text(),
    {
        match *self {
            AddressFormatError::InvalidLength => String::from_str("Invalid MAC address length"),
            AddressFormatError::InvalidDigit { high, low } => {
                let mut text = String::from_str(
                    "MAC address contains an invalid hexadecimal digit ",
                );
                text.push(high);
                text.push(low);
                text
            },
        }
    }
}

/// The characters of `text` other than separators, in their order.
pub fn without_separators(text: &str) -> (digits: Vec<char>)
    ensures
        digits@ == strip_separators(text@),
{
    let mut digits: Vec<char> = Vec::new();
    proof {
        reveal(Seq::filter);
        assert(text@.take(0) =~= Seq::<char>::empty());
    }
    for c in it: text.chars()
        invariant
            it.seq() == text@,
            digits@ == strip_separators(text@.take(it.index())),
    {
        proof {
            let i = it.index();
            assert(text@.take(i + 1) =~= text@.take(i).push(c));
            lemma_strip_push(text@.take(i), c);
        }
        if c != ':' && c != '-' {
            digits.push(c);
        }
    }
    assert(text@.take(text@.len() as int) =~= text@);
    digits
}

/// Parses a hardware address written as twelve hexadecimal digits, with
/// colons and hyphens allowed anywhere among them.
///
/// The text is accepted exactly when it is such an address. Otherwise the
/// error tells whether the number of characters other than separators was
/// wrong or, that number being right, which pair of them was the first not
/// to spell a byte.
pub fn parse_mac(mac: &str) -> (result: Result<HardwareAddress, AddressFormatError>)
    ensures
        match result {
            Ok(address) => parsed_address(mac@) == Ok::<Seq<u8>, AddressFormatError>(address@),
            Err(error) => parsed_address(mac@) == Err::<Seq<u8>, AddressFormatError>(error),
        },
        result is Ok <==> is_written_address(mac@),
        result matches Ok(address) ==> forall|i: int|
            0 <= i < ADDRESS_LEN ==> #[trigger] address@[i] == pair_value(
                strip_separators(mac@),
                i,
            ),
        (result matches Err(AddressFormatError::InvalidLength)) <==> strip_separators(mac@).len()
            != DIGIT_COUNT,
        (result matches Err(AddressFormatError::InvalidDigit { .. })) <==> {
            &&& strip_separators(mac@).len() == DIGIT_COUNT
            &&& !all_hex(strip_separators(mac@))
        },
{
    proof {
        lemma_accepted(mac@);
        lemma_rejected_for_length(mac@);
        lemma_rejected_for_digit(mac@);
    }
    let digits = without_separators(mac);
    if digits.len() != DIGIT_COUNT {
        return Err(AddressFormatError::InvalidLength);
    }
    let mut address: HardwareAddress = [0u8; ADDRESS_LEN];
    for i in 0..ADDRESS_LEN
        invariant
            digits@ == strip_separators(mac@),
            digits@.len() == DIGIT_COUNT,
            first_invalid_pair(digits@, 0) == first_invalid_pair(digits@, i as int),
            forall|j: int| 0 <= j < i ==> address@[j] == pair_value(digits@, j),
    {
        let high = digits[2 * i];
        let low = digits[2 * i + 1];
        match (hex_value(high), hex_value(low)) {
            (Some(h), Some(l)) => {
                address[i] = h * 16 + l;
            },
            _ => {
                return Err(AddressFormatError::InvalidDigit { high, low });
            },
        }
    }
    assert(address@ =~= decoded(digits@));
    Ok(address)
}

/// Stripping goes character by character: a separator at the end is dropped,
/// any other character is kept at the end.
pub proof fn lemma_strip_push(s: Seq<char>, c: char)
    ensures
        strip_separators(s.push(c)) == if is_separator(c) {
            strip_separators(s)
        } else {
            strip_separators(s).push(c)
        },
{
    reveal(Seq::filter);
    assert(s.push(c).drop_last() =~= s);
}

/// `first_invalid_pair` finds the least pair from `from` on that is not
/// hexadecimal: every pair before its result is hexadecimal, and the pair at
/// its result is not, unless the result is `ADDRESS_LEN`.
pub proof fn lemma_first_invalid_pair(digits: Seq<char>, from: int)
    requires
        0 <= from <= ADDRESS_LEN,
    ensures
        from <= first_invalid_pair(digits, from) <= ADDRESS_LEN,
        forall|j: int| from <= j < first_invalid_pair(digits, from) ==> pair_is_hex(digits, j),
        first_invalid_pair(digits, from) < ADDRESS_LEN ==> !pair_is_hex(
            digits,
            first_invalid_pair(digits, from),
        ),
    decreases ADDRESS_LEN - from,
{
    if from < ADDRESS_LEN && pair_is_hex(digits, from) {
        lemma_first_invalid_pair(digits, from + 1);
    }
}

/// A pair of hexadecimal digits spells a byte: its value lies below 256, and
/// it is the byte that `decoded` holds at the pair's index.
pub proof fn lemma_pair_is_byte(digits: Seq<char>, index: int)
    requires
        0 <= index < ADDRESS_LEN,
        pair_is_hex(digits, index),
    ensures
        0 <= pair_value(digits, index) < 256,
        decoded(digits)[index] == pair_value(digits, index),
{
}

/// A text is accepted exactly when twelve characters are left of it without
/// the separators and each of them is a hexadecimal digit. The address then
/// holds the values of the six pairs in their order.
pub proof fn lemma_accepted(text: Seq<char>)
    ensures
        parsed_address(text) is Ok <==> is_written_address(text),
        parsed_address(text) matches Ok(address) ==> {
            &&& address.len() == ADDRESS_LEN
            &&& forall|i: int|
                0 <= i < ADDRESS_LEN ==> #[trigger] address[i] == pair_value(
                    strip_separators(text),
                    i,
                )
        },
{
    let digits = strip_separators(text);
    lemma_first_invalid_pair(digits, 0);
    let bad = first_invalid_pair(digits, 0);
    if digits.len() == DIGIT_COUNT {
        if bad < ADDRESS_LEN {
            assert(!is_hex_digit(digits[2 * bad]) || !is_hex_digit(digits[2 * bad + 1]));
        } else {
            assert forall|k: int| 0 <= k < digits.len() implies is_hex_digit(
                #[trigger] digits[k],
            ) by {
                assert(pair_is_hex(digits, k / 2));
            }
            assert forall|i: int| 0 <= i < ADDRESS_LEN implies #[trigger] decoded(digits)[i]
                == pair_value(digits, i) by {
                assert(pair_is_hex(digits, i));
                lemma_pair_is_byte(digits, i);
            }
        }
    }
}

/// A text is rejected for its length exactly when the number of characters
/// left of it without the separators is not twelve, whatever they are.
pub proof fn lemma_rejected_for_length(text: Seq<char>)
    ensures
        parsed_address(text) == Err::<Seq<u8>, AddressFormatError>(
            AddressFormatError::InvalidLength,
        ) <==> strip_separators(text).len() != DIGIT_COUNT,
{
}

/// A text is rejected for a digit exactly when twelve characters are left of
/// it without the separators and one of them is no hexadecimal digit. The pair
/// reported is the first one that holds such a character, as it stood.
pub proof fn lemma_rejected_for_digit(text: Seq<char>)
    ensures
        (parsed_address(text) matches Err(AddressFormatError::InvalidDigit { .. })) <==> {
            &&& strip_separators(text).len() == DIGIT_COUNT
            &&& !all_hex(strip_separators(text))
        },
        parsed_address(text) matches Err(AddressFormatError::InvalidDigit { high, low }) ==> {
            let digits = strip_separators(text);
            let bad = first_invalid_pair(digits, 0);
            &&& 0 <= bad < ADDRESS_LEN
            &&& high == digits[2 * bad]
            &&& low == digits[2 * bad + 1]
            &&& !is_hex_digit(high) || !is_hex_digit(low)
            &&& all_hex(digits.take(2 * bad))
        },
{
    let digits = strip_separators(text);
    lemma_first_invalid_pair(digits, 0);
    lemma_accepted(text);
    let bad = first_invalid_pair(digits, 0);
    if digits.len() == DIGIT_COUNT && bad < ADDRESS_LEN {
        assert forall|k: int| 0 <= k < 2 * bad implies is_hex_digit(
            #[trigger] digits.take(2 * bad)[k],
        ) by {
            assert(pair_is_hex(digits, k / 2));
        }
    }
}

/// Stripping goes through a concatenation part by part.
pub proof fn lemma_strip_concat(a: Seq<char>, b: Seq<char>)
    ensures
        strip_separators(a + b) == strip_separators(a) + strip_separators(b),
{
}

/// A text that holds no separator is left as it is.
pub proof fn lemma_strip_nothing(s: Seq<char>)
    requires
        forall|k: int| 0 <= k < s.len() ==> !is_separator(#[trigger] s[k]),
    ensures
        strip_separators(s) == s,
    decreases s.len(),
{
    if s.len() > 0 {
        lemma_strip_nothing(s.drop_last());
        lemma_strip_push(s.drop_last(), s.last());
        assert(s.drop_last().push(s.last()) =~= s);
    } else {
        reveal(Seq::filter);
    }
}

/// Parsing looks at the digits alone: two texts that differ only in their
/// separators, wherever those stand, parse alike, and one text parses alike
/// every time.
pub proof fn lemma_separators_ignored(a: Seq<char>, b: Seq<char>)
    requires
        strip_separators(a) == strip_separators(b),
    ensures
        parsed_address(a) == parsed_address(b),
{
}

/// A separator put anywhere into a text changes nothing in what it parses
/// to.
pub proof fn lemma_separator_anywhere(text: Seq<char>, at: int, separator: char)
    requires
        0 <= at <= text.len(),
        is_separator(separator),
    ensures
        strip_separators(text.insert(at, separator)) == strip_separators(text),
        parsed_address(text.insert(at, separator)) == parsed_address(text),
{
    let head = text.subrange(0, at);
    let tail = text.subrange(at, text.len() as int);
    lemma_strip_push(head, separator);
    lemma_strip_concat(head.push(separator), tail);
    lemma_strip_concat(head, tail);
    assert(head + tail =~= text);
}

/// Twelve hexadecimal digits parse to the same address however they are
/// written: bare, with colons between the pairs, or with hyphens.
pub proof fn lemma_separator_styles(digits: Seq<char>)
    requires
        digits.len() == DIGIT_COUNT,
        all_hex(digits),
    ensures
        parsed_address(digits) == Ok::<Seq<u8>, AddressFormatError>(decoded(digits)),
        parsed_address(delimited(digits, ':')) == parsed_address(digits),
        parsed_address(delimited(digits, '-')) == parsed_address(digits),
{
    lemma_strip_nothing(digits);
    lemma_accepted(digits);
    lemma_strip_delimited(digits, ':');
    lemma_strip_delimited(digits, '-');
}

/// Stripping undoes `delimited`, for digits that hold no separator themselves.
pub proof fn lemma_strip_delimited(digits: Seq<char>, separator: char)
    requires
        digits.len() == DIGIT_COUNT,
        forall|k: int| 0 <= k < digits.len() ==> !is_separator(#[trigger] digits[k]),
        is_separator(separator),
    ensures
        strip_separators(delimited(digits, separator)) == digits,
{
    let first = digits.subrange(0, 2);
    let second = digits.subrange(2, 4);
    let third = digits.subrange(4, 6);
    let fourth = digits.subrange(6, 8);
    let fifth = digits.subrange(8, 10);
    let sixth = digits.subrange(10, 12);
    lemma_strip_nothing(first);
    lemma_strip_nothing(second);
    lemma_strip_nothing(third);
    lemma_strip_nothing(fourth);
    lemma_strip_nothing(fifth);
    lemma_strip_nothing(sixth);
    lemma_strip_push(first, separator);
    lemma_strip_push(second, separator);
    lemma_strip_push(third, separator);
    lemma_strip_push(fourth, separator);
    lemma_strip_push(fifth, separator);
    assert(first + second + third + fourth + fifth + sixth =~= digits);
}

} // verus!
