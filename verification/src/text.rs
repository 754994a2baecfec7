//! Text on the wire: comparing it, and reading bytes as UTF-8.

use crate::error::{MemcacheError, ServerError, TransportError};
use vstd::prelude::*;
use vstd::string::StringSliceAdditionalSpecFns;
use vstd::utf8::{decode_utf8, encode_utf8, encode_utf8_decode_utf8, valid_utf8};

verus! {

/// Whether two slices hold the same bytes.
pub fn same_bytes(a: &[u8], b: &[u8]) -> (same: bool)
    ensures
        same == (a@ == b@),
{
    if a.len() != b.len() {
        return false;
    }
    let mut i: usize = 0;
    while i < a.len()
        invariant
            a@.len() == b@.len(),
            i <= a@.len(),
            a@.subrange(0, i as int) == b@.subrange(0, i as int),
        decreases a@.len() - i,
    {
        if a[i] != b[i] {
            assert(a@[i as int] != b@[i as int]);
            return false;
        }
        assert(a@.subrange(0, i + 1) =~= a@.subrange(0, i as int).push(a@[i as int]));
        assert(b@.subrange(0, i + 1) =~= b@.subrange(0, i as int).push(b@[i as int]));
        i = i + 1;
    }
    assert(a@ =~= a@.subrange(0, a@.len() as int));
    assert(b@ =~= b@.subrange(0, b@.len() as int));
    true
}

/// Whether two strings hold the same text.
pub fn same_text(a: &str, b: &str) -> (same: bool)
    ensures
        same == (a@ == b@),
{
    proof {
        encode_utf8_decode_utf8(a@);
        encode_utf8_decode_utf8(b@);
    }
    same_bytes(a.as_bytes(), b.as_bytes())
}

/// `String::from_utf8`: the string whose UTF-8 encoding is `bytes`, or
/// nothing where `bytes` are not valid UTF-8.
#[verifier::external_body]
pub(crate) fn string_from_utf8(bytes: Vec<u8>) -> (text: Option<String>)
    ensures
        text is Some <==> valid_utf8(bytes@),
        text matches Some(s) ==> encode_utf8(s@) == bytes@,
{
    String::from_utf8(bytes).ok()
}

/// The text that `bytes` spell, where they are valid UTF-8.
pub open spec fn text_of(bytes: Seq<u8>) -> Option<Seq<char>> {
    if valid_utf8(bytes) {
        Some(decode_utf8(bytes))
    } else {
        None
    }
}

/// Reads `bytes` as UTF-8 text.
pub fn read_text(bytes: Vec<u8>) -> (text: Option<String>)
    ensures
        match (text, text_of(bytes@)) {
            (Some(s), Some(t)) => s@ == t,
            (None, None) => true,
            _ => false,
        },
{
    let text = string_from_utf8(bytes);
    proof {
        if text is Some {
            encode_utf8_decode_utf8(text->0@);
        }
    }
    text
}

/// The byte that ends a line, after a carriage return.
pub const LF: u8 = 0x0a;

/// The byte that comes before the end of a line.
pub const CR: u8 = 0x0d;

/// The byte that parts the words of a line.
pub const SPACE: u8 = 0x20;

/// The bytes of a piece of text.
pub open spec fn lit(text: &str) -> Seq<u8> {
    text.spec_bytes()
}

/// Finds the first `needle` in `bytes`.
pub fn find_byte(bytes: &[u8], needle: u8) -> (found: Option<usize>)
    ensures
        match found {
            Some(i) => i < bytes@.len() && bytes@.index_of_first(needle) == Some(i as int),
            None => bytes@.index_of_first(needle) is None,
        },
{
    let mut i: usize = 0;
    while i < bytes.len()
        invariant
            i <= bytes@.len(),
            forall|j: int| 0 <= j < i ==> bytes@[j] != needle,
        decreases bytes@.len() - i,
    {
        if bytes[i] == needle {
            proof {
                bytes@.index_of_first_ensures(needle);
            }
            return Some(i);
        }
        i = i + 1;
    }
    proof {
        bytes@.index_of_first_ensures(needle);
    }
    None
}

/// Whether `bytes` begin with `prefix`.
pub fn starts_with(bytes: &[u8], prefix: &[u8]) -> (yes: bool)
    ensures
        yes == prefix@.is_prefix_of(bytes@),
{
    if prefix.len() > bytes.len() {
        return false;
    }
    same_bytes(&bytes[0..prefix.len()], prefix)
}

/// The first line of `b`, without the carriage return and line feed that
/// end it, and the count of bytes up to and with the line feed. Bytes
/// without a line feed end too early; a line feed that no carriage
/// return comes before is refused.
pub open spec fn first_line(b: Seq<u8>) -> Result<(Seq<u8>, nat), MemcacheError> {
    match b.index_of_first(LF) {
        None => Err(MemcacheError::IOError(TransportError::UnexpectedEof)),
        Some(i) => if i >= 1 && b[i - 1] == CR {
            Ok((b.take(i - 1), (i + 1) as nat))
        } else {
            Err(MemcacheError::ServerError(ServerError::BadResponse))
        },
    }
}

/// Reads the first line of `reader`.
pub fn read_line<'a>(reader: &'a [u8]) -> (result: Result<(&'a [u8], usize), MemcacheError>)
    ensures
        match (result, first_line(reader@)) {
            (Ok((line, used)), Ok((expected, n))) => line@ == expected && used == n,
            (Err(e), Err(expected)) => e == expected,
            _ => false,
        },
{
    proof {
        reader@.index_of_first_ensures(LF);
    }
    match find_byte(reader, LF) {
        None => Err(MemcacheError::IOError(TransportError::UnexpectedEof)),
        Some(i) => {
            if i >= 1 && reader[i - 1] == CR {
                Ok((&reader[0..i - 1], i + 1))
            } else {
                Err(MemcacheError::ServerError(ServerError::BadResponse))
            }
        },
    }
}

/// The first word of `line`, and what follows the space after it, if a
/// space there is.
pub open spec fn first_word(line: Seq<u8>) -> (Seq<u8>, Option<Seq<u8>>) {
    match line.index_of_first(SPACE) {
        None => (line, None),
        Some(i) => (line.take(i), Some(line.skip(i + 1))),
    }
}

/// Parts the first word of `line` from the rest.
pub fn split_word<'a>(line: &'a [u8]) -> (parts: (&'a [u8], Option<&'a [u8]>))
    ensures
        parts.0@ == first_word(line@).0,
        match (parts.1, first_word(line@).1) {
            (Some(rest), Some(expected)) => rest@ == expected,
            (None, None) => true,
            _ => false,
        },
{
    proof {
        line@.index_of_first_ensures(SPACE);
    }
    match find_byte(line, SPACE) {
        None => (line, None),
        Some(i) => {
            let end = line.len();
            let word = &line[0..i];
            let rest = &line[i + 1..end];
            (word, Some(rest))
        },
    }
}

/// Whether a byte is a decimal digit.
pub open spec fn is_digit(b: u8) -> bool {
    0x30 <= b <= 0x39
}

/// The decimal digits of `n`, without leading zeros.
pub open spec fn decimal(n: nat) -> Seq<u8>
    decreases n,
{
    if n < 10 {
        seq![(0x30 + n) as u8]
    } else {
        decimal(n / 10).push((0x30 + n % 10) as u8)
    }
}

/// The number that decimal digits spell, where `digits` are one digit or
/// more and nothing else.
pub open spec fn decimal_value(digits: Seq<u8>) -> Option<nat>
    decreases digits.len(),
{
    if digits.len() == 0 || !is_digit(digits.last()) {
        None
    } else if digits.len() == 1 {
        Some((digits.last() - 0x30) as nat)
    } else {
        match decimal_value(digits.drop_last()) {
            None => None,
            Some(v) => Some((v * 10 + (digits.last() - 0x30)) as nat),
        }
    }
}

/// The number that `digits` spell, where it is no more than `max`.
pub open spec fn number(digits: Seq<u8>, max: nat) -> Option<nat> {
    match decimal_value(digits) {
        Some(v) => if v <= max {
            Some(v)
        } else {
            None
        },
        None => None,
    }
}

/// The digits of a number spell that number.
pub proof fn lemma_decimal_round_trip(n: nat)
    ensures
        decimal(n).len() >= 1,
        decimal_value(decimal(n)) == Some(n),
        forall|i: int| 0 <= i < decimal(n).len() ==> is_digit(#[trigger] decimal(n)[i]),
    decreases n,
{
    if n >= 10 {
        lemma_decimal_round_trip(n / 10);
        let d = decimal(n);
        assert(d.drop_last() =~= decimal(n / 10));
        assert(d.last() == (0x30 + n % 10) as u8);
    }
}

/// Digits that go on spell a number that is no smaller: where a text
/// spells a number, each of its beginnings spells one too, and a smaller
/// one or the same.
pub proof fn lemma_decimal_prefix(digits: Seq<u8>, i: int)
    requires
        1 <= i <= digits.len(),
        decimal_value(digits) is Some,
    ensures
        decimal_value(digits.take(i)) is Some,
        decimal_value(digits.take(i))->0 <= decimal_value(digits)->0,
    decreases digits.len(),
{
    if i == digits.len() {
        assert(digits.take(i) =~= digits);
    } else {
        assert(digits.drop_last().take(i) =~= digits.take(i));
        lemma_decimal_prefix(digits.drop_last(), i);
    }
}

/// Appends the decimal digits of `n` to `out`.
pub fn write_decimal(out: &mut Vec<u8>, n: u64)
    ensures
        final(out)@ == old(out)@ + decimal(n as nat),
    decreases n,
{
    if n >= 10 {
        write_decimal(out, n / 10);
    }
    out.push(0x30 + (n % 10) as u8);
    assert(out@ =~= old(out)@ + decimal(n as nat));
}

/// Reads `digits` as a decimal number of at most 64 bits.
pub fn parse_decimal(digits: &[u8]) -> (value: Option<u64>)
    ensures
        match (value, number(digits@, u64::MAX as nat)) {
            (Some(v), Some(expected)) => v == expected,
            (None, None) => true,
            _ => false,
        },
{
    if digits.len() == 0 {
        return None;
    }
    let mut value: u64 = 0;
    let mut i: usize = 0;
    while i < digits.len()
        invariant
            i <= digits@.len(),
            i > 0 ==> decimal_value(digits@.take(i as int)) == Some(value as nat),
            i == 0 ==> value == 0,
        decreases digits@.len() - i,
    {
        let byte = digits[i];
        let ghost next = digits@.take(i + 1);
        proof {
            assert(next.drop_last() =~= digits@.take(i as int));
            assert(next.last() == byte);
            if decimal_value(digits@) is Some {
                lemma_decimal_prefix(digits@, i + 1);
            }
        }
        if byte < 0x30 || byte > 0x39 {
            return None;
        }
        let digit = (byte - 0x30) as u64;
        if value > (u64::MAX - digit) / 10 {
            return None;
        }
        value = value * 10 + digit;
        i = i + 1;
    }
    assert(digits@.take(digits@.len() as int) =~= digits@);
    Some(value)
}

} // verus!
