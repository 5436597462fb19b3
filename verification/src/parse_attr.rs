//! Decoders for the payload of a single attribute.

use crate::error::DecodeError;
use byteorder::{ByteOrder, LittleEndian};
use vstd::prelude::*;
use vstd::utf8::{decode_utf8, valid_utf8};

verus! {

/// The unsigned 16-bit number that two little-endian bytes stand for.
pub open spec fn le_u16(bytes: Seq<u8>) -> u16
    recommends
        bytes.len() == 2,
{
    (bytes[0] as int + 0x100 * bytes[1] as int) as u16
}

/// The unsigned 32-bit number that four little-endian bytes stand for.
pub open spec fn le_u32(bytes: Seq<u8>) -> u32
    recommends
        bytes.len() == 4,
{
    (bytes[0] as int + 0x100 * bytes[1] as int + 0x1_0000 * bytes[2] as int + 0x100_0000
        * bytes[3] as int) as u32
}

/// The unsigned 64-bit number that eight little-endian bytes stand for.
pub open spec fn le_u64(bytes: Seq<u8>) -> u64
    recommends
        bytes.len() == 8,
{
    (le_u32(bytes.subrange(0, 4)) as int + 0x1_0000_0000 * le_u32(
        bytes.subrange(4, 8),
    ) as int) as u64
}

/// The signed 8-bit number that one byte stands for in two's complement.
pub open spec fn le_i8(bytes: Seq<u8>) -> i8
    recommends
        bytes.len() == 1,
{
    if bytes[0] < 0x80 {
        bytes[0] as i8
    } else {
        (bytes[0] as int - 0x100) as i8
    }
}

/// The signed 32-bit number that four little-endian bytes stand for in two's
/// complement.
pub open spec fn le_i32(bytes: Seq<u8>) -> i32
    recommends
        bytes.len() == 4,
{
    if le_u32(bytes) < 0x8000_0000 {
        le_u32(bytes) as i32
    } else {
        (le_u32(bytes) as int - 0x1_0000_0000) as i32
    }
}

/// What decoding a payload as a number of `width` bytes gives when the
/// payload has another size.
pub open spec fn width_error(payload: Seq<u8>, width: usize) -> Option<DecodeError> {
    if payload.len() == width {
        None
    } else {
        Some(DecodeError::LengthMismatch { expected: width, actual: payload.len() as usize })
    }
}

/// `byteorder::LittleEndian::read_u16`: the first two bytes of `buf`, read as
/// a little-endian number. It panics on a shorter buffer.
#[verifier::external_body]
pub(crate) fn read_u16_le(buf: &[u8]) -> (n: u16)
    requires
        buf@.len() >= 2,
    ensures
        n == le_u16(buf@.subrange(0, 2)),
{
    LittleEndian::read_u16(buf)
}

/// `byteorder::LittleEndian::read_u32`: the first four bytes of `buf`, read
/// as a little-endian number. It panics on a shorter buffer.
#[verifier::external_body]
fn read_u32_le(buf: &[u8]) -> (n: u32)
    requires
        buf@.len() >= 4,
    ensures
        n == le_u32(buf@.subrange(0, 4)),
{
    LittleEndian::read_u32(buf)
}

/// `byteorder::LittleEndian::read_i32`: the first four bytes of `buf`, read
/// as a little-endian number in two's complement. It panics on a shorter
/// buffer.
#[verifier::external_body]
fn read_i32_le(buf: &[u8]) -> (n: i32)
    requires
        buf@.len() >= 4,
    ensures
        n == le_i32(buf@.subrange(0, 4)),
{
    LittleEndian::read_i32(buf)
}

/// `byteorder::LittleEndian::read_u64`: the first eight bytes of `buf`, read
/// as a little-endian number. It panics on a shorter buffer.
#[verifier::external_body]
fn read_u64_le(buf: &[u8]) -> (n: u64)
    requires
        buf@.len() >= 8,
    ensures
        n == le_u64(buf@.subrange(0, 8)),
{
    LittleEndian::read_u64(buf)
}

/// Parse a payload of exactly one byte as i8
pub fn parse_i8(input: &[u8]) -> (r: Result<i8, DecodeError>)
    ensures
        r == match width_error(input@, 1) {
            Some(e) => Err::<i8, DecodeError>(e),
            None => Ok(le_i8(input@)),
        },
{
    if input.len() != 1 {
        return Err(DecodeError::LengthMismatch { expected: 1, actual: input.len() });
    }
    let b: u8 = input[0];
    if b < 0x80 {
        Ok(b as i8)
    } else {
        Ok((b as i16 - 0x100) as i8)
    }
}

/// Parse a payload of exactly two bytes as u16
pub fn parse_u16(input: &[u8]) -> (r: Result<u16, DecodeError>)
    ensures
        r == match width_error(input@, 2) {
            Some(e) => Err::<u16, DecodeError>(e),
            None => Ok(le_u16(input@)),
        },
{
    if input.len() != 2 {
        return Err(DecodeError::LengthMismatch { expected: 2, actual: input.len() });
    }
    assert(input@.subrange(0, 2) =~= input@);
    Ok(read_u16_le(input))
}

/// Parse a payload of exactly four bytes as u32
pub fn parse_u32(input: &[u8]) -> (r: Result<u32, DecodeError>)
    ensures
        r == match width_error(input@, 4) {
            Some(e) => Err::<u32, DecodeError>(e),
            None => Ok(le_u32(input@)),
        },
{
    if input.len() != 4 {
        return Err(DecodeError::LengthMismatch { expected: 4, actual: input.len() });
    }
    assert(input@.subrange(0, 4) =~= input@);
    Ok(read_u32_le(input))
}

/// Parse a payload of exactly four bytes as i32
pub fn parse_i32(input: &[u8]) -> (r: Result<i32, DecodeError>)
    ensures
        r == match width_error(input@, 4) {
            Some(e) => Err::<i32, DecodeError>(e),
            None => Ok(le_i32(input@)),
        },
{
    if input.len() != 4 {
        return Err(DecodeError::LengthMismatch { expected: 4, actual: input.len() });
    }
    assert(input@.subrange(0, 4) =~= input@);
    Ok(read_i32_le(input))
}

/// Parse a payload of exactly eight bytes as u64
pub fn parse_u64(input: &[u8]) -> (r: Result<u64, DecodeError>)
    ensures
        r == match width_error(input@, 8) {
            Some(e) => Err::<u64, DecodeError>(e),
            None => Ok(le_u64(input@)),
        },
{
    if input.len() != 8 {
        return Err(DecodeError::LengthMismatch { expected: 8, actual: input.len() });
    }
    assert(input@.subrange(0, 8) =~= input@);
    Ok(read_u64_le(input))
}

/// The text that `String::from_utf8_lossy` makes of `bytes`: their decoding
/// as UTF-8, with the replacement character in place of every part that is
/// not valid.
pub uninterp spec fn utf8_lossy(bytes: Seq<u8>) -> Seq<char>;

/// `text` without the run of `pad` at its end.
pub open spec fn strip_trailing(text: Seq<char>, pad: char) -> Seq<char>
    decreases text.len(),
{
    if text.len() > 0 && text.last() == pad {
        strip_trailing(text.drop_last(), pad)
    } else {
        text
    }
}

/// The text that a string payload stands for: its lossy decoding, without
/// the NUL characters that pad its end.
pub open spec fn text_of(payload: Seq<u8>) -> Seq<char> {
    strip_trailing(utf8_lossy(payload), '\0')
}

/// `String::from_utf8_lossy`, as an owned string. The result is a function
/// of the bytes alone, and on valid UTF-8 it is the text those bytes encode.
#[verifier::external_body]
fn from_utf8_lossy(input: &[u8]) -> (text: String)
    ensures
        text@ == utf8_lossy(input@),
        valid_utf8(input@) ==> text@ == decode_utf8(input@),
{
    String::from_utf8_lossy(input).into_owned()
}

/// `str::trim_end_matches` with a character as the pattern: the slice of
/// `text` that is left when every `pad` at its end is removed.
#[verifier::external_body]
fn trim_end_matches(text: &str, pad: char) -> (trimmed: &str)
    ensures
        trimmed@ == strip_trailing(text@, pad),
{
    text.trim_end_matches(pad)
}

/// Parse a vec of bytes as a String
///
/// Bytes that are no valid UTF-8 are replaced, and the NUL characters that
/// pad the end are dropped. This never fails.
pub fn parse_string(input: &[u8]) -> (text: String)
    ensures
        text@ == text_of(input@),
        valid_utf8(input@) ==> text@ == strip_trailing(decode_utf8(input@), '\0'),
{
    let decoded = from_utf8_lossy(input);
    trim_end_matches(decoded.as_str(), '\0').to_owned()
}

} // verus!
