//! Numbers as the stack-size section spells them: addresses of a fixed
//! width with the least significant byte first, and stack sizes in
//! unsigned LEB128.
//!
//! The decoding itself is done by the `byteorder` and `leb128` crates. The
//! three functions at the end of this file call them, and state what they
//! return in terms of the definitions given here. Those statements are
//! taken on trust; everything else in the crate is proved from them.

use vstd::prelude::*;
use byteorder::{LittleEndian, ReadBytesExt};
use std::io::Cursor;

verus! {

/// The error of a read that ran out of bytes.
#[verifier::external_type_specification]
#[verifier::external_body]
pub struct ExIoError(std::io::Error);

/// The error of reading a number in LEB128.
#[verifier::external_type_specification]
#[verifier::external_body]
pub struct ExLeb128Error(leb128::read::Error);

/// The number that `bytes` spell, least significant byte first.
pub open spec fn little_endian(bytes: Seq<u8>) -> nat
    decreases bytes.len(),
{
    if bytes.len() == 0 {
        0
    } else {
        bytes[0] as nat + 256 * little_endian(bytes.drop_first())
    }
}

/// Whether a byte of a number in LEB128 says that another byte follows.
pub open spec fn continues(byte: u8) -> bool {
    byte >= 0x80
}

/// The length of the number in LEB128 at the start of `bytes`: the count
/// of bytes up to and including the first that does not say that another
/// follows. `None` where every byte says so.
pub open spec fn uleb128_len(bytes: Seq<u8>) -> Option<nat>
    decreases bytes.len(),
{
    if bytes.len() == 0 {
        None
    } else if !continues(bytes[0]) {
        Some(1)
    } else {
        match uleb128_len(bytes.drop_first()) {
            Some(rest) => Some(rest + 1),
            None => None,
        }
    }
}

/// The number that the low seven bits of each of `bytes` spell, least
/// significant group first.
pub open spec fn uleb128_value(bytes: Seq<u8>) -> nat
    decreases bytes.len(),
{
    if bytes.len() == 0 {
        0
    } else {
        (bytes[0] % 0x80) as nat + 0x80 * uleb128_value(bytes.drop_first())
    }
}

/// The unsigned number in LEB128 at the start of `bytes`, and the count of
/// bytes that it takes: each byte gives seven bits of the number, the least
/// significant first, and its top bit says whether another byte follows. `None` where the bytes end before the number does,
/// where the number takes more than ten bytes, and where it does not fit
/// in 64 bits.
pub open spec fn uleb128(bytes: Seq<u8>) -> Option<(u64, nat)> {
    match uleb128_len(bytes) {
        Some(len) => {
            let value = uleb128_value(bytes.take(len as int));
            if len <= 10 && value <= u64::MAX {
                Some((value as u64, len))
            } else {
                None
            }
        },
        None => None,
    }
}

/// A number in LEB128 takes at least one of the bytes that are there, and
/// no more than there are.
pub proof fn lemma_uleb128_len_bounds(bytes: Seq<u8>)
    ensures
        uleb128_len(bytes) matches Some(len) ==> 1 <= len <= bytes.len(),
    decreases bytes.len(),
{
    if bytes.len() > 0 && continues(bytes[0]) {
        lemma_uleb128_len_bounds(bytes.drop_first());
    }
}

/// Reads four bytes as a number, least significant byte first, with
/// `byteorder::ReadBytesExt::read_u32`. The contract says that the read
/// fails exactly where fewer than four bytes are there, and that it
/// returns the number that the first four spell.
#[verifier::external_body]
pub(crate) fn read_u32_le(bytes: &[u8]) -> (result: Result<u32, std::io::Error>)
    ensures
        result is Ok <==> bytes@.len() >= 4,
        result matches Ok(value) ==> value == little_endian(bytes@.take(4)),
{
    let mut reader = bytes;
    reader.read_u32::<LittleEndian>()
}

/// Reads eight bytes as a number, least significant byte first, with
/// `byteorder::ReadBytesExt::read_u64`. The contract says that the read
/// fails exactly where fewer than eight bytes are there, and that it
/// returns the number that the first eight spell.
#[verifier::external_body]
pub(crate) fn read_u64_le(bytes: &[u8]) -> (result: Result<u64, std::io::Error>)
    ensures
        result is Ok <==> bytes@.len() >= 8,
        result matches Ok(value) ==> value == little_endian(bytes@.take(8)),
{
    let mut reader = bytes;
    reader.read_u64::<LittleEndian>()
}

/// Reads an unsigned number in LEB128 with `leb128::read::unsigned`, and
/// returns it with the count of bytes that were read. The contract says
/// that the call succeeds exactly where [`uleb128`] gives a number, and
/// returns that number and that count: it fails where the bytes end before
/// a byte below `0x80`, where the tenth byte is neither 0 nor 1 (so also
/// where the number takes more than ten bytes), and nowhere else.
#[verifier::external_body]
pub(crate) fn read_uleb128(bytes: &[u8]) -> (result: Result<(u64, usize), leb128::read::Error>)
    ensures
        result is Ok <==> uleb128(bytes@) is Some,
        result matches Ok((value, used)) ==> uleb128(bytes@) == Some((value, used as nat)),
{
    let mut cursor = Cursor::new(bytes);
    match leb128::read::unsigned(&mut cursor) {
        Ok(value) => Ok((value, cursor.position() as usize)),
        Err(error) => Err(error),
    }
}

} // verus!
