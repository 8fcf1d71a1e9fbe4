//! The calls into byteorder, varint_rs and std's I/O traits that the codecs make: a
//! `Vec<u8>` is the writer and a byte slice the reader. Each item here is trusted: its
//! contract restates what the called function does, as its source or documentation shows
//! it, and is not proved.
use vstd::prelude::*;
use vstd::utf8::{decode_utf8, valid_utf8};
use byteorder::{BigEndian, ReadBytesExt, WriteBytesExt};
use varint_rs::{VarintReader, VarintWriter};
use crate::wire::{be_bytes, be_value, leb128, varint_i32, varint_overlong, varint_read};

verus! {

/// std's I/O error, carried through as it comes.
#[verifier::external_type_specification]
#[verifier::external_body]
pub struct ExIoError(std::io::Error);

/// std's error for bytes that are not UTF-8, carried through as it comes.
#[verifier::external_type_specification]
#[verifier::external_body]
pub struct ExFromUtf8Error(std::string::FromUtf8Error);

/// `VarintWriter::write_i32_varint` (varint_rs) on a vector: appends the zigzag value of
/// `v` in LEB128, one `write_all` of one byte each; writing to a vector appends and does
/// not fail.
#[verifier::external_body]
pub(crate) fn write_i32_varint(writer: &mut Vec<u8>, v: i32) -> (res: Result<(), std::io::Error>)
    ensures
        res is Ok,
        final(writer)@ == old(writer)@ + varint_i32(v),
{
    VarintWriter::write_i32_varint(writer, v)
}

/// `VarintWriter::write_u8_varint` (varint_rs) on a vector: appends `v` in LEB128.
#[verifier::external_body]
pub(crate) fn write_u8_varint(writer: &mut Vec<u8>, v: u8) -> (res: Result<(), std::io::Error>)
    ensures
        res is Ok,
        final(writer)@ == old(writer)@ + leb128(v as nat),
{
    VarintWriter::write_u8_varint(writer, v)
}

/// `VarintReader::read_i32_varint` (varint_rs) on a byte slice. It reads one byte at a
/// time and ORs in its low seven bits at shift 0, 7, .., 28 of a `u32`, until a byte with
/// the high bit clear, then undoes the zigzag mapping. When the slice runs out first it
/// fails once a read of one byte gives none, which for a slice is once it is empty (std:
/// "the slice will be empty when EOF is reached"). A sixth
/// byte would be shifted by 35, past the width of a `u32`, which panics in a debug build:
/// `requires` leaves such input out.
#[verifier::external_body]
pub(crate) fn read_i32_varint(reader: &mut &[u8]) -> (res: Result<i32, std::io::Error>)
    requires
        !varint_overlong(old(reader)@),
    ensures
        match varint_read(old(reader)@) {
            Some((v, n)) => res matches Ok(x) && x == v && final(reader)@ == old(reader)@.skip(
                n as int,
            ),
            None => res is Err && final(reader)@ == old(reader)@.skip(old(reader)@.len() as int),
        },
{
    VarintReader::read_i32_varint(reader)
}

/// `ReadBytesExt::read_u8` (byteorder) on a byte slice: takes the first byte; fails on an
/// empty slice, which stays empty.
#[verifier::external_body]
pub(crate) fn read_u8(reader: &mut &[u8]) -> (res: Result<u8, std::io::Error>)
    ensures
        old(reader)@.len() >= 1 ==> (res matches Ok(x) && x == old(reader)@[0] && final(reader)@
            == old(reader)@.skip(1)),
        old(reader)@.len() == 0 ==> res is Err && final(reader)@ == old(reader)@.skip(old(reader)@.len() as int),
{
    ReadBytesExt::read_u8(reader)
}

/// `ReadBytesExt::read_u16::<BigEndian>` (byteorder) on a byte slice: the first two bytes
/// in big-endian order; fails when fewer remain, reading the slice to its end (its
/// `read_exact`; std: "the slice will be empty when EOF is reached").
#[verifier::external_body]
pub(crate) fn read_u16_be(reader: &mut &[u8]) -> (res: Result<u16, std::io::Error>)
    ensures
        old(reader)@.len() >= 2 ==> (res matches Ok(x) && x == be_value(old(reader)@.take(2))
            && final(reader)@ == old(reader)@.skip(2)),
        old(reader)@.len() < 2 ==> res is Err && final(reader)@ == old(reader)@.skip(old(reader)@.len() as int),
{
    ReadBytesExt::read_u16::<BigEndian>(reader)
}

/// `ReadBytesExt::read_i64::<BigEndian>` (byteorder) on a byte slice: the first eight
/// bytes in big-endian order, as two's complement; fails when fewer remain, reading the
/// slice to its end (its `read_exact`; std: "the slice will be empty when EOF is
/// reached").
#[verifier::external_body]
pub(crate) fn read_i64_be(reader: &mut &[u8]) -> (res: Result<i64, std::io::Error>)
    ensures
        old(reader)@.len() >= 8 ==> (res matches Ok(x) && x == (be_value(old(reader)@.take(8))
            as u64) as i64 && final(reader)@ == old(reader)@.skip(8)),
        old(reader)@.len() < 8 ==> res is Err && final(reader)@ == old(reader)@.skip(old(reader)@.len() as int),
{
    ReadBytesExt::read_i64::<BigEndian>(reader)
}

/// `ReadBytesExt::read_u128::<BigEndian>` (byteorder) on a byte slice: the first sixteen
/// bytes in big-endian order; fails when fewer remain, reading the slice to its end (its
/// `read_exact`; std: "the slice will be empty when EOF is reached").
#[verifier::external_body]
pub(crate) fn read_u128_be(reader: &mut &[u8]) -> (res: Result<u128, std::io::Error>)
    ensures
        old(reader)@.len() >= 16 ==> (res matches Ok(x) && x == be_value(old(reader)@.take(16))
            && final(reader)@ == old(reader)@.skip(16)),
        old(reader)@.len() < 16 ==> res is Err && final(reader)@ == old(reader)@.skip(old(reader)@.len() as int),
{
    ReadBytesExt::read_u128::<BigEndian>(reader)
}

/// `WriteBytesExt::write_u8` (byteorder) on a vector: appends the byte.
#[verifier::external_body]
pub(crate) fn write_u8(writer: &mut Vec<u8>, v: u8) -> (res: Result<(), std::io::Error>)
    ensures
        res is Ok,
        final(writer)@ == old(writer)@.push(v),
{
    WriteBytesExt::write_u8(writer, v)
}

/// `WriteBytesExt::write_i64::<BigEndian>` (byteorder) on a vector: appends the eight
/// bytes of `v` (two's complement) in big-endian order.
#[verifier::external_body]
pub(crate) fn write_i64_be(writer: &mut Vec<u8>, v: i64) -> (res: Result<(), std::io::Error>)
    ensures
        res is Ok,
        final(writer)@ == old(writer)@ + be_bytes((v as u64) as nat, 8),
{
    WriteBytesExt::write_i64::<BigEndian>(writer, v)
}

/// `WriteBytesExt::write_u128::<BigEndian>` (byteorder) on a vector: appends the sixteen
/// bytes of `v` in big-endian order.
#[verifier::external_body]
pub(crate) fn write_u128_be(writer: &mut Vec<u8>, v: u128) -> (res: Result<(), std::io::Error>)
    ensures
        res is Ok,
        final(writer)@ == old(writer)@ + be_bytes(v as nat, 16),
{
    WriteBytesExt::write_u128::<BigEndian>(writer, v)
}

/// `Write::write` on a vector: appends all of `bytes` and reports their number.
#[verifier::external_body]
pub(crate) fn write_bytes(writer: &mut Vec<u8>, bytes: &[u8]) -> (res: Result<usize, std::io::Error>)
    ensures
        res is Ok,
        res.unwrap() == bytes@.len(),
        final(writer)@ == old(writer)@ + bytes@,
{
    std::io::Write::write(writer, bytes)
}

/// `Write::write_all` on a vector: appends all of `bytes`.
#[verifier::external_body]
pub(crate) fn write_all(writer: &mut Vec<u8>, bytes: &[u8]) -> (res: Result<(), std::io::Error>)
    ensures
        res is Ok,
        final(writer)@ == old(writer)@ + bytes@,
{
    std::io::Write::write_all(writer, bytes)
}

/// `Read::read_exact` on a byte slice: fills `buf` with the next `buf.len()` bytes and
/// moves past them; fails when fewer remain, having read the slice to its end (std: "the
/// slice will be empty when EOF is reached"), and then leaves the contents of `buf`
/// unstated, as std's documentation does.
#[verifier::external_body]
pub(crate) fn read_exact(reader: &mut &[u8], buf: &mut [u8]) -> (res: Result<(), std::io::Error>)
    ensures
        final(buf)@.len() == old(buf)@.len(),
        old(reader)@.len() >= old(buf)@.len() ==> (res is Ok && final(buf)@ == old(reader)@.take(
            old(buf)@.len() as int,
        ) && final(reader)@ == old(reader)@.skip(old(buf)@.len() as int)),
        old(reader)@.len() < old(buf)@.len() ==> res is Err && final(reader)@ == old(reader)@.skip(old(reader)@.len() as int),
{
    std::io::Read::read_exact(reader, buf)
}

/// `Read::read_to_end` on a byte slice: appends all remaining bytes to `buf`, reports
/// their number and leaves the slice empty.
#[verifier::external_body]
pub(crate) fn read_to_end(reader: &mut &[u8], buf: &mut Vec<u8>) -> (res: Result<usize, std::io::Error>)
    ensures
        res is Ok,
        res.unwrap() == old(reader)@.len(),
        final(buf)@ == old(buf)@ + old(reader)@,
        final(reader)@.len() == 0,
{
    std::io::Read::read_to_end(reader, buf)
}

/// `String::from_utf8`: succeeds exactly when `bytes` are valid UTF-8, with the characters
/// that they encode.
#[verifier::external_body]
pub(crate) fn string_from_utf8(bytes: Vec<u8>) -> (res: Result<String, std::string::FromUtf8Error>)
    ensures
        res is Ok <==> valid_utf8(bytes@),
        res matches Ok(s) ==> s@ == decode_utf8(bytes@),
{
    String::from_utf8(bytes)
}

} // verus!
