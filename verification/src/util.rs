//! Reading and writing the protocol's lengths, booleans, strings, arrays and options.
use vstd::prelude::*;
use vstd::utf8::{
    decode_utf8, encode_utf8, encode_utf8_decode_utf8, encode_utf8_valid_utf8, valid_utf8,
};
use crate::encoding::{
    decoded, emit_then, encoded, fail_after, parsed_after, Decode, Emitted, Encode, Error,
    ErrorKind, Parsed, Result,
};
use crate::stream::{
    read_exact, read_i32_varint, read_u8, string_from_utf8, write_all, write_i32_varint,
    write_u8_varint,
};
use crate::wire::{
    be_bytes, be_value, leb128, lemma_be_prefix, lemma_be_roundtrip, lemma_pow256_values,
    lemma_varint_roundtrip, lemma_varint_span_len, lemma_varint_span_none, varint_i32,
    varint_overlong, varint_read,
};

verus! {

broadcast use vstd::seq_lib::lemma_seq_skip_of_skip;

/// What reading a varint length from the head of `s` does: a negative value is refused.
pub open spec fn usize_parse(s: Seq<u8>) -> Parsed<usize> {
    match varint_read(s) {
        Some((v, n)) => if v < 0 {
            Parsed::Fail(ErrorKind::Invalid("A string's length cannot be negative"), n)
        } else {
            Parsed::Done(v as usize, n)
        },
        None => if varint_overlong(s) {
            Parsed::Stuck
        } else {
            Parsed::Fail(ErrorKind::IO, s.len())
        },
    }
}

/// Whether the varint at the head of `bytes` can be read: it ends within five bytes, or
/// the input ends first. The varint reader panics in a debug build on any other input,
/// which every decoder's `requires` leaves out; a caller tests untrusted input here first.
pub fn varint_fits(bytes: &[u8]) -> (res: bool)
    ensures
        res == !varint_overlong(bytes@),
        res == !(usize_parse(bytes@) is Stuck),
        res == !(string_parse(bytes@) is Stuck),
{
    proof {
        lemma_varint_span_none(bytes@, 5);
        reveal(string_parse);
    }
    let mut i: usize = 0;
    while i < 5 && i < bytes.len()
        invariant
            i <= 5,
            i <= bytes.len(),
            forall|j: int| 0 <= j < i ==> #[trigger] bytes@[j] >= 128,
        decreases 5 - i,
    {
        if bytes[i] < 128 {
            proof {
                lemma_varint_span_none(bytes@, 5);
                reveal(string_parse);
                assert(!(bytes@[i as int] >= 128));
            }
            return true;
        }
        i += 1;
    }
    bytes.len() <= 5
}

/// Reads a varint and returns it as a length; a negative value is an error.
pub fn read_varint_as_usize(reader: &mut &[u8]) -> (res: Result<usize>)
    requires
        !(usize_parse(old(reader)@) is Stuck),
    ensures
        decoded(usize_parse(old(reader)@), old(reader)@, final(reader)@, res),
{
    proof {
        lemma_varint_span_len(old(reader)@, 5);
    }
    let value = match read_i32_varint(reader) {
        Ok(v) => v,
        Err(e) => return Err(Error::IO(e)),
    };
    if value < 0 {
        Err(Error::Invalid("A string's length cannot be negative"))
    } else {
        Ok(value as usize)
    }
}

/// What writing `value` as a varint length does: a value above `i32::MAX` is refused
/// before anything is written.
pub open spec fn usize_emit(value: usize) -> Emitted {
    if value > i32::MAX {
        (seq![], Some(value))
    } else {
        (varint_i32(value as i32), None)
    }
}

/// Writes a length as a varint; one that does not fit in an `i32` is an error.
pub fn write_usize_as_varint(writer: &mut Vec<u8>, value: usize) -> (res: Result<()>)
    ensures
        encoded(old(writer)@, final(writer)@, res, usize_emit(value)),
{
    if value > i32::MAX as usize {
        return Err(Error::IntOverflow(value));
    }
    match write_i32_varint(writer, value as i32) {
        Ok(()) => Ok(()),
        Err(e) => Err(Error::IO(e)),
    }
}

/// What reading a boolean byte from the head of `s` does.
pub open spec fn bool_parse(s: Seq<u8>) -> Parsed<bool> {
    if s.len() == 0 {
        Parsed::Fail(ErrorKind::IO, s.len())
    } else if s[0] == 0 {
        Parsed::Done(false, 1)
    } else if s[0] == 1 {
        Parsed::Done(true, 1)
    } else {
        Parsed::Fail(ErrorKind::BadBool(s[0]), 1)
    }
}

/// Reads a boolean byte: `0` or `1`; any other byte is an error.
pub fn read_bool(reader: &mut &[u8]) -> (res: Result<bool>)
    ensures
        decoded(bool_parse(old(reader)@), old(reader)@, final(reader)@, res),
{
    match read_u8(reader) {
        Ok(0u8) => Ok(false),
        Ok(1u8) => Ok(true),
        Ok(v) => Err(Error::BadBool(v)),
        Err(e) => Err(Error::IO(e)),
    }
}

/// The byte of a boolean.
pub open spec fn bool_bytes(value: bool) -> Seq<u8> {
    seq![if value { 1u8 } else { 0u8 }]
}

/// Writes a boolean as the byte `1` or `0`.
pub fn write_bool(value: bool, writer: &mut Vec<u8>) -> (res: Result<()>)
    ensures
        encoded(old(writer)@, final(writer)@, res, (bool_bytes(value), None)),
{
    let byte_value: u8 = if value { 0x01 } else { 0x00 };
    let r = write_u8_varint(writer, byte_value);
    proof {
        reveal_with_fuel(leb128, 2);
    }
    match r {
        Ok(()) => Ok(()),
        Err(e) => Err(Error::IO(e)),
    }
}

/// The bytes of a string as [`write_string`] writes it: its UTF-8 length as a varint,
/// cast to `i32` without a check, then its UTF-8 bytes.
pub open spec fn str_bytes(s: Seq<char>) -> Seq<u8> {
    varint_i32((encode_utf8(s).len() as usize) as i32) + encode_utf8(s)
}

/// Writes a string: its length as a varint, then its UTF-8 bytes.
pub fn write_string(s: &str, writer: &mut Vec<u8>) -> (res: Result<()>)
    ensures
        encoded(old(writer)@, final(writer)@, res, (str_bytes(s@), None)),
{
    match write_i32_varint(writer, s.len() as i32) {
        Ok(()) => {},
        Err(e) => return Err(Error::IO(e)),
    }
    let ghost mid = writer@;
    assert(mid == old(writer)@ + varint_i32((encode_utf8(s@).len() as usize) as i32));
    match write_all(writer, s.as_bytes()) {
        Ok(()) => {},
        Err(e) => return Err(Error::IO(e)),
    }
    assert(writer@ =~= old(writer)@ + str_bytes(s@));
    Ok(())
}

/// What reading a string from the head of `s` does: a length, then that many bytes, which
/// must be UTF-8.
#[verifier::opaque]
pub open spec fn string_parse(s: Seq<u8>) -> Parsed<Seq<char>> {
    match usize_parse(s) {
        Parsed::Done(len, n) => {
            let body = s.skip(n as int);
            if body.len() < len {
                Parsed::Fail(ErrorKind::IO, s.len())
            } else if valid_utf8(body.take(len as int)) {
                Parsed::Done(decode_utf8(body.take(len as int)), n + len as nat)
            } else {
                Parsed::Fail(ErrorKind::FromUtf8, n + len as nat)
            }
        },
        Parsed::Fail(k, c) => Parsed::Fail(k, c),
        Parsed::Stuck => Parsed::Stuck,
    }
}

/// Reads a string: a varint length, then that many bytes of UTF-8.
pub fn read_string(reader: &mut &[u8]) -> (res: Result<String>)
    requires
        !(string_parse(old(reader)@) is Stuck),
    ensures
        decoded(string_parse(old(reader)@), old(reader)@, final(reader)@, res),
{
    proof {
        reveal(string_parse);
    }
    let len = read_varint_as_usize(reader)?;
    let ghost n = (old(reader)@.len() - reader@.len()) as nat;
    assert(usize_parse(old(reader)@) == Parsed::Done(len, n));
    let mut buf = vec![0u8; len];
    match read_exact(reader, buf.as_mut_slice()) {
        Ok(()) => {},
        Err(e) => return Err(Error::IO(e)),
    }
    assert(reader@ =~= old(reader)@.skip(n + len));
    match string_from_utf8(buf) {
        Ok(s) => Ok(s),
        Err(e) => Err(Error::FromUtf8(e)),
    }
}

/// What writing the values `vs` one after another does, with no length before them: it
/// stops at the first value that fails.
pub open spec fn encode_all<T: Encode>(vs: Seq<T::V>) -> Emitted
    decreases vs.len(),
{
    if vs.len() == 0 {
        (seq![], None)
    } else {
        emit_then(encode_all::<T>(vs.drop_last()), T::encoding(vs.last()))
    }
}

/// Once writing a prefix of `vs` fails, writing all of `vs` fails the same way.
proof fn lemma_encode_all_stops<T: Encode>(vs: Seq<T::V>, k: int)
    requires
        0 <= k <= vs.len(),
        encode_all::<T>(vs.take(k)).1 is Some,
    ensures
        encode_all::<T>(vs) == encode_all::<T>(vs.take(k)),
    decreases vs.len(),
{
    if k == vs.len() {
        assert(vs.take(k) == vs);
    } else {
        assert(vs.drop_last().take(k) == vs.take(k));
        lemma_encode_all_stops::<T>(vs.drop_last(), k);
    }
}

/// Writing bytes one after another writes exactly those bytes.
pub proof fn lemma_encode_all_bytes(d: Seq<u8>)
    ensures
        encode_all::<u8>(d) == (d, Option::<usize>::None),
    decreases d.len(),
{
    if d.len() > 0 {
        lemma_encode_all_bytes(d.drop_last());
        assert(d.drop_last() + seq![d.last()] =~= d);
    }
}

/// Writes each element of `buf`, with no length before them.
pub fn write_array<T: Encode>(buf: &[T], writer: &mut Vec<u8>) -> (res: Result<()>)
    ensures
        encoded(old(writer)@, final(writer)@, res, encode_all::<T>(buf.deep_view())),
{
    let ghost vs = buf.deep_view();
    let mut i: usize = 0;
    assert(vs.take(0) =~= Seq::<T::V>::empty());
    while i < buf.len()
        invariant
            i <= buf.len(),
            vs == buf.deep_view(),
            vs.len() == buf.len(),
            encode_all::<T>(vs.take(i as int)).1 is None,
            writer@ == old(writer)@ + encode_all::<T>(vs.take(i as int)).0,
        decreases buf.len() - i,
    {
        let ghost before = writer@;
        let r = buf[i].proto772_encode(writer);
        assert(vs.take(i + 1).drop_last() =~= vs.take(i as int));
        assert(vs.take(i + 1).last() == buf@[i as int].deep_view());
        match r {
            Ok(()) => {},
            Err(e) => {
                proof {
                    lemma_encode_all_stops::<T>(vs, i + 1);
                    assert(writer@ =~= old(writer)@ + encode_all::<T>(vs.take(i + 1)).0);
                }
                return Err(e);
            },
        }
        assert(writer@ =~= old(writer)@ + encode_all::<T>(vs.take(i + 1)).0);
        i += 1;
    }
    assert(vs.take(i as int) =~= vs);
    Ok(())
}

/// What writing `vs` with its length before it does.
pub open spec fn prefixed_emit<T: Encode>(vs: Seq<T::V>) -> Emitted {
    emit_then(usize_emit(vs.len() as usize), encode_all::<T>(vs))
}

/// Writes the number of elements of `buf` as a varint, then each element; more elements
/// than fit in an `i32` is an error.
pub fn write_prefixed_array<T: Encode>(buf: &[T], writer: &mut Vec<u8>) -> (res: Result<()>)
    ensures
        encoded(old(writer)@, final(writer)@, res, prefixed_emit::<T>(buf.deep_view())),
{
    let len_usize = buf.len();
    if len_usize > i32::MAX as usize {
        return Err(Error::IntOverflow(len_usize));
    }
    let len = len_usize as i32;
    match write_i32_varint(writer, len) {
        Ok(()) => {},
        Err(e) => return Err(Error::IO(e)),
    }
    let ghost mid = writer@;
    let r = write_array(buf, writer);
    assert(writer@ =~= old(writer)@ + prefixed_emit::<T>(buf.deep_view()).0);
    match r {
        Ok(()) => Ok(()),
        Err(e) => Err(e),
    }
}

/// What reading `count` values one after another from the head of `s` does: it stops at
/// the first that fails.
pub open spec fn decode_many<T: Decode>(s: Seq<u8>, count: nat) -> Parsed<Seq<T::V>>
    decreases count,
{
    if count == 0 {
        Parsed::Done(seq![], 0)
    } else {
        match decode_many::<T>(s, (count - 1) as nat) {
            Parsed::Done(vs, m) => match T::decoding(s.skip(m as int)) {
                Parsed::Done(v, k) => Parsed::Done(vs.push(v), m + k),
                Parsed::Fail(e, c) => fail_after(m, e, c),
                Parsed::Stuck => Parsed::Stuck,
            },
            Parsed::Fail(e, c) => Parsed::Fail(e, c),
            Parsed::Stuck => Parsed::Stuck,
        }
    }
}

/// Once reading the first `c1` values fails, reading more fails the same way.
pub proof fn lemma_decode_many_stops<T: Decode>(s: Seq<u8>, c1: nat, c2: nat)
    requires
        c1 <= c2,
        !(decode_many::<T>(s, c1) is Done),
    ensures
        decode_many::<T>(s, c2) == decode_many::<T>(s, c1),
    decreases c2,
{
    if c2 > c1 {
        lemma_decode_many_stops::<T>(s, c1, (c2 - 1) as nat);
    }
}

/// What reading a length, then that many values, from the head of `s` does.
pub open spec fn prefixed_parse<T: Decode>(s: Seq<u8>) -> Parsed<Seq<T::V>> {
    match usize_parse(s) {
        Parsed::Done(len, n) => parsed_after(n, decode_many::<T>(s.skip(n as int), len as nat)),
        Parsed::Fail(k, c) => Parsed::Fail(k, c),
        Parsed::Stuck => Parsed::Stuck,
    }
}

/// Reads `count` values from the head of `reader`, pushing them onto `out`, which starts
/// empty.
pub(crate) fn read_many<T: Decode>(reader: &mut &[u8], count: usize, out: Vec<T>) -> (res: Result<Vec<T>>)
    requires
        out@.len() == 0,
        !(decode_many::<T>(old(reader)@, count as nat) is Stuck),
    ensures
        decoded(decode_many::<T>(old(reader)@, count as nat), old(reader)@, final(reader)@, res),
{
    let ghost s = reader@;
    let mut out = out;
    assert(out.deep_view() =~= Seq::<T::V>::empty());
    let mut i: usize = 0;
    while i < count
        invariant
            i <= count,
            s == old(reader)@,
            !(decode_many::<T>(s, count as nat) is Stuck),
            decode_many::<T>(s, i as nat) matches Parsed::Done(vs, m) && out.deep_view() == vs
                && m <= s.len() && reader@ == s.skip(m as int),
        decreases count - i,
    {
        let ghost m = s.len() - reader@.len();
        proof {
            if T::decoding(reader@) is Stuck {
                assert(decode_many::<T>(s, (i + 1) as nat) is Stuck);
                lemma_decode_many_stops::<T>(s, (i + 1) as nat, count as nat);
            }
        }
        let ghost before = reader@;
        let x = match T::proto772_decode(reader) {
            Ok(x) => x,
            Err(e) => {
                proof {
                    lemma_decode_many_stops::<T>(s, (i + 1) as nat, count as nat);
                }
                return Err(e);
            },
        };
        let ghost old_out = out.deep_view();
        out.push(x);
        assert(out.deep_view() =~= old_out.push(x.deep_view()));
        assert(reader@ =~= s.skip(s.len() - reader@.len()));
        i += 1;
    }
    Ok(out)
}

/// Reads a varint length, then that many values.
pub fn read_prefixed_array<T: Decode>(reader: &mut &[u8]) -> (res: Result<Vec<T>>)
    requires
        !(prefixed_parse::<T>(old(reader)@) is Stuck),
    ensures
        decoded(prefixed_parse::<T>(old(reader)@), old(reader)@, final(reader)@, res),
{
    let len = read_varint_as_usize(reader)?;
    let ghost n = (old(reader)@.len() - reader@.len()) as nat;
    assert(reader@ == old(reader)@.skip(n as int));
    let r = read_many::<T>(reader, len, Vec::with_capacity(len));
    proof {
        if r is Ok {
            assert(reader@ =~= old(reader)@.skip(n + (old(reader)@.skip(n as int).len() - reader@.len())));
        }
    }
    r
}

/// Whether reading `count` values from the head of `bytes` stays clear of a varint that
/// runs past five bytes.
fn many_decodable<T: Decode>(bytes: &[u8], count: usize) -> (res: bool)
    ensures
        res == !(decode_many::<T>(bytes@, count as nat) is Stuck),
{
    let ghost s = bytes@;
    let mut r: &[u8] = bytes;
    let mut i: usize = 0;
    while i < count
        invariant
            i <= count,
            s == bytes@,
            decode_many::<T>(s, i as nat) matches Parsed::Done(vs, m) && m <= s.len() && r@
                == s.skip(m as int),
        decreases count - i,
    {
        if !T::proto772_decodable(r) {
            proof {
                lemma_decode_many_stops::<T>(s, (i + 1) as nat, count as nat);
            }
            return false;
        }
        match T::proto772_decode(&mut r) {
            Ok(_) => {},
            Err(_) => {
                proof {
                    lemma_decode_many_stops::<T>(s, (i + 1) as nat, count as nat);
                }
                return true;
            },
        }
        i += 1;
    }
    true
}

/// Whether [`read_prefixed_array`] can read from `bytes`: no varint that it reaches runs
/// past five bytes.
pub fn prefixed_decodable<T: Decode>(bytes: &[u8]) -> (res: bool)
    ensures
        res == !(prefixed_parse::<T>(bytes@) is Stuck),
{
    let mut r: &[u8] = bytes;
    if !varint_fits(r) {
        return false;
    }
    let len = match read_varint_as_usize(&mut r) {
        Ok(len) => len,
        Err(_) => return true,
    };
    many_decodable::<T>(r, len)
}

/// What writing an optional value does: a boolean, then the value if there is one.
pub open spec fn option_emit<T: Encode>(o: Option<T::V>) -> Emitted {
    match o {
        None => (bool_bytes(false), None),
        Some(v) => emit_then((bool_bytes(true), None), T::encoding(v)),
    }
}

/// Writes whether there is a value, then the value if there is one.
pub fn write_option<T: Encode>(value: Option<&T>, writer: &mut Vec<u8>) -> (res: Result<()>)
    ensures
        encoded(old(writer)@, final(writer)@, res, option_emit::<T>(value.deep_view())),
{
    let is_some = value.is_some();
    write_bool(is_some, writer)?;
    if let Some(val) = value {
        let ghost mid = writer@;
        let r = val.proto772_encode(writer);
        assert(writer@ =~= old(writer)@ + option_emit::<T>(value.deep_view()).0);
        r?;
    }
    Ok(())
}

/// What reading an optional value from the head of `s` does.
pub open spec fn option_parse<T: Decode>(s: Seq<u8>) -> Parsed<Option<T::V>> {
    match bool_parse(s) {
        Parsed::Done(false, n) => Parsed::Done(None, n),
        Parsed::Done(true, n) => match T::decoding(s.skip(n as int)) {
            Parsed::Done(v, k) => Parsed::Done(Some(v), n + k),
            Parsed::Fail(e, c) => fail_after(n, e, c),
            Parsed::Stuck => Parsed::Stuck,
        },
        Parsed::Fail(k, c) => Parsed::Fail(k, c),
        Parsed::Stuck => Parsed::Stuck,
    }
}

/// Reads whether there is a value, then the value if there is one.
pub fn read_option<T: Decode>(reader: &mut &[u8]) -> (res: Result<Option<T>>)
    requires
        !(option_parse::<T>(old(reader)@) is Stuck),
    ensures
        decoded(option_parse::<T>(old(reader)@), old(reader)@, final(reader)@, res),
{
    let is_some = read_bool(reader)?;
    Ok(if is_some {
        let ghost mid = reader@;
        let data = T::proto772_decode(reader)?;
        assert(reader@ =~= old(reader)@.skip(1 + (mid.len() - reader@.len())));
        Some(data)
    } else {
        None
    })
}

/// Whether [`read_option`] can read from `bytes`: no varint that it reaches runs past
/// five bytes.
pub fn option_decodable<T: Decode>(bytes: &[u8]) -> (res: bool)
    ensures
        res == !(option_parse::<T>(bytes@) is Stuck),
{
    let mut r: &[u8] = bytes;
    match read_bool(&mut r) {
        Ok(true) => T::proto772_decodable(r),
        _ => true,
    }
}

/// The bytes of an optional string as [`write_option_string`] writes it.
pub open spec fn option_str_bytes(o: Option<Seq<char>>) -> Seq<u8> {
    match o {
        None => bool_bytes(false),
        Some(t) => bool_bytes(true) + str_bytes(t),
    }
}

/// Writes whether there is a string, then the string if there is one.
pub fn write_option_string(s: Option<&str>, writer: &mut Vec<u8>) -> (res: Result<()>)
    ensures
        encoded(old(writer)@, final(writer)@, res, (option_str_bytes(s.deep_view()), None)),
{
    write_bool(s.is_some(), writer)?;
    if let Some(string) = s {
        write_string(string, writer)?;
        assert(writer@ =~= old(writer)@ + option_str_bytes(s.deep_view()));
    }
    Ok(())
}

/// What reading a signed varint from the head of `s` does, failing with `on_eof` when the
/// input ends too early.
pub open spec fn varint_parse(s: Seq<u8>, on_eof: ErrorKind) -> Parsed<i32> {
    match varint_read(s) {
        Some((v, n)) => Parsed::Done(v, n),
        None => if varint_overlong(s) {
            Parsed::Stuck
        } else {
            Parsed::Fail(on_eof, s.len())
        },
    }
}

/// The two bytes of `v`, most significant first.
pub(crate) fn u16_to_be_bytes(v: u16) -> (res: [u8; 2])
    ensures
        res@ == be_bytes(v as nat, 2),
{
    let hi = (v >> 8) as u8;
    let lo = (v & 0xff) as u8;
    assert(hi == (v / 256) % 256 && lo == v % 256) by (bit_vector)
        requires
            hi == (v >> 8) as u8,
            lo == (v & 0xff) as u8,
    ;
    reveal_with_fuel(be_bytes, 3);
    let res = [hi, lo];
    assert(res@ =~= be_bytes(v as nat, 2));
    res
}

/// What reading a big-endian `u16` from the head of `s` does.
pub open spec fn u16_parse(s: Seq<u8>) -> Parsed<u16> {
    if s.len() < 2 {
        Parsed::Fail(ErrorKind::IO, s.len())
    } else {
        Parsed::Done(be_value(s.take(2)) as u16, 2)
    }
}

/// What reading a big-endian `i64` from the head of `s` does.
pub open spec fn i64_parse(s: Seq<u8>) -> Parsed<i64> {
    if s.len() < 8 {
        Parsed::Fail(ErrorKind::IO, s.len())
    } else {
        Parsed::Done((be_value(s.take(8)) as u64) as i64, 8)
    }
}

/// What reading a big-endian `u128` from the head of `s` does.
pub open spec fn u128_parse(s: Seq<u8>) -> Parsed<u128> {
    if s.len() < 16 {
        Parsed::Fail(ErrorKind::IO, s.len())
    } else {
        Parsed::Done(be_value(s.take(16)) as u128, 16)
    }
}

/// A length that [`write_usize_as_varint`] writes, [`read_varint_as_usize`] reads back,
/// whatever follows it.
pub proof fn lemma_usize_roundtrip(n: usize, rest: Seq<u8>)
    requires
        n <= i32::MAX,
    ensures
        usize_emit(n).1 is None,
        usize_parse(usize_emit(n).0 + rest) == Parsed::Done(n, usize_emit(n).0.len()),
        1 <= usize_emit(n).0.len() <= 5,
{
    lemma_varint_roundtrip(n as i32, rest);
}

/// A string that [`write_string`] writes, [`read_string`] reads back, whatever follows
/// it, provided that its UTF-8 length fits in an `i32` (the length is cast unchecked).
pub proof fn lemma_string_roundtrip(t: Seq<char>, rest: Seq<u8>)
    requires
        encode_utf8(t).len() <= i32::MAX,
    ensures
        string_parse(str_bytes(t) + rest) == Parsed::Done(t, str_bytes(t).len()),
{
    reveal(string_parse);
    let b = encode_utf8(t);
    let len = b.len() as usize;
    lemma_usize_roundtrip(len, b + rest);
    assert(str_bytes(t) + rest =~= usize_emit(len).0 + (b + rest));
    let n = usize_emit(len).0.len();
    assert((str_bytes(t) + rest).skip(n as int) =~= b + rest);
    assert((b + rest).take(len as int) =~= b);
    encode_utf8_valid_utf8(t);
    encode_utf8_decode_utf8(t);
}

/// A boolean that [`write_bool`] writes, [`read_bool`] reads back.
pub proof fn lemma_bool_roundtrip(value: bool, rest: Seq<u8>)
    ensures
        bool_parse(bool_bytes(value) + rest) == Parsed::Done(value, 1),
{
}

/// Values of `T` that read back as they were written, whatever follows them.
pub open spec fn reads_back<T: Encode + Decode>(v: T::V) -> bool {
    &&& T::encoding(v).1 is None
    &&& forall|rest: Seq<u8>|
        #[trigger] T::decoding(T::encoding(v).0 + rest) == Parsed::Done(v, T::encoding(v).0.len())
}

/// An optional value that [`write_option`] writes, [`read_option`] reads back, where the
/// value, if any, reads back.
pub proof fn lemma_option_roundtrip<T: Encode + Decode>(o: Option<T::V>, rest: Seq<u8>)
    requires
        o matches Some(v) ==> reads_back::<T>(v),
    ensures
        option_emit::<T>(o).1 is None,
        option_parse::<T>(option_emit::<T>(o).0 + rest) == Parsed::Done(o, option_emit::<T>(o).0.len()),
{
    let e = option_emit::<T>(o);
    match o {
        None => {},
        Some(v) => {
            let ev = T::encoding(v).0;
            assert(e.0 + rest =~= bool_bytes(true) + (ev + rest));
            assert((e.0 + rest).skip(1) =~= ev + rest);
            assert(T::decoding(ev + rest) == Parsed::Done(v, ev.len()));
        },
    }
}

/// Values written one after another with [`write_array`] read back one after another,
/// whatever follows them, where each of them reads back.
pub proof fn lemma_many_roundtrip<T: Encode + Decode>(vs: Seq<T::V>, rest: Seq<u8>)
    requires
        forall|i: int| 0 <= i < vs.len() ==> reads_back::<T>(#[trigger] vs[i]),
    ensures
        encode_all::<T>(vs).1 is None,
        decode_many::<T>(encode_all::<T>(vs).0 + rest, vs.len()) == Parsed::Done(
            vs,
            encode_all::<T>(vs).0.len(),
        ),
    decreases vs.len(),
{
    if vs.len() == 0 {
        assert(vs =~= Seq::<T::V>::empty());
    } else {
        let init = vs.drop_last();
        let x = vs.last();
        assert(reads_back::<T>(vs[vs.len() - 1]));
        let ex = T::encoding(x).0;
        let ei = encode_all::<T>(init).0;
        assert forall|i: int| 0 <= i < init.len() implies reads_back::<T>(#[trigger] init[i]) by {
            assert(init[i] == vs[i]);
        }
        lemma_many_roundtrip::<T>(init, ex + rest);
        let all = encode_all::<T>(vs).0 + rest;
        assert(all =~= ei + (ex + rest));
        assert(all.skip(ei.len() as int) =~= ex + rest);
        assert(T::decoding(ex + rest) == Parsed::Done(x, ex.len()));
        assert(init.push(x) =~= vs);
        assert(encode_all::<T>(vs) == (ei + ex, Option::<usize>::None));
        assert(decode_many::<T>(all, (vs.len() - 1) as nat) == Parsed::Done(init, ei.len()));
    }
}

/// Values that [`write_prefixed_array`] writes, [`read_prefixed_array`] reads back,
/// whatever follows them, where each of them reads back and their number fits in an
/// `i32`.
pub proof fn lemma_prefixed_roundtrip<T: Encode + Decode>(vs: Seq<T::V>, rest: Seq<u8>)
    requires
        vs.len() <= i32::MAX,
        forall|i: int| 0 <= i < vs.len() ==> reads_back::<T>(#[trigger] vs[i]),
    ensures
        prefixed_emit::<T>(vs).1 is None,
        prefixed_parse::<T>(prefixed_emit::<T>(vs).0 + rest) == Parsed::Done(
            vs,
            prefixed_emit::<T>(vs).0.len(),
        ),
{
    let len = vs.len() as usize;
    let body = encode_all::<T>(vs).0;
    lemma_many_roundtrip::<T>(vs, rest);
    lemma_usize_roundtrip(len, body + rest);
    let all = prefixed_emit::<T>(vs).0 + rest;
    assert(all =~= usize_emit(len).0 + (body + rest));
    assert(all.skip(usize_emit(len).0.len() as int) =~= body + rest);
}

/// A varint that is written reads back, whatever follows it.
pub proof fn lemma_varint_parse_roundtrip(v: i32, on_eof: ErrorKind, rest: Seq<u8>)
    ensures
        varint_parse(varint_i32(v) + rest, on_eof) == Parsed::Done(v, varint_i32(v).len()),
{
    lemma_varint_roundtrip(v, rest);
}

/// Two big-endian bytes read back as the `u16` they were written from.
pub proof fn lemma_u16_roundtrip(v: u16, rest: Seq<u8>)
    ensures
        u16_parse(be_bytes(v as nat, 2) + rest) == Parsed::Done(v, 2),
{
    lemma_pow256_values();
    lemma_be_roundtrip(v as nat, 2);
    lemma_be_prefix(v as nat, 2, rest);
}

/// Eight big-endian bytes read back as the `i64` they were written from.
pub proof fn lemma_i64_roundtrip(v: i64, rest: Seq<u8>)
    ensures
        i64_parse(be_bytes((v as u64) as nat, 8) + rest) == Parsed::Done(v, 8),
{
    lemma_pow256_values();
    lemma_be_roundtrip((v as u64) as nat, 8);
    lemma_be_prefix((v as u64) as nat, 8, rest);
    assert((v as u64) as i64 == v) by (bit_vector);
}

/// Sixteen big-endian bytes read back as the `u128` they were written from.
pub proof fn lemma_u128_roundtrip(v: u128, rest: Seq<u8>)
    ensures
        u128_parse(be_bytes(v as nat, 16) + rest) == Parsed::Done(v, 16),
{
    lemma_pow256_values();
    lemma_be_roundtrip(v as nat, 16);
    lemma_be_prefix(v as nat, 16, rest);
}

/// A string reads back through [`Encode`] and [`Decode`] when its UTF-8 length fits in an
/// `i32`.
pub proof fn lemma_string_reads_back(t: Seq<char>)
    requires
        encode_utf8(t).len() <= i32::MAX,
    ensures
        <String as Encode>::encoding(t) == (str_bytes(t), Option::<usize>::None),
        reads_back::<String>(t),
{
    assert(<String as Encode>::encoding(t).0 =~= str_bytes(t));
    assert forall|rest: Seq<u8>|
        #[trigger] <String as Decode>::decoding(<String as Encode>::encoding(t).0 + rest)
            == Parsed::Done(t, <String as Encode>::encoding(t).0.len()) by {
        lemma_string_roundtrip(t, rest);
    }
}

/// A byte reads back through [`Encode`] and [`Decode`].
pub proof fn lemma_u8_reads_back(b: u8)
    ensures
        reads_back::<u8>(b),
{
    assert forall|rest: Seq<u8>|
        #[trigger] <u8 as Decode>::decoding(<u8 as Encode>::encoding(b).0 + rest)
            == Parsed::Done(b, 1) by {
        assert((seq![b] + rest)[0] == b);
    }
}

/// Bytes that [`write_prefixed_array`] writes, [`read_prefixed_array`] reads back,
/// whatever follows them, when their number fits in an `i32`.
pub proof fn lemma_bytes_prefixed_roundtrip(d: Seq<u8>, rest: Seq<u8>)
    requires
        d.len() <= i32::MAX,
    ensures
        prefixed_emit::<u8>(d).1 is None,
        prefixed_parse::<u8>(prefixed_emit::<u8>(d).0 + rest) == Parsed::Done(
            d,
            prefixed_emit::<u8>(d).0.len(),
        ),
{
    assert forall|i: int| 0 <= i < d.len() implies reads_back::<u8>(#[trigger] d[i]) by {
        lemma_u8_reads_back(d[i]);
    }
    lemma_prefixed_roundtrip::<u8>(d, rest);
}

} // verus!
