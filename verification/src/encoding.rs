//! The error type, the spec-level model of what encoding and decoding do, the codec traits
//! and their implementations for strings, bytes, options and vectors.
use vstd::prelude::*;
use vstd::utf8::encode_utf8;
use crate::stream::{read_u8, write_bytes, write_u8};
use crate::util::{
    encode_all, option_decodable, option_emit, option_parse, prefixed_decodable, prefixed_parse,
    read_many, read_option, read_string, read_varint_as_usize, string_parse, usize_emit,
    varint_fits, write_array, write_bool, write_usize_as_varint,
};

verus! {

broadcast use vstd::seq_lib::lemma_seq_skip_of_skip;

/// The ways in which encoding or decoding a packet fails.
#[derive(Debug)]
pub enum Error {
    /// An I/O error of the varint reader, where a packet keeps it apart from other I/O
    /// errors.
    VarintWriter(std::io::Error),
    /// An I/O error: the input ended too early.
    IO(std::io::Error),
    /// A value that the protocol does not allow, such as a negative length.
    Invalid(&'static str),
    /// A string whose bytes are not UTF-8.
    FromUtf8(std::string::FromUtf8Error),
    /// A handshake's next state that is none of the known states.
    BadState(i32),
    /// A boolean byte other than `0` and `1`.
    BadBool(u8),
    /// A length that does not fit in the protocol's 32-bit signed varint.
    IntOverflow(usize),
}

/// Which of the errors of [`Error`] occurred, with the values that it carries where they
/// are plain.
pub enum ErrorKind {
    /// [`Error::VarintWriter`].
    VarintWriter,
    /// [`Error::IO`].
    IO,
    /// [`Error::Invalid`] with its message.
    Invalid(&'static str),
    /// [`Error::FromUtf8`].
    FromUtf8,
    /// [`Error::BadState`] with the number that was read.
    BadState(i32),
    /// [`Error::BadBool`] with the byte that was read.
    BadBool(u8),
    /// [`Error::IntOverflow`] with the length that did not fit.
    IntOverflow(usize),
}

impl Error {
    /// The kind of this error.
    pub open spec fn kind(self) -> ErrorKind {
        match self {
            Error::VarintWriter(_) => ErrorKind::VarintWriter,
            Error::IO(_) => ErrorKind::IO,
            Error::Invalid(m) => ErrorKind::Invalid(m),
            Error::FromUtf8(_) => ErrorKind::FromUtf8,
            Error::BadState(v) => ErrorKind::BadState(v),
            Error::BadBool(v) => ErrorKind::BadBool(v),
            Error::IntOverflow(v) => ErrorKind::IntOverflow(v),
        }
    }
}

/// The result of encoding or decoding.
pub type Result<T> = std::result::Result<T, Error>;

/// What decoding a value from the head of some input does: it yields the value (by its
/// model) and the number of bytes it took, fails with an error of the given kind, or
/// reaches a varint that its reader cannot take without panicking.
pub enum Parsed<V> {
    /// The value and the number of bytes it took.
    Done(V, nat),
    /// An error of this kind, and the number of bytes read before it returned: where the
    /// input ran out in the middle of a read, that is all of it.
    Fail(ErrorKind, nat),
    /// A varint longer than its reader can take.
    Stuck,
}

/// What encoding a value does: the bytes it writes, and, where it fails part way with
/// [`Error::IntOverflow`], the length that did not fit.
pub type Emitted = (Seq<u8>, Option<usize>);

/// `a`, then `b` unless `a` failed.
pub open spec fn emit_then(a: Emitted, b: Emitted) -> Emitted {
    if a.1 is Some {
        a
    } else {
        (a.0 + b.0, b.1)
    }
}

/// A failure of kind `k` that comes after the first `n` bytes, where what failed had read
/// `c` bytes of its own.
pub open spec fn fail_after<V>(n: nat, k: ErrorKind, c: nat) -> Parsed<V> {
    Parsed::Fail(k, n + c)
}

/// The outcome `q` of decoding what follows the first `n` bytes, counted from the start.
pub open spec fn parsed_after<V>(n: nat, q: Parsed<V>) -> Parsed<V> {
    match q {
        Parsed::Done(v, m) => Parsed::Done(v, n + m),
        Parsed::Fail(k, c) => fail_after(n, k, c),
        Parsed::Stuck => Parsed::Stuck,
    }
}

/// A call that appends to `before` and returns `res` did what `e` says.
pub open spec fn encoded(before: Seq<u8>, after: Seq<u8>, res: Result<()>, e: Emitted) -> bool {
    &&& after == before + e.0
    &&& match e.1 {
        None => res is Ok,
        Some(n) => res is Err && res->Err_0 == Error::IntOverflow(n),
    }
}

/// A call that read from `before`, left `after` and returned `res` did what `p` says.
pub open spec fn decoded<T: DeepView>(
    p: Parsed<T::V>,
    before: Seq<u8>,
    after: Seq<u8>,
    res: Result<T>,
) -> bool {
    match p {
        Parsed::Done(v, n) => res is Ok && res->Ok_0.deep_view() == v && n <= before.len()
            && after == before.skip(n as int),
        Parsed::Fail(k, c) => {
            &&& res is Err
            &&& res->Err_0.kind() == k
            &&& c <= before.len()
            &&& after == before.skip(c as int)
        },
        Parsed::Stuck => false,
    }
}

/// A packet of the protocol: its id and the encoding of its payload.
pub trait Packet: Sized + DeepView {
    const PACKET_ID: i32;

    /// What encoding a payload with the model `v` does.
    spec fn payload_encoding(v: <Self as DeepView>::V) -> Emitted;

    /// What decoding a payload from `input` does.
    spec fn payload_decoding(input: Seq<u8>) -> Parsed<<Self as DeepView>::V>;

    /// Appends the payload to `writer`.
    fn encode_payload(&self, writer: &mut Vec<u8>) -> (res: Result<()>)
        ensures
            encoded(old(writer)@, final(writer)@, res, Self::payload_encoding(self.deep_view())),
    ;

    /// Whether decoding a payload from `bytes` stays clear of a varint that runs past five
    /// bytes, which [`Packet::decode_payload`] requires.
    fn decodable(bytes: &[u8]) -> (res: bool)
        ensures
            res == !(Self::payload_decoding(bytes@) is Stuck),
    ;

    /// Reads a payload from the head of `reader`.
    fn decode_payload(reader: &mut &[u8]) -> (res: Result<Self>)
        requires
            !(Self::payload_decoding(old(reader)@) is Stuck),
        ensures
            decoded(Self::payload_decoding(old(reader)@), old(reader)@, final(reader)@, res),
    ;
}

/// Payloads with the model `v` that encode, and decode back to `v` using exactly their
/// bytes, whatever follows them.
pub open spec fn payload_reads_back<P: Packet>(v: P::V) -> bool {
    &&& P::payload_encoding(v).1 is None
    &&& forall|rest: Seq<u8>|
        #[trigger] P::payload_decoding(P::payload_encoding(v).0 + rest) == Parsed::Done(
            v,
            P::payload_encoding(v).0.len(),
        )
}

/// A value that can be written in the protocol's format.
pub trait Encode: Sized + DeepView {
    /// What encoding a value with the model `v` does.
    spec fn encoding(v: <Self as DeepView>::V) -> Emitted;

    /// Appends the value to `writer`.
    fn proto772_encode(&self, writer: &mut Vec<u8>) -> (res: Result<()>)
        ensures
            encoded(old(writer)@, final(writer)@, res, Self::encoding(self.deep_view())),
    ;
}

/// A value that can be read in the protocol's format.
pub trait Decode: Sized + DeepView {
    /// What decoding a value from `input` does.
    spec fn decoding(input: Seq<u8>) -> Parsed<<Self as DeepView>::V>;

    /// Whether decoding a value from `bytes` stays clear of a varint that runs past five
    /// bytes, which [`Decode::proto772_decode`] requires.
    fn proto772_decodable(bytes: &[u8]) -> (res: bool)
        ensures
            res == !(Self::decoding(bytes@) is Stuck),
    ;

    /// Reads a value from the head of `reader`.
    fn proto772_decode(reader: &mut &[u8]) -> (res: Result<Self>)
        requires
            !(Self::decoding(old(reader)@) is Stuck),
        ensures
            decoded(Self::decoding(old(reader)@), old(reader)@, final(reader)@, res),
    ;
}

impl Encode for String {
    /// Its UTF-8 length as a varint, refused above `i32::MAX`, then its UTF-8 bytes.
    open spec fn encoding(v: Seq<char>) -> Emitted {
        emit_then(usize_emit(encode_utf8(v).len() as usize), (encode_utf8(v), None))
    }

    fn proto772_encode(&self, writer: &mut Vec<u8>) -> (res: Result<()>) {
        write_usize_as_varint(writer, self.as_str().len())?;
        match write_bytes(writer, self.as_str().as_bytes()) {
            Ok(_) => {},
            Err(e) => return Err(Error::IO(e)),
        }
        assert(writer@ =~= old(writer)@ + Self::encoding(self@).0);
        Ok(())
    }
}

impl<T: Encode> Encode for Option<T> {
    /// A boolean, then the value if there is one.
    open spec fn encoding(v: Option<T::V>) -> Emitted {
        option_emit::<T>(v)
    }

    fn proto772_encode(&self, writer: &mut Vec<u8>) -> (res: Result<()>) {
        let is_some = self.is_some();
        write_bool(is_some, writer)?;
        if let Some(val) = self {
            let r = val.proto772_encode(writer);
            assert(writer@ =~= old(writer)@ + Self::encoding(self.deep_view()).0);
            r?;
        }
        Ok(())
    }
}

impl<T: Encode> Encode for Vec<T> {
    /// Each element in turn, with no length before them.
    open spec fn encoding(v: Seq<T::V>) -> Emitted {
        encode_all::<T>(v)
    }

    fn proto772_encode(&self, writer: &mut Vec<u8>) -> (res: Result<()>) {
        let elems = self.as_slice();
        assert(elems.deep_view() =~= self.deep_view());
        write_array(elems, writer)
    }
}

impl Encode for u8 {
    /// The byte itself.
    open spec fn encoding(v: u8) -> Emitted {
        (seq![v], None)
    }

    fn proto772_encode(&self, writer: &mut Vec<u8>) -> (res: Result<()>) {
        let r = write_u8(writer, *self);
        assert(writer@ =~= old(writer)@ + seq![*self]);
        match r {
            Ok(()) => Ok(()),
            Err(e) => Err(Error::IO(e)),
        }
    }
}

impl<T: Decode> Decode for Option<T> {
    /// A boolean, then the value if it is `true`.
    open spec fn decoding(input: Seq<u8>) -> Parsed<Option<T::V>> {
        option_parse::<T>(input)
    }

    fn proto772_decodable(bytes: &[u8]) -> (res: bool) {
        option_decodable::<T>(bytes)
    }

    fn proto772_decode(reader: &mut &[u8]) -> (res: Result<Self>) {
        read_option::<T>(reader)
    }
}

impl Decode for String {
    /// A varint length, then that many bytes of UTF-8.
    open spec fn decoding(input: Seq<u8>) -> Parsed<Seq<char>> {
        string_parse(input)
    }

    fn proto772_decodable(bytes: &[u8]) -> (res: bool) {
        varint_fits(bytes)
    }

    fn proto772_decode(reader: &mut &[u8]) -> (res: Result<Self>) {
        read_string(reader)
    }
}

impl Decode for u8 {
    /// One byte.
    open spec fn decoding(input: Seq<u8>) -> Parsed<u8> {
        if input.len() == 0 {
            Parsed::Fail(ErrorKind::IO, input.len())
        } else {
            Parsed::Done(input[0], 1)
        }
    }

    fn proto772_decodable(bytes: &[u8]) -> (res: bool) {
        true
    }

    fn proto772_decode(reader: &mut &[u8]) -> (res: Result<Self>) {
        match read_u8(reader) {
            Ok(v) => Ok(v),
            Err(e) => Err(Error::IO(e)),
        }
    }
}

impl<T: Decode> Decode for Vec<T> {
    /// A varint length, then that many elements.
    open spec fn decoding(input: Seq<u8>) -> Parsed<Seq<T::V>> {
        prefixed_parse::<T>(input)
    }

    fn proto772_decodable(bytes: &[u8]) -> (res: bool) {
        prefixed_decodable::<T>(bytes)
    }

    fn proto772_decode(reader: &mut &[u8]) -> (res: Result<Self>) {
        let len = read_varint_as_usize(reader)?;
        let ghost n = (old(reader)@.len() - reader@.len()) as nat;
        assert(reader@ == old(reader)@.skip(n as int));
        read_many::<T>(reader, len, Vec::new())
    }
}

impl From<std::io::Error> for Error {
    fn from(e: std::io::Error) -> (res: Self) {
        Error::IO(e)
    }
}

impl vstd::std_specs::convert::FromSpecImpl<std::io::Error> for Error {
    open spec fn obeys_from_spec() -> bool {
        true
    }

    /// An I/O error becomes [`Error::IO`].
    open spec fn from_spec(e: std::io::Error) -> Self {
        Error::IO(e)
    }
}

impl From<std::string::FromUtf8Error> for Error {
    fn from(e: std::string::FromUtf8Error) -> (res: Self) {
        Error::FromUtf8(e)
    }
}

impl vstd::std_specs::convert::FromSpecImpl<std::string::FromUtf8Error> for Error {
    open spec fn obeys_from_spec() -> bool {
        true
    }

    /// A UTF-8 error becomes [`Error::FromUtf8`].
    open spec fn from_spec(e: std::string::FromUtf8Error) -> Self {
        Error::FromUtf8(e)
    }
}

/// A packet as it comes off the wire, before its payload is decoded.
pub struct RawPacket {
    pub packet_id: i32,
    pub payload: Vec<u8>,
}

} // verus!
