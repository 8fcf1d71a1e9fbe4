use vstd::prelude::*;
use crate::encoding::{payload_reads_back, Emitted, Error, Packet, Parsed, Result};
use crate::stream::{read_i64_be, write_i64_be};
use crate::util::{i64_parse, lemma_i64_roundtrip};
use crate::wire::{be_bytes, lemma_be_prefix};

verus! {

/// A client's request for the server's status; it carries nothing.
pub struct StatusRequest {}

impl DeepView for StatusRequest {
    type V = ();

    open spec fn deep_view(&self) -> () {
        ()
    }
}

impl Packet for StatusRequest {
    const PACKET_ID: i32 = 0x00;

    /// No bytes.
    open spec fn payload_encoding(v: ()) -> Emitted {
        (seq![], None)
    }

    /// No bytes.
    open spec fn payload_decoding(s: Seq<u8>) -> Parsed<()> {
        Parsed::Done((), 0)
    }

    fn encode_payload(&self, _writer: &mut Vec<u8>) -> (res: Result<()>) {
        assert(_writer@ =~= old(_writer)@ + Seq::<u8>::empty());
        Ok(())
    }

    fn decodable(bytes: &[u8]) -> (res: bool) {
        true
    }

    fn decode_payload(_reader: &mut &[u8]) -> (res: Result<Self>) {
        assert(_reader@ =~= _reader@.skip(0));
        Ok(Self {})
    }
}

/// A client's ping, with a timestamp that the server sends back.
pub struct PingRequest {
    pub timestamp: i64,
}

impl DeepView for PingRequest {
    type V = i64;

    open spec fn deep_view(&self) -> i64 {
        self.timestamp
    }
}

impl Packet for PingRequest {
    const PACKET_ID: i32 = 0x01;

    /// The timestamp in eight big-endian bytes.
    open spec fn payload_encoding(v: i64) -> Emitted {
        (be_bytes((v as u64) as nat, 8), None)
    }

    /// Eight big-endian bytes.
    open spec fn payload_decoding(s: Seq<u8>) -> Parsed<i64> {
        i64_parse(s)
    }

    fn encode_payload(&self, writer: &mut Vec<u8>) -> (res: Result<()>) {
        match write_i64_be(writer, self.timestamp) {
            Ok(()) => {},
            Err(e) => return Err(Error::IO(e)),
        }
        Ok(())
    }

    fn decodable(bytes: &[u8]) -> (res: bool) {
        true
    }

    fn decode_payload(reader: &mut &[u8]) -> (res: Result<Self>) {
        let timestamp = match read_i64_be(reader) {
            Ok(v) => v,
            Err(e) => return Err(Error::IO(e)),
        };
        Ok(Self { timestamp })
    }
}

/// A status request reads back as it was written: it has no bytes.
pub proof fn lemma_status_request_roundtrip(v: ())
    ensures
        payload_reads_back::<StatusRequest>(v),
{
    assert forall|rest: Seq<u8>|
        #[trigger] StatusRequest::payload_decoding(StatusRequest::payload_encoding(v).0 + rest)
            == Parsed::Done(v, StatusRequest::payload_encoding(v).0.len()) by {}
}

/// A ping reads back as it was written, whatever follows it.
pub proof fn lemma_ping_request_roundtrip(v: i64)
    ensures
        payload_reads_back::<PingRequest>(v),
{
    lemma_be_prefix((v as u64) as nat, 8, seq![]);
    assert forall|rest: Seq<u8>|
        #[trigger] PingRequest::payload_decoding(PingRequest::payload_encoding(v).0 + rest)
            == Parsed::Done(v, PingRequest::payload_encoding(v).0.len()) by {
        lemma_i64_roundtrip(v, rest);
    }
}

} // verus!
