use vstd::prelude::*;
use vstd::utf8::encode_utf8;
use crate::encoding::{payload_reads_back, Emitted, Error, Packet, Parsed, Result};
use crate::stream::{read_i64_be, write_i64_be};
use crate::util::{
    i64_parse, lemma_i64_roundtrip, lemma_string_roundtrip, read_string, str_bytes,
    string_parse, varint_fits, write_string,
};
use crate::wire::{be_bytes, lemma_be_prefix};

verus! {

/// The server's answer to a status request: its status as a JSON document.
pub struct StatusResponse {
    pub json_response: String,
}

impl DeepView for StatusResponse {
    type V = Seq<char>;

    open spec fn deep_view(&self) -> Seq<char> {
        self.json_response@
    }
}

impl Packet for StatusResponse {
    const PACKET_ID: i32 = 0x00;

    /// The document as a string.
    open spec fn payload_encoding(v: Seq<char>) -> Emitted {
        (str_bytes(v), None)
    }

    /// A string.
    open spec fn payload_decoding(s: Seq<u8>) -> Parsed<Seq<char>> {
        string_parse(s)
    }

    fn encode_payload(&self, writer: &mut Vec<u8>) -> (res: Result<()>) {
        write_string(self.json_response.as_str(), writer)?;
        Ok(())
    }

    fn decodable(bytes: &[u8]) -> (res: bool) {
        varint_fits(bytes)
    }

    fn decode_payload(reader: &mut &[u8]) -> (res: Result<Self>) {
        Ok(Self { json_response: read_string(reader)? })
    }
}

/// The server's answer to a ping: the timestamp that the ping carried.
pub struct PongResponse {
    pub timestamp: i64,
}

impl DeepView for PongResponse {
    type V = i64;

    open spec fn deep_view(&self) -> i64 {
        self.timestamp
    }
}

impl Packet for PongResponse {
    const PACKET_ID: i32 = 0x01;

    /// The timestamp in eight big-endian bytes.
    open spec fn payload_encoding(v: i64) -> Emitted {
        (be_bytes((v as u64) as nat, 8), None)
    }

    /// Eight big-endian bytes.
    open spec fn payload_decoding(s: Seq<u8>) -> Parsed<i64> {
        i64_parse(s)
    }

    fn decodable(bytes: &[u8]) -> (res: bool) {
        true
    }

    fn decode_payload(reader: &mut &[u8]) -> (res: Result<Self>) {
        let timestamp = match read_i64_be(reader) {
            Ok(v) => v,
            Err(e) => return Err(Error::IO(e)),
        };
        Ok(Self { timestamp })
    }

    fn encode_payload(&self, writer: &mut Vec<u8>) -> (res: Result<()>) {
        match write_i64_be(writer, self.timestamp) {
            Ok(()) => {},
            Err(e) => return Err(Error::IO(e)),
        }
        Ok(())
    }
}

/// A status response reads back as it was written, whatever follows it, when the
/// document's UTF-8 length fits in an `i32` (the length is cast unchecked).
pub proof fn lemma_status_response_roundtrip(v: Seq<char>)
    requires
        encode_utf8(v).len() <= i32::MAX,
    ensures
        payload_reads_back::<StatusResponse>(v),
{
    assert forall|rest: Seq<u8>|
        #[trigger] StatusResponse::payload_decoding(StatusResponse::payload_encoding(v).0 + rest)
            == Parsed::Done(v, StatusResponse::payload_encoding(v).0.len()) by {
        lemma_string_roundtrip(v, rest);
    }
}

/// A pong reads back as it was written, whatever follows it.
pub proof fn lemma_pong_response_roundtrip(v: i64)
    ensures
        payload_reads_back::<PongResponse>(v),
{
    lemma_be_prefix((v as u64) as nat, 8, seq![]);
    assert forall|rest: Seq<u8>|
        #[trigger] PongResponse::payload_decoding(PongResponse::payload_encoding(v).0 + rest)
            == Parsed::Done(v, PongResponse::payload_encoding(v).0.len()) by {
        lemma_i64_roundtrip(v, rest);
    }
}

} // verus!
