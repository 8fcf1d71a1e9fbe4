use vstd::prelude::*;
use vstd::utf8::encode_utf8;
use crate::encoding::{
    fail_after, payload_reads_back, Emitted, Error, ErrorKind, Packet, Parsed, Result,
};
use crate::handshaking::common::{state_from_id, State};
use crate::layout::state_number;
use crate::stream::{read_i32_varint, read_u16_be, write_all, write_i32_varint};
use crate::util::{
    lemma_string_roundtrip, lemma_u16_roundtrip, lemma_varint_parse_roundtrip, read_string,
    str_bytes, string_parse, u16_parse, u16_to_be_bytes, varint_fits, varint_parse,
    write_string,
};
use crate::wire::{be_bytes, lemma_be_prefix, lemma_varint_span_len, varint_i32};

verus! {

broadcast use vstd::seq_lib::lemma_seq_skip_of_skip;

/// The first packet of a connection: the client's protocol version, the address and port
/// it connected to, and the state it asks for next.
pub struct Handshake {
    pub protocol_version: i32,
    pub server_address: String,
    pub server_port: u16,
    pub next_state: State,
}

impl DeepView for Handshake {
    type V = (i32, Seq<char>, u16, State);

    open spec fn deep_view(&self) -> Self::V {
        (self.protocol_version, self.server_address@, self.server_port, self.next_state)
    }
}

impl Packet for Handshake {
    const PACKET_ID: i32 = 0x00;

    /// The version as a varint, the address as a string, the port in two big-endian bytes
    /// and the state's number as a varint.
    open spec fn payload_encoding(v: Self::V) -> Emitted {
        (varint_i32(v.0) + str_bytes(v.1) + be_bytes(v.2 as nat, 2) + varint_i32(v.3.spec_id()), None)
    }

    /// The fields in the order they are written; the varint reader's errors are kept apart
    /// as [`Error::VarintWriter`], and a number that is no state is refused.
    open spec fn payload_decoding(s: Seq<u8>) -> Parsed<Self::V> {
        match varint_parse(s, ErrorKind::VarintWriter) {
            Parsed::Done(version, n1) => match string_parse(s.skip(n1 as int)) {
                Parsed::Done(address, n2) => match u16_parse(s.skip((n1 + n2) as int)) {
                    Parsed::Done(port, n3) => match varint_parse(s.skip((n1 + n2 + n3) as int), ErrorKind::VarintWriter) {
                        Parsed::Done(id, n4) => match state_from_id(id) {
                            Ok(st) => Parsed::Done((version, address, port, st), n1 + n2 + n3 + n4),
                            Err(e) => Parsed::Fail(e.kind(), n1 + n2 + n3 + n4),
                        },
                        Parsed::Fail(k, c) => fail_after(n1 + n2 + n3, k, c),
                        Parsed::Stuck => Parsed::Stuck,
                    },
                    Parsed::Fail(k, c) => fail_after(n1 + n2, k, c),
                    Parsed::Stuck => Parsed::Stuck,
                },
                Parsed::Fail(k, c) => fail_after(n1, k, c),
                Parsed::Stuck => Parsed::Stuck,
            },
            Parsed::Fail(k, c) => Parsed::Fail(k, c),
            Parsed::Stuck => Parsed::Stuck,
        }
    }

    fn encode_payload(&self, writer: &mut Vec<u8>) -> (res: Result<()>)
        ensures
            res is Ok,
            final(writer)@ == old(writer)@ + varint_i32(self.protocol_version) + str_bytes(
                self.server_address@,
            ) + be_bytes(self.server_port as nat, 2) + varint_i32(state_number(self.next_state)),
    {
        match write_i32_varint(writer, self.protocol_version) {
            Ok(()) => {},
            Err(e) => return Err(Error::VarintWriter(e)),
        }
        write_string(self.server_address.as_str(), writer)?;
        let port = u16_to_be_bytes(self.server_port);
        match write_all(writer, &port) {
            Ok(()) => {},
            Err(e) => return Err(Error::IO(e)),
        }
        match write_i32_varint(writer, self.next_state.id()) {
            Ok(()) => {},
            Err(e) => return Err(Error::VarintWriter(e)),
        }
        assert(writer@ =~= old(writer)@ + Self::payload_encoding(self.deep_view()).0);
        Ok(())
    }

    fn decodable(bytes: &[u8]) -> (res: bool) {
        let mut r: &[u8] = bytes;
        if !varint_fits(r) {
            return false;
        }
        proof {
            lemma_varint_span_len(r@, 5);
        }
        if read_i32_varint(&mut r).is_err() {
            return true;
        }
        if !varint_fits(r) {
            return false;
        }
        if read_string(&mut r).is_err() {
            return true;
        }
        if read_u16_be(&mut r).is_err() {
            return true;
        }
        varint_fits(r)
    }

    fn decode_payload(reader: &mut &[u8]) -> (res: Result<Self>) {
        let ghost s = reader@;
        proof {
            lemma_varint_span_len(s, 5);
        }
        let protocol_version = match read_i32_varint(reader) {
            Ok(v) => v,
            Err(e) => return Err(Error::VarintWriter(e)),
        };
        let ghost n1 = (s.len() - reader@.len()) as nat;
        let server_address = read_string(reader)?;
        let ghost n2 = (s.len() - reader@.len() - n1) as nat;
        assert(reader@ =~= s.skip((n1 + n2) as int));
        let server_port = match read_u16_be(reader) {
            Ok(v) => v,
            Err(e) => return Err(Error::IO(e)),
        };
        assert(reader@ =~= s.skip((n1 + n2 + 2) as int));
        proof {
            lemma_varint_span_len(reader@, 5);
        }
        let id = match read_i32_varint(reader) {
            Ok(v) => v,
            Err(e) => return Err(Error::VarintWriter(e)),
        };
        assert(reader@ =~= s.skip(s.len() - reader@.len()));
        let next_state = State::try_from(id)?;
        Ok(Self { protocol_version, server_address, server_port, next_state })
    }
}

/// A handshake reads back as it was written, whatever follows it, when the address's
/// UTF-8 length fits in an `i32` (the length is cast unchecked).
pub proof fn lemma_handshake_roundtrip(v: <Handshake as DeepView>::V)
    requires
        encode_utf8(v.1).len() <= i32::MAX,
    ensures
        payload_reads_back::<Handshake>(v),
{
    let a = varint_i32(v.0);
    let b = str_bytes(v.1);
    let c = be_bytes(v.2 as nat, 2);
    let d = varint_i32(v.3.spec_id());
    lemma_be_prefix(v.2 as nat, 2, seq![]);
    assert forall|rest: Seq<u8>|
        #[trigger] Handshake::payload_decoding(Handshake::payload_encoding(v).0 + rest)
            == Parsed::Done(v, Handshake::payload_encoding(v).0.len()) by {
        let all = Handshake::payload_encoding(v).0 + rest;
        assert(all =~= a + (b + (c + (d + rest))));
        lemma_varint_parse_roundtrip(v.0, ErrorKind::VarintWriter, b + (c + (d + rest)));
        assert(all.skip(a.len() as int) =~= b + (c + (d + rest)));
        lemma_string_roundtrip(v.1, c + (d + rest));
        assert(all.skip((a.len() + b.len()) as int) =~= c + (d + rest));
        lemma_u16_roundtrip(v.2, d + rest);
        assert(all.skip((a.len() + b.len() + 2) as int) =~= d + rest);
        lemma_varint_parse_roundtrip(v.3.spec_id(), ErrorKind::VarintWriter, rest);
    }
}

} // verus!
