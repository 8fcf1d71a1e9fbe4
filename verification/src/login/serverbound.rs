use vstd::prelude::*;
use vstd::utf8::encode_utf8;
use crate::encoding::{
    emit_then, fail_after, payload_reads_back, Emitted, Error, ErrorKind, Packet, Parsed,
    Result,
};
use crate::stream::{read_i32_varint, read_u128_be, write_i32_varint, write_u128_be};
use crate::util::{
    lemma_bytes_prefixed_roundtrip, lemma_option_roundtrip, lemma_string_roundtrip,
    lemma_u128_roundtrip, lemma_varint_parse_roundtrip, option_decodable, option_emit,
    option_parse, prefixed_decodable, prefixed_emit, prefixed_parse, read_option,
    read_prefixed_array, read_string, str_bytes, string_parse, u128_parse, varint_fits,
    varint_parse, write_option, write_prefixed_array, write_string,
};
use crate::wire::{be_bytes, lemma_be_prefix, lemma_varint_span_len, varint_i32};

verus! {

broadcast use vstd::seq_lib::lemma_seq_skip_of_skip;

/// The client starts the login: the player's name and UUID.
pub struct LoginStart {
    pub name: String,
    pub player_uuid: u128,
}

impl DeepView for LoginStart {
    type V = (Seq<char>, u128);

    open spec fn deep_view(&self) -> Self::V {
        (self.name@, self.player_uuid)
    }
}

impl Packet for LoginStart {
    const PACKET_ID: i32 = 0x00;

    /// The name as a string, then the UUID in sixteen big-endian bytes.
    open spec fn payload_encoding(v: Self::V) -> Emitted {
        (str_bytes(v.0) + be_bytes(v.1 as nat, 16), None)
    }

    /// A string, then sixteen big-endian bytes.
    open spec fn payload_decoding(s: Seq<u8>) -> Parsed<Self::V> {
        match string_parse(s) {
            Parsed::Done(name, n1) => match u128_parse(s.skip(n1 as int)) {
                Parsed::Done(uuid, n2) => Parsed::Done((name, uuid), n1 + n2),
                Parsed::Fail(k, c) => fail_after(n1, k, c),
                Parsed::Stuck => Parsed::Stuck,
            },
            Parsed::Fail(k, c) => Parsed::Fail(k, c),
            Parsed::Stuck => Parsed::Stuck,
        }
    }

    fn encode_payload(&self, writer: &mut Vec<u8>) -> (res: Result<()>)
        ensures
            res is Ok,
            final(writer)@ == old(writer)@ + str_bytes(self.name@) + be_bytes(
                self.player_uuid as nat,
                16,
            ),
    {
        write_string(self.name.as_str(), writer)?;
        match write_u128_be(writer, self.player_uuid) {
            Ok(()) => {},
            Err(e) => return Err(Error::IO(e)),
        }
        assert(writer@ =~= old(writer)@ + Self::payload_encoding(self.deep_view()).0);
        Ok(())
    }

    fn decodable(bytes: &[u8]) -> (res: bool) {
        varint_fits(bytes)
    }

    fn decode_payload(reader: &mut &[u8]) -> (res: Result<Self>) {
        let ghost s = reader@;
        let name = read_string(reader)?;
        assert(reader@ =~= s.skip(s.len() - reader@.len()));
        let player_uuid = match read_u128_be(reader) {
            Ok(v) => v,
            Err(e) => return Err(Error::IO(e)),
        };
        assert(reader@ =~= s.skip(s.len() - reader@.len()));
        Ok(Self { name, player_uuid })
    }
}

/// The client's answer to an encryption request: the shared secret and the verify token,
/// both encrypted.
pub struct EncryptionResponse {
    pub shared_secret: Vec<u8>,
    pub verify_token: Vec<u8>,
}

impl DeepView for EncryptionResponse {
    type V = (Seq<u8>, Seq<u8>);

    open spec fn deep_view(&self) -> Self::V {
        (self.shared_secret.deep_view(), self.verify_token.deep_view())
    }
}

impl Packet for EncryptionResponse {
    const PACKET_ID: i32 = 0x01;

    /// Each byte array with its length before it.
    open spec fn payload_encoding(v: Self::V) -> Emitted {
        emit_then(prefixed_emit::<u8>(v.0), prefixed_emit::<u8>(v.1))
    }

    /// Two byte arrays, each after its length.
    open spec fn payload_decoding(s: Seq<u8>) -> Parsed<Self::V> {
        match prefixed_parse::<u8>(s) {
            Parsed::Done(secret, n1) => match prefixed_parse::<u8>(s.skip(n1 as int)) {
                Parsed::Done(token, n2) => Parsed::Done((secret, token), n1 + n2),
                Parsed::Fail(k, c) => fail_after(n1, k, c),
                Parsed::Stuck => Parsed::Stuck,
            },
            Parsed::Fail(k, c) => Parsed::Fail(k, c),
            Parsed::Stuck => Parsed::Stuck,
        }
    }

    fn encode_payload(&self, writer: &mut Vec<u8>) -> (res: Result<()>) {
        let secret = self.shared_secret.as_slice();
        let token = self.verify_token.as_slice();
        assert(secret.deep_view() =~= self.shared_secret.deep_view());
        assert(token.deep_view() =~= self.verify_token.deep_view());
        write_prefixed_array(secret, writer)?;
        let r = write_prefixed_array(token, writer);
        assert(writer@ =~= old(writer)@ + Self::payload_encoding(self.deep_view()).0);
        r?;
        Ok(())
    }

    fn decodable(bytes: &[u8]) -> (res: bool) {
        let mut r: &[u8] = bytes;
        if !prefixed_decodable::<u8>(r) {
            return false;
        }
        if read_prefixed_array::<u8>(&mut r).is_err() {
            return true;
        }
        prefixed_decodable::<u8>(r)
    }

    fn decode_payload(reader: &mut &[u8]) -> (res: Result<Self>) {
        let ghost s = reader@;
        let shared_secret = read_prefixed_array::<u8>(reader)?;
        assert(reader@ =~= s.skip(s.len() - reader@.len()));
        let verify_token = read_prefixed_array::<u8>(reader)?;
        assert(reader@ =~= s.skip(s.len() - reader@.len()));
        Ok(Self { shared_secret, verify_token })
    }
}

/// The client's answer to a login plugin message: the message's id and, if the client
/// understood it, data.
pub struct LoginPluginResponse {
    message_id: i32,
    data: Option<Vec<u8>>,
}

impl DeepView for LoginPluginResponse {
    type V = (i32, Option<Seq<u8>>);

    closed spec fn deep_view(&self) -> Self::V {
        (self.message_id, self.data.deep_view())
    }
}

impl Packet for LoginPluginResponse {
    const PACKET_ID: i32 = 0x02;

    /// The id as a varint, then whether there is data and, if so, its bytes with no
    /// length before them.
    open spec fn payload_encoding(v: Self::V) -> Emitted {
        emit_then((varint_i32(v.0), None), option_emit::<Vec<u8>>(v.1))
    }

    /// A varint, then whether there is data and, if so, a count and that many bytes.
    open spec fn payload_decoding(s: Seq<u8>) -> Parsed<Self::V> {
        match varint_parse(s, ErrorKind::IO) {
            Parsed::Done(id, n1) => match option_parse::<Vec<u8>>(s.skip(n1 as int)) {
                Parsed::Done(data, n2) => Parsed::Done((id, data), n1 + n2),
                Parsed::Fail(k, c) => fail_after(n1, k, c),
                Parsed::Stuck => Parsed::Stuck,
            },
            Parsed::Fail(k, c) => Parsed::Fail(k, c),
            Parsed::Stuck => Parsed::Stuck,
        }
    }

    fn decodable(bytes: &[u8]) -> (res: bool) {
        let mut r: &[u8] = bytes;
        if !varint_fits(r) {
            return false;
        }
        proof {
            lemma_varint_span_len(r@, 5);
        }
        if read_i32_varint(&mut r).is_err() {
            return true;
        }
        option_decodable::<Vec<u8>>(r)
    }

    fn decode_payload(reader: &mut &[u8]) -> (res: Result<Self>) {
        let ghost s = reader@;
        proof {
            lemma_varint_span_len(s, 5);
        }
        let message_id = match read_i32_varint(reader) {
            Ok(v) => v,
            Err(e) => return Err(Error::IO(e)),
        };
        assert(reader@ =~= s.skip(s.len() - reader@.len()));
        let data = read_option::<Vec<u8>>(reader)?;
        assert(reader@ =~= s.skip(s.len() - reader@.len()));
        Ok(Self { message_id, data })
    }

    fn encode_payload(&self, writer: &mut Vec<u8>) -> (res: Result<()>) {
        match write_i32_varint(writer, self.message_id) {
            Ok(()) => {},
            Err(e) => return Err(Error::IO(e)),
        }
        let r = write_option(self.data.as_ref(), writer);
        assert(writer@ =~= old(writer)@ + Self::payload_encoding(self.deep_view()).0);
        r?;
        Ok(())
    }
}

/// The client acknowledges the login's success; it carries nothing.
pub struct LoginAcknowledged;

impl DeepView for LoginAcknowledged {
    type V = ();

    open spec fn deep_view(&self) -> () {
        ()
    }
}

impl Packet for LoginAcknowledged {
    const PACKET_ID: i32 = 0x03;

    /// No bytes.
    open spec fn payload_encoding(v: ()) -> Emitted {
        (seq![], None)
    }

    /// No bytes.
    open spec fn payload_decoding(s: Seq<u8>) -> Parsed<()> {
        Parsed::Done((), 0)
    }

    fn encode_payload(&self, _writer: &mut Vec<u8>) -> (res: Result<()>) {
        assert(_writer@ =~= old(_writer)@ + Seq::<u8>::empty());
        Ok(())
    }

    fn decodable(bytes: &[u8]) -> (res: bool) {
        true
    }

    fn decode_payload(_reader: &mut &[u8]) -> (res: Result<Self>) {
        assert(_reader@ =~= _reader@.skip(0));
        Ok(Self {})
    }
}

/// The client's answer to a cookie request: the key and, if the client has it, the
/// cookie.
pub struct CookieResponse {
    key: String,
    payload: Option<Vec<u8>>,
}

impl DeepView for CookieResponse {
    type V = (Seq<char>, Option<Seq<u8>>);

    closed spec fn deep_view(&self) -> Self::V {
        (self.key@, self.payload.deep_view())
    }
}

impl Packet for CookieResponse {
    const PACKET_ID: i32 = 0x04;

    /// The key as a string, then whether there is a cookie and, if so, its bytes with no
    /// length before them.
    open spec fn payload_encoding(v: Self::V) -> Emitted {
        emit_then((str_bytes(v.0), None), option_emit::<Vec<u8>>(v.1))
    }

    /// A string, then whether there is a cookie and, if so, a count and that many bytes.
    open spec fn payload_decoding(s: Seq<u8>) -> Parsed<Self::V> {
        match string_parse(s) {
            Parsed::Done(key, n1) => match option_parse::<Vec<u8>>(s.skip(n1 as int)) {
                Parsed::Done(payload, n2) => Parsed::Done((key, payload), n1 + n2),
                Parsed::Fail(k, c) => fail_after(n1, k, c),
                Parsed::Stuck => Parsed::Stuck,
            },
            Parsed::Fail(k, c) => Parsed::Fail(k, c),
            Parsed::Stuck => Parsed::Stuck,
        }
    }

    fn decodable(bytes: &[u8]) -> (res: bool) {
        let mut r: &[u8] = bytes;
        if !varint_fits(r) {
            return false;
        }
        if read_string(&mut r).is_err() {
            return true;
        }
        option_decodable::<Vec<u8>>(r)
    }

    fn decode_payload(reader: &mut &[u8]) -> (res: Result<Self>) {
        let ghost s = reader@;
        let key = read_string(reader)?;
        assert(reader@ =~= s.skip(s.len() - reader@.len()));
        let payload = read_option::<Vec<u8>>(reader)?;
        assert(reader@ =~= s.skip(s.len() - reader@.len()));
        Ok(Self { key, payload })
    }

    fn encode_payload(&self, writer: &mut Vec<u8>) -> (res: Result<()>) {
        write_string(self.key.as_str(), writer)?;
        let r = write_option(self.payload.as_ref(), writer);
        assert(writer@ =~= old(writer)@ + Self::payload_encoding(self.deep_view()).0);
        r?;
        Ok(())
    }
}

/// A login start reads back as it was written, whatever follows it, when the name's UTF-8
/// length fits in an `i32` (the length is cast unchecked).
pub proof fn lemma_login_start_roundtrip(v: <LoginStart as DeepView>::V)
    requires
        encode_utf8(v.0).len() <= i32::MAX,
    ensures
        payload_reads_back::<LoginStart>(v),
{
    let a = str_bytes(v.0);
    let b = be_bytes(v.1 as nat, 16);
    lemma_be_prefix(v.1 as nat, 16, seq![]);
    assert forall|rest: Seq<u8>|
        #[trigger] LoginStart::payload_decoding(LoginStart::payload_encoding(v).0 + rest)
            == Parsed::Done(v, LoginStart::payload_encoding(v).0.len()) by {
        let all = LoginStart::payload_encoding(v).0 + rest;
        assert(all =~= a + (b + rest));
        lemma_string_roundtrip(v.0, b + rest);
        assert(all.skip(a.len() as int) =~= b + rest);
        lemma_u128_roundtrip(v.1, rest);
    }
}

/// An encryption response reads back as it was written, whatever follows it, when the
/// lengths of its byte arrays fit in an `i32`.
pub proof fn lemma_encryption_response_roundtrip(v: <EncryptionResponse as DeepView>::V)
    requires
        v.0.len() <= i32::MAX,
        v.1.len() <= i32::MAX,
    ensures
        payload_reads_back::<EncryptionResponse>(v),
{
    let a = prefixed_emit::<u8>(v.0).0;
    let b = prefixed_emit::<u8>(v.1).0;
    lemma_bytes_prefixed_roundtrip(v.0, seq![]);
    lemma_bytes_prefixed_roundtrip(v.1, seq![]);
    assert forall|rest: Seq<u8>|
        #[trigger] EncryptionResponse::payload_decoding(EncryptionResponse::payload_encoding(v).0 + rest)
            == Parsed::Done(v, EncryptionResponse::payload_encoding(v).0.len()) by {
        let all = EncryptionResponse::payload_encoding(v).0 + rest;
        lemma_bytes_prefixed_roundtrip(v.0, b + rest);
        lemma_bytes_prefixed_roundtrip(v.1, rest);
        assert(all =~= a + (b + rest));
        assert(all.skip(a.len() as int) =~= b + rest);
    }
}

/// A login plugin response without data reads back as it was written, whatever follows it.
/// (With data it does not: the data goes out without its length, and comes back in after
/// one.)
pub proof fn lemma_login_plugin_response_roundtrip(v: <LoginPluginResponse as DeepView>::V)
    requires
        v.1 is None,
    ensures
        payload_reads_back::<LoginPluginResponse>(v),
{
    let a = varint_i32(v.0);
    assert forall|rest: Seq<u8>|
        #[trigger] LoginPluginResponse::payload_decoding(LoginPluginResponse::payload_encoding(v).0 + rest)
            == Parsed::Done(v, LoginPluginResponse::payload_encoding(v).0.len()) by {
        let b = option_emit::<Vec<u8>>(v.1).0;
        let all = LoginPluginResponse::payload_encoding(v).0 + rest;
        lemma_option_roundtrip::<Vec<u8>>(v.1, rest);
        lemma_varint_parse_roundtrip(v.0, ErrorKind::IO, b + rest);
        assert(all =~= a + (b + rest));
        assert(all.skip(a.len() as int) =~= b + rest);
    }
}

/// A login acknowledgement reads back as it was written: it has no bytes.
pub proof fn lemma_login_acknowledged_roundtrip(v: ())
    ensures
        payload_reads_back::<LoginAcknowledged>(v),
{
    assert forall|rest: Seq<u8>|
        #[trigger] LoginAcknowledged::payload_decoding(LoginAcknowledged::payload_encoding(v).0 + rest)
            == Parsed::Done(v, LoginAcknowledged::payload_encoding(v).0.len()) by {}
}

/// A cookie response without a cookie reads back as it was written, whatever follows it,
/// when the key's UTF-8 length fits in an `i32`. (With a cookie it does not: the cookie
/// goes out without its length, and comes back in after one.)
pub proof fn lemma_cookie_response_roundtrip(v: <CookieResponse as DeepView>::V)
    requires
        encode_utf8(v.0).len() <= i32::MAX,
        v.1 is None,
    ensures
        payload_reads_back::<CookieResponse>(v),
{
    let a = str_bytes(v.0);
    assert forall|rest: Seq<u8>|
        #[trigger] CookieResponse::payload_decoding(CookieResponse::payload_encoding(v).0 + rest)
            == Parsed::Done(v, CookieResponse::payload_encoding(v).0.len()) by {
        let b = option_emit::<Vec<u8>>(v.1).0;
        let all = CookieResponse::payload_encoding(v).0 + rest;
        lemma_option_roundtrip::<Vec<u8>>(v.1, rest);
        lemma_string_roundtrip(v.0, b + rest);
        assert(all =~= a + (b + rest));
        assert(all.skip(a.len() as int) =~= b + rest);
    }
}

} // verus!
