use vstd::prelude::*;
use vstd::utf8::encode_utf8;
use crate::encoding::{
    emit_then, fail_after, payload_reads_back, Emitted, Error, ErrorKind, Packet, Parsed,
    Result,
};
use crate::layout::flag_byte;
use crate::login::common::{lemma_properties_roundtrip, Property};
use crate::stream::{read_i32_varint, read_to_end, read_u128_be, write_i32_varint, write_u128_be};
use crate::util::{
    bool_bytes, bool_parse, lemma_bool_roundtrip, lemma_encode_all_bytes,
    lemma_string_roundtrip, lemma_u128_roundtrip, lemma_varint_parse_roundtrip,
    prefixed_decodable, prefixed_emit, prefixed_parse, read_bool, read_prefixed_array,
    read_string, str_bytes, string_parse, u128_parse, varint_fits, varint_parse, write_array,
    write_bool, write_prefixed_array, write_string,
};
use crate::wire::{be_bytes, lemma_be_prefix, lemma_varint_span_len, varint_i32};

verus! {

broadcast use vstd::seq_lib::lemma_seq_skip_of_skip;

/// The server closes the login with a reason.
pub struct Disconnect {
    pub reason: String,
}

impl DeepView for Disconnect {
    type V = Seq<char>;

    open spec fn deep_view(&self) -> Seq<char> {
        self.reason@
    }
}

impl Packet for Disconnect {
    const PACKET_ID: i32 = 0x00;

    /// The reason as a string.
    open spec fn payload_encoding(v: Seq<char>) -> Emitted {
        (str_bytes(v), None)
    }

    /// A string.
    open spec fn payload_decoding(s: Seq<u8>) -> Parsed<Seq<char>> {
        string_parse(s)
    }

    fn encode_payload(&self, writer: &mut Vec<u8>) -> (res: Result<()>)
        ensures
            res is Ok,
            final(writer)@ == old(writer)@ + str_bytes(self.reason@),
    {
        write_string(self.reason.as_str(), writer)?;
        Ok(())
    }

    fn decodable(bytes: &[u8]) -> (res: bool) {
        varint_fits(bytes)
    }

    fn decode_payload(reader: &mut &[u8]) -> (res: Result<Self>) {
        let reason = read_string(reader)?;
        Ok(Self { reason })
    }
}

/// The server asks the client to set up encryption.
pub struct EncryptionRequest {
    pub server_id: String,
    pub public_key: String,
    pub verify_token: String,
    pub should_authenticate: bool,
}

impl DeepView for EncryptionRequest {
    type V = (Seq<char>, Seq<char>, Seq<char>, bool);

    open spec fn deep_view(&self) -> Self::V {
        (self.server_id@, self.public_key@, self.verify_token@, self.should_authenticate)
    }
}

impl Packet for EncryptionRequest {
    const PACKET_ID: i32 = 0x01;

    /// Three strings and a boolean byte.
    open spec fn payload_encoding(v: Self::V) -> Emitted {
        (str_bytes(v.0) + str_bytes(v.1) + str_bytes(v.2) + bool_bytes(v.3), None)
    }

    /// Three strings and a boolean byte.
    open spec fn payload_decoding(s: Seq<u8>) -> Parsed<Self::V> {
        match string_parse(s) {
            Parsed::Done(id, n1) => match string_parse(s.skip(n1 as int)) {
                Parsed::Done(key, n2) => match string_parse(s.skip((n1 + n2) as int)) {
                    Parsed::Done(token, n3) => match bool_parse(s.skip((n1 + n2 + n3) as int)) {
                        Parsed::Done(auth, n4) => Parsed::Done((id, key, token, auth), n1 + n2 + n3 + n4),
                        Parsed::Fail(k, c) => fail_after(n1 + n2 + n3, k, c),
                        Parsed::Stuck => Parsed::Stuck,
                    },
                    Parsed::Fail(k, c) => fail_after(n1 + n2, k, c),
                    Parsed::Stuck => Parsed::Stuck,
                },
                Parsed::Fail(k, c) => fail_after(n1, k, c),
                Parsed::Stuck => Parsed::Stuck,
            },
            Parsed::Fail(k, c) => Parsed::Fail(k, c),
            Parsed::Stuck => Parsed::Stuck,
        }
    }

    fn decodable(bytes: &[u8]) -> (res: bool) {
        let mut r: &[u8] = bytes;
        if !varint_fits(r) {
            return false;
        }
        if read_string(&mut r).is_err() {
            return true;
        }
        if !varint_fits(r) {
            return false;
        }
        if read_string(&mut r).is_err() {
            return true;
        }
        if !varint_fits(r) {
            return false;
        }
        if read_string(&mut r).is_err() {
            return true;
        }
        true
    }

    fn decode_payload(reader: &mut &[u8]) -> (res: Result<Self>) {
        let ghost s = reader@;
        let server_id = read_string(reader)?;
        assert(reader@ =~= s.skip(s.len() - reader@.len()));
        let public_key = read_string(reader)?;
        assert(reader@ =~= s.skip(s.len() - reader@.len()));
        let verify_token = read_string(reader)?;
        assert(reader@ =~= s.skip(s.len() - reader@.len()));
        let should_authenticate = read_bool(reader)?;
        assert(reader@ =~= s.skip(s.len() - reader@.len()));
        Ok(Self { server_id, public_key, verify_token, should_authenticate })
    }

    fn encode_payload(&self, writer: &mut Vec<u8>) -> (res: Result<()>)
        ensures
            res is Ok,
            final(writer)@ == old(writer)@ + str_bytes(self.server_id@) + str_bytes(
                self.public_key@,
            ) + str_bytes(self.verify_token@) + seq![flag_byte(self.should_authenticate)],
    {
        write_string(self.server_id.as_str(), writer)?;
        write_string(self.public_key.as_str(), writer)?;
        write_string(self.verify_token.as_str(), writer)?;
        write_bool(self.should_authenticate, writer)?;
        assert(writer@ =~= old(writer)@ + Self::payload_encoding(self.deep_view()).0);
        Ok(())
    }
}

/// The server accepts the login: the player's UUID, names and profile properties.
pub struct LoginSuccess {
    pub uuid: u128,
    pub username: String,
    pub name: String,
    pub property: Vec<Property>,
}

impl DeepView for LoginSuccess {
    type V = (u128, Seq<char>, Seq<char>, Seq<<Property as DeepView>::V>);

    open spec fn deep_view(&self) -> Self::V {
        (self.uuid, self.username@, self.name@, self.property.deep_view())
    }
}

impl Packet for LoginSuccess {
    const PACKET_ID: i32 = 0x02;

    /// The UUID in sixteen big-endian bytes, two strings, then the properties with their
    /// number before them.
    open spec fn payload_encoding(v: Self::V) -> Emitted {
        emit_then(
            (be_bytes(v.0 as nat, 16) + str_bytes(v.1) + str_bytes(v.2), None),
            prefixed_emit::<Property>(v.3),
        )
    }

    /// Sixteen big-endian bytes, two strings, then a count and that many properties.
    open spec fn payload_decoding(s: Seq<u8>) -> Parsed<Self::V> {
        match u128_parse(s) {
            Parsed::Done(uuid, n1) => match string_parse(s.skip(n1 as int)) {
                Parsed::Done(username, n2) => match string_parse(s.skip((n1 + n2) as int)) {
                    Parsed::Done(name, n3) => match prefixed_parse::<Property>(s.skip((n1 + n2 + n3) as int)) {
                        Parsed::Done(props, n4) => Parsed::Done((uuid, username, name, props), n1 + n2 + n3 + n4),
                        Parsed::Fail(k, c) => fail_after(n1 + n2 + n3, k, c),
                        Parsed::Stuck => Parsed::Stuck,
                    },
                    Parsed::Fail(k, c) => fail_after(n1 + n2, k, c),
                    Parsed::Stuck => Parsed::Stuck,
                },
                Parsed::Fail(k, c) => fail_after(n1, k, c),
                Parsed::Stuck => Parsed::Stuck,
            },
            Parsed::Fail(k, c) => Parsed::Fail(k, c),
            Parsed::Stuck => Parsed::Stuck,
        }
    }

    fn encode_payload(&self, writer: &mut Vec<u8>) -> (res: Result<()>) {
        match write_u128_be(writer, self.uuid) {
            Ok(()) => {},
            Err(e) => return Err(Error::IO(e)),
        }
        write_string(self.username.as_str(), writer)?;
        write_string(self.name.as_str(), writer)?;
        let props = self.property.as_slice();
        assert(props.deep_view() =~= self.property.deep_view());
        let r = write_prefixed_array(props, writer);
        assert(writer@ =~= old(writer)@ + Self::payload_encoding(self.deep_view()).0);
        r?;
        Ok(())
    }

    fn decodable(bytes: &[u8]) -> (res: bool) {
        let mut r: &[u8] = bytes;
        if read_u128_be(&mut r).is_err() {
            return true;
        }
        if !varint_fits(r) {
            return false;
        }
        if read_string(&mut r).is_err() {
            return true;
        }
        if !varint_fits(r) {
            return false;
        }
        if read_string(&mut r).is_err() {
            return true;
        }
        prefixed_decodable::<Property>(r)
    }

    fn decode_payload(reader: &mut &[u8]) -> (res: Result<Self>) {
        let ghost s = reader@;
        let uuid = match read_u128_be(reader) {
            Ok(v) => v,
            Err(e) => return Err(Error::IO(e)),
        };
        assert(reader@ =~= s.skip(s.len() - reader@.len()));
        let username = read_string(reader)?;
        assert(reader@ =~= s.skip(s.len() - reader@.len()));
        let name = read_string(reader)?;
        assert(reader@ =~= s.skip(s.len() - reader@.len()));
        let property = read_prefixed_array::<Property>(reader)?;
        assert(reader@ =~= s.skip(s.len() - reader@.len()));
        Ok(Self { uuid, username, name, property })
    }
}

/// The server turns on compression for packets from this size up.
pub struct SetCompression {
    pub threshold: i32,
}

impl DeepView for SetCompression {
    type V = i32;

    open spec fn deep_view(&self) -> i32 {
        self.threshold
    }
}

impl Packet for SetCompression {
    const PACKET_ID: i32 = 0x03;

    /// The threshold as a varint.
    open spec fn payload_encoding(v: i32) -> Emitted {
        (varint_i32(v), None)
    }

    /// A varint.
    open spec fn payload_decoding(s: Seq<u8>) -> Parsed<i32> {
        varint_parse(s, ErrorKind::IO)
    }

    fn decodable(bytes: &[u8]) -> (res: bool) {
        varint_fits(bytes)
    }

    fn decode_payload(reader: &mut &[u8]) -> (res: Result<Self>) {
        proof {
            lemma_varint_span_len(reader@, 5);
        }
        let treshold = match read_i32_varint(reader) {
            Ok(v) => v,
            Err(e) => return Err(Error::IO(e)),
        };
        Ok(Self { threshold: treshold })
    }

    fn encode_payload(&self, writer: &mut Vec<u8>) -> (res: Result<()>) {
        match write_i32_varint(writer, self.threshold) {
            Ok(()) => Ok(()),
            Err(e) => Err(Error::IO(e)),
        }
    }
}

/// A message of a login plugin: an id, a channel, and the data, which runs to the end of
/// the payload.
pub struct LoginPluginRequest {
    pub message_id: i32,
    pub channel: String,
    pub data: Vec<u8>,
}

impl DeepView for LoginPluginRequest {
    type V = (i32, Seq<char>, Seq<u8>);

    open spec fn deep_view(&self) -> Self::V {
        (self.message_id, self.channel@, self.data.deep_view())
    }
}

impl Packet for LoginPluginRequest {
    const PACKET_ID: i32 = 0x04;

    /// The id as a varint, the channel as a string, then the data's bytes as they are.
    open spec fn payload_encoding(v: Self::V) -> Emitted {
        (varint_i32(v.0) + str_bytes(v.1) + v.2, None)
    }

    /// A varint and a string, then everything that is left.
    open spec fn payload_decoding(s: Seq<u8>) -> Parsed<Self::V> {
        match varint_parse(s, ErrorKind::IO) {
            Parsed::Done(id, n1) => match string_parse(s.skip(n1 as int)) {
                Parsed::Done(channel, n2) => Parsed::Done(
                    (id, channel, s.skip((n1 + n2) as int)),
                    s.len(),
                ),
                Parsed::Fail(k, c) => fail_after(n1, k, c),
                Parsed::Stuck => Parsed::Stuck,
            },
            Parsed::Fail(k, c) => Parsed::Fail(k, c),
            Parsed::Stuck => Parsed::Stuck,
        }
    }

    fn encode_payload(&self, writer: &mut Vec<u8>) -> (res: Result<()>) {
        match write_i32_varint(writer, self.message_id) {
            Ok(()) => {},
            Err(e) => return Err(Error::IO(e)),
        }
        write_string(self.channel.as_str(), writer)?;
        let data = self.data.as_slice();
        proof {
            lemma_encode_all_bytes(data.deep_view());
            assert(data.deep_view() =~= self.data.deep_view());
        }
        write_array(data, writer)?;
        assert(writer@ =~= old(writer)@ + Self::payload_encoding(self.deep_view()).0);
        Ok(())
    }

    fn decodable(bytes: &[u8]) -> (res: bool) {
        let mut r: &[u8] = bytes;
        if !varint_fits(r) {
            return false;
        }
        proof {
            lemma_varint_span_len(r@, 5);
        }
        if read_i32_varint(&mut r).is_err() {
            return true;
        }
        if !varint_fits(r) {
            return false;
        }
        if read_string(&mut r).is_err() {
            return true;
        }
        true
    }

    fn decode_payload(reader: &mut &[u8]) -> (res: Result<Self>) {
        let ghost s = reader@;
        proof {
            lemma_varint_span_len(s, 5);
        }
        let message_id = match read_i32_varint(reader) {
            Ok(v) => v,
            Err(e) => return Err(Error::IO(e)),
        };
        assert(reader@ =~= s.skip(s.len() - reader@.len()));
        let channel = read_string(reader)?;
        assert(reader@ =~= s.skip(s.len() - reader@.len()));
        let ghost rest = reader@;
        let mut data = Vec::new();
        match read_to_end(reader, &mut data) {
            Ok(_) => {},
            Err(e) => return Err(Error::IO(e)),
        }
        assert(data.deep_view() =~= rest);
        assert(reader@ =~= s.skip(s.len() as int));
        Ok(Self { message_id, channel, data })
    }
}

/// The server asks for a cookie that it stored on the client.
pub struct CookieRequest {
    pub key: String,
}

impl DeepView for CookieRequest {
    type V = Seq<char>;

    open spec fn deep_view(&self) -> Seq<char> {
        self.key@
    }
}

impl Packet for CookieRequest {
    const PACKET_ID: i32 = 0x05;

    /// The key as a string.
    open spec fn payload_encoding(v: Seq<char>) -> Emitted {
        (str_bytes(v), None)
    }

    /// A string.
    open spec fn payload_decoding(s: Seq<u8>) -> Parsed<Seq<char>> {
        string_parse(s)
    }

    fn decodable(bytes: &[u8]) -> (res: bool) {
        varint_fits(bytes)
    }

    fn decode_payload(reader: &mut &[u8]) -> (res: Result<Self>) {
        let key = read_string(reader)?;
        Ok(Self { key })
    }

    fn encode_payload(&self, writer: &mut Vec<u8>) -> (res: Result<()>)
        ensures
            res is Ok,
            final(writer)@ == old(writer)@ + str_bytes(self.key@),
    {
        write_string(self.key.as_str(), writer)?;
        Ok(())
    }
}

/// A disconnect reads back as it was written, whatever follows it, when the reason's
/// UTF-8 length fits in an `i32` (the length is cast unchecked).
pub proof fn lemma_disconnect_roundtrip(v: Seq<char>)
    requires
        encode_utf8(v).len() <= i32::MAX,
    ensures
        payload_reads_back::<Disconnect>(v),
{
    assert forall|rest: Seq<u8>|
        #[trigger] Disconnect::payload_decoding(Disconnect::payload_encoding(v).0 + rest)
            == Parsed::Done(v, Disconnect::payload_encoding(v).0.len()) by {
        lemma_string_roundtrip(v, rest);
    }
}

/// An encryption request reads back as it was written, whatever follows it, when the UTF-8
/// lengths of its strings fit in an `i32` (they are cast unchecked).
pub proof fn lemma_encryption_request_roundtrip(v: <EncryptionRequest as DeepView>::V)
    requires
        encode_utf8(v.0).len() <= i32::MAX,
        encode_utf8(v.1).len() <= i32::MAX,
        encode_utf8(v.2).len() <= i32::MAX,
    ensures
        payload_reads_back::<EncryptionRequest>(v),
{
    let a = str_bytes(v.0);
    let b = str_bytes(v.1);
    let c = str_bytes(v.2);
    let d = bool_bytes(v.3);
    assert forall|rest: Seq<u8>|
        #[trigger] EncryptionRequest::payload_decoding(EncryptionRequest::payload_encoding(v).0 + rest)
            == Parsed::Done(v, EncryptionRequest::payload_encoding(v).0.len()) by {
        let all = EncryptionRequest::payload_encoding(v).0 + rest;
        assert(all =~= a + (b + (c + (d + rest))));
        lemma_string_roundtrip(v.0, b + (c + (d + rest)));
        assert(all.skip(a.len() as int) =~= b + (c + (d + rest)));
        lemma_string_roundtrip(v.1, c + (d + rest));
        assert(all.skip((a.len() + b.len()) as int) =~= c + (d + rest));
        lemma_string_roundtrip(v.2, d + rest);
        assert(all.skip((a.len() + b.len() + c.len()) as int) =~= d + rest);
        lemma_bool_roundtrip(v.3, rest);
    }
}

/// The login success `v` decodes from its bytes followed by `rest`, given that its
/// properties do.
proof fn lemma_login_success_decodes(v: <LoginSuccess as DeepView>::V, rest: Seq<u8>)
    requires
        encode_utf8(v.1).len() <= i32::MAX,
        encode_utf8(v.2).len() <= i32::MAX,
        prefixed_emit::<Property>(v.3).1 is None,
        prefixed_parse::<Property>(prefixed_emit::<Property>(v.3).0 + rest) == Parsed::Done(
            v.3,
            prefixed_emit::<Property>(v.3).0.len(),
        ),
    ensures
        LoginSuccess::payload_decoding(LoginSuccess::payload_encoding(v).0 + rest)
            == Parsed::Done(v, LoginSuccess::payload_encoding(v).0.len()),
{
    let a = be_bytes(v.0 as nat, 16);
    let b = str_bytes(v.1);
    let c = str_bytes(v.2);
    let d = prefixed_emit::<Property>(v.3).0;
    lemma_be_prefix(v.0 as nat, 16, seq![]);
    let all = LoginSuccess::payload_encoding(v).0 + rest;
    assert(all =~= a + (b + (c + (d + rest))));
    lemma_u128_roundtrip(v.0, b + (c + (d + rest)));
    assert(all.skip(16) =~= b + (c + (d + rest)));
    lemma_string_roundtrip(v.1, c + (d + rest));
    assert(all.skip((16 + b.len()) as int) =~= c + (d + rest));
    lemma_string_roundtrip(v.2, d + rest);
    assert(all.skip((16 + b.len() + c.len()) as int) =~= d + rest);
}

/// A login success reads back as it was written, whatever follows it, when the UTF-8
/// lengths of its strings and of its properties' strings fit in an `i32` and so does the
/// number of properties.
pub proof fn lemma_login_success_roundtrip(v: <LoginSuccess as DeepView>::V)
    requires
        encode_utf8(v.1).len() <= i32::MAX,
        encode_utf8(v.2).len() <= i32::MAX,
        v.3.len() <= i32::MAX,
        forall|i: int|
            0 <= i < v.3.len() ==> {
                &&& encode_utf8((#[trigger] v.3[i]).0).len() <= i32::MAX
                &&& encode_utf8(v.3[i].1).len() <= i32::MAX
                &&& v.3[i].2 matches Some(sig) ==> encode_utf8(sig).len() <= i32::MAX
            },
    ensures
        payload_reads_back::<LoginSuccess>(v),
{
    lemma_properties_roundtrip(v.3, seq![]);
    assert forall|rest: Seq<u8>|
        #[trigger] LoginSuccess::payload_decoding(LoginSuccess::payload_encoding(v).0 + rest)
            == Parsed::Done(v, LoginSuccess::payload_encoding(v).0.len()) by {
        lemma_properties_roundtrip(v.3, rest);
        lemma_login_success_decodes(v, rest);
    }
}

/// A set-compression packet reads back as it was written, whatever follows it.
pub proof fn lemma_set_compression_roundtrip(v: i32)
    ensures
        payload_reads_back::<SetCompression>(v),
{
    assert forall|rest: Seq<u8>|
        #[trigger] SetCompression::payload_decoding(SetCompression::payload_encoding(v).0 + rest)
            == Parsed::Done(v, SetCompression::payload_encoding(v).0.len()) by {
        lemma_varint_parse_roundtrip(v, ErrorKind::IO, rest);
    }
}

/// A login plugin request reads back as it was written, with whatever follows it taken
/// into its data (the data runs to the end of the input), when the channel's UTF-8 length
/// fits in an `i32` (it is cast unchecked); with nothing after it, it reads back exactly.
pub proof fn lemma_login_plugin_request_roundtrip(
    v: <LoginPluginRequest as DeepView>::V,
    rest: Seq<u8>,
)
    requires
        encode_utf8(v.1).len() <= i32::MAX,
    ensures
        LoginPluginRequest::payload_encoding(v).1 is None,
        LoginPluginRequest::payload_decoding(LoginPluginRequest::payload_encoding(v).0 + rest)
            == Parsed::Done(
            (v.0, v.1, v.2 + rest),
            LoginPluginRequest::payload_encoding(v).0.len() + rest.len(),
        ),
        rest.len() == 0 ==> LoginPluginRequest::payload_decoding(
            LoginPluginRequest::payload_encoding(v).0,
        ) == Parsed::Done(v, LoginPluginRequest::payload_encoding(v).0.len()),
{
    let a = varint_i32(v.0);
    let b = str_bytes(v.1);
    let all = LoginPluginRequest::payload_encoding(v).0 + rest;
    assert(all =~= a + (b + (v.2 + rest)));
    lemma_varint_parse_roundtrip(v.0, ErrorKind::IO, b + (v.2 + rest));
    assert(all.skip(a.len() as int) =~= b + (v.2 + rest));
    lemma_string_roundtrip(v.1, v.2 + rest);
    assert(all.skip((a.len() + b.len()) as int) =~= v.2 + rest);
    if rest.len() == 0 {
        assert(all =~= LoginPluginRequest::payload_encoding(v).0);
        assert(v.2 + rest =~= v.2);
    }
}

/// A cookie request reads back as it was written, whatever follows it, when the key's
/// UTF-8 length fits in an `i32` (the length is cast unchecked).
pub proof fn lemma_cookie_request_roundtrip(v: Seq<char>)
    requires
        encode_utf8(v).len() <= i32::MAX,
    ensures
        payload_reads_back::<CookieRequest>(v),
{
    assert forall|rest: Seq<u8>|
        #[trigger] CookieRequest::payload_decoding(CookieRequest::payload_encoding(v).0 + rest)
            == Parsed::Done(v, CookieRequest::payload_encoding(v).0.len()) by {
        lemma_string_roundtrip(v, rest);
    }
}

} // verus!
