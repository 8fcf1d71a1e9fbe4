//! The wire layout of every payload, field by field: what encoding writes, in terms of the
//! shared field formats (varints, strings, big-endian integers, boolean bytes), and how
//! decoding reads the same fields back, in the same order.
use vstd::prelude::*;
use vstd::utf8::encode_utf8;
use crate::encoding::{Decode, Encode, Error, ErrorKind, Packet, Parsed};
use crate::handshaking::common::{state_from_id, State};
use crate::handshaking::serverbound::Handshake;
use crate::login::clientbound::{
    CookieRequest, Disconnect, EncryptionRequest, LoginPluginRequest, LoginSuccess,
    SetCompression,
};
use crate::login::common::Property;
use crate::login::serverbound::{
    CookieResponse, EncryptionResponse, LoginAcknowledged, LoginPluginResponse, LoginStart,
};
use crate::status::clientbound::{PongResponse, StatusResponse};
use crate::status::serverbound::{PingRequest, StatusRequest};
use crate::util::{
    bool_bytes, bool_parse, i64_parse, lemma_encode_all_bytes, prefixed_emit, prefixed_parse,
    str_bytes, string_parse, u128_parse, u16_parse, varint_parse,
};
use crate::wire::{be_bytes, varint_i32};

verus! {

/// The number that stands for each state on the wire.
pub open spec fn state_number(st: State) -> i32 {
    match st {
        State::Status => 1,
        State::Login => 2,
        State::Transfer => 3,
    }
}

/// The state that a number on the wire stands for, if any.
pub open spec fn numbered_state(id: i32) -> Option<State> {
    if id == 1 {
        Some(State::Status)
    } else if id == 2 {
        Some(State::Login)
    } else if id == 3 {
        Some(State::Transfer)
    } else {
        None
    }
}

/// The byte that stands for a boolean on the wire.
pub open spec fn flag_byte(b: bool) -> u8 {
    if b {
        1
    } else {
        0
    }
}

/// The states are numbered Status 1, Login 2 and Transfer 3, both ways: a state is written
/// as its number, each of the three numbers reads back as its state, and every other number
/// is refused with [`Error::BadState`] carrying it.
pub proof fn lemma_state_numbers(st: State, id: i32)
    ensures
        st.spec_id() == state_number(st),
        numbered_state(state_number(st)) == Some(st),
        numbered_state(id) matches Some(s) ==> state_from_id(id) == Ok::<State, Error>(s),
        numbered_state(id) is None ==> state_from_id(id) == Err::<State, Error>(Error::BadState(id)),
{
}

/// A boolean is the single byte `1` for true and `0` for false; reading takes one byte, gives
/// back `false` for `0` and `true` for `1`, refuses any other byte with [`Error::BadBool`]
/// carrying it, and fails with [`Error::IO`] on empty input.
pub proof fn lemma_bool_byte(b: bool, x: u8, rest: Seq<u8>)
    ensures
        bool_bytes(b) == seq![flag_byte(b)],
        x == 0 ==> bool_parse(seq![x] + rest) == Parsed::Done(false, 1),
        x == 1 ==> bool_parse(seq![x] + rest) == Parsed::Done(true, 1),
        x > 1 ==> bool_parse(seq![x] + rest) == Parsed::<bool>::Fail(ErrorKind::BadBool(x), 1),
        bool_parse(Seq::empty()) == Parsed::<bool>::Fail(ErrorKind::IO, 0),
{
    assert((seq![x] + rest)[0] == x);
}

/// The element formats that arrays and options are built from: a byte is written as itself
/// and read as the first byte of the input; a string as an element is written as
/// [`str_bytes`] writes it, unless its UTF-8 length exceeds `i32::MAX`, which fails with
/// [`Error::IntOverflow`] before anything is written, and is read as [`string_parse`] reads
/// it; a byte array as an element is read as a count and that many bytes.
pub proof fn lemma_field_codecs(b: u8, t: Seq<char>, s: Seq<u8>)
    ensures
        <u8 as Encode>::encoding(b) == (seq![b], Option::<usize>::None),
        <u8 as Decode>::decoding(s) == if s.len() == 0 {
            Parsed::Fail(ErrorKind::IO, 0)
        } else {
            Parsed::Done(s[0], 1)
        },
        <String as Encode>::encoding(t) == if (encode_utf8(t).len() as usize) > i32::MAX {
            (Seq::<u8>::empty(), Some(encode_utf8(t).len() as usize))
        } else {
            (str_bytes(t), Option::<usize>::None)
        },
        <String as Decode>::decoding(s) == string_parse(s),
        <Vec<u8> as Decode>::decoding(s) == prefixed_parse::<u8>(s),
{
}

/// A handshake is written as the protocol version as a varint, the server address as a
/// string, the port in two big-endian bytes and the number of the next state as a varint,
/// in that order, and writing it cannot fail.
pub proof fn lemma_handshake_layout(v: <Handshake as DeepView>::V)
    ensures
        Handshake::payload_encoding(v) == (
            varint_i32(v.0) + str_bytes(v.1) + be_bytes(v.2 as nat, 2) + varint_i32(
                state_number(v.3),
            ),
            Option::<usize>::None,
        ),
{
}

/// A handshake is read as a varint, a string, two big-endian bytes and a varint, in that
/// order; the last varint is taken through the state numbering, and a number that is no
/// state is refused with [`Error::BadState`] after all four fields were read. A varint that
/// ends early fails with [`Error::VarintWriter`].
pub proof fn lemma_handshake_reads(s: Seq<u8>)
    ensures
        Handshake::payload_decoding(s) == match varint_parse(s, ErrorKind::VarintWriter) {
            Parsed::Done(version, n1) => match string_parse(s.skip(n1 as int)) {
                Parsed::Done(address, n2) => match u16_parse(s.skip((n1 + n2) as int)) {
                    Parsed::Done(port, n3) => match varint_parse(
                        s.skip((n1 + n2 + n3) as int),
                        ErrorKind::VarintWriter,
                    ) {
                        Parsed::Done(id, n4) => match numbered_state(id) {
                            Some(st) => Parsed::Done(
                                (version, address, port, st),
                                n1 + n2 + n3 + n4,
                            ),
                            None => Parsed::Fail(ErrorKind::BadState(id), n1 + n2 + n3 + n4),
                        },
                        Parsed::Fail(k, c) => Parsed::Fail(k, n1 + n2 + n3 + c),
                        Parsed::Stuck => Parsed::Stuck,
                    },
                    Parsed::Fail(k, c) => Parsed::Fail(k, n1 + n2 + c),
                    Parsed::Stuck => Parsed::Stuck,
                },
                Parsed::Fail(k, c) => Parsed::Fail(k, n1 + c),
                Parsed::Stuck => Parsed::Stuck,
            },
            Parsed::Fail(k, c) => Parsed::Fail(k, c),
            Parsed::Stuck => Parsed::Stuck,
        },
{
}

/// A disconnect is written as its reason as a string and nothing more.
pub proof fn lemma_disconnect_layout(v: Seq<char>)
    ensures
        Disconnect::payload_encoding(v) == (str_bytes(v), Option::<usize>::None),
{
}

/// A disconnect is read as one string and nothing more.
pub proof fn lemma_disconnect_reads(s: Seq<u8>)
    ensures
        Disconnect::payload_decoding(s) == string_parse(s),
{
}

/// An encryption request is written as the server id, the public key and the verify token
/// as strings, then the authentication flag as one byte, `1` or `0`.
pub proof fn lemma_encryption_request_layout(v: <EncryptionRequest as DeepView>::V)
    ensures
        EncryptionRequest::payload_encoding(v) == (
            str_bytes(v.0) + str_bytes(v.1) + str_bytes(v.2) + seq![flag_byte(v.3)],
            Option::<usize>::None,
        ),
{
}

/// An encryption request is read as three strings, then a boolean byte.
pub proof fn lemma_encryption_request_reads(s: Seq<u8>)
    ensures
        EncryptionRequest::payload_decoding(s) == match string_parse(s) {
            Parsed::Done(id, n1) => match string_parse(s.skip(n1 as int)) {
                Parsed::Done(key, n2) => match string_parse(s.skip((n1 + n2) as int)) {
                    Parsed::Done(token, n3) => match bool_parse(s.skip((n1 + n2 + n3) as int)) {
                        Parsed::Done(auth, n4) => Parsed::Done(
                            (id, key, token, auth),
                            n1 + n2 + n3 + n4,
                        ),
                        Parsed::Fail(k, c) => Parsed::Fail(k, n1 + n2 + n3 + c),
                        Parsed::Stuck => Parsed::Stuck,
                    },
                    Parsed::Fail(k, c) => Parsed::Fail(k, n1 + n2 + c),
                    Parsed::Stuck => Parsed::Stuck,
                },
                Parsed::Fail(k, c) => Parsed::Fail(k, n1 + c),
                Parsed::Stuck => Parsed::Stuck,
            },
            Parsed::Fail(k, c) => Parsed::Fail(k, c),
            Parsed::Stuck => Parsed::Stuck,
        },
{
}

/// A cookie request is written as its key as a string and nothing more.
pub proof fn lemma_cookie_request_layout(v: Seq<char>)
    ensures
        CookieRequest::payload_encoding(v) == (str_bytes(v), Option::<usize>::None),
{
}

/// A cookie request is read as one string and nothing more.
pub proof fn lemma_cookie_request_reads(s: Seq<u8>)
    ensures
        CookieRequest::payload_decoding(s) == string_parse(s),
{
}

/// A login start is written as the player's name as a string, then the UUID in sixteen
/// big-endian bytes.
pub proof fn lemma_login_start_layout(v: <LoginStart as DeepView>::V)
    ensures
        LoginStart::payload_encoding(v) == (
            str_bytes(v.0) + be_bytes(v.1 as nat, 16),
            Option::<usize>::None,
        ),
{
}

/// A login start is read as a string, then sixteen big-endian bytes.
pub proof fn lemma_login_start_reads(s: Seq<u8>)
    ensures
        LoginStart::payload_decoding(s) == match string_parse(s) {
            Parsed::Done(name, n1) => match u128_parse(s.skip(n1 as int)) {
                Parsed::Done(uuid, n2) => Parsed::Done((name, uuid), n1 + n2),
                Parsed::Fail(k, c) => Parsed::Fail(k, n1 + c),
                Parsed::Stuck => Parsed::Stuck,
            },
            Parsed::Fail(k, c) => Parsed::Fail(k, c),
            Parsed::Stuck => Parsed::Stuck,
        },
{
}

/// A set-compression packet is written as the threshold as a varint and nothing more.
pub proof fn lemma_set_compression_layout(v: i32)
    ensures
        SetCompression::payload_encoding(v) == (varint_i32(v), Option::<usize>::None),
{
}

/// A set-compression packet is read as one varint; one that ends early fails with
/// [`Error::IO`].
pub proof fn lemma_set_compression_reads(s: Seq<u8>)
    ensures
        SetCompression::payload_decoding(s) == varint_parse(s, ErrorKind::IO),
{
}

/// A login plugin request is written as the message id as a varint, the channel as a
/// string, then the data's bytes with no length before them.
pub proof fn lemma_login_plugin_request_layout(v: <LoginPluginRequest as DeepView>::V)
    ensures
        LoginPluginRequest::payload_encoding(v) == (
            varint_i32(v.0) + str_bytes(v.1) + v.2,
            Option::<usize>::None,
        ),
{
}

/// A login plugin request is read as a varint and a string; everything after them is the
/// data, and all of the input is taken.
pub proof fn lemma_login_plugin_request_reads(s: Seq<u8>)
    ensures
        LoginPluginRequest::payload_decoding(s) == match varint_parse(s, ErrorKind::IO) {
            Parsed::Done(id, n1) => match string_parse(s.skip(n1 as int)) {
                Parsed::Done(channel, n2) => Parsed::Done(
                    (id, channel, s.skip((n1 + n2) as int)),
                    s.len(),
                ),
                Parsed::Fail(k, c) => Parsed::Fail(k, n1 + c),
                Parsed::Stuck => Parsed::Stuck,
            },
            Parsed::Fail(k, c) => Parsed::Fail(k, c),
            Parsed::Stuck => Parsed::Stuck,
        },
{
}

/// A profile property is written as its name and value as strings, then a boolean byte that
/// says whether a signature follows and, if one does, the signature as a string; a
/// signature whose UTF-8 length exceeds `i32::MAX` fails with [`Error::IntOverflow`] after
/// the boolean byte.
pub proof fn lemma_property_layout(v: <Property as DeepView>::V)
    ensures
        <Property as Encode>::encoding(v) == match v.2 {
            None => (str_bytes(v.0) + str_bytes(v.1) + seq![0u8], Option::<usize>::None),
            Some(sig) => if (encode_utf8(sig).len() as usize) > i32::MAX {
                (
                    str_bytes(v.0) + str_bytes(v.1) + seq![1u8],
                    Some(encode_utf8(sig).len() as usize),
                )
            } else {
                (str_bytes(v.0) + str_bytes(v.1) + seq![1u8] + str_bytes(sig), None)
            },
        },
{
    if let Some(sig) = v.2 {
        if (encode_utf8(sig).len() as usize) <= i32::MAX {
            assert(str_bytes(v.0) + str_bytes(v.1) + seq![1u8] + str_bytes(sig) =~= str_bytes(v.0)
                + str_bytes(v.1) + (seq![1u8] + (varint_i32((encode_utf8(sig).len() as usize) as i32)
                + encode_utf8(sig))));
        }
    }
}

/// A profile property is read as two strings, then a boolean byte and, if it is `1`, a
/// third string, the signature.
pub proof fn lemma_property_reads(s: Seq<u8>)
    ensures
        <Property as Decode>::decoding(s) == match string_parse(s) {
            Parsed::Done(name, n1) => match string_parse(s.skip(n1 as int)) {
                Parsed::Done(value, n2) => match bool_parse(s.skip((n1 + n2) as int)) {
                    Parsed::Done(false, n3) => Parsed::Done((name, value, None), n1 + n2 + n3),
                    Parsed::Done(true, n3) => match string_parse(s.skip((n1 + n2) as int).skip(n3 as int)) {
                        Parsed::Done(sig, n4) => Parsed::Done(
                            (name, value, Some(sig)),
                            n1 + n2 + n3 + n4,
                        ),
                        Parsed::Fail(k, c) => Parsed::Fail(k, n1 + n2 + n3 + c),
                        Parsed::Stuck => Parsed::Stuck,
                    },
                    Parsed::Fail(k, c) => Parsed::Fail(k, n1 + n2 + c),
                    Parsed::Stuck => Parsed::Stuck,
                },
                Parsed::Fail(k, c) => Parsed::Fail(k, n1 + c),
                Parsed::Stuck => Parsed::Stuck,
            },
            Parsed::Fail(k, c) => Parsed::Fail(k, c),
            Parsed::Stuck => Parsed::Stuck,
        },
{
}

/// A login success is written as the UUID in sixteen big-endian bytes, the username and the
/// name as strings, then the number of properties and each property; where the properties
/// fail, the whole fails the same way.
pub proof fn lemma_login_success_layout(v: <LoginSuccess as DeepView>::V)
    ensures
        LoginSuccess::payload_encoding(v) == (
            be_bytes(v.0 as nat, 16) + str_bytes(v.1) + str_bytes(v.2) + prefixed_emit::<
                Property,
            >(v.3).0,
            prefixed_emit::<Property>(v.3).1,
        ),
{
}

/// A login success is read as sixteen big-endian bytes, two strings, then a count and that
/// many properties.
pub proof fn lemma_login_success_reads(s: Seq<u8>)
    ensures
        LoginSuccess::payload_decoding(s) == match u128_parse(s) {
            Parsed::Done(uuid, n1) => match string_parse(s.skip(n1 as int)) {
                Parsed::Done(username, n2) => match string_parse(s.skip((n1 + n2) as int)) {
                    Parsed::Done(name, n3) => match prefixed_parse::<Property>(
                        s.skip((n1 + n2 + n3) as int),
                    ) {
                        Parsed::Done(props, n4) => Parsed::Done(
                            (uuid, username, name, props),
                            n1 + n2 + n3 + n4,
                        ),
                        Parsed::Fail(k, c) => Parsed::Fail(k, n1 + n2 + n3 + c),
                        Parsed::Stuck => Parsed::Stuck,
                    },
                    Parsed::Fail(k, c) => Parsed::Fail(k, n1 + n2 + c),
                    Parsed::Stuck => Parsed::Stuck,
                },
                Parsed::Fail(k, c) => Parsed::Fail(k, n1 + c),
                Parsed::Stuck => Parsed::Stuck,
            },
            Parsed::Fail(k, c) => Parsed::Fail(k, c),
            Parsed::Stuck => Parsed::Stuck,
        },
{
}

/// An encryption response is written as the shared secret's length as a varint and its
/// bytes, then the verify token's length and its bytes; a length above `i32::MAX` fails
/// with [`Error::IntOverflow`] before anything of that array is written.
pub proof fn lemma_encryption_response_layout(v: <EncryptionResponse as DeepView>::V)
    requires
        v.0.len() <= usize::MAX,
        v.1.len() <= usize::MAX,
    ensures
        EncryptionResponse::payload_encoding(v) == if v.0.len() > i32::MAX {
            (Seq::<u8>::empty(), Some(v.0.len() as usize))
        } else if v.1.len() > i32::MAX {
            (varint_i32(v.0.len() as i32) + v.0, Some(v.1.len() as usize))
        } else {
            (
                varint_i32(v.0.len() as i32) + v.0 + varint_i32(v.1.len() as i32) + v.1,
                Option::<usize>::None,
            )
        },
{
    lemma_encode_all_bytes(v.0);
    lemma_encode_all_bytes(v.1);
}

/// An encryption response is read as two byte arrays, each a count and that many bytes.
pub proof fn lemma_encryption_response_reads(s: Seq<u8>)
    ensures
        EncryptionResponse::payload_decoding(s) == match prefixed_parse::<u8>(s) {
            Parsed::Done(secret, n1) => match prefixed_parse::<u8>(s.skip(n1 as int)) {
                Parsed::Done(token, n2) => Parsed::Done((secret, token), n1 + n2),
                Parsed::Fail(k, c) => Parsed::Fail(k, n1 + c),
                Parsed::Stuck => Parsed::Stuck,
            },
            Parsed::Fail(k, c) => Parsed::Fail(k, c),
            Parsed::Stuck => Parsed::Stuck,
        },
{
}

/// A login plugin response is written as the message id as a varint, then the byte `0`
/// when there is no data, or the byte `1` and the data's bytes with no length before them.
pub proof fn lemma_login_plugin_response_layout(v: <LoginPluginResponse as DeepView>::V)
    ensures
        LoginPluginResponse::payload_encoding(v) == match v.1 {
            None => (varint_i32(v.0) + seq![0u8], Option::<usize>::None),
            Some(d) => (varint_i32(v.0) + seq![1u8] + d, None),
        },
{
    if let Some(d) = v.1 {
        lemma_encode_all_bytes(d);
        assert(varint_i32(v.0) + seq![1u8] + d =~= varint_i32(v.0) + (seq![1u8] + d));
    }
}

/// A login plugin response is read as a varint, then a boolean byte and, if it is `1`, a
/// count and that many bytes.
pub proof fn lemma_login_plugin_response_reads(s: Seq<u8>)
    ensures
        LoginPluginResponse::payload_decoding(s) == match varint_parse(s, ErrorKind::IO) {
            Parsed::Done(id, n1) => match bool_parse(s.skip(n1 as int)) {
                Parsed::Done(false, n2) => Parsed::Done((id, None), n1 + n2),
                Parsed::Done(true, n2) => match prefixed_parse::<u8>(s.skip(n1 as int).skip(n2 as int)) {
                    Parsed::Done(data, n3) => Parsed::Done((id, Some(data)), n1 + n2 + n3),
                    Parsed::Fail(k, c) => Parsed::Fail(k, n1 + n2 + c),
                    Parsed::Stuck => Parsed::Stuck,
                },
                Parsed::Fail(k, c) => Parsed::Fail(k, n1 + c),
                Parsed::Stuck => Parsed::Stuck,
            },
            Parsed::Fail(k, c) => Parsed::Fail(k, c),
            Parsed::Stuck => Parsed::Stuck,
        },
{
}

/// A login acknowledgement has an empty payload: nothing is written and nothing is read.
pub proof fn lemma_login_acknowledged_layout(s: Seq<u8>)
    ensures
        LoginAcknowledged::payload_encoding(()) == (Seq::<u8>::empty(), Option::<usize>::None),
        LoginAcknowledged::payload_decoding(s) == Parsed::Done((), 0),
{
}

/// A cookie response is written as the key as a string, then the byte `0` when there is no
/// cookie, or the byte `1` and the cookie's bytes with no length before them.
pub proof fn lemma_cookie_response_layout(v: <CookieResponse as DeepView>::V)
    ensures
        CookieResponse::payload_encoding(v) == match v.1 {
            None => (str_bytes(v.0) + seq![0u8], Option::<usize>::None),
            Some(d) => (str_bytes(v.0) + seq![1u8] + d, None),
        },
{
    if let Some(d) = v.1 {
        lemma_encode_all_bytes(d);
        assert(str_bytes(v.0) + seq![1u8] + d =~= str_bytes(v.0) + (seq![1u8] + d));
    }
}

/// A cookie response is read as a string, then a boolean byte and, if it is `1`, a count
/// and that many bytes.
pub proof fn lemma_cookie_response_reads(s: Seq<u8>)
    ensures
        CookieResponse::payload_decoding(s) == match string_parse(s) {
            Parsed::Done(key, n1) => match bool_parse(s.skip(n1 as int)) {
                Parsed::Done(false, n2) => Parsed::Done((key, None), n1 + n2),
                Parsed::Done(true, n2) => match prefixed_parse::<u8>(s.skip(n1 as int).skip(n2 as int)) {
                    Parsed::Done(data, n3) => Parsed::Done((key, Some(data)), n1 + n2 + n3),
                    Parsed::Fail(k, c) => Parsed::Fail(k, n1 + n2 + c),
                    Parsed::Stuck => Parsed::Stuck,
                },
                Parsed::Fail(k, c) => Parsed::Fail(k, n1 + c),
                Parsed::Stuck => Parsed::Stuck,
            },
            Parsed::Fail(k, c) => Parsed::Fail(k, c),
            Parsed::Stuck => Parsed::Stuck,
        },
{
}

/// A status response is written as its JSON document as a string and read as one string,
/// nothing more.
pub proof fn lemma_status_response_layout(v: Seq<char>, s: Seq<u8>)
    ensures
        StatusResponse::payload_encoding(v) == (str_bytes(v), Option::<usize>::None),
        StatusResponse::payload_decoding(s) == string_parse(s),
{
}

/// A status request has an empty payload: nothing is written and nothing is read.
pub proof fn lemma_status_request_layout(s: Seq<u8>)
    ensures
        StatusRequest::payload_encoding(()) == (Seq::<u8>::empty(), Option::<usize>::None),
        StatusRequest::payload_decoding(s) == Parsed::Done((), 0),
{
}

/// Ping and pong are each written as the timestamp's two's-complement bits in eight
/// big-endian bytes, and read as eight big-endian bytes.
pub proof fn lemma_ping_pong_layout(t: i64, s: Seq<u8>)
    ensures
        PingRequest::payload_encoding(t) == (be_bytes((t as u64) as nat, 8), Option::<usize>::None),
        PongResponse::payload_encoding(t) == (be_bytes((t as u64) as nat, 8), Option::<usize>::None),
        PingRequest::payload_decoding(s) == i64_parse(s),
        PongResponse::payload_decoding(s) == i64_parse(s),
{
}

} // verus!
