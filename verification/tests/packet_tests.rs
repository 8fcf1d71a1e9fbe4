use proto772::encoding::{Error, Packet};
use proto772::handshaking::common::State;
use proto772::handshaking::serverbound::Handshake;
use proto772::login::clientbound::{
    CookieRequest, Disconnect, EncryptionRequest, LoginPluginRequest, LoginSuccess,
    SetCompression,
};
use proto772::login::serverbound::{
    CookieResponse, EncryptionResponse, LoginAcknowledged, LoginPluginResponse, LoginStart,
};
use proto772::status::clientbound::{PongResponse, StatusResponse};
use proto772::status::serverbound::{PingRequest, StatusRequest};

fn encode<P: Packet>(p: &P) -> Vec<u8> {
    let mut w = Vec::new();
    p.encode_payload(&mut w).unwrap();
    w
}

#[test]
fn packet_ids() {
    assert_eq!(Handshake::PACKET_ID, 0x00);
    assert_eq!(StatusRequest::PACKET_ID, 0x00);
    assert_eq!(PingRequest::PACKET_ID, 0x01);
    assert_eq!(StatusResponse::PACKET_ID, 0x00);
    assert_eq!(PongResponse::PACKET_ID, 0x01);
    assert_eq!(Disconnect::PACKET_ID, 0x00);
    assert_eq!(EncryptionRequest::PACKET_ID, 0x01);
    assert_eq!(LoginSuccess::PACKET_ID, 0x02);
    assert_eq!(SetCompression::PACKET_ID, 0x03);
    assert_eq!(LoginPluginRequest::PACKET_ID, 0x04);
    assert_eq!(CookieRequest::PACKET_ID, 0x05);
    assert_eq!(LoginStart::PACKET_ID, 0x00);
    assert_eq!(EncryptionResponse::PACKET_ID, 0x01);
    assert_eq!(LoginPluginResponse::PACKET_ID, 0x02);
    assert_eq!(LoginAcknowledged::PACKET_ID, 0x03);
    assert_eq!(CookieResponse::PACKET_ID, 0x04);
}

#[test]
fn state_numbers() {
    assert!(matches!(State::try_from(1), Ok(State::Status)));
    assert!(matches!(State::try_from(2), Ok(State::Login)));
    assert!(matches!(State::try_from(3), Ok(State::Transfer)));
    assert!(matches!(State::try_from(7), Err(Error::BadState(7))));
    assert_eq!(State::Transfer.id(), 3);
}

#[test]
fn handshake_bytes_and_roundtrip() {
    let h = Handshake {
        protocol_version: 772,
        server_address: "localhost".to_string(),
        server_port: 25565,
        next_state: State::Login,
    };
    let w = encode(&h);
    let mut expected = vec![0x88, 0x0C, 0x12];
    expected.extend_from_slice(b"localhost");
    expected.extend_from_slice(&[0x63, 0xDD, 0x04]);
    assert_eq!(w, expected);
    let mut with_rest = w.clone();
    with_rest.push(0x55);
    let mut r: &[u8] = &with_rest;
    let back = Handshake::decode_payload(&mut r).unwrap();
    assert_eq!(back.protocol_version, 772);
    assert_eq!(back.server_address, "localhost");
    assert_eq!(back.server_port, 25565);
    assert!(matches!(back.next_state, State::Login));
    assert_eq!(r, &[0x55u8][..]);
}

#[test]
fn handshake_errors() {
    let mut r: &[u8] = &[];
    assert!(matches!(Handshake::decode_payload(&mut r), Err(Error::VarintWriter(_))));
    let mut r: &[u8] = &[0x02, 0x00, 0x01, 0x02, 0x08];
    assert!(matches!(Handshake::decode_payload(&mut r), Err(Error::BadState(4))));
    let mut r: &[u8] = &[0x02, 0x00, 0x01];
    assert!(matches!(Handshake::decode_payload(&mut r), Err(Error::IO(_))));
    let mut r: &[u8] = &[0x02, 0x00, 0x01, 0x02];
    assert!(matches!(Handshake::decode_payload(&mut r), Err(Error::VarintWriter(_))));
}

#[test]
fn status_packets() {
    assert!(encode(&StatusRequest {}).is_empty());
    let mut r: &[u8] = &[1, 2];
    StatusRequest::decode_payload(&mut r).unwrap();
    assert_eq!(r.len(), 2);

    let ping = PingRequest { timestamp: -2 };
    let w = encode(&ping);
    assert_eq!(w, vec![0xFF, 0xFF, 0xFF, 0xFF, 0xFF, 0xFF, 0xFF, 0xFE]);
    let mut r: &[u8] = &w;
    assert_eq!(PingRequest::decode_payload(&mut r).unwrap().timestamp, -2);

    let pong = PongResponse { timestamp: 0x0102030405060708 };
    let w = encode(&pong);
    assert_eq!(w, vec![1, 2, 3, 4, 5, 6, 7, 8]);
    let mut r: &[u8] = &w;
    assert_eq!(PongResponse::decode_payload(&mut r).unwrap().timestamp, 0x0102030405060708);
    let mut r: &[u8] = &w[..7];
    assert!(matches!(PongResponse::decode_payload(&mut r), Err(Error::IO(_))));

    let status = StatusResponse { json_response: "{}".to_string() };
    let w = encode(&status);
    assert_eq!(w, vec![4, b'{', b'}']);
    let mut r: &[u8] = &w;
    assert_eq!(StatusResponse::decode_payload(&mut r).unwrap().json_response, "{}");
}

#[test]
fn login_clientbound_packets() {
    let d = Disconnect { reason: "bye".to_string() };
    let mut r: &[u8] = &encode(&d);
    assert_eq!(Disconnect::decode_payload(&mut r).unwrap().reason, "bye");

    let e = EncryptionRequest {
        server_id: "".to_string(),
        public_key: "k".to_string(),
        verify_token: "t".to_string(),
        should_authenticate: true,
    };
    let w = encode(&e);
    assert_eq!(w, vec![0, 2, b'k', 2, b't', 1]);
    let mut r: &[u8] = &w;
    let back = EncryptionRequest::decode_payload(&mut r).unwrap();
    assert_eq!(back.public_key, "k");
    assert_eq!(back.verify_token, "t");
    assert!(back.should_authenticate);
    let mut r: &[u8] = &[0, 2, b'k', 2, b't', 5];
    assert!(matches!(EncryptionRequest::decode_payload(&mut r), Err(Error::BadBool(5))));

    let c = SetCompression { threshold: -256 };
    let w = encode(&c);
    assert_eq!(w, vec![0xFF, 0x03]);
    let mut r: &[u8] = &w;
    assert_eq!(SetCompression::decode_payload(&mut r).unwrap().threshold, -256);
    let mut r: &[u8] = &[];
    assert!(matches!(SetCompression::decode_payload(&mut r), Err(Error::IO(_))));

    let p = LoginPluginRequest { message_id: 1, channel: "c".to_string(), data: vec![9, 8] };
    let w = encode(&p);
    assert_eq!(w, vec![2, 2, b'c', 9, 8]);
    let mut r: &[u8] = &w;
    let back = LoginPluginRequest::decode_payload(&mut r).unwrap();
    assert_eq!(back.message_id, 1);
    assert_eq!(back.channel, "c");
    assert_eq!(back.data, vec![9, 8]);
    assert!(r.is_empty());

    let k = CookieRequest { key: "minecraft:k".to_string() };
    let mut r: &[u8] = &encode(&k);
    assert_eq!(CookieRequest::decode_payload(&mut r).unwrap().key, "minecraft:k");
}

#[test]
fn login_success_with_properties() {
    // uuid 1, username "a", name "b", two properties: ("n", "v", Some("s")) and ("m", "w", None)
    let mut bytes = vec![0u8; 15];
    bytes.push(1);
    bytes.extend_from_slice(&[2, b'a', 2, b'b', 4]);
    bytes.extend_from_slice(&[2, b'n', 2, b'v', 1, 2, b's']);
    bytes.extend_from_slice(&[2, b'm', 2, b'w', 0]);
    let mut r: &[u8] = &bytes;
    let s = LoginSuccess::decode_payload(&mut r).unwrap();
    assert!(r.is_empty());
    assert_eq!(s.uuid, 1);
    assert_eq!(s.username, "a");
    assert_eq!(s.name, "b");
    assert_eq!(s.property.len(), 2);
    assert_eq!(encode(&s), bytes);
}

#[test]
fn login_serverbound_packets() {
    let l = LoginStart { name: "Steve".to_string(), player_uuid: u128::MAX };
    let w = encode(&l);
    assert_eq!(w.len(), 1 + 5 + 16);
    let mut r: &[u8] = &w;
    let back = LoginStart::decode_payload(&mut r).unwrap();
    assert_eq!(back.name, "Steve");
    assert_eq!(back.player_uuid, u128::MAX);

    let e = EncryptionResponse { shared_secret: vec![1, 2], verify_token: vec![] };
    let w = encode(&e);
    assert_eq!(w, vec![4, 1, 2, 0]);
    let mut r: &[u8] = &w;
    let back = EncryptionResponse::decode_payload(&mut r).unwrap();
    assert_eq!(back.shared_secret, vec![1, 2]);
    assert!(back.verify_token.is_empty());

    assert!(encode(&LoginAcknowledged).is_empty());
}

#[test]
fn login_plugin_response_data_does_not_read_back() {
    let bytes = [0x02u8, 1, 4, 9, 9];
    let mut r: &[u8] = &bytes;
    let resp = LoginPluginResponse::decode_payload(&mut r).unwrap();
    // The data goes out without the count that it came in with.
    assert_eq!(encode(&resp), vec![0x02, 1, 9, 9]);
    let mut r: &[u8] = &[0x02, 0];
    let resp = LoginPluginResponse::decode_payload(&mut r).unwrap();
    assert_eq!(encode(&resp), vec![0x02, 0]);
}

#[test]
fn cookie_response() {
    let bytes = [2u8, b'k', 0];
    let mut r: &[u8] = &bytes;
    let resp = CookieResponse::decode_payload(&mut r).unwrap();
    assert_eq!(encode(&resp), bytes.to_vec());
    let bytes = [2u8, b'k', 1, 2, 7];
    let mut r: &[u8] = &bytes;
    let resp = CookieResponse::decode_payload(&mut r).unwrap();
    assert_eq!(encode(&resp), vec![2, b'k', 1, 7]);
}

#[test]
fn bad_state_moves_past_the_handshake() {
    let mut r: &[u8] = &[0x02, 0x00, 0x01, 0x02, 0x08, 0x77];
    assert!(matches!(Handshake::decode_payload(&mut r), Err(Error::BadState(4))));
    assert_eq!(r, &[0x77u8][..]);
}

#[test]
fn packet_decodable_checks() {
    assert!(Handshake::decodable(&[0x02, 0x00, 0x01, 0x02, 0x08]));
    assert!(!Handshake::decodable(&[0x80, 0x80, 0x80, 0x80, 0x80, 0x80]));
    assert!(!Handshake::decodable(&[0x02, 0x00, 0x01, 0x02, 0x80, 0x80, 0x80, 0x80, 0x80, 0x01]));
    // a bad port leaves the last varint unread
    assert!(Handshake::decodable(&[0x02, 0x00, 0x01]));
    assert!(LoginSuccess::decodable(&[0u8; 16]));
    assert!(PingRequest::decodable(&[]));
}

#[test]
fn login_plugin_request_takes_the_tail() {
    let p = LoginPluginRequest { message_id: 1, channel: "c".to_string(), data: vec![9] };
    let mut w = encode(&p);
    w.extend_from_slice(&[7, 7]);
    let mut r: &[u8] = &w;
    let back = LoginPluginRequest::decode_payload(&mut r).unwrap();
    assert_eq!(back.data, vec![9, 7, 7]);
    assert!(r.is_empty());
}
