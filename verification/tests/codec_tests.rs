use proto772::encoding::{Decode, Encode, Error};

#[test]
fn string_codec() {
    let mut w = Vec::new();
    "abc".to_string().proto772_encode(&mut w).unwrap();
    assert_eq!(w, vec![6, b'a', b'b', b'c']);
    let mut r: &[u8] = &w;
    assert_eq!(String::proto772_decode(&mut r).unwrap(), "abc");
}

#[test]
fn u8_codec() {
    let mut w = Vec::new();
    200u8.proto772_encode(&mut w).unwrap();
    assert_eq!(w, vec![200]);
    let mut r: &[u8] = &w;
    assert_eq!(u8::proto772_decode(&mut r).unwrap(), 200);
    let mut r: &[u8] = &[];
    assert!(matches!(u8::proto772_decode(&mut r), Err(Error::IO(_))));
}

#[test]
fn option_codec() {
    let mut w = Vec::new();
    Some("x".to_string()).proto772_encode(&mut w).unwrap();
    None::<String>.proto772_encode(&mut w).unwrap();
    assert_eq!(w, vec![1, 2, b'x', 0]);
    let mut r: &[u8] = &w;
    assert_eq!(Option::<String>::proto772_decode(&mut r).unwrap(), Some("x".to_string()));
    assert_eq!(Option::<String>::proto772_decode(&mut r).unwrap(), None);
}

#[test]
fn vec_encodes_without_length_but_decodes_with_one() {
    let mut w = Vec::new();
    vec![7u8, 8].proto772_encode(&mut w).unwrap();
    assert_eq!(w, vec![7, 8]);
    let mut r: &[u8] = &[4, 7, 8];
    assert_eq!(Vec::<u8>::proto772_decode(&mut r).unwrap(), vec![7, 8]);
    // What `proto772_encode` wrote does not read back: 7 is the zigzag of -4.
    let mut r: &[u8] = &w;
    assert!(matches!(Vec::<u8>::proto772_decode(&mut r), Err(Error::Invalid(_))));
}

#[test]
fn option_and_vec_decoders_stop_where_the_error_is() {
    let mut r: &[u8] = &[2, 9];
    assert!(matches!(Option::<u8>::proto772_decode(&mut r), Err(Error::BadBool(2))));
    assert_eq!(r, &[9u8][..]);
    let mut r: &[u8] = &[0x03, 9];
    assert!(matches!(Vec::<u8>::proto772_decode(&mut r), Err(Error::Invalid(_))));
    assert_eq!(r, &[9u8][..]);
}
