use proto772::encoding::Error;
use proto772::util::{
    option_decodable, prefixed_decodable, read_bool, read_option, read_prefixed_array, read_string, read_varint_as_usize, varint_fits, write_array,
    write_bool, write_option, write_option_string, write_prefixed_array, write_string,
    write_usize_as_varint,
};

#[test]
fn varint_length_reads_zigzag_value() {
    let bytes = [0xACu8, 0x02, 0x07];
    let mut r: &[u8] = &bytes;
    assert_eq!(read_varint_as_usize(&mut r).unwrap(), 150);
    assert_eq!(r, &[0x07u8][..]);
}

#[test]
fn varint_length_small_values() {
    let mut r: &[u8] = &[0x00];
    assert_eq!(read_varint_as_usize(&mut r).unwrap(), 0);
    let mut r: &[u8] = &[0x04];
    assert_eq!(read_varint_as_usize(&mut r).unwrap(), 2);
}

#[test]
fn varint_length_negative_is_invalid() {
    let mut r: &[u8] = &[0x01];
    match read_varint_as_usize(&mut r) {
        Err(Error::Invalid(m)) => assert_eq!(m, "A string's length cannot be negative"),
        other => panic!("unexpected {:?}", other),
    }
}

#[test]
fn varint_length_on_empty_input_is_io() {
    let mut r: &[u8] = &[];
    assert!(matches!(read_varint_as_usize(&mut r), Err(Error::IO(_))));
    let mut r: &[u8] = &[0x80, 0x80];
    assert!(matches!(read_varint_as_usize(&mut r), Err(Error::IO(_))));
}

#[test]
fn varint_length_five_bytes() {
    // zigzag of i32::MAX is 0xFFFF_FFFE
    let bytes = [0xFEu8, 0xFF, 0xFF, 0xFF, 0x0F];
    let mut r: &[u8] = &bytes;
    assert_eq!(read_varint_as_usize(&mut r).unwrap(), i32::MAX as usize);
    assert!(r.is_empty());
}

#[test]
fn write_length_as_varint() {
    let mut w = Vec::new();
    write_usize_as_varint(&mut w, 150).unwrap();
    assert_eq!(w, vec![0xAC, 0x02]);
    let mut w = vec![9u8];
    write_usize_as_varint(&mut w, 0).unwrap();
    assert_eq!(w, vec![9, 0]);
    let mut w = Vec::new();
    write_usize_as_varint(&mut w, i32::MAX as usize).unwrap();
    assert_eq!(w, vec![0xFE, 0xFF, 0xFF, 0xFF, 0x0F]);
}

#[test]
fn write_length_too_big_is_overflow() {
    let big = i32::MAX as usize + 1;
    let mut w = Vec::new();
    assert!(matches!(write_usize_as_varint(&mut w, big), Err(Error::IntOverflow(n)) if n == big));
    assert!(w.is_empty());
}

#[test]
fn length_roundtrip() {
    for n in [0usize, 1, 63, 64, 127, 128, 300, 16384, 2097151, i32::MAX as usize] {
        let mut w = Vec::new();
        write_usize_as_varint(&mut w, n).unwrap();
        w.push(0xAA);
        let mut r: &[u8] = &w;
        assert_eq!(read_varint_as_usize(&mut r).unwrap(), n);
        assert_eq!(r, &[0xAAu8][..]);
    }
}

#[test]
fn bools() {
    let mut r: &[u8] = &[0, 1, 2];
    assert_eq!(read_bool(&mut r).unwrap(), false);
    assert_eq!(read_bool(&mut r).unwrap(), true);
    assert!(matches!(read_bool(&mut r), Err(Error::BadBool(2))));
    let mut r: &[u8] = &[];
    assert!(matches!(read_bool(&mut r), Err(Error::IO(_))));
    let mut w = Vec::new();
    write_bool(true, &mut w).unwrap();
    write_bool(false, &mut w).unwrap();
    assert_eq!(w, vec![1, 0]);
}

#[test]
fn strings_are_written_with_their_length() {
    let mut w = Vec::new();
    write_string("hi", &mut w).unwrap();
    assert_eq!(w, vec![0x04, b'h', b'i']);
    let mut w = Vec::new();
    write_string("é", &mut w).unwrap();
    assert_eq!(w, vec![0x04, 0xC3, 0xA9]);
    let mut w = Vec::new();
    write_string("", &mut w).unwrap();
    assert_eq!(w, vec![0x00]);
}

#[test]
fn strings_read_back() {
    let bytes = [0x04u8, b'h', b'i', 9];
    let mut r: &[u8] = &bytes;
    assert_eq!(read_string(&mut r).unwrap(), "hi");
    assert_eq!(r, &[9u8][..]);
    for s in ["", "hello", "naïve ☃ 𝄞"] {
        let mut w = Vec::new();
        write_string(s, &mut w).unwrap();
        let mut r: &[u8] = &w;
        assert_eq!(read_string(&mut r).unwrap(), s);
        assert!(r.is_empty());
    }
}

#[test]
fn string_errors() {
    let mut r: &[u8] = &[0x04, 0xFF, 0xFE];
    assert!(matches!(read_string(&mut r), Err(Error::FromUtf8(_))));
    let mut r: &[u8] = &[0x04, b'h'];
    assert!(matches!(read_string(&mut r), Err(Error::IO(_))));
    let mut r: &[u8] = &[0x03];
    assert!(matches!(read_string(&mut r), Err(Error::Invalid(_))));
}

#[test]
fn arrays() {
    let mut w = Vec::new();
    write_array(&[1u8, 2, 3], &mut w).unwrap();
    assert_eq!(w, vec![1, 2, 3]);
    let mut w = Vec::new();
    write_prefixed_array(&[1u8, 2, 3], &mut w).unwrap();
    assert_eq!(w, vec![6, 1, 2, 3]);
    let mut r: &[u8] = &w;
    let back: Vec<u8> = read_prefixed_array(&mut r).unwrap();
    assert_eq!(back, vec![1, 2, 3]);
    assert!(r.is_empty());
    let mut r: &[u8] = &[6, 1, 2];
    assert!(matches!(read_prefixed_array::<u8>(&mut r), Err(Error::IO(_))));
    let mut w = Vec::new();
    write_prefixed_array(&["a".to_string(), "bc".to_string()], &mut w).unwrap();
    assert_eq!(w, vec![4, 2, b'a', 4, b'b', b'c']);
    let mut r: &[u8] = &w;
    let back: Vec<String> = read_prefixed_array(&mut r).unwrap();
    assert_eq!(back, vec!["a".to_string(), "bc".to_string()]);
}

#[test]
fn options() {
    let mut w = Vec::new();
    write_option(Some(&5u8), &mut w).unwrap();
    write_option::<u8>(None, &mut w).unwrap();
    assert_eq!(w, vec![1, 5, 0]);
    let mut r: &[u8] = &w;
    assert_eq!(read_option::<u8>(&mut r).unwrap(), Some(5));
    assert_eq!(read_option::<u8>(&mut r).unwrap(), None);
    let mut r: &[u8] = &[3];
    assert!(matches!(read_option::<u8>(&mut r), Err(Error::BadBool(3))));
    let mut r: &[u8] = &[1];
    assert!(matches!(read_option::<u8>(&mut r), Err(Error::IO(_))));
}

#[test]
fn option_strings() {
    let mut w = Vec::new();
    write_option_string(Some("a"), &mut w).unwrap();
    write_option_string(None, &mut w).unwrap();
    assert_eq!(w, vec![1, 2, b'a', 0]);
    let mut r: &[u8] = &w;
    assert_eq!(read_option::<String>(&mut r).unwrap(), Some("a".to_string()));
    assert_eq!(read_option::<String>(&mut r).unwrap(), None);
}

#[test]
fn bad_bool_moves_past_its_byte() {
    let mut r: &[u8] = &[2, 0];
    assert!(matches!(read_bool(&mut r), Err(Error::BadBool(2))));
    assert_eq!(r, &[0u8][..]);
}

#[test]
fn negative_length_moves_past_the_varint() {
    let mut r: &[u8] = &[0x01, 0x09];
    assert!(matches!(read_varint_as_usize(&mut r), Err(Error::Invalid(_))));
    assert_eq!(r, &[0x09u8][..]);
}

#[test]
fn bad_utf8_moves_past_the_string() {
    let mut r: &[u8] = &[0x04, 0xFF, 0xFE, 0x07];
    assert!(matches!(read_string(&mut r), Err(Error::FromUtf8(_))));
    assert_eq!(r, &[0x07u8][..]);
}

#[test]
fn bad_element_moves_past_what_was_read() {
    // a count of 2, one good boolean option, then a bad flag
    let mut r: &[u8] = &[0x04, 0x00, 0x05, 0x06];
    assert!(matches!(read_prefixed_array::<Option<u8>>(&mut r), Err(Error::BadBool(5))));
    assert_eq!(r, &[0x06u8][..]);
}

#[test]
fn varint_fits_checks_the_head() {
    assert!(varint_fits(&[]));
    assert!(varint_fits(&[0x00, 0xFF]));
    assert!(varint_fits(&[0x80, 0x80, 0x80, 0x80, 0x0F, 0xFF]));
    assert!(varint_fits(&[0x80, 0x80, 0x80, 0x80, 0x80]));
    assert!(!varint_fits(&[0x80, 0x80, 0x80, 0x80, 0x80, 0x00]));
}

#[test]
fn errors_convert_from_std() {
    let e: Error = std::io::Error::new(std::io::ErrorKind::UnexpectedEof, "x").into();
    assert!(matches!(e, Error::IO(_)));
    let bad = String::from_utf8(vec![0xFF]).unwrap_err();
    let e: Error = bad.into();
    assert!(matches!(e, Error::FromUtf8(_)));
}

#[test]
fn running_out_reads_to_the_end() {
    let mut r: &[u8] = &[0x80, 0x80];
    assert!(matches!(read_varint_as_usize(&mut r), Err(Error::IO(_))));
    assert!(r.is_empty());
    let mut r: &[u8] = &[0x06, b'a', b'b'];
    assert!(matches!(read_string(&mut r), Err(Error::IO(_))));
    assert!(r.is_empty());
}

#[test]
fn decodable_checks() {
    assert!(prefixed_decodable::<u8>(&[0x04, 0x80, 0x80]));
    assert!(!prefixed_decodable::<String>(&[0x02, 0x80, 0x80, 0x80, 0x80, 0x80, 0x00]));
    assert!(prefixed_decodable::<String>(&[0x02, 0x02, b'a']));
    assert!(!option_decodable::<String>(&[0x01, 0x80, 0x80, 0x80, 0x80, 0x80, 0x80]));
    assert!(option_decodable::<String>(&[0x00, 0x80, 0x80, 0x80, 0x80, 0x80, 0x80]));
}
