use esde::text::{char_of, hex_of, text_of};
use esde::{Decode, Encode, Error};

fn encoded_text<T: esde::Serialize<u8>>(value: T) -> Vec<u8> {
    let mut sink: Vec<u8> = Vec::new();
    sink.auto(value).unwrap();
    sink
}

#[test]
fn char_is_its_code_point() {
    assert_eq!(encoded_text('A'), vec![0, 0, 0, 0x41]);
    assert_eq!(encoded_text('é'), vec![0, 0, 0, 0xe9]);
    assert_eq!(encoded_text('\u{10ffff}'), vec![0, 0x10, 0xff, 0xff]);
    for value in ['\0', 'A', 'é', '\u{d7ff}', '\u{e000}', '\u{10ffff}'] {
        let bytes = encoded_text(value);
        let mut source: &[u8] = &bytes;
        assert_eq!(source.auto::<char>().unwrap(), value);
        assert!(source.is_empty());
    }
}

#[test]
fn invalid_scalar_is_a_parse_failure() {
    let mut source: &[u8] = &[0x00, 0x11, 0x00, 0x00];
    match source.auto::<char>() {
        Err(Error::Parse(diagnosis)) => {
            assert_eq!(
                diagnosis,
                "cannot parse char from u32 0x110000 (not valid unicode character)"
            );
        }
        other => panic!("expected a parse failure, got {:?}", other),
    }
    assert!(source.is_empty());
}

#[test]
fn surrogate_is_a_parse_failure() {
    let mut source: &[u8] = &[0x00, 0x00, 0xd8, 0x00];
    match source.auto::<char>() {
        Err(Error::Parse(diagnosis)) => assert!(diagnosis.contains("0xd800")),
        other => panic!("expected a parse failure, got {:?}", other),
    }
}

#[test]
fn short_char_is_end_of_stream() {
    let mut source: &[u8] = &[0x00, 0x11, 0x00];
    assert!(matches!(source.auto::<char>(), Err(Error::EOF)));
}

#[test]
fn char_of_agrees_with_the_standard_library() {
    assert_eq!(char_of(0x41), Ok('A'));
    assert_eq!(char_of(0x10ffff), Ok('\u{10ffff}'));
    assert_eq!(
        char_of(0xdfff),
        Err(String::from("cannot parse char from u32 0xdfff (not valid unicode character)"))
    );
    assert_eq!(
        char_of(u32::MAX),
        Err(String::from("cannot parse char from u32 0xffffffff (not valid unicode character)"))
    );
    let code = 0x0011_0000u32;
    assert_eq!(
        char_of(code).unwrap_err(),
        format!("cannot parse char from u32 0x{code:x?} (not valid unicode character)")
    );
}

#[test]
fn hex_of_has_no_leading_zeros() {
    assert_eq!(hex_of(0), "0");
    assert_eq!(hex_of(9), "9");
    assert_eq!(hex_of(10), "a");
    assert_eq!(hex_of(0xf), "f");
    assert_eq!(hex_of(0x10), "10");
    assert_eq!(hex_of(0x0012_3abc), "123abc");
    assert_eq!(hex_of(u32::MAX), "ffffffff");
    for value in [1u32, 255, 256, 4095, 0xdead_beef] {
        assert_eq!(hex_of(value), format!("{value:x}"));
    }
}

#[test]
fn text_round_trip() {
    let bytes = encoded_text(String::from("café"));
    assert_eq!(bytes, vec![0, 0, 0, 0, 0, 0, 0, 5, b'c', b'a', b'f', 0xc3, 0xa9]);
    let mut source: &[u8] = &bytes;
    let back: String = source.auto().unwrap();
    assert_eq!(back, "café");
    assert!(source.is_empty());
}

#[test]
fn empty_text_is_a_zero_length() {
    let bytes = encoded_text(String::new());
    assert_eq!(bytes, vec![0; 8]);
    let mut source: &[u8] = &bytes;
    assert_eq!(source.auto::<String>().unwrap(), "");
}

#[test]
fn invalid_utf8_is_a_parse_failure() {
    let mut source: &[u8] = &[0, 0, 0, 0, 0, 0, 0, 1, 0xff];
    assert!(matches!(source.auto::<String>(), Err(Error::Parse(_))));
    let mut source: &[u8] = &[0, 0, 0, 0, 0, 0, 0, 3, b'a', 0xff, b'b', 9];
    assert!(matches!(source.auto::<String>(), Err(Error::Parse(_))));
    assert_eq!(source, &[9]);
}

#[test]
fn short_text_is_end_of_stream() {
    let mut source: &[u8] = &[0, 0, 0, 0, 0, 0, 0, 5, b'c', b'a', b'f'];
    assert!(matches!(source.auto::<String>(), Err(Error::EOF)));
    let mut source: &[u8] = &[0, 0, 0, 5];
    assert!(matches!(source.auto::<String>(), Err(Error::EOF)));
}

#[test]
fn text_of_checks_utf8() {
    assert_eq!(text_of(vec![b'c', b'a', b'f', 0xc3, 0xa9]), Ok(String::from("café")));
    assert_eq!(text_of(Vec::new()), Ok(String::new()));
    assert!(text_of(vec![0xff]).is_err());
    assert!(text_of(vec![0xc3]).is_err());
    assert!(!text_of(vec![0xc3]).unwrap_err().is_empty());
}
