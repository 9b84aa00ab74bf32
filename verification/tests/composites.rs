use esde::{Decode, Encode, Error};

fn written<T: esde::Serialize<u8>>(value: T) -> Vec<u8> {
    let mut sink: Vec<u8> = Vec::new();
    sink.auto(value).unwrap();
    sink
}

#[test]
fn pair_is_first_then_second() {
    assert_eq!(written((1u16, 2u16)), vec![0x00, 0x01, 0x00, 0x02]);
    let mut source: &[u8] = &[0x00, 0x01, 0x00, 0x02];
    let back: (u16, u16) = source.auto().unwrap();
    assert_eq!(back, (1, 2));
    assert!(source.is_empty());
}

#[test]
fn mixed_pair_round_trip() {
    let value = (true, (-7i32, String::from("x")));
    let bytes = written(value.clone());
    assert_eq!(bytes, vec![1, 0xff, 0xff, 0xff, 0xf9, 0, 0, 0, 0, 0, 0, 0, 1, b'x']);
    let mut source: &[u8] = &bytes;
    let back: (bool, (i32, String)) = source.auto().unwrap();
    assert_eq!(back, value);
}

#[test]
fn absent_option_is_one_zero_byte() {
    assert_eq!(written(None::<u32>), vec![0x00]);
    let mut source: &[u8] = &[0x00, 0x09];
    assert_eq!(source.auto::<Option<u32>>().unwrap(), None);
    assert_eq!(source, &[0x09]);
}

#[test]
fn present_option_is_flag_then_payload() {
    assert_eq!(written(Some(0x0102u16)), vec![1, 1, 2]);
    let mut source: &[u8] = &[1, 1, 2];
    assert_eq!(source.auto::<Option<u16>>().unwrap(), Some(0x0102));
    let mut source: &[u8] = &[7, 1, 2];
    assert_eq!(source.auto::<Option<u16>>().unwrap(), Some(0x0102));
    let mut source: &[u8] = &[1, 1];
    assert!(matches!(source.auto::<Option<u16>>(), Err(Error::EOF)));
}

#[test]
fn empty_vector_is_a_zero_length() {
    assert_eq!(written(Vec::<u32>::new()), vec![0; 8]);
    let mut source: &[u8] = &[0; 8];
    assert_eq!(source.auto::<Vec<u32>>().unwrap(), Vec::<u32>::new());
    assert!(source.is_empty());
}

#[test]
fn vector_is_length_then_elements() {
    let value = vec![69u32, 420, 1337];
    let bytes = written(value.clone());
    assert_eq!(
        bytes,
        vec![0, 0, 0, 0, 0, 0, 0, 3, 0, 0, 0, 69, 0, 0, 0x01, 0xa4, 0, 0, 0x05, 0x39]
    );
    let mut source: &[u8] = &bytes;
    assert_eq!(source.auto::<Vec<u32>>().unwrap(), value);
    assert!(source.is_empty());
}

#[test]
fn slice_is_written_as_a_vector() {
    let value = [3u16, 4, 5];
    let slice: &[u16] = &value;
    assert_eq!(written(slice), written(value.to_vec()));
    assert_eq!(written(slice), vec![0, 0, 0, 0, 0, 0, 0, 3, 0, 3, 0, 4, 0, 5]);
    let empty: &[u16] = &[];
    assert_eq!(written(empty), vec![0; 8]);
}

#[test]
fn array_has_no_length_prefix() {
    assert_eq!(written([1u16, 2, 3]), vec![0, 1, 0, 2, 0, 3]);
    let mut source: &[u8] = &[0, 1, 0, 2, 0, 3, 9];
    assert_eq!(source.auto::<[u16; 3]>().unwrap(), [1, 2, 3]);
    assert_eq!(source, &[9]);
    let empty: [u16; 0] = [];
    assert_eq!(written(empty), Vec::<u8>::new());
    let mut source: &[u8] = &[9];
    assert_eq!(source.auto::<[u16; 0]>().unwrap(), empty);
    assert_eq!(source, &[9]);
}

#[test]
fn array_of_texts_round_trip() {
    let value = [String::from("one"), String::from("two"), String::from("three")];
    let bytes = written(value.clone());
    let mut source: &[u8] = &bytes;
    assert_eq!(source.auto::<[String; 3]>().unwrap(), value);
    assert!(source.is_empty());
}

#[test]
fn nested_round_trip() {
    let value = vec![Some(vec![(1u8, -1i64)]), None, Some(Vec::new())];
    let bytes = written(value.clone());
    let mut source: &[u8] = &bytes;
    let back: Vec<Option<Vec<(u8, i64)>>> = source.auto().unwrap();
    assert_eq!(back, value);
    assert!(source.is_empty());
}

#[test]
fn two_values_in_one_stream() {
    let mut sink: Vec<u8> = Vec::new();
    sink.auto(String::from("café")).unwrap();
    let first_length = sink.len();
    sink.auto(vec![1u16, 2]).unwrap();
    let mut source: &[u8] = &sink;
    assert_eq!(source.auto::<String>().unwrap(), "café");
    assert_eq!(sink.len() - source.len(), first_length);
    assert_eq!(source.auto::<Vec<u16>>().unwrap(), vec![1, 2]);
    assert!(source.is_empty());
}

#[test]
fn every_cut_is_end_of_stream() {
    let value = (vec![Some('x'), None], (String::from("añb"), [7i16, -7]));
    let bytes = written(value.clone());
    for kept in 0..bytes.len() {
        let mut source: &[u8] = &bytes[..kept];
        let r = source.auto::<(Vec<Option<char>>, (String, [i16; 2]))>();
        assert!(matches!(r, Err(Error::EOF)), "cut at {kept}");
    }
    let mut source: &[u8] = &bytes;
    assert_eq!(source.auto::<(Vec<Option<char>>, (String, [i16; 2]))>().unwrap(), value);
}

#[test]
fn failing_element_fails_the_whole() {
    let mut source: &[u8] = &[0, 0, 0, 0, 0, 0, 0, 2, 0, 0, 0, 0x41, 0, 0x11, 0, 0, 5];
    assert!(matches!(source.auto::<Vec<char>>(), Err(Error::Parse(_))));
    assert_eq!(source, &[5]);
    let mut source: &[u8] = &[0, 0, 0, 0, 0, 0, 0, 2, 0, 0, 0, 0x41];
    assert!(matches!(source.auto::<Vec<char>>(), Err(Error::EOF)));
}

#[test]
fn huge_length_is_end_of_stream() {
    let mut source: &[u8] = &[0xff; 9];
    assert!(matches!(source.auto::<Vec<u8>>(), Err(Error::EOF)));
}
