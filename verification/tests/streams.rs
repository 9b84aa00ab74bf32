use esde::sequence::{put_all, take_all};
use esde::wire::{put_be, take_be};
use esde::{Decode, Encode, Error, Receiver, Sender};

#[test]
fn get_hands_out_items_in_order() {
    let mut source: &[u8] = &[1, 2];
    assert_eq!(Sender::get(&mut source).unwrap(), 1);
    assert_eq!(Sender::get(&mut source).unwrap(), 2);
    assert!(matches!(Sender::get(&mut source), Err(Error::EOF)));
    assert!(matches!(Sender::get(&mut source), Err(Error::EOF)));
}

#[test]
fn fill_buffer_fills_all_or_fails() {
    let mut source: &[u8] = &[1, 2, 3, 4];
    let mut buffer = [0u8; 3];
    source.fill_buffer(&mut buffer).unwrap();
    assert_eq!(buffer, [1, 2, 3]);
    assert_eq!(source, &[4]);
    assert!(matches!(source.fill_buffer(&mut buffer), Err(Error::EOF)));
    let mut nothing: [u8; 0] = [];
    source.fill_buffer(&mut nothing).unwrap();
}

#[test]
fn get_buffer_takes_exactly_its_length() {
    let mut source: &[u8] = &[1, 2, 3, 4];
    let buffer: [u8; 3] = source.get_buffer().unwrap();
    assert_eq!(buffer, [1, 2, 3]);
    assert_eq!(source, &[4]);
    assert!(matches!(source.get_buffer::<2>(), Err(Error::EOF)));
    let mut source: &[u8] = &[];
    let nothing: [u8; 0] = source.get_buffer().unwrap();
    assert_eq!(nothing, []);
}

#[test]
fn accept_appends_in_order() {
    let mut sink: Vec<u8> = vec![9];
    sink.accept(1).unwrap();
    sink.accept(2).unwrap();
    assert_eq!(sink, vec![9, 1, 2]);
    sink.accept_buffer(&[3, 4]).unwrap();
    sink.accept_buffer(&[]).unwrap();
    assert_eq!(sink, vec![9, 1, 2, 3, 4]);
}

#[test]
fn auto_de_and_auto_ser_are_aliases() {
    let mut sink: Vec<u8> = Vec::new();
    sink.auto_ser(0x0102u16).unwrap();
    assert_eq!(sink, vec![1, 2]);
    let mut source: &[u8] = &sink;
    assert_eq!(source.auto_de::<u16>().unwrap(), 0x0102);
}

#[test]
fn take_all_reads_a_run() {
    let mut source: &[u8] = &[0, 1, 0, 2, 0, 3];
    let values: Vec<u16> = take_all(&mut source, 2).unwrap();
    assert_eq!(values, vec![1, 2]);
    assert_eq!(source, &[0, 3]);
    assert!(matches!(take_all::<u8, u16, &[u8]>(&mut source, 2), Err(Error::EOF)));
    let values: Vec<u16> = take_all(&mut source, 0).unwrap();
    assert!(values.is_empty());
}

#[test]
fn put_all_writes_a_run() {
    let mut sink: Vec<u8> = Vec::new();
    put_all(&mut sink, vec![1u16, 2]).unwrap();
    put_all(&mut sink, Vec::<u16>::new()).unwrap();
    assert_eq!(sink, vec![0, 1, 0, 2]);
}

#[test]
fn put_be_and_take_be_agree() {
    let mut sink: Vec<u8> = Vec::new();
    put_be(&mut sink, 0x0a0b0c, 3).unwrap();
    assert_eq!(sink, vec![0x0a, 0x0b, 0x0c]);
    let mut source: &[u8] = &sink;
    assert_eq!(take_be(&mut source, 3).unwrap(), 0x0a0b0c);
    assert!(matches!(take_be(&mut source, 1), Err(Error::EOF)));
    assert_eq!(take_be(&mut source, 0).unwrap(), 0);
}

#[test]
fn make_parse_keeps_the_diagnosis() {
    let error: Error<std::io::Error> = Error::make_parse(String::from("broken"));
    match error {
        Error::Parse(diagnosis) => assert_eq!(diagnosis, "broken"),
        other => panic!("expected a parse failure, got {:?}", other),
    }
}

#[test]
fn unwrap_sender_gives_the_inner_error() {
    let error: Error<u32> = Error::Sender(17);
    assert_eq!(error.unwrap_sender(), 17);
}

#[test]
fn describe_names_the_variant() {
    let end: Error<String> = Error::EOF;
    assert_eq!(end.describe(), "reached EOF before expecting it !");
    let transport: Error<String> = Error::Sender(String::from("gone"));
    assert_eq!(
        transport.describe(),
        "the sender (the instance providing items) had an error: \"gone\""
    );
    let parse: Error<String> = Error::make_parse(String::from("a \"b\""));
    assert_eq!(parse.describe(), "an error occured while parsing: \"a \\\"b\\\"\"");
}

#[test]
fn errors_come_from_their_payloads() {
    let parse: Error<u8> = Error::from(String::from("bad"));
    assert!(matches!(parse, Error::Parse(ref diagnosis) if diagnosis == "bad"));
    let inner = std::io::Error::new(std::io::ErrorKind::Other, "gone");
    let transport: Error<std::io::Error> = Error::from(inner);
    assert!(matches!(transport, Error::Sender(_)));
}
