use esde::wire::{be_bytes_of, be_value_of};
use esde::{Decode, Encode, Error};

fn encoded<T: esde::Serialize<u8>>(value: T) -> Vec<u8> {
    let mut sink: Vec<u8> = Vec::new();
    sink.auto(value).unwrap();
    sink
}

fn decoded<T: esde::Deserialize<u8>>(bytes: &[u8]) -> (T, usize) {
    let mut source: &[u8] = bytes;
    let value: T = source.auto().unwrap();
    (value, bytes.len() - source.len())
}

#[test]
fn u8_is_the_item_itself() {
    assert_eq!(encoded(0u8), vec![0x00]);
    assert_eq!(encoded(0xffu8), vec![0xff]);
    assert_eq!(decoded::<u8>(&[0x7f, 0x01]), (0x7f, 1));
}

#[test]
fn u16_is_big_endian() {
    assert_eq!(encoded(0x1234u16), vec![0x12, 0x34]);
    assert_eq!(encoded(0x1234u16), 0x1234u16.to_be_bytes().to_vec());
    assert_eq!(decoded::<u16>(&[0x12, 0x34]), (0x1234, 2));
}

#[test]
fn u32_is_big_endian() {
    assert_eq!(encoded(0xdead_beefu32), vec![0xde, 0xad, 0xbe, 0xef]);
    assert_eq!(decoded::<u32>(&[0xde, 0xad, 0xbe, 0xef]), (0xdead_beef, 4));
}

#[test]
fn u64_is_big_endian() {
    let value = 0x0102_0304_0506_0708u64;
    assert_eq!(encoded(value), vec![1, 2, 3, 4, 5, 6, 7, 8]);
    assert_eq!(decoded::<u64>(&[1, 2, 3, 4, 5, 6, 7, 8]), (value, 8));
}

#[test]
fn u128_is_big_endian() {
    let value = 0x0102_0304_0506_0708_090a_0b0c_0d0e_0f10u128;
    assert_eq!(encoded(value), value.to_be_bytes().to_vec());
    assert_eq!(decoded::<u128>(&value.to_be_bytes()), (value, 16));
}

#[test]
fn unsigned_boundaries_round_trip() {
    for value in [0u8, 1, u8::MAX] {
        assert_eq!(decoded::<u8>(&encoded(value)), (value, 1));
    }
    for value in [0u16, 1, 0x00ff, 0x0100, u16::MAX] {
        assert_eq!(decoded::<u16>(&encoded(value)), (value, 2));
    }
    for value in [0u32, 1, 0x00ff_ffff, u32::MAX] {
        assert_eq!(decoded::<u32>(&encoded(value)), (value, 4));
    }
    for value in [0u64, 1, 1 << 63, u64::MAX] {
        assert_eq!(decoded::<u64>(&encoded(value)), (value, 8));
    }
    for value in [0u128, 1, 1 << 127, u128::MAX] {
        assert_eq!(decoded::<u128>(&encoded(value)), (value, 16));
    }
}

#[test]
fn signed_values_are_twos_complement() {
    assert_eq!(encoded(-1i8), vec![0xff]);
    assert_eq!(encoded(i8::MIN), vec![0x80]);
    assert_eq!(encoded(-2i16), vec![0xff, 0xfe]);
    assert_eq!(encoded(i16::MIN), vec![0x80, 0x00]);
    assert_eq!(encoded(-1i32), vec![0xff; 4]);
    assert_eq!(encoded(i64::MAX), i64::MAX.to_be_bytes().to_vec());
    assert_eq!(encoded(i128::MIN), i128::MIN.to_be_bytes().to_vec());
    assert_eq!(decoded::<i16>(&[0xff, 0xfe]), (-2, 2));
    assert_eq!(decoded::<i32>(&[0x80, 0, 0, 0]), (i32::MIN, 4));
}

#[test]
fn signed_boundaries_round_trip() {
    for value in [0i8, 1, -1, i8::MIN, i8::MAX] {
        assert_eq!(decoded::<i8>(&encoded(value)), (value, 1));
    }
    for value in [0i16, 1, -1, i16::MIN, i16::MAX] {
        assert_eq!(decoded::<i16>(&encoded(value)), (value, 2));
    }
    for value in [0i32, 1, -1, i32::MIN, i32::MAX] {
        assert_eq!(decoded::<i32>(&encoded(value)), (value, 4));
    }
    for value in [0i64, 1, -1, i64::MIN, i64::MAX] {
        assert_eq!(decoded::<i64>(&encoded(value)), (value, 8));
    }
    for value in [0i128, 1, -1, i128::MIN, i128::MAX] {
        assert_eq!(decoded::<i128>(&encoded(value)), (value, 16));
    }
}

#[test]
fn platform_sizes_take_eight_bytes() {
    assert_eq!(encoded(5usize), vec![0, 0, 0, 0, 0, 0, 0, 5]);
    assert_eq!(encoded(-5isize), vec![0xff, 0xff, 0xff, 0xff, 0xff, 0xff, 0xff, 0xfb]);
    for value in [0usize, 1, usize::MAX] {
        assert_eq!(decoded::<usize>(&encoded(value)), (value, 8));
    }
    for value in [0isize, -1, isize::MIN, isize::MAX] {
        assert_eq!(decoded::<isize>(&encoded(value)), (value, 8));
    }
}

#[test]
fn float_bit_patterns_round_trip() {
    let quiet_nan = f32::from_bits(0x7fc0_0001);
    let bits = quiet_nan.to_bits();
    assert_eq!(encoded(bits), vec![0x7f, 0xc0, 0x00, 0x01]);
    let (back, taken) = decoded::<u32>(&encoded(bits));
    assert_eq!(taken, 4);
    assert_eq!(f32::from_bits(back).to_bits(), 0x7fc0_0001);

    let signalling = f64::from_bits(0xfff0_0000_0000_0001);
    let (back, taken) = decoded::<u64>(&encoded(signalling.to_bits()));
    assert_eq!(taken, 8);
    assert_eq!(f64::from_bits(back).to_bits(), 0xfff0_0000_0000_0001);

    let (back, _) = decoded::<u64>(&encoded(1.5f64.to_bits()));
    assert_eq!(f64::from_bits(back), 1.5);
}

#[test]
fn bool_writes_one_or_zero() {
    assert_eq!(encoded(true), vec![1]);
    assert_eq!(encoded(false), vec![0]);
}

#[test]
fn bool_reads_nonzero_as_true() {
    assert_eq!(decoded::<bool>(&[0]), (false, 1));
    assert_eq!(decoded::<bool>(&[1]), (true, 1));
    assert_eq!(decoded::<bool>(&[2]), (true, 1));
    assert_eq!(decoded::<bool>(&[0xff]), (true, 1));
}

#[test]
fn be_bytes_of_keeps_the_lowest_bytes() {
    assert_eq!(be_bytes_of(0x0102_0304, 4), vec![1, 2, 3, 4]);
    assert_eq!(be_bytes_of(0x0102_0304, 2), vec![3, 4]);
    assert_eq!(be_bytes_of(7, 3), vec![0, 0, 7]);
    assert_eq!(be_bytes_of(7, 0), Vec::<u8>::new());
    assert_eq!(be_bytes_of(u128::MAX, 16), vec![0xff; 16]);
    assert_eq!(be_bytes_of(1, 17)[16], 1);
}

#[test]
fn be_value_of_reads_most_significant_first() {
    assert_eq!(be_value_of(&[]), 0);
    assert_eq!(be_value_of(&[1, 0]), 256);
    assert_eq!(be_value_of(&[0x12, 0x34, 0x56]), 0x12_3456);
    assert_eq!(be_value_of(&[0xff; 16]), u128::MAX);
}

#[test]
fn end_of_stream_on_short_numbers() {
    let mut source: &[u8] = &[];
    assert!(matches!(source.auto::<u8>(), Err(Error::EOF)));
    let mut source: &[u8] = &[1];
    assert!(matches!(source.auto::<u16>(), Err(Error::EOF)));
    let mut source: &[u8] = &[1, 2, 3];
    assert!(matches!(source.auto::<u32>(), Err(Error::EOF)));
    let mut source: &[u8] = &[1, 2, 3, 4, 5, 6, 7];
    assert!(matches!(source.auto::<i64>(), Err(Error::EOF)));
    assert!(matches!(source.auto::<bool>(), Err(Error::EOF)));
}
