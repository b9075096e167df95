use quartz_nbt::NbtTag;
use schematic_writer::varint::VarintArray;

fn varlong(i: i64) -> Vec<i8> {
    let mut a = VarintArray::new();
    a.push_long(i);
    a.take()
}

fn varint(i: i32) -> Vec<i8> {
    let mut a = VarintArray::new();
    a.push_int(i);
    a.take()
}

#[test]
fn test_varint() {
    assert_eq!(varint(0), vec![0x00,]);
    assert_eq!(varint(1), vec![0x01,]);
    assert_eq!(varint(2), vec![0x02,]);
    assert_eq!(varint(127), vec![0x7f,]);
    assert_eq!(varint(128), vec![-0x80, 0x01]);
    assert_eq!(varint(255), vec![-0x01, 0x01]);
    assert_eq!(varint(25565), vec![-35, -57, 0x01]);
    assert_eq!(varint(2097151), vec![-0x01, -0x01, 0x7f]);
    assert_eq!(varint(2147483647), vec![-0x01, -0x01, -0x01, -0x01, 0x07]);
    assert_eq!(varint(-1), vec![-0x01, -0x01, -0x01, -0x01, 0x0f]);
    assert_eq!(varint(-2147483648), vec![-0x80, -0x80, -0x80, -0x80, 0x08]);
}

#[test]
fn test_varlong() {
    assert_eq!(varlong(0), vec![0x00]);
    assert_eq!(varlong(1), vec![0x01]);
    assert_eq!(varlong(2), vec![0x02]);
    assert_eq!(varlong(127), vec![0x7f]);
    assert_eq!(varlong(128), vec![-0x80, 0x01]);
    assert_eq!(varlong(255), vec![-0x01, 0x01]);
    assert_eq!(varlong(2147483647), vec![-0x01, -0x01, -0x01, -0x01, 0x07]);
    assert_eq!(
        varlong(9223372036854775807),
        vec![-0x01, -0x01, -0x01, -0x01, -0x01, -0x01, -0x01, -0x01, 0x7f,]
    );
    assert_eq!(
        varlong(-1),
        vec![-0x01, -0x01, -0x01, -0x01, -0x01, -0x01, -0x01, -0x01, -0x01, 0x01]
    );
    assert_eq!(
        varlong(-2147483648),
        vec![-0x80, -0x80, -0x80, -0x80, -0x08, -0x01, -0x01, -0x01, -0x01, 0x01]
    );
    assert_eq!(
        varlong(-9223372036854775808),
        vec![-0x80, -0x80, -0x80, -0x80, -0x80, -0x80, -0x80, -0x80, -0x80, 0x01]
    );
}

#[test]
fn test_bytes() {
    let mut v = VarintArray::new();
    assert_eq!(v.bytes(), &[]);
    v.push_int(128);
    assert_eq!(v.bytes(), &[-0x80, 0x01]);
    v.push_int(2);
    assert_eq!(v.bytes(), &[-0x80, 0x01, 0x02]);
}

fn decode(bytes: &[i8]) -> (u64, usize) {
    let mut value: u64 = 0;
    let mut shift = 0;
    for (at, byte) in bytes.iter().enumerate() {
        let byte = *byte as u8;
        value |= ((byte & 0x7f) as u64) << shift;
        if byte & 0x80 == 0 {
            return (value, at + 1);
        }
        shift += 7;
    }
    panic!("the last byte has its continuation bit set");
}

#[test]
fn unsigned_fixtures() {
    let encode = |value: u32| {
        let mut a = VarintArray::new();
        a.push_u32(value);
        a.take()
    };
    assert_eq!(encode(0), vec![0x00]);
    assert_eq!(encode(127), vec![0x7f]);
    assert_eq!(encode(128), vec![-0x80, 0x01]);
    assert_eq!(encode(255), vec![-0x01, 0x01]);
    assert_eq!(encode(25565), vec![-35, -57, 0x01]);
    assert_eq!(encode(2147483647), vec![-0x01, -0x01, -0x01, -0x01, 0x07]);
    assert_eq!(encode(u32::MAX), vec![-0x01, -0x01, -0x01, -0x01, 0x0f]);
    let encode_long = |value: u64| {
        let mut a = VarintArray::new();
        a.push_u64(value);
        a.take()
    };
    assert_eq!(encode_long(0), vec![0x00]);
    assert_eq!(encode_long(300), vec![-84, 0x02]);
    assert_eq!(
        encode_long(u64::MAX),
        vec![-0x01, -0x01, -0x01, -0x01, -0x01, -0x01, -0x01, -0x01, -0x01, 0x01]
    );
}

#[test]
fn push_byte_keeps_the_bit_pattern() {
    let mut a = VarintArray::new();
    a.push_byte(0x00);
    a.push_byte(0x7f);
    a.push_byte(0x80);
    a.push_byte(0xdd);
    a.push_byte(0xff);
    assert_eq!(a.bytes(), &[0, 127, -128, -35, -1]);
}

#[test]
fn decoding_gives_the_value_back() {
    let unsigned: [u64; 12] = [
        0,
        1,
        127,
        128,
        16383,
        16384,
        25565,
        u32::MAX as u64 - 1,
        u32::MAX as u64,
        u32::MAX as u64 + 1,
        u64::MAX - 1,
        u64::MAX,
    ];
    for value in unsigned {
        let mut a = VarintArray::new();
        a.push_u64(value);
        assert_eq!(decode(a.bytes()), (value, a.bytes().len()));
        if value <= u32::MAX as u64 {
            let mut b = VarintArray::new();
            b.push_u32(value as u32);
            assert_eq!(decode(b.bytes()), (value, b.bytes().len()));
            assert_eq!(a, b);
        }
    }
    for value in [0i32, 1, -1, 127, -128, 25565, i32::MAX, i32::MIN] {
        let mut a = VarintArray::new();
        a.push_int(value);
        let (pattern, read) = decode(a.bytes());
        assert_eq!(read, a.bytes().len());
        assert_eq!(pattern as u32 as i32, value);
    }
    for value in [0i64, 1, -1, 127, -128, i64::MAX, i64::MIN] {
        let mut a = VarintArray::new();
        a.push_long(value);
        let (pattern, read) = decode(a.bytes());
        assert_eq!(read, a.bytes().len());
        assert_eq!(pattern as i64, value);
    }
}

#[test]
fn every_byte_but_the_last_has_the_continuation_bit() {
    for value in [0u32, 127, 128, 16384, 2097152, 268435456, u32::MAX] {
        let mut a = VarintArray::new();
        a.push_u32(value);
        let bytes = a.take();
        let (last, before) = bytes.split_last().unwrap();
        assert!(*last >= 0);
        assert!(before.iter().all(|byte| *byte < 0));
    }
}

#[test]
fn values_follow_each_other_in_the_buffer() {
    let mut a = VarintArray::new();
    a.push_u32(300);
    a.push_int(-1);
    a.push_long(5);
    let bytes = a.clone().take();
    assert_eq!(bytes, vec![-84, 0x02, -0x01, -0x01, -0x01, -0x01, 0x0f, 0x05]);
    let (first, read) = decode(&bytes);
    assert_eq!(first, 300);
    let (second, read_second) = decode(&bytes[read..]);
    assert_eq!(second, u32::MAX as u64);
    let (third, _) = decode(&bytes[read + read_second..]);
    assert_eq!(third, 5);
    assert_eq!(a.clone(), a);
}

#[test]
fn buffer_becomes_a_byte_array() {
    let mut a = VarintArray::new();
    a.push_int(128);
    a.push_int(2);
    assert_eq!(a.into_nbt(), NbtTag::ByteArray(vec![-0x80, 0x01, 0x02]));
    assert_eq!(VarintArray::new().into_nbt(), NbtTag::ByteArray(vec![]));
}
