use sqlite_decode::error::Error;
use sqlite_decode::record::ColumnType;
use sqlite_decode::varint;

#[test]
fn round_trip_zero() {
    let enc = varint::encode(0);
    assert_eq!(enc, vec![0x00]);
    assert_eq!(varint::decode(&enc), Ok((0, 1)));
}

#[test]
fn round_trip_127() {
    let enc = varint::encode(127);
    assert_eq!(enc, vec![0x7f]);
    assert_eq!(varint::decode(&enc), Ok((127, 1)));
}

#[test]
fn round_trip_128() {
    let enc = varint::encode(128);
    assert_eq!(enc, vec![0x81, 0x00]);
    assert_eq!(varint::decode(&enc), Ok((128, 2)));
}

#[test]
fn round_trip_i64_max() {
    let v: u64 = 0x7fff_ffff_ffff_ffff;
    let enc = varint::encode(v);
    assert_eq!(enc.len(), 9);
    assert_eq!(varint::decode(&enc), Ok((v, 9)));
}

#[test]
fn round_trip_u64_max() {
    let enc = varint::encode(u64::MAX);
    assert_eq!(enc.len(), 9);
    assert_eq!(enc, vec![0xff, 0xff, 0xff, 0xff, 0xff, 0xff, 0xff, 0xff, 0xff]);
    assert_eq!(varint::decode(&enc), Ok((u64::MAX, 9)));
}

#[test]
fn round_trip_various() {
    let cases: [u64; 10] = [
        1,
        300,
        16383,
        16384,
        2097151,
        2097152,
        0x10000000,
        0x0123_4567_89ab_cdef,
        0x0100_0000_0000_0000,
        0xfedc_ba98_7654_3210,
    ];
    for v in cases {
        let enc = varint::encode(v);
        assert_eq!(varint::decode(&enc), Ok((v, enc.len())));
    }
}

#[test]
fn decode_stops_at_terminator() {
    // 0x81 continues with payload 1, 0x7f terminates: value 255, two bytes
    // consumed, the trailing byte untouched.
    assert_eq!(varint::decode(&[0x81, 0x7f, 0x33]), Ok((255, 2)));
}

#[test]
fn decode_ninth_byte_uses_all_eight_bits() {
    // Eight continuation bytes then a ninth byte contributing eight bits.
    let bytes = [0x80, 0x80, 0x80, 0x80, 0x80, 0x80, 0x80, 0x80, 0xff];
    assert_eq!(varint::decode(&bytes), Ok((0xff, 9)));
}

#[test]
fn decode_truncated() {
    assert_eq!(varint::decode(&[]), Err(Error::TruncatedVarint));
    assert_eq!(varint::decode(&[0x80]), Err(Error::TruncatedVarint));
    assert_eq!(
        varint::decode(&[0xff, 0xff, 0xff, 0xff, 0xff, 0xff, 0xff, 0xff]),
        Err(Error::TruncatedVarint)
    );
}

#[test]
fn classify_fixed_codes() {
    assert_eq!(ColumnType::classify(0), Ok(ColumnType::Null));
    assert_eq!(ColumnType::classify(1), Ok(ColumnType::I8));
    assert_eq!(ColumnType::classify(2), Ok(ColumnType::I16));
    assert_eq!(ColumnType::classify(3), Ok(ColumnType::I24));
    assert_eq!(ColumnType::classify(4), Ok(ColumnType::I32));
    assert_eq!(ColumnType::classify(5), Ok(ColumnType::I48));
    assert_eq!(ColumnType::classify(6), Ok(ColumnType::I64));
    assert_eq!(ColumnType::classify(7), Ok(ColumnType::F64));
    assert_eq!(ColumnType::classify(8), Ok(ColumnType::Zero));
    assert_eq!(ColumnType::classify(9), Ok(ColumnType::One));
}

#[test]
fn classify_reserved_codes_fail() {
    assert_eq!(ColumnType::classify(10), Err(Error::InvalidSerialType));
    assert_eq!(ColumnType::classify(11), Err(Error::InvalidSerialType));
}

#[test]
fn classify_blob_and_text_lengths() {
    assert_eq!(ColumnType::classify(12), Ok(ColumnType::Blob(0)));
    assert_eq!(ColumnType::classify(13), Ok(ColumnType::Text(0)));
    assert_eq!(ColumnType::classify(14), Ok(ColumnType::Blob(1)));
    assert_eq!(ColumnType::classify(15), Ok(ColumnType::Text(1)));
    assert_eq!(ColumnType::classify(23), Ok(ColumnType::Text(5)));
    assert_eq!(ColumnType::classify(1000), Ok(ColumnType::Blob(494)));
}
