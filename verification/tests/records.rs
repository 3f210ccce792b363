use sqlite_decode::error::Error;
use sqlite_decode::record::{ColumnValue, Record};

fn values_of(rowid: i64, payload: &[u8]) -> Vec<ColumnValue> {
    Record::read(rowid, payload).expect("record should decode").values
}

#[test]
fn one_byte_int_sign_extends() {
    // One I8 column holding 0x80: a negative signed byte, not 128.
    let payload = [0x02, 0x01, 0x80];
    let values = values_of(1, &payload);
    assert_eq!(values.len(), 1);
    assert!(matches!(values[0], ColumnValue::I8(-128)));
}

#[test]
fn text_column_is_payload_bytes() {
    // Text of length 5 has serial-type code 13 + 2 * 5 = 23.
    let payload = [0x02, 0x17, b'h', b'e', b'l', b'l', b'o'];
    let values = values_of(7, &payload);
    assert_eq!(values.len(), 1);
    match &values[0] {
        ColumnValue::Text(bytes) => assert_eq!(bytes.as_slice(), b"hello"),
        other => panic!("expected text, got {:?}", other),
    }
}

#[test]
fn zero_columns_yield_empty_record() {
    let payload = [0x01];
    let rec = Record::read(5, &payload).expect("record should decode");
    assert_eq!(rec.rowid, 5);
    assert!(rec.values.is_empty());
}

#[test]
fn wider_ints_sign_extend_from_their_own_width() {
    // I16 0x8000 -> -32768; I24 0xffffff -> -1; I32 0x7fffffff stays
    // positive; I48 0x800000000000 -> -2^47; I64 full width.
    let payload = [
        0x06, 0x02, 0x03, 0x04, 0x05, 0x06, // header: five types
        0x80, 0x00, // I16
        0xff, 0xff, 0xff, // I24
        0x7f, 0xff, 0xff, 0xff, // I32
        0x80, 0x00, 0x00, 0x00, 0x00, 0x00, // I48
        0xff, 0xff, 0xff, 0xff, 0xff, 0xff, 0xff, 0xfe, // I64
    ];
    let values = values_of(1, &payload);
    assert_eq!(values.len(), 5);
    assert!(matches!(values[0], ColumnValue::I16(-32768)));
    assert!(matches!(values[1], ColumnValue::I24(-1)));
    assert!(matches!(values[2], ColumnValue::I32(0x7fffffff)));
    assert!(matches!(values[3], ColumnValue::I48(n) if n == -(1i64 << 47)));
    assert!(matches!(values[4], ColumnValue::I64(-2)));
}

#[test]
fn constants_and_null_consume_no_body() {
    let payload = [0x04, 0x00, 0x08, 0x09];
    let values = values_of(1, &payload);
    assert_eq!(values.len(), 3);
    assert!(matches!(values[0], ColumnValue::Null));
    assert!(matches!(values[1], ColumnValue::Zero));
    assert!(matches!(values[2], ColumnValue::One));
}

#[test]
fn float_column_carries_big_endian_bits() {
    let bits = (1.5f64).to_bits();
    let be = bits.to_be_bytes();
    let mut payload = vec![0x02, 0x07];
    payload.extend_from_slice(&be);
    let values = values_of(1, &payload);
    assert!(matches!(values[0], ColumnValue::F64Bits(b) if b == bits));
}

#[test]
fn blob_column_is_exact_bytes() {
    // Blob of length 3 has code 12 + 2 * 3 = 18.
    let payload = [0x02, 0x12, 0xde, 0xad, 0xbf];
    let values = values_of(1, &payload);
    match &values[0] {
        ColumnValue::Blob(bytes) => assert_eq!(bytes.as_slice(), &[0xde, 0xad, 0xbf]),
        other => panic!("expected blob, got {:?}", other),
    }
}

#[test]
fn empty_payload_is_truncated_varint() {
    assert!(matches!(Record::read(1, &[]), Err(Error::TruncatedVarint)));
}

#[test]
fn header_size_smaller_than_its_varint_is_truncated_header() {
    assert!(matches!(Record::read(1, &[0x00]), Err(Error::TruncatedHeader)));
}

#[test]
fn header_varint_past_end_is_truncated_varint() {
    assert!(matches!(Record::read(1, &[0x03, 0x81]), Err(Error::TruncatedVarint)));
}

#[test]
fn type_varint_overrunning_header_is_truncated_header() {
    // Header declares two bytes but the type varint takes two by itself.
    assert!(matches!(Record::read(1, &[0x02, 0x81, 0x00]), Err(Error::TruncatedHeader)));
}

#[test]
fn reserved_serial_type_is_rejected() {
    assert!(matches!(Record::read(1, &[0x02, 0x0a]), Err(Error::InvalidSerialType)));
}

#[test]
fn missing_body_bytes_are_payload_too_short() {
    assert!(matches!(Record::read(1, &[0x02, 0x01]), Err(Error::PayloadTooShort)));
    // Text(5) with only four body bytes.
    assert!(matches!(
        Record::read(1, &[0x02, 0x17, b'h', b'i', b'h', b'i']),
        Err(Error::PayloadTooShort)
    ));
}

#[test]
fn is_number_matches_numeric_tags() {
    assert!(ColumnValue::I8(1).is_number());
    assert!(ColumnValue::I16(1).is_number());
    assert!(ColumnValue::I24(1).is_number());
    assert!(ColumnValue::I32(1).is_number());
    assert!(ColumnValue::I48(1).is_number());
    assert!(ColumnValue::I64(1).is_number());
    assert!(ColumnValue::F64Bits(0).is_number());
    assert!(ColumnValue::Zero.is_number());
    assert!(ColumnValue::One.is_number());
    assert!(!ColumnValue::Null.is_number());
    assert!(!ColumnValue::Blob(vec![1]).is_number());
    assert!(!ColumnValue::Text(vec![1]).is_number());
}

#[test]
fn to_i64_coerces_scalars() {
    assert_eq!(ColumnValue::Null.to_i64(), 0);
    assert_eq!(ColumnValue::I24(-5).to_i64(), -5);
    assert_eq!(ColumnValue::Zero.to_i64(), 0);
    assert_eq!(ColumnValue::One.to_i64(), 1);
}

#[test]
fn to_i64_truncates_floats_like_a_cast() {
    let cases: [f64; 10] = [
        0.0,
        1.5,
        -2.7,
        1234567.99,
        -0.25,
        1e300,
        -1e300,
        f64::NAN,
        f64::INFINITY,
        f64::NEG_INFINITY,
    ];
    for x in cases {
        let got = ColumnValue::F64Bits(x.to_bits()).to_i64();
        assert_eq!(got, x as i64, "truncating {}", x);
    }
    assert_eq!(ColumnValue::F64Bits((9.007199254740993e15f64).to_bits()).to_i64(), 9007199254740992);
    assert_eq!(ColumnValue::F64Bits((-9.223372036854776e18f64).to_bits()).to_i64(), i64::MIN);
}
