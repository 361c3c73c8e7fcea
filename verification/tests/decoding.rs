use text_query::arguments::{is_null, ColumnType, MySqlArguments, MySqlTypeInfo};
use text_query::decode::{decode_arguments, decode_date, decode_one, decode_time};
use text_query::error::Error;
use text_query::reader::{take_fixed, take_lenenc_bytes, take_lenenc_int, take_n, take_u8};
use text_query::value::Value;

fn info(ty: ColumnType, unsigned: bool) -> MySqlTypeInfo {
    MySqlTypeInfo { ty, unsigned }
}

/// Decodes one value and returns it with what is left.
fn one(ty: ColumnType, unsigned: bool, bytes: &[u8]) -> (Result<Value, Error>, Vec<u8>) {
    let mut buf = bytes;
    let res = decode_one(&info(ty, unsigned), &mut buf);
    (res, buf.to_vec())
}

fn arguments(types: Vec<MySqlTypeInfo>, null_bitmap: Vec<u8>, values: Vec<u8>) -> MySqlArguments {
    MySqlArguments { values, types, null_bitmap }
}

#[test]
fn single_bytes_are_taken_in_order() {
    let mut buf: &[u8] = &[7, 8];
    assert_eq!(take_u8(&mut buf), Ok(7));
    assert_eq!(take_u8(&mut buf), Ok(8));
    assert_eq!(take_u8(&mut buf), Err(Error::UnexpectedEnd));
    assert!(buf.is_empty());
}

#[test]
fn fixed_width_needs_all_its_bytes() {
    let mut buf: &[u8] = &[1, 2, 3, 4, 5];
    assert_eq!(take_fixed::<3>(&mut buf), Ok([1, 2, 3]));
    assert_eq!(
        take_fixed::<3>(&mut buf),
        Err(Error::NotEnoughBytes { need: 3, have: 2 })
    );
    assert_eq!(buf, [4, 5]);
    assert_eq!(take_fixed::<0>(&mut buf), Ok([]));
}

#[test]
fn run_time_width_needs_all_its_bytes() {
    let mut buf: &[u8] = &[1, 2, 3];
    assert_eq!(take_n(&mut buf, 2), Ok(&[1u8, 2][..]));
    assert_eq!(
        take_n(&mut buf, 2),
        Err(Error::NotEnoughBytes { need: 2, have: 1 })
    );
    assert_eq!(buf, [3]);
}

#[test]
fn length_encoded_integers_of_every_width() {
    let cases: [(&[u8], u64); 7] = [
        (&[0x00], 0),
        (&[0xfa], 0xfa),
        (&[0xfb], 0xfb),
        (&[0xff], 0xff),
        (&[0xfc, 0x01, 0x02], 0x0201),
        (&[0xfd, 0x01, 0x02, 0x03], 0x030201),
        (&[0xfe, 1, 2, 3, 4, 5, 6, 7, 8], 0x0807060504030201),
    ];
    for (bytes, expected) in cases {
        let mut with_rest = bytes.to_vec();
        with_rest.push(0x99);
        let mut buf: &[u8] = &with_rest;
        assert_eq!(take_lenenc_int(&mut buf), Ok(expected));
        assert_eq!(buf, [0x99]);
    }
}

#[test]
fn length_encoded_integer_cut_short_keeps_what_follows_its_first_byte() {
    let mut buf: &[u8] = &[0xfd, 1, 2];
    assert_eq!(
        take_lenenc_int(&mut buf),
        Err(Error::NotEnoughBytes { need: 3, have: 2 })
    );
    assert_eq!(buf, [1, 2]);
    let mut empty: &[u8] = &[];
    assert_eq!(take_lenenc_int(&mut empty), Err(Error::UnexpectedEnd));
}

#[test]
fn length_encoded_bytes() {
    let mut buf: &[u8] = &[2, b'h', b'i', 0xfc, 1, 0, b'x', 9];
    assert_eq!(take_lenenc_bytes(&mut buf), Ok(&b"hi"[..]));
    assert_eq!(take_lenenc_bytes(&mut buf), Ok(&b"x"[..]));
    assert_eq!(
        take_lenenc_bytes(&mut buf),
        Err(Error::NotEnoughBytes { need: 9, have: 0 })
    );
}

#[test]
fn integers_are_signed_unless_flagged() {
    assert_eq!(one(ColumnType::Tiny, false, &[0xff, 1]), (Ok(Value::Int(-1)), vec![1]));
    assert_eq!(one(ColumnType::Tiny, true, &[0xff]).0, Ok(Value::UInt(255)));
    assert_eq!(one(ColumnType::Tiny, false, &[0x80]).0, Ok(Value::Int(-128)));
    assert_eq!(one(ColumnType::Tiny, false, &[0x7f]).0, Ok(Value::Int(127)));
    assert_eq!(one(ColumnType::Short, false, &[0x00, 0x80]).0, Ok(Value::Int(-32768)));
    assert_eq!(one(ColumnType::Short, true, &[0x00, 0x80]).0, Ok(Value::UInt(32768)));
    assert_eq!(one(ColumnType::Year, true, &[0xe8, 0x07]).0, Ok(Value::UInt(2024)));
    assert_eq!(one(ColumnType::Long, false, &[0xfe, 0xff, 0xff, 0xff]).0, Ok(Value::Int(-2)));
    assert_eq!(one(ColumnType::Int24, false, &[0xff, 0xff, 0xff, 0xff]).0, Ok(Value::Int(-1)));
    assert_eq!(
        one(ColumnType::LongLong, false, &i64::MIN.to_le_bytes()).0,
        Ok(Value::Int(i64::MIN))
    );
    assert_eq!(
        one(ColumnType::LongLong, true, &u64::MAX.to_le_bytes()).0,
        Ok(Value::UInt(u64::MAX))
    );
    assert_eq!(
        one(ColumnType::Long, true, &[1, 2, 3]),
        (Err(Error::NotEnoughBytes { need: 4, have: 3 }), vec![1, 2, 3])
    );
}

#[test]
fn floating_point_numbers_keep_their_bits() {
    assert_eq!(
        one(ColumnType::Float, false, &1.5f32.to_le_bytes()).0,
        Ok(Value::Float(1.5f32.to_bits()))
    );
    assert_eq!(
        one(ColumnType::Double, false, &(-0.1f64).to_le_bytes()).0,
        Ok(Value::Double((-0.1f64).to_bits()))
    );
}

#[test]
fn dates_of_every_length() {
    let bytes: [u8; 11] = [0xe8, 0x07, 2, 29, 23, 59, 58, 0x40, 0xe2, 0x01, 0x00];
    for (len, expected) in [
        (0u8, Value::Date(0, 0, 0, 0, 0, 0, 0)),
        (4, Value::Date(2024, 2, 29, 0, 0, 0, 0)),
        (7, Value::Date(2024, 2, 29, 23, 59, 58, 0)),
        (11, Value::Date(2024, 2, 29, 23, 59, 58, 123456)),
    ] {
        let mut encoded = vec![len];
        encoded.extend_from_slice(&bytes[..len as usize]);
        encoded.push(0x77);
        let mut buf: &[u8] = &encoded;
        assert_eq!(decode_date(&mut buf), Ok(expected));
        assert_eq!(buf, [0x77]);
    }
}

#[test]
fn dates_of_no_known_length() {
    let mut buf: &[u8] = &[5, 1, 2, 3, 4, 5];
    assert_eq!(decode_date(&mut buf), Err(Error::DateLength { len: 5 }));
    assert_eq!(buf, [1, 2, 3, 4, 5]);
    let mut short: &[u8] = &[7, 1, 2];
    assert_eq!(
        decode_date(&mut short),
        Err(Error::NotEnoughBytes { need: 7, have: 2 })
    );
}

#[test]
fn times_of_every_length() {
    let bytes: [u8; 12] = [1, 2, 0, 0, 0, 3, 4, 5, 0x40, 0xe2, 0x01, 0x00];
    for (len, expected) in [
        (0u8, Value::Time(false, 0, 0, 0, 0, 0)),
        (8, Value::Time(true, 2, 3, 4, 5, 0)),
        (12, Value::Time(true, 2, 3, 4, 5, 123456)),
    ] {
        let mut encoded = vec![len];
        encoded.extend_from_slice(&bytes[..len as usize]);
        encoded.push(0x77);
        let mut buf: &[u8] = &encoded;
        assert_eq!(decode_time(&mut buf), Ok(expected));
        assert_eq!(buf, [0x77]);
    }
}

#[test]
fn times_of_no_known_length() {
    let mut buf: &[u8] = &[4, 1, 2, 3, 4];
    assert_eq!(decode_time(&mut buf), Err(Error::TimeLength { len: 4 }));
    assert_eq!(buf, [1, 2, 3, 4]);
}

#[test]
fn byte_strings_of_every_type() {
    for ty in [
        ColumnType::Bit,
        ColumnType::Blob,
        ColumnType::Decimal,
        ColumnType::Enum,
        ColumnType::Geometry,
        ColumnType::Json,
        ColumnType::LongBlob,
        ColumnType::MediumBlob,
        ColumnType::NewDecimal,
        ColumnType::SetOf,
        ColumnType::String,
        ColumnType::TinyBlob,
        ColumnType::VarChar,
        ColumnType::VarString,
    ] {
        assert_eq!(
            one(ty, false, &[2, 0xff, 0x00, 5]),
            (Ok(Value::Bytes(vec![0xff, 0x00])), vec![5])
        );
    }
}

#[test]
fn null_type_takes_nothing() {
    assert_eq!(one(ColumnType::Null, false, &[3]), (Ok(Value::NULL), vec![3]));
}

#[test]
fn null_bits_are_counted_from_the_least_significant() {
    let a = arguments(vec![], vec![0b0000_0101, 0b1000_0000], vec![]);
    let set: Vec<usize> = (0..40).filter(|i| is_null(&a, *i)).collect();
    assert_eq!(set, vec![0, 2, 15]);
}

#[test]
fn null_parameters_contribute_no_bytes() {
    let a = arguments(
        vec![
            info(ColumnType::Tiny, false),
            info(ColumnType::Long, false),
            info(ColumnType::VarString, false),
        ],
        vec![0b010],
        vec![9, 1, b'x'],
    );
    assert_eq!(
        decode_arguments(&a),
        Ok(vec![Value::Int(9), Value::NULL, Value::Bytes(vec![b'x'])])
    );
}

#[test]
fn a_missing_bitmap_means_no_nulls() {
    let a = arguments(vec![info(ColumnType::Tiny, true)], vec![], vec![200]);
    assert_eq!(decode_arguments(&a), Ok(vec![Value::UInt(200)]));
}

#[test]
fn bytes_left_over_are_refused() {
    let a = arguments(vec![info(ColumnType::Tiny, true)], vec![0], vec![1, 2, 3]);
    assert_eq!(
        decode_arguments(&a),
        Err(Error::TrailingBytes { trailing: 2, parameters: 1 })
    );
}

#[test]
fn the_first_error_is_reported() {
    let a = arguments(
        vec![info(ColumnType::Date, false), info(ColumnType::Time, false)],
        vec![0],
        vec![3, 1],
    );
    assert_eq!(decode_arguments(&a), Err(Error::DateLength { len: 3 }));
}
