//! What the bytes of an encoded argument mean, byte by byte.
//!
//! The laws here write the bytes out, weigh each of them, and say what comes out, what is left, and
//! which error comes where the bytes cannot be read.
use crate::arguments::{ColumnType, MySqlTypeInfo};
use crate::decode::{date_taken, time_taken, value_taken};
use crate::error::Error;
use crate::little_endian::{le_value, lemma_le_limits};
use crate::reader::{
    bytes_taken, lenenc_bytes_taken, lenenc_int_taken, outcome, u8_taken,
};
use crate::value::{SqlValue, Value};
use vstd::prelude::*;

verus! {

/// The number that two bytes spell.
pub open spec fn weighed2(b0: u8, b1: u8) -> int {
    b0 + 0x100 * b1
}

/// The number that four bytes spell.
pub open spec fn weighed4(b0: u8, b1: u8, b2: u8, b3: u8) -> int {
    b0 + 0x100 * b1 + 0x1_0000 * b2 + 0x100_0000 * b3
}

/// The number that eight bytes spell.
pub open spec fn weighed8(
    b0: u8,
    b1: u8,
    b2: u8,
    b3: u8,
    b4: u8,
    b5: u8,
    b6: u8,
    b7: u8,
) -> int {
    weighed4(b0, b1, b2, b3) + 0x1_0000_0000 * weighed4(b4, b5, b6, b7)
}

/// A value holds what its view says that it holds.
pub proof fn law_view_keeps_fields(value: Value)
    ensures
        value is NULL <==> value@ is NULL,
        value matches Value::Bytes(bytes) ==> value@ == SqlValue::Bytes(bytes@),
        value matches Value::Int(x) ==> value@ == SqlValue::Int(x),
        value matches Value::UInt(x) ==> value@ == SqlValue::UInt(x),
        value matches Value::Float(bits) ==> value@ == SqlValue::Float(bits),
        value matches Value::Double(bits) ==> value@ == SqlValue::Double(bits),
        value matches Value::Date(y, mo, d, h, mi, s, us) ==> value@ == SqlValue::Date(
            y,
            mo,
            d,
            h,
            mi,
            s,
            us,
        ),
        value matches Value::Time(neg, d, h, mi, s, us) ==> value@ == SqlValue::Time(
            neg,
            d,
            h,
            mi,
            s,
            us,
        ),
{
}

/// An outcome holds the error that there was, or what the value that there was holds.
pub proof fn law_outcome_keeps_result<T: View>(res: Result<T, Error>)
    ensures
        res matches Ok(x) ==> outcome(res) == Ok::<T::V, Error>(x@),
        res matches Err(e) ==> outcome(res) == Err::<T::V, Error>(e),
{
}

/// A buffer that starts with enough bytes gives exactly those and keeps exactly the others.
pub proof fn law_front_is_taken(front: Seq<u8>, rest: Seq<u8>)
    ensures
        bytes_taken(front + rest, front.len()) == (Ok::<Seq<u8>, Error>(front), rest),
{
    assert((front + rest).take(front.len() as int) =~= front);
    assert((front + rest).skip(front.len() as int) =~= rest);
}

/// A buffer that is too short is refused with both numbers, and is kept as it is.
pub proof fn law_short_buffer_is_refused(buf: Seq<u8>, n: nat)
    requires
        buf.len() < n,
    ensures
        bytes_taken(buf, n) == (
            Err::<Seq<u8>, Error>(
                (Error::NotEnoughBytes { need: n as usize, have: buf.len() as usize }),
            ),
            buf,
        ),
{
}

/// One byte is taken off a buffer that has one; an empty buffer is refused.
pub proof fn law_first_byte_is_taken(b: u8, rest: Seq<u8>)
    ensures
        u8_taken(seq![b] + rest) == (Ok::<u8, Error>(b), rest),
        u8_taken(Seq::<u8>::empty()) == (Err::<u8, Error>(Error::UnexpectedEnd), Seq::<u8>::empty()),
{
    assert((seq![b] + rest).skip(1) =~= rest);
}

/// What little-endian bytes weigh.
proof fn lemma_weights(bytes: Seq<u8>)
    ensures
        bytes.len() == 1 ==> le_value(bytes) == bytes[0],
        bytes.len() == 2 ==> le_value(bytes) == weighed2(bytes[0], bytes[1]),
        bytes.len() == 3 ==> le_value(bytes) == weighed4(bytes[0], bytes[1], bytes[2], 0),
        bytes.len() == 4 ==> le_value(bytes) == weighed4(bytes[0], bytes[1], bytes[2], bytes[3]),
        bytes.len() == 8 ==> le_value(bytes) == weighed8(
            bytes[0],
            bytes[1],
            bytes[2],
            bytes[3],
            bytes[4],
            bytes[5],
            bytes[6],
            bytes[7],
        ),
{
    reveal_with_fuel(le_value, 9);
}

/// An integer of one byte: two's complement where it is signed.
pub proof fn law_one_byte_integer(ty: MySqlTypeInfo, b0: u8, rest: Seq<u8>)
    requires
        ty.ty == ColumnType::Tiny,
    ensures
        ty.unsigned ==> value_taken(ty, seq![b0] + rest) == (
            Ok::<SqlValue, Error>(SqlValue::UInt(b0 as u64)),
            rest,
        ),
        !ty.unsigned ==> value_taken(ty, seq![b0] + rest) == (
            Ok::<SqlValue, Error>(
                SqlValue::Int((if b0 < 0x80 { b0 as int } else { b0 - 0x100 }) as i64),
            ),
            rest,
        ),
{
    law_front_is_taken(seq![b0], rest);
    lemma_weights(seq![b0]);
    lemma_le_limits();
}

/// An integer of two bytes, the low byte first: two's complement where it is signed.
pub proof fn law_two_byte_integer(ty: MySqlTypeInfo, b0: u8, b1: u8, rest: Seq<u8>)
    requires
        ty.ty == ColumnType::Short || ty.ty == ColumnType::Year,
    ensures
        ty.unsigned ==> value_taken(ty, seq![b0, b1] + rest) == (
            Ok::<SqlValue, Error>(SqlValue::UInt(weighed2(b0, b1) as u64)),
            rest,
        ),
        !ty.unsigned ==> value_taken(ty, seq![b0, b1] + rest) == (
            Ok::<SqlValue, Error>(
                SqlValue::Int(
                    (if b1 < 0x80 {
                        weighed2(b0, b1)
                    } else {
                        weighed2(b0, b1) - 0x1_0000
                    }) as i64,
                ),
            ),
            rest,
        ),
{
    law_front_is_taken(seq![b0, b1], rest);
    lemma_weights(seq![b0, b1]);
    lemma_le_limits();
}

/// An integer of four bytes, the low byte first: two's complement where it is signed.
pub proof fn law_four_byte_integer(
    ty: MySqlTypeInfo,
    b0: u8,
    b1: u8,
    b2: u8,
    b3: u8,
    rest: Seq<u8>,
)
    requires
        ty.ty == ColumnType::Long || ty.ty == ColumnType::Int24,
    ensures
        ty.unsigned ==> value_taken(ty, seq![b0, b1, b2, b3] + rest) == (
            Ok::<SqlValue, Error>(SqlValue::UInt(weighed4(b0, b1, b2, b3) as u64)),
            rest,
        ),
        !ty.unsigned ==> value_taken(ty, seq![b0, b1, b2, b3] + rest) == (
            Ok::<SqlValue, Error>(
                SqlValue::Int(
                    (if b3 < 0x80 {
                        weighed4(b0, b1, b2, b3)
                    } else {
                        weighed4(b0, b1, b2, b3) - 0x1_0000_0000
                    }) as i64,
                ),
            ),
            rest,
        ),
{
    law_front_is_taken(seq![b0, b1, b2, b3], rest);
    lemma_weights(seq![b0, b1, b2, b3]);
    lemma_le_limits();
}

/// An integer of eight bytes, the low byte first: two's complement where it is signed.
pub proof fn law_eight_byte_integer(
    ty: MySqlTypeInfo,
    b0: u8,
    b1: u8,
    b2: u8,
    b3: u8,
    b4: u8,
    b5: u8,
    b6: u8,
    b7: u8,
    rest: Seq<u8>,
)
    requires
        ty.ty == ColumnType::LongLong,
    ensures
        ty.unsigned ==> value_taken(ty, seq![b0, b1, b2, b3, b4, b5, b6, b7] + rest) == (
            Ok::<SqlValue, Error>(
                SqlValue::UInt(weighed8(b0, b1, b2, b3, b4, b5, b6, b7) as u64),
            ),
            rest,
        ),
        !ty.unsigned ==> value_taken(ty, seq![b0, b1, b2, b3, b4, b5, b6, b7] + rest) == (
            Ok::<SqlValue, Error>(
                SqlValue::Int(
                    (if b7 < 0x80 {
                        weighed8(b0, b1, b2, b3, b4, b5, b6, b7)
                    } else {
                        weighed8(b0, b1, b2, b3, b4, b5, b6, b7) - 0x1_0000_0000_0000_0000
                    }) as i64,
                ),
            ),
            rest,
        ),
{
    law_front_is_taken(seq![b0, b1, b2, b3, b4, b5, b6, b7], rest);
    lemma_weights(seq![b0, b1, b2, b3, b4, b5, b6, b7]);
    lemma_le_limits();
}

/// A floating-point number is four bytes of bit pattern, or eight, the low byte first.
pub proof fn law_bit_patterns(
    ty: MySqlTypeInfo,
    b0: u8,
    b1: u8,
    b2: u8,
    b3: u8,
    b4: u8,
    b5: u8,
    b6: u8,
    b7: u8,
    rest: Seq<u8>,
)
    ensures
        ty.ty == ColumnType::Float ==> value_taken(ty, seq![b0, b1, b2, b3] + rest) == (
            Ok::<SqlValue, Error>(SqlValue::Float(weighed4(b0, b1, b2, b3) as u32)),
            rest,
        ),
        ty.ty == ColumnType::Double ==> value_taken(
            ty,
            seq![b0, b1, b2, b3, b4, b5, b6, b7] + rest,
        ) == (
            Ok::<SqlValue, Error>(
                SqlValue::Double(weighed8(b0, b1, b2, b3, b4, b5, b6, b7) as u64),
            ),
            rest,
        ),
{
    law_front_is_taken(seq![b0, b1, b2, b3], rest);
    lemma_weights(seq![b0, b1, b2, b3]);
    law_front_is_taken(seq![b0, b1, b2, b3, b4, b5, b6, b7], rest);
    lemma_weights(seq![b0, b1, b2, b3, b4, b5, b6, b7]);
}

/// A number whose bytes are not all there is refused, and nothing is taken.
pub proof fn law_cut_number_is_refused(ty: MySqlTypeInfo, width: nat, buf: Seq<u8>)
    requires
        buf.len() < width,
        match ty.ty {
            ColumnType::Tiny => width == 1,
            ColumnType::Short | ColumnType::Year => width == 2,
            ColumnType::Long | ColumnType::Int24 | ColumnType::Float => width == 4,
            ColumnType::LongLong | ColumnType::Double => width == 8,
            _ => false,
        },
    ensures
        value_taken(ty, buf) == (
            Err::<SqlValue, Error>(
                (Error::NotEnoughBytes { need: width as usize, have: buf.len() as usize }),
            ),
            buf,
        ),
{
}

/// A parameter of type NULL takes no bytes.
pub proof fn law_null_type_takes_nothing(ty: MySqlTypeInfo, buf: Seq<u8>)
    requires
        ty.ty == ColumnType::Null,
    ensures
        value_taken(ty, buf) == (Ok::<SqlValue, Error>(SqlValue::NULL), buf),
{
}

/// The three types that hold a point in time are encoded alike, whatever their flag, and TIME is
/// encoded in its own way.
pub proof fn law_dates_and_times_by_type(ty: MySqlTypeInfo, buf: Seq<u8>)
    ensures
        ty.ty == ColumnType::Date || ty.ty == ColumnType::Datetime || ty.ty
            == ColumnType::Timestamp ==> value_taken(ty, buf) == date_taken(buf),
        ty.ty == ColumnType::Time ==> value_taken(ty, buf) == time_taken(buf),
{
}

/// A date of length 0 is zero throughout.
pub proof fn law_date_of_length_0(rest: Seq<u8>)
    ensures
        date_taken(seq![0u8] + rest) == (
            Ok::<SqlValue, Error>(SqlValue::Date(0, 0, 0, 0, 0, 0, 0)),
            rest,
        ),
{
    law_first_byte_is_taken(0, rest);
}

/// A date of length 4 holds year, month and day.
pub proof fn law_date_of_length_4(y0: u8, y1: u8, month: u8, day: u8, rest: Seq<u8>)
    ensures
        date_taken(seq![4u8, y0, y1, month, day] + rest) == (
            Ok::<SqlValue, Error>(
                SqlValue::Date(weighed2(y0, y1) as u16, month, day, 0, 0, 0, 0),
            ),
            rest,
        ),
{
    let payload = seq![y0, y1, month, day];
    assert(seq![4u8, y0, y1, month, day] + rest =~= seq![4u8] + (payload + rest));
    law_first_byte_is_taken(4, payload + rest);
    law_front_is_taken(payload, rest);
    lemma_weights(payload.subrange(0, 2));
}

/// A date of length 7 holds hour, minute and second too.
pub proof fn law_date_of_length_7(
    y0: u8,
    y1: u8,
    month: u8,
    day: u8,
    hour: u8,
    minute: u8,
    second: u8,
    rest: Seq<u8>,
)
    ensures
        date_taken(seq![7u8, y0, y1, month, day, hour, minute, second] + rest) == (
            Ok::<SqlValue, Error>(
                SqlValue::Date(weighed2(y0, y1) as u16, month, day, hour, minute, second, 0),
            ),
            rest,
        ),
{
    let payload = seq![y0, y1, month, day, hour, minute, second];
    assert(seq![7u8, y0, y1, month, day, hour, minute, second] + rest =~= seq![7u8] + (payload
        + rest));
    law_first_byte_is_taken(7, payload + rest);
    law_front_is_taken(payload, rest);
    lemma_weights(payload.subrange(0, 2));
}

/// A date of length 11 holds microseconds too.
pub proof fn law_date_of_length_11(
    y0: u8,
    y1: u8,
    month: u8,
    day: u8,
    hour: u8,
    minute: u8,
    second: u8,
    u0: u8,
    u1: u8,
    u2: u8,
    u3: u8,
    rest: Seq<u8>,
)
    ensures
        date_taken(
            seq![11u8, y0, y1, month, day, hour, minute, second, u0, u1, u2, u3] + rest,
        ) == (
            Ok::<SqlValue, Error>(
                SqlValue::Date(
                    weighed2(y0, y1) as u16,
                    month,
                    day,
                    hour,
                    minute,
                    second,
                    weighed4(u0, u1, u2, u3) as u32,
                ),
            ),
            rest,
        ),
{
    let payload = seq![y0, y1, month, day, hour, minute, second, u0, u1, u2, u3];
    assert(seq![11u8, y0, y1, month, day, hour, minute, second, u0, u1, u2, u3] + rest
        =~= seq![11u8] + (payload + rest));
    law_first_byte_is_taken(11, payload + rest);
    law_front_is_taken(payload, rest);
    lemma_weights(payload.subrange(0, 2));
    lemma_weights(payload.subrange(7, 11));
}

/// A date that is empty, has another length or is cut short is refused.
pub proof fn law_other_dates_are_refused(len: u8, rest: Seq<u8>)
    ensures
        date_taken(Seq::<u8>::empty()) == (
            Err::<SqlValue, Error>(Error::UnexpectedEnd),
            Seq::<u8>::empty(),
        ),
        len != 0 && len != 4 && len != 7 && len != 11 ==> date_taken(seq![len] + rest) == (
            Err::<SqlValue, Error>((Error::DateLength { len })),
            rest,
        ),
        (len == 4 || len == 7 || len == 11) && rest.len() < len ==> date_taken(seq![len] + rest)
            == (
            Err::<SqlValue, Error>(
                (Error::NotEnoughBytes { need: len as usize, have: rest.len() as usize }),
            ),
            rest,
        ),
{
    law_first_byte_is_taken(len, rest);
}

/// A time of length 0 is zero throughout.
pub proof fn law_time_of_length_0(rest: Seq<u8>)
    ensures
        time_taken(seq![0u8] + rest) == (
            Ok::<SqlValue, Error>(SqlValue::Time(false, 0, 0, 0, 0, 0)),
            rest,
        ),
{
    law_first_byte_is_taken(0, rest);
}

/// A time of length 8 holds sign, days, hours, minutes and seconds; any sign but 0 is negative.
pub proof fn law_time_of_length_8(
    sign: u8,
    d0: u8,
    d1: u8,
    d2: u8,
    d3: u8,
    hours: u8,
    minutes: u8,
    seconds: u8,
    rest: Seq<u8>,
)
    ensures
        time_taken(seq![8u8, sign, d0, d1, d2, d3, hours, minutes, seconds] + rest) == (
            Ok::<SqlValue, Error>(
                SqlValue::Time(
                    sign != 0,
                    weighed4(d0, d1, d2, d3) as u32,
                    hours,
                    minutes,
                    seconds,
                    0,
                ),
            ),
            rest,
        ),
{
    let payload = seq![sign, d0, d1, d2, d3, hours, minutes, seconds];
    assert(seq![8u8, sign, d0, d1, d2, d3, hours, minutes, seconds] + rest =~= seq![8u8] + (payload
        + rest));
    law_first_byte_is_taken(8, payload + rest);
    law_front_is_taken(payload, rest);
    lemma_weights(payload.subrange(1, 5));
}

/// A time of length 12 holds microseconds too.
pub proof fn law_time_of_length_12(
    sign: u8,
    d0: u8,
    d1: u8,
    d2: u8,
    d3: u8,
    hours: u8,
    minutes: u8,
    seconds: u8,
    u0: u8,
    u1: u8,
    u2: u8,
    u3: u8,
    rest: Seq<u8>,
)
    ensures
        time_taken(
            seq![12u8, sign, d0, d1, d2, d3, hours, minutes, seconds, u0, u1, u2, u3] + rest,
        ) == (
            Ok::<SqlValue, Error>(
                SqlValue::Time(
                    sign != 0,
                    weighed4(d0, d1, d2, d3) as u32,
                    hours,
                    minutes,
                    seconds,
                    weighed4(u0, u1, u2, u3) as u32,
                ),
            ),
            rest,
        ),
{
    let payload = seq![sign, d0, d1, d2, d3, hours, minutes, seconds, u0, u1, u2, u3];
    assert(seq![12u8, sign, d0, d1, d2, d3, hours, minutes, seconds, u0, u1, u2, u3] + rest
        =~= seq![12u8] + (payload + rest));
    law_first_byte_is_taken(12, payload + rest);
    law_front_is_taken(payload, rest);
    lemma_weights(payload.subrange(1, 5));
    lemma_weights(payload.subrange(8, 12));
}

/// A time that is empty, has another length or is cut short is refused.
pub proof fn law_other_times_are_refused(len: u8, rest: Seq<u8>)
    ensures
        time_taken(Seq::<u8>::empty()) == (
            Err::<SqlValue, Error>(Error::UnexpectedEnd),
            Seq::<u8>::empty(),
        ),
        len != 0 && len != 8 && len != 12 ==> time_taken(seq![len] + rest) == (
            Err::<SqlValue, Error>((Error::TimeLength { len })),
            rest,
        ),
        (len == 8 || len == 12) && rest.len() < len ==> time_taken(seq![len] + rest) == (
            Err::<SqlValue, Error>(
                (Error::NotEnoughBytes { need: len as usize, have: rest.len() as usize }),
            ),
            rest,
        ),
{
    law_first_byte_is_taken(len, rest);
}

/// Reading a length: the first byte is the length itself, or says that two, three or eight bytes
/// spell it.
pub proof fn law_lengths(
    first: u8,
    b0: u8,
    b1: u8,
    b2: u8,
    b3: u8,
    b4: u8,
    b5: u8,
    b6: u8,
    b7: u8,
    rest: Seq<u8>,
)
    ensures
        first < 0xfc || first == 0xff ==> lenenc_int_taken(seq![first] + rest) == (
            Ok::<u64, Error>(first as u64),
            rest,
        ),
        lenenc_int_taken(seq![0xfcu8, b0, b1] + rest) == (
            Ok::<u64, Error>(weighed2(b0, b1) as u64),
            rest,
        ),
        lenenc_int_taken(seq![0xfdu8, b0, b1, b2] + rest) == (
            Ok::<u64, Error>(weighed4(b0, b1, b2, 0) as u64),
            rest,
        ),
        lenenc_int_taken(seq![0xfeu8, b0, b1, b2, b3, b4, b5, b6, b7] + rest) == (
            Ok::<u64, Error>(weighed8(b0, b1, b2, b3, b4, b5, b6, b7) as u64),
            rest,
        ),
{
    law_first_byte_is_taken(first, rest);
    let two = seq![b0, b1];
    let three = seq![b0, b1, b2];
    let eight = seq![b0, b1, b2, b3, b4, b5, b6, b7];
    assert(seq![0xfcu8, b0, b1] + rest =~= seq![0xfcu8] + (two + rest));
    assert(seq![0xfdu8, b0, b1, b2] + rest =~= seq![0xfdu8] + (three + rest));
    assert(seq![0xfeu8, b0, b1, b2, b3, b4, b5, b6, b7] + rest =~= seq![0xfeu8] + (eight + rest));
    law_first_byte_is_taken(0xfc, two + rest);
    law_first_byte_is_taken(0xfd, three + rest);
    law_first_byte_is_taken(0xfe, eight + rest);
    law_front_is_taken(two, rest);
    law_front_is_taken(three, rest);
    law_front_is_taken(eight, rest);
    lemma_weights(two);
    lemma_weights(three);
    lemma_weights(eight);
}

/// A length that is not all there is refused.
pub proof fn law_cut_lengths_are_refused(first: u8, rest: Seq<u8>)
    ensures
        lenenc_int_taken(Seq::<u8>::empty()) == (
            Err::<u64, Error>(Error::UnexpectedEnd),
            Seq::<u8>::empty(),
        ),
        first == 0xfc && rest.len() < 2 ==> lenenc_int_taken(seq![first] + rest) == (
            Err::<u64, Error>((Error::NotEnoughBytes { need: 2, have: rest.len() as usize })),
            rest,
        ),
        first == 0xfd && rest.len() < 3 ==> lenenc_int_taken(seq![first] + rest) == (
            Err::<u64, Error>((Error::NotEnoughBytes { need: 3, have: rest.len() as usize })),
            rest,
        ),
        first == 0xfe && rest.len() < 8 ==> lenenc_int_taken(seq![first] + rest) == (
            Err::<u64, Error>((Error::NotEnoughBytes { need: 8, have: rest.len() as usize })),
            rest,
        ),
{
    law_first_byte_is_taken(first, rest);
}

/// A byte string is a length and that many bytes, which come out as they are. It is refused where
/// its length cannot be read, does not fit in a `usize`, or promises more bytes than there are.
pub proof fn law_byte_strings(head: Seq<u8>, length: u64, content: Seq<u8>, rest: Seq<u8>)
    requires
        lenenc_int_taken(head + (content + rest)) == (Ok::<u64, Error>(length), content + rest),
    ensures
        content.len() == length && length <= usize::MAX ==> lenenc_bytes_taken(
            head + (content + rest),
        ) == (Ok::<Seq<u8>, Error>(content), rest),
        length > usize::MAX ==> lenenc_bytes_taken(head + (content + rest)) == (
            Err::<Seq<u8>, Error>((Error::LengthOverflow { length })),
            content + rest,
        ),
        length <= usize::MAX && (content + rest).len() < length ==> lenenc_bytes_taken(
            head + (content + rest),
        ) == (
            Err::<Seq<u8>, Error>(
                (Error::NotEnoughBytes {
                    need: length as usize,
                    have: (content + rest).len() as usize,
                }),
            ),
            content + rest,
        ),
{
    law_front_is_taken(content, rest);
}

/// A byte string whose length cannot be read is refused with the error of its length.
pub proof fn law_byte_strings_without_length(buf: Seq<u8>, e: Error)
    requires
        lenenc_int_taken(buf).0 == Err::<u64, Error>(e),
    ensures
        lenenc_bytes_taken(buf) == (Err::<Seq<u8>, Error>(e), lenenc_int_taken(buf).1),
{
}

/// Every type that is no number, no date and no time, and not NULL, is a byte string.
pub proof fn law_other_types_are_byte_strings(ty: MySqlTypeInfo, buf: Seq<u8>)
    requires
        match ty.ty {
            ColumnType::Decimal
            | ColumnType::NewDecimal
            | ColumnType::VarChar
            | ColumnType::VarString
            | ColumnType::String
            | ColumnType::Blob
            | ColumnType::TinyBlob
            | ColumnType::MediumBlob
            | ColumnType::LongBlob
            | ColumnType::Json
            | ColumnType::Bit
            | ColumnType::Geometry
            | ColumnType::Enum
            | ColumnType::SetOf => true,
            _ => false,
        },
    ensures
        lenenc_bytes_taken(buf).0 matches Ok(bytes) ==> value_taken(ty, buf) == (
            Ok::<SqlValue, Error>(SqlValue::Bytes(bytes)),
            lenenc_bytes_taken(buf).1,
        ),
        lenenc_bytes_taken(buf).0 matches Err(e) ==> value_taken(ty, buf) == (
            Err::<SqlValue, Error>(e),
            lenenc_bytes_taken(buf).1,
        ),
{
}

} // verus!
