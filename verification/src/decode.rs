//! Turning bound arguments back into values.
use crate::arguments::{bit_set, is_null, ColumnType, MySqlArguments, MySqlTypeInfo};
use crate::error::Error;
use crate::little_endian::{
    le_int, le_uint, le_value, lemma_le_limits, lemma_le_value_bound, signed_value,
};
use crate::reader::{
    bytes_taken, lenenc_bytes_taken, outcome, take_fixed, take_lenenc_bytes, take_n, take_u8,
    u8_taken, uint_taken,
};
use crate::splice::contents;
use crate::value::{SqlValue, Value};
use vstd::prelude::*;
use vstd::slice::slice_to_vec;

verus! {

/// Taking an integer of `width` bytes off the front of `buf`: what comes out, and what is left.
pub open spec fn integer_taken(buf: Seq<u8>, width: nat, unsigned: bool) -> (
    Result<SqlValue, Error>,
    Seq<u8>,
) {
    match uint_taken(buf, width) {
        (Ok(v), rest) => (
            Ok(
                if unsigned {
                    SqlValue::UInt(v)
                } else {
                    SqlValue::Int(signed_value(v as nat, width) as i64)
                },
            ),
            rest,
        ),
        (Err(e), rest) => (Err(e), rest),
    }
}

/// Taking a date off the front of `buf`: a length of 0, 4, 7 or 11, and that many bytes of year,
/// month, day, hour, minute, second, microseconds. What the length leaves out is zero.
pub open spec fn date_taken(buf: Seq<u8>) -> (Result<SqlValue, Error>, Seq<u8>) {
    match u8_taken(buf) {
        (Ok(len), rest) => if len == 0 {
            (Ok(SqlValue::Date(0, 0, 0, 0, 0, 0, 0)), rest)
        } else if len == 4 || len == 7 || len == 11 {
            match bytes_taken(rest, len as nat) {
                (Ok(p), rest) => (
                    Ok(
                        SqlValue::Date(
                            le_value(p.subrange(0, 2)) as u16,
                            p[2],
                            p[3],
                            if len >= 7 { p[4] } else { 0 },
                            if len >= 7 { p[5] } else { 0 },
                            if len >= 7 { p[6] } else { 0 },
                            if len == 11 { le_value(p.subrange(7, 11)) as u32 } else { 0 },
                        ),
                    ),
                    rest,
                ),
                (Err(e), rest) => (Err(e), rest),
            }
        } else {
            (Err(Error::DateLength { len }), rest)
        },
        (Err(e), rest) => (Err(e), rest),
    }
}

/// Taking a time off the front of `buf`: a length of 0, 8 or 12, and that many bytes of sign,
/// days, hours, minutes, seconds, microseconds. What the length leaves out is zero.
pub open spec fn time_taken(buf: Seq<u8>) -> (Result<SqlValue, Error>, Seq<u8>) {
    match u8_taken(buf) {
        (Ok(len), rest) => if len == 0 {
            (Ok(SqlValue::Time(false, 0, 0, 0, 0, 0)), rest)
        } else if len == 8 || len == 12 {
            match bytes_taken(rest, len as nat) {
                (Ok(p), rest) => (
                    Ok(
                        SqlValue::Time(
                            p[0] != 0,
                            le_value(p.subrange(1, 5)) as u32,
                            p[5],
                            p[6],
                            p[7],
                            if len == 12 { le_value(p.subrange(8, 12)) as u32 } else { 0 },
                        ),
                    ),
                    rest,
                ),
                (Err(e), rest) => (Err(e), rest),
            }
        } else {
            (Err(Error::TimeLength { len }), rest)
        },
        (Err(e), rest) => (Err(e), rest),
    }
}

/// Taking a value of the given type off the front of `buf`: what comes out, and what is left.
pub open spec fn value_taken(ty: MySqlTypeInfo, buf: Seq<u8>) -> (Result<SqlValue, Error>, Seq<u8>) {
    match ty.ty {
        ColumnType::Tiny => integer_taken(buf, 1, ty.unsigned),
        ColumnType::Short | ColumnType::Year => integer_taken(buf, 2, ty.unsigned),
        ColumnType::Long | ColumnType::Int24 => integer_taken(buf, 4, ty.unsigned),
        ColumnType::LongLong => integer_taken(buf, 8, ty.unsigned),
        ColumnType::Float => match uint_taken(buf, 4) {
            (Ok(bits), rest) => (Ok(SqlValue::Float(bits as u32)), rest),
            (Err(e), rest) => (Err(e), rest),
        },
        ColumnType::Double => match uint_taken(buf, 8) {
            (Ok(bits), rest) => (Ok(SqlValue::Double(bits)), rest),
            (Err(e), rest) => (Err(e), rest),
        },
        ColumnType::Date | ColumnType::Datetime | ColumnType::Timestamp => date_taken(buf),
        ColumnType::Time => time_taken(buf),
        ColumnType::Null => (Ok(SqlValue::NULL), buf),
        _ => match lenenc_bytes_taken(buf) {
            (Ok(bytes), rest) => (Ok(SqlValue::Bytes(bytes)), rest),
            (Err(e), rest) => (Err(e), rest),
        },
    }
}

/// Taking the values of the parameters from number `i` on off the front of `buf`: they and what is
/// left, or the first error. A NULL parameter takes nothing.
pub open spec fn parameters_taken(
    types: Seq<MySqlTypeInfo>,
    null_bitmap: Seq<u8>,
    i: nat,
    buf: Seq<u8>,
) -> Result<(Seq<SqlValue>, Seq<u8>), Error>
    decreases types.len() - i,
{
    if i >= types.len() {
        Ok((seq![], buf))
    } else {
        let (res, rest) = if bit_set(null_bitmap, i) {
            (Ok(SqlValue::NULL), buf)
        } else {
            value_taken(types[i as int], buf)
        };
        match res {
            Ok(value) => match parameters_taken(types, null_bitmap, i + 1, rest) {
                Ok((later, left)) => Ok((seq![value] + later, left)),
                Err(e) => Err(e),
            },
            Err(e) => Err(e),
        }
    }
}

/// The values of all parameters. It is an error if bytes are left over.
pub open spec fn decoded(arguments: MySqlArguments) -> Result<Seq<SqlValue>, Error> {
    let types = arguments.types@;
    match parameters_taken(types, arguments.null_bitmap@, 0, arguments.values@) {
        Ok((values, left)) => if left.len() == 0 {
            Ok(values)
        } else {
            Err(
                Error::TrailingBytes {
                    trailing: left.len() as usize,
                    parameters: types.len() as usize,
                },
            )
        },
        Err(e) => Err(e),
    }
}

/// Takes an integer of `N` bytes off the front of `buf`.
fn decode_integer<const N: usize>(buf: &mut &[u8], unsigned: bool) -> (res: Result<Value, Error>)
    requires
        N == 1 || N == 2 || N == 4 || N == 8,
    ensures
        outcome(res) == integer_taken(old(buf)@, N as nat, unsigned).0,
        final(buf)@ == integer_taken(old(buf)@, N as nat, unsigned).1,
{
    let bytes: [u8; N] = take_fixed::<N>(buf)?;
    proof {
        lemma_le_limits();
        lemma_le_value_bound(bytes@);
    }
    let v: u64 = le_uint(bytes.as_slice());
    Ok(
        if unsigned {
            Value::UInt(v)
        } else {
            Value::Int(le_int(v, N))
        },
    )
}

/// Decodes a binary-protocol DATE, DATETIME or TIMESTAMP value.
pub fn decode_date(buf: &mut &[u8]) -> (res: Result<Value, Error>)
    ensures
        outcome(res) == date_taken(old(buf)@).0,
        final(buf)@ == date_taken(old(buf)@).1,
{
    let len: u8 = take_u8(buf)?;
    match len {
        0 => Ok(Value::Date(0, 0, 0, 0, 0, 0, 0)),
        4 | 7 | 11 => {
            let payload: &[u8] = take_n(buf, len as usize)?;
            proof {
                lemma_le_limits();
                lemma_le_value_bound(payload@.subrange(0, 2));
            }
            let year: u16 = le_uint(&payload[0..2]) as u16;
            let month: u8 = payload[2];
            let day: u8 = payload[3];
            let (hour, minute, second): (u8, u8, u8) = if len >= 7 {
                (payload[4], payload[5], payload[6])
            } else {
                (0, 0, 0)
            };
            let micros: u32 = if len == 11 {
                proof {
                    lemma_le_value_bound(payload@.subrange(7, 11));
                }
                le_uint(&payload[7..11]) as u32
            } else {
                0
            };
            Ok(Value::Date(year, month, day, hour, minute, second, micros))
        },
        other => Err(Error::DateLength { len: other }),
    }
}

/// Decodes a binary-protocol TIME value.
pub fn decode_time(buf: &mut &[u8]) -> (res: Result<Value, Error>)
    ensures
        outcome(res) == time_taken(old(buf)@).0,
        final(buf)@ == time_taken(old(buf)@).1,
{
    let len: u8 = take_u8(buf)?;
    match len {
        0 => Ok(Value::Time(false, 0, 0, 0, 0, 0)),
        8 | 12 => {
            let payload: &[u8] = take_n(buf, len as usize)?;
            proof {
                lemma_le_limits();
                lemma_le_value_bound(payload@.subrange(1, 5));
            }
            let is_neg: bool = payload[0] != 0;
            let days: u32 = le_uint(&payload[1..5]) as u32;
            let hours: u8 = payload[5];
            let minutes: u8 = payload[6];
            let seconds: u8 = payload[7];
            let micros: u32 = if len == 12 {
                proof {
                    lemma_le_value_bound(payload@.subrange(8, 12));
                }
                le_uint(&payload[8..12]) as u32
            } else {
                0
            };
            Ok(Value::Time(is_neg, days, hours, minutes, seconds, micros))
        },
        other => Err(Error::TimeLength { len: other }),
    }
}

/// Decodes a single parameter value at the head of `buf`, by its declared type.
pub fn decode_one(ty: &MySqlTypeInfo, buf: &mut &[u8]) -> (res: Result<Value, Error>)
    ensures
        outcome(res) == value_taken(*ty, old(buf)@).0,
        final(buf)@ == value_taken(*ty, old(buf)@).1,
{
    match ty.ty {
        ColumnType::Tiny => decode_integer::<1>(buf, ty.unsigned),
        ColumnType::Short | ColumnType::Year => decode_integer::<2>(buf, ty.unsigned),
        // INT24 is sign-extended to 4 bytes.
        ColumnType::Long | ColumnType::Int24 => decode_integer::<4>(buf, ty.unsigned),
        ColumnType::LongLong => decode_integer::<8>(buf, ty.unsigned),
        ColumnType::Float => {
            let bytes: [u8; 4] = take_fixed::<4>(buf)?;
            proof {
                lemma_le_limits();
                lemma_le_value_bound(bytes@);
            }
            Ok(Value::Float(le_uint(bytes.as_slice()) as u32))
        },
        ColumnType::Double => {
            let bytes: [u8; 8] = take_fixed::<8>(buf)?;
            Ok(Value::Double(le_uint(bytes.as_slice())))
        },
        ColumnType::Date | ColumnType::Datetime | ColumnType::Timestamp => decode_date(buf),
        ColumnType::Time => decode_time(buf),
        ColumnType::Decimal
        | ColumnType::NewDecimal
        | ColumnType::VarChar
        | ColumnType::VarString
        | ColumnType::String
        | ColumnType::Blob
        | ColumnType::TinyBlob
        | ColumnType::MediumBlob
        | ColumnType::LongBlob
        | ColumnType::Json
        | ColumnType::Bit
        | ColumnType::Geometry
        | ColumnType::Enum
        | ColumnType::SetOf => {
            let bytes: &[u8] = take_lenenc_bytes(buf)?;
            Ok(Value::Bytes(slice_to_vec(bytes)))
        },
        // NULL parameters are told by the bitmap; their type holds no bytes either.
        ColumnType::Null => Ok(Value::NULL),
    }
}

/// Decodes all parameter values, by their types and the NULL bitmap.
pub fn decode_arguments(arguments: &MySqlArguments) -> (res: Result<Vec<Value>, Error>)
    ensures
        match res {
            Ok(values) => decoded(*arguments) == Ok::<Seq<SqlValue>, Error>(contents(values@)),
            Err(e) => decoded(*arguments) == Err::<Seq<SqlValue>, Error>(e),
        },
        res matches Ok(values) ==> values@.len() == arguments.types@.len() && decoded(
            *arguments,
        )->Ok_0.len() == values@.len(),
        res matches Ok(values) ==> forall|k: int|
            #![trigger values@[k]]
            0 <= k < values@.len() ==> values@[k]@ == decoded(*arguments)->Ok_0[k],
{
    let mut out: Vec<Value> = Vec::new();
    let mut buf: &[u8] = arguments.values.as_slice();
    let mut i: usize = 0;
    let ghost types = arguments.types@;
    let ghost null_bitmap = arguments.null_bitmap@;
    let ghost whole = parameters_taken(types, null_bitmap, 0, buf@);
    while i < arguments.types.len()
        invariant
            types == arguments.types@,
            null_bitmap == arguments.null_bitmap@,
            i <= types.len(),
            out@.len() == i,
            whole == parameters_taken(types, null_bitmap, 0, arguments.values@),
            whole == match parameters_taken(types, null_bitmap, i as nat, buf@) {
                Ok((later, left)) => Ok((contents(out@) + later, left)),
                Err(e) => Err(e),
            },
        decreases types.len() - i,
    {
        let ghost before = out@;
        let value: Value = if is_null(arguments, i) {
            Value::NULL
        } else {
            decode_one(&arguments.types[i], &mut buf)?
        };
        out.push(value);
        proof {
            assert(contents(out@) =~= contents(before).push(value@));
            if let Ok((later, left)) = parameters_taken(types, null_bitmap, (i + 1) as nat, buf@) {
                assert(contents(before) + (seq![value@] + later) =~= contents(out@) + later);
            }
        }
        i += 1;
    }
    if !buf.is_empty() {
        return Err(
            Error::TrailingBytes { trailing: buf.len(), parameters: arguments.types.len() },
        );
    }
    assert(contents(out@) + Seq::<SqlValue>::empty() =~= contents(out@));
    Ok(out)
}

} // verus!
