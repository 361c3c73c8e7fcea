//! How values are encoded, and that decoding gives them back.
use crate::arguments::{
    bit_set, is_bitmap_of, law_flags_round_trip, ColumnType, MySqlArguments, MySqlTypeInfo,
};
use crate::decode::{date_taken, decoded, parameters_taken, time_taken, value_taken};
use crate::error::Error;
use crate::little_endian::{
    law_le_round_trip, le_bytes, le_limit, lemma_le_limit_grows, lemma_le_limits,
};
use crate::reader::{lenenc_int_taken, uint_taken};
use crate::value::SqlValue;
use vstd::arithmetic::div_mod::{lemma_mod_add_multiples_vanish, lemma_small_mod};
use vstd::prelude::*;

verus! {

/// How many bytes an integer of the given type takes.
pub open spec fn integer_width(ty: ColumnType) -> Option<nat> {
    match ty {
        ColumnType::Tiny => Some(1),
        ColumnType::Short | ColumnType::Year => Some(2),
        ColumnType::Long | ColumnType::Int24 => Some(4),
        ColumnType::LongLong => Some(8),
        _ => None,
    }
}

/// The two's complement encoding of an integer.
pub open spec fn signed_bytes(x: int, width: nat) -> Seq<u8> {
    le_bytes((x % (le_limit(width) as int)) as nat, width)
}

/// Whether `bytes` is an `int<lenenc>` of value `n`.
pub open spec fn is_lenenc_int(n: nat, bytes: Seq<u8>) -> bool {
    ||| n < 0xfb && bytes == seq![n as u8]
    ||| n < le_limit(2) && bytes == seq![0xfcu8] + le_bytes(n, 2)
    ||| n < le_limit(3) && bytes == seq![0xfdu8] + le_bytes(n, 3)
    ||| n < le_limit(8) && bytes == seq![0xfeu8] + le_bytes(n, 8)
}

/// Whether a date can be cut down to its first `len` bytes: what is left out is zero.
pub open spec fn date_fits(len: u8, y: u16, mo: u8, d: u8, h: u8, mi: u8, s: u8, us: u32) -> bool {
    ||| len == 11
    ||| len == 7 && us == 0
    ||| len == 4 && us == 0 && h == 0 && mi == 0 && s == 0
    ||| len == 0 && us == 0 && h == 0 && mi == 0 && s == 0 && y == 0 && mo == 0 && d == 0
}

/// A date, cut down to its first `len` bytes, behind that length.
pub open spec fn date_bytes(len: u8, y: u16, mo: u8, d: u8, h: u8, mi: u8, s: u8, us: u32) -> Seq<
    u8,
> {
    seq![len] + (le_bytes(y as nat, 2) + seq![mo, d, h, mi, s] + le_bytes(us as nat, 4)).take(
        len as int,
    )
}

/// Whether a time can be cut down to its first `len` bytes: what is left out is zero.
pub open spec fn time_fits(len: u8, neg: bool, d: u32, h: u8, mi: u8, s: u8, us: u32) -> bool {
    ||| len == 12
    ||| len == 8 && us == 0
    ||| len == 0 && us == 0 && !neg && d == 0 && h == 0 && mi == 0 && s == 0
}

/// A time, cut down to its first `len` bytes, behind that length.
pub open spec fn time_bytes(len: u8, neg: bool, d: u32, h: u8, mi: u8, s: u8, us: u32) -> Seq<u8> {
    seq![len] + (seq![
        if neg {
            1u8
        } else {
            0u8
        },
    ] + le_bytes(d as nat, 4) + seq![h, mi, s] + le_bytes(us as nat, 4)).take(len as int)
}

/// Whether `bytes` is an encoding of `value` as a parameter of type `ty`.
pub open spec fn is_encoding(ty: MySqlTypeInfo, value: SqlValue, bytes: Seq<u8>) -> bool {
    match ty.ty {
        ColumnType::Tiny
        | ColumnType::Short
        | ColumnType::Year
        | ColumnType::Long
        | ColumnType::Int24
        | ColumnType::LongLong => {
            let width = integer_width(ty.ty)->0;
            match value {
                SqlValue::UInt(x) => ty.unsigned && x < le_limit(width) && bytes == le_bytes(
                    x as nat,
                    width,
                ),
                SqlValue::Int(x) => !ty.unsigned && -le_limit(width) <= 2 * x < le_limit(width)
                    && bytes == signed_bytes(x as int, width),
                _ => false,
            }
        },
        ColumnType::Float => value matches SqlValue::Float(bits) && bytes == le_bytes(
            bits as nat,
            4,
        ),
        ColumnType::Double => value matches SqlValue::Double(bits) && bytes == le_bytes(
            bits as nat,
            8,
        ),
        ColumnType::Date | ColumnType::Datetime | ColumnType::Timestamp => {
            value matches SqlValue::Date(y, mo, d, h, mi, s, us) && exists|len: u8|
                date_fits(len, y, mo, d, h, mi, s, us) && bytes == #[trigger] date_bytes(
                    len,
                    y,
                    mo,
                    d,
                    h,
                    mi,
                    s,
                    us,
                )
        },
        ColumnType::Time => {
            value matches SqlValue::Time(neg, d, h, mi, s, us) && exists|len: u8|
                time_fits(len, neg, d, h, mi, s, us) && bytes == #[trigger] time_bytes(
                    len,
                    neg,
                    d,
                    h,
                    mi,
                    s,
                    us,
                )
        },
        ColumnType::Null => value is NULL && bytes.len() == 0,
        _ => value matches SqlValue::Bytes(content) && content.len() <= usize::MAX && exists|
            prefix: Seq<u8>,
        | #[trigger]
            is_lenenc_int(content.len(), prefix) && bytes == prefix + content,
    }
}

/// Taking a little-endian integer off the front of where it was put gives it back.
proof fn lemma_uint_back(v: nat, width: nat, rest: Seq<u8>)
    requires
        v < le_limit(width),
        width <= 8,
    ensures
        uint_taken(le_bytes(v, width) + rest, width) == (Ok::<u64, Error>(v as u64), rest),
        v <= u64::MAX,
{
    law_le_round_trip(v, width);
    lemma_le_limits();
    lemma_le_limit_grows(width, 8);
    let buf = le_bytes(v, width) + rest;
    assert(buf.take(width as int) =~= le_bytes(v, width));
    assert(buf.skip(width as int) =~= rest);
}

/// Reading an `int<lenenc>` gives back the value that was written.
pub proof fn law_lenenc_int_round_trip(n: nat, bytes: Seq<u8>, rest: Seq<u8>)
    requires
        is_lenenc_int(n, bytes),
    ensures
        lenenc_int_taken(bytes + rest) == (Ok::<u64, Error>(n as u64), rest),
        n <= u64::MAX,
{
    let buf = bytes + rest;
    lemma_le_limits();
    assert(buf.skip(1) =~= bytes.skip(1) + rest);
    if n < 0xfb && bytes == seq![n as u8] {
        assert(buf.skip(1) =~= rest);
    } else if n < le_limit(2) && bytes == seq![0xfcu8] + le_bytes(n, 2) {
        lemma_uint_back(n, 2, rest);
        assert(bytes.skip(1) =~= le_bytes(n, 2));
    } else if n < le_limit(3) && bytes == seq![0xfdu8] + le_bytes(n, 3) {
        lemma_uint_back(n, 3, rest);
        assert(bytes.skip(1) =~= le_bytes(n, 3));
    } else {
        lemma_uint_back(n, 8, rest);
        assert(bytes.skip(1) =~= le_bytes(n, 8));
    }
}

proof fn lemma_integer_back(ty: MySqlTypeInfo, value: SqlValue, bytes: Seq<u8>, rest: Seq<u8>)
    requires
        integer_width(ty.ty) is Some,
        is_encoding(ty, value, bytes),
    ensures
        value_taken(ty, bytes + rest) == (Ok::<SqlValue, Error>(value), rest),
{
    let width = integer_width(ty.ty)->0;
    lemma_le_limits();
    match value {
        SqlValue::UInt(x) => {
            lemma_uint_back(x as nat, width, rest);
        },
        SqlValue::Int(x) => {
            let v = (x as int % (le_limit(width) as int)) as nat;
            lemma_uint_back(v, width, rest);
            if x >= 0 {
                lemma_small_mod(x as nat, le_limit(width));
            } else {
                assert(v == x + le_limit(width)) by {
                    lemma_mod_add_multiples_vanish(x as int, le_limit(width) as int);
                    lemma_small_mod((x + le_limit(width)) as nat, le_limit(width));
                }
            }
        },
        _ => {},
    }
}

proof fn lemma_date_back(
    len: u8,
    y: u16,
    mo: u8,
    d: u8,
    h: u8,
    mi: u8,
    s: u8,
    us: u32,
    rest: Seq<u8>,
)
    requires
        date_fits(len, y, mo, d, h, mi, s, us),
    ensures
        date_taken(date_bytes(len, y, mo, d, h, mi, s, us) + rest) == (
            Ok::<SqlValue, Error>(SqlValue::Date(y, mo, d, h, mi, s, us)),
            rest,
        ),
{
    lemma_le_limits();
    law_le_round_trip(y as nat, 2);
    law_le_round_trip(us as nat, 4);
    let payload = le_bytes(y as nat, 2) + seq![mo, d, h, mi, s] + le_bytes(us as nat, 4);
    let buf = date_bytes(len, y, mo, d, h, mi, s, us) + rest;
    let p = payload.take(len as int);
    assert(buf.skip(1) =~= p + rest);
    assert((p + rest).take(len as int) =~= p);
    assert((p + rest).skip(len as int) =~= rest);
    if len >= 4 {
        assert(p.subrange(0, 2) =~= le_bytes(y as nat, 2));
    }
    if len == 11 {
        assert(p.subrange(7, 11) =~= le_bytes(us as nat, 4));
    }
}

proof fn lemma_time_back(
    len: u8,
    neg: bool,
    d: u32,
    h: u8,
    mi: u8,
    s: u8,
    us: u32,
    rest: Seq<u8>,
)
    requires
        time_fits(len, neg, d, h, mi, s, us),
    ensures
        time_taken(time_bytes(len, neg, d, h, mi, s, us) + rest) == (
            Ok::<SqlValue, Error>(SqlValue::Time(neg, d, h, mi, s, us)),
            rest,
        ),
{
    lemma_le_limits();
    law_le_round_trip(d as nat, 4);
    law_le_round_trip(us as nat, 4);
    let sign: u8 = if neg {
        1
    } else {
        0
    };
    let payload = seq![sign] + le_bytes(d as nat, 4) + seq![h, mi, s] + le_bytes(us as nat, 4);
    let buf = time_bytes(len, neg, d, h, mi, s, us) + rest;
    let p = payload.take(len as int);
    assert(buf.skip(1) =~= p + rest);
    assert((p + rest).take(len as int) =~= p);
    assert((p + rest).skip(len as int) =~= rest);
    if len >= 8 {
        assert(p.subrange(1, 5) =~= le_bytes(d as nat, 4));
    }
    if len == 12 {
        assert(p.subrange(8, 12) =~= le_bytes(us as nat, 4));
    }
}

/// Decoding gives back the value that was encoded, and takes exactly its bytes.
pub proof fn law_value_round_trip(
    ty: MySqlTypeInfo,
    value: SqlValue,
    bytes: Seq<u8>,
    rest: Seq<u8>,
)
    requires
        is_encoding(ty, value, bytes),
    ensures
        value_taken(ty, bytes + rest) == (Ok::<SqlValue, Error>(value), rest),
{
    lemma_le_limits();
    match ty.ty {
        ColumnType::Tiny
        | ColumnType::Short
        | ColumnType::Year
        | ColumnType::Long
        | ColumnType::Int24
        | ColumnType::LongLong => {
            lemma_integer_back(ty, value, bytes, rest);
        },
        ColumnType::Float => {
            lemma_uint_back(value->Float_0 as nat, 4, rest);
        },
        ColumnType::Double => {
            lemma_uint_back(value->Double_0 as nat, 8, rest);
        },
        ColumnType::Date | ColumnType::Datetime | ColumnType::Timestamp => {
            if let SqlValue::Date(y, mo, d, h, mi, s, us) = value {
                let len = choose|len: u8|
                    date_fits(len, y, mo, d, h, mi, s, us) && bytes == #[trigger] date_bytes(
                        len,
                        y,
                        mo,
                        d,
                        h,
                        mi,
                        s,
                        us,
                    );
                lemma_date_back(len, y, mo, d, h, mi, s, us, rest);
            }
        },
        ColumnType::Time => {
            if let SqlValue::Time(neg, d, h, mi, s, us) = value {
                let len = choose|len: u8|
                    time_fits(len, neg, d, h, mi, s, us) && bytes == #[trigger] time_bytes(
                        len,
                        neg,
                        d,
                        h,
                        mi,
                        s,
                        us,
                    );
                lemma_time_back(len, neg, d, h, mi, s, us, rest);
            }
        },
        ColumnType::Null => {
            assert(bytes + rest =~= rest);
        },
        _ => {
            if let SqlValue::Bytes(content) = value {
                let prefix = choose|prefix: Seq<u8>| #[trigger]
                    is_lenenc_int(content.len(), prefix) && bytes == prefix + content;
                law_lenenc_int_round_trip(content.len(), prefix, content + rest);
                assert(bytes + rest =~= prefix + (content + rest));
                assert((content + rest).take(content.len() as int) =~= content);
                assert((content + rest).skip(content.len() as int) =~= rest);
            }
        },
    }
}

/// Whether `chunk` is what a parameter contributes to the encoded arguments: nothing where it is
/// NULL, an encoding of its value elsewhere.
pub open spec fn is_bound_as(
    ty: MySqlTypeInfo,
    null: bool,
    value: SqlValue,
    chunk: Seq<u8>,
) -> bool {
    if null {
        value is NULL && chunk.len() == 0
    } else {
        is_encoding(ty, value, chunk)
    }
}

/// Whether each of `chunks` is what the parameter of its number contributes to the encoded
/// arguments: nothing where it is NULL, an encoding of its value elsewhere.
pub open spec fn are_encodings(
    types: Seq<MySqlTypeInfo>,
    null_bitmap: Seq<u8>,
    values: Seq<SqlValue>,
    chunks: Seq<Seq<u8>>,
) -> bool {
    &&& types.len() == values.len() == chunks.len()
    &&& forall|i: int|
        #![trigger chunks[i]]
        0 <= i < chunks.len() ==> is_bound_as(
            types[i],
            bit_set(null_bitmap, i as nat),
            values[i],
            chunks[i],
        )
}

proof fn lemma_parameters_back(
    types: Seq<MySqlTypeInfo>,
    null_bitmap: Seq<u8>,
    values: Seq<SqlValue>,
    chunks: Seq<Seq<u8>>,
    i: nat,
)
    requires
        are_encodings(types, null_bitmap, values, chunks),
        i <= chunks.len(),
    ensures
        parameters_taken(types, null_bitmap, i, chunks.skip(i as int).flatten()) == Ok::<
            (Seq<SqlValue>, Seq<u8>),
            Error,
        >((values.skip(i as int), seq![])),
    decreases chunks.len() - i,
{
    if i == chunks.len() {
        assert(values.skip(i as int) =~= Seq::<SqlValue>::empty());
        assert(chunks.skip(i as int).flatten() =~= Seq::<u8>::empty());
    } else {
        lemma_parameters_back(types, null_bitmap, values, chunks, i + 1);
        let here = chunks.skip(i as int);
        assert(here.drop_first() =~= chunks.skip(i as int + 1));
        let rest = here.drop_first().flatten();
        assert(here.flatten() == chunks[i as int] + rest);
        assert(values.skip(i as int) =~= seq![values[i as int]] + values.skip(i as int + 1));
        assert(is_bound_as(
            types[i as int],
            bit_set(null_bitmap, i),
            values[i as int],
            chunks[i as int],
        ));
        if bit_set(null_bitmap, i) {
            assert(chunks[i as int] + rest =~= rest);
        } else {
            law_value_round_trip(types[i as int], values[i as int], chunks[i as int], rest);
        }
    }
}

/// Whether `arguments` carry `values`: the flags `nulls` say which of them are NULL and are packed
/// into the bitmap, and the chunks of those that are not, back to back, encode them.
pub open spec fn are_bound(
    arguments: MySqlArguments,
    nulls: Seq<bool>,
    values: Seq<SqlValue>,
    chunks: Seq<Seq<u8>>,
) -> bool {
    &&& is_bitmap_of(arguments.null_bitmap@, nulls)
    &&& arguments.values@ == chunks.flatten()
    &&& arguments.types@.len() == nulls.len() == values.len() == chunks.len()
    &&& forall|i: int|
        #![trigger chunks[i]]
        0 <= i < chunks.len() ==> is_bound_as(arguments.types@[i], nulls[i], values[i], chunks[i])
}

/// Decoding arguments gives back, in order, the values that were bound.
pub proof fn law_arguments_round_trip(
    arguments: MySqlArguments,
    values: Seq<SqlValue>,
    chunks: Seq<Seq<u8>>,
)
    requires
        are_encodings(arguments.types@, arguments.null_bitmap@, values, chunks),
        arguments.values@ == chunks.flatten(),
    ensures
        decoded(arguments) == Ok::<Seq<SqlValue>, Error>(values),
{
    lemma_parameters_back(arguments.types@, arguments.null_bitmap@, values, chunks, 0);
    assert(chunks.skip(0) =~= chunks);
    assert(values.skip(0) =~= values);
}

/// Decoding arguments gives back, in order, the values that were bound, where the NULL flags of the
/// parameters were packed into the bitmap.
pub proof fn law_bound_arguments_round_trip(
    arguments: MySqlArguments,
    nulls: Seq<bool>,
    values: Seq<SqlValue>,
    chunks: Seq<Seq<u8>>,
)
    requires
        are_bound(arguments, nulls, values, chunks),
    ensures
        decoded(arguments) == Ok::<Seq<SqlValue>, Error>(values),
{
    assert forall|i: int| #![trigger chunks[i]] 0 <= i < chunks.len() implies is_bound_as(
        arguments.types@[i],
        bit_set(arguments.null_bitmap@, i as nat),
        values[i],
        chunks[i],
    ) by {
        law_flags_round_trip(arguments.null_bitmap@, nulls, i as nat);
    }
    law_arguments_round_trip(arguments, values, chunks);
}

} // verus!
