//! Parameter values and the SQL literals that stand for them.
use crate::decimal::{decimal, is_digit, padded, signed_decimal};
use mysql_common::io::ParseBuf;
use mysql_common::value::Value as Rendered;
use vstd::prelude::*;
use vstd::utf8::{decode_utf8, valid_utf8};

verus! {

/// A decoded parameter value.
#[derive(Debug, PartialEq, Eq)]
pub enum Value {
    NULL,
    Bytes(Vec<u8>),
    Int(i64),
    UInt(u64),
    /// The IEEE-754 bit pattern of a single precision number.
    Float(u32),
    /// The IEEE-754 bit pattern of a double precision number.
    Double(u64),
    /// year, month, day, hour, minute, second, microseconds
    Date(u16, u8, u8, u8, u8, u8, u32),
    /// is negative, days, hours, minutes, seconds, microseconds
    Time(bool, u32, u8, u8, u8, u32),
}

/// What a [`Value`] holds, as a mathematical value.
pub enum SqlValue {
    NULL,
    Bytes(Seq<u8>),
    Int(i64),
    UInt(u64),
    Float(u32),
    Double(u64),
    Date(u16, u8, u8, u8, u8, u8, u32),
    Time(bool, u32, u8, u8, u8, u32),
}

impl View for Value {
    type V = SqlValue;

    open spec fn view(&self) -> SqlValue {
        match *self {
            Value::NULL => SqlValue::NULL,
            Value::Bytes(bytes) => SqlValue::Bytes(bytes@),
            Value::Int(x) => SqlValue::Int(x),
            Value::UInt(x) => SqlValue::UInt(x),
            Value::Float(bits) => SqlValue::Float(bits),
            Value::Double(bits) => SqlValue::Double(bits),
            Value::Date(y, mo, d, h, mi, s, us) => SqlValue::Date(y, mo, d, h, mi, s, us),
            Value::Time(neg, d, h, mi, s, us) => SqlValue::Time(neg, d, h, mi, s, us),
        }
    }
}

impl SqlValue {
    /// Whether the value can be written as a literal: the hours of a time of day, with its days
    /// counted in, fit in 32 bits.
    pub open spec fn renderable(self) -> bool {
        self matches SqlValue::Time(_, days, hours, _, _, _) ==> days * 24 + hours <= u32::MAX
    }

    /// Whether the value is no infinite or undefined floating-point number: the exponent field, of
    /// 8 or 11 bits, is not all ones.
    pub open spec fn is_finite(self) -> bool {
        match self {
            SqlValue::Float(bits) => (bits / 0x80_0000) % 0x100 != 0xff,
            SqlValue::Double(bits) => (bits / 0x10_0000_0000_0000) % 0x800 != 0x7ff,
            _ => true,
        }
    }
}

/// `text` between single quotes.
pub open spec fn quoted(text: Seq<char>) -> Seq<char> {
    seq!['\''] + text + seq!['\'']
}

/// How one character is written inside a single-quoted string.
pub open spec fn escape_char(c: char, no_backslash_escape: bool) -> Seq<char> {
    if no_backslash_escape {
        if c == '\'' {
            seq!['\'', '\'']
        } else {
            seq![c]
        }
    } else if c == '\0' {
        seq!['\\', '0']
    } else if c == '\n' {
        seq!['\\', 'n']
    } else if c == '\r' {
        seq!['\\', 'r']
    } else if c == '\u{1a}' {
        seq!['\\', 'Z']
    } else if c == '\\' || c == '\'' || c == '"' {
        seq!['\\', c]
    } else {
        seq![c]
    }
}

/// How a text is written inside a single-quoted string, one character after the other.
pub open spec fn escape(text: Seq<char>, no_backslash_escape: bool) -> Seq<char>
    decreases text.len(),
{
    if text.len() == 0 {
        seq![]
    } else {
        escape_char(text[0], no_backslash_escape) + escape(text.drop_first(), no_backslash_escape)
    }
}

/// The upper-case hexadecimal digit of a number below 16.
pub open spec fn hex_digit(d: int) -> char {
    (if d < 10 {
        0x30 + d
    } else {
        0x37 + d
    }) as u8 as char
}

/// `0x` and two upper-case hexadecimal digits for each byte.
pub open spec fn hex_literal(bytes: Seq<u8>) -> Seq<char> {
    seq!['0', 'x'] + Seq::new(
        2 * bytes.len(),
        |i: int|
            if i % 2 == 0 {
                hex_digit(bytes[i / 2] as int / 16)
            } else {
                hex_digit(bytes[i / 2] as int % 16)
            },
    )
}

/// The minutes and seconds of a clock, and its microseconds where there are any.
pub open spec fn clock_tail(minute: u8, second: u8, micros: u32) -> Seq<char> {
    seq![':'] + padded(minute as nat, 2) + seq![':'] + padded(second as nat, 2) + (if micros == 0 {
        seq![]
    } else {
        seq!['.'] + padded(micros as nat, 6)
    })
}

/// A point in time: the date alone where the time of day is midnight.
pub open spec fn date_text(y: u16, mo: u8, d: u8, h: u8, mi: u8, s: u8, us: u32) -> Seq<char> {
    padded(y as nat, 4) + seq!['-'] + padded(mo as nat, 2) + seq!['-'] + padded(d as nat, 2) + (if h
        == 0 && mi == 0 && s == 0 && us == 0 {
        seq![]
    } else {
        seq![' '] + padded(h as nat, 2) + clock_tail(mi, s, us)
    })
}

/// A length of time, its days counted as hours.
pub open spec fn time_text(neg: bool, d: u32, h: u8, mi: u8, s: u8, us: u32) -> Seq<char> {
    (if neg {
        seq!['-']
    } else {
        seq![]
    }) + padded((d * 24 + h) as nat, 3) + clock_tail(mi, s, us)
}

/// One or more digits, with or without a full stop between two of them.
pub open spec fn is_unsigned_number(text: Seq<char>) -> bool {
    &&& text.len() > 0
    &&& is_digit(text[0])
    &&& is_digit(text.last())
    &&& forall|i: int| 0 <= i < text.len() ==> is_digit(#[trigger] text[i]) || text[i] == '.'
    &&& forall|i: int, j: int|
        #![trigger text[i], text[j]]
        0 <= i < j < text.len() ==> !(text[i] == '.' && text[j] == '.')
}

/// A decimal number: a `-` where it is negative, digits, and perhaps a full stop and more digits.
pub open spec fn is_number(text: Seq<char>, negative: bool) -> bool {
    if negative {
        text.len() > 0 && text[0] == '-' && is_unsigned_number(text.drop_first())
    } else {
        is_unsigned_number(text)
    }
}

/// Whether `text` is how an IEEE-754 number is written. One whose exponent field is not all ones
/// is finite, and is a decimal number; the others are infinite where their fraction field is zero,
/// and not a number elsewhere.
pub open spec fn is_float_text(
    negative: bool,
    finite: bool,
    fraction_is_zero: bool,
    text: Seq<char>,
) -> bool {
    if finite {
        is_number(text, negative)
    } else if !fraction_is_zero {
        text == seq!['N', 'a', 'N']
    } else if negative {
        text == seq!['-', 'i', 'n', 'f']
    } else {
        text == seq!['i', 'n', 'f']
    }
}

/// Whether `text` is how `value` is written as a literal. Of a finite floating-point number it is
/// left open which digits are written.
pub open spec fn is_literal_of(value: SqlValue, no_backslash_escape: bool, text: Seq<char>) -> bool {
    match value {
        SqlValue::NULL => text == seq!['N', 'U', 'L', 'L'],
        SqlValue::Bytes(bytes) => text == if valid_utf8(bytes) {
            quoted(escape(decode_utf8(bytes), no_backslash_escape))
        } else {
            hex_literal(bytes)
        },
        SqlValue::Int(x) => text == signed_decimal(x as int),
        SqlValue::UInt(x) => text == decimal(x as nat),
        SqlValue::Float(bits) => is_float_text(
            bits >= 0x8000_0000,
            value.is_finite(),
            bits % 0x80_0000 == 0,
            text,
        ),
        SqlValue::Double(bits) => is_float_text(
            bits >= 0x8000_0000_0000_0000,
            value.is_finite(),
            bits % 0x10_0000_0000_0000 == 0,
            text,
        ),
        SqlValue::Date(y, mo, d, h, mi, s, us) => text == quoted(date_text(y, mo, d, h, mi, s, us)),
        SqlValue::Time(neg, d, h, mi, s, us) => text == quoted(time_text(neg, d, h, mi, s, us)),
    }
}

/// The text that `mysql_common::value::Value::as_sql` gives for a value.
pub uninterp spec fn sql_literal(value: SqlValue, no_backslash_escape: bool) -> Seq<char>;

impl Value {
    /// Calls `mysql_common::value::Value::as_sql` on the same value. A number given by its bit
    /// pattern reaches that type through the crate's little-endian reader, `ParseBuf::eat_f32_le`
    /// or `ParseBuf::eat_f64_le`.
    ///
    /// Trusted: the text is a function of the value and the flag. `NULL` is that word, an integer
    /// its decimal, a date and a time their digits between single quotes. Bytes that are UTF-8 are
    /// a single-quoted string, escaped character by character, and other bytes a hexadecimal
    /// literal. A finite floating-point number is a decimal number: a `-` where its sign bit is
    /// set, digits, and perhaps a full stop and more digits; which digits is not said. The others
    /// are `inf`, `-inf` and `NaN`. The hours of a time overflow where its days are too many, hence
    /// the precondition.
    #[verifier::external_body]
    pub(crate) fn as_sql(&self, no_backslash_escape: bool) -> (text: String)
        requires
            self@.renderable(),
        ensures
            text@ == sql_literal(self@, no_backslash_escape),
            is_literal_of(self@, no_backslash_escape, text@),
    {
        let value = match *self {
            Value::NULL => Rendered::NULL,
            Value::Bytes(ref bytes) => Rendered::Bytes(bytes.clone()),
            Value::Int(x) => Rendered::Int(x),
            Value::UInt(x) => Rendered::UInt(x),
            Value::Float(x) => Rendered::Float(ParseBuf(&x.to_le_bytes()).eat_f32_le()),
            Value::Double(x) => Rendered::Double(ParseBuf(&x.to_le_bytes()).eat_f64_le()),
            Value::Date(y, mo, d, h, mi, s, us) => Rendered::Date(y, mo, d, h, mi, s, us),
            Value::Time(neg, d, h, mi, s, us) => Rendered::Time(neg, d, h, mi, s, us),
        };
        value.as_sql(no_backslash_escape)
    }
}

} // verus!
