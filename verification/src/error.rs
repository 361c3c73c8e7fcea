//! Why an interpolation was refused.
use crate::decimal::{append_decimal, decimal};
use vstd::prelude::*;
use vstd::string::*;

verus! {

/// Why a statement could not be interpolated.
#[derive(Debug, Clone, Copy, PartialEq, Eq)]
pub enum Error {
    /// A single byte was wanted and the argument buffer was empty.
    UnexpectedEnd,
    /// `need` bytes were wanted and the argument buffer held only `have`.
    NotEnoughBytes { need: usize, have: usize },
    /// A length prefix that no `usize` can hold.
    LengthOverflow { length: u64 },
    /// A DATE, DATETIME or TIMESTAMP value whose length byte is none of 0, 4, 7, 11.
    DateLength { len: u8 },
    /// A TIME value whose length byte is none of 0, 8, 12.
    TimeLength { len: u8 },
    /// Bytes were left over once every parameter had been decoded.
    TrailingBytes { trailing: usize, parameters: usize },
    /// The statement has more placeholders than there are bound arguments.
    MorePlaceholders { bound: usize },
    /// The statement has fewer placeholders than there are bound arguments.
    FewerPlaceholders { bound: usize, placeholders: usize },
}

/// What an error says.
pub open spec fn error_text(e: Error) -> Seq<char> {
    match e {
        Error::UnexpectedEnd => "interpolation: unexpected end of argument buffer"@,
        Error::NotEnoughBytes { need, have } => "interpolation: need "@ + decimal(need as nat)
            + " bytes, have "@ + decimal(have as nat),
        Error::LengthOverflow { length } => "interpolation: lenenc length overflows usize: "@
            + decimal(length as nat),
        Error::DateLength { len } => "interpolation: unexpected DATE/DATETIME length "@ + decimal(
            len as nat,
        ),
        Error::TimeLength { len } => "interpolation: unexpected TIME length "@ + decimal(
            len as nat,
        ),
        Error::TrailingBytes { trailing, parameters } => "interpolation: "@ + decimal(
            trailing as nat,
        ) + " trailing bytes after decoding "@ + decimal(parameters as nat) + " parameters"@,
        Error::MorePlaceholders {
            bound,
        } => "interpolation: SQL has more `?` placeholders than bound arguments ("@ + decimal(
            bound as nat,
        ) + ")"@,
        Error::FewerPlaceholders { bound, placeholders } => "interpolation: bound "@ + decimal(
            bound as nat,
        ) + " arguments but SQL contains "@ + decimal(placeholders as nat) + " `?` placeholders"@,
    }
}

/// Every message names what happened and gives its numbers in their order.
pub proof fn law_messages(a: usize, b: usize, length: u64, len: u8)
    ensures
        error_text(Error::UnexpectedEnd) == "interpolation: unexpected end of argument buffer"@,
        error_text((Error::NotEnoughBytes { need: a, have: b })) == "interpolation: need "@
            + decimal(a as nat) + " bytes, have "@ + decimal(b as nat),
        error_text((Error::LengthOverflow { length }))
            == "interpolation: lenenc length overflows usize: "@ + decimal(length as nat),
        error_text((Error::DateLength { len }))
            == "interpolation: unexpected DATE/DATETIME length "@ + decimal(len as nat),
        error_text((Error::TimeLength { len })) == "interpolation: unexpected TIME length "@
            + decimal(len as nat),
        error_text((Error::TrailingBytes { trailing: a, parameters: b })) == "interpolation: "@
            + decimal(a as nat) + " trailing bytes after decoding "@ + decimal(b as nat)
            + " parameters"@,
        error_text((Error::MorePlaceholders { bound: a }))
            == "interpolation: SQL has more `?` placeholders than bound arguments ("@ + decimal(
            a as nat,
        ) + ")"@,
        error_text((Error::FewerPlaceholders { bound: a, placeholders: b }))
            == "interpolation: bound "@ + decimal(a as nat) + " arguments but SQL contains "@
            + decimal(b as nat) + " `?` placeholders"@,
{
}

impl Error {
    /// What the error says.
    pub fn message(&self) -> (text: String)
        ensures
            text@ == error_text(*self),
    {
        let mut text: String = String::new();
        match *self {
            Error::UnexpectedEnd => {
                text.append("interpolation: unexpected end of argument buffer");
            },
            Error::NotEnoughBytes { need, have } => {
                text.append("interpolation: need ");
                append_decimal(&mut text, need as u64);
                text.append(" bytes, have ");
                append_decimal(&mut text, have as u64);
            },
            Error::LengthOverflow { length } => {
                text.append("interpolation: lenenc length overflows usize: ");
                append_decimal(&mut text, length);
            },
            Error::DateLength { len } => {
                text.append("interpolation: unexpected DATE/DATETIME length ");
                append_decimal(&mut text, len as u64);
            },
            Error::TimeLength { len } => {
                text.append("interpolation: unexpected TIME length ");
                append_decimal(&mut text, len as u64);
            },
            Error::TrailingBytes { trailing, parameters } => {
                text.append("interpolation: ");
                append_decimal(&mut text, trailing as u64);
                text.append(" trailing bytes after decoding ");
                append_decimal(&mut text, parameters as u64);
                text.append(" parameters");
            },
            Error::MorePlaceholders { bound } => {
                text.append("interpolation: SQL has more `?` placeholders than bound arguments (");
                append_decimal(&mut text, bound as u64);
                text.append(")");
            },
            Error::FewerPlaceholders { bound, placeholders } => {
                text.append("interpolation: bound ");
                append_decimal(&mut text, bound as u64);
                text.append(" arguments but SQL contains ");
                append_decimal(&mut text, placeholders as u64);
                text.append(" `?` placeholders");
            },
        }
        assert(text@ =~= error_text(*self));
        text
    }
}

} // verus!
