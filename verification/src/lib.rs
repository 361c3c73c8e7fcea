//! Client-side parameter interpolation for the MySQL text protocol (`COM_QUERY`).
//!
//! A parameterized statement is usually prepared on the server and executed with its arguments
//! beside it. Where that is not wanted, behind a connection proxy for one, the arguments can be
//! written into the statement instead. [`interpolate`](crate::interpolate::interpolate) does that
//! in two phases:
//!
//! 1. [`decode_arguments`](crate::decode::decode_arguments) walks the values of the bound
//!    arguments, which are encoded as `COM_STMT_EXECUTE` would carry them, and turns each back into
//!    a [`Value`](crate::value::Value).
//! 2. [`splice`](crate::splice::splice) finds the `?` characters of the statement that stand
//!    outside string literals, quoted identifiers and comments
//!    ([`find_placeholders`](crate::lexer::find_placeholders)), has `mysql_common` render the SQL
//!    literal of each value, and puts it in the place of its placeholder
//!    ([`fill`](crate::splice::fill)).
//!
//! # What is proved
//!
//! - Each byte of an encoded argument counts with its own weight, at its own place, and bytes that
//!   cannot be read are refused with the error that fits ([`wire`]). The arguments are read one after
//!   the other, NULL parameters by their bits ([`arguments`], [`walk`]), so decoding gives back the
//!   values that were encoded ([`encode`]).
//! - The lexer finds exactly the placeholders that the rules for literals and comments leave: it is
//!   said of every byte, in every state, what it does to the reading of what follows
//!   ([`lexer_bytes`], [`lexer_laws`]).
//! - The statement comes out with the literal of each value at its own placeholder and every other
//!   byte kept ([`filling`]). It is accepted exactly if there are as many placeholders as values
//!   ([`splice`](crate::splice)).
//! - What is written for a value is exactly one SQL literal, but for infinite and undefined
//!   floating-point numbers, which SQL cannot write. Strings, bytes and integers read back as
//!   what they stand for ([`literal`], [`decimal`]).
//! - What is written is a single token, for those numbers too, and the statement around it reads as
//!   it did before: the outcome holds no placeholder, and no value can leave the literal that
//!   stands for it ([`literal`], [`neutral`]).
//!
//! # Limits
//!
//! - The character set of the connection has to be a superset of ASCII, such as `utf8mb4`.
//! - The `ANSI_QUOTES` mode is not tracked: `"…"` is read as a string.
pub mod arguments;
pub mod decimal;
pub mod decode;
pub mod encode;
pub mod error;
pub mod filling;
pub mod interpolate;
pub mod lexer;
pub mod lexer_bytes;
pub mod lexer_laws;
pub mod literal;
pub mod little_endian;
pub mod neutral;
pub mod reader;
pub mod splice;
pub mod utf8_concat;
pub mod value;
pub mod walk;
pub mod wire;
