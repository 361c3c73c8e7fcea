//! Every literal is a single SQL literal, and a single token of the statement that it is put into.
use crate::decimal::{
    decimal, is_digit, lemma_decimal_digits, lemma_padded_digits, signed_decimal,
};
use crate::error::Error;
use crate::lexer::{placeholders, statement_placeholders, State, BACKSLASH, DASH, SINGLE_QUOTE};
use crate::lexer_laws::is_literal_body;
use crate::neutral::{
    is_plain, is_string_bytes, is_token, is_word_bytes,
};
use crate::splice::{filled, literals, spliced};
use crate::utf8_concat::lemma_encode_concat;
use crate::value::{
    clock_tail, date_text, escape, escape_char, hex_digit, hex_literal, is_literal_of, is_number,
    is_unsigned_number, quoted, sql_literal, time_text, SqlValue,
};
use vstd::prelude::*;
use vstd::utf8::{
    decode_utf8, encode_scalar, encode_utf8, is_ascii_chars,
    is_ascii_chars_encode_utf8, valid_utf8,
};

verus! {

/// A byte that stands for itself inside a single-quoted string.
spec fn is_quiet(b: u8, no_backslash_escape: bool) -> bool {
    b != SINGLE_QUOTE && (no_backslash_escape || b != BACKSLASH)
}

proof fn lemma_quiet_run(run: Seq<u8>, rest: Seq<u8>, no_backslash_escape: bool)
    requires
        forall|i: int| 0 <= i < run.len() ==> is_quiet(#[trigger] run[i], no_backslash_escape),
        is_literal_body(rest, SINGLE_QUOTE, no_backslash_escape),
    ensures
        is_literal_body(run + rest, SINGLE_QUOTE, no_backslash_escape),
    decreases run.len(),
{
    if run.len() == 0 {
        assert(run + rest =~= rest);
    } else {
        assert(is_quiet(run[0], no_backslash_escape));
        lemma_quiet_run(run.drop_first(), rest, no_backslash_escape);
        assert((run + rest).skip(1) =~= run.drop_first() + rest);
    }
}

/// The bytes of a character outside ASCII are all outside ASCII.
proof fn lemma_wide_char(c: char)
    requires
        c > '\u{7f}',
    ensures
        forall|i: int|
            0 <= i < encode_scalar(c as u32).len() ==> #[trigger] encode_scalar(c as u32)[i] >= 0x80,
{
    let v = c as u32;
    assert(0xC0 | ((v >> 6) & 0x1F) as u8 >= 0x80) by (bit_vector);
    assert(0xE0 | ((v >> 12) & 0x0F) as u8 >= 0x80) by (bit_vector);
    assert(0xF0 | ((v >> 18) & 0x7) as u8 >= 0x80) by (bit_vector);
    assert(0x80 | (v & 0x3F) as u8 >= 0x80) by (bit_vector);
    assert(0x80 | ((v >> 6) & 0x3F) as u8 >= 0x80) by (bit_vector);
    assert(0x80 | ((v >> 12) & 0x3F) as u8 >= 0x80) by (bit_vector);
}

/// The encoding of a single character.
proof fn lemma_encode_one(c: char)
    ensures
        encode_utf8(seq![c]) == encode_scalar(c as u32),
{
    assert(seq![c].drop_first() =~= Seq::<char>::empty());
    assert(encode_utf8(Seq::<char>::empty()) =~= Seq::<u8>::empty());
    assert(encode_scalar(c as u32) + Seq::<u8>::empty() =~= encode_scalar(c as u32));
}

/// A pair of ASCII characters is encoded as a pair of bytes.
proof fn lemma_encode_pair(a: char, b: char)
    requires
        a as u32 <= 0x7f,
        b as u32 <= 0x7f,
    ensures
        encode_utf8(seq![a, b]) == seq![a as u8, b as u8],
{
    assert(is_ascii_chars(seq![a, b]));
    is_ascii_chars_encode_utf8(seq![a, b]);
    assert(seq![a, b][0] == a && seq![a, b][1] == b);
    assert(encode_utf8(seq![a, b]) =~= seq![a as u8, b as u8]);
}

/// A character that is not escaped stands for itself.
proof fn lemma_unescaped_char(c: char, no_backslash_escape: bool)
    requires
        escape_char(c, no_backslash_escape).len() == 1,
    ensures
        forall|i: int|
            0 <= i < encode_utf8(seq![c]).len() ==> is_quiet(
                #[trigger] encode_utf8(seq![c])[i],
                no_backslash_escape,
            ),
{
    if c > '\u{7f}' {
        lemma_encode_one(c);
        lemma_wide_char(c);
    } else {
        assert(is_ascii_chars(seq![c]));
        is_ascii_chars_encode_utf8(seq![c]);
        assert(seq![c][0] == c);
    }
}

proof fn lemma_escape_is_body(text: Seq<char>, no_backslash_escape: bool)
    ensures
        is_literal_body(
            encode_utf8(escape(text, no_backslash_escape)),
            SINGLE_QUOTE,
            no_backslash_escape,
        ),
    decreases text.len(),
{
    if text.len() > 0 {
        let c = text[0];
        let unit = escape_char(c, no_backslash_escape);
        let later = escape(text.drop_first(), no_backslash_escape);
        lemma_escape_is_body(text.drop_first(), no_backslash_escape);
        lemma_encode_concat(unit, later);
        let head = encode_utf8(unit);
        let tail = encode_utf8(later);
        if unit.len() == 2 {
            lemma_encode_pair(unit[0], unit[1]);
            assert(unit =~= seq![unit[0], unit[1]]);
            assert((head + tail).skip(2) =~= tail);
        } else {
            assert(unit =~= seq![c]);
            lemma_unescaped_char(c, no_backslash_escape);
            lemma_quiet_run(head, tail, no_backslash_escape);
        }
    }
}

/// A text whose encoding is a string body makes a string when it is quoted.
proof fn lemma_quoted_is_string(text: Seq<char>, no_backslash_escape: bool)
    requires
        is_literal_body(encode_utf8(text), SINGLE_QUOTE, no_backslash_escape),
    ensures
        is_string_bytes(encode_utf8(quoted(text)), no_backslash_escape),
{
    let quote = seq!['\''];
    assert(is_ascii_chars(quote));
    is_ascii_chars_encode_utf8(quote);
    assert(quote[0] == '\'');
    lemma_encode_concat(quote, text);
    lemma_encode_concat(quote + text, quote);
    let piece = encode_utf8(quoted(text));
    assert(piece.subrange(1, piece.len() - 1) =~= encode_utf8(text));
}

/// The character that a backslash and `c` stand for inside a string.
pub open spec fn escape_meaning(c: char) -> char {
    if c == '0' {
        '\0'
    } else if c == 'n' {
        '\n'
    } else if c == 'r' {
        '\r'
    } else if c == 'Z' {
        '\u{1a}'
    } else {
        c
    }
}

/// What a server reads between the quotes of a single-quoted string: a backslash escapes the
/// character behind it where backslashes escape, and a doubled quote is a quote.
pub open spec fn string_meaning(body: Seq<char>, no_backslash_escape: bool) -> Seq<char>
    decreases body.len(),
{
    if body.len() == 0 {
        seq![]
    } else if body.len() > 1 && body[0] == '\\' && !no_backslash_escape {
        seq![escape_meaning(body[1])] + string_meaning(body.skip(2), no_backslash_escape)
    } else if body.len() > 1 && body[0] == '\'' && body[1] == '\'' {
        seq!['\''] + string_meaning(body.skip(2), no_backslash_escape)
    } else {
        seq![body[0]] + string_meaning(body.skip(1), no_backslash_escape)
    }
}

/// A text that is written as a string literal is read back as it was.
pub proof fn law_escaped_text_is_read_back(text: Seq<char>, no_backslash_escape: bool)
    ensures
        string_meaning(escape(text, no_backslash_escape), no_backslash_escape) == text,
    decreases text.len(),
{
    if text.len() == 0 {
        assert(text =~= Seq::<char>::empty());
    } else {
        let c = text[0];
        let unit = escape_char(c, no_backslash_escape);
        let later = escape(text.drop_first(), no_backslash_escape);
        let body = unit + later;
        law_escaped_text_is_read_back(text.drop_first(), no_backslash_escape);
        assert(text =~= seq![c] + text.drop_first());
        if unit.len() == 2 {
            assert(body.skip(2) =~= later);
            assert(body[0] == unit[0] && body[1] == unit[1]);
        } else {
            assert(body.skip(1) =~= later);
            assert(body[0] == c);
        }
    }
}

/// The number that a hexadecimal digit stands for.
pub open spec fn hex_value(c: char) -> int {
    if '0' <= c <= '9' {
        c as int - '0' as int
    } else {
        c as int - 'A' as int + 10
    }
}

/// Bytes that are written in hexadecimal are read back as they were, two digits for each.
pub proof fn law_hex_is_read_back(bytes: Seq<u8>, k: int)
    requires
        0 <= k < bytes.len(),
    ensures
        hex_literal(bytes).len() == 2 + 2 * bytes.len(),
        16 * hex_value(hex_literal(bytes)[2 + 2 * k]) + hex_value(hex_literal(bytes)[3 + 2 * k])
            == bytes[k],
{
    let b = bytes[k] as int;
    assert((2 * k) / 2 == k && (2 * k) % 2 == 0);
    assert((2 * k + 1) / 2 == k && (2 * k + 1) % 2 == 1);
    assert(0 <= b / 16 < 16 && 0 <= b % 16 < 16);
    assert(hex_literal(bytes)[2 + 2 * k] == hex_digit(b / 16));
    assert(hex_literal(bytes)[3 + 2 * k] == hex_digit(b % 16));
}

/// What the text of a date or a time is made of.
spec fn is_clock_char(c: char) -> bool {
    is_digit(c) || c == '-' || c == ':' || c == ' ' || c == '.'
}

spec fn is_clock_text(text: Seq<char>) -> bool {
    forall|i: int| 0 <= i < text.len() ==> is_clock_char(#[trigger] text[i])
}

proof fn lemma_clock_text_is_body(text: Seq<char>, no_backslash_escape: bool)
    requires
        is_clock_text(text),
    ensures
        is_literal_body(encode_utf8(text), SINGLE_QUOTE, no_backslash_escape),
{
    assert(is_ascii_chars(text)) by {
        assert forall|i: int| 0 <= i < text.len() implies '\0' <= #[trigger] text[i] <= '\u{7f}' by {
            assert(is_clock_char(text[i]));
        }
    }
    is_ascii_chars_encode_utf8(text);
    let bytes = encode_utf8(text);
    assert forall|i: int| 0 <= i < bytes.len() implies is_quiet(
        #[trigger] bytes[i],
        no_backslash_escape,
    ) by {
        assert(is_clock_char(text[i]));
    }
    lemma_quiet_run(bytes, seq![], no_backslash_escape);
    assert(bytes + Seq::<u8>::empty() =~= bytes);
}

proof fn lemma_clock_tail(minute: u8, second: u8, micros: u32)
    ensures
        is_clock_text(clock_tail(minute, second, micros)),
{
    lemma_padded_digits(minute as nat, 2);
    lemma_padded_digits(second as nat, 2);
    lemma_padded_digits(micros as nat, 6);
}

proof fn lemma_date_text(y: u16, mo: u8, d: u8, h: u8, mi: u8, s: u8, us: u32)
    ensures
        is_clock_text(date_text(y, mo, d, h, mi, s, us)),
{
    lemma_padded_digits(y as nat, 4);
    lemma_padded_digits(mo as nat, 2);
    lemma_padded_digits(d as nat, 2);
    lemma_padded_digits(h as nat, 2);
    lemma_clock_tail(mi, s, us);
}

proof fn lemma_time_text(neg: bool, d: u32, h: u8, mi: u8, s: u8, us: u32)
    ensures
        is_clock_text(time_text(neg, d, h, mi, s, us)),
{
    lemma_padded_digits((d * 24 + h) as nat, 3);
    lemma_clock_tail(mi, s, us);
}

/// A letter, a digit or a full stop.
spec fn is_word_char(c: char) -> bool {
    is_digit(c) || 'a' <= c <= 'z' || 'A' <= c <= 'Z' || c == '.'
}

/// One or more letters, digits and full stops, with or without a `-` in front.
spec fn is_word(text: Seq<char>) -> bool {
    &&& text.len() > 0
    &&& text[0] == '-' ==> text.len() > 1
    &&& forall|i: int|
        0 <= i < text.len() ==> is_word_char(#[trigger] text[i]) || (i == 0 && text[i] == '-')
}

proof fn lemma_word_is_word_bytes(text: Seq<char>)
    requires
        is_word(text),
    ensures
        is_word_bytes(encode_utf8(text)),
{
    assert(is_ascii_chars(text)) by {
        assert forall|i: int| 0 <= i < text.len() implies '\0' <= #[trigger] text[i] <= '\u{7f}' by {
            assert(is_word_char(text[i]) || text[i] == '-');
        }
    }
    is_ascii_chars_encode_utf8(text);
    let bytes = encode_utf8(text);
    assert forall|i: int| 0 <= i < bytes.len() implies is_plain(#[trigger] bytes[i]) || (i == 0
        && bytes[i] == DASH) by {
        assert(is_word_char(text[i]) || (i == 0 && text[i] == '-'));
        assert(bytes[i] == text[i] as u8);
    }
    assert(bytes[0] == text[0] as u8);
}

proof fn lemma_number_is_word(text: Seq<char>, negative: bool)
    requires
        is_number(text, negative),
    ensures
        is_word(text),
{
    if negative {
        let digits = text.drop_first();
        assert forall|i: int| 0 <= i < text.len() implies is_word_char(#[trigger] text[i]) || (i == 0
            && text[i] == '-') by {
            if i > 0 {
                assert(text[i] == digits[i - 1]);
            }
        }
    }
}

proof fn lemma_decimal_is_number(n: int)
    ensures
        is_number(signed_decimal(n), n < 0),
{
    let digits = decimal((if n < 0 { -n } else { n }) as nat);
    lemma_decimal_digits((if n < 0 { -n } else { n }) as nat);
    assert(is_digit(digits[0]) && is_digit(digits[digits.len() - 1]));
    assert(is_unsigned_number(digits));
    if n < 0 {
        assert(signed_decimal(n).drop_first() =~= digits);
    }
}

/// An upper-case hexadecimal digit.
pub open spec fn is_hex_digit(c: char) -> bool {
    is_digit(c) || 'A' <= c <= 'F'
}

/// `0x` and at least one hexadecimal digit.
pub open spec fn is_hex_number(text: Seq<char>) -> bool {
    &&& text.len() > 2
    &&& text[0] == '0'
    &&& text[1] == 'x'
    &&& forall|i: int| 2 <= i < text.len() ==> is_hex_digit(#[trigger] text[i])
}

proof fn lemma_hex_literal_is_hex_number(bytes: Seq<u8>)
    requires
        bytes.len() > 0,
    ensures
        is_hex_number(hex_literal(bytes)),
{
    let text = hex_literal(bytes);
    assert forall|i: int| 2 <= i < text.len() implies is_hex_digit(#[trigger] text[i]) by {
        let b = bytes[(i - 2) / 2] as int;
        assert(0 <= b / 16 < 16 && 0 <= b % 16 < 16);
        assert(text[i] == hex_digit(b / 16) || text[i] == hex_digit(b % 16));
    }
}

/// Exactly one SQL literal: `NULL`, a decimal number, a single-quoted string that only its last
/// byte closes, or a hexadecimal number.
pub open spec fn is_sql_literal(text: Seq<char>, no_backslash_escape: bool) -> bool {
    ||| text == seq!['N', 'U', 'L', 'L']
    ||| is_number(text, false)
    ||| is_number(text, true)
    ||| is_string_bytes(encode_utf8(text), no_backslash_escape)
    ||| is_hex_number(text)
}

/// What is written for a value is exactly one SQL literal, unless the value is an infinite or
/// undefined floating-point number, for which SQL has none.
pub proof fn law_literal_is_sql_literal(
    value: SqlValue,
    no_backslash_escape: bool,
    text: Seq<char>,
)
    requires
        is_literal_of(value, no_backslash_escape, text),
        value.is_finite(),
    ensures
        is_sql_literal(text, no_backslash_escape),
{
    match value {
        SqlValue::Bytes(bytes) => {
            if valid_utf8(bytes) {
                let content = escape(decode_utf8(bytes), no_backslash_escape);
                lemma_escape_is_body(decode_utf8(bytes), no_backslash_escape);
                lemma_quoted_is_string(content, no_backslash_escape);
            } else {
                lemma_hex_literal_is_hex_number(bytes);
            }
        },
        SqlValue::Int(x) => {
            lemma_decimal_is_number(x as int);
        },
        SqlValue::UInt(x) => {
            lemma_decimal_is_number(x as int);
        },
        SqlValue::Date(y, mo, d, h, mi, s, us) => {
            let content = date_text(y, mo, d, h, mi, s, us);
            lemma_date_text(y, mo, d, h, mi, s, us);
            lemma_clock_text_is_body(content, no_backslash_escape);
            lemma_quoted_is_string(content, no_backslash_escape);
        },
        SqlValue::Time(neg, d, h, mi, s, us) => {
            let content = time_text(neg, d, h, mi, s, us);
            lemma_time_text(neg, d, h, mi, s, us);
            lemma_clock_text_is_body(content, no_backslash_escape);
            lemma_quoted_is_string(content, no_backslash_escape);
        },
        _ => {},
    }
}

/// The literal of a value is a single token, whatever the value holds: no value can end the
/// literal that stands for it and go on as statement text.
pub proof fn law_literal_is_token(value: SqlValue, no_backslash_escape: bool, text: Seq<char>)
    requires
        is_literal_of(value, no_backslash_escape, text),
    ensures
        is_token(encode_utf8(text), no_backslash_escape),
{
    if value.is_finite() {
        law_literal_is_sql_literal(value, no_backslash_escape, text);
    }
    if !is_string_bytes(encode_utf8(text), no_backslash_escape) {
        if is_number(text, false) {
            lemma_number_is_word(text, false);
        } else if is_number(text, true) {
            lemma_number_is_word(text, true);
        }
        assert(is_word(text));
        lemma_word_is_word_bytes(text);
    }
}

/// A statement that is a lone placeholder comes out as the text that stands for its value. That
/// text, which is a literal of the value wherever it was rendered, is exactly one SQL literal unless
/// the value is an infinite or undefined floating-point number.
pub proof fn law_lone_placeholder_becomes_literal(value: SqlValue, no_backslash_escape: bool)
    ensures
        spliced(seq!['?'], seq![value], no_backslash_escape) == Ok::<Seq<u8>, Error>(
            encode_utf8(sql_literal(value, no_backslash_escape)),
        ),
        value.is_finite() && is_literal_of(
            value,
            no_backslash_escape,
            sql_literal(value, no_backslash_escape),
        ) ==> is_sql_literal(sql_literal(value, no_backslash_escape), no_backslash_escape),
{
    if value.is_finite() && is_literal_of(
        value,
        no_backslash_escape,
        sql_literal(value, no_backslash_escape),
    ) {
        law_literal_is_sql_literal(
            value,
            no_backslash_escape,
            sql_literal(value, no_backslash_escape),
        );
    }
    let sql = seq!['?'];
    let text = encode_utf8(sql);
    let piece = encode_utf8(sql_literal(value, no_backslash_escape));
    assert(is_ascii_chars(sql));
    is_ascii_chars_encode_utf8(sql);
    assert(sql[0] == '?');
    assert(text.skip(1) =~= Seq::<u8>::empty());
    let holes = statement_placeholders(text, no_backslash_escape);
    assert(placeholders(text.skip(1), State::Normal, no_backslash_escape, 1) =~= Seq::<
        int,
    >::empty());
    assert(holes =~= seq![0int]);
    assert(holes.drop_first() =~= Seq::<int>::empty());
    let pieces = literals(seq![value], no_backslash_escape);
    assert(filled(text, holes.drop_first(), pieces.drop_first(), 1) =~= Seq::<u8>::empty());
    assert(filled(text, holes, pieces, 0) =~= piece);
}

} // verus!
