use text_query::error::Error;
use text_query::lexer::find_placeholders;
use text_query::splice::{fill, splice};
use text_query::value::Value;

fn render(value: Value, no_backslash_escape: bool) -> String {
    splice("?", &[value], no_backslash_escape).unwrap()
}

#[test]
fn literals_of_numbers() {
    assert_eq!(render(Value::NULL, false), "NULL");
    assert_eq!(render(Value::Int(i64::MIN), false), "-9223372036854775808");
    assert_eq!(render(Value::Int(0), false), "0");
    assert_eq!(render(Value::UInt(u64::MAX), true), "18446744073709551615");
}

#[test]
fn literals_of_floating_point_numbers() {
    assert_eq!(render(Value::Float(1.5f32.to_bits()), false), "1.5");
    assert_eq!(render(Value::Float((-0.1f32).to_bits()), false), "-0.1");
    assert_eq!(render(Value::Double(2.25f64.to_bits()), false), "2.25");
    assert_eq!(render(Value::Double((-1e20f64).to_bits()), false), "-100000000000000000000");
    assert_eq!(render(Value::Float(0.0f32.to_bits()), false), "0");
    assert_eq!(render(Value::Float((-0.0f32).to_bits()), false), "-0");
    assert_eq!(render(Value::Double(0.0f64.to_bits()), true), "0");
    assert_eq!(render(Value::Double((-0.0f64).to_bits()), true), "-0");
}

#[test]
fn infinite_and_undefined_numbers() {
    assert_eq!(render(Value::Float(f32::INFINITY.to_bits()), false), "inf");
    assert_eq!(render(Value::Float(f32::NEG_INFINITY.to_bits()), false), "-inf");
    assert_eq!(render(Value::Float(f32::NAN.to_bits()), false), "NaN");
    assert_eq!(render(Value::Float(0xff80_0001), false), "NaN");
    assert_eq!(render(Value::Double(f64::INFINITY.to_bits()), true), "inf");
    assert_eq!(render(Value::Double(f64::NEG_INFINITY.to_bits()), false), "-inf");
    assert_eq!(render(Value::Double(f64::NAN.to_bits()), true), "NaN");
    assert_eq!(render(Value::Double(0xfff0_0000_0000_0001), false), "NaN");
}

/// A `-` where the number is negative, digits, and perhaps a full stop and more digits.
fn is_decimal(text: &str, negative: bool) -> bool {
    let digits = match (text.strip_prefix('-'), negative) {
        (Some(rest), true) => rest,
        (None, false) => text,
        _ => return false,
    };
    let mut parts = 0;
    for part in digits.split('.') {
        if part.is_empty() || !part.bytes().all(|b| b.is_ascii_digit()) {
            return false;
        }
        parts += 1;
    }
    parts <= 2
}

#[test]
fn finite_numbers_are_decimals() {
    let singles = [f32::MIN, f32::MAX, f32::MIN_POSITIVE, f32::EPSILON, 1e-45, -1e-45, 16777216.0];
    for x in singles {
        let text = render(Value::Float(x.to_bits()), false);
        assert!(is_decimal(&text, x < 0.0), "{}", text);
        assert_eq!(text.parse::<f32>().unwrap(), x);
    }
    let doubles = [f64::MIN, f64::MAX, f64::MIN_POSITIVE, f64::EPSILON, 5e-324, -5e-324, 1e16];
    for x in doubles {
        let text = render(Value::Double(x.to_bits()), false);
        assert!(is_decimal(&text, x < 0.0), "{}", text);
        assert_eq!(text.parse::<f64>().unwrap(), x);
    }
}

#[test]
fn exponent_field_at_its_largest_finite_value() {
    assert!(is_decimal(&render(Value::Float(0x7f7f_ffff), false), false));
    assert!(is_decimal(&render(Value::Float(0xff7f_ffff), false), true));
    assert!(is_decimal(&render(Value::Double(0x7fef_ffff_ffff_ffff), false), false));
    assert!(is_decimal(&render(Value::Double(0xffef_ffff_ffff_ffff), false), true));
}

#[test]
fn a_lone_placeholder_becomes_one_literal() {
    assert_eq!(render(Value::NULL, true), "NULL");
    assert_eq!(render(Value::Int(-7), false), "-7");
    assert_eq!(render(Value::Bytes(b"a'b\\?".to_vec()), false), r"'a\'b\\?'");
    assert_eq!(render(Value::Bytes(b"a'b\\?".to_vec()), true), r"'a''b\?'");
    assert_eq!(render(Value::Bytes(Vec::new()), false), "''");
    assert_eq!(render(Value::Bytes(vec![0xff]), false), "0xFF");
}

#[test]
fn literals_of_dates() {
    assert_eq!(render(Value::Date(7, 1, 2, 0, 0, 0, 0), false), "'0007-01-02'");
    assert_eq!(
        render(Value::Date(2024, 11, 12, 0, 0, 9, 0), false),
        "'2024-11-12 00:00:09'"
    );
    assert_eq!(
        render(Value::Date(12345, 11, 12, 1, 2, 3, 45), false),
        "'12345-11-12 01:02:03.000045'"
    );
    assert_eq!(
        render(Value::Date(2024, 11, 12, 0, 0, 0, 1), false),
        "'2024-11-12 00:00:00.000001'"
    );
}

#[test]
fn literals_of_times() {
    assert_eq!(render(Value::Time(false, 0, 0, 0, 0, 0), false), "'000:00:00'");
    assert_eq!(render(Value::Time(true, 1, 2, 3, 4, 0), false), "'-026:03:04'");
    assert_eq!(render(Value::Time(false, 100, 0, 3, 4, 500), true), "'2400:03:04.000500'");
}

#[test]
fn largest_time_that_can_be_written() {
    assert_eq!(
        render(Value::Time(false, 178956970, 15, 0, 0, 0), false),
        "'4294967295:00:00'"
    );
}

#[test]
fn literals_of_bytes() {
    assert_eq!(render(Value::Bytes(vec![]), false), "''");
    assert_eq!(render(Value::Bytes(vec![0xff, 0x0a]), false), "0xFF0A");
    assert_eq!(
        render(Value::Bytes("é\r\u{1a}\"\t".as_bytes().to_vec()), false),
        "'é\\r\\Z\\\"\t'"
    );
    assert_eq!(render(Value::Bytes("é\r\"'".as_bytes().to_vec()), true), "'é\r\"'''");
}

#[test]
fn the_number_of_placeholders_has_to_match() {
    assert_eq!(
        splice("? ?", &[Value::NULL], false),
        Err(Error::MorePlaceholders { bound: 1 })
    );
    assert_eq!(
        splice("?", &[Value::NULL, Value::NULL, Value::NULL], false),
        Err(Error::FewerPlaceholders { bound: 3, placeholders: 1 })
    );
    assert_eq!(splice("", &[], false), Ok("".to_string()));
}

#[test]
fn a_value_without_a_placeholder_is_not_rendered() {
    // Too many days to be written as hours.
    let unwritable = Value::Time(false, u32::MAX, 0, 0, 0, 0);
    assert_eq!(
        splice("SELECT 1", &[unwritable], false),
        Err(Error::FewerPlaceholders { bound: 1, placeholders: 0 })
    );
}

/// Splicing no values into what came out changes nothing.
fn settled(out: &str, no_backslash_escape: bool) {
    assert_eq!(splice(out, &[], no_backslash_escape), Ok(out.to_string()));
}

#[test]
fn what_comes_out_holds_no_placeholder() {
    let nasty = ["?", "'?", "\\", "\\'?", "*/ ?", "-- ?\n?", "\"?`?"];
    let statements = ["?", "'a'?'b'", "??", "-?- ?", "/?", "--?", "`x`?", "\"x\"?\"\"", "/*!?*/?"];
    for no_backslash_escape in [false, true] {
        for text in nasty {
            for sql in statements {
                let count = if sql == "??" || sql == "-?- ?" || sql == "/*!?*/?" { 2 } else { 1 };
                let values: Vec<Value> = (0..count)
                    .map(|_| Value::Bytes(text.as_bytes().to_vec()))
                    .collect();
                let out = splice(sql, &values, no_backslash_escape).unwrap();
                settled(&out, no_backslash_escape);
            }
        }
    }
}

#[test]
fn a_literal_between_strings_keeps_the_reading_of_what_follows() {
    let text = Value::Bytes(b"x".to_vec());
    let out = splice("'a'?'b ?' ?", &[text, Value::Int(1)], false).unwrap();
    assert_eq!(out, "'a''x''b ?' 1");
    settled(&out, false);
}

#[test]
fn a_negative_number_behind_a_minus_opens_no_comment() {
    let out = splice("SELECT 1 -? , ?", &[Value::Int(-5), Value::Int(6)], false).unwrap();
    assert_eq!(out, "SELECT 1 --5 , 6");
    settled(&out, false);
}

#[test]
fn a_carriage_return_does_not_end_a_line_comment() {
    assert_eq!(
        splice("# a\r? \n?", &[Value::Int(1)], false),
        Ok("# a\r? \n1".to_string())
    );
}

#[test]
fn block_comments_do_not_nest() {
    assert_eq!(
        splice("/* /* ? */ ? */", &[Value::Int(1)], false),
        Ok("/* /* ? */ 1 */".to_string())
    );
}

#[test]
fn a_star_right_behind_the_opening_counts_towards_the_closing() {
    assert_eq!(splice("/**/?", &[Value::Int(1)], false), Ok("/**/1".to_string()));
    assert_eq!(splice("/*/?", &[], false), Ok("/*/?".to_string()));
}

#[test]
fn backslashes_escape_only_without_the_flag() {
    assert_eq!(splice("'\\'?'", &[], false), Ok("'\\'?'".to_string()));
    assert_eq!(
        splice("'\\'?", &[Value::Int(1)], true),
        Ok("'\\'1".to_string())
    );
    assert_eq!(splice("\"\\\"?\"", &[], false), Ok("\"\\\"?\"".to_string()));
}

#[test]
fn messages_of_errors() {
    let cases = [
        (Error::UnexpectedEnd, "interpolation: unexpected end of argument buffer"),
        (
            Error::NotEnoughBytes { need: 8, have: 10 },
            "interpolation: need 8 bytes, have 10",
        ),
        (
            Error::LengthOverflow { length: u64::MAX },
            "interpolation: lenenc length overflows usize: 18446744073709551615",
        ),
        (
            Error::DateLength { len: 5 },
            "interpolation: unexpected DATE/DATETIME length 5",
        ),
        (Error::TimeLength { len: 255 }, "interpolation: unexpected TIME length 255"),
        (
            Error::TrailingBytes { trailing: 3, parameters: 100 },
            "interpolation: 3 trailing bytes after decoding 100 parameters",
        ),
        (
            Error::MorePlaceholders { bound: 0 },
            "interpolation: SQL has more `?` placeholders than bound arguments (0)",
        ),
        (
            Error::FewerPlaceholders { bound: 2, placeholders: 1 },
            "interpolation: bound 2 arguments but SQL contains 1 `?` placeholders",
        ),
    ];
    for (error, text) in cases {
        assert_eq!(error.message(), text);
    }
}

#[test]
fn placeholders_are_found_by_byte_position() {
    assert_eq!(find_placeholders("?é? '?' ?", false), vec![0, 3, 9]);
    assert_eq!(find_placeholders("-- ?", false), Vec::<usize>::new());
    assert_eq!(find_placeholders("--?", false), vec![2]);
    assert_eq!(find_placeholders("'\\'?", false), Vec::<usize>::new());
    assert_eq!(find_placeholders("'\\'?", true), vec![3]);
    assert_eq!(find_placeholders("\"a\"\"?\"?", false), vec![6]);
}

#[test]
fn any_text_can_be_filled_in() {
    let literals = ["1.25e3".to_string(), "".to_string()];
    assert_eq!(fill("é ?, ?.", &[3, 6], &literals), "é 1.25e3, .");
    assert_eq!(fill("é '?'", &[], &[]), "é '?'");
}
