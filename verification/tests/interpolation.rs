use text_query::arguments::{ColumnType, MySqlArguments, MySqlTypeInfo};
use text_query::interpolate::interpolate;

/// A value that can be bound to a statement.
trait Bind {
    fn type_info(&self) -> MySqlTypeInfo;
    /// Writes the value out. Returns whether it is NULL.
    fn encode(&self, values: &mut Vec<u8>) -> bool;
}

fn info(ty: ColumnType, unsigned: bool) -> MySqlTypeInfo {
    MySqlTypeInfo { ty, unsigned }
}

impl Bind for i32 {
    fn type_info(&self) -> MySqlTypeInfo {
        info(ColumnType::Long, false)
    }
    fn encode(&self, values: &mut Vec<u8>) -> bool {
        values.extend_from_slice(&self.to_le_bytes());
        false
    }
}

impl Bind for u32 {
    fn type_info(&self) -> MySqlTypeInfo {
        info(ColumnType::Long, true)
    }
    fn encode(&self, values: &mut Vec<u8>) -> bool {
        values.extend_from_slice(&self.to_le_bytes());
        false
    }
}

impl Bind for i64 {
    fn type_info(&self) -> MySqlTypeInfo {
        info(ColumnType::LongLong, false)
    }
    fn encode(&self, values: &mut Vec<u8>) -> bool {
        values.extend_from_slice(&self.to_le_bytes());
        false
    }
}

impl Bind for &str {
    fn type_info(&self) -> MySqlTypeInfo {
        info(ColumnType::VarString, false)
    }
    fn encode(&self, values: &mut Vec<u8>) -> bool {
        assert!(self.len() < 0xfb);
        values.push(self.len() as u8);
        values.extend_from_slice(self.as_bytes());
        false
    }
}

impl<T: Bind + Default> Bind for Option<T> {
    fn type_info(&self) -> MySqlTypeInfo {
        T::default().type_info()
    }
    fn encode(&self, values: &mut Vec<u8>) -> bool {
        match self {
            Some(value) => value.encode(values),
            None => true,
        }
    }
}

trait Arguments {
    fn add<T: Bind>(&mut self, value: T) -> Result<(), String>;
}

impl Arguments for MySqlArguments {
    fn add<T: Bind>(&mut self, value: T) -> Result<(), String> {
        let number = self.types.len();
        if number % 8 == 0 {
            self.null_bitmap.push(0);
        }
        self.types.push(value.type_info());
        if value.encode(&mut self.values) {
            self.null_bitmap[number / 8] |= 1 << (number % 8);
        }
        Ok(())
    }
}

fn args_with<F: FnOnce(&mut MySqlArguments)>(f: F) -> MySqlArguments {
    let mut a = MySqlArguments::default();
    f(&mut a);
    a
}

#[test]
fn splice_basic_int_string() {
    let args = args_with(|a| {
        a.add(42i32).unwrap();
        a.add("o'reilly").unwrap();
    });
    let out = interpolate("SELECT ?, ?", &args, false).unwrap();
    assert_eq!(out, "SELECT 42, 'o\\'reilly'");
}

#[test]
fn splice_no_backslash_escape() {
    let args = args_with(|a| {
        a.add("o'reilly").unwrap();
    });
    let out = interpolate("SELECT ?", &args, true).unwrap();
    assert_eq!(out, "SELECT 'o''reilly'");
}

#[test]
fn splice_skips_question_mark_in_string_literal() {
    let args = args_with(|a| {
        a.add(1i32).unwrap();
    });
    let out = interpolate("SELECT '?', ?", &args, false).unwrap();
    assert_eq!(out, "SELECT '?', 1");
}

#[test]
fn splice_skips_question_mark_in_line_comment() {
    let args = args_with(|a| {
        a.add(1i32).unwrap();
    });
    let out = interpolate("SELECT 1 -- ?\n, ?", &args, false).unwrap();
    assert_eq!(out, "SELECT 1 -- ?\n, 1");
}

#[test]
fn splice_skips_question_mark_in_block_comment() {
    let args = args_with(|a| {
        a.add(1i32).unwrap();
    });
    let out = interpolate("SELECT /* ? */ ?", &args, false).unwrap();
    assert_eq!(out, "SELECT /* ? */ 1");
}

#[test]
fn splice_preserves_multibyte_utf8() {
    let args = args_with(|a| {
        a.add(7i32).unwrap();
    });
    // The crab emoji is 4 bytes in UTF-8; ensure it round-trips.
    let out = interpolate("SELECT '🦀', ?", &args, false).unwrap();
    assert_eq!(out, "SELECT '🦀', 7");
}

#[test]
fn splice_arity_mismatch_too_few_placeholders() {
    let args = args_with(|a| {
        a.add(1i32).unwrap();
        a.add(2i32).unwrap();
    });
    assert!(interpolate("SELECT ?", &args, false).is_err());
}

#[test]
fn splice_arity_mismatch_too_many_placeholders() {
    let args = args_with(|a| {
        a.add(1i32).unwrap();
    });
    assert!(interpolate("SELECT ?, ?", &args, false).is_err());
}

#[test]
fn splice_null_argument() {
    let args = args_with(|a| {
        a.add(Option::<i32>::None).unwrap();
    });
    let out = interpolate("SELECT ?", &args, false).unwrap();
    assert_eq!(out, "SELECT NULL");
}

#[test]
fn splice_doubled_quote_inside_string() {
    let args = args_with(|a| {
        a.add(1i32).unwrap();
    });
    // The inner `''` is an escaped single quote; the `?` between them is
    // still inside the string literal.
    let out = interpolate("SELECT 'a''?b', ?", &args, false).unwrap();
    assert_eq!(out, "SELECT 'a''?b', 1");
}

#[test]
fn splice_unsigned_int() {
    let args = args_with(|a| {
        a.add(u32::MAX).unwrap();
    });
    let out = interpolate("SELECT ?", &args, false).unwrap();
    assert_eq!(out, "SELECT 4294967295");
}

#[test]
fn splice_negative_int() {
    let args = args_with(|a| {
        a.add(-7i64).unwrap();
    });
    let out = interpolate("SELECT ?", &args, false).unwrap();
    assert_eq!(out, "SELECT -7");
}

// -- Comment edge cases ------------------------------------------------

#[test]
fn splice_dash_dash_no_whitespace_is_not_comment() {
    // `b--?` parses as `b - -?` in MySQL (no whitespace after `--`),
    // so the `?` IS a placeholder.
    let args = args_with(|a| {
        a.add(5i32).unwrap();
    });
    let out = interpolate("SELECT b--?", &args, false).unwrap();
    assert_eq!(out, "SELECT b--5");
}

#[test]
fn splice_dash_dash_eof_is_comment() {
    // `--` at end-of-input is a comment (whitespace requirement is
    // satisfied by EOF). No splice happens; arity must still match.
    let args = args_with(|a| {
        a.add(1i32).unwrap();
    });
    let out = interpolate("SELECT ?--", &args, false).unwrap();
    assert_eq!(out, "SELECT 1--");
}

#[test]
fn splice_dash_dash_tab_is_comment() {
    // Tab counts as whitespace, so this IS a comment.
    let args = args_with(|a| {
        a.add(1i32).unwrap();
    });
    let out = interpolate("SELECT 1 --\t? \n, ?", &args, false).unwrap();
    assert_eq!(out, "SELECT 1 --\t? \n, 1");
}

#[test]
fn splice_hash_comment_swallows_question_mark() {
    let args = args_with(|a| {
        a.add(7i32).unwrap();
    });
    let out = interpolate("SELECT 1 # ?\n, ?", &args, false).unwrap();
    assert_eq!(out, "SELECT 1 # ?\n, 7");
}

#[test]
fn splice_conditional_comment_is_executed() {
    // `/*! … */` is executed by MySQL — the `?` inside is a real
    // placeholder, not a comment.
    let args = args_with(|a| {
        a.add(3i32).unwrap();
        a.add(4i32).unwrap();
    });
    let out = interpolate("SELECT /*! ? */, ?", &args, false).unwrap();
    assert_eq!(out, "SELECT /*! 3 */, 4");
}

#[test]
fn splice_optimizer_hint_treated_as_comment() {
    // `/*+ … */` is a hint comment whose contents are *hint syntax*,
    // not SQL — the MySQL manual explicitly says hints don't accept
    // placeholders. So we treat them like a regular block comment:
    // any `?` inside is swallowed (MySQL's parser would reject it
    // anyway in the prepared-statement path).
    let args = args_with(|a| {
        a.add(42i32).unwrap();
    });
    let out =
        interpolate("SELECT /*+ MAX_EXECUTION_TIME(1000) */ ?", &args, false).unwrap();
    assert_eq!(out, "SELECT /*+ MAX_EXECUTION_TIME(1000) */ 42");
}

#[test]
fn splice_dash_dash_control_char_is_comment() {
    // The MySQL spec says `--` requires "whitespace or control
    // character" — bell (0x07) is a control char but not whitespace.
    let args = args_with(|a| {
        a.add(1i32).unwrap();
    });
    let out = interpolate("SELECT 1 --\x07?\n, ?", &args, false).unwrap();
    assert_eq!(out, "SELECT 1 --\x07?\n, 1");
}

#[test]
fn splice_block_comment_with_string_inside_does_not_open_string() {
    // The `'` inside `/* … */` is part of the comment, not a string
    // delimiter. After the comment closes, the `?` is a placeholder.
    let args = args_with(|a| {
        a.add(9i32).unwrap();
    });
    let out = interpolate("SELECT /* it's fine */ ?", &args, false).unwrap();
    assert_eq!(out, "SELECT /* it's fine */ 9");
}

#[test]
fn splice_unclosed_block_comment_swallows_remainder() {
    // No `*/` ever arrives; everything (including the `?`) is part of
    // the comment. Server will error, but we shouldn't splice.
    let args = args_with(|_| {});
    let out = interpolate("SELECT 1 /* ? trailing", &args, false).unwrap();
    assert_eq!(out, "SELECT 1 /* ? trailing");
}

#[test]
fn splice_unclosed_line_comment_swallows_remainder() {
    let args = args_with(|_| {});
    let out = interpolate("SELECT 1 -- ? trailing", &args, false).unwrap();
    assert_eq!(out, "SELECT 1 -- ? trailing");
}

// -- String / identifier edge cases ------------------------------------

#[test]
fn splice_empty_string_then_placeholder() {
    let args = args_with(|a| {
        a.add(2i32).unwrap();
    });
    let out = interpolate("SELECT '', ?", &args, false).unwrap();
    assert_eq!(out, "SELECT '', 2");
}

#[test]
fn splice_string_with_only_doubled_quotes() {
    // `''''` is a string containing one `'`. The `?` after it is a
    // placeholder.
    let args = args_with(|a| {
        a.add(8i32).unwrap();
    });
    let out = interpolate("SELECT '''', ?", &args, false).unwrap();
    assert_eq!(out, "SELECT '''', 8");
}

#[test]
fn splice_question_mark_in_backtick_identifier() {
    // Backticks delimit identifiers; `?` inside is part of the name.
    let args = args_with(|a| {
        a.add(1i32).unwrap();
    });
    let out = interpolate("SELECT `weird?col` FROM t WHERE x = ?", &args, false).unwrap();
    assert_eq!(out, "SELECT `weird?col` FROM t WHERE x = 1");
}

#[test]
fn splice_doubled_backtick_identifier() {
    // `` `a``b` `` is identifier "a`b". `?` outside is a placeholder.
    let args = args_with(|a| {
        a.add(0i32).unwrap();
    });
    let out = interpolate("SELECT `a``b` = ?", &args, false).unwrap();
    assert_eq!(out, "SELECT `a``b` = 0");
}

#[test]
fn splice_backslash_inside_backtick_is_not_escape() {
    // Backslash is not special inside `…` identifiers.
    let args = args_with(|a| {
        a.add(1i32).unwrap();
    });
    let out = interpolate("SELECT `a\\` = ?", &args, false).unwrap();
    assert_eq!(out, "SELECT `a\\` = 1");
}

#[test]
fn splice_charset_introducer_string() {
    let args = args_with(|a| {
        a.add(1i32).unwrap();
    });
    let out = interpolate("SELECT _utf8'?' = ?", &args, false).unwrap();
    assert_eq!(out, "SELECT _utf8'?' = 1");
}

#[test]
fn splice_n_quoted_string() {
    let args = args_with(|a| {
        a.add(1i32).unwrap();
    });
    let out = interpolate("SELECT N'?' = ?", &args, false).unwrap();
    assert_eq!(out, "SELECT N'?' = 1");
}

#[test]
fn splice_hex_literal_then_placeholder() {
    let args = args_with(|a| {
        a.add(1i32).unwrap();
    });
    let out = interpolate("SELECT x'AABB', ?", &args, false).unwrap();
    assert_eq!(out, "SELECT x'AABB', 1");
}

#[test]
fn splice_adjacent_strings_with_placeholder_between() {
    // `'a' ? 'b'` — between the two strings we are in Normal state, so
    // the `?` is a placeholder.
    let args = args_with(|a| {
        a.add(1i32).unwrap();
    });
    let out = interpolate("SELECT 'a' ? 'b'", &args, false).unwrap();
    assert_eq!(out, "SELECT 'a' 1 'b'");
}

#[test]
fn splice_escaped_quote_then_placeholder() {
    // `'foo\''` is a string containing `foo'`; the trailing `, ?` is a
    // placeholder.
    let args = args_with(|a| {
        a.add(1i32).unwrap();
    });
    let out = interpolate("SELECT 'foo\\'', ?", &args, false).unwrap();
    assert_eq!(out, "SELECT 'foo\\'', 1");
}

#[test]
fn splice_doubled_backslash_then_close_quote_then_placeholder() {
    // `'\\\\'` is a string containing two backslashes; close-quote is
    // the final `'`. `?` after it is a placeholder.
    let args = args_with(|a| {
        a.add(1i32).unwrap();
    });
    let out = interpolate("SELECT '\\\\', ?", &args, false).unwrap();
    assert_eq!(out, "SELECT '\\\\', 1");
}

#[test]
fn splice_unclosed_string_swallows_remainder() {
    // String never closes — everything after the open quote is "inside"
    // and we don't splice.
    let args = args_with(|_| {});
    let out = interpolate("SELECT 'oops ? ", &args, false).unwrap();
    assert_eq!(out, "SELECT 'oops ? ");
}

#[test]
fn splice_trailing_backslash_in_string_does_not_overrun() {
    // `'\` at end-of-input: the backslash escape would consume the next
    // byte, but there isn't one. Must not panic / overrun.
    let args = args_with(|_| {});
    let out = interpolate("SELECT '\\", &args, false).unwrap();
    assert_eq!(out, "SELECT '\\");
}

#[test]
fn splice_nbse_doubled_quote_in_double_string() {
    // Under NO_BACKSLASH_ESCAPES, `""` inside `"…"` is the only escape.
    let args = args_with(|a| {
        a.add(1i32).unwrap();
    });
    let out = interpolate("SELECT \"a\"\"b\", ?", &args, true).unwrap();
    assert_eq!(out, "SELECT \"a\"\"b\", 1");
}

#[test]
fn splice_string_with_question_then_normal_question() {
    let args = args_with(|a| {
        a.add(1i32).unwrap();
    });
    let out = interpolate("SELECT '?'?''", &args, false).unwrap();
    assert_eq!(out, "SELECT '?'1''");
}

#[test]
fn splice_full_width_question_mark_is_not_placeholder() {
    // FULLWIDTH QUESTION MARK (U+FF1F) encodes as 0xEF 0xBC 0x9F — none
    // of those bytes is 0x3F (`?`), so it must not match our finder.
    let args = args_with(|a| {
        a.add(1i32).unwrap();
    });
    let out = interpolate("SELECT ？, ?", &args, false).unwrap();
    assert_eq!(out, "SELECT ？, 1");
}

#[test]
fn splice_question_mark_inside_block_comment_then_after() {
    let args = args_with(|a| {
        a.add(1i32).unwrap();
    });
    let out = interpolate("SELECT /*?*/?", &args, false).unwrap();
    assert_eq!(out, "SELECT /*?*/1");
}

#[test]
fn splice_multi_statement() {
    let args = args_with(|a| {
        a.add(1i32).unwrap();
        a.add(2i32).unwrap();
    });
    let out = interpolate("SELECT ?; SELECT ?", &args, false).unwrap();
    assert_eq!(out, "SELECT 1; SELECT 2");
}

// -- Defensive: deliberately nasty bind values -------------------------

#[test]
fn splice_value_containing_quote_does_not_break_out() {
    // The classic injection attempt: a value like `' OR 1=1 --`. Must
    // come out fully escaped inside its `'…'` quoting.
    let args = args_with(|a| {
        a.add("' OR 1=1 --").unwrap();
    });
    let out = interpolate("SELECT * FROM t WHERE name = ?", &args, false).unwrap();
    assert_eq!(out, "SELECT * FROM t WHERE name = '\\' OR 1=1 --'");
    // Even more sanity: the spliced text contains a single opening and
    // closing quote that bracket the entire payload.
    assert!(out.ends_with("--'"));
}

#[test]
fn splice_value_containing_backslash_quote_in_nbse_doubles_quote() {
    // Under NO_BACKSLASH_ESCAPES, `\` is literal and `'` doubles.
    let args = args_with(|a| {
        a.add("a'b\\c").unwrap();
    });
    let out = interpolate("SELECT ?", &args, true).unwrap();
    assert_eq!(out, "SELECT 'a''b\\c'");
}

#[test]
fn splice_value_containing_null_and_newline() {
    let args = args_with(|a| {
        a.add("a\0b\nc").unwrap();
    });
    let out = interpolate("SELECT ?", &args, false).unwrap();
    // mysql_common escapes NUL as `\0` and newline as `\n`.
    assert_eq!(out, "SELECT 'a\\0b\\nc'");
}
