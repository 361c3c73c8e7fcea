//! What each byte of a statement does to the reading of what follows it.
//!
//! Together these laws say of every text where its placeholders are: each of them takes one or more
//! bytes off the front, for every byte that can stand there and in every state.
use crate::lexer::{end_state, placeholders, starts_placeholder, step, State};
use vstd::prelude::*;

verus! {

/// A single or double quote, or a backtick.
pub open spec fn is_quote_mark(b: u8) -> bool {
    b == 0x27 || b == 0x22 || b == 0x60
}

/// Where there is no text there is no placeholder.
pub proof fn law_no_text_no_placeholder(state: State, no_backslash_escape: bool, at: int)
    ensures
        placeholders(Seq::<u8>::empty(), state, no_backslash_escape, at) == Seq::<int>::empty(),
        end_state(Seq::<u8>::empty(), state, no_backslash_escape) == state,
{
}

/// A question mark in statement text is a placeholder, whatever is in front of it and behind it.
pub proof fn law_question_mark_is_placeholder(rest: Seq<u8>, no_backslash_escape: bool, at: int)
    ensures
        placeholders(seq![0x3fu8] + rest, State::Normal, no_backslash_escape, at) == seq![at]
            + placeholders(rest, State::Normal, no_backslash_escape, at + 1),
        end_state(seq![0x3fu8] + rest, State::Normal, no_backslash_escape) == end_state(
            rest,
            State::Normal,
            no_backslash_escape,
        ),
{
    assert((seq![0x3fu8] + rest).skip(1) =~= rest);
}

/// Any byte of statement text that is no quote, no `#` and no `?`, and that does not begin a `/*`
/// or a `--` comment, is passed over and leaves the reading of what follows alone.
pub proof fn law_ordinary_byte_is_passed_over(
    b: u8,
    rest: Seq<u8>,
    no_backslash_escape: bool,
    at: int,
)
    requires
        !is_quote_mark(b),
        b != 0x23,
        b != 0x3f,
        !(b == 0x2f && rest.len() > 0 && rest[0] == 0x2a),
        !(b == 0x2d && rest.len() > 0 && rest[0] == 0x2d && (rest.len() == 1 || rest[1] <= 0x20
            || rest[1] == 0x7f)),
    ensures
        placeholders(seq![b] + rest, State::Normal, no_backslash_escape, at) == placeholders(
            rest,
            State::Normal,
            no_backslash_escape,
            at + 1,
        ),
        end_state(seq![b] + rest, State::Normal, no_backslash_escape) == end_state(
            rest,
            State::Normal,
            no_backslash_escape,
        ),
{
    let whole = seq![b] + rest;
    assert(whole.skip(1) =~= rest);
    if rest.len() > 0 {
        assert(whole[1] == rest[0]);
    }
    if rest.len() > 1 {
        assert(whole[2] == rest[1]);
    }
}

/// A quote in statement text opens a literal that only the same quote can close.
pub proof fn law_quote_opens_literal(
    quote: u8,
    rest: Seq<u8>,
    no_backslash_escape: bool,
    at: int,
)
    requires
        is_quote_mark(quote),
    ensures
        placeholders(seq![quote] + rest, State::Normal, no_backslash_escape, at) == placeholders(
            rest,
            State::Quoted(quote),
            no_backslash_escape,
            at + 1,
        ),
        end_state(seq![quote] + rest, State::Normal, no_backslash_escape) == end_state(
            rest,
            State::Quoted(quote),
            no_backslash_escape,
        ),
{
    assert((seq![quote] + rest).skip(1) =~= rest);
}

/// A `#` in statement text opens a line comment.
pub proof fn law_hash_opens_comment(
    rest: Seq<u8>,
    no_backslash_escape: bool,
    at: int,
)
    ensures
        placeholders(seq![0x23u8] + rest, State::Normal, no_backslash_escape, at) == placeholders(
            rest,
            State::LineComment,
            no_backslash_escape,
            at + 1,
        ),
        end_state(seq![0x23u8] + rest, State::Normal, no_backslash_escape) == end_state(
            rest,
            State::LineComment,
            no_backslash_escape,
        ),
{
    assert((seq![0x23u8] + rest).skip(1) =~= rest);
}

/// A `--` in statement text opens a line comment where whitespace, a control character or nothing
/// follows.
pub proof fn law_dashes_open_comment(
    rest: Seq<u8>,
    no_backslash_escape: bool,
    at: int,
)
    requires
        rest.len() == 0 || rest[0] <= 0x20 || rest[0] == 0x7f,
    ensures
        placeholders(seq![0x2du8, 0x2du8] + rest, State::Normal, no_backslash_escape, at) == placeholders(
            rest,
            State::LineComment,
            no_backslash_escape,
            at + 2,
        ),
        end_state(seq![0x2du8, 0x2du8] + rest, State::Normal, no_backslash_escape) == end_state(
            rest,
            State::LineComment,
            no_backslash_escape,
        ),
{
    assert((seq![0x2du8, 0x2du8] + rest).skip(2) =~= rest);
}

/// A `/*` in statement text opens a block comment, unless a `!` follows.
pub proof fn law_slash_star_opens_comment(
    rest: Seq<u8>,
    no_backslash_escape: bool,
    at: int,
)
    requires
        rest.len() > 0 ==> rest[0] != 0x21,
    ensures
        placeholders(seq![0x2fu8, 0x2au8] + rest, State::Normal, no_backslash_escape, at) == placeholders(
            rest,
            State::BlockComment,
            no_backslash_escape,
            at + 2,
        ),
        end_state(seq![0x2fu8, 0x2au8] + rest, State::Normal, no_backslash_escape) == end_state(
            rest,
            State::BlockComment,
            no_backslash_escape,
        ),
{
    assert((seq![0x2fu8, 0x2au8] + rest).skip(2) =~= rest);
}

/// Behind a `/*!` in statement text there is statement text.
pub proof fn law_slash_star_bang_is_passed_over(
    rest: Seq<u8>,
    no_backslash_escape: bool,
    at: int,
)
    ensures
        placeholders(seq![0x2fu8, 0x2au8, 0x21u8] + rest, State::Normal, no_backslash_escape, at) == placeholders(
            rest,
            State::Normal,
            no_backslash_escape,
            at + 3,
        ),
        end_state(seq![0x2fu8, 0x2au8, 0x21u8] + rest, State::Normal, no_backslash_escape) == end_state(
            rest,
            State::Normal,
            no_backslash_escape,
        ),
{
    assert((seq![0x2fu8, 0x2au8, 0x21u8] + rest).skip(3) =~= rest);
}

/// A byte of a literal that is not its quote, nor a backslash that escapes, is passed over.
pub proof fn law_byte_of_literal_is_passed_over(
    quote: u8,
    b: u8,
    rest: Seq<u8>,
    no_backslash_escape: bool,
    at: int,
)
    requires
        is_quote_mark(quote),
        b != quote,
        b != 0x5c || no_backslash_escape || quote == 0x60,
    ensures
        placeholders(seq![b] + rest, State::Quoted(quote), no_backslash_escape, at) == placeholders(
            rest,
            State::Quoted(quote),
            no_backslash_escape,
            at + 1,
        ),
        end_state(seq![b] + rest, State::Quoted(quote), no_backslash_escape) == end_state(
            rest,
            State::Quoted(quote),
            no_backslash_escape,
        ),
{
    assert((seq![b] + rest).skip(1) =~= rest);
}

/// A backslash that escapes takes the byte behind it along, whatever it is.
pub proof fn law_escaped_byte_is_passed_over(
    quote: u8,
    b: u8,
    rest: Seq<u8>,
    at: int,
)
    requires
        quote == 0x27 || quote == 0x22,
    ensures
        placeholders(seq![0x5cu8, b] + rest, State::Quoted(quote), false, at) == placeholders(
            rest,
            State::Quoted(quote),
            false,
            at + 2,
        ),
        end_state(seq![0x5cu8, b] + rest, State::Quoted(quote), false) == end_state(
            rest,
            State::Quoted(quote),
            false,
        ),
{
    assert((seq![0x5cu8, b] + rest).skip(2) =~= rest);
}

/// A backslash that is the last byte of the text escapes nothing, and leaves the literal open.
pub proof fn law_last_backslash_is_passed_over(
    quote: u8,
    rest: Seq<u8>,
    no_backslash_escape: bool,
    at: int,
)
    requires
        is_quote_mark(quote),
        rest.len() == 0,
    ensures
        placeholders(seq![0x5cu8] + rest, State::Quoted(quote), no_backslash_escape, at) == placeholders(
            rest,
            State::Quoted(quote),
            no_backslash_escape,
            at + 1,
        ),
        end_state(seq![0x5cu8] + rest, State::Quoted(quote), no_backslash_escape) == end_state(
            rest,
            State::Quoted(quote),
            no_backslash_escape,
        ),
{
    assert((seq![0x5cu8] + rest).skip(1) =~= rest);
}

/// A doubled quote inside a literal does not close it.
pub proof fn law_doubled_quote_is_passed_over(
    quote: u8,
    rest: Seq<u8>,
    no_backslash_escape: bool,
    at: int,
)
    requires
        is_quote_mark(quote),
    ensures
        placeholders(seq![quote, quote] + rest, State::Quoted(quote), no_backslash_escape, at) == placeholders(
            rest,
            State::Quoted(quote),
            no_backslash_escape,
            at + 2,
        ),
        end_state(seq![quote, quote] + rest, State::Quoted(quote), no_backslash_escape) == end_state(
            rest,
            State::Quoted(quote),
            no_backslash_escape,
        ),
{
    assert((seq![quote, quote] + rest).skip(2) =~= rest);
}

/// A quote that is not doubled closes the literal; behind it there is statement text.
pub proof fn law_quote_closes_literal(
    quote: u8,
    rest: Seq<u8>,
    no_backslash_escape: bool,
    at: int,
)
    requires
        is_quote_mark(quote),
        rest.len() > 0 ==> rest[0] != quote,
    ensures
        placeholders(seq![quote] + rest, State::Quoted(quote), no_backslash_escape, at) == placeholders(
            rest,
            State::Normal,
            no_backslash_escape,
            at + 1,
        ),
        end_state(seq![quote] + rest, State::Quoted(quote), no_backslash_escape) == end_state(
            rest,
            State::Normal,
            no_backslash_escape,
        ),
{
    assert((seq![quote] + rest).skip(1) =~= rest);
}

/// A byte of a line comment that is no line feed is passed over.
pub proof fn law_byte_of_line_comment_is_passed_over(
    b: u8,
    rest: Seq<u8>,
    no_backslash_escape: bool,
    at: int,
)
    requires
        b != 0x0a,
    ensures
        placeholders(seq![b] + rest, State::LineComment, no_backslash_escape, at) == placeholders(
            rest,
            State::LineComment,
            no_backslash_escape,
            at + 1,
        ),
        end_state(seq![b] + rest, State::LineComment, no_backslash_escape) == end_state(
            rest,
            State::LineComment,
            no_backslash_escape,
        ),
{
    assert((seq![b] + rest).skip(1) =~= rest);
}

/// A line feed ends a line comment.
pub proof fn law_line_feed_ends_comment(
    rest: Seq<u8>,
    no_backslash_escape: bool,
    at: int,
)
    ensures
        placeholders(seq![0x0au8] + rest, State::LineComment, no_backslash_escape, at) == placeholders(
            rest,
            State::Normal,
            no_backslash_escape,
            at + 1,
        ),
        end_state(seq![0x0au8] + rest, State::LineComment, no_backslash_escape) == end_state(
            rest,
            State::Normal,
            no_backslash_escape,
        ),
{
    assert((seq![0x0au8] + rest).skip(1) =~= rest);
}

/// A byte of a block comment that does not begin a `*/` is passed over.
pub proof fn law_byte_of_block_comment_is_passed_over(
    b: u8,
    rest: Seq<u8>,
    no_backslash_escape: bool,
    at: int,
)
    requires
        !(b == 0x2a && rest.len() > 0 && rest[0] == 0x2f),
    ensures
        placeholders(seq![b] + rest, State::BlockComment, no_backslash_escape, at) == placeholders(
            rest,
            State::BlockComment,
            no_backslash_escape,
            at + 1,
        ),
        end_state(seq![b] + rest, State::BlockComment, no_backslash_escape) == end_state(
            rest,
            State::BlockComment,
            no_backslash_escape,
        ),
{
    assert((seq![b] + rest).skip(1) =~= rest);
}

/// A `*/` ends a block comment.
pub proof fn law_star_slash_ends_comment(
    rest: Seq<u8>,
    no_backslash_escape: bool,
    at: int,
)
    ensures
        placeholders(seq![0x2au8, 0x2fu8] + rest, State::BlockComment, no_backslash_escape, at) == placeholders(
            rest,
            State::Normal,
            no_backslash_escape,
            at + 2,
        ),
        end_state(seq![0x2au8, 0x2fu8] + rest, State::BlockComment, no_backslash_escape) == end_state(
            rest,
            State::Normal,
            no_backslash_escape,
        ),
{
    assert((seq![0x2au8, 0x2fu8] + rest).skip(2) =~= rest);
}

/// Positions count from where the text starts.
pub proof fn law_positions_count_from_start(
    rest: Seq<u8>,
    state: State,
    no_backslash_escape: bool,
    at: int,
)
    ensures
        placeholders(rest, state, no_backslash_escape, at) == Seq::new(
            placeholders(rest, state, no_backslash_escape, 0).len(),
            |k: int| at + placeholders(rest, state, no_backslash_escape, 0)[k],
        ),
{
    lemma_positions_shift(rest, state, no_backslash_escape, 0, at);
}

proof fn lemma_positions_shift(
    rest: Seq<u8>,
    state: State,
    no_backslash_escape: bool,
    at: int,
    by: int,
)
    ensures
        placeholders(rest, state, no_backslash_escape, at + by) == Seq::new(
            placeholders(rest, state, no_backslash_escape, at).len(),
            |k: int| by + placeholders(rest, state, no_backslash_escape, at)[k],
        ),
    decreases rest.len(),
{
    if rest.len() == 0 {
    } else if starts_placeholder(rest, state) {
        lemma_positions_shift(rest.skip(1), state, no_backslash_escape, at + 1, by);
    } else {
        let (next, width) = step(rest, state, no_backslash_escape);
        lemma_positions_shift(rest.skip(width), next, no_backslash_escape, at + width, by);
    }
}

/// In a text without quotes, `#`, `/` and `-` every question mark is a placeholder, and nothing
/// else is.
pub proof fn law_every_mark_of_plain_text_is_placeholder(
    text: Seq<u8>,
    no_backslash_escape: bool,
    p: int,
)
    requires
        forall|i: int|
            0 <= i < text.len() ==> !is_quote_mark(#[trigger] text[i]) && text[i] != 0x23 && text[i]
                != 0x2f && text[i] != 0x2d,
    ensures
        placeholders(text, State::Normal, no_backslash_escape, 0).contains(p) <==> (0 <= p
            < text.len() && text[p] == 0x3f),
{
    lemma_marks_of_plain_text(text, no_backslash_escape, 0, p);
}

proof fn lemma_marks_of_plain_text(text: Seq<u8>, no_backslash_escape: bool, at: int, p: int)
    requires
        forall|i: int|
            0 <= i < text.len() ==> !is_quote_mark(#[trigger] text[i]) && text[i] != 0x23 && text[i]
                != 0x2f && text[i] != 0x2d,
    ensures
        placeholders(text, State::Normal, no_backslash_escape, at).contains(p) <==> (at <= p < at
            + text.len() && text[p - at] == 0x3f),
    decreases text.len(),
{
    if text.len() > 0 {
        let rest = text.skip(1);
        lemma_marks_of_plain_text(rest, no_backslash_escape, at + 1, p);
        let later = placeholders(rest, State::Normal, no_backslash_escape, at + 1);
        assert(text =~= seq![text[0]] + rest);
        if text[0] == 0x3f {
            law_question_mark_is_placeholder(rest, no_backslash_escape, at);
            let all = seq![at] + later;
            assert(all[0] == at);
            if later.contains(p) {
                let k = choose|k: int| 0 <= k < later.len() && later[k] == p;
                assert(all[k + 1] == p);
            }
            if all.contains(p) && p != at {
                let k = choose|k: int| 0 <= k < all.len() && all[k] == p;
                assert(later[k - 1] == p);
            }
        } else {
            law_ordinary_byte_is_passed_over(text[0], rest, no_backslash_escape, at);
        }
    }
}

} // verus!
