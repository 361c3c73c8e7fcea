//! What the lexer makes of literals and comments.
use crate::lexer::{
    end_state, is_quote, is_space_or_control, placeholders, starts_placeholder, starts_with_pair,
    step, State, BACKSLASH, BACKTICK, BANG, DASH, HASH, NEWLINE, QUESTION_MARK, SLASH, STAR,
};
use vstd::prelude::*;

verus! {

/// A placeholder is a question mark of the text, and the placeholders come in ascending order.
pub proof fn law_placeholders_are_question_marks(
    rest: Seq<u8>,
    state: State,
    no_backslash_escape: bool,
    at: int,
)
    ensures
        ({
            let holes = placeholders(rest, state, no_backslash_escape, at);
            &&& forall|k: int|
                #![trigger holes[k]]
                0 <= k < holes.len() ==> at <= holes[k] < at + rest.len() && rest[holes[k] - at]
                    == QUESTION_MARK
            &&& forall|j: int, k: int|
                #![trigger holes[j], holes[k]]
                0 <= j < k < holes.len() ==> holes[j] < holes[k]
        }),
    decreases rest.len(),
{
    if rest.len() > 0 {
        let holes = placeholders(rest, state, no_backslash_escape, at);
        if starts_placeholder(rest, state) {
            law_placeholders_are_question_marks(rest.skip(1), state, no_backslash_escape, at + 1);
            let later = placeholders(rest.skip(1), state, no_backslash_escape, at + 1);
            assert(holes == seq![at] + later);
            assert forall|k: int| #![trigger holes[k]] 0 <= k < holes.len() implies at <= holes[k]
                < at + rest.len() && rest[holes[k] - at] == QUESTION_MARK by {
                if k > 0 {
                    assert(holes[k] == later[k - 1]);
                    assert(rest.skip(1)[later[k - 1] - (at + 1)] == rest[later[k - 1] - at]);
                }
            }
            assert forall|j: int, k: int|
                #![trigger holes[j], holes[k]]
                0 <= j < k < holes.len() implies holes[j] < holes[k] by {
                assert(holes[k] == later[k - 1]);
                if j > 0 {
                    assert(holes[j] == later[j - 1]);
                }
            }
        } else {
            let (next, width) = step(rest, state, no_backslash_escape);
            law_placeholders_are_question_marks(
                rest.skip(width),
                next,
                no_backslash_escape,
                at + width,
            );
            assert(holes == placeholders(
                rest.skip(width),
                next,
                no_backslash_escape,
                at + width,
            ));
            assert forall|k: int| #![trigger holes[k]] 0 <= k < holes.len() implies at <= holes[k]
                < at + rest.len() && rest[holes[k] - at] == QUESTION_MARK by {
                assert(rest.skip(width)[holes[k] - (at + width)] == rest[holes[k] - at]);
            }
        }
    }
}

/// A line comment goes on to the first line feed, or to the end of the text, and holds no
/// placeholder.
pub proof fn law_line_comment_ends_at_newline(
    rest: Seq<u8>,
    no_backslash_escape: bool,
    at: int,
    n: int,
)
    requires
        0 <= n <= rest.len(),
        forall|i: int| 0 <= i < n ==> #[trigger] rest[i] != NEWLINE,
        n < rest.len() ==> rest[n] == NEWLINE,
    ensures
        placeholders(rest, State::LineComment, no_backslash_escape, at) == if n < rest.len() {
            placeholders(rest.skip(n + 1), State::Normal, no_backslash_escape, at + n + 1)
        } else {
            seq![]
        },
    decreases rest.len(),
{
    if rest.len() > 0 && n > 0 {
        law_line_comment_ends_at_newline(rest.skip(1), no_backslash_escape, at + 1, n - 1);
        assert(rest[0] != NEWLINE);
        if n < rest.len() {
            assert(rest.skip(1).skip(n) =~= rest.skip(n + 1));
        }
    }
}

/// A block comment goes on to the first `*/`, however many `/*` are in it, or to the end of the
/// text, and holds no placeholder.
pub proof fn law_block_comment_ends_at_first_terminator(
    rest: Seq<u8>,
    no_backslash_escape: bool,
    at: int,
    n: int,
)
    requires
        0 <= n <= rest.len(),
        forall|i: int| 0 <= i < n ==> !starts_with_pair(#[trigger] rest.skip(i), STAR, SLASH),
        n < rest.len() ==> starts_with_pair(rest.skip(n), STAR, SLASH),
    ensures
        placeholders(rest, State::BlockComment, no_backslash_escape, at) == if n < rest.len() {
            placeholders(rest.skip(n + 2), State::Normal, no_backslash_escape, at + n + 2)
        } else {
            seq![]
        },
    decreases rest.len(),
{
    assert(rest.skip(0) =~= rest);
    if rest.len() > 0 && n > 0 {
        let ahead = rest.skip(1);
        assert forall|i: int| 0 <= i < n - 1 implies !starts_with_pair(
            #[trigger] ahead.skip(i),
            STAR,
            SLASH,
        ) by {
            assert(ahead.skip(i) =~= rest.skip(i + 1));
        }
        assert(ahead.skip(n - 1) =~= rest.skip(n));
        law_block_comment_ends_at_first_terminator(ahead, no_backslash_escape, at + 1, n - 1);
        if n < rest.len() {
            assert(ahead.skip(n + 1) =~= rest.skip(n + 2));
        }
    }
}

/// What can stand between the quotes of a literal: every quote in it is doubled, or escaped by a
/// backslash where backslashes escape, and no backslash that escapes is left over at the end.
pub open spec fn is_literal_body(body: Seq<u8>, quote: u8, no_backslash_escape: bool) -> bool
    decreases body.len(),
{
    if body.len() == 0 {
        true
    } else if body[0] == BACKSLASH && !no_backslash_escape && quote != BACKTICK {
        body.len() > 1 && is_literal_body(body.skip(2), quote, no_backslash_escape)
    } else if body[0] == quote {
        starts_with_pair(body, quote, quote) && is_literal_body(
            body.skip(2),
            quote,
            no_backslash_escape,
        )
    } else {
        is_literal_body(body.skip(1), quote, no_backslash_escape)
    }
}

/// Between the quotes of a literal there is no placeholder, and none of what is there closes it.
pub proof fn law_literal_body_is_passed_over(
    body: Seq<u8>,
    quote: u8,
    no_backslash_escape: bool,
    rest: Seq<u8>,
    at: int,
)
    requires
        is_literal_body(body, quote, no_backslash_escape),
    ensures
        placeholders(body + rest, State::Quoted(quote), no_backslash_escape, at) == placeholders(
            rest,
            State::Quoted(quote),
            no_backslash_escape,
            at + body.len(),
        ),
        end_state(body + rest, State::Quoted(quote), no_backslash_escape) == end_state(
            rest,
            State::Quoted(quote),
            no_backslash_escape,
        ),
    decreases body.len(),
{
    if body.len() == 0 {
        assert(body + rest =~= rest);
    } else {
        let whole = body + rest;
        let (next, width) = step(whole, State::Quoted(quote), no_backslash_escape);
        assert(next == State::Quoted(quote));
        law_literal_body_is_passed_over(
            body.skip(width),
            quote,
            no_backslash_escape,
            rest,
            at + width,
        );
        assert(whole.skip(width) =~= body.skip(width) + rest);
    }
}

/// A literal ends at the first quote that is neither doubled nor escaped; behind it placeholders
/// count again.
pub proof fn law_literal_ends_at_its_quote(
    body: Seq<u8>,
    quote: u8,
    no_backslash_escape: bool,
    rest: Seq<u8>,
    at: int,
)
    requires
        is_quote(quote),
        is_literal_body(body, quote, no_backslash_escape),
        rest.len() > 0 ==> rest[0] != quote,
    ensures
        placeholders(
            seq![quote] + body + seq![quote] + rest,
            State::Normal,
            no_backslash_escape,
            at,
        ) == placeholders(rest, State::Normal, no_backslash_escape, at + body.len() + 2),
{
    let whole = seq![quote] + body + seq![quote] + rest;
    let closing = seq![quote] + rest;
    assert(whole.skip(1) =~= body + closing);
    law_literal_body_is_passed_over(body, quote, no_backslash_escape, closing, at + 1);
    assert(closing.skip(1) =~= rest);
}

/// A literal that is not closed swallows the rest of the text: there is no placeholder in it. A
/// backslash at the very end escapes nothing and changes nothing about that.
pub proof fn law_unclosed_literal_swallows_rest(
    body: Seq<u8>,
    quote: u8,
    no_backslash_escape: bool,
    at: int,
)
    requires
        is_quote(quote),
        is_literal_body(body, quote, no_backslash_escape),
    ensures
        placeholders(seq![quote] + body, State::Normal, no_backslash_escape, at) == Seq::<
            int,
        >::empty(),
        placeholders(seq![quote] + body + seq![BACKSLASH], State::Normal, no_backslash_escape, at)
            == Seq::<int>::empty(),
{
    let nothing = Seq::<u8>::empty();
    let no_holes = Seq::<int>::empty();
    let lone = seq![BACKSLASH];
    assert((seq![quote] + body).skip(1) =~= body + nothing);
    assert((seq![quote] + body + lone).skip(1) =~= body + lone);
    law_literal_body_is_passed_over(body, quote, no_backslash_escape, nothing, at + 1);
    law_literal_body_is_passed_over(body, quote, no_backslash_escape, lone, at + 1);
    assert(lone.skip(1) =~= nothing);
    assert(step(lone, State::Quoted(quote), no_backslash_escape) == (State::Quoted(quote), 1int));
    assert(placeholders(nothing, State::Quoted(quote), no_backslash_escape, at + body.len() + 2)
        == no_holes);
    assert(placeholders(lone, State::Quoted(quote), no_backslash_escape, at + 1 + body.len())
        == no_holes);
}

/// Inside a quoted identifier the backslash is an ordinary character, with or without the flag.
pub proof fn law_backslash_is_plain_in_identifiers(rest: Seq<u8>)
    requires
        rest.len() > 0,
    ensures
        step(rest, State::Quoted(BACKTICK), true) == step(rest, State::Quoted(BACKTICK), false),
{
}

/// The flag matters to texts with a backslash in them only.
pub proof fn law_flag_is_about_backslashes(rest: Seq<u8>, state: State, at: int)
    requires
        forall|i: int| 0 <= i < rest.len() ==> #[trigger] rest[i] != BACKSLASH,
    ensures
        placeholders(rest, state, true, at) == placeholders(rest, state, false, at),
        end_state(rest, state, true) == end_state(rest, state, false),
    decreases rest.len(),
{
    if rest.len() > 0 {
        let (next, width) = step(rest, state, true);
        assert(step(rest, state, false) == (next, width));
        law_flag_is_about_backslashes(rest.skip(width), next, at + width);
        if starts_placeholder(rest, state) {
            assert(width == 1 && next == state);
        }
    }
}

/// The inside of a `/*! … */` comment is statement text, so placeholders count in it.
pub proof fn law_executable_comment_is_statement_text(
    rest: Seq<u8>,
    no_backslash_escape: bool,
    at: int,
)
    ensures
        placeholders(seq![SLASH, STAR, BANG] + rest, State::Normal, no_backslash_escape, at)
            == placeholders(rest, State::Normal, no_backslash_escape, at + 3),
{
    assert((seq![SLASH, STAR, BANG] + rest).skip(3) =~= rest);
}

/// Any other `/*`, that of an optimizer hint too, opens a block comment.
pub proof fn law_slash_star_opens_block_comment(
    rest: Seq<u8>,
    no_backslash_escape: bool,
    at: int,
)
    requires
        rest.len() > 0 ==> rest[0] != BANG,
    ensures
        placeholders(seq![SLASH, STAR] + rest, State::Normal, no_backslash_escape, at)
            == placeholders(rest, State::BlockComment, no_backslash_escape, at + 2),
{
    assert((seq![SLASH, STAR] + rest).skip(2) =~= rest);
}

/// A `--` opens a line comment where whitespace, a control character or nothing follows. Elsewhere
/// its first dash is an ordinary character.
pub proof fn law_dashes_need_space_to_open_line_comment(
    rest: Seq<u8>,
    no_backslash_escape: bool,
    at: int,
)
    ensures
        placeholders(seq![DASH, DASH] + rest, State::Normal, no_backslash_escape, at) == if rest.len()
            == 0 || is_space_or_control(rest[0]) {
            placeholders(rest, State::LineComment, no_backslash_escape, at + 2)
        } else {
            placeholders(seq![DASH] + rest, State::Normal, no_backslash_escape, at + 1)
        },
{
    let whole = seq![DASH, DASH] + rest;
    assert(whole.skip(2) =~= rest);
    assert(whole.skip(1) =~= seq![DASH] + rest);
    if rest.len() > 0 {
        assert(whole[2] == rest[0]);
    }
}

/// A `#` opens a line comment whatever follows.
pub proof fn law_hash_opens_line_comment(rest: Seq<u8>, no_backslash_escape: bool, at: int)
    ensures
        placeholders(seq![HASH] + rest, State::Normal, no_backslash_escape, at) == placeholders(
            rest,
            State::LineComment,
            no_backslash_escape,
            at + 1,
        ),
{
    assert((seq![HASH] + rest).skip(1) =~= rest);
}

} // verus!
