//! Literals leave the reading of a statement alone.
use crate::lexer::{
    end_state, is_quote, is_space_or_control, placeholders,
    starts_placeholder, starts_with_pair, statement_placeholders, step, State, BANG,
    DASH, HASH, QUESTION_MARK, SINGLE_QUOTE, SLASH, STAR,
};
use crate::lexer_laws::{is_literal_body, law_literal_body_is_passed_over};
use crate::splice::filled;
use vstd::prelude::*;

verus! {

/// A byte that means nothing to the lexer outside literals and comments, wherever it stands.
pub open spec fn is_plain(b: u8) -> bool {
    &&& !is_quote(b)
    &&& !is_space_or_control(b)
    &&& b != DASH
    &&& b != HASH
    &&& b != SLASH
    &&& b != STAR
    &&& b != BANG
    &&& b != QUESTION_MARK
}

/// One or more plain bytes, with or without a `-` in front.
pub open spec fn is_word_bytes(piece: Seq<u8>) -> bool {
    &&& piece.len() > 0
    &&& piece[0] == DASH ==> piece.len() > 1
    &&& forall|i: int|
        0 <= i < piece.len() ==> is_plain(#[trigger] piece[i]) || (i == 0 && piece[i] == DASH)
}

/// A single-quoted string.
pub open spec fn is_string_bytes(piece: Seq<u8>, no_backslash_escape: bool) -> bool {
    &&& piece.len() >= 2
    &&& piece[0] == SINGLE_QUOTE
    &&& piece.last() == SINGLE_QUOTE
    &&& is_literal_body(
        piece.subrange(1, piece.len() - 1),
        SINGLE_QUOTE,
        no_backslash_escape,
    )
}

/// A single token: a word or a single-quoted string.
pub open spec fn is_token(piece: Seq<u8>, no_backslash_escape: bool) -> bool {
    is_word_bytes(piece) || is_string_bytes(piece, no_backslash_escape)
}

proof fn lemma_plain_run(run: Seq<u8>, rest: Seq<u8>, no_backslash_escape: bool, at: int)
    requires
        forall|i: int| 0 <= i < run.len() ==> is_plain(#[trigger] run[i]),
    ensures
        placeholders(run + rest, State::Normal, no_backslash_escape, at) == placeholders(
            rest,
            State::Normal,
            no_backslash_escape,
            at + run.len(),
        ),
        end_state(run + rest, State::Normal, no_backslash_escape) == end_state(
            rest,
            State::Normal,
            no_backslash_escape,
        ),
    decreases run.len(),
{
    if run.len() == 0 {
        assert(run + rest =~= rest);
    } else {
        assert(is_plain(run[0]));
        lemma_plain_run(run.drop_first(), rest, no_backslash_escape, at + 1);
        assert((run + rest).skip(1) =~= run.drop_first() + rest);
    }
}

/// A closing quote, or one that an opening quote right behind it turns into a doubled quote: the
/// text behind it reads the same either way.
proof fn lemma_closing_quote(rest: Seq<u8>, no_backslash_escape: bool, at: int)
    ensures
        placeholders(
            seq![SINGLE_QUOTE] + rest,
            State::Quoted(SINGLE_QUOTE),
            no_backslash_escape,
            at,
        ) == placeholders(rest, State::Normal, no_backslash_escape, at + 1),
        end_state(seq![SINGLE_QUOTE] + rest, State::Quoted(SINGLE_QUOTE), no_backslash_escape)
            == end_state(rest, State::Normal, no_backslash_escape),
{
    let whole = seq![SINGLE_QUOTE] + rest;
    assert(whole.skip(1) =~= rest);
    if rest.len() > 0 && rest[0] == SINGLE_QUOTE {
        assert(whole.skip(2) =~= rest.skip(1));
    }
}

/// The lexer passes over a token as a whole: there is no placeholder in it, and the text behind
/// it reads as if the token were not there.
pub proof fn law_token_is_passed_over(
    piece: Seq<u8>,
    rest: Seq<u8>,
    no_backslash_escape: bool,
    at: int,
)
    requires
        is_token(piece, no_backslash_escape),
    ensures
        placeholders(piece + rest, State::Normal, no_backslash_escape, at) == placeholders(
            rest,
            State::Normal,
            no_backslash_escape,
            at + piece.len(),
        ),
        end_state(piece + rest, State::Normal, no_backslash_escape) == end_state(
            rest,
            State::Normal,
            no_backslash_escape,
        ),
{
    let whole = piece + rest;
    if is_word_bytes(piece) {
        if piece[0] == DASH {
            assert(is_plain(piece[1]));
            assert forall|i: int| 0 <= i < piece.drop_first().len() implies is_plain(
                #[trigger] piece.drop_first()[i],
            ) by {
                assert(piece.drop_first()[i] == piece[i + 1]);
            }
            lemma_plain_run(piece.drop_first(), rest, no_backslash_escape, at + 1);
            assert(whole.skip(1) =~= piece.drop_first() + rest);
        } else {
            lemma_plain_run(piece, rest, no_backslash_escape, at);
        }
    } else {
        let body = piece.subrange(1, piece.len() - 1);
        let tail = seq![SINGLE_QUOTE] + rest;
        assert(whole.skip(1) =~= body + tail);
        law_literal_body_is_passed_over(body, SINGLE_QUOTE, no_backslash_escape, tail, at + 1);
        lemma_closing_quote(rest, no_backslash_escape, at + 1 + body.len());
    }
}

/// A state that the lexer can come to: what opened a literal is a quote.
spec fn is_reachable(state: State) -> bool {
    state matches State::Quoted(q) ==> is_quote(q)
}

/// The text still ahead with its placeholders filled, step by step.
spec fn rendered(
    rest: Seq<u8>,
    state: State,
    no_backslash_escape: bool,
    pieces: Seq<Seq<u8>>,
) -> Seq<u8>
    decreases rest.len(),
{
    if rest.len() == 0 {
        seq![]
    } else if starts_placeholder(rest, state) {
        pieces[0] + rendered(rest.skip(1), state, no_backslash_escape, pieces.drop_first())
    } else {
        let (next, width) = step(rest, state, no_backslash_escape);
        rest.take(width) + rendered(rest.skip(width), next, no_backslash_escape, pieces)
    }
}

/// Filling step by step is filling.
proof fn lemma_rendered_is_filled(
    text: Seq<u8>,
    state: State,
    no_backslash_escape: bool,
    pieces: Seq<Seq<u8>>,
    from: int,
    i: int,
)
    requires
        0 <= from <= i <= text.len(),
    ensures
        filled(text, placeholders(text.skip(i), state, no_backslash_escape, i), pieces, from)
            == text.subrange(from, i) + rendered(
            text.skip(i),
            state,
            no_backslash_escape,
            pieces,
        ),
    decreases text.len() - i,
{
    let rest = text.skip(i);
    let holes = placeholders(rest, state, no_backslash_escape, i);
    if rest.len() == 0 {
        assert(text.skip(from) =~= text.subrange(from, i) + Seq::<u8>::empty());
    } else if starts_placeholder(rest, state) {
        lemma_rendered_is_filled(
            text,
            state,
            no_backslash_escape,
            pieces.drop_first(),
            i + 1,
            i + 1,
        );
        assert(rest.skip(1) =~= text.skip(i + 1));
        assert(holes.drop_first() =~= placeholders(rest.skip(1), state, no_backslash_escape, i + 1));
        let later = rendered(rest.skip(1), state, no_backslash_escape, pieces.drop_first());
        assert(text.subrange(i + 1, i + 1) + later =~= later);
        assert(text.subrange(from, i) + pieces[0] + later =~= text.subrange(from, i) + (pieces[0]
            + later));
    } else {
        let (next, width) = step(rest, state, no_backslash_escape);
        lemma_rendered_is_filled(text, next, no_backslash_escape, pieces, from, i + width);
        assert(rest.skip(width) =~= text.skip(i + width));
        let later = rendered(rest.skip(width), next, no_backslash_escape, pieces);
        assert(text.subrange(from, i + width) + later =~= text.subrange(from, i) + (rest.take(width)
            + later));
    }
}

/// The filled text reads as the text did, and holds no placeholder.
proof fn lemma_rendered_reads_alike(
    rest: Seq<u8>,
    state: State,
    no_backslash_escape: bool,
    pieces: Seq<Seq<u8>>,
    at: int,
    out_at: int,
)
    requires
        is_reachable(state),
        placeholders(rest, state, no_backslash_escape, at).len() <= pieces.len(),
        forall|k: int| 0 <= k < pieces.len() ==> is_token(#[trigger] pieces[k], no_backslash_escape),
    ensures
        placeholders(
            rendered(rest, state, no_backslash_escape, pieces),
            state,
            no_backslash_escape,
            out_at,
        ).len() == 0,
        end_state(
            rendered(rest, state, no_backslash_escape, pieces),
            state,
            no_backslash_escape,
        ) == end_state(rest, state, no_backslash_escape),
    decreases rest.len(),
{
    let out = rendered(rest, state, no_backslash_escape, pieces);
    if rest.len() == 0 {
    } else if starts_placeholder(rest, state) {
        let others = pieces.drop_first();
        assert forall|k: int| 0 <= k < others.len() implies is_token(
            #[trigger] others[k],
            no_backslash_escape,
        ) by {
            assert(others[k] == pieces[k + 1]);
        }
        let later = rendered(rest.skip(1), state, no_backslash_escape, others);
        lemma_rendered_reads_alike(
            rest.skip(1),
            state,
            no_backslash_escape,
            others,
            at + 1,
            out_at + pieces[0].len(),
        );
        law_token_is_passed_over(pieces[0], later, no_backslash_escape, out_at);
        assert(step(rest, state, no_backslash_escape) == (state, 1int));
    } else {
        let (next, width) = step(rest, state, no_backslash_escape);
        let later = rendered(rest.skip(width), next, no_backslash_escape, pieces);
        lemma_rendered_reads_alike(
            rest.skip(width),
            next,
            no_backslash_escape,
            pieces,
            at + width,
            out_at + width,
        );
        assert(out.skip(width) =~= later);
        lemma_step_alike(rest, state, no_backslash_escape, pieces, at);
        if step(out, state, no_backslash_escape) != (next, width) {
            assert(out.skip(2) =~= later.skip(1));
        }
    }
}

/// A step over text that is copied is the same step in the filled text, but for a closing quote
/// that a string literal right behind it turns into a doubled one.
proof fn lemma_step_alike(
    rest: Seq<u8>,
    state: State,
    no_backslash_escape: bool,
    pieces: Seq<Seq<u8>>,
    at: int,
)
    requires
        rest.len() > 0,
        !starts_placeholder(rest, state),
        is_reachable(state),
        placeholders(rest, state, no_backslash_escape, at).len() <= pieces.len(),
        forall|k: int| 0 <= k < pieces.len() ==> is_token(#[trigger] pieces[k], no_backslash_escape),
    ensures
        ({
            let (next, width) = step(rest, state, no_backslash_escape);
            let out = rendered(rest, state, no_backslash_escape, pieces);
            let later = rendered(rest.skip(width), next, no_backslash_escape, pieces);
            ||| step(out, state, no_backslash_escape) == (next, width)
            ||| {
                &&& state == State::Quoted(SINGLE_QUOTE)
                &&& next is Normal
                &&& width == 1
                &&& later.len() > 0
                &&& later[0] == SINGLE_QUOTE
                &&& step(out, state, no_backslash_escape) == (state, 2int)
            }
        }),
{
    let (next, width) = step(rest, state, no_backslash_escape);
    let out = rendered(rest, state, no_backslash_escape, pieces);
    let later = rendered(rest.skip(width), next, no_backslash_escape, pieces);
    lemma_first_byte(rest.skip(width), next, no_backslash_escape, pieces, at + width);
    assert(out == rest.take(width) + later);
    assert(out[0] == rest[0]);
    if rest.len() > width {
        assert(rest.skip(width)[0] == rest[width]);
    }
    if state is Normal && rest[0] == DASH && starts_with_pair(rest, DASH, DASH) && width == 1 {
        let ahead = rest.skip(1);
        assert(!starts_placeholder(ahead, next));
        let (next2, width2) = step(ahead, next, no_backslash_escape);
        assert(placeholders(ahead, next, no_backslash_escape, at + 1) == placeholders(
            ahead.skip(width2),
            next2,
            no_backslash_escape,
            at + 1 + width2,
        ));
        let later2 = rendered(ahead.skip(width2), next2, no_backslash_escape, pieces);
        lemma_first_byte(
            ahead.skip(width2),
            next2,
            no_backslash_escape,
            pieces,
            at + 1 + width2,
        );
        assert(later == ahead.take(width2) + later2);
        if width2 == 1 {
            assert(ahead.skip(1)[0] == rest[2]);
            assert(later[1] == later2[0]);
        } else {
            assert(later[1] == rest[2]);
        }
        assert(out[2] == later[1]);
        assert(!is_space_or_control(out[2]));
    }
}

/// The filled text starts with the first byte of the text or with that of a token.
proof fn lemma_first_byte(
    rest: Seq<u8>,
    state: State,
    no_backslash_escape: bool,
    pieces: Seq<Seq<u8>>,
    at: int,
)
    requires
        placeholders(rest, state, no_backslash_escape, at).len() <= pieces.len(),
        forall|k: int| 0 <= k < pieces.len() ==> is_token(#[trigger] pieces[k], no_backslash_escape),
    ensures
        ({
            let out = rendered(rest, state, no_backslash_escape, pieces);
            if rest.len() == 0 {
                out.len() == 0
            } else if starts_placeholder(rest, state) {
                &&& out.len() > 0
                &&& is_plain(out[0]) || out[0] == SINGLE_QUOTE || (out[0] == DASH && out.len() > 1
                    && is_plain(out[1]))
            } else {
                out.len() > 0 && out[0] == rest[0]
            }
        }),
{
    if rest.len() > 0 && starts_placeholder(rest, state) {
        assert(is_token(pieces[0], no_backslash_escape));
        if is_word_bytes(pieces[0]) && pieces[0][0] == DASH {
            assert(is_plain(pieces[0][1]));
        }
    }
}

/// Filling placeholders with tokens changes nothing about how the rest of the statement reads:
/// the outcome holds no placeholder, and the lexer reaches its end in the state in which it
/// reaches the end of the statement.
pub proof fn law_filled_reads_alike(
    text: Seq<u8>,
    no_backslash_escape: bool,
    pieces: Seq<Seq<u8>>,
)
    requires
        statement_placeholders(text, no_backslash_escape).len() <= pieces.len(),
        forall|k: int| 0 <= k < pieces.len() ==> is_token(#[trigger] pieces[k], no_backslash_escape),
    ensures
        ({
            let out = filled(
                text,
                statement_placeholders(text, no_backslash_escape),
                pieces,
                0,
            );
            &&& statement_placeholders(out, no_backslash_escape) == Seq::<int>::empty()
            &&& end_state(out, State::Normal, no_backslash_escape) == end_state(
                text,
                State::Normal,
                no_backslash_escape,
            )
        }),
{
    assert(text.skip(0) =~= text);
    lemma_rendered_is_filled(text, State::Normal, no_backslash_escape, pieces, 0, 0);
    lemma_rendered_reads_alike(text, State::Normal, no_backslash_escape, pieces, 0, 0);
    let out = rendered(text, State::Normal, no_backslash_escape, pieces);
    assert(text.subrange(0, 0) + out =~= out);
    assert(statement_placeholders(out, no_backslash_escape) =~= Seq::<int>::empty());
}

} // verus!
