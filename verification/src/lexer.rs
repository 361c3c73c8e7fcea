//! Telling real placeholders from the question marks inside literals and comments.
use vstd::prelude::*;
use vstd::utf8::encode_utf8;

verus! {

pub const DOUBLE_QUOTE: u8 = 0x22;

pub const HASH: u8 = 0x23;

pub const SINGLE_QUOTE: u8 = 0x27;

pub const STAR: u8 = 0x2a;

pub const DASH: u8 = 0x2d;

pub const SLASH: u8 = 0x2f;

pub const QUESTION_MARK: u8 = 0x3f;

pub const BACKSLASH: u8 = 0x5c;

pub const BACKTICK: u8 = 0x60;

pub const BANG: u8 = 0x21;

pub const NEWLINE: u8 = 0x0a;

/// Where in a statement the lexer stands.
#[derive(Debug, Clone, Copy)]
pub enum State {
    Normal,
    /// Inside a `'…'`, `"…"` or `` `…` `` literal; the field is the opening byte.
    Quoted(u8),
    LineComment,
    BlockComment,
}

/// A byte that opens a string literal or a quoted identifier.
pub open spec fn is_quote(b: u8) -> bool {
    b == SINGLE_QUOTE || b == DOUBLE_QUOTE || b == BACKTICK
}

/// ASCII whitespace, or an ASCII control character.
pub open spec fn is_space_or_control(b: u8) -> bool {
    b <= 0x20 || b == 0x7f
}

/// Whether `rest` starts with the two bytes `a` and `b`.
pub open spec fn starts_with_pair(rest: Seq<u8>, a: u8, b: u8) -> bool {
    rest.len() >= 2 && rest[0] == a && rest[1] == b
}

/// Whether `rest` starts with a `--` that opens a comment: it is followed by whitespace, by a
/// control character or by nothing. Any other `--` is two minus signs.
pub open spec fn starts_dash_comment(rest: Seq<u8>) -> bool {
    starts_with_pair(rest, DASH, DASH) && (rest.len() == 2 || is_space_or_control(rest[2]))
}

/// Whether `rest` starts with a placeholder.
pub open spec fn starts_placeholder(rest: Seq<u8>, state: State) -> bool {
    state is Normal && rest.len() > 0 && rest[0] == QUESTION_MARK
}

/// One step of the lexer over the text `rest` that is still ahead, which is not empty: the state
/// that it comes to, and how many bytes it passes over.
pub open spec fn step(rest: Seq<u8>, state: State, no_backslash_escape: bool) -> (State, int) {
    match state {
        State::Normal => if is_quote(rest[0]) {
            (State::Quoted(rest[0]), 1)
        } else if starts_dash_comment(rest) {
            (State::LineComment, 2)
        } else if rest[0] == HASH {
            (State::LineComment, 1)
        } else if starts_with_pair(rest, SLASH, STAR) {
            // The inside of a `/*! … */` comment is executed, so it is read as statement text.
            if rest.len() > 2 && rest[2] == BANG {
                (State::Normal, 3)
            } else {
                (State::BlockComment, 2)
            }
        } else {
            (State::Normal, 1)
        },
        State::Quoted(q) => if rest[0] == BACKSLASH && !no_backslash_escape && q != BACKTICK
            && rest.len() > 1 {
            (state, 2)
        } else if starts_with_pair(rest, q, q) {
            (state, 2)
        } else if rest[0] == q {
            (State::Normal, 1)
        } else {
            (state, 1)
        },
        State::LineComment => if rest[0] == NEWLINE {
            (State::Normal, 1)
        } else {
            (state, 1)
        },
        State::BlockComment => if starts_with_pair(rest, STAR, SLASH) {
            (State::Normal, 2)
        } else {
            (state, 1)
        },
    }
}

/// The positions of the placeholders in the text `rest` that is still ahead, where its first byte
/// has position `at`.
pub open spec fn placeholders(
    rest: Seq<u8>,
    state: State,
    no_backslash_escape: bool,
    at: int,
) -> Seq<int>
    decreases rest.len(),
{
    if rest.len() == 0 {
        seq![]
    } else if starts_placeholder(rest, state) {
        seq![at] + placeholders(rest.skip(1), state, no_backslash_escape, at + 1)
    } else {
        let (next, width) = step(rest, state, no_backslash_escape);
        placeholders(rest.skip(width), next, no_backslash_escape, at + width)
    }
}

/// The state in which the lexer reaches the end of the text `rest` that is still ahead.
pub open spec fn end_state(rest: Seq<u8>, state: State, no_backslash_escape: bool) -> State
    decreases rest.len(),
{
    if rest.len() == 0 {
        state
    } else {
        let (next, width) = step(rest, state, no_backslash_escape);
        end_state(rest.skip(width), next, no_backslash_escape)
    }
}

/// The positions of the placeholders of a whole statement.
pub open spec fn statement_placeholders(text: Seq<u8>, no_backslash_escape: bool) -> Seq<int> {
    placeholders(text, State::Normal, no_backslash_escape, 0)
}

/// One step of the lexer from position `i`: the state that it comes to, and how many bytes it
/// passes over.
fn advance(bytes: &[u8], i: usize, state: State, no_backslash_escape: bool) -> (res: (
    State,
    usize,
))
    requires
        i < bytes@.len(),
    ensures
        res.0 == step(bytes@.skip(i as int), state, no_backslash_escape).0,
        res.1 == step(bytes@.skip(i as int), state, no_backslash_escape).1,
        1 <= res.1 <= bytes@.len() - i,
{
    let b: u8 = bytes[i];
    let more: bool = i + 1 < bytes.len();
    match state {
        State::Normal => match b {
            SINGLE_QUOTE | DOUBLE_QUOTE | BACKTICK => (State::Quoted(b), 1),
            DASH if more && bytes[i + 1] == DASH && (i + 2 == bytes.len()
                || bytes[i + 2] <= 0x20 || bytes[i + 2] == 0x7f) => (State::LineComment, 2),
            HASH => (State::LineComment, 1),
            SLASH if more && bytes[i + 1] == STAR => {
                if i + 2 < bytes.len() && bytes[i + 2] == BANG {
                    (State::Normal, 3)
                } else {
                    (State::BlockComment, 2)
                }
            },
            _ => (State::Normal, 1),
        },
        State::Quoted(q) => {
            if b == BACKSLASH && !no_backslash_escape && q != BACKTICK && more {
                (state, 2)
            } else if b == q {
                if more && bytes[i + 1] == q {
                    (state, 2)
                } else {
                    (State::Normal, 1)
                }
            } else {
                (state, 1)
            }
        },
        State::LineComment => {
            if b == NEWLINE {
                (State::Normal, 1)
            } else {
                (state, 1)
            }
        },
        State::BlockComment => {
            if b == STAR && more && bytes[i + 1] == SLASH {
                (State::Normal, 2)
            } else {
                (state, 1)
            }
        },
    }
}

/// Positions as mathematical integers.
pub open spec fn positions(holes: Seq<usize>) -> Seq<int> {
    Seq::new(holes.len(), |k: int| holes[k] as int)
}

/// Walks `sql` byte by byte and returns the position of each placeholder.
pub fn find_placeholders(sql: &str, no_backslash_escape: bool) -> (holes: Vec<usize>)
    ensures
        positions(holes@) == statement_placeholders(encode_utf8(sql@), no_backslash_escape),
        holes@.len() == placeholders(encode_utf8(sql@), State::Normal, no_backslash_escape, 0).len(),
        forall|k: int|
            #![trigger holes@[k]]
            0 <= k < holes@.len() ==> holes@[k] as int == placeholders(
                encode_utf8(sql@),
                State::Normal,
                no_backslash_escape,
                0,
            )[k],
{
    let bytes: &[u8] = sql.as_bytes();
    let mut holes: Vec<usize> = Vec::new();
    let mut state: State = State::Normal;
    let mut i: usize = 0;
    assert(bytes@.skip(0) =~= bytes@);
    assert(positions(holes@) + statement_placeholders(bytes@, no_backslash_escape)
        =~= statement_placeholders(bytes@, no_backslash_escape));
    while i < bytes.len()
        invariant
            i <= bytes@.len(),
            positions(holes@) + placeholders(
                bytes@.skip(i as int),
                state,
                no_backslash_escape,
                i as int,
            ) == statement_placeholders(bytes@, no_backslash_escape),
        decreases bytes@.len() - i,
    {
        let ghost before = positions(holes@);
        if matches!(state, State::Normal) && bytes[i] == QUESTION_MARK {
            holes.push(i);
            proof {
                let later = placeholders(
                    bytes@.skip(i + 1),
                    state,
                    no_backslash_escape,
                    i + 1,
                );
                assert(bytes@.skip(i as int).skip(1) =~= bytes@.skip(i + 1));
                assert(positions(holes@) + later =~= before + (seq![i as int] + later));
            }
            i += 1;
        } else {
            let (next, width) = advance(bytes, i, state, no_backslash_escape);
            assert(bytes@.skip(i as int).skip(width as int) =~= bytes@.skip(i + width));
            state = next;
            i += width;
        }
    }
    assert(positions(holes@) =~= positions(holes@) + Seq::<int>::empty());
    assert forall|k: int| #![trigger holes@[k]] 0 <= k < holes@.len() implies holes@[k] as int
        == placeholders(bytes@, State::Normal, no_backslash_escape, 0)[k] by {
        assert(positions(holes@)[k] == holes@[k]);
    }
    holes
}

} // verus!
