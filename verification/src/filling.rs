//! Where each byte of a filled statement comes from.
use crate::lexer::{placeholders, State};
use crate::lexer_laws::law_placeholders_are_question_marks;
use crate::splice::filled;
use vstd::prelude::*;

verus! {

/// By how many bytes the first `k` pieces are longer than the single bytes that they replace.
pub open spec fn growth(pieces: Seq<Seq<u8>>, k: int) -> int
    decreases k,
{
    if k <= 0 {
        0
    } else {
        growth(pieces, k - 1) + pieces[k - 1].len() - 1
    }
}

/// Whether piece `k` stands in `out` where hole `k` was, moved by what the pieces before it have
/// grown by.
pub open spec fn piece_stands(
    holes: Seq<int>,
    pieces: Seq<Seq<u8>>,
    out: Seq<u8>,
    k: int,
) -> bool {
    let start = holes[k] + growth(pieces, k);
    &&& 0 <= start
    &&& start + pieces[k].len() <= out.len()
    &&& out.subrange(start, start + pieces[k].len()) == pieces[k]
}

/// Whether position `p` is no hole, and the holes in front of it are the first `k`.
pub open spec fn lies_behind(holes: Seq<int>, p: int, k: int) -> bool {
    &&& 0 <= k <= holes.len()
    &&& k > 0 ==> holes[k - 1] < p
    &&& k < holes.len() ==> p < holes[k]
}

/// Whether the byte at position `p` of `text`, which has `k` holes in front of it, stands in `out`
/// where it was, moved by what the pieces before it have grown by.
pub open spec fn byte_stands(
    text: Seq<u8>,
    pieces: Seq<Seq<u8>>,
    out: Seq<u8>,
    p: int,
    k: int,
) -> bool {
    let q = p + growth(pieces, k);
    0 <= q < out.len() && out[q] == text[p]
}

/// Whether `out` is `text` with the single byte at each of `holes` replaced by the piece of the
/// same number, told by positions: every piece stands where its own hole was, every byte that is no
/// hole is kept, and there is nothing else.
pub open spec fn is_filling(
    text: Seq<u8>,
    holes: Seq<int>,
    pieces: Seq<Seq<u8>>,
    out: Seq<u8>,
) -> bool {
    &&& pieces.len() == holes.len()
    &&& out.len() == text.len() + growth(pieces, holes.len() as int)
    &&& forall|k: int| 0 <= k < holes.len() ==> #[trigger] piece_stands(holes, pieces, out, k)
    &&& forall|p: int, k: int|
        0 <= p < text.len() && #[trigger] lies_behind(holes, p, k) ==> byte_stands(
            text,
            pieces,
            out,
            p,
            k,
        )
}

/// Ascending positions of a text.
pub open spec fn are_ascending(holes: Seq<int>, from: int, to: int) -> bool {
    &&& forall|k: int| #![trigger holes[k]] 0 <= k < holes.len() ==> from <= holes[k] < to
    &&& forall|j: int, k: int|
        #![trigger holes[j], holes[k]]
        0 <= j < k < holes.len() ==> holes[j] < holes[k]
}

proof fn lemma_growth_of_later(pieces: Seq<Seq<u8>>, k: int)
    requires
        0 <= k < pieces.len(),
    ensures
        growth(pieces.drop_first(), k) == growth(pieces, k + 1) - (pieces[0].len() - 1),
    decreases k,
{
    reveal_with_fuel(growth, 2);
    if k > 0 {
        lemma_growth_of_later(pieces, k - 1);
        assert(pieces.drop_first()[k - 1] == pieces[k]);
    }
}

/// Behind the first of ascending positions the others ascend too.
proof fn lemma_later_ascend(holes: Seq<int>, from: int, to: int)
    requires
        holes.len() > 0,
        are_ascending(holes, from, to),
    ensures
        are_ascending(holes.drop_first(), holes[0] + 1, to),
{
    let others = holes.drop_first();
    assert forall|k: int| #![trigger others[k]] 0 <= k < others.len() implies holes[0] + 1
        <= others[k] < to by {
        assert(others[k] == holes[k + 1]);
    }
    assert forall|j: int, k: int|
        #![trigger others[j], others[k]]
        0 <= j < k < others.len() implies others[j] < others[k] by {
        assert(others[j] == holes[j + 1] && others[k] == holes[k + 1]);
    }
}

/// How long a text is that was filled from position `from` on.
proof fn lemma_filled_length(text: Seq<u8>, holes: Seq<int>, pieces: Seq<Seq<u8>>, from: int)
    requires
        0 <= from <= text.len(),
        pieces.len() == holes.len(),
        are_ascending(holes, from, text.len() as int),
    ensures
        filled(text, holes, pieces, from).len() == text.len() - from + growth(
            pieces,
            holes.len() as int,
        ),
    decreases holes.len(),
{
    if holes.len() > 0 {
        lemma_later_ascend(holes, from, text.len() as int);
        lemma_filled_length(text, holes.drop_first(), pieces.drop_first(), holes[0] + 1);
        lemma_growth_of_later(pieces, holes.len() - 1);
    }
}

/// Where piece `k` stands in a text that was filled from position `from` on.
proof fn lemma_piece_at(
    text: Seq<u8>,
    holes: Seq<int>,
    pieces: Seq<Seq<u8>>,
    from: int,
    k: int,
)
    requires
        0 <= from <= text.len(),
        pieces.len() == holes.len(),
        are_ascending(holes, from, text.len() as int),
        0 <= k < holes.len(),
    ensures
        ({
            let out = filled(text, holes, pieces, from);
            let start = holes[k] - from + growth(pieces, k);
            &&& 0 <= start
            &&& start + pieces[k].len() <= out.len()
            &&& out.subrange(start, start + pieces[k].len()) == pieces[k]
        }),
    decreases holes.len(),
{
    let out = filled(text, holes, pieces, from);
    let start = holes[k] - from + growth(pieces, k);
    let head = text.subrange(from, holes[0]) + pieces[0];
    let later = filled(text, holes.drop_first(), pieces.drop_first(), holes[0] + 1);
    assert(out == head + later);
    if k == 0 {
        assert(out.subrange(start, start + pieces[0].len()) =~= pieces[0]);
    } else {
        lemma_later_ascend(holes, from, text.len() as int);
        lemma_piece_at(text, holes.drop_first(), pieces.drop_first(), holes[0] + 1, k - 1);
        lemma_growth_of_later(pieces, k - 1);
        assert(out.subrange(start, start + pieces[k].len()) =~= later.subrange(
            start - head.len(),
            start - head.len() + pieces[k].len(),
        ));
    }
}

/// Where the byte at position `p`, which is no hole and has `k` holes in front of it, stands in a
/// text that was filled from position `from` on.
proof fn lemma_byte_at(
    text: Seq<u8>,
    holes: Seq<int>,
    pieces: Seq<Seq<u8>>,
    from: int,
    p: int,
    k: int,
)
    requires
        0 <= from <= p < text.len(),
        pieces.len() == holes.len(),
        are_ascending(holes, from, text.len() as int),
        0 <= k <= holes.len(),
        k > 0 ==> holes[k - 1] < p,
        k < holes.len() ==> p < holes[k],
    ensures
        ({
            let out = filled(text, holes, pieces, from);
            let q = p - from + growth(pieces, k);
            0 <= q < out.len() && out[q] == text[p]
        }),
    decreases holes.len(),
{
    if holes.len() > 0 {
        let out = filled(text, holes, pieces, from);
        let head = text.subrange(from, holes[0]) + pieces[0];
        let later = filled(text, holes.drop_first(), pieces.drop_first(), holes[0] + 1);
        assert(out == head + later);
        if k > 0 {
            lemma_later_ascend(holes, from, text.len() as int);
            if k > 1 {
                assert(holes[0] < holes[k - 1]);
            }
            lemma_byte_at(text, holes.drop_first(), pieces.drop_first(), holes[0] + 1, p, k - 1);
            lemma_growth_of_later(pieces, k - 1);
        }
    }
}

/// Filling puts every piece in the place of its own hole and keeps every other byte.
pub proof fn law_filling_keeps_every_other_byte(
    text: Seq<u8>,
    holes: Seq<int>,
    pieces: Seq<Seq<u8>>,
)
    requires
        pieces.len() == holes.len(),
        are_ascending(holes, 0, text.len() as int),
    ensures
        is_filling(text, holes, pieces, filled(text, holes, pieces, 0)),
{
    let out = filled(text, holes, pieces, 0);
    lemma_filled_length(text, holes, pieces, 0);
    assert forall|k: int| 0 <= k < holes.len() implies #[trigger] piece_stands(
        holes,
        pieces,
        out,
        k,
    ) by {
        lemma_piece_at(text, holes, pieces, 0, k);
    }
    assert forall|p: int, k: int|
        0 <= p < text.len() && #[trigger] lies_behind(holes, p, k) implies byte_stands(
        text,
        pieces,
        out,
        p,
        k,
    ) by {
        lemma_byte_at(text, holes, pieces, 0, p, k);
    }
}

/// Filling every hole with the byte that was there gives the text back.
pub proof fn law_filling_with_what_was_there_changes_nothing(
    text: Seq<u8>,
    holes: Seq<int>,
    pieces: Seq<Seq<u8>>,
)
    requires
        pieces.len() == holes.len(),
        are_ascending(holes, 0, text.len() as int),
        forall|k: int| #![trigger pieces[k]] 0 <= k < holes.len() ==> pieces[k] == seq![text[holes[k]]],
    ensures
        filled(text, holes, pieces, 0) == text,
{
    lemma_refilled_from(text, holes, pieces, 0);
    assert(text.skip(0) =~= text);
}

proof fn lemma_refilled_from(text: Seq<u8>, holes: Seq<int>, pieces: Seq<Seq<u8>>, from: int)
    requires
        0 <= from <= text.len(),
        pieces.len() == holes.len(),
        are_ascending(holes, from, text.len() as int),
        forall|k: int| #![trigger pieces[k]] 0 <= k < holes.len() ==> pieces[k] == seq![text[holes[k]]],
    ensures
        filled(text, holes, pieces, from) == text.skip(from),
    decreases holes.len(),
{
    if holes.len() > 0 {
        let others = holes.drop_first();
        let rest = pieces.drop_first();
        lemma_later_ascend(holes, from, text.len() as int);
        assert forall|k: int| #![trigger rest[k]] 0 <= k < others.len() implies rest[k]
            == seq![text[others[k]]] by {
            assert(rest[k] == pieces[k + 1] && others[k] == holes[k + 1]);
        }
        lemma_refilled_from(text, others, rest, holes[0] + 1);
        assert(pieces[0] == seq![text[holes[0]]]);
        assert(text.subrange(from, holes[0]) + pieces[0] + text.skip(holes[0] + 1) =~= text.skip(
            from,
        ));
    }
}

/// The placeholders of a text are ascending positions in it.
pub proof fn law_placeholders_ascend(text: Seq<u8>, no_backslash_escape: bool)
    ensures
        are_ascending(
            placeholders(text, State::Normal, no_backslash_escape, 0),
            0,
            text.len() as int,
        ),
{
    law_placeholders_are_question_marks(text, State::Normal, no_backslash_escape, 0);
}

} // verus!
