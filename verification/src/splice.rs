//! Putting literals in the place of placeholders.
use crate::error::Error;
use crate::filling::{is_filling, law_filling_keeps_every_other_byte, law_placeholders_ascend};
use crate::lexer::{
    end_state, find_placeholders, placeholders, positions, statement_placeholders, State,
    QUESTION_MARK,
};
use crate::lexer_laws::law_placeholders_are_question_marks;
use crate::literal::law_literal_is_token;
use crate::neutral::{is_token, law_filled_reads_alike};
use crate::utf8_concat::lemma_encode_concat;
use crate::value::{is_literal_of, sql_literal, SqlValue, Value};
use vstd::prelude::*;
use vstd::string::*;
use vstd::utf8::{
    encode_utf8, encode_utf8_valid_utf8, is_char_boundary,
    is_char_boundary_iff_not_is_continuation_byte,
};

verus! {

/// What values hold, one by one.
pub open spec fn contents(values: Seq<Value>) -> Seq<SqlValue> {
    Seq::new(values.len(), |k: int| values[k]@)
}

/// The bytes of the literals that stand for values.
pub open spec fn literals(values: Seq<SqlValue>, no_backslash_escape: bool) -> Seq<Seq<u8>> {
    Seq::new(values.len(), |k: int| encode_utf8(sql_literal(values[k], no_backslash_escape)))
}

/// The text from position `from` on, with the single byte at each of the ascending positions
/// `holes` replaced by the matching one of `pieces`.
pub open spec fn filled(text: Seq<u8>, holes: Seq<int>, pieces: Seq<Seq<u8>>, from: int) -> Seq<u8>
    decreases holes.len(),
{
    if holes.len() == 0 {
        text.skip(from)
    } else {
        text.subrange(from, holes[0]) + pieces[0] + filled(
            text,
            holes.drop_first(),
            pieces.drop_first(),
            holes[0] + 1,
        )
    }
}

/// What splicing gives: the statement with its placeholders filled in order, or an error where
/// their number is not that of the values.
pub open spec fn spliced(
    sql: Seq<char>,
    values: Seq<SqlValue>,
    no_backslash_escape: bool,
) -> Result<Seq<u8>, Error> {
    let text = encode_utf8(sql);
    let holes = statement_placeholders(text, no_backslash_escape);
    if holes.len() > values.len() {
        Err(Error::MorePlaceholders { bound: values.len() as usize })
    } else if holes.len() < values.len() {
        Err(
            Error::FewerPlaceholders {
                bound: values.len() as usize,
                placeholders: holes.len() as usize,
            },
        )
    } else {
        Ok(filled(text, holes, literals(values, no_backslash_escape), 0))
    }
}

/// An outcome, with its text taken as UTF-8.
pub open spec fn utf8_outcome(res: Result<String, Error>) -> Result<Seq<u8>, Error> {
    match res {
        Ok(text) => Ok(encode_utf8(text@)),
        Err(e) => Err(e),
    }
}

/// Whether the statement `out` reads as the statement `sql` does, once its placeholders are
/// filled: it has none, and the lexer reaches the end of both in the same state.
pub open spec fn reads_alike(out: Seq<char>, sql: Seq<char>, no_backslash_escape: bool) -> bool {
    &&& statement_placeholders(encode_utf8(out), no_backslash_escape) == Seq::<int>::empty()
    &&& end_state(encode_utf8(out), State::Normal, no_backslash_escape) == end_state(
        encode_utf8(sql),
        State::Normal,
        no_backslash_escape,
    )
}

/// Whether the text that stands for each value is a literal of it.
pub open spec fn are_literals(values: Seq<SqlValue>, no_backslash_escape: bool) -> bool {
    forall|k: int|
        0 <= k < values.len() ==> is_literal_of(
            #[trigger] values[k],
            no_backslash_escape,
            sql_literal(values[k], no_backslash_escape),
        )
}

/// Whether the values that have a placeholder of `sql` to go to can be written as literals.
pub open spec fn are_renderable(
    sql: Seq<char>,
    values: Seq<SqlValue>,
    no_backslash_escape: bool,
) -> bool {
    forall|k: int|
        0 <= k < values.len() && k < statement_placeholders(
            encode_utf8(sql),
            no_backslash_escape,
        ).len() ==> (#[trigger] values[k]).renderable()
}

/// A question mark is a character of its own, so a text can be cut in front of it.
proof fn lemma_boundary_at_mark(text: Seq<char>, i: int)
    requires
        0 <= i < encode_utf8(text).len(),
        encode_utf8(text)[i] == QUESTION_MARK,
    ensures
        is_char_boundary(encode_utf8(text), i),
{
    encode_utf8_valid_utf8(text);
    is_char_boundary_iff_not_is_continuation_byte(encode_utf8(text), i);
}

/// A question mark is a character of its own, so a text that starts with one can be cut after it.
proof fn lemma_boundary_after_mark(text: Seq<char>)
    requires
        encode_utf8(text).len() > 0,
        encode_utf8(text)[0] == QUESTION_MARK,
    ensures
        is_char_boundary(encode_utf8(text), 1),
{
    encode_utf8_valid_utf8(text);
    reveal_with_fuel(is_char_boundary, 2);
}

/// Whether `holes` are positions of question marks of `text`, in ascending order.
pub open spec fn are_marks(text: Seq<u8>, holes: Seq<int>) -> bool {
    &&& forall|k: int|
        #![trigger holes[k]]
        0 <= k < holes.len() ==> 0 <= holes[k] < text.len() && text[holes[k]] == QUESTION_MARK
    &&& forall|j: int, k: int|
        #![trigger holes[j], holes[k]]
        0 <= j < k < holes.len() ==> holes[j] < holes[k]
}

/// The bytes of texts, one by one.
pub open spec fn encodings(texts: Seq<String>) -> Seq<Seq<u8>> {
    Seq::new(texts.len(), |k: int| encode_utf8(texts[k]@))
}

/// Replaces the question mark at each of the positions `holes` by the matching one of `literals`.
pub fn fill(sql: &str, holes: &[usize], literals: &[String]) -> (out: String)
    requires
        are_marks(encode_utf8(sql@), positions(holes@)),
        holes@.len() == literals@.len(),
    ensures
        encode_utf8(out@) == filled(
            encode_utf8(sql@),
            positions(holes@),
            encodings(literals@),
            0,
        ),
        is_filling(
            encode_utf8(sql@),
            Seq::new(holes@.len(), |k: int| holes@[k] as int),
            Seq::new(literals@.len(), |k: int| encode_utf8(literals@[k]@)),
            encode_utf8(out@),
        ),
{
    let ghost text = encode_utf8(sql@);
    let ghost marks = positions(holes@);
    let ghost pieces = encodings(literals@);
    let _size: usize = sql.as_bytes().len();
    let mut out: String = String::new();
    // What of the statement has not been written out yet, and where it starts.
    let mut tail: &str = sql;
    let mut seg_start: usize = 0;
    let mut k: usize = 0;
    assert(text.skip(0) =~= text);
    assert(marks.skip(0) =~= marks);
    assert(pieces.skip(0) =~= pieces);
    while k < holes.len()
        invariant
            text == encode_utf8(sql@),
            text.len() == _size,
            marks == positions(holes@),
            pieces == encodings(literals@),
            are_marks(text, marks),
            holes@.len() == literals@.len(),
            k <= holes@.len(),
            k < holes@.len() ==> seg_start <= holes@[k as int],
            seg_start <= text.len(),
            tail.spec_bytes() == text.skip(seg_start as int),
            encode_utf8(out@) + filled(
                text,
                marks.skip(k as int),
                pieces.skip(k as int),
                seg_start as int,
            ) == filled(text, marks, pieces, 0),
        decreases holes@.len() - k,
    {
        let i: usize = holes[k];
        assert(marks[k as int] == i);
        proof {
            lemma_boundary_at_mark(tail@, (i - seg_start) as int);
        }
        let (segment, from_mark) = tail.split_at(i - seg_start);
        proof {
            lemma_boundary_after_mark(from_mark@);
        }
        let (_, after) = from_mark.split_at(1);
        let ghost before = out@;
        out.append(segment);
        out.append(literals[k].as_str());
        tail = after;
        proof {
            let left = marks.skip(k as int);
            let literals_left = pieces.skip(k as int);
            assert(left.drop_first() =~= marks.skip(k + 1));
            assert(literals_left.drop_first() =~= pieces.skip(k + 1));
            assert(segment.spec_bytes() =~= text.subrange(seg_start as int, i as int));
            assert(after.spec_bytes() =~= text.skip(i + 1));
            lemma_encode_concat(before, segment@);
            lemma_encode_concat(before + segment@, literals@[k as int]@);
            let later = filled(text, left.drop_first(), literals_left.drop_first(), i + 1);
            assert(encode_utf8(out@) + later =~= encode_utf8(before) + (segment.spec_bytes()
                + pieces[k as int] + later));
            if k + 1 < holes@.len() {
                assert(marks[k + 1] == holes@[k + 1]);
            }
        }
        seg_start = i + 1;
        k += 1;
    }
    proof {
        lemma_encode_concat(out@, tail@);
        assert(marks =~= Seq::new(holes@.len(), |k: int| holes@[k] as int));
        assert(pieces =~= Seq::new(literals@.len(), |k: int| encode_utf8(literals@[k]@)));
        law_filling_keeps_every_other_byte(text, marks, pieces);
    }
    out.append(tail);
    out
}

/// Replaces each placeholder of `sql` by the literal of the value that is bound to it.
pub fn splice(sql: &str, values: &[Value], no_backslash_escape: bool) -> (res: Result<
    String,
    Error,
>)
    requires
        are_renderable(sql@, contents(values@), no_backslash_escape),
    ensures
        utf8_outcome(res) == spliced(sql@, contents(values@), no_backslash_escape),
        res matches Ok(out) ==> are_literals(contents(values@), no_backslash_escape) && reads_alike(
            out@,
            sql@,
            no_backslash_escape,
        ),
        // The statement is accepted exactly if every placeholder has a value and every value a
        // placeholder.
        res is Ok <==> placeholders(
            encode_utf8(sql@),
            State::Normal,
            no_backslash_escape,
            0,
        ).len() == values@.len(),
        placeholders(encode_utf8(sql@), State::Normal, no_backslash_escape, 0).len() > values@.len()
            ==> res == Err::<String, Error>(
            (Error::MorePlaceholders { bound: values@.len() as usize }),
        ),
        placeholders(encode_utf8(sql@), State::Normal, no_backslash_escape, 0).len() < values@.len()
            ==> res == Err::<String, Error>(
            (Error::FewerPlaceholders {
                bound: values@.len() as usize,
                placeholders: placeholders(
                    encode_utf8(sql@),
                    State::Normal,
                    no_backslash_escape,
                    0,
                ).len() as usize,
            }),
        ),
        // The literal at placeholder `k` is that of value `k`, and all else is kept.
        res matches Ok(out) ==> is_filling(
            encode_utf8(sql@),
            placeholders(encode_utf8(sql@), State::Normal, no_backslash_escape, 0),
            Seq::new(
                values@.len(),
                |k: int| encode_utf8(sql_literal(values@[k]@, no_backslash_escape)),
            ),
            encode_utf8(out@),
        ),
{
    let ghost text = encode_utf8(sql@);
    let holes: Vec<usize> = find_placeholders(sql, no_backslash_escape);
    if holes.len() > values.len() {
        return Err(Error::MorePlaceholders { bound: values.len() });
    }
    if holes.len() < values.len() {
        return Err(
            Error::FewerPlaceholders { bound: values.len(), placeholders: holes.len() },
        );
    }
    let mut texts: Vec<String> = Vec::new();
    let mut k: usize = 0;
    while k < values.len()
        invariant
            k <= values@.len(),
            values@.len() == statement_placeholders(
                encode_utf8(sql@),
                no_backslash_escape,
            ).len(),
            are_renderable(sql@, contents(values@), no_backslash_escape),
            are_literals(contents(values@).take(k as int), no_backslash_escape),
            texts@.len() == k,
            forall|j: int|
                0 <= j < k ==> (#[trigger] texts@[j])@ == sql_literal(
                    values@[j]@,
                    no_backslash_escape,
                ),
        decreases values@.len() - k,
    {
        assert(contents(values@)[k as int].renderable());
        texts.push(values[k].as_sql(no_backslash_escape));
        assert(contents(values@).take(k + 1) =~= contents(values@).take(k as int).push(
            values@[k as int]@,
        ));
        k += 1;
    }
    proof {
        law_placeholders_are_question_marks(text, State::Normal, no_backslash_escape, 0);
        let pieces = literals(contents(values@), no_backslash_escape);
        assert(encodings(texts@) =~= pieces);
        assert(contents(values@).take(k as int) =~= contents(values@));
        assert forall|j: int| 0 <= j < pieces.len() implies is_token(
            #[trigger] pieces[j],
            no_backslash_escape,
        ) by {
            law_literal_is_token(
                contents(values@)[j],
                no_backslash_escape,
                sql_literal(contents(values@)[j], no_backslash_escape),
            );
        }
        law_filled_reads_alike(text, no_backslash_escape, pieces);
        assert(pieces =~= Seq::new(
            values@.len(),
            |k: int| encode_utf8(sql_literal(values@[k]@, no_backslash_escape)),
        ));
        law_placeholders_ascend(text, no_backslash_escape);
        law_filling_keeps_every_other_byte(
            text,
            placeholders(text, State::Normal, no_backslash_escape, 0),
            pieces,
        );
    }
    Ok(fill(sql, holes.as_slice(), texts.as_slice()))
}

/// Splicing gives an outcome exactly if there are as many values as placeholders; then the literal of
/// each value stands at its own placeholder and every other byte is kept. Elsewhere the error counts
/// the values, and the placeholders where they are the fewer.
pub proof fn law_values_stand_at_their_placeholders(
    sql: Seq<char>,
    values: Seq<SqlValue>,
    no_backslash_escape: bool,
)
    ensures
        ({
            let text = encode_utf8(sql);
            let holes = placeholders(text, State::Normal, no_backslash_escape, 0);
            let pieces = Seq::new(
                values.len(),
                |k: int| encode_utf8(sql_literal(values[k], no_backslash_escape)),
            );
            match spliced(sql, values, no_backslash_escape) {
                Ok(out) => holes.len() == values.len() && is_filling(text, holes, pieces, out),
                Err(e) => if holes.len() > values.len() {
                    e == (Error::MorePlaceholders { bound: values.len() as usize })
                } else {
                    holes.len() < values.len() && e == (Error::FewerPlaceholders {
                        bound: values.len() as usize,
                        placeholders: holes.len() as usize,
                    })
                },
            }
        }),
{
    let text = encode_utf8(sql);
    let holes = placeholders(text, State::Normal, no_backslash_escape, 0);
    if holes.len() == values.len() {
        let pieces = literals(values, no_backslash_escape);
        assert(pieces =~= Seq::new(
            values.len(),
            |k: int| encode_utf8(sql_literal(values[k], no_backslash_escape)),
        ));
        law_placeholders_ascend(text, no_backslash_escape);
        law_filling_keeps_every_other_byte(text, holes, pieces);
    }
}

/// Every value can be written but a time whose hours, with its days counted in, do not fit in 32
/// bits; values that have no placeholder to go to need not be written.
pub proof fn law_only_overlong_times_cannot_be_written(
    sql: Seq<char>,
    values: Seq<SqlValue>,
    no_backslash_escape: bool,
)
    requires
        forall|k: int|
            #![trigger values[k]]
            0 <= k < values.len() && k < placeholders(
                encode_utf8(sql),
                State::Normal,
                no_backslash_escape,
                0,
            ).len() ==> match values[k] {
                SqlValue::Time(_, days, hours, _, _, _) => days * 24 + hours <= 0xffff_ffff,
                _ => true,
            },
    ensures
        are_renderable(sql, values, no_backslash_escape),
{
}

/// A statement without placeholders is left as it is. What splicing gives is such a statement, so
/// splicing no values into it changes nothing.
pub proof fn law_no_placeholders_no_change(sql: Seq<char>, no_backslash_escape: bool)
    requires
        statement_placeholders(encode_utf8(sql), no_backslash_escape).len() == 0,
    ensures
        spliced(sql, seq![], no_backslash_escape) == Ok::<Seq<u8>, Error>(encode_utf8(sql)),
{
    assert(encode_utf8(sql).skip(0) =~= encode_utf8(sql));
}

} // verus!
