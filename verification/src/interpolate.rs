//! From a statement and its bound arguments to a statement on its own.
use crate::arguments::MySqlArguments;
use crate::decode::{decode_arguments, decoded};
use crate::encode::{
    are_bound, are_encodings, law_arguments_round_trip, law_bound_arguments_round_trip,
};
use crate::error::Error;
use crate::filling::is_filling;
use crate::lexer::{placeholders, State};
use crate::splice::{
    are_literals, are_renderable, law_values_stand_at_their_placeholders, reads_alike, splice,
    spliced, utf8_outcome,
};
use crate::value::{sql_literal, SqlValue, Value};
use vstd::prelude::*;
use vstd::utf8::encode_utf8;

verus! {

/// What interpolation gives: the statement with the decoded arguments spliced in, or the first
/// error on the way.
pub open spec fn interpolated(
    sql: Seq<char>,
    arguments: MySqlArguments,
    no_backslash_escape: bool,
) -> Result<Seq<u8>, Error> {
    match decoded(arguments) {
        Ok(values) => spliced(sql, values, no_backslash_escape),
        Err(e) => Err(e),
    }
}

/// Interpolates `arguments` into `sql` and returns the resulting statement.
///
/// `no_backslash_escape` should reflect the connection's current
/// `SERVER_STATUS_NO_BACKSLASH_ESCAPES` status flag.
pub fn interpolate(sql: &str, arguments: &MySqlArguments, no_backslash_escape: bool) -> (res:
    Result<String, Error>)
    requires
        decoded(*arguments) matches Ok(values) ==> are_renderable(
            sql@,
            values,
            no_backslash_escape,
        ),
    ensures
        utf8_outcome(res) == interpolated(sql@, *arguments, no_backslash_escape),
        res matches Ok(out) ==> are_literals(decoded(*arguments)->Ok_0, no_backslash_escape)
            && reads_alike(out@, sql@, no_backslash_escape),
        // Arguments that cannot be decoded are refused with the error of decoding.
        decoded(*arguments) matches Err(e) ==> res == Err::<String, Error>(e),
        // The statement is accepted exactly if every placeholder has a parameter and every
        // parameter a placeholder.
        decoded(*arguments) is Ok ==> (res is Ok <==> placeholders(
            encode_utf8(sql@),
            State::Normal,
            no_backslash_escape,
            0,
        ).len() == arguments.types@.len()),
        decoded(*arguments) is Ok && placeholders(
            encode_utf8(sql@),
            State::Normal,
            no_backslash_escape,
            0,
        ).len() > arguments.types@.len() ==> res == Err::<String, Error>(
            (Error::MorePlaceholders { bound: arguments.types@.len() as usize }),
        ),
        decoded(*arguments) is Ok && placeholders(
            encode_utf8(sql@),
            State::Normal,
            no_backslash_escape,
            0,
        ).len() < arguments.types@.len() ==> res == Err::<String, Error>(
            (Error::FewerPlaceholders {
                bound: arguments.types@.len() as usize,
                placeholders: placeholders(
                    encode_utf8(sql@),
                    State::Normal,
                    no_backslash_escape,
                    0,
                ).len() as usize,
            }),
        ),
        // The literal at placeholder `k` is that of parameter `k`, and all else is kept.
        res matches Ok(out) ==> is_filling(
            encode_utf8(sql@),
            placeholders(encode_utf8(sql@), State::Normal, no_backslash_escape, 0),
            Seq::new(
                arguments.types@.len(),
                |k: int|
                    encode_utf8(sql_literal(decoded(*arguments)->Ok_0[k], no_backslash_escape)),
            ),
            encode_utf8(out@),
        ),
{
    let values: Vec<Value> = decode_arguments(arguments)?;
    assert(Seq::new(
        values@.len(),
        |k: int| encode_utf8(sql_literal(values@[k]@, no_backslash_escape)),
    ) =~= Seq::new(
        arguments.types@.len(),
        |k: int| encode_utf8(sql_literal(decoded(*arguments)->Ok_0[k], no_backslash_escape)),
    ));
    splice(sql, values.as_slice(), no_backslash_escape)
}

/// Interpolating bound values splices their literals into the statement, in order.
pub proof fn law_bound_values_are_spliced(
    sql: Seq<char>,
    arguments: MySqlArguments,
    no_backslash_escape: bool,
    values: Seq<SqlValue>,
    chunks: Seq<Seq<u8>>,
)
    requires
        are_encodings(arguments.types@, arguments.null_bitmap@, values, chunks),
        arguments.values@ == chunks.flatten(),
    ensures
        interpolated(sql, arguments, no_backslash_escape) == spliced(
            sql,
            values,
            no_backslash_escape,
        ),
{
    law_arguments_round_trip(arguments, values, chunks);
}

/// Interpolating bound values gives, where there are as many as placeholders, the statement with the
/// literal of each value at its own placeholder and every other byte kept. Elsewhere it is refused.
pub proof fn law_bound_values_stand_at_their_placeholders(
    sql: Seq<char>,
    arguments: MySqlArguments,
    no_backslash_escape: bool,
    nulls: Seq<bool>,
    values: Seq<SqlValue>,
    chunks: Seq<Seq<u8>>,
)
    requires
        are_bound(arguments, nulls, values, chunks),
    ensures
        ({
            let text = encode_utf8(sql);
            let holes = placeholders(text, State::Normal, no_backslash_escape, 0);
            let pieces = Seq::new(
                values.len(),
                |k: int| encode_utf8(sql_literal(values[k], no_backslash_escape)),
            );
            match interpolated(sql, arguments, no_backslash_escape) {
                Ok(out) => holes.len() == values.len() && is_filling(text, holes, pieces, out),
                Err(e) => if holes.len() > values.len() {
                    e == (Error::MorePlaceholders { bound: values.len() as usize })
                } else {
                    holes.len() < values.len() && e == (Error::FewerPlaceholders {
                        bound: values.len() as usize,
                        placeholders: holes.len() as usize,
                    })
                },
            }
        }),
{
    law_bound_arguments_round_trip(arguments, nulls, values, chunks);
    law_values_stand_at_their_placeholders(sql, values, no_backslash_escape);
}

} // verus!
