//! How the values of all parameters are read one after the other.
use crate::arguments::{bit_set, MySqlArguments, MySqlTypeInfo};
use crate::decode::{decoded, parameters_taken, value_taken};
use crate::error::Error;
use crate::value::SqlValue;
use vstd::prelude::*;

verus! {

/// Whether parameter `i` is read as `value` from the bytes between positions `from` and `to`: a
/// NULL parameter from none, another one from those that its type takes.
pub open spec fn is_read(
    arguments: MySqlArguments,
    i: int,
    from: int,
    to: int,
    value: SqlValue,
) -> bool {
    let buf = arguments.values@;
    &&& 0 <= from <= buf.len()
    &&& 0 <= to <= buf.len()
    &&& if bit_set(arguments.null_bitmap@, i as nat) {
        value is NULL && to == from
    } else {
        value_taken(arguments.types@[i], buf.skip(from)) == (
            Ok::<SqlValue, Error>(value),
            buf.skip(to),
        )
    }
}

/// Whether `values` are read, for the first parameters and in their order, from bytes that follow
/// each other without a gap and are cut at the positions `cuts`.
pub open spec fn is_walk(arguments: MySqlArguments, cuts: Seq<int>, values: Seq<SqlValue>) -> bool {
    &&& values.len() <= arguments.types@.len()
    &&& cuts.len() == values.len() + 1
    &&& cuts[0] == 0
    &&& 0 <= cuts.last() <= arguments.values@.len()
    &&& forall|i: int|
        #![trigger values[i]]
        0 <= i < values.len() ==> is_read(arguments, i, cuts[i], cuts[i + 1], values[i])
}

proof fn lemma_walk(
    arguments: MySqlArguments,
    cuts: Seq<int>,
    values: Seq<SqlValue>,
    i: int,
)
    requires
        is_walk(arguments, cuts, values),
        0 <= i <= values.len(),
    ensures
        parameters_taken(
            arguments.types@,
            arguments.null_bitmap@,
            i as nat,
            arguments.values@.skip(cuts[i]),
        ) == match parameters_taken(
            arguments.types@,
            arguments.null_bitmap@,
            values.len(),
            arguments.values@.skip(cuts.last()),
        ) {
            Ok((later, left)) => Ok((values.skip(i) + later, left)),
            Err(e) => Err(e),
        },
    decreases values.len() - i,
{
    let types = arguments.types@;
    let bitmap = arguments.null_bitmap@;
    let end = parameters_taken(
        types,
        bitmap,
        values.len(),
        arguments.values@.skip(cuts.last()),
    );
    if i == values.len() {
        if let Ok((later, left)) = end {
            assert(values.skip(i) + later =~= later);
        }
    } else {
        lemma_walk(arguments, cuts, values, i + 1);
        assert(is_read(arguments, i, cuts[i], cuts[i + 1], values[i]));
        if let Ok((later, left)) = end {
            assert(seq![values[i]] + (values.skip(i + 1) + later) =~= values.skip(i) + later);
        }
    }
}

/// Once every parameter has been read, the values that were read come out, each in the place of its
/// parameter, if that has used all bytes. Bytes that are left over are an error that counts them.
pub proof fn law_every_parameter_is_read(
    arguments: MySqlArguments,
    cuts: Seq<int>,
    values: Seq<SqlValue>,
)
    requires
        is_walk(arguments, cuts, values),
        values.len() == arguments.types@.len(),
    ensures
        cuts.last() == arguments.values@.len() ==> decoded(arguments) == Ok::<
            Seq<SqlValue>,
            Error,
        >(values),
        cuts.last() < arguments.values@.len() ==> decoded(arguments) == Err::<
            Seq<SqlValue>,
            Error,
        >(
            (Error::TrailingBytes {
                trailing: (arguments.values@.len() - cuts.last()) as usize,
                parameters: arguments.types@.len() as usize,
            }),
        ),
{
    lemma_walk(arguments, cuts, values, 0);
    assert(arguments.values@.skip(0) =~= arguments.values@);
    assert(values.skip(0) + Seq::<SqlValue>::empty() =~= values);
}

/// The first parameter that cannot be read decides the error.
pub proof fn law_first_unreadable_parameter_decides(
    arguments: MySqlArguments,
    cuts: Seq<int>,
    values: Seq<SqlValue>,
    e: Error,
)
    requires
        is_walk(arguments, cuts, values),
        values.len() < arguments.types@.len(),
        !bit_set(arguments.null_bitmap@, values.len()),
        value_taken(
            arguments.types@[values.len() as int],
            arguments.values@.skip(cuts.last()),
        ).0 == Err::<SqlValue, Error>(e),
    ensures
        decoded(arguments) == Err::<Seq<SqlValue>, Error>(e),
{
    lemma_walk(arguments, cuts, values, 0);
    assert(arguments.values@.skip(0) =~= arguments.values@);
}

proof fn lemma_values_of_parameters(
    types: Seq<MySqlTypeInfo>,
    null_bitmap: Seq<u8>,
    i: nat,
    buf: Seq<u8>,
)
    requires
        i <= types.len(),
    ensures
        parameters_taken(types, null_bitmap, i, buf) matches Ok((values, left)) ==> values.len()
            == types.len() - i && forall|k: int|
            #![trigger values[k]]
            0 <= k < values.len() && bit_set(null_bitmap, (i + k) as nat) ==> values[k] is NULL,
    decreases types.len() - i,
{
    if i < types.len() {
        let (res, rest) = if bit_set(null_bitmap, i) {
            (Ok(SqlValue::NULL), buf)
        } else {
            value_taken(types[i as int], buf)
        };
        lemma_values_of_parameters(types, null_bitmap, i + 1, rest);
        if let Ok((values, left)) = parameters_taken(types, null_bitmap, i, buf) {
            let later = parameters_taken(types, null_bitmap, i + 1, rest)->Ok_0.0;
            assert forall|k: int|
                #![trigger values[k]]
                0 <= k < values.len() && bit_set(
                    null_bitmap,
                    (i + k) as nat,
                ) implies values[k] is NULL by {
                if k > 0 {
                    assert(values[k] == later[k - 1]);
                    assert(bit_set(null_bitmap, (i + 1 + (k - 1)) as nat));
                }
            }
        }
    }
}

/// There are as many values as parameters, and a parameter whose bit is set is NULL.
pub proof fn law_one_value_for_each_parameter(arguments: MySqlArguments, i: nat)
    ensures
        decoded(arguments) matches Ok(values) ==> values.len() == arguments.types@.len() && (i
            < values.len() && bit_set(arguments.null_bitmap@, i) ==> values[i as int] is NULL),
{
    lemma_values_of_parameters(
        arguments.types@,
        arguments.null_bitmap@,
        0,
        arguments.values@,
    );
}

} // verus!
