//! Bound arguments, in the form in which a prepared statement would be executed with them.
use vstd::arithmetic::div_mod::lemma_fundamental_div_mod_converse;
use vstd::arithmetic::power2::{lemma2_to64, pow2};
use vstd::prelude::*;

verus! {

/// The type of a parameter.
#[derive(Debug, Clone, Copy, PartialEq, Eq)]
pub enum ColumnType {
    Decimal,
    Tiny,
    Short,
    Long,
    Float,
    Double,
    Null,
    Timestamp,
    LongLong,
    Int24,
    Date,
    Time,
    Datetime,
    Year,
    VarChar,
    Bit,
    Json,
    NewDecimal,
    Enum,
    /// A MySQL `SET`.
    SetOf,
    TinyBlob,
    MediumBlob,
    LongBlob,
    Blob,
    VarString,
    String,
    Geometry,
}

/// The type of a parameter, and whether its `UNSIGNED` flag is set.
#[derive(Debug, Clone, Copy, PartialEq, Eq)]
pub struct MySqlTypeInfo {
    pub ty: ColumnType,
    pub unsigned: bool,
}

/// The arguments bound to a statement, as `COM_STMT_EXECUTE` carries them.
#[derive(Debug)]
pub struct MySqlArguments {
    /// The encoded values that are not NULL, back to back.
    pub values: Vec<u8>,
    /// The type of each parameter.
    pub types: Vec<MySqlTypeInfo>,
    /// One bit per parameter, least significant bit first: whether it is NULL.
    pub null_bitmap: Vec<u8>,
}

impl Default for MySqlArguments {
    /// No arguments.
    fn default() -> (arguments: Self)
        ensures
            arguments.values@ == Seq::<u8>::empty(),
            arguments.types@ == Seq::<MySqlTypeInfo>::empty(),
            arguments.null_bitmap@ == Seq::<u8>::empty(),
    {
        MySqlArguments { values: Vec::new(), types: Vec::new(), null_bitmap: Vec::new() }
    }
}

/// Whether bit `i` of a bitmap is set, where its bytes are filled from the least significant bit.
/// The bits behind its end are not.
pub open spec fn bit_set(bitmap: Seq<u8>, i: nat) -> bool {
    i / 8 < bitmap.len() && (bitmap[(i / 8) as int] >> ((i % 8) as u8)) & 1 == 1
}

/// A bit of a byte is the parity of what is left when the byte is divided by the bit's weight.
proof fn lemma_bit_of_byte(b: u8, k: nat)
    requires
        k < 8,
    ensures
        ((b >> (k as u8)) & 1 == 1) == ((b as nat / pow2(k)) % 2 == 1),
{
    lemma2_to64();
    assert((b >> 0u8) & 1 == (b / 1) % 2) by (bit_vector);
    assert((b >> 1u8) & 1 == (b / 2) % 2) by (bit_vector);
    assert((b >> 2u8) & 1 == (b / 4) % 2) by (bit_vector);
    assert((b >> 3u8) & 1 == (b / 8) % 2) by (bit_vector);
    assert((b >> 4u8) & 1 == (b / 16) % 2) by (bit_vector);
    assert((b >> 5u8) & 1 == (b / 32) % 2) by (bit_vector);
    assert((b >> 6u8) & 1 == (b / 64) % 2) by (bit_vector);
    assert((b >> 7u8) & 1 == (b / 128) % 2) by (bit_vector);
}

/// Bit `i` of a bitmap is the bit of weight `2^(i % 8)` of its byte `i / 8`.
pub proof fn law_bit_by_weight(bitmap: Seq<u8>, i: nat)
    ensures
        bit_set(bitmap, i) == (i / 8 < bitmap.len() && (bitmap[i as int / 8] as nat / pow2(i % 8))
            % 2 == 1),
{
    if i / 8 < bitmap.len() {
        lemma_bit_of_byte(bitmap[i as int / 8], i % 8);
    }
}

/// Dividing drops what is below the divisor.
proof fn lemma_low_part(low: int, high: int, m: int)
    requires
        0 <= low < m,
    ensures
        (low + m * high) / m == high,
        (low + m * high) % m == low,
{
    assert(m * high == high * m) by (nonlinear_arith);
    lemma_fundamental_div_mod_converse(low + m * high, m, high, low);
}

/// The binary digits of a byte.
proof fn lemma_binary_digits(
    d0: int,
    d1: int,
    d2: int,
    d3: int,
    d4: int,
    d5: int,
    d6: int,
    d7: int,
)
    requires
        0 <= d0 <= 1,
        0 <= d1 <= 1,
        0 <= d2 <= 1,
        0 <= d3 <= 1,
        0 <= d4 <= 1,
        0 <= d5 <= 1,
        0 <= d6 <= 1,
        0 <= d7 <= 1,
    ensures
        ({
            let b = d0 + 2 * d1 + 4 * d2 + 8 * d3 + 16 * d4 + 32 * d5 + 64 * d6 + 128 * d7;
            &&& (b / 1) % 2 == d0
            &&& (b / 2) % 2 == d1
            &&& (b / 4) % 2 == d2
            &&& (b / 8) % 2 == d3
            &&& (b / 16) % 2 == d4
            &&& (b / 32) % 2 == d5
            &&& (b / 64) % 2 == d6
            &&& (b / 128) % 2 == d7
        }),
{
    let r6 = d6 + 2 * d7;
    let r5 = d5 + 2 * r6;
    let r4 = d4 + 2 * r5;
    let r3 = d3 + 2 * r4;
    let r2 = d2 + 2 * r3;
    let r1 = d1 + 2 * r2;
    lemma_low_part(d0, r1, 2);
    lemma_low_part(d0 + 2 * d1, r2, 4);
    lemma_low_part(d0 + 2 * d1 + 4 * d2, r3, 8);
    lemma_low_part(d0 + 2 * d1 + 4 * d2 + 8 * d3, r4, 16);
    lemma_low_part(d0 + 2 * d1 + 4 * d2 + 8 * d3 + 16 * d4, r5, 32);
    lemma_low_part(d0 + 2 * d1 + 4 * d2 + 8 * d3 + 16 * d4 + 32 * d5, r6, 64);
    lemma_low_part(d0 + 2 * d1 + 4 * d2 + 8 * d3 + 16 * d4 + 32 * d5 + 64 * d6, d7, 128);
    lemma_low_part(d1, r2, 2);
    lemma_low_part(d2, r3, 2);
    lemma_low_part(d3, r4, 2);
    lemma_low_part(d4, r5, 2);
    lemma_low_part(d5, r6, 2);
    lemma_low_part(d6, d7, 2);
}

/// What flag `i` contributes to a byte in which its bit has the weight `weight`.
pub open spec fn flag_weight(flags: Seq<bool>, i: int, weight: int) -> int {
    if i < flags.len() && flags[i] {
        weight
    } else {
        0
    }
}

/// Whether a bitmap holds the given flags: one bit for each, in bytes that are filled from the bit
/// of weight 1 to that of weight 128, and no other bit.
pub open spec fn is_bitmap_of(bitmap: Seq<u8>, flags: Seq<bool>) -> bool {
    &&& flags.len() <= 8 * bitmap.len()
    &&& forall|j: int|
        #![trigger bitmap[j]]
        0 <= j < bitmap.len() ==> bitmap[j] == flag_weight(flags, 8 * j, 1) + flag_weight(
            flags,
            8 * j + 1,
            2,
        ) + flag_weight(flags, 8 * j + 2, 4) + flag_weight(flags, 8 * j + 3, 8) + flag_weight(
            flags,
            8 * j + 4,
            16,
        ) + flag_weight(flags, 8 * j + 5, 32) + flag_weight(flags, 8 * j + 6, 64) + flag_weight(
            flags,
            8 * j + 7,
            128,
        )
}

/// The flags that were put into a bitmap are those that are read from it.
pub proof fn law_flags_round_trip(bitmap: Seq<u8>, flags: Seq<bool>, i: nat)
    requires
        is_bitmap_of(bitmap, flags),
    ensures
        bit_set(bitmap, i) == (i < flags.len() && flags[i as int]),
{
    law_bit_by_weight(bitmap, i);
    lemma2_to64();
    if i / 8 < bitmap.len() {
        let j = i as int / 8;
        let bit = |k: int| flag_weight(flags, 8 * j + k, 1);
        assert(i == 8 * j + i % 8);
        assert(bitmap[j] == bit(0) + 2 * bit(1) + 4 * bit(2) + 8 * bit(3) + 16 * bit(4) + 32 * bit(5)
            + 64 * bit(6) + 128 * bit(7));
        lemma_binary_digits(bit(0), bit(1), bit(2), bit(3), bit(4), bit(5), bit(6), bit(7));
    }
}

/// Whether parameter `i` is NULL.
pub fn is_null(arguments: &MySqlArguments, i: usize) -> (null: bool)
    ensures
        null == bit_set(arguments.null_bitmap@, i as nat),
        null == (i / 8 < arguments.null_bitmap@.len() && (arguments.null_bitmap@[i as int / 8] as nat
            / pow2((i % 8) as nat)) % 2 == 1),
{
    proof {
        law_bit_by_weight(arguments.null_bitmap@, i as nat);
    }
    let bitmap: &[u8] = arguments.null_bitmap.as_slice();
    let byte: usize = i / 8;
    let bit: u8 = (i % 8) as u8;
    byte < bitmap.len() && (bitmap[byte] >> bit) & 1 == 1
}

} // verus!
