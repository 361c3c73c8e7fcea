//! Little-endian integers.
use vstd::prelude::*;

verus! {

/// The number that `bytes` spell, least significant byte first.
pub open spec fn le_value(bytes: Seq<u8>) -> nat
    decreases bytes.len(),
{
    if bytes.len() == 0 {
        0
    } else {
        bytes[0] as nat + 256 * le_value(bytes.drop_first())
    }
}

/// The `width` bytes that spell `v`, least significant byte first.
pub open spec fn le_bytes(v: nat, width: nat) -> Seq<u8>
    decreases width,
{
    if width == 0 {
        seq![]
    } else {
        seq![(v % 256) as u8] + le_bytes(v / 256, (width - 1) as nat)
    }
}

/// How many numbers `width` bytes can spell.
pub open spec fn le_limit(width: nat) -> nat
    decreases width,
{
    if width == 0 {
        1
    } else {
        256 * le_limit((width - 1) as nat)
    }
}

/// The two's complement reading of the number `v` that was spelled in `width` bytes.
pub open spec fn signed_value(v: nat, width: nat) -> int {
    if 2 * v < le_limit(width) {
        v as int
    } else {
        v - le_limit(width)
    }
}

/// The limits of the widths that are in use.
pub proof fn lemma_le_limits()
    ensures
        le_limit(1) == 0x100,
        le_limit(2) == 0x1_0000,
        le_limit(3) == 0x100_0000,
        le_limit(4) == 0x1_0000_0000,
        le_limit(8) == 0x1_0000_0000_0000_0000,
{
    reveal_with_fuel(le_limit, 9);
}

/// A spelled number is below the limit of its width.
pub proof fn lemma_le_value_bound(bytes: Seq<u8>)
    ensures
        le_value(bytes) < le_limit(bytes.len()),
    decreases bytes.len(),
{
    if bytes.len() > 0 {
        lemma_le_value_bound(bytes.drop_first());
    }
}

/// A wider number has a higher limit.
pub proof fn lemma_le_limit_grows(a: nat, b: nat)
    requires
        a <= b,
    ensures
        0 < le_limit(a) <= le_limit(b),
    decreases b,
{
    if b > 0 {
        if a == b {
            lemma_le_limit_grows((a - 1) as nat, (b - 1) as nat);
        } else {
            lemma_le_limit_grows(a, (b - 1) as nat);
        }
    }
}

/// Reading back what was spelled gives the number again.
pub proof fn law_le_round_trip(v: nat, width: nat)
    requires
        v < le_limit(width),
    ensures
        le_bytes(v, width).len() == width,
        le_value(le_bytes(v, width)) == v,
    decreases width,
{
    if width > 0 {
        law_le_round_trip(v / 256, (width - 1) as nat);
        assert(le_bytes(v, width).drop_first() =~= le_bytes(v / 256, (width - 1) as nat));
    }
}

/// The number that at most 8 bytes spell.
pub(crate) fn le_uint(bytes: &[u8]) -> (v: u64)
    requires
        bytes@.len() <= 8,
    ensures
        v == le_value(bytes@),
{
    let mut v: u64 = 0;
    let mut i: usize = bytes.len();
    assert(bytes@.skip(i as int) =~= Seq::<u8>::empty());
    while i > 0
        invariant
            i <= bytes@.len() <= 8,
            v == le_value(bytes@.skip(i as int)),
        decreases i,
    {
        proof {
            let later = bytes@.skip(i as int);
            assert(bytes@.skip(i - 1).drop_first() =~= later);
            lemma_le_value_bound(later);
            lemma_le_limit_grows(later.len(), 7);
            reveal_with_fuel(le_limit, 8);
        }
        i -= 1;
        v = v * 256 + bytes[i] as u64;
    }
    assert(bytes@.skip(0) =~= bytes@);
    v
}

/// The two's complement reading of a number that was spelled in `width` bytes.
pub(crate) fn le_int(v: u64, width: usize) -> (x: i64)
    requires
        width == 1 || width == 2 || width == 4 || width == 8,
        v < le_limit(width as nat),
    ensures
        x == signed_value(v as nat, width as nat),
{
    proof {
        lemma_le_limits();
    }
    let half: u64 = match width {
        1 => 0x80,
        2 => 0x8000,
        4 => 0x8000_0000,
        _ => 0x8000_0000_0000_0000,
    };
    if v < half {
        v as i64
    } else {
        (v - half) as i64 - (half - 1) as i64 - 1
    }
}

} // verus!
