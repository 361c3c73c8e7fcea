//! Taking bytes and length-encoded values off the front of a buffer.
use crate::error::Error;
use crate::little_endian::{le_uint, le_value};
use vstd::prelude::*;

verus! {

/// An outcome, with what it holds taken as a mathematical value.
pub open spec fn outcome<T: View>(res: Result<T, Error>) -> Result<T::V, Error> {
    match res {
        Ok(x) => Ok(x@),
        Err(e) => Err(e),
    }
}

/// Taking one byte off the front of `buf`: what comes out, and what is left.
pub open spec fn u8_taken(buf: Seq<u8>) -> (Result<u8, Error>, Seq<u8>) {
    if buf.len() == 0 {
        (Err(Error::UnexpectedEnd), buf)
    } else {
        (Ok(buf[0]), buf.skip(1))
    }
}

/// Taking `n` bytes off the front of `buf`: what comes out, and what is left.
pub open spec fn bytes_taken(buf: Seq<u8>, n: nat) -> (Result<Seq<u8>, Error>, Seq<u8>) {
    if buf.len() < n {
        (Err(Error::NotEnoughBytes { need: n as usize, have: buf.len() as usize }), buf)
    } else {
        (Ok(buf.take(n as int)), buf.skip(n as int))
    }
}

/// Taking an unsigned little-endian integer of `n` bytes off the front of `buf`.
pub open spec fn uint_taken(buf: Seq<u8>, n: nat) -> (Result<u64, Error>, Seq<u8>) {
    match bytes_taken(buf, n) {
        (Ok(bytes), rest) => (Ok(le_value(bytes) as u64), rest),
        (Err(e), rest) => (Err(e), rest),
    }
}

/// Taking an `int<lenenc>` off the front of `buf`. The first byte is the value, or says how many
/// bytes spell it. The bytes 0xfb and 0xff, which say nothing of the kind, count as values.
pub open spec fn lenenc_int_taken(buf: Seq<u8>) -> (Result<u64, Error>, Seq<u8>) {
    match u8_taken(buf) {
        (Ok(first), rest) => if first == 0xfc {
            uint_taken(rest, 2)
        } else if first == 0xfd {
            uint_taken(rest, 3)
        } else if first == 0xfe {
            uint_taken(rest, 8)
        } else {
            (Ok(first as u64), rest)
        },
        (Err(e), rest) => (Err(e), rest),
    }
}

/// Taking a `string<lenenc>` off the front of `buf`: a length and that many bytes.
pub open spec fn lenenc_bytes_taken(buf: Seq<u8>) -> (Result<Seq<u8>, Error>, Seq<u8>) {
    match lenenc_int_taken(buf) {
        (Ok(len), rest) => if len > usize::MAX {
            (Err(Error::LengthOverflow { length: len }), rest)
        } else {
            bytes_taken(rest, len as nat)
        },
        (Err(e), rest) => (Err(e), rest),
    }
}

/// Takes one byte off the front of `buf`.
pub fn take_u8(buf: &mut &[u8]) -> (res: Result<u8, Error>)
    ensures
        res == u8_taken(old(buf)@).0,
        final(buf)@ == u8_taken(old(buf)@).1,
{
    if buf.len() == 0 {
        return Err(Error::UnexpectedEnd);
    }
    let (head, tail) = buf.split_at(1);
    *buf = tail;
    Ok(head[0])
}

/// Takes `N` bytes off the front of `buf`.
pub fn take_fixed<const N: usize>(buf: &mut &[u8]) -> (res: Result<[u8; N], Error>)
    ensures
        outcome(res) == bytes_taken(old(buf)@, N as nat).0,
        final(buf)@ == bytes_taken(old(buf)@, N as nat).1,
{
    if buf.len() < N {
        return Err(Error::NotEnoughBytes { need: N, have: buf.len() });
    }
    let (head, tail) = buf.split_at(N);
    let mut out: [u8; N] = [0u8; N];
    let mut i: usize = 0;
    while i < N
        invariant
            i <= N,
            head@.len() == N,
            forall|k: int| 0 <= k < i ==> #[trigger] out@[k] == head@[k],
        decreases N - i,
    {
        out[i] = head[i];
        i += 1;
    }
    assert(out@ =~= head@);
    *buf = tail;
    Ok(out)
}

/// Takes `n` bytes off the front of `buf`.
pub fn take_n<'a>(buf: &mut &'a [u8], n: usize) -> (res: Result<&'a [u8], Error>)
    ensures
        outcome(res) == bytes_taken(old(buf)@, n as nat).0,
        final(buf)@ == bytes_taken(old(buf)@, n as nat).1,
{
    if buf.len() < n {
        return Err(Error::NotEnoughBytes { need: n, have: buf.len() });
    }
    let (head, tail) = buf.split_at(n);
    *buf = tail;
    Ok(head)
}

/// Reads a `string<lenenc>`: a length-encoded integer followed by exactly that many raw bytes.
pub fn take_lenenc_bytes<'a>(buf: &mut &'a [u8]) -> (res: Result<&'a [u8], Error>)
    ensures
        outcome(res) == lenenc_bytes_taken(old(buf)@).0,
        final(buf)@ == lenenc_bytes_taken(old(buf)@).1,
{
    let len: u64 = take_lenenc_int(buf)?;
    if len > usize::MAX as u64 {
        return Err(Error::LengthOverflow { length: len });
    }
    take_n(buf, len as usize)
}

/// Reads an `int<lenenc>`. The first byte determines the width:
///
/// - `0x00..=0xFA`: that byte is the value.
/// - `0xFC`, `0xFD`, `0xFE`: 2, 3 or 8 bytes follow, an unsigned little-endian integer.
/// - `0xFB`, `0xFF`: not valid here; taken as a single-byte value.
pub fn take_lenenc_int(buf: &mut &[u8]) -> (res: Result<u64, Error>)
    ensures
        res == lenenc_int_taken(old(buf)@).0,
        final(buf)@ == lenenc_int_taken(old(buf)@).1,
{
    let first: u8 = take_u8(buf)?;
    match first {
        0xfc => Ok(le_uint(take_fixed::<2>(buf)?.as_slice())),
        0xfd => Ok(le_uint(take_fixed::<3>(buf)?.as_slice())),
        0xfe => Ok(le_uint(take_fixed::<8>(buf)?.as_slice())),
        v => Ok(v as u64),
    }
}

} // verus!
