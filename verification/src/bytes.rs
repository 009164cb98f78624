//! Reading a byte buffer front to back: big-endian integers, runs of bytes
//! and delimited fields, each taken at a cursor that only moves forward.

use crate::errors::{FormatFault, GeneralError};
use vstd::prelude::*;
use vstd::slice::slice_subrange;

verus! {

/// The error for a buffer that ends before what had to be read from it.
pub open spec fn truncated() -> GeneralError {
    GeneralError::InvalidFormat(FormatFault::Truncated)
}

/// The value of the four bytes of `buf` from `at` on, most significant first.
pub open spec fn be_u32_at(buf: Seq<u8>, at: int) -> u32
    recommends
        0 <= at,
        at + 4 <= buf.len(),
{
    (buf[at] as int * 0x100_0000 + buf[at + 1] as int * 0x1_0000 + buf[at + 2] as int * 0x100
        + buf[at + 3] as int) as u32
}

/// The least index from `from` on at which `buf` holds `byte`, or the length
/// of `buf` where no such index exists.
pub open spec fn index_of_byte(buf: Seq<u8>, byte: u8, from: int) -> int
    decreases buf.len() - from,
{
    if from < 0 || from >= buf.len() {
        buf.len() as int
    } else if buf[from] == byte {
        from
    } else {
        index_of_byte(buf, byte, from + 1)
    }
}

/// `index_of_byte` lies between `from` and the length; `byte` does not occur
/// before it, and occurs at it unless it is the length.
pub proof fn lemma_index_of_byte(buf: Seq<u8>, byte: u8, from: int)
    requires
        0 <= from <= buf.len(),
    ensures
        from <= index_of_byte(buf, byte, from) <= buf.len(),
        forall|i: int| from <= i < index_of_byte(buf, byte, from) ==> buf[i] != byte,
        index_of_byte(buf, byte, from) < buf.len() ==> buf[index_of_byte(buf, byte, from)] == byte,
    decreases buf.len() - from,
{
    if from < buf.len() && buf[from] != byte {
        lemma_index_of_byte(buf, byte, from + 1);
    }
}

/// An index with the properties that `lemma_index_of_byte` states is the
/// index that `index_of_byte` gives.
pub proof fn lemma_index_of_byte_unique(buf: Seq<u8>, byte: u8, from: int, at: int)
    requires
        0 <= from <= at <= buf.len(),
        forall|i: int| from <= i < at ==> buf[i] != byte,
        at < buf.len() ==> buf[at] == byte,
    ensures
        index_of_byte(buf, byte, from) == at,
    decreases at - from,
{
    if from < at {
        lemma_index_of_byte_unique(buf, byte, from + 1, at);
    }
}

/// Takes one byte at `at` and gives it with the offset behind it.
pub fn take_u8(buf: &[u8], at: usize) -> (r: Result<(u8, usize), GeneralError>)
    ensures
        at < buf@.len() ==> (r matches Ok((byte, next)) && byte == buf@[at as int] && next == at
            + 1),
        at >= buf@.len() ==> r == Err::<(u8, usize), GeneralError>(truncated()),
{
    if at >= buf.len() {
        return Err(GeneralError::InvalidFormat(FormatFault::Truncated));
    }
    Ok((buf[at], at + 1))
}

/// Takes a 32-bit big-endian integer at `at` and gives it with the offset
/// behind it.
pub fn take_be_u32(buf: &[u8], at: usize) -> (r: Result<(u32, usize), GeneralError>)
    ensures
        at + 4 <= buf@.len() ==> (r matches Ok((value, next)) && value == be_u32_at(
            buf@,
            at as int,
        ) && next == at + 4),
        at + 4 > buf@.len() ==> r == Err::<(u32, usize), GeneralError>(truncated()),
{
    let len: usize = buf.len();
    if len < 4 || at > len - 4 {
        return Err(GeneralError::InvalidFormat(FormatFault::Truncated));
    }
    let b0: u32 = buf[at] as u32;
    let b1: u32 = buf[at + 1] as u32;
    let b2: u32 = buf[at + 2] as u32;
    let b3: u32 = buf[at + 3] as u32;
    Ok((b0 * 0x100_0000 + b1 * 0x1_0000 + b2 * 0x100 + b3, at + 4))
}

/// Takes `count` bytes at `at` and gives them with the offset behind them.
pub fn take_bytes(buf: &[u8], at: usize, count: usize) -> (r: Result<(&[u8], usize), GeneralError>)
    ensures
        at + count <= buf@.len() ==> (r matches Ok((run, next)) && run@ == buf@.subrange(
            at as int,
            at + count,
        ) && next == at + count),
        at + count > buf@.len() ==> r == Err::<(&[u8], usize), GeneralError>(truncated()),
{
    let len: usize = buf.len();
    if len < count || at > len - count {
        return Err(GeneralError::InvalidFormat(FormatFault::Truncated));
    }
    Ok((slice_subrange(buf, at, at + count), at + count))
}

/// Finds the first `byte` in `buf` from `from` on; gives the length of `buf`
/// where there is none.
pub fn find_byte(buf: &[u8], byte: u8, from: usize) -> (at: usize)
    ensures
        at == index_of_byte(buf@, byte, from as int),
{
    let len: usize = buf.len();
    if from >= len {
        return len;
    }
    let mut at: usize = from;
    while at < len && buf[at] != byte
        invariant
            from <= at <= len,
            len == buf@.len(),
            forall|i: int| from <= i < at ==> buf@[i] != byte,
        decreases len - at,
    {
        at += 1;
    }
    proof {
        lemma_index_of_byte_unique(buf@, byte, from as int, at as int);
    }
    at
}

/// Takes the bytes from `at` up to the next `byte`, which is left out, and
/// gives them with the offset behind that `byte`.
pub fn take_until(buf: &[u8], byte: u8, at: usize) -> (r: Result<(&[u8], usize), GeneralError>)
    ensures
        index_of_byte(buf@, byte, at as int) < buf@.len() ==> (r matches Ok((run, next))
            && run@ == buf@.subrange(at as int, index_of_byte(buf@, byte, at as int))
            && next == index_of_byte(buf@, byte, at as int) + 1),
        index_of_byte(buf@, byte, at as int) >= buf@.len() ==> r == Err::<
            (&[u8], usize),
            GeneralError,
        >(truncated()),
{
    let end: usize = find_byte(buf, byte, at);
    if end >= buf.len() {
        return Err(GeneralError::InvalidFormat(FormatFault::Truncated));
    }
    proof {
        if at <= buf@.len() {
            lemma_index_of_byte(buf@, byte, at as int);
        }
    }
    Ok((slice_subrange(buf, at, end), end + 1))
}

} // verus!
