//! Big-endian words and NUL-terminated runs as they lie in the blob.
//!
//! Every offset is a byte offset from the start of the blob. A read that would
//! run past the end of the blob yields nothing instead of a value.

use vstd::prelude::*;

verus! {

/// The 32-bit big-endian value of the four bytes of `bytes` that start at `off`.
pub open spec fn be_u32(bytes: Seq<u8>, off: int) -> u32 {
    (bytes[off] as int * 0x100_0000 + bytes[off + 1] as int * 0x1_0000 + bytes[off + 2] as int
        * 0x100 + bytes[off + 3] as int) as u32
}

/// The 64-bit big-endian value of the eight bytes of `bytes` that start at `off`.
pub open spec fn be_u64(bytes: Seq<u8>, off: int) -> u64 {
    (be_u32(bytes, off) as int * 0x1_0000_0000 + be_u32(bytes, off + 4) as int) as u64
}

/// The word at `off`, where the blob holds four bytes there.
pub open spec fn word_at(bytes: Seq<u8>, off: int) -> Option<u32> {
    if 0 <= off && off + 4 <= bytes.len() {
        Some(be_u32(bytes, off))
    } else {
        None
    }
}

/// The double word at `off`, where the blob holds eight bytes there.
pub open spec fn dword_at(bytes: Seq<u8>, off: int) -> Option<u64> {
    if 0 <= off && off + 8 <= bytes.len() {
        Some(be_u64(bytes, off))
    } else {
        None
    }
}

/// `len` rounded up to a whole number of 4-byte words.
pub open spec fn padded(len: int) -> int {
    (len + 3) / 4 * 4
}

/// How many bytes of the blob lie at or after `pos`.
pub open spec fn remaining(bytes: Seq<u8>, pos: int) -> nat {
    if pos <= bytes.len() {
        (bytes.len() - pos) as nat
    } else {
        0
    }
}

/// The offset of the first zero byte at or after `off`, if the blob holds one.
pub open spec fn nul_at(bytes: Seq<u8>, off: int) -> Option<int>
    decreases bytes.len() - off,
{
    if off < 0 || off >= bytes.len() {
        None
    } else if bytes[off] == 0 {
        Some(off)
    } else {
        nul_at(bytes, off + 1)
    }
}

/// `nul_at` finds a zero byte, and no byte between `off` and that one is zero.
pub proof fn lemma_nul_at(bytes: Seq<u8>, off: int)
    ensures
        match nul_at(bytes, off) {
            Some(z) => off <= z < bytes.len() && bytes[z] == 0 && forall|i: int|
                off <= i < z ==> bytes[i] != 0,
            None => off < 0 || forall|i: int| off <= i < bytes.len() ==> bytes[i] != 0,
        },
    decreases bytes.len() - off,
{
    if 0 <= off && off < bytes.len() && bytes[off] != 0 {
        lemma_nul_at(bytes, off + 1);
    }
}

/// A zero byte with none before it is what `nul_at` finds.
pub proof fn lemma_nul_at_is(bytes: Seq<u8>, off: int, z: int)
    requires
        0 <= off <= z < bytes.len(),
        bytes[z] == 0,
        forall|i: int| off <= i < z ==> bytes[i] != 0,
    ensures
        nul_at(bytes, off) == Some(z),
    decreases z - off,
{
    if off < z {
        lemma_nul_at_is(bytes, off + 1, z);
    }
}

/// Reads the big-endian word at byte offset `off`, or nothing where the blob
/// ends before the word does.
pub fn read_u32(blob: &[u8], off: usize) -> (r: Option<u32>)
    ensures
        r == word_at(blob@, off as int),
        blob@.len() <= usize::MAX,
{
    if blob.len() < 4 || off > blob.len() - 4 {
        return None;
    }
    let b0: u32 = blob[off] as u32;
    let b1: u32 = blob[off + 1] as u32;
    let b2: u32 = blob[off + 2] as u32;
    let b3: u32 = blob[off + 3] as u32;
    Some(b0 * 0x100_0000 + b1 * 0x1_0000 + b2 * 0x100 + b3)
}

/// Reads the big-endian word at byte offset `off`, which lies inside the blob.
pub fn read_word(blob: &[u8], off: usize) -> (r: u32)
    requires
        off + 4 <= blob@.len(),
    ensures
        r == be_u32(blob@, off as int),
{
    match read_u32(blob, off) {
        Some(w) => w,
        None => 0,
    }
}

/// Reads the big-endian double word at byte offset `off`, or nothing where the
/// blob ends before it does.
pub fn read_u64(blob: &[u8], off: usize) -> (r: Option<u64>)
    ensures
        r == dword_at(blob@, off as int),
{
    if blob.len() < 8 || off > blob.len() - 8 {
        return None;
    }
    let hi: u64 = match read_u32(blob, off) {
        Some(w) => w as u64,
        None => 0,
    };
    let lo: u64 = match read_u32(blob, off + 4) {
        Some(w) => w as u64,
        None => 0,
    };
    Some(hi * 0x1_0000_0000 + lo)
}

/// Finds the first zero byte at or after `off`.
pub fn find_nul(blob: &[u8], off: usize) -> (r: Option<usize>)
    ensures
        match r {
            Some(z) => nul_at(blob@, off as int) == Some(z as int),
            None => nul_at(blob@, off as int) is None,
        },
{
    let mut i: usize = off;
    while i < blob.len()
        invariant
            off <= i,
            nul_at(blob@, off as int) == nul_at(blob@, i as int),
        decreases blob.len() - i,
    {
        if blob[i] == 0 {
            return Some(i);
        }
        i = i + 1;
    }
    None
}

/// The offset `skip` bytes after `pos`, provided that a whole word still lies
/// there; nothing where the blob ends before that word does.
pub fn advance(blob: &[u8], pos: usize, skip: u64) -> (r: Option<usize>)
    ensures
        match r {
            Some(next) => next == pos + skip && next + 4 <= blob@.len(),
            None => pos + skip + 4 > blob@.len(),
        },
{
    if pos > blob.len() {
        return None;
    }
    let room: u64 = (blob.len() - pos) as u64;
    if room < 4 || skip > room - 4 {
        return None;
    }
    Some(pos + skip as usize)
}

/// `len` rounded up to a whole number of words.
pub fn pad_to_word(len: u64) -> (r: u64)
    requires
        len <= 0x1_0000_0000,
    ensures
        r == padded(len as int),
{
    (len + 3) / 4 * 4
}

} // verus!
