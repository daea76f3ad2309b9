//! The memory-reservation block: pairs of address and size, closed by a pair
//! of zeros.

use crate::wire::{dword_at, read_u64, remaining};
use vstd::prelude::*;

verus! {

/// A region of memory that the boot loader has set aside.
#[derive(Debug, Clone, Copy, PartialEq, Eq)]
pub struct MemoryReserveEntry {
    address: u64,
    size: u64,
}

impl MemoryReserveEntry {
    /// Where the region begins.
    pub closed spec fn spec_address(&self) -> u64 {
        self.address
    }

    /// How many bytes the region holds.
    pub closed spec fn spec_size(&self) -> u64 {
        self.size
    }

    /// Where the region begins.
    #[verifier::when_used_as_spec(spec_address)]
    pub fn address(&self) -> (r: u64)
        ensures
            r == self.spec_address(),
    {
        self.address
    }

    /// How many bytes the region holds.
    #[verifier::when_used_as_spec(spec_size)]
    pub fn size(&self) -> (r: u64)
        ensures
            r == self.spec_size(),
    {
        self.size
    }
}

/// The entry at `pos` as a pair of address and size: nothing at the pair of
/// zeros, and nothing where the blob ends before the pair does.
pub open spec fn reserve_entry_at(bytes: Seq<u8>, pos: int) -> Option<(u64, u64)> {
    match (dword_at(bytes, pos), dword_at(bytes, pos + 8)) {
        (Some(address), Some(size)) => if address == 0 && size == 0 {
            None
        } else {
            Some((address, size))
        },
        _ => None,
    }
}

/// The entries from `pos` up to the closing pair of zeros, in order.
pub open spec fn reserve_entries(bytes: Seq<u8>, pos: int) -> Seq<(u64, u64)>
    decreases remaining(bytes, pos),
{
    match reserve_entry_at(bytes, pos) {
        Some(entry) => seq![entry] + reserve_entries(bytes, pos + 16),
        None => Seq::empty(),
    }
}

/// A block of `entries.len()` pairs, none of them the pair of zeros, followed
/// by the pair of zeros, yields exactly those pairs, in their order.
pub proof fn lemma_reserve_entries_stop_at_sentinel(
    bytes: Seq<u8>,
    pos: int,
    entries: Seq<(u64, u64)>,
)
    requires
        0 <= pos,
        pos + 16 * (entries.len() + 1) <= bytes.len(),
        forall|i: int|
            0 <= i < entries.len() ==> dword_at(bytes, pos + 16 * i) == Some(
                (#[trigger] entries[i]).0,
            ) && dword_at(bytes, pos + 16 * i + 8) == Some(entries[i].1) && entries[i] != (
                0u64,
                0u64,
            ),
        dword_at(bytes, pos + 16 * entries.len()) == Some(0u64),
        dword_at(bytes, pos + 16 * entries.len() + 8) == Some(0u64),
    ensures
        reserve_entries(bytes, pos) == entries,
        reserve_entries(bytes, pos).len() == entries.len(),
    decreases entries.len(),
{
    if entries.len() == 0 {
        assert(reserve_entries(bytes, pos) =~= entries);
    } else {
        let rest = entries.subrange(1, entries.len() as int);
        assert forall|i: int| 0 <= i < rest.len() implies dword_at(bytes, pos + 16 + 16 * i)
            == Some((#[trigger] rest[i]).0) && dword_at(bytes, pos + 16 + 16 * i + 8) == Some(
            rest[i].1,
        ) && rest[i] != (0u64, 0u64) by {
            assert(rest[i] == entries[i + 1]);
            assert(pos + 16 + 16 * i == pos + 16 * (i + 1));
        }
        assert(pos + 16 + 16 * rest.len() == pos + 16 * entries.len());
        lemma_reserve_entries_stop_at_sentinel(bytes, pos + 16, rest);
        assert(entries[0] == (entries[0].0, entries[0].1));
        assert(pos + 16 * 0 == pos);
        assert(reserve_entry_at(bytes, pos) == Some(entries[0]));
        assert(seq![entries[0]] + rest =~= entries);
    }
}

/// A cursor over the reservation block.
#[derive(Debug, Clone, Copy)]
pub struct MemoryReserveEntryIter<'a> {
    blob: &'a [u8],
    start: usize,
    curr: usize,
}

impl<'a> MemoryReserveEntryIter<'a> {
    /// The blob that the cursor reads.
    pub closed spec fn blob(&self) -> Seq<u8> {
        self.blob@
    }

    /// The offset of the entry that the cursor yields next.
    pub closed spec fn pos(&self) -> int {
        self.curr as int
    }

    /// The offset at which the block begins.
    pub closed spec fn start(&self) -> int {
        self.start as int
    }

    /// A cursor at the block that begins at byte offset `start`.
    pub fn new(blob: &'a [u8], start: usize) -> (r: MemoryReserveEntryIter<'a>)
        ensures
            r.blob() == blob@,
            r.start() == start,
            r.pos() == start,
    {
        MemoryReserveEntryIter { blob, start, curr: start }
    }

    /// Yields the entry at the cursor and moves past it. At the pair of zeros,
    /// or where the blob ends, it yields nothing and stays.
    pub fn next(&mut self) -> (r: Option<MemoryReserveEntry>)
        ensures
            final(self).blob() == old(self).blob(),
            final(self).start() == old(self).start(),
            match reserve_entry_at(old(self).blob(), old(self).pos()) {
                Some((address, size)) => r matches Some(entry) && entry.address() == address
                    && entry.size() == size && final(self).pos() == old(self).pos() + 16,
                None => r is None && final(self).pos() == old(self).pos(),
            },
    {
        if self.curr > self.blob.len() || self.blob.len() - self.curr < 16 {
            return None;
        }
        let address: u64 = match read_u64(self.blob, self.curr) {
            Some(v) => v,
            None => {
                return None;
            },
        };
        let size: u64 = match read_u64(self.blob, self.curr + 8) {
            Some(v) => v,
            None => {
                return None;
            },
        };
        if address == 0 && size == 0 {
            return None;
        }
        self.curr = self.curr + 16;
        Some(MemoryReserveEntry { address, size })
    }
}

} // verus!
