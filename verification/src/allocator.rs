//! A bump allocator over one stretch of physical memory.
//!
//! It hands out addresses; what lies at them is none of its business.

use vstd::prelude::*;

verus! {

/// Whether `n` is a power of two.
pub open spec fn is_power_of_two(n: usize) -> bool {
    n > 0 && n & ((n - 1) as usize) == 0
}

/// `addr` with `align - 1` added and the bits below `align` cleared: for a
/// power of two, `addr` rounded up to a multiple of `align`.
pub open spec fn aligned_up(addr: usize, align: usize) -> usize {
    ((addr + align - 1) as usize) & !((align - 1) as usize)
}

/// Clearing the bits below a power of two rounds down by less than it.
proof fn lemma_clear_low_bits(sum: usize, align: usize, mask: usize)
    by (bit_vector)
    requires
        align > 0,
        align & mask == 0,
        mask == align - 1,
    ensures
        sum & !mask <= sum,
        sum - (sum & !mask) <= mask,
        (sum & !mask) & mask == 0,
{
}

/// For a power of two, `aligned_up` is aligned, is not below `addr`, and is
/// less than `align` above it: it is the least aligned address from `addr`
/// on.
pub proof fn lemma_aligned_up(addr: usize, align: usize)
    requires
        is_power_of_two(align),
        addr + align - 1 <= usize::MAX,
    ensures
        aligned_up(addr, align) & ((align - 1) as usize) == 0,
        addr <= aligned_up(addr, align) < addr + align,
{
    let sum: usize = (addr + align - 1) as usize;
    let mask: usize = (align - 1) as usize;
    lemma_clear_low_bits(sum, align, mask);
}

/// Rounds `addr` up to a multiple of `align`, which is a power of two.
pub fn align_up(addr: usize, align: usize) -> (r: usize)
    requires
        align > 0,
        addr + align <= usize::MAX,
    ensures
        r == aligned_up(addr, align),
        is_power_of_two(align) ==> r & ((align - 1) as usize) == 0 && addr <= r < addr + align,
{
    proof {
        if is_power_of_two(align) {
            lemma_aligned_up(addr, align);
        }
    }
    (addr + align - 1) & !(align - 1)
}

/// What an allocator of physical memory offers.
pub trait Allocator: Sized {
    /// Whether the allocator's bounds are in order.
    spec fn wf(&self) -> bool;

    /// How many bytes are left to hand out.
    spec fn free(&self) -> nat;

    /// An allocator over the addresses from `start` up to `end`.
    fn init(start: usize, end: usize) -> (r: Self)
        ensures
            start <= end ==> r.wf() && r.free() == end - start,
    ;

    /// Hands out `size` bytes at an address aligned to `align`, a power of
    /// two, or fails and changes nothing. What is handed out, padding for the
    /// alignment included, is no longer free.
    fn allocate(&mut self, size: usize, align: usize) -> (r: Result<usize, ()>)
        requires
            old(self).wf(),
        ensures
            final(self).wf(),
            match r {
                Ok(addr) => is_power_of_two(align) && addr & ((align - 1) as usize) == 0
                    && final(self).free() + size <= old(self).free(),
                Err(_) => final(self).free() == old(self).free(),
            },
    ;

    /// Takes back `size` bytes at `addr`.
    fn deallocate(&mut self, addr: usize, size: usize, align: usize)
        requires
            old(self).wf(),
        ensures
            final(self).wf(),
            final(self).free() >= old(self).free(),
    ;

    /// How many bytes are left to hand out.
    fn get_available(&self) -> (r: usize)
        requires
            self.wf(),
        ensures
            r == self.free(),
    ;
}

/// An allocator that only ever moves forward: it hands out the next aligned
/// address and never takes anything back.
pub struct BumpAllocator {
    heap_end: usize,
    next_paddr: usize,
}

impl BumpAllocator {
    /// The end of the memory that the allocator hands out.
    pub closed spec fn end(&self) -> usize {
        self.heap_end
    }

    /// The address from which on nothing has been handed out.
    pub closed spec fn next(&self) -> usize {
        self.next_paddr
    }

    /// Whether a request for `size` bytes aligned to `align` can be met.
    pub open spec fn fits(&self, size: usize, align: usize) -> bool {
        &&& is_power_of_two(align)
        &&& self.next() + align <= usize::MAX
        &&& aligned_up(self.next(), align) + size <= self.end()
    }
}

impl Allocator for BumpAllocator {
    open spec fn wf(&self) -> bool {
        self.next() <= self.end()
    }

    open spec fn free(&self) -> nat {
        (self.end() - self.next()) as nat
    }

    fn init(start: usize, end: usize) -> (r: BumpAllocator)
        ensures
            r.next() == start,
            r.end() == end,
    {
        BumpAllocator { heap_end: end, next_paddr: start }
    }

    fn allocate(&mut self, size: usize, align: usize) -> (r: Result<usize, ()>)
        ensures
            final(self).end() == old(self).end(),
            match r {
                Ok(addr) => old(self).fits(size, align) && addr == aligned_up(
                    old(self).next(),
                    align,
                ) && final(self).next() == addr + size,
                Err(_) => !old(self).fits(size, align) && final(self).next() == old(self).next(),
            },
    {
        if align == 0 || align & (align - 1) != 0 {
            return Err(());
        }
        if self.next_paddr > usize::MAX - align {
            return Err(());
        }
        let start_paddr: usize = align_up(self.next_paddr, align);
        let end_paddr: usize = match start_paddr.checked_add(size) {
            Some(end) => end,
            None => {
                return Err(());
            },
        };
        if end_paddr > self.heap_end {
            return Err(());
        }
        self.next_paddr = end_paddr;
        Ok(start_paddr)
    }

    fn deallocate(&mut self, addr: usize, size: usize, align: usize)
        ensures
            *final(self) == *old(self),
    {
    }

    fn get_available(&self) -> (r: usize) {
        self.heap_end - self.next_paddr
    }
}

} // verus!
