//! The kernel heap before any allocator is chosen: a bump allocator that may
//! not have been given its memory yet.

use crate::allocator::{align_up, aligned_up, is_power_of_two};
use vstd::prelude::*;

verus! {

/// A bump allocator that starts out without memory.
pub struct Allocator {
    heap_start: Option<usize>,
    heap_end: Option<usize>,
    heap_size: usize,
    next_paddr: usize,
}

/// The bounds of the heap and how far it is used.
pub struct HeapView {
    pub start: usize,
    pub end: usize,
    pub next: usize,
}

impl Allocator {
    /// The heap, once the allocator has been given one.
    pub closed spec fn heap(&self) -> Option<HeapView> {
        match (self.heap_start, self.heap_end) {
            (Some(start), Some(end)) => Some(HeapView { start, end, next: self.next_paddr }),
            _ => None,
        }
    }

    /// What is handed out never passes the end of the heap.
    #[verifier::type_invariant]
    spec fn bounded(&self) -> bool {
        &&& self.heap_start is Some <==> self.heap_end is Some
        &&& match (self.heap_start, self.heap_end) {
            (Some(start), Some(end)) => start <= self.next_paddr <= end && self.heap_size == end
                - start,
            _ => true,
        }
    }

    /// An allocator without memory.
    pub fn new() -> (r: Allocator)
        ensures
            r.heap() is None,
    {
        Allocator { heap_start: None, heap_end: None, heap_size: 0, next_paddr: 0 }
    }

    /// Gives the allocator the addresses from `start` up to `end`. What it
    /// handed out before is forgotten.
    pub fn init(&mut self, start: usize, end: usize)
        requires
            start <= end,
        ensures
            final(self).heap() == Some(HeapView { start, end, next: start }),
    {
        *self = Allocator {
            heap_start: Some(start),
            heap_end: Some(end),
            heap_size: end - start,
            next_paddr: start,
        };
    }

    /// Whether a request for `size` bytes aligned to `align` can be met.
    pub open spec fn fits(&self, size: usize, align: usize) -> bool {
        match self.heap() {
            Some(heap) => is_power_of_two(align) && heap.next + align <= usize::MAX && aligned_up(
                heap.next,
                align,
            ) + size <= heap.end,
            None => false,
        }
    }

    /// Hands out `size` bytes at the next address aligned to `align`, a power
    /// of two, or fails and changes nothing.
    pub fn allocate(&mut self, size: usize, align: usize) -> (r: Result<usize, ()>)
        ensures
            match r {
                Ok(addr) => old(self).fits(size, align) && addr == aligned_up(
                    old(self).heap()->0.next,
                    align,
                ) && final(self).heap() == Some(
                    HeapView { next: (addr + size) as usize, ..old(self).heap()->0 },
                ),
                Err(_) => !old(self).fits(size, align) && final(self).heap() == old(self).heap(),
            },
    {
        proof {
            use_type_invariant(&*self);
        }
        let end: usize = match (self.heap_start, self.heap_end) {
            (Some(_), Some(end)) => end,
            _ => {
                return Err(());
            },
        };
        if align == 0 || align & (align - 1) != 0 {
            return Err(());
        }
        if self.next_paddr > usize::MAX - align {
            return Err(());
        }
        let start_paddr: usize = align_up(self.next_paddr, align);
        let end_paddr: usize = match start_paddr.checked_add(size) {
            Some(end) => end,
            None => {
                return Err(());
            },
        };
        if end_paddr > end {
            return Err(());
        }
        self.next_paddr = end_paddr;
        Ok(start_paddr)
    }

    /// Takes back `size` bytes at `addr`: a bump allocator keeps no books, so
    /// nothing changes.
    pub fn deallocate(&mut self, addr: usize, size: usize, align: usize)
        ensures
            final(self).heap() == old(self).heap(),
    {
    }

    /// How many bytes are left to hand out; none while there is no heap.
    pub fn get_available(&self) -> (r: usize)
        ensures
            match self.heap() {
                Some(heap) => r == heap.end - heap.next,
                None => r == 0,
            },
    {
        proof {
            use_type_invariant(self);
        }
        if let Some(end) = self.heap_end {
            end - self.next_paddr
        } else {
            0
        }
    }
}

} // verus!
