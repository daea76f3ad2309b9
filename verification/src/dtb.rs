//! The blob's header and reservation block alone, for callers that need no
//! tree.

use crate::reader::{DTB_VERSION, HEADER_SIZE, MAGIC_VALUE};
use crate::reserve_entry::{reserve_entry_at, MemoryReserveEntryIter};
use crate::wire::{be_u32, read_word};
use vstd::prelude::*;

verus! {

/// The header of the blob, each field in host order.
#[derive(Debug, Clone, Copy, PartialEq, Eq)]
pub struct FdtHeader {
    pub magic: u32,
    pub totalsize: u32,
    pub off_dt_struct: u32,
    pub off_dt_strings: u32,
    pub off_mem_rsvmap: u32,
    pub version: u32,
    pub last_comp_version: u32,
    pub boot_cpuid_phys: u32,
    pub size_dt_strings: u32,
    pub size_dt_struct: u32,
}

/// Why a header was refused.
#[derive(Debug, Clone, Copy, PartialEq, Eq)]
pub enum DtbInitError {
    /// Neither version field of the header names the version that is read.
    UnsupportedDtbVersion,
    /// The blob does not begin with the magic word.
    InvalidHeader { expected: u32, found: u32 },
}

/// The header that the first ten big-endian words of a blob spell out.
pub open spec fn fdt_header_of(bytes: Seq<u8>) -> FdtHeader {
    FdtHeader {
        magic: be_u32(bytes, 0),
        totalsize: be_u32(bytes, 4),
        off_dt_struct: be_u32(bytes, 8),
        off_dt_strings: be_u32(bytes, 12),
        off_mem_rsvmap: be_u32(bytes, 16),
        version: be_u32(bytes, 20),
        last_comp_version: be_u32(bytes, 24),
        boot_cpuid_phys: be_u32(bytes, 28),
        size_dt_strings: be_u32(bytes, 32),
        size_dt_struct: be_u32(bytes, 36),
    }
}

/// What checking the header of a blob gives.
pub open spec fn check_header(bytes: Seq<u8>) -> Result<FdtHeader, DtbInitError> {
    let header = fdt_header_of(bytes);
    if header.version != DTB_VERSION && header.last_comp_version != DTB_VERSION {
        Err(DtbInitError::UnsupportedDtbVersion)
    } else if header.magic != MAGIC_VALUE {
        Err(DtbInitError::InvalidHeader { expected: MAGIC_VALUE, found: header.magic })
    } else {
        Ok(header)
    }
}

/// A blob whose header has been read and checked.
pub struct Dtb<'a> {
    blob: &'a [u8],
    fdt_header: FdtHeader,
}

impl<'a> Dtb<'a> {
    /// The blob.
    pub closed spec fn blob(&self) -> Seq<u8> {
        self.blob@
    }

    /// The header, each field in host order.
    pub closed spec fn spec_header(&self) -> FdtHeader {
        self.fdt_header
    }

    /// Reads the header of a blob, which holds at least the header's forty
    /// bytes, and checks version and magic word.
    pub fn new(blob: &'a [u8]) -> (r: Result<Dtb<'a>, DtbInitError>)
        requires
            blob@.len() >= HEADER_SIZE,
        ensures
            match r {
                Ok(dtb) => check_header(blob@) == Ok::<FdtHeader, DtbInitError>(dtb.header())
                    && dtb.blob() == blob@,
                Err(e) => check_header(blob@) == Err::<FdtHeader, DtbInitError>(e),
            },
    {
        let header = FdtHeader {
            magic: read_word(blob, 0),
            totalsize: read_word(blob, 4),
            off_dt_struct: read_word(blob, 8),
            off_dt_strings: read_word(blob, 12),
            off_mem_rsvmap: read_word(blob, 16),
            version: read_word(blob, 20),
            last_comp_version: read_word(blob, 24),
            boot_cpuid_phys: read_word(blob, 28),
            size_dt_strings: read_word(blob, 32),
            size_dt_struct: read_word(blob, 36),
        };
        if header.version != DTB_VERSION && header.last_comp_version != DTB_VERSION {
            return Err(DtbInitError::UnsupportedDtbVersion);
        }
        if header.magic != MAGIC_VALUE {
            return Err(DtbInitError::InvalidHeader { expected: MAGIC_VALUE, found: header.magic });
        }
        Ok(Dtb { blob, fdt_header: header })
    }

    /// The header, each field in host order.
    #[verifier::when_used_as_spec(spec_header)]
    pub fn header(&self) -> (r: FdtHeader)
        ensures
            r == self.spec_header(),
    {
        self.fdt_header
    }

    /// A cursor over the memory-reservation block.
    pub fn reserve_entry_iter(&self) -> (r: FtdReserveEntryIter<'a>)
        ensures
            r.blob() == self.blob(),
            r.pos() == self.header().off_mem_rsvmap,
    {
        FtdReserveEntryIter::new(self.blob, self.fdt_header.off_mem_rsvmap as usize)
    }
}

/// A region of memory that the boot loader has set aside.
#[derive(Debug, Clone, Copy, PartialEq, Eq)]
pub struct FdtReserveEntry {
    pub address: u64,
    pub size: u64,
}

/// A cursor over the reservation block.
#[derive(Debug, Clone, Copy)]
pub struct FtdReserveEntryIter<'a> {
    entries: MemoryReserveEntryIter<'a>,
}

impl<'a> FtdReserveEntryIter<'a> {
    /// The blob that the cursor reads.
    pub closed spec fn blob(&self) -> Seq<u8> {
        self.entries.blob()
    }

    /// The offset of the entry that the cursor yields next.
    pub closed spec fn pos(&self) -> int {
        self.entries.pos()
    }

    /// A cursor at the block that begins at byte offset `start`.
    pub fn new(blob: &'a [u8], start: usize) -> (r: FtdReserveEntryIter<'a>)
        ensures
            r.blob() == blob@,
            r.pos() == start,
    {
        FtdReserveEntryIter { entries: MemoryReserveEntryIter::new(blob, start) }
    }

    /// Yields the entry at the cursor and moves past it. At the pair of zeros,
    /// or where the blob ends, it yields nothing and stays.
    pub fn next(&mut self) -> (r: Option<FdtReserveEntry>)
        ensures
            final(self).blob() == old(self).blob(),
            match reserve_entry_at(old(self).blob(), old(self).pos()) {
                Some((address, size)) => r == Some(FdtReserveEntry { address, size }) && final(self).pos() == old(self).pos() + 16,
                None => r is None && final(self).pos() == old(self).pos(),
            },
    {
        match self.entries.next() {
            Some(entry) => Some(FdtReserveEntry { address: entry.address(), size: entry.size() }),
            None => None,
        }
    }
}

} // verus!
