//! Where the heap may lie: the memory that the tree describes, less what the
//! kernel itself takes up.

use crate::children::{child_at, lemma_child_at_advances};
use crate::node::{DeviceTreeNode, NodeView, ParsingError};
use crate::properties::{find_property, string_value};
use crate::text::same_text;
use crate::wire::{dword_at, read_u64, remaining};
use vstd::prelude::*;

verus! {

/// The addresses that the heap may take: from `start` up to `end`.
#[derive(Debug, Clone, Copy, PartialEq, Eq)]
pub struct HeapBounds {
    pub start: usize,
    pub end: usize,
}

/// The region that a `reg` value begins with: an address and a size, each a
/// big-endian double word.
pub open spec fn region_of(reg: Seq<u8>) -> Option<(u64, u64)> {
    match (dword_at(reg, 0), dword_at(reg, 8)) {
        (Some(address), Some(size)) => Some((address, size)),
        _ => None,
    }
}

/// The heap inside the region of `size` bytes at `address`: all of it, or
/// what lies behind the kernel where the kernel ends inside the region. A
/// region that does not end within the address space holds no heap.
pub open spec fn bounds_of(address: u64, size: u64, kernel_end: usize) -> Option<HeapBounds> {
    if address + size <= usize::MAX {
        Some(
            HeapBounds {
                start: if kernel_end > address && kernel_end < address + size {
                    kernel_end
                } else {
                    address as usize
                },
                end: (address + size) as usize,
            },
        )
    } else {
        None
    }
}

/// Whether a node describes memory: its `device_type` is the string
/// `memory`.
pub open spec fn is_memory(bytes: Seq<u8>, node: NodeView) -> Result<bool, ParsingError> {
    match node.props {
        None => Ok(false),
        Some(pos) => match find_property(bytes, pos, node.strings, "device_type"@) {
            Err(e) => Err(e),
            Ok(None) => Ok(false),
            Ok(Some(prop)) => Ok(string_value(prop.value) == Some("memory"@)),
        },
    }
}

/// The first node at or after `pos` that describes memory.
pub open spec fn memory_node(bytes: Seq<u8>, pos: int, strings: int) -> Result<
    Option<NodeView>,
    ParsingError,
>
    decreases remaining(bytes, pos),
    via memory_node_decreases
{
    match child_at(bytes, pos, strings) {
        Err(e) => Err(e),
        Ok(None) => Ok(None),
        Ok(Some((node, next))) => match is_memory(bytes, node) {
            Err(e) => Err(e),
            Ok(true) => Ok(Some(node)),
            Ok(false) => memory_node(bytes, next, strings),
        },
    }
}

#[via_fn]
proof fn memory_node_decreases(bytes: Seq<u8>, pos: int, strings: int) {
    lemma_child_at_advances(bytes, pos, strings);
}

/// The heap that the first memory node below `root` allows. There is none
/// where no child of the root describes memory, or where that node has no
/// `reg` property that begins with a region inside the address space.
pub open spec fn spec_heap_bounds(bytes: Seq<u8>, root: NodeView, kernel_end: usize) -> Result<
    Option<HeapBounds>,
    ParsingError,
> {
    match root.children {
        None => Ok(None),
        Some(pos) => match memory_node(bytes, pos, root.strings) {
            Err(e) => Err(e),
            Ok(None) => Ok(None),
            Ok(Some(node)) => match node.props {
                None => Ok(None),
                Some(props) => match find_property(bytes, props, node.strings, "reg"@) {
                    Err(e) => Err(e),
                    Ok(None) => Ok(None),
                    Ok(Some(prop)) => Ok(
                        match region_of(prop.value) {
                            Some((address, size)) => bounds_of(address, size, kernel_end),
                            None => None,
                        },
                    ),
                },
            },
        },
    }
}

/// Finds the heap: the region of the first child of `dtb_root` whose
/// `device_type` is `memory`, from the end of the kernel on where the kernel
/// ends inside it.
pub fn heap_bounds(dtb_root: &DeviceTreeNode, kernel_end: usize) -> (r: Result<
    Option<HeapBounds>,
    ParsingError,
>)
    ensures
        r == spec_heap_bounds(dtb_root.blob(), dtb_root@, kernel_end),
{
    let ghost bytes = dtb_root.blob();
    let ghost strings = dtb_root@.strings;
    let mut cursor = dtb_root.children();
    loop
        invariant
            cursor.blob() == bytes,
            bytes == dtb_root.blob(),
            strings == dtb_root@.strings,
            cursor@.strings == strings,
            match (dtb_root@.children, cursor@.pos) {
                (Some(first), Some(pos)) => memory_node(bytes, first, strings) == memory_node(
                    bytes,
                    pos,
                    strings,
                ),
                (Some(first), None) => false,
                (None, _) => cursor@.pos is None,
            },
        decreases
                match cursor@.pos {
                    Some(pos) => remaining(bytes, pos),
                    None => 0,
                },
    {
        proof {
            if let Some(pos) = cursor@.pos {
                lemma_child_at_advances(bytes, pos, strings);
            }
        }
        let node = match cursor.next()? {
            Some(node) => node,
            None => {
                return Ok(None);
            },
        };
        let memory = match node.get_property("device_type")? {
            Some(device_type) => match device_type.value_str() {
                Some(text) => same_text(text, "memory"),
                None => false,
            },
            None => false,
        };
        if memory {
            let prop = match node.get_property("reg")? {
                Some(prop) => prop,
                None => {
                    return Ok(None);
                },
            };
            let reg = prop.raw_value();
            let (address, size) = match (read_u64(reg, 0), read_u64(reg, 8)) {
                (Some(address), Some(size)) => (address, size),
                _ => {
                    return Ok(None);
                },
            };
            if size > usize::MAX as u64 || address > (usize::MAX as u64) - size {
                return Ok(None);
            }
            let end: usize = (address + size) as usize;
            let start: usize = if kernel_end as u64 > address && kernel_end < end {
                kernel_end
            } else {
                address as usize
            };
            return Ok(Some(HeapBounds { start, end }));
        }
    }
}

} // verus!
