//! The NS16550A serial port.

use crate::driver::{texts, Driver};
use crate::driver_capabilities::{serial_byte, MmioWrite, UartDriver};
use crate::manager::{Bindings, CapabilityKind, DriverManager};
use crate::node::{DeviceTreeNode, NodeView};
use crate::properties::find_property;
use crate::shared::share;
use crate::wire::{read_u32, word_at};
use vstd::prelude::*;

verus! {

/// An NS16550A at a fixed place in memory.
#[derive(Debug, Clone, Copy)]
pub struct Ns16550a {
    address: usize,
}

/// The base address that a `reg` value gives: its second big-endian word.
pub open spec fn mmio_base(reg: Seq<u8>) -> Option<usize> {
    match word_at(reg, 4) {
        Some(word) => Some(word as usize),
        None => None,
    }
}

/// The base address that the `reg` property of `node` gives.
pub open spec fn reg_base(bytes: Seq<u8>, node: NodeView) -> Option<usize> {
    match node.props {
        None => None,
        Some(pos) => match find_property(bytes, pos, node.strings, "reg"@) {
            Ok(Some(prop)) => mmio_base(prop.value),
            _ => None,
        },
    }
}

impl Ns16550a {
    /// The device at `address`.
    pub closed spec fn at(address: usize) -> Ns16550a {
        Ns16550a { address }
    }

    /// The address of the device's registers.
    pub closed spec fn spec_base(&self) -> usize {
        self.address
    }

    /// A device is wholly given by its base address.
    pub broadcast proof fn lemma_at(address: usize)
        ensures
            (#[trigger] Ns16550a::at(address)).spec_base() == address,
    {
    }

    /// The address of the device's registers.
    #[verifier::when_used_as_spec(spec_base)]
    pub fn base(&self) -> (r: usize)
        ensures
            r == self.spec_base(),
    {
        self.address
    }

    /// The device that the `reg` property of `node` describes, if it
    /// describes one.
    pub fn from_node(node: &DeviceTreeNode) -> (r: Option<Ns16550a>)
        ensures
            match reg_base(node.blob(), node@) {
                Some(address) => r == Some(Ns16550a::at(address)) && r->0.base() == address,
                None => r is None,
            },
    {
        let prop = match node.get_property("reg") {
            Ok(Some(prop)) => prop,
            _ => {
                return None;
            },
        };
        match read_u32(prop.raw_value(), 4) {
            Some(word) => Some(Ns16550a { address: word as usize }),
            None => None,
        }
    }

    /// The stores that send the characters of `s`, in order.
    pub fn write_str(&mut self, s: &str) -> (writes: Vec<MmioWrite>)
        ensures
            *final(self) == *old(self),
            writes@.len() == s@.len(),
            forall|i: int|
                0 <= i < s@.len() ==> (#[trigger] writes@[i]).address == old(self).base()
                    && writes@[i].value == serial_byte(s@[i]),
    {
        let n: usize = s.unicode_len();
        let mut writes: Vec<MmioWrite> = Vec::new();
        let mut i: usize = 0;
        while i < n
            invariant
                i <= n,
                n == s@.len(),
                *self == *old(self),
                writes@.len() == i,
                forall|j: int|
                    0 <= j < i ==> (#[trigger] writes@[j]).address == old(self).base()
                        && writes@[j].value == serial_byte(s@[j]),
            decreases n - i,
        {
            let w = self.put_char(s.get_char(i));
            writes.push(w);
            i = i + 1;
        }
        writes
    }
}

impl Driver for Ns16550a {
    open spec fn outcome(bytes: Seq<u8>, node: NodeView, path: Seq<char>, before: Bindings) -> (
        bool,
        Bindings,
    ) {
        match reg_base(bytes, node) {
            Some(address) => (
                true,
                before.insert((path, CapabilityKind::Uart), Ns16550a::at(address)),
            ),
            None => (false, before),
        }
    }

    open spec fn names() -> Seq<Seq<char>> {
        seq!["ns16550a"@]
    }

    fn try_initialize(node: &DeviceTreeNode, path: &str, manager: &mut DriverManager) -> (ok: bool)
    {
        match Ns16550a::from_node(node) {
            Some(device) => {
                manager.register_capability(path, CapabilityKind::Uart, share(device));
                true
            },
            None => false,
        }
    }

    fn compatible() -> (r: &'static [&'static str]) {
        let r: &'static [&'static str] = &["ns16550a"];
        assert(texts(r@) =~= Self::names());
        r
    }
}

impl UartDriver for Ns16550a {
    open spec fn transmit_register(&self) -> usize {
        self.base()
    }

    fn put_char(&mut self, c: char) -> (w: MmioWrite) {
        let code: u32 = c as u32;
        MmioWrite { address: self.address, value: (code % 256) as u8 }
    }
}

} // verus!
