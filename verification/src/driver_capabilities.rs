//! The capabilities that a driver can expose.

use crate::driver::Driver;
use vstd::prelude::*;

verus! {

/// One store of a byte to a device register.
#[derive(Debug, Clone, Copy, PartialEq, Eq)]
pub struct MmioWrite {
    pub address: usize,
    pub value: u8,
}

/// The byte that stands for a character on a serial line: the low eight bits
/// of its code point.
pub open spec fn serial_byte(c: char) -> u8 {
    (c as u32 % 256) as u8
}

/// A serial port.
pub trait UartDriver: Driver {
    /// The register that takes the characters to send.
    spec fn transmit_register(&self) -> usize;

    /// Says which store sends `c`. The driver decides; whoever holds the
    /// device performs the store.
    fn put_char(&mut self, c: char) -> (w: MmioWrite)
        ensures
            w.address == old(self).transmit_register(),
            w.value == serial_byte(c),
            final(self).transmit_register() == old(self).transmit_register(),
    ;
}

} // verus!
