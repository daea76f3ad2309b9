//! Hardware discovery for a bare-metal kernel: a decoder for the flattened
//! hardware-description tree handed over at boot, and the driver registry and
//! manager that bind drivers to the devices the tree describes.

pub mod allocator;
pub mod children;
pub mod discovery;
pub mod driver;
pub mod driver_capabilities;
pub mod dtb;
pub mod heap;
pub mod layout;
pub mod log;
pub mod manager;
pub mod memory;
pub mod node;
pub mod ns16550a;
pub mod process;
pub mod properties;
pub mod reader;
pub mod registry;
pub mod reserve_entry;
pub mod shared;
pub mod structure;
pub mod text;
pub mod time;
pub mod tokens;
pub mod wire;
