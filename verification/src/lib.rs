//! An address-mapped I/O bus for a system emulator.
//!
//! A [`bus::Bus`] dispatches byte-granular reads and writes in a global
//! address space to registered devices, translating each global address
//! into a device-local offset. A device is either a lazily-paged sparse
//! store ([`ram::Ram`]) or another bus, so buses compose into bridges.

pub mod bus;
pub mod discovery;
pub mod dtb;
pub mod error;
pub mod laws;
pub mod ram;
pub mod range;
