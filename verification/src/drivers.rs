//! The driver interface: what the kernel asks of a device. Implementations
//! wrap real hardware, so the kernel states nothing about what a block
//! holds — only the shape of the calls.

use vstd::prelude::*;

verus! {

/// What kind of device a driver serves; storage is the only kind the
/// kernel consumes so far.
#[derive(Clone, Copy, Debug, Eq, PartialEq, Structural)]
pub enum DeviceType {
    Block,
}

/// A registered device driver: its kind, and block-granularity transfers
/// for storage devices. A transfer's success is the device's to decide.
pub trait Driver {
    /// The kind of device behind this driver.
    fn device_type(&self) -> DeviceType;

    /// Reads block `block_id` into `buf`; true on success.
    fn read_block(&self, block_id: usize, buf: &mut Vec<u8>) -> bool;

    /// Writes `buf` into block `block_id`; true on success.
    fn write_block(&self, block_id: usize, buf: &Vec<u8>) -> bool;
}

} // verus!
