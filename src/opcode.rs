//! The chip's command set: one byte per command, fixed by the JEDEC-compatible
//! flash command standard.
use vstd::prelude::*;

verus! {

/// Write enable: must precede every program, erase and status write.
pub const WRITE_ENABLE: u8 = 0x06;

/// Write disable.
pub const WRITE_DISABLE: u8 = 0x04;

/// Erase one 4 KiB block.
pub const BLOCK_ERASE_4K: u8 = 0x20;

/// Erase one 32 KiB block.
pub const BLOCK_ERASE_32K: u8 = 0x52;

/// Erase one 64 KiB block.
pub const BLOCK_ERASE_64K: u8 = 0xD8;

/// Erase the whole array; may take several seconds.
pub const CHIP_ERASE: u8 = 0x60;

/// Read the status register.
pub const STATUS_READ: u8 = 0x05;

/// Write the status register.
pub const STATUS_WRITE: u8 = 0x01;

/// Read the array at full speed: one dummy byte follows the address.
pub const ARRAY_READ: u8 = 0x0B;

/// Read the array at low frequency.
pub const ARRAY_READ_LOW_FREQ: u8 = 0x03;

/// Enter deep power-down.
pub const SLEEP: u8 = 0xB9;

/// Leave deep power-down.
pub const WAKE: u8 = 0xAB;

/// Program one to 256 bytes.
pub const BYTE_PAGE_PROGRAM: u8 = 0x02;

/// Read the JEDEC manufacturer and device identifier (two bytes).
pub const ID_READ: u8 = 0x9F;

/// Read the unique identifier (eight bytes after four dummy bytes).
pub const UNIQUE_ID_READ: u8 = 0x4B;

} // verus!
