//! Driver for SPI-attached NOR flash chips.
//!
//! The controller turns memory operations into the chip's byte-level command
//! protocol. Every transaction it makes goes through a [`Transmitter`], whose
//! ghost trace records what each call was handed and what it handed back;
//! the contracts of the controller state exactly what it adds to that trace.

pub mod flash;
pub mod mock;
pub mod opcode;
pub mod protocol;
pub mod transport;

pub use flash::SPIFlash;
pub use mock::{Exchange, RecordingTransport};
pub use protocol::{FlashError, POLL_LIMIT};
pub use transport::{Direction, Transfer, Transmitter, TransportError};
