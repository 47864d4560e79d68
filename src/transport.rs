//! The transport abstraction: raw chip-select-bracketed SPI transactions.
use vstd::prelude::*;

verus! {

/// A fault of the physical link.
#[derive(Clone, Copy, Debug, PartialEq, Eq)]
pub enum TransportError {
    /// The transmit buffer is longer than the peripheral can send at once.
    TxBufferTooLong,
    /// The receive buffer is longer than the peripheral can fill at once.
    RxBufferTooLong,
    /// Transmission failed.
    Transmit,
    /// Reception failed.
    Receive,
}

/// The shape of one transaction.
#[derive(Clone, Copy, Debug, PartialEq, Eq)]
pub enum Direction {
    /// Bytes out only.
    Send,
    /// Bytes in only (zeros clocked out).
    Read,
    /// Bytes out, then bytes in, under one chip select.
    SendRead,
}

/// One transaction as it happened: what went out, what came back, and
/// whether the link reported a fault.
pub struct Transfer {
    pub dir: Direction,
    pub tx: Seq<u8>,
    pub rx: Seq<u8>,
    pub outcome: Result<(), TransportError>,
}

/// A link to one flash chip, provided by the board. Each method is one
/// chip-select-bracketed transaction and appends exactly one [`Transfer`] to
/// the trace: the bytes it was handed, the bytes it put into the receive
/// buffer, and the result it returns.
pub trait Transmitter {
    /// Every transaction made on this link so far, oldest first.
    spec fn trace(&self) -> Seq<Transfer>;

    /// Transmits `buffer`.
    fn send(&mut self, buffer: &[u8]) -> (r: Result<(), TransportError>)
        ensures
            final(self).trace() == old(self).trace().push(
                (Transfer { dir: Direction::Send, tx: buffer@, rx: Seq::empty(), outcome: r }),
            ),
    ;

    /// Clocks in `buffer.len()` bytes into `buffer`.
    fn read(&mut self, buffer: &mut [u8]) -> (r: Result<(), TransportError>)
        ensures
            final(buffer)@.len() == old(buffer)@.len(),
            final(self).trace() == old(self).trace().push(
                (Transfer {
                    dir: Direction::Read,
                    tx: Seq::empty(),
                    rx: final(buffer)@,
                    outcome: r,
                }),
            ),
    ;

    /// Transmits `buffer_tx`, then clocks in `buffer_rx.len()` bytes into
    /// `buffer_rx`, without releasing chip select in between.
    fn send_read(&mut self, buffer_tx: &[u8], buffer_rx: &mut [u8]) -> (r: Result<(), TransportError>)
        ensures
            final(buffer_rx)@.len() == old(buffer_rx)@.len(),
            final(self).trace() == old(self).trace().push(
                (Transfer {
                    dir: Direction::SendRead,
                    tx: buffer_tx@,
                    rx: final(buffer_rx)@,
                    outcome: r,
                }),
            ),
    ;
}

} // verus!
