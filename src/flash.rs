//! The flash controller: the chip's command protocol over a [`Transmitter`].
use vstd::prelude::*;

use crate::opcode::{
    ARRAY_READ, ARRAY_READ_LOW_FREQ, BLOCK_ERASE_32K, BLOCK_ERASE_4K, BLOCK_ERASE_64K, BYTE_PAGE_PROGRAM,
    CHIP_ERASE, ID_READ, SLEEP, STATUS_READ, STATUS_WRITE, UNIQUE_ID_READ, WAKE, WRITE_ENABLE,
};
use crate::protocol::{
    addressed, align_32k, align_4k, align_64k, busy_bit, carries_out, chip_erase_plan, command_plan,
    device_id_tx, enable_write_plan, erase_32k_plan, erase_4k_plan, erase_64k_plan, exchanged,
    fault_of, is_status_poll, is_wait, lemma_carries_out_stopped, lemma_carries_out_then,
    lemma_runs_one, polled_busy, read_byte_tx, read_bytes_tx, reply, sleep_plan, status_read_tx,
    step_result, unique_id_tx, unlock_plan, wakeup_plan, write_byte_plan, write_command_plan,
    write_enabled, FlashError, Step, POLL_LIMIT,
};
use crate::transport::{Direction, Transfer, TransportError, Transmitter};

verus! {

/// A controller for one flash chip, owning the link to it.
///
/// The contracts of its operations state exactly which transactions they
/// add to the transport's trace: the bytes handed to the transport, and how
/// the operation acts on what the transport hands back.
///
/// Read-class operations make their transaction at once. Write-class
/// operations set write enable and wait for the chip to be ready first;
/// erases also wait for the erase to finish, while a program returns as soon
/// as it is issued. Sleep and wake-up never wait.
pub struct SPIFlash<T: Transmitter> {
    /// The link to the chip.
    pub transport: T,
    /// The JEDEC identifier: the one expected at construction, or the last
    /// one read from the chip.
    pub jedec_id: u16,
}

impl<T: Transmitter> SPIFlash<T> {
    /// Every transaction made on the link so far.
    pub open spec fn log(&self) -> Seq<Transfer> {
        self.transport.trace()
    }

    /// A controller for the chip behind `transport`, whose JEDEC identifier
    /// is expected to be `jedec_id`. No transaction is made.
    pub fn new(transport: T, jedec_id: u16) -> (r: Self)
        ensures
            r.transport == transport,
            r.jedec_id == jedec_id,
    {
        SPIFlash { transport, jedec_id }
    }

    /// One transaction that sends `tx` and receives into `rx`, recorded.
    fn exchange(&mut self, tx: &[u8], rx: &mut [u8]) -> (r: Result<(), TransportError>)
        ensures
            final(rx)@.len() == old(rx)@.len(),
            final(self).log() == old(self).log().push(
                Transfer { dir: Direction::SendRead, tx: tx@, rx: final(rx)@, outcome: r },
            ),
            final(self).jedec_id == old(self).jedec_id,
    {
        self.transport.send_read(tx, rx)
    }

    /// One transaction that sends `tx`.
    fn transmit(&mut self, tx: &[u8]) -> (r: Result<(), FlashError>)
        ensures
            carries_out(old(self).log(), final(self).log(), seq![Step::Send(tx@)], r),
            final(self).jedec_id == old(self).jedec_id,
    {
        let res = self.transport.send(tx);
        proof {
            let before = old(self).log();
            let after = self.log();
            let d = after.skip(before.len() as int);
            assert(d =~= seq![after.last()]);
            assert(after.take(before.len() as int) =~= before);
            lemma_runs_one(d, Step::Send(tx@));
        }
        match res {
            Ok(()) => Ok(()),
            Err(e) => Err(FlashError::Transport(e)),
        }
    }

    /// Reads the status register in one transaction and returns it as
    /// received, every bit unchanged.
    pub fn read_status(&mut self) -> (r: Result<u8, FlashError>)
        ensures
            exchanged(old(self).log(), final(self).log(), status_read_tx(), 1),
            match r {
                Ok(s) => reply(final(self).log().last()) == Ok::<Seq<u8>, FlashError>(seq![s]),
                Err(e) => reply(final(self).log().last()) == Err::<Seq<u8>, FlashError>(e),
            },
            final(self).jedec_id == old(self).jedec_id,
    {
        let tx = [STATUS_READ];
        let mut rx = [0u8; 1];
        let res = self.exchange(&tx, &mut rx);
        assert(tx@ =~= status_read_tx());
        match res {
            Ok(()) => {
                assert(rx@ =~= seq![rx[0]]);
                Ok(rx[0])
            },
            Err(e) => Err(FlashError::Transport(e)),
        }
    }

    /// Whether the chip is busy: bit 0 of the status register, read afresh
    /// in exactly one transaction.
    pub fn is_busy(&mut self) -> (r: Result<bool, FlashError>)
        ensures
            exchanged(old(self).log(), final(self).log(), status_read_tx(), 1),
            match r {
                Ok(b) => fault_of(final(self).log().last()) is Ok && b == busy_bit(
                    final(self).log().last().rx[0],
                ),
                Err(e) => fault_of(final(self).log().last()) == Err::<(), FlashError>(e),
            },
            final(self).jedec_id == old(self).jedec_id,
    {
        match self.read_status() {
            Ok(s) => Ok(s & 1 == 1),
            Err(e) => Err(e),
        }
    }

    /// Polls the status register until the chip reports not busy.
    ///
    /// Every transaction is a status read; every read but the last reported
    /// busy. A transport fault ends the wait with that fault. After
    /// `POLL_LIMIT` busy reports it gives up with `StillBusy`.
    pub fn wait(&mut self) -> (r: Result<(), FlashError>)
        ensures
            carries_out(old(self).log(), final(self).log(), seq![Step::Wait], r),
            final(self).jedec_id == old(self).jedec_id,
    {
        let ghost before = self.log();
        let mut polls: u64 = 0;
        loop
            invariant
                before == old(self).log(),
                self.jedec_id == old(self).jedec_id,
                polls < POLL_LIMIT,
                self.log().len() == before.len() + polls,
                self.log().take(before.len() as int) == before,
                forall|i: int|
                    before.len() <= i < self.log().len() ==> is_status_poll(#[trigger] self.log()[i])
                        && polled_busy(self.log()[i]),
            decreases POLL_LIMIT - polls,
        {
            let ghost mid = self.log();
            let busy = self.is_busy();
            polls = polls + 1;
            proof {
                let after = self.log();
                assert(after.take(before.len() as int) =~= before) by {
                    assert(after.take(before.len() as int) =~= mid.take(before.len() as int));
                }
                assert forall|i: int| before.len() <= i < after.len() - 1 implies is_status_poll(
                    #[trigger] after[i],
                ) && polled_busy(after[i]) by {
                    assert(after[i] == mid[i]);
                }
                assert(is_status_poll(after.last()));
            }
            let done = match busy {
                Err(e) => Some(Err(e)),
                Ok(false) => Some(Ok(())),
                Ok(true) => if polls == POLL_LIMIT {
                    Some(Err(FlashError::StillBusy))
                } else {
                    None
                },
            };
            match done {
                Some(r) => {
                    proof {
                        let after = self.log();
                        let d = after.skip(before.len() as int);
                        assert forall|i: int| 0 <= i < d.len() implies is_status_poll(
                            #[trigger] d[i],
                        ) by {
                            assert(d[i] == after[before.len() + i]);
                        }
                        assert forall|i: int| 0 <= i < d.len() - 1 implies polled_busy(
                            #[trigger] d[i],
                        ) by {
                            assert(d[i] == after[before.len() + i]);
                        }
                        assert(d.last() == after.last());
                        assert(is_wait(d));
                        lemma_runs_one(d, Step::Wait);
                        assert(r == step_result(d.last(), Step::Wait));
                    }
                    return r;
                },
                None => {},
            }
        }
    }

    /// Reads the JEDEC identifier, manufacturer byte first, and keeps it as
    /// the controller's `jedec_id`.
    pub fn read_device_id(&mut self) -> (r: Result<u16, FlashError>)
        ensures
            exchanged(old(self).log(), final(self).log(), device_id_tx(), 2),
            match r {
                Ok(id) => {
                    &&& fault_of(final(self).log().last()) is Ok
                    &&& id == final(self).log().last().rx[0] * 256 + final(self).log().last().rx[1]
                    &&& final(self).jedec_id == id
                },
                Err(e) => {
                    &&& fault_of(final(self).log().last()) == Err::<(), FlashError>(e)
                    &&& final(self).jedec_id == old(self).jedec_id
                },
            },
    {
        let tx = [ID_READ];
        let mut rx = [0u8; 2];
        let res = self.exchange(&tx, &mut rx);
        assert(tx@ =~= device_id_tx());
        match res {
            Ok(()) => {
                let high = rx[0];
                let low = rx[1];
                let id = ((high as u16) << 8u16) | (low as u16);
                assert(id == (high as u16) * 256 + (low as u16)) by (bit_vector)
                    requires
                        id == ((high as u16) << 8u16) | (low as u16),
                ;
                self.jedec_id = id;
                Ok(id)
            },
            Err(e) => Err(FlashError::Transport(e)),
        }
    }

    /// Reads the chip's unique identifier: the opcode and four dummy bytes
    /// go out, eight bytes come back.
    pub fn read_unique_id(&mut self) -> (r: Result<[u8; 8], FlashError>)
        ensures
            exchanged(old(self).log(), final(self).log(), unique_id_tx(), 8),
            match r {
                Ok(id) => reply(final(self).log().last()) == Ok::<Seq<u8>, FlashError>(id@),
                Err(e) => reply(final(self).log().last()) == Err::<Seq<u8>, FlashError>(e),
            },
            final(self).jedec_id == old(self).jedec_id,
    {
        let tx = [UNIQUE_ID_READ, 0u8, 0u8, 0u8, 0u8];
        let mut rx = [0u8; 8];
        let res = self.exchange(&tx, &mut rx);
        assert(tx@ =~= unique_id_tx());
        match res {
            Ok(()) => Ok(rx),
            Err(e) => Err(FlashError::Transport(e)),
        }
    }

    /// Reads the byte at `address` at low frequency.
    pub fn read_byte(&mut self, address: u32) -> (r: Result<u8, FlashError>)
        ensures
            exchanged(old(self).log(), final(self).log(), read_byte_tx(address), 1),
            match r {
                Ok(b) => reply(final(self).log().last()) == Ok::<Seq<u8>, FlashError>(seq![b]),
                Err(e) => reply(final(self).log().last()) == Err::<Seq<u8>, FlashError>(e),
            },
            final(self).jedec_id == old(self).jedec_id,
    {
        let tx = [ARRAY_READ_LOW_FREQ, (address >> 16u32) as u8, (address >> 8u32) as u8, address as u8];
        let mut rx = [0u8; 1];
        let res = self.exchange(&tx, &mut rx);
        assert(tx@ =~= read_byte_tx(address));
        match res {
            Ok(()) => {
                assert(rx@ =~= seq![rx[0]]);
                Ok(rx[0])
            },
            Err(e) => Err(FlashError::Transport(e)),
        }
    }

    /// Reads `buffer.len()` bytes from `address` on at full speed into
    /// `buffer`. A transport fault is returned, never hidden behind the bytes.
    pub fn read_bytes(&mut self, address: u32, buffer: &mut [u8]) -> (r: Result<(), FlashError>)
        ensures
            exchanged(old(self).log(), final(self).log(), read_bytes_tx(address), old(buffer)@.len()),
            final(buffer)@ == final(self).log().last().rx,
            r == fault_of(final(self).log().last()),
            final(self).jedec_id == old(self).jedec_id,
    {
        let tx = [
            ARRAY_READ,
            (address >> 16u32) as u8,
            (address >> 8u32) as u8,
            address as u8,
            0u8,
        ];
        let res = self.exchange(&tx, buffer);
        assert(tx@ =~= read_bytes_tx(address));
        match res {
            Ok(()) => Ok(()),
            Err(e) => Err(FlashError::Transport(e)),
        }
    }

    /// Sets write enable, then waits until the chip is ready.
    pub fn enable_write(&mut self) -> (r: Result<(), FlashError>)
        ensures
            carries_out(old(self).log(), final(self).log(), enable_write_plan(), r),
            final(self).jedec_id == old(self).jedec_id,
    {
        let ghost s0 = self.log();
        let ghost first = seq![Step::Send(seq![WRITE_ENABLE])];
        let ghost second = seq![Step::Wait];
        assert(first + second =~= enable_write_plan());
        let tx = [WRITE_ENABLE];
        assert(tx@ =~= seq![WRITE_ENABLE]);
        let first_result = self.transmit(&tx);
        match first_result {
            Ok(()) => {},
            Err(e) => {
                proof {
                    lemma_carries_out_stopped(s0, self.log(), first, second, e);
                }
                return Err(e);
            },
        }
        let ghost s1 = self.log();
        let r = self.wait();
        proof {
            lemma_carries_out_then(s0, s1, self.log(), first, first_result, second, r);
        }
        r
    }

    /// Sets write enable, waits until the chip is ready, then sends `tx`.
    fn enabled_send(&mut self, tx: &[u8]) -> (r: Result<(), FlashError>)
        ensures
            carries_out(old(self).log(), final(self).log(), write_enabled(seq![Step::Send(tx@)]), r),
            final(self).jedec_id == old(self).jedec_id,
    {
        let ghost s0 = self.log();
        let ghost rest = seq![Step::Send(tx@)];
        assert(enable_write_plan() + rest =~= write_enabled(rest));
        let first_result = self.enable_write();
        match first_result {
            Ok(()) => {},
            Err(e) => {
                proof {
                    lemma_carries_out_stopped(s0, self.log(), enable_write_plan(), rest, e);
                }
                return Err(e);
            },
        }
        let ghost s1 = self.log();
        let r = self.transmit(tx);
        proof {
            lemma_carries_out_then(s0, s1, self.log(), enable_write_plan(), first_result, rest, r);
        }
        r
    }

    /// Sets write enable, waits until the chip is ready, sends `tx`, then
    /// waits until the operation it started has finished.
    fn enabled_send_wait(&mut self, tx: &[u8]) -> (r: Result<(), FlashError>)
        ensures
            carries_out(
                old(self).log(),
                final(self).log(),
                write_enabled(seq![Step::Send(tx@), Step::Wait]),
                r,
            ),
            final(self).jedec_id == old(self).jedec_id,
    {
        let ghost s0 = self.log();
        let ghost first = write_enabled(seq![Step::Send(tx@)]);
        let ghost second = seq![Step::Wait];
        assert(first + second =~= write_enabled(seq![Step::Send(tx@), Step::Wait]));
        let first_result = self.enabled_send(tx);
        match first_result {
            Ok(()) => {},
            Err(e) => {
                proof {
                    lemma_carries_out_stopped(s0, self.log(), first, second, e);
                }
                return Err(e);
            },
        }
        let ghost s1 = self.log();
        let r = self.wait();
        proof {
            lemma_carries_out_then(s0, s1, self.log(), first, first_result, second, r);
        }
        r
    }

    /// Sends the opcode `command` alone, without write enable. Every opcode
    /// but wake-up waits first until the chip is ready; wake-up is sent at
    /// once, as a sleeping chip cannot answer a status read.
    pub fn command(&mut self, command: u8) -> (r: Result<(), FlashError>)
        ensures
            carries_out(old(self).log(), final(self).log(), command_plan(command), r),
            final(self).jedec_id == old(self).jedec_id,
    {
        let tx = [command];
        assert(tx@ =~= seq![command]);
        if command == WAKE {
            return self.transmit(&tx);
        }
        let ghost s0 = self.log();
        let ghost first = seq![Step::Wait];
        let ghost second = seq![Step::Send(seq![command])];
        assert(first + second =~= command_plan(command));
        let first_result = self.wait();
        match first_result {
            Ok(()) => {},
            Err(e) => {
                proof {
                    lemma_carries_out_stopped(s0, self.log(), first, second, e);
                }
                return Err(e);
            },
        }
        let ghost s1 = self.log();
        let r = self.transmit(&tx);
        proof {
            lemma_carries_out_then(s0, s1, self.log(), first, first_result, second, r);
        }
        r
    }

    /// Sends the write-class opcode `command`: write enable and the wait for
    /// the chip to be ready come first.
    pub fn write_command(&mut self, command: u8) -> (r: Result<(), FlashError>)
        ensures
            carries_out(old(self).log(), final(self).log(), write_command_plan(command), r),
            final(self).jedec_id == old(self).jedec_id,
    {
        let tx = [command];
        assert(tx@ =~= seq![command]);
        self.enabled_send(&tx)
    }

    /// Clears the status register, which lifts the block protection. The
    /// status write is not waited for.
    pub fn unlock(&mut self) -> (r: Result<(), FlashError>)
        ensures
            carries_out(old(self).log(), final(self).log(), unlock_plan(), r),
            final(self).jedec_id == old(self).jedec_id,
    {
        let tx = [STATUS_WRITE, 0u8];
        assert(tx@ =~= seq![STATUS_WRITE, 0u8]);
        self.enabled_send(&tx)
    }

    /// Programs `byte` at `address`, which must have been erased. Returns as
    /// soon as the program is issued: the next write enable waits for it.
    pub fn write_byte(&mut self, address: u32, byte: u8) -> (r: Result<(), FlashError>)
        ensures
            carries_out(old(self).log(), final(self).log(), write_byte_plan(address, byte), r),
            final(self).jedec_id == old(self).jedec_id,
    {
        let tx = [
            BYTE_PAGE_PROGRAM,
            (address >> 16u32) as u8,
            (address >> 8u32) as u8,
            address as u8,
            byte,
        ];
        assert(tx@ =~= addressed(BYTE_PAGE_PROGRAM, address).push(byte));
        self.enabled_send(&tx)
    }

    /// Erases the whole array and waits until the erase has finished, which
    /// may take seconds.
    pub fn chip_erase(&mut self) -> (r: Result<(), FlashError>)
        ensures
            carries_out(old(self).log(), final(self).log(), chip_erase_plan(), r),
            final(self).jedec_id == old(self).jedec_id,
    {
        let tx = [CHIP_ERASE];
        assert(tx@ =~= seq![CHIP_ERASE]);
        self.enabled_send_wait(&tx)
    }

    /// Erases the 4 KiB block that holds `address` and waits until the erase
    /// has finished. The address is rounded down to the block's start: its
    /// low 12 bits are cleared before it is sent.
    pub fn erase_4k_block(&mut self, address: u32) -> (r: Result<(), FlashError>)
        ensures
            carries_out(old(self).log(), final(self).log(), erase_4k_plan(address), r),
            final(self).jedec_id == old(self).jedec_id,
    {
        let start = address & 0xFFFF_F000u32;
        let tx = [BLOCK_ERASE_4K, (start >> 16u32) as u8, (start >> 8u32) as u8, start as u8];
        assert(tx@ =~= addressed(BLOCK_ERASE_4K, align_4k(address)));
        self.enabled_send_wait(&tx)
    }

    /// Erases the 32 KiB block that holds `address` and waits until the erase
    /// has finished. The address is rounded down to the block's start: its
    /// low 15 bits are cleared before it is sent.
    pub fn erase_32k_block(&mut self, address: u32) -> (r: Result<(), FlashError>)
        ensures
            carries_out(old(self).log(), final(self).log(), erase_32k_plan(address), r),
            final(self).jedec_id == old(self).jedec_id,
    {
        let start = address & 0xFFFF_8000u32;
        let tx = [BLOCK_ERASE_32K, (start >> 16u32) as u8, (start >> 8u32) as u8, start as u8];
        assert(tx@ =~= addressed(BLOCK_ERASE_32K, align_32k(address)));
        self.enabled_send_wait(&tx)
    }

    /// Erases the 64 KiB block that holds `address` and waits until the erase
    /// has finished. The address is rounded down to the block's start: its
    /// low 16 bits are cleared before it is sent.
    pub fn erase_64k_block(&mut self, address: u32) -> (r: Result<(), FlashError>)
        ensures
            carries_out(old(self).log(), final(self).log(), erase_64k_plan(address), r),
            final(self).jedec_id == old(self).jedec_id,
    {
        let start = address & 0xFFFF_0000u32;
        let tx = [BLOCK_ERASE_64K, (start >> 16u32) as u8, (start >> 8u32) as u8, start as u8];
        assert(tx@ =~= addressed(BLOCK_ERASE_64K, align_64k(address)));
        self.enabled_send_wait(&tx)
    }

    /// Puts the chip into deep power-down, without waiting for it first.
    pub fn sleep(&mut self) -> (r: Result<(), FlashError>)
        ensures
            carries_out(old(self).log(), final(self).log(), sleep_plan(), r),
            final(self).jedec_id == old(self).jedec_id,
    {
        let tx = [SLEEP];
        assert(tx@ =~= seq![SLEEP]);
        self.transmit(&tx)
    }

    /// Wakes the chip from deep power-down, without waiting for it first: a
    /// sleeping chip cannot answer a status read.
    pub fn wakeup(&mut self) -> (r: Result<(), FlashError>)
        ensures
            carries_out(old(self).log(), final(self).log(), wakeup_plan(), r),
            final(self).jedec_id == old(self).jedec_id,
    {
        self.command(WAKE)
    }

} // impl

} // verus!
