//! The command protocol as a model: what each operation transmits, how a
//! busy-wait polls the status register, and how a sequence of transactions
//! follows a plan of steps.
use vstd::prelude::*;

use crate::opcode::{
    ARRAY_READ, ARRAY_READ_LOW_FREQ, BLOCK_ERASE_32K, BLOCK_ERASE_4K, BLOCK_ERASE_64K, BYTE_PAGE_PROGRAM,
    CHIP_ERASE, ID_READ, SLEEP, STATUS_READ, STATUS_WRITE, UNIQUE_ID_READ, WAKE, WRITE_ENABLE,
};
use crate::transport::{Direction, Transfer, TransportError};

verus! {

/// Why a controller operation did not complete.
#[derive(Clone, Copy, Debug, PartialEq, Eq)]
pub enum FlashError {
    /// The transport reported a fault; it is passed on unchanged.
    Transport(TransportError),
    /// The chip still reported busy after `POLL_LIMIT` status reads.
    StillBusy,
}

/// The most status reads one busy-wait makes. At any bus speed this is far
/// beyond the lifetime of the hardware, so in effect the wait is unbounded;
/// the bound only makes the loop's termination explicit.
pub const POLL_LIMIT: u64 = 0xFFFF_FFFF_FFFF_FFFF;

/// The 24-bit address `addr` as transmitted: three bytes, most significant
/// first. Bits above the 24th are not sent.
pub open spec fn address_bytes(addr: u32) -> Seq<u8> {
    seq![
        #[verifier::truncate]
        ((addr >> 16u32) as u8),
        #[verifier::truncate]
        ((addr >> 8u32) as u8),
        #[verifier::truncate]
        (addr as u8),
    ]
}

/// The number that three transmitted address bytes stand for.
pub open spec fn address_value(b: Seq<u8>) -> int {
    b[0] * 0x10000 + b[1] * 0x100 + b[2]
}

/// One step of an operation's plan.
pub enum Step {
    /// Transmit these bytes in one transaction.
    Send(Seq<u8>),
    /// Transmit these bytes and receive this many in one transaction.
    Exchange(Seq<u8>, nat),
    /// Read the status register until it reports not busy.
    Wait,
}

/// `t` is a read of the status register: the opcode out, one byte in.
pub open spec fn is_status_poll(t: Transfer) -> bool {
    &&& t.dir == Direction::SendRead
    &&& t.tx == seq![STATUS_READ]
    &&& t.rx.len() == 1
}

/// Bit 0 of a status register value: the chip is busy.
pub open spec fn busy_bit(status: u8) -> bool {
    status & 1u8 == 1u8
}

/// `t` completed and the status byte it received has the busy bit set.
pub open spec fn polled_busy(t: Transfer) -> bool {
    t.outcome is Ok && t.rx.len() == 1 && busy_bit(t.rx[0])
}

/// `d` is the whole of one busy-wait: status reads only, every one but the
/// last reported busy, and the last ends the wait by a fault, by reporting
/// not busy, or by reaching `POLL_LIMIT`.
pub open spec fn is_wait(d: Seq<Transfer>) -> bool {
    &&& 1 <= d.len() <= POLL_LIMIT
    &&& forall|i: int| 0 <= i < d.len() ==> is_status_poll(#[trigger] d[i])
    &&& forall|i: int| 0 <= i < d.len() - 1 ==> polled_busy(#[trigger] d[i])
    &&& polled_busy(d.last()) ==> d.len() == POLL_LIMIT
}

/// `d` is the transactions that carry out `step`.
pub open spec fn performs(d: Seq<Transfer>, step: Step) -> bool {
    match step {
        Step::Send(tx) => d.len() == 1 && d[0].dir == Direction::Send && d[0].tx == tx
            && d[0].rx.len() == 0,
        Step::Exchange(tx, n) => d.len() == 1 && d[0].dir == Direction::SendRead && d[0].tx
            == tx && d[0].rx.len() == n,
        Step::Wait => is_wait(d),
    }
}

/// The transport's verdict on one transaction.
pub open spec fn fault_of(t: Transfer) -> Result<(), FlashError> {
    match t.outcome {
        Ok(_) => Ok(()),
        Err(e) => Err(FlashError::Transport(e)),
    }
}

/// What one exchange handed back: the bytes received, or the transport's fault.
pub open spec fn reply(t: Transfer) -> Result<Seq<u8>, FlashError> {
    match t.outcome {
        Ok(_) => Ok(t.rx),
        Err(e) => Err(FlashError::Transport(e)),
    }
}

/// How a step ends, given the last transaction it made.
pub open spec fn step_result(last: Transfer, step: Step) -> Result<(), FlashError> {
    if fault_of(last) is Ok && step is Wait && polled_busy(last) {
        Err(FlashError::StillBusy)
    } else {
        fault_of(last)
    }
}

/// The transactions `d` carry out `plan` step by step and end with `r`: each
/// step takes the next transactions, and the first step that fails ends both
/// the transactions and the plan with its error.
pub open spec fn runs(d: Seq<Transfer>, plan: Seq<Step>, r: Result<(), FlashError>) -> bool
    decreases plan.len(),
{
    if plan.len() == 0 {
        d.len() == 0 && r == Ok::<(), FlashError>(())
    } else {
        exists|k: int|
            1 <= k <= d.len() && #[trigger] performs(d.take(k), plan[0]) && if step_result(
                d[k - 1],
                plan[0],
            ) is Ok {
                runs(d.skip(k), plan.skip(1), r)
            } else {
                k == d.len() && r == step_result(d[k - 1], plan[0])
            }
    }
}

/// Unfolds `runs` once: the first step took the first `k` transactions.
pub proof fn lemma_runs_first(d: Seq<Transfer>, plan: Seq<Step>, r: Result<(), FlashError>) -> (k:
    int)
    requires
        runs(d, plan, r),
        plan.len() > 0,
    ensures
        1 <= k <= d.len(),
        performs(d.take(k), plan[0]),
        step_result(d[k - 1], plan[0]) is Ok ==> runs(d.skip(k), plan.skip(1), r),
        step_result(d[k - 1], plan[0]) is Err ==> k == d.len() && r == step_result(
            d[k - 1],
            plan[0],
        ),
{
    choose|k: int|
        1 <= k <= d.len() && #[trigger] performs(d.take(k), plan[0]) && if step_result(
            d[k - 1],
            plan[0],
        ) is Ok {
            runs(d.skip(k), plan.skip(1), r)
        } else {
            k == d.len() && r == step_result(d[k - 1], plan[0])
        }
}

/// A single step, carried out by the transactions `d` alone.
pub proof fn lemma_runs_one(d: Seq<Transfer>, step: Step)
    requires
        performs(d, step),
    ensures
        runs(d, seq![step], step_result(d.last(), step)),
{
    let plan = seq![step];
    let k = d.len() as int;
    assert(d.take(k) =~= d);
    assert(d.skip(k) =~= Seq::<Transfer>::empty());
    assert(plan.skip(1) =~= Seq::<Step>::empty());
    assert(runs(d.skip(k), plan.skip(1), Ok(())));
}

/// A plan that completed, followed by another plan.
pub proof fn lemma_runs_then(
    a: Seq<Transfer>,
    p: Seq<Step>,
    done: Result<(), FlashError>,
    b: Seq<Transfer>,
    q: Seq<Step>,
    r: Result<(), FlashError>,
)
    requires
        runs(a, p, done),
        done is Ok,
        runs(b, q, r),
    ensures
        runs(a + b, p + q, r),
    decreases p.len(),
{
    if p.len() == 0 {
        assert(a + b =~= b);
        assert(p + q =~= q);
    } else {
        let k = lemma_runs_first(a, p, done);
        lemma_runs_then(a.skip(k), p.skip(1), done, b, q, r);
        assert((a + b).take(k) =~= a.take(k));
        assert((a + b).skip(k) =~= a.skip(k) + b);
        assert((p + q).skip(1) =~= p.skip(1) + q);
        assert((p + q)[0] == p[0]);
        assert((a + b)[k - 1] == a[k - 1]);
    }
}

/// A plan that stopped on an error stops every longer plan in the same place.
pub proof fn lemma_runs_stopped(d: Seq<Transfer>, p: Seq<Step>, q: Seq<Step>, e: FlashError)
    requires
        runs(d, p, Err(e)),
    ensures
        runs(d, p + q, Err(e)),
    decreases p.len(),
{
    if p.len() > 0 {
        let k = lemma_runs_first(d, p, Err(e));
        assert((p + q)[0] == p[0]);
        assert((p + q).skip(1) =~= p.skip(1) + q);
        if step_result(d[k - 1], p[0]) is Ok {
            lemma_runs_stopped(d.skip(k), p.skip(1), q, e);
        }
    }
}

/// The trace went from `before` to `after` by carrying out `plan`, which
/// ended with `r`.
pub open spec fn carries_out(
    before: Seq<Transfer>,
    after: Seq<Transfer>,
    plan: Seq<Step>,
    r: Result<(), FlashError>,
) -> bool {
    &&& before.len() <= after.len()
    &&& after.take(before.len() as int) == before
    &&& runs(after.skip(before.len() as int), plan, r)
}

/// The trace went from `before` to `after` by one exchange that sent `tx`
/// and received `n` bytes.
pub open spec fn exchanged(before: Seq<Transfer>, after: Seq<Transfer>, tx: Seq<u8>, n: nat) -> bool {
    &&& after == before.push(after.last())
    &&& after.last().dir == Direction::SendRead
    &&& after.last().tx == tx
    &&& after.last().rx.len() == n
}

/// Two plans carried out one after the other, the first to completion.
pub proof fn lemma_carries_out_then(
    s0: Seq<Transfer>,
    s1: Seq<Transfer>,
    s2: Seq<Transfer>,
    p: Seq<Step>,
    done: Result<(), FlashError>,
    q: Seq<Step>,
    r: Result<(), FlashError>,
)
    requires
        carries_out(s0, s1, p, done),
        done is Ok,
        carries_out(s1, s2, q, r),
    ensures
        carries_out(s0, s2, p + q, r),
{
    let a = s1.skip(s0.len() as int);
    let b = s2.skip(s1.len() as int);
    lemma_runs_then(a, p, done, b, q, r);
    assert(s2.take(s0.len() as int) =~= s0) by {
        assert(s2.take(s0.len() as int) =~= s2.take(s1.len() as int).take(s0.len() as int));
    }
    assert(s2.skip(s0.len() as int) =~= a + b) by {
        assert(s1 =~= s2.take(s1.len() as int));
    }
}

/// A plan that stopped on an error, seen as the start of a longer plan.
pub proof fn lemma_carries_out_stopped(
    s0: Seq<Transfer>,
    s1: Seq<Transfer>,
    p: Seq<Step>,
    q: Seq<Step>,
    e: FlashError,
)
    requires
        carries_out(s0, s1, p, Err(e)),
    ensures
        carries_out(s0, s1, p + q, Err(e)),
{
    lemma_runs_stopped(s1.skip(s0.len() as int), p, q, e);
}

/// Write enable, then the wait for the chip to be ready, then `rest`.
pub open spec fn write_enabled(rest: Seq<Step>) -> Seq<Step> {
    seq![Step::Send(seq![WRITE_ENABLE]), Step::Wait] + rest
}

/// An opcode followed by a 24-bit address.
pub open spec fn addressed(opcode: u8, addr: u32) -> Seq<u8> {
    seq![opcode] + address_bytes(addr)
}

/// `addr` rounded down to a multiple of 4 KiB.
pub open spec fn align_4k(addr: u32) -> u32 {
    addr & 0xFFFF_F000u32
}

/// `addr` rounded down to a multiple of 32 KiB.
pub open spec fn align_32k(addr: u32) -> u32 {
    addr & 0xFFFF_8000u32
}

/// `addr` rounded down to a multiple of 64 KiB.
pub open spec fn align_64k(addr: u32) -> u32 {
    addr & 0xFFFF_0000u32
}

/// Reading the status register: one exchange.
pub open spec fn status_read_tx() -> Seq<u8> {
    seq![STATUS_READ]
}

/// Reading one byte at low frequency.
pub open spec fn read_byte_tx(addr: u32) -> Seq<u8> {
    addressed(ARRAY_READ_LOW_FREQ, addr)
}

/// Reading a range at full speed: the address is followed by a dummy byte.
pub open spec fn read_bytes_tx(addr: u32) -> Seq<u8> {
    addressed(ARRAY_READ, addr).push(0u8)
}

/// Reading the JEDEC identifier.
pub open spec fn device_id_tx() -> Seq<u8> {
    seq![ID_READ]
}

/// Reading the unique identifier: the opcode and four dummy bytes.
pub open spec fn unique_id_tx() -> Seq<u8> {
    seq![UNIQUE_ID_READ, 0u8, 0u8, 0u8, 0u8]
}

/// Setting write enable and waiting until the chip is ready.
pub open spec fn enable_write_plan() -> Seq<Step> {
    write_enabled(Seq::empty())
}

/// An opcode alone, after the wait for the chip to be ready; wake-up is
/// sent at once, as a sleeping chip cannot answer a status read.
pub open spec fn command_plan(cmd: u8) -> Seq<Step> {
    if cmd == WAKE {
        seq![Step::Send(seq![cmd])]
    } else {
        seq![Step::Wait, Step::Send(seq![cmd])]
    }
}

/// A write-class opcode: write enable and the wait first.
pub open spec fn write_command_plan(cmd: u8) -> Seq<Step> {
    write_enabled(seq![Step::Send(seq![cmd])])
}

/// Clearing the status register, which removes the block protection.
pub open spec fn unlock_plan() -> Seq<Step> {
    write_enabled(seq![Step::Send(seq![STATUS_WRITE, 0u8])])
}

/// Programming one byte. The program itself is not waited for.
pub open spec fn write_byte_plan(addr: u32, byte: u8) -> Seq<Step> {
    write_enabled(seq![Step::Send(addressed(BYTE_PAGE_PROGRAM, addr).push(byte))])
}

/// Erasing the whole array, waiting until it is done.
pub open spec fn chip_erase_plan() -> Seq<Step> {
    write_enabled(seq![Step::Send(seq![CHIP_ERASE]), Step::Wait])
}

/// Erasing the 4 KiB block that holds `addr`, waiting until it is done.
pub open spec fn erase_4k_plan(addr: u32) -> Seq<Step> {
    write_enabled(seq![Step::Send(addressed(BLOCK_ERASE_4K, align_4k(addr))), Step::Wait])
}

/// Erasing the 32 KiB block that holds `addr`, waiting until it is done.
pub open spec fn erase_32k_plan(addr: u32) -> Seq<Step> {
    write_enabled(seq![Step::Send(addressed(BLOCK_ERASE_32K, align_32k(addr))), Step::Wait])
}

/// Erasing the 64 KiB block that holds `addr`, waiting until it is done.
pub open spec fn erase_64k_plan(addr: u32) -> Seq<Step> {
    write_enabled(seq![Step::Send(addressed(BLOCK_ERASE_64K, align_64k(addr))), Step::Wait])
}

/// Entering deep power-down: the opcode alone, with no busy-wait first.
pub open spec fn sleep_plan() -> Seq<Step> {
    seq![Step::Send(seq![SLEEP])]
}

/// Leaving deep power-down: no busy-wait first, as a sleeping chip cannot
/// answer a status read.
pub open spec fn wakeup_plan() -> Seq<Step> {
    command_plan(WAKE)
}

/// The three address bytes stand for the address's low 24 bits.
pub proof fn lemma_address_bytes(addr: u32)
    ensures
        address_bytes(addr).len() == 3,
        address_value(address_bytes(addr)) == addr % 0x100_0000,
{
    assert(((addr >> 16u32) as u8) as u32 * 0x10000u32 + ((addr >> 8u32) as u8) as u32 * 0x100u32
        + (addr as u8) as u32 == addr % 0x100_0000u32) by (bit_vector);
}

/// A block erase sends its opcode and then the address rounded down to the
/// block size: the address's low 12 (4 KiB), 15 (32 KiB) or 16 (64 KiB) bits
/// are cleared, and of the rest the low 24 bits are sent.
pub proof fn lemma_erase_sends_aligned(addr: u32)
    ensures
        erase_4k_plan(addr)[2] == Step::Send(seq![BLOCK_ERASE_4K] + address_bytes(align_4k(addr))),
        address_value(address_bytes(align_4k(addr))) == addr % 0x100_0000 - addr % 0x1000,
        erase_32k_plan(addr)[2] == Step::Send(
            seq![BLOCK_ERASE_32K] + address_bytes(align_32k(addr)),
        ),
        address_value(address_bytes(align_32k(addr))) == addr % 0x100_0000 - addr % 0x8000,
        erase_64k_plan(addr)[2] == Step::Send(
            seq![BLOCK_ERASE_64K] + address_bytes(align_64k(addr)),
        ),
        address_value(address_bytes(align_64k(addr))) == addr % 0x100_0000 - addr % 0x1_0000,
{
    lemma_address_bytes(align_4k(addr));
    lemma_address_bytes(align_32k(addr));
    lemma_address_bytes(align_64k(addr));
    assert((addr & 0xFFFF_F000u32) % 0x100_0000u32 == addr % 0x100_0000u32 - addr % 0x1000u32)
        by (bit_vector);
    assert((addr & 0xFFFF_8000u32) % 0x100_0000u32 == addr % 0x100_0000u32 - addr % 0x8000u32)
        by (bit_vector);
    assert((addr & 0xFFFF_0000u32) % 0x100_0000u32 == addr % 0x100_0000u32 - addr % 0x1_0000u32)
        by (bit_vector);
}

/// A busy-wait that succeeded ended on a status read that reported not busy.
pub proof fn lemma_wait_ends_idle(d: Seq<Transfer>, r: Result<(), FlashError>)
    requires
        runs(d, seq![Step::Wait], r),
        r is Ok,
    ensures
        d.len() >= 1,
        is_status_poll(d.last()),
        d.last().outcome is Ok,
        !busy_bit(d.last().rx[0]),
{
    let plan = seq![Step::Wait];
    let k = lemma_runs_first(d, plan, r);
    let w = d.take(k);
    assert(w[k - 1] == d[k - 1]);
    assert(is_status_poll(w[k - 1]));
}

/// A busy-wait on a chip that reports busy for `n` status reads and then not
/// busy, over a transport that does not fail, makes exactly `n + 1` status
/// reads and succeeds.
pub proof fn lemma_wait_poll_count(d: Seq<Transfer>, r: Result<(), FlashError>, n: nat)
    requires
        runs(d, seq![Step::Wait], r),
        n < POLL_LIMIT,
        forall|i: int| 0 <= i < d.len() ==> (#[trigger] d[i]).outcome is Ok,
        forall|i: int| 0 <= i < d.len() ==> (polled_busy(#[trigger] d[i]) <==> i < n),
    ensures
        d.len() == n + 1,
        r is Ok,
{
    let plan = seq![Step::Wait];
    let k = lemma_runs_first(d, plan, r);
    assert(k == d.len()) by {
        if step_result(d[k - 1], plan[0]) is Ok {
            assert(d.skip(k).len() == 0);
        }
    }
    assert(d.take(k) =~= d);
    assert(is_wait(d));
    if d.len() <= n {
        assert(polled_busy(d[d.len() - 1]));
    } else if d.len() > n + 1 {
        assert(polled_busy(d[n as int]));
    }
}

/// Every write-class plan starts by sending write enable alone.
pub proof fn lemma_write_enable_first(d: Seq<Transfer>, rest: Seq<Step>, r: Result<(), FlashError>)
    requires
        runs(d, write_enabled(rest), r),
    ensures
        d.len() >= 1,
        d[0].dir == Direction::Send,
        d[0].tx == seq![WRITE_ENABLE],
{
    let plan = write_enabled(rest);
    let k = lemma_runs_first(d, plan, r);
    assert(d.take(k)[0] == d[0]);
}

/// A single send is one transaction that carries the bytes alone: no
/// status read comes before it.
pub proof fn lemma_send_alone(d: Seq<Transfer>, tx: Seq<u8>, r: Result<(), FlashError>)
    requires
        runs(d, seq![Step::Send(tx)], r),
    ensures
        d.len() == 1,
        d[0].dir == Direction::Send,
        d[0].tx == tx,
        r == fault_of(d[0]),
{
    let plan = seq![Step::Send(tx)];
    let k = lemma_runs_first(d, plan, r);
    assert(d.take(k)[0] == d[0]);
    if step_result(d[k - 1], plan[0]) is Ok {
        assert(d.skip(k).len() == 0);
        assert(plan.skip(1).len() == 0);
    }
}

/// Sleep and wake-up each send their opcode alone, with no status read first.
pub proof fn lemma_sleep_wakeup_alone(d: Seq<Transfer>, r: Result<(), FlashError>)
    ensures
        runs(d, sleep_plan(), r) ==> d.len() == 1 && d[0].dir == Direction::Send && d[0].tx
            == seq![SLEEP],
        runs(d, wakeup_plan(), r) ==> d.len() == 1 && d[0].dir == Direction::Send && d[0].tx
            == seq![WAKE],
{
    if runs(d, sleep_plan(), r) {
        lemma_send_alone(d, seq![SLEEP], r);
    }
    if runs(d, wakeup_plan(), r) {
        lemma_send_alone(d, seq![WAKE], r);
    }
}

/// A command other than wake-up that went through was sent last, right
/// after a status read that reported not busy, and everything before it was
/// a status read.
pub proof fn lemma_command_after_wait(d: Seq<Transfer>, cmd: u8, r: Result<(), FlashError>)
    requires
        runs(d, command_plan(cmd), r),
        cmd != WAKE,
        r is Ok,
    ensures
        d.len() >= 2,
        d.last().dir == Direction::Send,
        d.last().tx == seq![cmd],
        forall|i: int| 0 <= i < d.len() - 1 ==> is_status_poll(#[trigger] d[i]),
        d[d.len() - 2].outcome is Ok,
        !busy_bit(d[d.len() - 2].rx[0]),
{
    let plan = command_plan(cmd);
    let k = lemma_runs_first(d, plan, r);
    let w = d.take(k);
    let rest = d.skip(k);
    assert(step_result(d[k - 1], plan[0]) is Ok);
    assert(plan.skip(1) =~= seq![Step::Send(seq![cmd])]);
    lemma_send_alone(rest, seq![cmd], r);
    assert(is_wait(w));
    assert(w[k - 1] == d[k - 1]);
    assert forall|i: int| 0 <= i < d.len() - 1 implies is_status_poll(#[trigger] d[i]) by {
        assert(d[i] == w[i]);
    }
    assert(d.last() == rest[0]);
}

} // verus!
