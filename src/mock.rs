//! A scripted transport that records every transaction, for exercising the
//! controller without hardware.
use vstd::prelude::*;
use vstd::slice::slice_to_vec;

use crate::transport::{Direction, Transfer, Transmitter, TransportError};

verus! {

/// One transaction as the recording transport saw it.
#[derive(Debug, PartialEq, Eq)]
pub struct Exchange {
    pub dir: Direction,
    pub tx: Vec<u8>,
    pub rx: Vec<u8>,
    pub outcome: Result<(), TransportError>,
}

impl View for Exchange {
    type V = Transfer;

    open spec fn view(&self) -> Transfer {
        Transfer { dir: self.dir, tx: self.tx@, rx: self.rx@, outcome: self.outcome }
    }
}

/// The view of every recorded exchange, in order.
pub open spec fn transfers_of(exchanges: Seq<Exchange>) -> Seq<Transfer> {
    exchanges.map_values(|e: Exchange| e@)
}

/// Every byte received over the transactions `t`, in order.
pub open spec fn received_bytes(t: Seq<Transfer>) -> Seq<u8>
    decreases t.len(),
{
    if t.len() == 0 {
        Seq::empty()
    } else {
        received_bytes(t.drop_last()) + t.last().rx
    }
}

/// The first `n` bytes of a script: `replies` in order, then `idle` for ever.
pub open spec fn script_bytes(replies: Seq<u8>, idle: u8, n: nat) -> Seq<u8> {
    Seq::new(n, |i: int| if i < replies.len() { replies[i] } else { idle })
}

/// The outcome of the transaction at position `i`: the chosen fault there,
/// success everywhere else.
pub open spec fn scripted_outcome(fault: Option<(usize, TransportError)>, i: int) -> Result<
    (),
    TransportError,
> {
    match fault {
        Some((index, error)) => if i == index {
            Err(error)
        } else {
            Ok(())
        },
        None => Ok(()),
    }
}

/// An empty record received nothing, which is the start of any script.
proof fn lemma_nothing_recorded(exchanges: Seq<Exchange>, replies: Seq<u8>, idle: u8)
    requires
        exchanges.len() == 0,
    ensures
        transfers_of(exchanges) == Seq::<Transfer>::empty(),
        received_bytes(transfers_of(exchanges)) == Seq::<u8>::empty(),
        script_bytes(replies, idle, 0) == Seq::<u8>::empty(),
{
    assert(transfers_of(exchanges) =~= Seq::<Transfer>::empty());
    assert(script_bytes(replies, idle, 0) =~= Seq::<u8>::empty());
}

/// A transport that answers from a script and records what was asked of it.
///
/// Received bytes are taken in order from `replies`, then `idle` for ever.
/// One transaction, chosen by its position in the record, may be made to
/// fail with a given fault.
pub struct RecordingTransport {
    exchanges: Vec<Exchange>,
    replies: Vec<u8>,
    next_reply: usize,
    idle: u8,
    fault: Option<(usize, TransportError)>,
}

impl RecordingTransport {
    /// What has been received so far is the start of the script, the next
    /// reply is the one after it, and each outcome is the scripted one.
    #[verifier::type_invariant]
    spec fn follows_script(&self) -> bool {
        let t = transfers_of(self.exchanges@);
        let got = received_bytes(t);
        &&& got == script_bytes(self.replies@, self.idle, got.len())
        &&& self.next_reply == if got.len() < self.replies@.len() {
            got.len()
        } else {
            self.replies@.len() as nat
        }
        &&& forall|i: int|
            0 <= i < t.len() ==> (#[trigger] t[i]).outcome == scripted_outcome(self.fault, i)
    }

    /// The scripted replies.
    pub closed spec fn replies(&self) -> Seq<u8> {
        self.replies@
    }

    /// The byte received once the replies are used up.
    pub closed spec fn idle(&self) -> u8 {
        self.idle
    }

    /// The transaction that fails, by position, and its fault.
    pub closed spec fn fault(&self) -> Option<(usize, TransportError)> {
        self.fault
    }

    /// A transport with nothing recorded, that hands out `replies` and then
    /// `idle`, and never fails.
    pub fn new(replies: Vec<u8>, idle: u8) -> (r: Self)
        ensures
            r.trace() == Seq::<Transfer>::empty(),
            r.replies() == replies@,
            r.idle() == idle,
            r.fault() == None::<(usize, TransportError)>,
    {
        let exchanges: Vec<Exchange> = Vec::new();
        proof {
            lemma_nothing_recorded(exchanges@, replies@, idle);
        }
        RecordingTransport { exchanges, replies, next_reply: 0, idle, fault: None }
    }

    /// Like `new`, but the transaction at position `index` of the record
    /// fails with `error`.
    pub fn with_fault(replies: Vec<u8>, idle: u8, index: usize, error: TransportError) -> (r: Self)
        ensures
            r.trace() == Seq::<Transfer>::empty(),
            r.replies() == replies@,
            r.idle() == idle,
            r.fault() == Some((index, error)),
    {
        let exchanges: Vec<Exchange> = Vec::new();
        proof {
            lemma_nothing_recorded(exchanges@, replies@, idle);
        }
        RecordingTransport { exchanges, replies, next_reply: 0, idle, fault: Some((index, error)) }
    }

    /// Every transaction recorded so far, oldest first. They followed the
    /// script: the bytes received are its start, and each outcome is the
    /// scripted one.
    pub fn exchanges(&self) -> (r: &Vec<Exchange>)
        ensures
            transfers_of(r@) == self.trace(),
            received_bytes(self.trace()) == script_bytes(
                self.replies(),
                self.idle(),
                received_bytes(self.trace()).len(),
            ),
            forall|i: int|
                0 <= i < self.trace().len() ==> (#[trigger] self.trace()[i]).outcome
                    == scripted_outcome(self.fault(), i),
    {
        proof {
            use_type_invariant(self);
        }
        &self.exchanges
    }

    /// The outcome that the next transaction will have.
    fn next_outcome(&self) -> (r: Result<(), TransportError>)
        ensures
            r == scripted_outcome(self.fault(), self.trace().len() as int),
    {
        proof {
            use_type_invariant(self);
        }
        match self.fault {
            Some((index, error)) => if index == self.exchanges.len() {
                Err(error)
            } else {
                Ok(())
            },
            None => Ok(()),
        }
    }

    /// Fills `buffer` with the next bytes of the script, without taking them.
    fn fill(&self, buffer: &mut [u8])
        ensures
            final(buffer)@.len() == old(buffer)@.len(),
            final(buffer)@ == script_bytes(
                self.replies(),
                self.idle(),
                received_bytes(self.trace()).len() + old(buffer)@.len(),
            ).skip(received_bytes(self.trace()).len() as int),
    {
        proof {
            use_type_invariant(self);
        }
        let ghost start = received_bytes(self.trace()).len();
        let ghost whole = script_bytes(self.replies@, self.idle, start + old(buffer)@.len());
        let n = buffer.len();
        let total = self.replies.len();
        let left = total - self.next_reply;
        let mut i: usize = 0;
        while i < n
            invariant
                i <= n,
                n == old(buffer)@.len(),
                buffer@.len() == n,
                total == self.replies@.len(),
                left == total - self.next_reply,
                self.next_reply <= self.replies@.len(),
                start < self.replies@.len() ==> self.next_reply == start,
                start >= self.replies@.len() ==> self.next_reply == self.replies@.len(),
                whole == script_bytes(self.replies@, self.idle, (start + n) as nat),
                forall|j: int| 0 <= j < i ==> buffer@[j] == whole[start + j],
            decreases n - i,
        {
            let b = if i < left {
                self.replies[self.next_reply + i]
            } else {
                self.idle
            };
            buffer[i] = b;
            i = i + 1;
        }
        assert(buffer@ =~= whole.skip(start as int));
    }

    /// Appends `e` to the record, as the transaction that took the next
    /// `e.rx.len()` bytes of the script.
    fn record(&mut self, e: Exchange)
        requires
            e.outcome == scripted_outcome(old(self).fault(), old(self).trace().len() as int),
            e.rx@ == script_bytes(
                old(self).replies(),
                old(self).idle(),
                received_bytes(old(self).trace()).len() + e.rx@.len(),
            ).skip(received_bytes(old(self).trace()).len() as int),
        ensures
            final(self).trace() == old(self).trace().push(e@),
            final(self).replies() == old(self).replies(),
            final(self).idle() == old(self).idle(),
            final(self).fault() == old(self).fault(),
    {
        proof {
            use_type_invariant(&*self);
        }
        let ghost t = self.trace();
        let ghost got = received_bytes(t);
        let mut taken = RecordingTransport::new(Vec::new(), 0);
        core::mem::swap(self, &mut taken);
        proof {
            use_type_invariant(&taken);
        }
        let RecordingTransport { mut exchanges, replies, next_reply, idle, fault } = taken;
        let n = e.rx.len();
        let next = if n < replies.len() - next_reply {
            next_reply + n
        } else {
            replies.len()
        };
        let ghost ev = e@;
        exchanges.push(e);
        proof {
            let t2 = transfers_of(exchanges@);
            assert(t2 =~= t.push(ev));
            assert(t2.drop_last() =~= t);
            let whole = script_bytes(replies@, idle, (got.len() + n) as nat);
            assert(got =~= whole.take(got.len() as int));
            assert(received_bytes(t2) =~= whole);
            assert forall|i: int| 0 <= i < t2.len() implies (#[trigger] t2[i]).outcome
                == scripted_outcome(fault, i) by {
                if i < t.len() {
                    assert(t2[i] == t[i]);
                }
            }
        }
        *self = RecordingTransport { exchanges, replies, next_reply: next, idle, fault };
    }
}

impl Transmitter for RecordingTransport {
    closed spec fn trace(&self) -> Seq<Transfer> {
        transfers_of(self.exchanges@)
    }

    fn send(&mut self, buffer: &[u8]) -> (r: Result<(), TransportError>) {
        let outcome = self.next_outcome();
        let tx = slice_to_vec(buffer);
        let ghost start = received_bytes(self.trace()).len();
        assert(Seq::<u8>::empty() =~= script_bytes(self.replies(), self.idle(), start).skip(
            start as int,
        ));
        self.record(Exchange { dir: Direction::Send, tx, rx: Vec::new(), outcome });
        outcome
    }

    fn read(&mut self, buffer: &mut [u8]) -> (r: Result<(), TransportError>) {
        let outcome = self.next_outcome();
        self.fill(buffer);
        let rx = slice_to_vec(buffer);
        self.record(Exchange { dir: Direction::Read, tx: Vec::new(), rx, outcome });
        outcome
    }

    fn send_read(&mut self, buffer_tx: &[u8], buffer_rx: &mut [u8]) -> (r: Result<(), TransportError>) {
        let outcome = self.next_outcome();
        self.fill(buffer_rx);
        let tx = slice_to_vec(buffer_tx);
        let rx = slice_to_vec(buffer_rx);
        self.record(Exchange { dir: Direction::SendRead, tx, rx, outcome });
        outcome
    }
}

} // verus!
