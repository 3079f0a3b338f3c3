//! The bookkeeping of the workers that consume decoded messages.
//!
//! A worker takes a message from the queue and then tries, without waiting,
//! to lock the server state that all workers share. With the lock it handles
//! the message. Without it the message is dropped: it is not put back and
//! not tried again. Messages are lost under contention by this design, and
//! each worker counts the ones it lost so that the loss can be seen.
//!
//! Taking from the queue and trying the lock are the caller's part. This
//! module decides what follows from the outcome, and keeps the counts.

use crate::protocol::{PacketView, PduView, TrapView};
use crate::snmp::{SnmpPacket, SnmpV1PDU, Trap};
use vstd::prelude::*;

verus! {

/// The state that the workers share: how many messages have been handled.
pub struct Server {
    num_packets: u64,
}

/// What handling a message led to, by the kind of its protocol data unit.
#[derive(Debug, PartialEq)]
pub enum Dispatch {
    /// The message carried this trap.
    Trap(Trap),
}

/// The mathematical counterpart of [`Dispatch`].
pub enum DispatchView {
    Trap(TrapView),
}

impl View for Dispatch {
    type V = DispatchView;

    open spec fn view(&self) -> DispatchView {
        match self {
            Dispatch::Trap(trap) => DispatchView::Trap(trap@),
        }
    }
}

/// Where a message is dispatched to: a trap goes to the trap handler.
pub open spec fn dispatch_of(p: PacketView) -> DispatchView {
    match p {
        PacketView::V1(v1) => match v1.pdu {
            PduView::Trap(trap) => DispatchView::Trap(trap),
        },
    }
}

impl Server {
    /// The number of messages handled so far.
    pub closed spec fn count(&self) -> nat {
        self.num_packets as nat
    }

    /// A server that has handled nothing.
    pub fn new() -> (server: Server)
        ensures
            server.count() == 0,
    {
        Server { num_packets: 0 }
    }

    /// The number of messages handled so far.
    pub fn packet_count(&self) -> (n: u64)
        ensures
            n == self.count(),
    {
        self.num_packets
    }

    /// Whether the counter can take one more message.
    pub fn has_room(&self) -> (room: bool)
        ensures
            room == (self.count() < u64::MAX),
    {
        self.num_packets < u64::MAX
    }

    /// Handles one message: counts it, and says where it is dispatched to.
    pub fn handle_packet(&mut self, p: SnmpPacket) -> (to: Dispatch)
        requires
            old(self).count() < u64::MAX,
        ensures
            final(self).count() == old(self).count() + 1,
            to@ == dispatch_of(p@),
    {
        self.num_packets += 1;
        match p {
            SnmpPacket::V1(v1) => match v1.pdu {
                SnmpV1PDU::Trap(trap) => Dispatch::Trap(trap),
            },
        }
    }
}

/// What became of a message that a worker took from the queue.
#[derive(Debug, PartialEq)]
pub enum Outcome {
    /// The lock was free: the message was counted and dispatched.
    Handled(Dispatch),
    /// The lock was held by another worker: the message was dropped.
    Dropped,
}

/// The mathematical counterpart of [`Outcome`].
pub enum OutcomeView {
    Handled(DispatchView),
    Dropped,
}

impl View for Outcome {
    type V = OutcomeView;

    open spec fn view(&self) -> OutcomeView {
        match self {
            Outcome::Handled(to) => OutcomeView::Handled(to@),
            Outcome::Dropped => OutcomeView::Dropped,
        }
    }
}

/// What becomes of a message, by whether the lock was got: with the lock it
/// is handled, and dispatched as its kind asks; without, it is dropped.
pub open spec fn outcome_of(p: PacketView, locked: bool) -> OutcomeView {
    if locked {
        OutcomeView::Handled(dispatch_of(p))
    } else {
        OutcomeView::Dropped
    }
}

/// What becomes of a run of messages taken from the queue, when `locks`
/// holds for each of them whether the lock was got: one outcome for each
/// message, in the order in which they were taken.
pub open spec fn outcomes_of(packets: Seq<PacketView>, locks: Seq<bool>) -> Seq<OutcomeView>
    recommends
        packets.len() == locks.len(),
{
    Seq::new(packets.len(), |k: int| outcome_of(packets[k], locks[k]))
}

/// How many of the outcomes are handlings.
pub open spec fn handled_among(outcomes: Seq<OutcomeView>) -> nat
    decreases outcomes.len(),
{
    if outcomes.len() == 0 {
        0
    } else {
        handled_among(outcomes.drop_last()) + if outcomes.last() is Handled {
            1nat
        } else {
            0nat
        }
    }
}

/// One worker's own counts of the messages it took from the queue.
pub struct Worker {
    handled: u64,
    dropped: u64,
}

/// The counts of a server and of one of its workers, taken together.
pub struct Tally {
    /// The messages that the server has counted.
    pub count: nat,
    /// The messages that the worker has handled.
    pub handled: nat,
    /// The messages that the worker has dropped.
    pub dropped: nat,
}

/// The counts after one more message was taken from the queue: with the
/// lock, server and worker both count it as handled; without, the worker
/// counts it as dropped and the server's count stays.
pub open spec fn after_attempt(t: Tally, locked: bool) -> Tally {
    if locked {
        Tally { count: t.count + 1, handled: t.handled + 1, dropped: t.dropped }
    } else {
        Tally { count: t.count, handled: t.handled, dropped: t.dropped + 1 }
    }
}

/// The counts after a run of messages, one lock attempt for each, in order.
pub open spec fn after_attempts(t: Tally, attempts: Seq<bool>) -> Tally
    decreases attempts.len(),
{
    if attempts.len() == 0 {
        t
    } else {
        after_attempt(after_attempts(t, attempts.drop_last()), attempts.last())
    }
}

/// How many of the attempts got the lock.
pub open spec fn locked_among(attempts: Seq<bool>) -> nat
    decreases attempts.len(),
{
    if attempts.len() == 0 {
        0
    } else {
        locked_among(attempts.drop_last()) + if attempts.last() {
            1nat
        } else {
            0nat
        }
    }
}

/// Over any run of messages, the server's counter grows by exactly the
/// number of messages that were handled under the lock, and every message
/// is counted once: as handled where the lock was got, as dropped where it
/// was not.
pub proof fn lemma_counter_grows_by_handled(t: Tally, attempts: Seq<bool>)
    ensures
        locked_among(attempts) <= attempts.len(),
        after_attempts(t, attempts).count == t.count + locked_among(attempts),
        after_attempts(t, attempts).handled == t.handled + locked_among(attempts),
        after_attempts(t, attempts).dropped == t.dropped + attempts.len() - locked_among(attempts),
    decreases attempts.len(),
{
    if attempts.len() != 0 {
        lemma_counter_grows_by_handled(t, attempts.drop_last());
    }
}

/// Every message that is taken from the queue has exactly one outcome, and
/// the lock decides which: the message is handled, once, and dispatched as
/// its own kind asks, where the lock was got, and it is never handled where
/// the lock was not got. The handlings are as many as the locks that were
/// got, and the server's counter grows by exactly that number.
pub proof fn lemma_handled_once_or_never(t: Tally, packets: Seq<PacketView>, locks: Seq<bool>)
    requires
        packets.len() == locks.len(),
    ensures
        outcomes_of(packets, locks).len() == packets.len(),
        forall|k: int|
            0 <= k < packets.len() && locks[k] ==> #[trigger] outcomes_of(packets, locks)[k]
                == OutcomeView::Handled(dispatch_of(packets[k])),
        forall|k: int|
            0 <= k < packets.len() && !locks[k] ==> #[trigger] outcomes_of(packets, locks)[k]
                == OutcomeView::Dropped,
        handled_among(outcomes_of(packets, locks)) == locked_among(locks),
        after_attempts(t, locks).count == t.count + handled_among(outcomes_of(packets, locks)),
        after_attempts(t, locks).dropped == t.dropped + packets.len() - handled_among(
            outcomes_of(packets, locks),
        ),
    decreases packets.len(),
{
    lemma_counter_grows_by_handled(t, locks);
    if packets.len() != 0 {
        lemma_handled_once_or_never(t, packets.drop_last(), locks.drop_last());
        assert(outcomes_of(packets, locks).drop_last() =~= outcomes_of(
            packets.drop_last(),
            locks.drop_last(),
        ));
    }
}

/// The server's counter never goes down, and a dropped message leaves it as
/// it is.
pub proof fn lemma_counter_monotone(t: Tally, attempts: Seq<bool>, locked: bool)
    ensures
        after_attempts(t, attempts.push(locked)).count >= after_attempts(t, attempts).count,
        !locked ==> after_attempts(t, attempts.push(locked)).count == after_attempts(
            t,
            attempts,
        ).count,
{
    assert(attempts.push(locked).drop_last() =~= attempts);
}

impl Worker {
    /// How many messages this worker handled.
    pub closed spec fn handled(&self) -> nat {
        self.handled as nat
    }

    /// How many messages this worker dropped.
    pub closed spec fn dropped(&self) -> nat {
        self.dropped as nat
    }

    /// The counts of `server` and of this worker, taken together.
    pub open spec fn tally(&self, server: &Server) -> Tally {
        Tally { count: server.count(), handled: self.handled(), dropped: self.dropped() }
    }

    /// A worker that has taken nothing from the queue yet.
    pub fn new() -> (worker: Worker)
        ensures
            worker.handled() == 0,
            worker.dropped() == 0,
    {
        Worker { handled: 0, dropped: 0 }
    }

    /// How many messages this worker handled.
    pub fn handled_count(&self) -> (n: u64)
        ensures
            n == self.handled(),
    {
        self.handled
    }

    /// How many messages this worker dropped.
    pub fn dropped_count(&self) -> (n: u64)
        ensures
            n == self.dropped(),
    {
        self.dropped
    }

    /// Whether both counts can take one more message.
    pub fn has_room(&self) -> (room: bool)
        ensures
            room == (self.handled() < u64::MAX && self.dropped() < u64::MAX),
    {
        self.handled < u64::MAX && self.dropped < u64::MAX
    }

    /// Goes on with a message after the lock was got: the server handles
    /// it, and the worker counts it as handled.
    pub fn on_locked(&mut self, server: &mut Server, p: SnmpPacket) -> (outcome: Outcome)
        requires
            old(self).handled() < u64::MAX,
            old(server).count() < u64::MAX,
        ensures
            final(self).tally(final(server)) == after_attempt(old(self).tally(old(server)), true),
            outcome@ == outcome_of(p@, true),
    {
        let to = server.handle_packet(p);
        self.handled += 1;
        Outcome::Handled(to)
    }

    /// Goes on with a message after the lock was found held: the message
    /// is dropped, and the worker counts it as dropped. The server is not
    /// touched.
    pub fn on_contended(&mut self, p: SnmpPacket) -> (outcome: Outcome)
        requires
            old(self).dropped() < u64::MAX,
        ensures
            final(self).handled() == old(self).handled(),
            final(self).dropped() == old(self).dropped() + 1,
            forall|server: Server| #[trigger]
                final(self).tally(&server) == after_attempt(old(self).tally(&server), false),
            outcome@ == outcome_of(p@, false),
    {
        self.dropped += 1;
        Outcome::Dropped
    }
}

} // verus!
