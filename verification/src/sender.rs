//! The queue of one destination and the rules of its worker.
//!
//! Messages wait in the order in which they were queued. A transaction
//! takes messages from the front, as many as the limits of a transaction
//! allow, and they stay marked as in flight until the destination has
//! answered. Delivered messages leave the queue; after a failure that may
//! pass, the same messages are sent again once the back-off is over.

use vstd::prelude::*;

use crate::bytes::copy_bytes;
use crate::sending::{Destination, EventView, SendingEvent};

verus! {

/// The most persistent events that one transaction may carry.
pub const PDU_LIMIT: usize = 50;

/// The most ephemeral updates that one transaction may carry.
pub const EDU_LIMIT: usize = 100;

/// What the worker of a destination is doing.
#[derive(Clone, Copy, Debug, PartialEq, Eq)]
pub enum TransactionStatus {
    /// A transaction is under way.
    Running,
    /// The last transaction failed: how often in a row, and when.
    Failed(u32, u64),
    /// A failed transaction is being sent again, after so many failures.
    Retrying(u32),
}

/// How a transaction ended.
#[derive(Clone, Copy, Debug, PartialEq, Eq)]
pub enum Response {
    /// The destination accepted the transaction.
    Delivered,
    /// The destination refused the messages for good.
    Rejected,
    /// The destination could not be reached, or did not answer in time.
    Unreachable,
}

/// A message waiting in a queue: its key and what it carries.
#[derive(Debug, PartialEq, Eq)]
pub struct QueuedEvent {
    pub key: Vec<u8>,
    pub event: SendingEvent,
}

/// A waiting message as contracts see it.
pub struct EntryView {
    pub key: Seq<u8>,
    pub event: EventView,
}

impl View for QueuedEvent {
    type V = EntryView;

    open spec fn view(&self) -> EntryView {
        EntryView { key: self.key@, event: self.event@ }
    }
}

/// The messages of a list as contracts see them.
pub open spec fn entries(list: Seq<QueuedEvent>) -> Seq<EntryView> {
    list.map_values(|entry: QueuedEvent| entry@)
}

/// The payloads of a list as contracts see them.
pub open spec fn event_views(list: Seq<SendingEvent>) -> Seq<EventView> {
    list.map_values(|event: SendingEvent| event@)
}

/// The keys of a list as contracts see them.
pub open spec fn key_views(list: Seq<Vec<u8>>) -> Seq<Seq<u8>> {
    list.map_values(|key: Vec<u8>| key@)
}

/// The payloads of a run of messages.
pub open spec fn events_of(batch: Seq<EntryView>) -> Seq<EventView> {
    batch.map_values(|entry: EntryView| entry.event)
}

/// The keys of a run of messages.
pub open spec fn keys_of(batch: Seq<EntryView>) -> Seq<Seq<u8>> {
    batch.map_values(|entry: EntryView| entry.key)
}

/// The queue of one destination as contracts see it: the messages that
/// wait, those that are in flight, both in the order of delivery, and what
/// the worker is doing (`None`: nothing).
pub struct QueueView {
    pub queued: Seq<EntryView>,
    pub active: Seq<EntryView>,
    pub status: Option<TransactionStatus>,
}

/// The number of persistent events among `batch`.
pub open spec fn count_pdus(batch: Seq<EntryView>) -> nat
    decreases batch.len(),
{
    if batch.len() == 0 {
        0
    } else {
        count_pdus(batch.drop_last()) + if batch.last().event is Pdu {
            1nat
        } else {
            0nat
        }
    }
}

/// The number of ephemeral updates among `batch`.
pub open spec fn count_edus(batch: Seq<EntryView>) -> nat
    decreases batch.len(),
{
    if batch.len() == 0 {
        0
    } else {
        count_edus(batch.drop_last()) + if batch.last().event is Edu {
            1nat
        } else {
            0nat
        }
    }
}

/// Whether a transaction may carry `batch`.
pub open spec fn fits(batch: Seq<EntryView>) -> bool {
    count_pdus(batch) <= PDU_LIMIT && count_edus(batch) <= EDU_LIMIT
}

/// How many messages from the front of `pending` go into a transaction that
/// already carries `pdus` persistent events and `edus` ephemeral updates:
/// all up to the first that would exceed a limit.
pub open spec fn batch_from(pending: Seq<EntryView>, pdus: nat, edus: nat) -> nat
    decreases pending.len(),
{
    if pending.len() == 0 {
        0
    } else {
        match pending[0].event {
            EventView::Pdu(_) => if pdus + 1 > PDU_LIMIT {
                0
            } else {
                1 + batch_from(pending.drop_first(), pdus + 1, edus)
            },
            EventView::Edu(_) => if edus + 1 > EDU_LIMIT {
                0
            } else {
                1 + batch_from(pending.drop_first(), pdus, edus + 1)
            },
            EventView::Flush => 1 + batch_from(pending.drop_first(), pdus, edus),
        }
    }
}

/// How many messages from the front of `pending` go into one transaction.
pub open spec fn batch_len(pending: Seq<EntryView>) -> nat {
    batch_from(pending, 0, 0)
}

/// What `batch_from` takes is within what is there, and together with what
/// the transaction carries already it stays within the limits; it stops
/// only at the end or before a message that would exceed a limit.
pub proof fn lemma_batch_from(pending: Seq<EntryView>, pdus: nat, edus: nat)
    requires
        pdus <= PDU_LIMIT,
        edus <= EDU_LIMIT,
    ensures
        batch_from(pending, pdus, edus) <= pending.len(),
        pdus + count_pdus(pending.take(batch_from(pending, pdus, edus) as int)) <= PDU_LIMIT,
        edus + count_edus(pending.take(batch_from(pending, pdus, edus) as int)) <= EDU_LIMIT,
        batch_from(pending, pdus, edus) < pending.len() ==> {
            let next = pending[batch_from(pending, pdus, edus) as int].event;
            let taken = pending.take(batch_from(pending, pdus, edus) as int);
            (next is Pdu && pdus + count_pdus(taken) == PDU_LIMIT) || (next is Edu && edus
                + count_edus(taken) == EDU_LIMIT)
        },
    decreases pending.len(),
{
    let n = batch_from(pending, pdus, edus);
    if pending.len() == 0 {
        assert(pending.take(0) =~= Seq::<EntryView>::empty());
    } else {
        let rest = pending.drop_first();
        let (p, e) = match pending[0].event {
            EventView::Pdu(_) => (pdus + 1, edus),
            EventView::Edu(_) => (pdus, edus + 1),
            EventView::Flush => (pdus, edus),
        };
        if n == 0 {
            assert(pending.take(0) =~= Seq::<EntryView>::empty());
        } else {
            lemma_batch_from(rest, p, e);
            let m = batch_from(rest, p, e);
            assert(n == m + 1);
            lemma_count_front(pending, n as int);
            assert(pending.take(n as int).drop_first() =~= rest.take(m as int));
            if n < pending.len() {
                assert(pending[n as int] == rest[m as int]);
            }
        }
    }
}

/// Counting from the front: the first message and the rest.
pub proof fn lemma_count_front(pending: Seq<EntryView>, n: int)
    requires
        0 < n <= pending.len(),
    ensures
        count_pdus(pending.take(n)) == count_pdus(pending.take(n).drop_first()) + if pending[0].event is Pdu {
            1nat
        } else {
            0nat
        },
        count_edus(pending.take(n)) == count_edus(pending.take(n).drop_first()) + if pending[0].event is Edu {
            1nat
        } else {
            0nat
        },
    decreases n,
{
    let taken = pending.take(n);
    if n == 1 {
        assert(taken.drop_last() =~= Seq::<EntryView>::empty());
        assert(taken.drop_first() =~= Seq::<EntryView>::empty());
        assert(taken.last() == pending[0]);
    } else {
        lemma_count_front(pending, n - 1);
        assert(taken.drop_last() =~= pending.take(n - 1));
        assert(taken.drop_first().drop_last() =~= pending.take(n - 1).drop_first());
        assert(taken.drop_first().last() == taken.last());
    }
}

/// The ceiling of a transaction: what goes into one transaction never
/// holds more than 50 persistent events or more than 100 ephemeral updates.
/// And a queue that holds anything gives a transaction that holds
/// something.
pub proof fn lemma_batch_fits(pending: Seq<EntryView>)
    ensures
        batch_len(pending) <= pending.len(),
        fits(pending.take(batch_len(pending) as int)),
        pending.len() > 0 ==> batch_len(pending) > 0,
{
    lemma_batch_from(pending, 0, 0);
}

/// A run of ephemeral updates goes out a hundred at a time.
pub proof fn lemma_batch_of_edus(pending: Seq<EntryView>, edus: nat)
    requires
        forall|i: int| 0 <= i < pending.len() ==> (#[trigger] pending[i]).event is Edu,
        edus <= EDU_LIMIT,
    ensures
        batch_from(pending, 0, edus) == if pending.len() <= EDU_LIMIT - edus {
            pending.len()
        } else {
            (EDU_LIMIT - edus) as nat
        },
    decreases pending.len(),
{
    if pending.len() > 0 {
        let rest = pending.drop_first();
        assert(pending[0].event is Edu);
        assert forall|i: int| 0 <= i < rest.len() implies (#[trigger] rest[i]).event is Edu by {
            assert(rest[i] == pending[i + 1]);
        }
        if edus + 1 <= EDU_LIMIT {
            lemma_batch_of_edus(rest, edus + 1);
        }
    }
}

/// All the messages of a queue in the order of delivery: those in flight,
/// then those that wait.
pub open spec fn pending(queue: QueueView) -> Seq<EntryView> {
    queue.active + queue.queued
}

/// The queue after messages were marked as in flight: where none is in
/// flight, as many from the front of the waiting ones as one transaction
/// may carry.
pub open spec fn refill(queue: QueueView) -> QueueView {
    if queue.active.len() == 0 {
        let n = batch_len(queue.queued) as int;
        QueueView { active: queue.queued.take(n), queued: queue.queued.skip(n), ..queue }
    } else {
        queue
    }
}

/// The messages of the next transaction: as many from the front of those
/// in flight as one transaction may carry.
pub open spec fn batch_of(queue: QueueView) -> Seq<EntryView> {
    queue.active.take(batch_len(queue.active) as int)
}

/// A step of a worker: the queue after it, and the messages to send now
/// (none: nothing is sent).
pub struct Outcome {
    pub queue: QueueView,
    pub batch: Seq<EntryView>,
}

/// Starts a transaction with the given status if there is anything to
/// send; the worker comes to rest if there is not.
pub open spec fn start_with(queue: QueueView, status: TransactionStatus) -> Outcome {
    let filled = refill(queue);
    let batch = batch_of(filled);
    Outcome {
        queue: QueueView {
            status: if batch.len() > 0 {
                Some(status)
            } else {
                None
            },
            ..filled
        },
        batch,
    }
}

/// The time for which a destination is left alone after `tries` failures
/// in a row: the least wait times the square of the failures, capped.
pub open spec fn backoff(min: u64, max: u64, tries: u32) -> int {
    if min * tries * tries < max {
        min * tries * tries
    } else {
        max as int
    }
}

/// Whether a destination that failed `tries` times is still left alone
/// after `elapsed` has passed.
pub open spec fn backing_off(min: u64, max: u64, elapsed: u64, tries: u32) -> bool {
    elapsed < backoff(min, max, tries)
}

/// The time that has passed since `then`, none where the clock went back.
pub open spec fn elapsed_since(now: u64, then: u64) -> u64 {
    if now >= then {
        (now - then) as u64
    } else {
        0
    }
}

/// The timing of retries: the least and the longest time for which a
/// failed destination is left alone.
#[derive(Clone, Copy, Debug, PartialEq, Eq)]
pub struct Backoff {
    pub min: u64,
    pub max: u64,
}

/// What a request to send to the destination comes to at time `now`. A
/// worker at rest starts a transaction. A worker with a transaction under
/// way is left alone. After a failure the worker waits for the back-off to
/// pass (an application service is never waited for), and then sends the
/// messages in flight again.
pub open spec fn on_request(queue: QueueView, now: u64, timing: Backoff, appservice: bool) -> Outcome {
    match queue.status {
        None => start_with(queue, TransactionStatus::Running),
        Some(TransactionStatus::Running) => Outcome { queue, batch: Seq::empty() },
        Some(TransactionStatus::Retrying(_)) => Outcome { queue, batch: Seq::empty() },
        Some(TransactionStatus::Failed(tries, time)) => if backing_off(
            timing.min,
            timing.max,
            elapsed_since(now, time),
            tries,
        ) && !appservice {
            Outcome { queue, batch: Seq::empty() }
        } else {
            start_with(queue, TransactionStatus::Retrying(tries))
        },
    }
}

/// The status after a failure at time `now`.
pub open spec fn failed_status(status: Option<TransactionStatus>, now: u64) -> Option<
    TransactionStatus,
> {
    match status {
        Some(TransactionStatus::Running) => Some(TransactionStatus::Failed(1, now)),
        Some(TransactionStatus::Retrying(tries)) => Some(
            TransactionStatus::Failed(
                if tries < u32::MAX {
                    (tries + 1) as u32
                } else {
                    u32::MAX
                },
                now,
            ),
        ),
        other => other,
    }
}

/// What the answer to a transaction comes to at time `now`. Messages that
/// were delivered, or refused for good, leave the queue, and the next
/// transaction starts if anything waits. After a failure that may pass,
/// the queue stays as it is and the failure is noted.
pub open spec fn on_response(queue: QueueView, response: Response, now: u64) -> Outcome {
    match response {
        Response::Unreachable => Outcome {
            queue: QueueView { status: failed_status(queue.status, now), ..queue },
            batch: Seq::empty(),
        },
        _ => start_with(
            QueueView {
                active: queue.active.skip(batch_len(queue.active) as int),
                status: None,
                ..queue
            },
            TransactionStatus::Running,
        ),
    }
}

/// The messages that leave the queue with an answer.
pub open spec fn settled(queue: QueueView, response: Response) -> Seq<EntryView> {
    match response {
        Response::Unreachable => Seq::empty(),
        _ => batch_of(queue),
    }
}

/// Starting a transaction loses nothing and changes no order; the messages
/// to send are the first that are pending, and they keep to the ceiling.
pub proof fn lemma_start_keeps_order(queue: QueueView, status: TransactionStatus)
    ensures
        pending(start_with(queue, status).queue) == pending(queue),
        start_with(queue, status).batch == pending(queue).take(
            start_with(queue, status).batch.len() as int,
        ),
        fits(start_with(queue, status).batch),
        pending(queue).len() > 0 ==> start_with(queue, status).batch.len() > 0,
{
    let filled = refill(queue);
    lemma_batch_fits(queue.queued);
    lemma_batch_fits(filled.active);
    if queue.active.len() == 0 {
        let n = batch_len(queue.queued) as int;
        assert(queue.queued.take(n) + queue.queued.skip(n) =~= queue.queued);
        assert(queue.active + queue.queued =~= queue.queued);
    }
    let batch = batch_of(filled);
    assert(pending(filled) =~= pending(queue));
    assert(batch =~= pending(queue).take(batch.len() as int));
}

/// First in, first out: every step of a worker sends the first pending
/// messages and nothing else, within the ceiling of a transaction; an
/// answer takes exactly the messages that were sent off the front of the
/// queue, or nothing; and no message is lost.
pub proof fn lemma_worker_keeps_order(
    queue: QueueView,
    now: u64,
    timing: Backoff,
    appservice: bool,
    response: Response,
)
    ensures
        pending(on_request(queue, now, timing, appservice).queue) == pending(queue),
        on_request(queue, now, timing, appservice).batch == pending(queue).take(
            on_request(queue, now, timing, appservice).batch.len() as int,
        ),
        fits(on_request(queue, now, timing, appservice).batch),
        settled(queue, response) + pending(on_response(queue, response, now).queue) == pending(
            queue,
        ),
        fits(on_response(queue, response, now).batch),
        on_response(queue, response, now).batch == pending(
            on_response(queue, response, now).queue,
        ).take(on_response(queue, response, now).batch.len() as int),
{
    lemma_start_keeps_order(queue, TransactionStatus::Running);
    match queue.status {
        Some(TransactionStatus::Failed(tries, _)) => {
            lemma_start_keeps_order(queue, TransactionStatus::Retrying(tries));
        },
        _ => {},
    }
    assert(pending(queue).take(0) =~= Seq::<EntryView>::empty());
    assert(count_pdus(Seq::<EntryView>::empty()) == 0);
    assert(count_edus(Seq::<EntryView>::empty()) == 0);
    match response {
        Response::Unreachable => {
            assert(Seq::<EntryView>::empty() + pending(queue) =~= pending(queue));
        },
        _ => {
            lemma_batch_fits(queue.active);
            let n = batch_len(queue.active) as int;
            let rest = QueueView { active: queue.active.skip(n), status: None, ..queue };
            lemma_start_keeps_order(rest, TransactionStatus::Running);
            assert(queue.active.take(n) + (queue.active.skip(n) + queue.queued) =~= pending(queue));
        },
    }
}

/// The number of ephemeral updates in a run of transactions.
pub open spec fn total_edus(batches: Seq<Seq<EntryView>>) -> nat
    decreases batches.len(),
{
    if batches.len() == 0 {
        0
    } else {
        total_edus(batches.drop_last()) + count_edus(batches.last())
    }
}

/// Transactions that keep to the ceiling carry at most a hundred ephemeral
/// updates each: more than a hundred updates need more than one
/// transaction.
pub proof fn lemma_transactions_needed(batches: Seq<Seq<EntryView>>)
    requires
        forall|i: int| 0 <= i < batches.len() ==> fits(#[trigger] batches[i]),
    ensures
        total_edus(batches) <= batches.len() * EDU_LIMIT,
    decreases batches.len(),
{
    if batches.len() > 0 {
        let front = batches.drop_last();
        assert forall|i: int| 0 <= i < front.len() implies fits(#[trigger] front[i]) by {
            assert(front[i] == batches[i]);
        }
        lemma_transactions_needed(front);
        assert(fits(batches[batches.len() - 1]));
        assert(batches.len() * EDU_LIMIT == front.len() * EDU_LIMIT + EDU_LIMIT) by (nonlinear_arith)
            requires
                batches.len() == front.len() + 1,
        ;
    }
}

/// Whether a destination that failed `tries` times in a row is still to be
/// left alone after `elapsed`.
pub fn continue_exponential_backoff(min: u64, max: u64, elapsed: u64, tries: u32) -> (wait: bool)
    ensures
        wait == backing_off(min, max, elapsed, tries),
{
    let tries_wide: u128 = tries as u128;
    let min_wide: u128 = min as u128;
    assert(min_wide * tries_wide <= 0xFFFF_FFFF_FFFF_FFFF * 0xFFFF_FFFF) by (nonlinear_arith)
        requires
            min_wide <= 0xFFFF_FFFF_FFFF_FFFF,
            tries_wide <= 0xFFFF_FFFF,
    ;
    let once: u128 = min_wide * tries_wide;
    assert(once * tries_wide <= 0xFFFF_FFFF_FFFF_FFFF * 0xFFFF_FFFF * 0xFFFF_FFFF) by (nonlinear_arith)
        requires
            once <= 0xFFFF_FFFF_FFFF_FFFF * 0xFFFF_FFFF,
            tries_wide <= 0xFFFF_FFFF,
    ;
    let twice: u128 = once * tries_wide;
    assert(twice == min * tries * tries) by (nonlinear_arith)
        requires
            twice == once * tries_wide,
            once == min_wide * tries_wide,
            min_wide == min,
            tries_wide == tries,
    ;
    let limit: u128 = if twice < max as u128 {
        twice
    } else {
        max as u128
    };
    (elapsed as u128) < limit
}

/// A copy of a waiting message.
pub fn duplicate_entry(entry: &QueuedEvent) -> (copy: QueuedEvent)
    ensures
        copy@ == entry@,
{
    QueuedEvent { key: copy_bytes(entry.key.as_slice()), event: entry.event.duplicate() }
}

/// How many messages from the front of `list` go into one transaction.
pub fn batch_size(list: &Vec<QueuedEvent>) -> (n: usize)
    ensures
        n == batch_len(entries(list@)),
        n <= list@.len(),
{
    let ghost all = entries(list@);
    let mut i: usize = 0;
    let mut pdus: usize = 0;
    let mut edus: usize = 0;
    proof {
        assert(all.skip(0) =~= all);
    }
    while i < list.len()
        invariant
            all == entries(list@),
            i <= list@.len(),
            pdus <= PDU_LIMIT,
            edus <= EDU_LIMIT,
            batch_len(all) == i + batch_from(all.skip(i as int), pdus as nat, edus as nat),
        decreases list@.len() - i,
    {
        proof {
            let rest = all.skip(i as int);
            assert(rest[0] == list@[i as int]@);
            assert(rest.drop_first() =~= all.skip(i + 1));
        }
        match &list[i].event {
            SendingEvent::Pdu(_) => {
                if pdus + 1 > PDU_LIMIT {
                    return i;
                }
                pdus = pdus + 1;
            },
            SendingEvent::Edu(_) => {
                if edus + 1 > EDU_LIMIT {
                    return i;
                }
                edus = edus + 1;
            },
            SendingEvent::Flush => {},
        }
        i = i + 1;
    }
    i
}

/// The messages to send in one transaction, with the keys under which they
/// wait.
#[derive(Debug, PartialEq, Eq)]
pub struct Transaction {
    pub dest: Destination,
    pub events: Vec<SendingEvent>,
    pub keys: Vec<Vec<u8>>,
}

/// The queue of one destination.
pub struct DestinationQueue {
    dest: Destination,
    queued: Vec<QueuedEvent>,
    active: Vec<QueuedEvent>,
    status: Option<TransactionStatus>,
}

impl View for DestinationQueue {
    type V = QueueView;

    closed spec fn view(&self) -> QueueView {
        QueueView {
            queued: entries(self.queued@),
            active: entries(self.active@),
            status: self.status,
        }
    }
}

impl DestinationQueue {
    /// The destination of the queue.
    pub closed spec fn destination(&self) -> Destination {
        self.dest
    }

    /// An empty queue for `dest`, its worker at rest.
    pub fn new(dest: Destination) -> (queue: Self)
        ensures
            queue.destination() == dest,
            queue@ == (QueueView { queued: Seq::empty(), active: Seq::empty(), status: None }),
    {
        let queue = DestinationQueue {
            dest,
            queued: Vec::new(),
            active: Vec::new(),
            status: None,
        };
        assert(entries(queue.queued@) =~= Seq::<EntryView>::empty());
        assert(entries(queue.active@) =~= Seq::<EntryView>::empty());
        queue
    }

    /// A queue as it was found in durable storage: the messages that were
    /// in flight and those that waited. The worker is at rest.
    pub fn restore(dest: Destination, active: Vec<QueuedEvent>, queued: Vec<QueuedEvent>) -> (queue:
        Self)
        ensures
            queue.destination() == dest,
            queue@ == (QueueView {
                queued: entries(queued@),
                active: entries(active@),
                status: None,
            }),
    {
        DestinationQueue { dest, queued, active, status: None }
    }

    /// What the worker is doing.
    pub fn status(&self) -> (status: Option<TransactionStatus>)
        ensures
            status == self@.status,
    {
        self.status
    }

    /// The number of messages that wait.
    pub fn queued_len(&self) -> (len: usize)
        ensures
            len == self@.queued.len(),
    {
        self.queued.len()
    }

    /// Puts a message at the end of the queue.
    pub fn push(&mut self, entry: QueuedEvent)
        ensures
            final(self)@ == (QueueView { queued: old(self)@.queued.push(entry@), ..old(self)@ }),
            final(self).destination() == old(self).destination(),
    {
        let ghost before = self.queued@;
        self.queued.push(entry);
        assert(entries(before.push(entry)) =~= entries(before).push(entry@));
    }

    /// Puts a message that was found in flight at the end of those in
    /// flight.
    pub fn push_active(&mut self, entry: QueuedEvent)
        ensures
            final(self)@ == (QueueView { active: old(self)@.active.push(entry@), ..old(self)@ }),
            final(self).destination() == old(self).destination(),
    {
        let ghost before = self.active@;
        self.active.push(entry);
        assert(entries(before.push(entry)) =~= entries(before).push(entry@));
    }

    /// The number of messages in flight.
    pub fn active_len(&self) -> (len: usize)
        ensures
            len == self@.active.len(),
    {
        self.active.len()
    }

    /// Marks the next messages as in flight and gives the transaction that
    /// sends them, with the given status; nothing where the queue is empty.
    fn start(&mut self, status: TransactionStatus) -> (transaction: Option<Transaction>)
        ensures
            final(self)@ == start_with(old(self)@, status).queue,
            final(self).destination() == old(self).destination(),
            transaction_sends(transaction, old(self).destination(), start_with(old(self)@, status).batch),
    {
        let ghost before = self@;
        if self.active.len() == 0 {
            let n = batch_size(&self.queued);
            let ghost waiting = self.queued@;
            let rest = self.queued.split_off(n);
            self.active.append(&mut self.queued);
            self.queued = rest;
            proof {
                assert(entries(self.active@) =~= entries(waiting).take(n as int));
                assert(entries(self.queued@) =~= entries(waiting).skip(n as int));
            }
        }
        assert(self@ == refill(before));
        let n = batch_size(&self.active);
        let mut events: Vec<SendingEvent> = Vec::new();
        let mut keys: Vec<Vec<u8>> = Vec::new();
        let mut i: usize = 0;
        while i < n
            invariant
                n <= self.active@.len(),
                i <= n,
                event_views(events@) =~= events_of(entries(self.active@).take(i as int)),
                key_views(keys@) =~= keys_of(entries(self.active@).take(i as int)),
            decreases n - i,
        {
            let ghost sent = events@;
            let ghost named = keys@;
            let ghost flying = entries(self.active@);
            events.push(self.active[i].event.duplicate());
            keys.push(copy_bytes(self.active[i].key.as_slice()));
            proof {
                assert(flying.take(i + 1) =~= flying.take(i as int).push(flying[i as int]));
                assert(event_views(events@) =~= event_views(sent).push(flying[i as int].event));
                assert(key_views(keys@) =~= key_views(named).push(flying[i as int].key));
                assert(events_of(flying.take(i + 1)) =~= events_of(flying.take(i as int)).push(
                    flying[i as int].event,
                ));
                assert(keys_of(flying.take(i + 1)) =~= keys_of(flying.take(i as int)).push(
                    flying[i as int].key,
                ));
            }
            i = i + 1;
        }
        if n > 0 {
            self.status = Some(status);
            Some(Transaction { dest: self.dest.duplicate(), events, keys })
        } else {
            self.status = None;
            None
        }
    }

    /// Handles a request to send to the destination at time `now`.
    pub fn handle_request(&mut self, now: u64, timing: Backoff) -> (transaction: Option<
        Transaction,
    >)
        ensures
            final(self)@ == on_request(
                old(self)@,
                now,
                timing,
                old(self).destination() is Appservice,
            ).queue,
            final(self).destination() == old(self).destination(),
            transaction_sends(
                transaction,
                old(self).destination(),
                on_request(old(self)@, now, timing, old(self).destination() is Appservice).batch,
            ),
    {
        match self.status {
            None => self.start(TransactionStatus::Running),
            Some(TransactionStatus::Running) => None,
            Some(TransactionStatus::Retrying(_)) => None,
            Some(TransactionStatus::Failed(tries, time)) => {
                let elapsed = if now >= time {
                    now - time
                } else {
                    0
                };
                let appservice = match &self.dest {
                    Destination::Appservice(_) => true,
                    _ => false,
                };
                if continue_exponential_backoff(timing.min, timing.max, elapsed, tries)
                    && !appservice {
                    None
                } else {
                    self.start(TransactionStatus::Retrying(tries))
                }
            },
        }
    }

    /// Handles the answer to the transaction under way at time `now`.
    /// Gives the keys of the messages that leave the queue, to be deleted
    /// from durable storage, and the next transaction if there is one.
    pub fn handle_response(&mut self, response: Response, now: u64) -> (result: (
        Vec<Vec<u8>>,
        Option<Transaction>,
    ))
        ensures
            final(self)@ == on_response(old(self)@, response, now).queue,
            final(self).destination() == old(self).destination(),
            key_views(result.0@) == keys_of(settled(old(self)@, response)),
            transaction_sends(
                result.1,
                old(self).destination(),
                on_response(old(self)@, response, now).batch,
            ),
    {
        match response {
            Response::Unreachable => {
                self.status = match self.status {
                    Some(TransactionStatus::Running) => Some(TransactionStatus::Failed(1, now)),
                    Some(TransactionStatus::Retrying(tries)) => Some(
                        TransactionStatus::Failed(
                            if tries < u32::MAX {
                                tries + 1
                            } else {
                                u32::MAX
                            },
                            now,
                        ),
                    ),
                    other => other,
                };
                let keys: Vec<Vec<u8>> = Vec::new();
                assert(key_views(keys@) =~= keys_of(Seq::<EntryView>::empty()));
                (keys, None)
            },
            _ => {
                let n = batch_size(&self.active);
                let ghost flying = self.active@;
                let mut keys: Vec<Vec<u8>> = Vec::new();
                let mut i: usize = 0;
                while i < n
                    invariant
                        n <= self.active@.len(),
                        i <= n,
                        key_views(keys@) =~= keys_of(entries(self.active@).take(i as int)),
                    decreases n - i,
                {
                    let ghost named = keys@;
                    let ghost flying = entries(self.active@);
                    keys.push(copy_bytes(self.active[i].key.as_slice()));
                    proof {
                        assert(flying.take(i + 1) =~= flying.take(i as int).push(flying[i as int]));
                        assert(key_views(keys@) =~= key_views(named).push(flying[i as int].key));
                        assert(keys_of(flying.take(i + 1)) =~= keys_of(flying.take(i as int)).push(
                            flying[i as int].key,
                        ));
                    }
                    i = i + 1;
                }
                let rest = self.active.split_off(n);
                self.active = rest;
                self.status = None;
                proof {
                    assert(entries(self.active@) =~= entries(flying).skip(n as int));
                }
                let next = self.start(TransactionStatus::Running);
                (keys, next)
            },
        }
    }
}

/// Whether `transaction` is the one that sends `batch` to `dest`: none
/// where there is nothing to send.
pub open spec fn transaction_sends(
    transaction: Option<Transaction>,
    dest: Destination,
    batch: Seq<EntryView>,
) -> bool {
    match transaction {
        None => batch.len() == 0,
        Some(transaction) => {
            &&& batch.len() > 0
            &&& transaction.dest@ == dest@
            &&& event_views(transaction.events@) == events_of(batch)
            &&& key_views(transaction.keys@) == keys_of(batch)
        },
    }
}

} // verus!
