//! The delivery queue: one queue for each destination, the keys of the
//! messages, and what survives a restart.
//!
//! The service holds the queues in memory and says what has to be written
//! to durable storage: a message is to be stored under the key in the
//! [`Msg`] that queueing it returns, before the caller is told that it is
//! queued; the keys that an answer settles are to be deleted.

use vstd::prelude::*;

use crate::error::Error;
use crate::name_map::NameMap;
use crate::sender::{
    on_request, on_response, settled, Backoff, DestinationQueue, EntryView, QueueView,
    QueuedEvent, Response, Transaction, TransactionStatus, key_views, keys_of,
    transaction_sends,
};
use crate::bytes::copy_bytes;
use crate::sending::{
    parse_servercurrentevent, queue_key, spec_parse, spec_queue_key, Destination,
    DestinationView, EventView, Msg, SendingEvent,
};
use crate::string::same_text;

verus! {

/// The delivery queue.
pub struct Service {
    servers: NameMap<DestinationQueue>,
    appservices: NameMap<DestinationQueue>,
    pushers: NameMap<NameMap<DestinationQueue>>,
    count: u64,
    timing: Backoff,
    startup_netburst: bool,
    startup_netburst_keep: i64,
}

/// A queue without messages, its worker at rest.
pub open spec fn idle_queue() -> QueueView {
    QueueView { queued: Seq::empty(), active: Seq::empty(), status: None }
}

/// What became of a message found in storage at startup.
#[derive(Debug, PartialEq, Eq)]
pub enum Loaded {
    /// The message is in the queue of this destination.
    Kept(Destination),
    /// The message is one too many for its destination: it is dropped and
    /// is to be deleted from storage.
    Dropped(Destination),
}

/// The servers among `servers` other than `own`, in their order.
pub open spec fn remote_servers(servers: Seq<String>, own: Seq<char>) -> Seq<Seq<char>>
    decreases servers.len(),
{
    if servers.len() == 0 {
        Seq::empty()
    } else if servers.last()@ == own {
        remote_servers(servers.drop_last(), own)
    } else {
        remote_servers(servers.drop_last(), own).push(servers.last()@)
    }
}

/// The queue of `dest` after `msgs` were queued one by one: those for
/// `dest` wait at its end, in their order.
pub open spec fn queued_after(queue: QueueView, dest: DestinationView, msgs: Seq<Msg>) -> QueueView
    decreases msgs.len(),
{
    if msgs.len() == 0 {
        queue
    } else {
        let before = queued_after(queue, dest, msgs.drop_last());
        if msgs.last().dest@ == dest {
            QueueView {
                queued: before.queued.push(
                    EntryView { key: msgs.last().queue_id@, event: msgs.last().event@ },
                ),
                ..before
            }
        } else {
            before
        }
    }
}

/// The names of a list as contracts see them.
pub open spec fn name_views(names: Seq<String>) -> Seq<Seq<char>> {
    names.map_values(|name: String| name@)
}

/// The servers of a room that messages go to: all but this server.
pub fn room_destinations(servers: &Vec<String>, own: &str) -> (remote: Vec<String>)
    ensures
        name_views(remote@) == remote_servers(servers@, own@),
{
    let mut remote: Vec<String> = Vec::new();
    let mut i: usize = 0;
    assert(servers@.take(0) =~= Seq::<String>::empty());
    assert(name_views(remote@) =~= Seq::<Seq<char>>::empty());
    while i < servers.len()
        invariant
            i <= servers@.len(),
            name_views(remote@) == remote_servers(servers@.take(i as int), own@),
        decreases servers@.len() - i,
    {
        let ghost before = remote@;
        proof {
            let next = servers@.take(i + 1);
            assert(next.drop_last() =~= servers@.take(i as int));
            assert(next.last() == servers@[i as int]);
        }
        if !same_text(servers[i].as_str(), own) {
            remote.push(servers[i].clone());
            proof {
                assert(name_views(remote@) =~= name_views(before).push(servers@[i as int]@));
            }
        }
        i = i + 1;
    }
    assert(servers@.take(servers@.len() as int) =~= servers@);
    remote
}

impl Service {
    closed spec fn slot(&self, dest: DestinationView) -> Option<DestinationQueue> {
        match dest {
            DestinationView::Normal(server) => self.servers.lookup(server),
            DestinationView::Appservice(id) => self.appservices.lookup(id),
            DestinationView::Push(user, pushkey) => match self.pushers.lookup(user) {
                Some(keys) => keys.lookup(pushkey),
                None => None,
            },
        }
    }

    /// The queue of `dest`; a destination that was never sent to has an
    /// empty queue.
    pub closed spec fn queue(&self, dest: DestinationView) -> QueueView {
        match self.slot(dest) {
            Some(queue) => queue@,
            None => idle_queue(),
        }
    }

    /// Every queue but the one of `dest` knows its destination.
    pub closed spec fn wf_except(&self, dest: DestinationView) -> bool {
        forall|other: DestinationView|
            other != dest && self.slot(other) is Some ==> (#[trigger] self.slot(
                other,
            ))->0.destination()@ == other
    }

    /// Every queue knows its destination.
    pub closed spec fn wf(&self) -> bool {
        forall|other: DestinationView|
            self.slot(other) is Some ==> (#[trigger] self.slot(other))->0.destination()@ == other
    }

    /// The count that the next message without an id of its own gets.
    pub closed spec fn next_count(&self) -> u64 {
        self.count
    }

    /// The timing of retries.
    pub closed spec fn timing(&self) -> Backoff {
        self.timing
    }

    /// Whether the messages found in flight at startup are sent at once,
    /// and how many of them are kept for each destination (all, where the
    /// number is negative).
    pub closed spec fn netburst(&self) -> (bool, i64) {
        (self.startup_netburst, self.startup_netburst_keep)
    }

    /// A delivery queue without messages. Counts start at `count`.
    pub fn new(count: u64, timing: Backoff, startup_netburst: bool, startup_netburst_keep: i64) -> (service:
        Self)
        ensures
            service.wf(),
            forall|dest: DestinationView| service.queue(dest) == idle_queue(),
            service.next_count() == count,
            service.timing() == timing,
            service.netburst() == (startup_netburst, startup_netburst_keep),
    {
        Service {
            servers: NameMap::new(),
            appservices: NameMap::new(),
            pushers: NameMap::new(),
            count,
            timing,
            startup_netburst,
            startup_netburst_keep,
        }
    }

    /// The count that the next message without an id of its own gets.
    pub fn current_count(&self) -> (count: u64)
        ensures
            count == self.next_count(),
    {
        self.count
    }

    fn checkout(&mut self, dest: &Destination) -> (queue: DestinationQueue)
        requires
            old(self).wf(),
        ensures
            queue@ == old(self).queue(dest@),
            queue.destination()@ == dest@,
            final(self).wf_except(dest@),
            forall|other: DestinationView|
                other != dest@ ==> final(self).slot(other) == old(self).slot(other),
            final(self).next_count() == old(self).next_count(),
            final(self).timing() == old(self).timing(),
            final(self).netburst() == old(self).netburst(),
    {
        let found = match dest {
            Destination::Normal(server) => {
                assert(old(self).slot(dest@) == old(self).servers.lookup(server@));
                self.servers.take(server.as_str())
            },
            Destination::Appservice(id) => {
                assert(old(self).slot(dest@) == old(self).appservices.lookup(id@));
                self.appservices.take(id.as_str())
            },
            Destination::Push(user, pushkey) => {
                match self.pushers.take(user.as_str()) {
                    Some(mut keys) => {
                        let found = keys.take(pushkey.as_str());
                        self.pushers.insert(user.clone(), keys);
                        found
                    },
                    None => None,
                }
            },
        };
        let queue = match found {
            Some(queue) => queue,
            None => DestinationQueue::new(dest.duplicate()),
        };
        proof {
            assert forall|other: DestinationView| other != dest@ implies self.slot(other) == old(
                self,
            ).slot(other) by {
                match (other, dest@) {
                    (DestinationView::Push(user, pushkey), DestinationView::Push(mine, key)) => {
                        if user == mine {
                            assert(pushkey != key);
                        }
                    },
                    _ => {},
                }
            }
            assert forall|other: DestinationView|
                other != dest@ && self.slot(other) is Some implies (#[trigger] self.slot(
                other,
            ))->0.destination()@ == other by {
                assert(self.slot(other) == old(self).slot(other));
            }
        }
        queue
    }

    fn checkin(&mut self, dest: &Destination, queue: DestinationQueue)
        requires
            old(self).wf_except(dest@),
            queue.destination()@ == dest@,
        ensures
            final(self).wf(),
            final(self).queue(dest@) == queue@,
            forall|other: DestinationView|
                other != dest@ ==> final(self).queue(other) == old(self).queue(other),
            final(self).next_count() == old(self).next_count(),
            final(self).timing() == old(self).timing(),
            final(self).netburst() == old(self).netburst(),
    {
        match dest {
            Destination::Normal(server) => {
                self.servers.insert(server.clone(), queue);
            },
            Destination::Appservice(id) => {
                self.appservices.insert(id.clone(), queue);
            },
            Destination::Push(user, pushkey) => {
                let mut keys = match self.pushers.take(user.as_str()) {
                    Some(keys) => keys,
                    None => NameMap::new(),
                };
                keys.insert(pushkey.clone(), queue);
                self.pushers.insert(user.clone(), keys);
            },
        }
        proof {
            assert(self.slot(dest@) == Some(queue));
            assert forall|other: DestinationView| other != dest@ implies self.slot(other) == old(
                self,
            ).slot(other) by {
                match (other, dest@) {
                    (DestinationView::Push(user, pushkey), DestinationView::Push(mine, key)) => {
                        if user == mine {
                            assert(pushkey != key);
                        }
                    },
                    _ => {},
                }
            }
            assert forall|other: DestinationView| self.slot(other) is Some implies (
            #[trigger] self.slot(other))->0.destination()@ == other by {
                if other != dest@ {
                    assert(self.slot(other) == old(self).slot(other));
                }
            }
        }
    }

    /// Queues a message for a destination, at the end of its queue. The key
    /// in the message that comes back is the key under which the message is
    /// to be written to durable storage.
    pub fn queue_request(&mut self, dest: &Destination, event: SendingEvent) -> (msg: Msg)
        requires
            old(self).wf(),
            event !is Pdu ==> old(self).next_count() < u64::MAX,
        ensures
            final(self).wf(),
            msg.dest@ == dest@,
            msg.event@ == event@,
            msg.queue_id@ == spec_queue_key(dest@, event@, old(self).next_count()),
            final(self).queue(dest@) == (QueueView {
                queued: old(self).queue(dest@).queued.push(
                    EntryView { key: msg.queue_id@, event: event@ },
                ),
                ..old(self).queue(dest@)
            }),
            forall|other: DestinationView|
                other != dest@ ==> final(self).queue(other) == old(self).queue(other),
            final(self).next_count() == if event is Pdu {
                old(self).next_count()
            } else {
                (old(self).next_count() + 1) as u64
            },
            final(self).timing() == old(self).timing(),
            final(self).netburst() == old(self).netburst(),
    {
        let key = queue_key(dest, &event, self.count);
        match &event {
            SendingEvent::Pdu(_) => {},
            _ => {
                self.count = self.count + 1;
            },
        }
        proof {
            assert forall|other: DestinationView| self.slot(other) is Some implies (
            #[trigger] self.slot(other))->0.destination()@ == other by {
                assert(self.slot(other) == old(self).slot(other));
            }
            assert forall|other: DestinationView| self.queue(other) == old(self).queue(other) by {
                assert(self.slot(other) == old(self).slot(other));
            }
        }
        let mut queue = self.checkout(dest);
        queue.push(QueuedEvent { key: copy_bytes(key.as_slice()), event: event.duplicate() });
        self.checkin(dest, queue);
        Msg { dest: dest.duplicate(), event, queue_id: key }
    }

    /// The message that asks the worker of a destination to send what is
    /// waiting. It carries nothing and is not queued.
    pub fn flush_request(dest: &Destination) -> (msg: Msg)
        ensures
            msg.dest@ == dest@,
            msg.event@ == EventView::Flush,
            msg.queue_id@ == Seq::<u8>::empty(),
    {
        Msg { dest: dest.duplicate(), event: SendingEvent::Flush, queue_id: Vec::new() }
    }

    /// Queues a persistent event for a push endpoint.
    pub fn send_pdu_push(&mut self, pdu_id: &[u8], user: &str, pushkey: String) -> (msg: Msg)
        requires
            old(self).wf(),
        ensures
            final(self).wf(),
            msg.dest@ == DestinationView::Push(user@, pushkey@),
            msg.event@ == EventView::Pdu(pdu_id@),
            msg.queue_id@ == spec_queue_key(msg.dest@, msg.event@, old(self).next_count()),
            final(self).queue(msg.dest@) == (QueueView {
                queued: old(self).queue(msg.dest@).queued.push(
                    EntryView { key: msg.queue_id@, event: msg.event@ },
                ),
                ..old(self).queue(msg.dest@)
            }),
            forall|other: DestinationView|
                other != msg.dest@ ==> final(self).queue(other) == old(self).queue(other),
            final(self).next_count() == old(self).next_count(),
    {
        let dest = Destination::Push(user.to_owned(), pushkey);
        let event = SendingEvent::Pdu(copy_bytes(pdu_id));
        self.queue_request(&dest, event)
    }

    /// Queues a persistent event for an application service.
    pub fn send_pdu_appservice(&mut self, appservice_id: String, pdu_id: Vec<u8>) -> (msg: Msg)
        requires
            old(self).wf(),
        ensures
            final(self).wf(),
            msg.dest@ == DestinationView::Appservice(appservice_id@),
            msg.event@ == EventView::Pdu(pdu_id@),
            msg.queue_id@ == spec_queue_key(msg.dest@, msg.event@, old(self).next_count()),
            final(self).queue(msg.dest@) == (QueueView {
                queued: old(self).queue(msg.dest@).queued.push(
                    EntryView { key: msg.queue_id@, event: msg.event@ },
                ),
                ..old(self).queue(msg.dest@)
            }),
            forall|other: DestinationView|
                other != msg.dest@ ==> final(self).queue(other) == old(self).queue(other),
            final(self).next_count() == old(self).next_count(),
    {
        let dest = Destination::Appservice(appservice_id);
        let event = SendingEvent::Pdu(pdu_id);
        self.queue_request(&dest, event)
    }

    /// Queues an ephemeral update for a server.
    pub fn send_edu_server(&mut self, server: &str, serialized: Vec<u8>) -> (msg: Msg)
        requires
            old(self).wf(),
            old(self).next_count() < u64::MAX,
        ensures
            final(self).wf(),
            msg.dest@ == DestinationView::Normal(server@),
            msg.event@ == EventView::Edu(serialized@),
            msg.queue_id@ == spec_queue_key(msg.dest@, msg.event@, old(self).next_count()),
            final(self).queue(msg.dest@) == (QueueView {
                queued: old(self).queue(msg.dest@).queued.push(
                    EntryView { key: msg.queue_id@, event: msg.event@ },
                ),
                ..old(self).queue(msg.dest@)
            }),
            forall|other: DestinationView|
                other != msg.dest@ ==> final(self).queue(other) == old(self).queue(other),
            final(self).next_count() == old(self).next_count() + 1,
    {
        let dest = Destination::Normal(server.to_owned());
        let event = SendingEvent::Edu(serialized);
        self.queue_request(&dest, event)
    }

    /// Queues a persistent event for each of `servers`, in their order.
    pub fn send_pdu_servers(&mut self, servers: &Vec<String>, pdu_id: &[u8]) -> (msgs: Vec<Msg>)
        requires
            old(self).wf(),
        ensures
            final(self).wf(),
            msgs@.len() == servers@.len(),
            forall|i: int|
                0 <= i < msgs@.len() ==> {
                    &&& (#[trigger] msgs@[i]).dest@ == DestinationView::Normal(servers@[i]@)
                    &&& msgs@[i].event@ == EventView::Pdu(pdu_id@)
                    &&& msgs@[i].queue_id@ == spec_queue_key(
                        msgs@[i].dest@,
                        msgs@[i].event@,
                        old(self).next_count(),
                    )
                },
            forall|dest: DestinationView|
                final(self).queue(dest) == queued_after(old(self).queue(dest), dest, msgs@),
            final(self).next_count() == old(self).next_count(),
    {
        let mut msgs: Vec<Msg> = Vec::new();
        let mut i: usize = 0;
        while i < servers.len()
            invariant
                self.wf(),
                self.next_count() == old(self).next_count(),
                forall|dest: DestinationView|
                    self.queue(dest) == queued_after(old(self).queue(dest), dest, msgs@),
                i <= servers@.len(),
                msgs@.len() == i,
                forall|k: int|
                    0 <= k < msgs@.len() ==> {
                        &&& (#[trigger] msgs@[k]).dest@ == DestinationView::Normal(servers@[k]@)
                        &&& msgs@[k].event@ == EventView::Pdu(pdu_id@)
                        &&& msgs@[k].queue_id@ == spec_queue_key(
                            msgs@[k].dest@,
                            msgs@[k].event@,
                            old(self).next_count(),
                        )
                    },
            decreases servers@.len() - i,
        {
            let dest = Destination::Normal(servers[i].clone());
            let ghost sent = msgs@;
            let msg = self.queue_request(&dest, SendingEvent::Pdu(copy_bytes(pdu_id)));
            msgs.push(msg);
            proof {
                assert(msgs@.drop_last() =~= sent);
            }
            i = i + 1;
        }
        msgs
    }

    /// Queues an ephemeral update for each of `servers`, in their order.
    /// Each message gets a count of its own.
    pub fn send_edu_servers(&mut self, servers: &Vec<String>, serialized: &Vec<u8>) -> (msgs: Vec<
        Msg,
    >)
        requires
            old(self).wf(),
            old(self).next_count() + servers@.len() <= u64::MAX,
        ensures
            final(self).wf(),
            msgs@.len() == servers@.len(),
            forall|i: int|
                0 <= i < msgs@.len() ==> {
                    &&& (#[trigger] msgs@[i]).dest@ == DestinationView::Normal(servers@[i]@)
                    &&& msgs@[i].event@ == EventView::Edu(serialized@)
                    &&& msgs@[i].queue_id@ == spec_queue_key(
                        msgs@[i].dest@,
                        msgs@[i].event@,
                        (old(self).next_count() + i) as u64,
                    )
                },
            forall|dest: DestinationView|
                final(self).queue(dest) == queued_after(old(self).queue(dest), dest, msgs@),
            final(self).next_count() == old(self).next_count() + servers@.len(),
    {
        let mut msgs: Vec<Msg> = Vec::new();
        let mut i: usize = 0;
        while i < servers.len()
            invariant
                self.wf(),
                forall|dest: DestinationView|
                    self.queue(dest) == queued_after(old(self).queue(dest), dest, msgs@),
                old(self).next_count() + servers@.len() <= u64::MAX,
                self.next_count() == old(self).next_count() + i,
                i <= servers@.len(),
                msgs@.len() == i,
                forall|k: int|
                    0 <= k < msgs@.len() ==> {
                        &&& (#[trigger] msgs@[k]).dest@ == DestinationView::Normal(servers@[k]@)
                        &&& msgs@[k].event@ == EventView::Edu(serialized@)
                        &&& msgs@[k].queue_id@ == spec_queue_key(
                            msgs@[k].dest@,
                            msgs@[k].event@,
                            (old(self).next_count() + k) as u64,
                        )
                    },
            decreases servers@.len() - i,
        {
            let dest = Destination::Normal(servers[i].clone());
            let ghost sent = msgs@;
            let msg = self.queue_request(
                &dest,
                SendingEvent::Edu(copy_bytes(serialized.as_slice())),
            );
            msgs.push(msg);
            proof {
                assert(msgs@.drop_last() =~= sent);
            }
            i = i + 1;
        }
        msgs
    }

    /// Queues a persistent event for the servers of a room other than this
    /// server.
    pub fn send_pdu_room(&mut self, room_servers: &Vec<String>, own: &str, pdu_id: &[u8]) -> (msgs:
        Vec<Msg>)
        requires
            old(self).wf(),
        ensures
            final(self).wf(),
            msgs@.len() == remote_servers(room_servers@, own@).len(),
            forall|i: int|
                0 <= i < msgs@.len() ==> {
                    &&& (#[trigger] msgs@[i]).dest@ == DestinationView::Normal(
                        remote_servers(room_servers@, own@)[i],
                    )
                    &&& msgs@[i].event@ == EventView::Pdu(pdu_id@)
                    &&& msgs@[i].queue_id@ == spec_queue_key(
                        msgs@[i].dest@,
                        msgs@[i].event@,
                        old(self).next_count(),
                    )
                },
            forall|dest: DestinationView|
                final(self).queue(dest) == queued_after(old(self).queue(dest), dest, msgs@),
            final(self).next_count() == old(self).next_count(),
    {
        let servers = room_destinations(room_servers, own);
        let msgs = self.send_pdu_servers(&servers, pdu_id);
        proof {
            assert forall|i: int| 0 <= i < msgs@.len() implies (#[trigger] msgs@[i]).dest@
                == DestinationView::Normal(remote_servers(room_servers@, own@)[i]) by {
                assert(name_views(servers@)[i] == servers@[i]@);
            }
        }
        msgs
    }

    /// Queues an ephemeral update for the servers of a room other than this
    /// server.
    pub fn send_edu_room(&mut self, room_servers: &Vec<String>, own: &str, serialized: &Vec<u8>) -> (msgs:
        Vec<Msg>)
        requires
            old(self).wf(),
            old(self).next_count() + room_servers@.len() <= u64::MAX,
        ensures
            final(self).wf(),
            msgs@.len() == remote_servers(room_servers@, own@).len(),
            forall|i: int|
                0 <= i < msgs@.len() ==> {
                    &&& (#[trigger] msgs@[i]).dest@ == DestinationView::Normal(
                        remote_servers(room_servers@, own@)[i],
                    )
                    &&& msgs@[i].event@ == EventView::Edu(serialized@)
                    &&& msgs@[i].queue_id@ == spec_queue_key(
                        msgs@[i].dest@,
                        msgs@[i].event@,
                        (old(self).next_count() + i) as u64,
                    )
                },
            forall|dest: DestinationView|
                final(self).queue(dest) == queued_after(old(self).queue(dest), dest, msgs@),
            final(self).next_count() == old(self).next_count() + msgs@.len(),
    {
        let servers = room_destinations(room_servers, own);
        proof {
            lemma_remote_servers_len(room_servers@, own@);
        }
        let msgs = self.send_edu_servers(&servers, serialized);
        proof {
            assert forall|i: int| 0 <= i < msgs@.len() implies (#[trigger] msgs@[i]).dest@
                == DestinationView::Normal(remote_servers(room_servers@, own@)[i]) by {
                assert(name_views(servers@)[i] == servers@[i]@);
            }
        }
        msgs
    }

    /// The messages that ask the workers of `servers` to send what is
    /// waiting.
    pub fn flush_servers(servers: &Vec<String>) -> (msgs: Vec<Msg>)
        ensures
            msgs@.len() == servers@.len(),
            forall|i: int|
                0 <= i < msgs@.len() ==> {
                    &&& (#[trigger] msgs@[i]).dest@ == DestinationView::Normal(servers@[i]@)
                    &&& msgs@[i].event@ == EventView::Flush
                    &&& msgs@[i].queue_id@ == Seq::<u8>::empty()
                },
    {
        let mut msgs: Vec<Msg> = Vec::new();
        let mut i: usize = 0;
        while i < servers.len()
            invariant
                i <= servers@.len(),
                msgs@.len() == i,
                forall|k: int|
                    0 <= k < msgs@.len() ==> {
                        &&& (#[trigger] msgs@[k]).dest@ == DestinationView::Normal(servers@[k]@)
                        &&& msgs@[k].event@ == EventView::Flush
                        &&& msgs@[k].queue_id@ == Seq::<u8>::empty()
                    },
            decreases servers@.len() - i,
        {
            let dest = Destination::Normal(servers[i].clone());
            msgs.push(Self::flush_request(&dest));
            i = i + 1;
        }
        msgs
    }

    /// The messages that ask the workers of the servers of a room, other
    /// than this server, to send what is waiting.
    pub fn flush_room(room_servers: &Vec<String>, own: &str) -> (msgs: Vec<Msg>)
        ensures
            msgs@.len() == remote_servers(room_servers@, own@).len(),
            forall|i: int|
                0 <= i < msgs@.len() ==> {
                    &&& (#[trigger] msgs@[i]).dest@ == DestinationView::Normal(
                        remote_servers(room_servers@, own@)[i],
                    )
                    &&& msgs@[i].event@ == EventView::Flush
                },
    {
        let servers = room_destinations(room_servers, own);
        let msgs = Self::flush_servers(&servers);
        proof {
            assert forall|i: int| 0 <= i < msgs@.len() implies (#[trigger] msgs@[i]).dest@
                == DestinationView::Normal(remote_servers(room_servers@, own@)[i]) by {
                assert(name_views(servers@)[i] == servers@[i]@);
            }
        }
        msgs
    }

    /// Cleanup event data: forgets every message of an application
    /// service, in flight or waiting. Used for instance after the
    /// registration of an application service is removed.
    pub fn cleanup_events(&mut self, appservice_id: String)
        requires
            old(self).wf(),
        ensures
            final(self).wf(),
            final(self).queue(DestinationView::Appservice(appservice_id@)) == idle_queue(),
            forall|other: DestinationView|
                other != DestinationView::Appservice(appservice_id@) ==> final(self).queue(other)
                    == old(self).queue(other),
            final(self).next_count() == old(self).next_count(),
    {
        let dest = Destination::Appservice(appservice_id);
        let _ = self.checkout(&dest);
        self.checkin(&dest, DestinationQueue::new(dest.duplicate()));
    }

    /// Handles a message that was dispatched to the sender at time `now`:
    /// the worker of its destination sends what is waiting, if it is free
    /// to.
    pub fn handle_request(&mut self, msg: &Msg, now: u64) -> (transaction: Option<Transaction>)
        requires
            old(self).wf(),
        ensures
            final(self).wf(),
            final(self).queue(msg.dest@) == on_request(
                old(self).queue(msg.dest@),
                now,
                old(self).timing(),
                msg.dest@ is Appservice,
            ).queue,
            transaction_sends(
                transaction,
                msg.dest,
                on_request(
                    old(self).queue(msg.dest@),
                    now,
                    old(self).timing(),
                    msg.dest@ is Appservice,
                ).batch,
            ),
            forall|other: DestinationView|
                other != msg.dest@ ==> final(self).queue(other) == old(self).queue(other),
            final(self).next_count() == old(self).next_count(),
            final(self).timing() == old(self).timing(),
    {
        let timing = self.timing;
        let mut queue = self.checkout(&msg.dest);
        let transaction = queue.handle_request(now, timing);
        self.checkin(&msg.dest, queue);
        transaction
    }

    /// Handles the answer of a destination to the transaction under way,
    /// at time `now`. Gives the keys of the messages that are settled, to
    /// be deleted from durable storage, and the next transaction for the
    /// destination if there is one.
    pub fn handle_response(&mut self, dest: &Destination, response: Response, now: u64) -> (result: (
        Vec<Vec<u8>>,
        Option<Transaction>,
    ))
        requires
            old(self).wf(),
        ensures
            final(self).wf(),
            final(self).queue(dest@) == on_response(old(self).queue(dest@), response, now).queue,
            key_views(result.0@) == keys_of(settled(old(self).queue(dest@), response)),
            transaction_sends(
                result.1,
                *dest,
                on_response(old(self).queue(dest@), response, now).batch,
            ),
            forall|other: DestinationView|
                other != dest@ ==> final(self).queue(other) == old(self).queue(other),
            final(self).next_count() == old(self).next_count(),
            final(self).timing() == old(self).timing(),
    {
        let mut queue = self.checkout(dest);
        let result = queue.handle_response(response, now);
        self.checkin(dest, queue);
        result
    }

    /// Whether a message found in flight at startup is one too many for
    /// its destination, which holds `held` already.
    pub open spec fn over_keep(keep: i64, held: nat) -> bool {
        keep >= 0 && held >= keep
    }

    /// Takes up a message that was found in durable storage at startup, in
    /// flight (`active`) or waiting. A message in flight beyond the number
    /// to keep for its destination is dropped. A record that cannot be read
    /// is an error.
    pub fn load_record(&mut self, key: &[u8], value: Vec<u8>, active: bool) -> (loaded: Result<
        Loaded,
        Error,
    >)
        requires
            old(self).wf(),
        ensures
            final(self).wf(),
            final(self).next_count() == old(self).next_count(),
            final(self).timing() == old(self).timing(),
            final(self).netburst() == old(self).netburst(),
            match spec_parse(key@, value@) {
                None => loaded is Err && loaded->Err_0 is Database && forall|
                    other: DestinationView,
                | final(self).queue(other) == old(self).queue(other),
                Some(stored) => {
                    let entry = EntryView { key: key@, event: stored.event };
                    let before = old(self).queue(stored.dest);
                    &&& forall|other: DestinationView|
                        other != stored.dest ==> final(self).queue(other) == old(self).queue(other)
                    &&& if !active {
                        &&& loaded matches Ok(Loaded::Kept(dest))
                        &&& dest@ == stored.dest
                        &&& final(self).queue(stored.dest) == (QueueView {
                            queued: before.queued.push(entry),
                            ..before
                        })
                    } else if Self::over_keep(old(self).netburst().1, before.active.len()) {
                        &&& loaded matches Ok(Loaded::Dropped(dest))
                        &&& dest@ == stored.dest
                        &&& final(self).queue(stored.dest) == before
                    } else {
                        &&& loaded matches Ok(Loaded::Kept(dest))
                        &&& dest@ == stored.dest
                        &&& final(self).queue(stored.dest) == (QueueView {
                            active: before.active.push(entry),
                            ..before
                        })
                    }
                },
            },
    {
        let key_copy = copy_bytes(key);
        match parse_servercurrentevent(key, value) {
            Err(e) => Err(e),
            Ok((dest, event)) => {
                let keep = self.startup_netburst_keep;
                let mut queue = self.checkout(&dest);
                let entry = QueuedEvent { key: key_copy, event };
                let held = queue.active_len();
                let dropped = active && keep >= 0 && held as u64 >= keep as u64;
                if !active {
                    queue.push(entry);
                } else if !dropped {
                    queue.push_active(entry);
                }
                self.checkin(&dest, queue);
                if dropped {
                    Ok(Loaded::Dropped(dest))
                } else {
                    Ok(Loaded::Kept(dest))
                }
            },
        }
    }

    /// The transaction that goes out to a destination right after startup:
    /// where the burst at startup is switched on, what a request to send
    /// to it comes to; nothing where it is switched off.
    pub fn startup_transaction(&mut self, dest: &Destination, now: u64) -> (transaction: Option<
        Transaction,
    >)
        requires
            old(self).wf(),
        ensures
            final(self).wf(),
            final(self).next_count() == old(self).next_count(),
            forall|other: DestinationView|
                other != dest@ ==> final(self).queue(other) == old(self).queue(other),
            if old(self).netburst().0 {
                &&& final(self).queue(dest@) == on_request(
                    old(self).queue(dest@),
                    now,
                    old(self).timing(),
                    dest@ is Appservice,
                ).queue
                &&& transaction_sends(
                    transaction,
                    *dest,
                    on_request(
                        old(self).queue(dest@),
                        now,
                        old(self).timing(),
                        dest@ is Appservice,
                    ).batch,
                )
            } else {
                transaction is None && final(self).queue(dest@) == old(self).queue(dest@)
            },
    {
        if self.startup_netburst {
            let timing = self.timing;
            let mut queue = self.checkout(dest);
            let transaction = queue.handle_request(now, timing);
            self.checkin(dest, queue);
            transaction
        } else {
            None
        }
    }
}

/// No more servers are left than there were.
pub proof fn lemma_remote_servers_len(servers: Seq<String>, own: Seq<char>)
    ensures
        remote_servers(servers, own).len() <= servers.len(),
    decreases servers.len(),
{
    if servers.len() > 0 {
        lemma_remote_servers_len(servers.drop_last(), own);
    }
}

} // verus!
