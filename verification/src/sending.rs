//! Outbound messages: where they go, what they carry, and the keys under
//! which they wait in durable storage.
//!
//! A message waits under the prefix of its destination followed by its
//! queue id. The prefix ends in the byte `0xFF`, which no text holds, so
//! that the messages of one destination are exactly those whose key begins
//! with its prefix.

use vstd::prelude::*;
use vstd::slice::slice_subrange;
use vstd::utf8::{encode_scalar, encode_utf8, valid_utf8};

use crate::bytes::{append_bytes, copy_bytes, u64_be, u64_to_be_bytes};
use crate::error::Error;
use crate::string::string_from_bytes;

verus! {

/// The byte that ends each part of a destination's prefix.
pub const SEPARATOR: u8 = 0xFF;

/// The byte that begins the prefix of an application service.
pub const APPSERVICE_SIGIL: u8 = 0x2B;

/// The byte that begins the prefix of a push endpoint.
pub const PUSH_SIGIL: u8 = 0x24;

/// One outbound delivery target.
#[derive(Clone, Debug, PartialEq, Eq, Hash)]
pub enum Destination {
    /// A local bridge, by its id.
    Appservice(String),
    /// A push endpoint: the user and the push key.
    Push(String, String),
    /// A remote server, by its name.
    Normal(String),
}

/// What a queued message carries.
#[derive(Clone, Debug, PartialEq, Eq, Hash)]
pub enum SendingEvent {
    /// A persistent event, by its id.
    Pdu(Vec<u8>),
    /// An ephemeral update, in full.
    Edu(Vec<u8>),
    /// Nothing: a request to send what is waiting.
    Flush,
}

/// A destination as contracts see it.
pub enum DestinationView {
    Appservice(Seq<char>),
    Push(Seq<char>, Seq<char>),
    Normal(Seq<char>),
}

/// A payload as contracts see it.
pub enum EventView {
    Pdu(Seq<u8>),
    Edu(Seq<u8>),
    Flush,
}

impl View for Destination {
    type V = DestinationView;

    open spec fn view(&self) -> DestinationView {
        match self {
            Destination::Appservice(id) => DestinationView::Appservice(id@),
            Destination::Push(user, pushkey) => DestinationView::Push(user@, pushkey@),
            Destination::Normal(server) => DestinationView::Normal(server@),
        }
    }
}

impl View for SendingEvent {
    type V = EventView;

    open spec fn view(&self) -> EventView {
        match self {
            SendingEvent::Pdu(id) => EventView::Pdu(id@),
            SendingEvent::Edu(content) => EventView::Edu(content@),
            SendingEvent::Flush => EventView::Flush,
        }
    }
}

/// A message on its way to the sender: the destination, the payload, and
/// the key under which it waits (empty for a flush).
#[derive(Clone, Debug, PartialEq, Eq)]
pub struct Msg {
    pub dest: Destination,
    pub event: SendingEvent,
    pub queue_id: Vec<u8>,
}

/// The prefix of the keys of a destination.
pub open spec fn spec_prefix(dest: DestinationView) -> Seq<u8> {
    match dest {
        DestinationView::Normal(server) => encode_utf8(server) + seq![SEPARATOR],
        DestinationView::Appservice(id) => seq![APPSERVICE_SIGIL] + encode_utf8(id) + seq![
            SEPARATOR,
        ],
        DestinationView::Push(user, pushkey) => seq![PUSH_SIGIL] + encode_utf8(user) + seq![
            SEPARATOR,
        ] + encode_utf8(pushkey) + seq![SEPARATOR],
    }
}

/// The queue id of a message: the id of a persistent event, and for
/// anything else the count it was given, in eight bytes.
pub open spec fn spec_queue_id(event: EventView, count: u64) -> Seq<u8> {
    match event {
        EventView::Pdu(id) => id,
        _ => u64_be(count),
    }
}

/// The key under which a message waits.
pub open spec fn spec_queue_key(dest: DestinationView, event: EventView, count: u64) -> Seq<u8> {
    spec_prefix(dest) + spec_queue_id(event, count)
}

/// The value that is stored with a message: the content of an ephemeral
/// update, and nothing for anything else.
pub open spec fn spec_queue_value(event: EventView) -> Seq<u8> {
    match event {
        EventView::Edu(content) => content,
        _ => Seq::empty(),
    }
}

proof fn lemma_scalar_bytes(s: u32)
    by (bit_vector)
    ensures
        (s & 0x7F) as u8 != 0xFFu8,
        (0xC0u8 | ((s >> 6) & 0x1F) as u8) != 0xFFu8,
        (0xE0u8 | ((s >> 12) & 0x0F) as u8) != 0xFFu8,
        (0xF0u8 | ((s >> 18) & 0x7) as u8) != 0xFFu8,
        (0x80u8 | (s & 0x3F) as u8) != 0xFFu8,
        (0x80u8 | ((s >> 6) & 0x3F) as u8) != 0xFFu8,
        (0x80u8 | ((s >> 12) & 0x3F) as u8) != 0xFFu8,
{
}

/// None of `bytes` is the separator.
pub open spec fn no_separator(bytes: Seq<u8>) -> bool {
    forall|i: int| 0 <= i < bytes.len() ==> #[trigger] bytes[i] != SEPARATOR
}

/// No text holds the separator byte.
pub proof fn lemma_text_has_no_separator(text: Seq<char>)
    ensures
        no_separator(encode_utf8(text)),
    decreases text.len(),
{
    if text.len() > 0 {
        let first = encode_scalar(text[0] as u32);
        let rest = encode_utf8(text.drop_first());
        lemma_scalar_bytes(text[0] as u32);
        lemma_text_has_no_separator(text.drop_first());
        let bytes = encode_utf8(text);
        assert(bytes == first + rest);
        assert forall|i: int| 0 <= i < bytes.len() implies #[trigger] bytes[i] != SEPARATOR by {
            if i < first.len() {
                assert(bytes[i] == first[i]);
            } else {
                assert(bytes[i] == rest[i - first.len()]);
            }
        }
    }
}

impl Destination {
    /// A copy of this destination.
    pub fn duplicate(&self) -> (copy: Self)
        ensures
            copy@ == self@,
    {
        match self {
            Destination::Appservice(id) => Destination::Appservice(id.clone()),
            Destination::Push(user, pushkey) => Destination::Push(user.clone(), pushkey.clone()),
            Destination::Normal(server) => Destination::Normal(server.clone()),
        }
    }

    /// The prefix of the keys under which the messages of this destination
    /// wait.
    #[must_use]
    pub fn get_prefix(&self) -> (prefix: Vec<u8>)
        ensures
            prefix@ == spec_prefix(self@),
    {
        match self {
            Destination::Normal(server) => {
                let mut p: Vec<u8> = Vec::new();
                append_bytes(&mut p, server.as_str().as_bytes());
                p.push(SEPARATOR);
                assert(p@ =~= spec_prefix(self@));
                p
            },
            Destination::Appservice(server) => {
                let mut p: Vec<u8> = Vec::new();
                p.push(APPSERVICE_SIGIL);
                append_bytes(&mut p, server.as_str().as_bytes());
                p.push(SEPARATOR);
                assert(p@ =~= spec_prefix(self@));
                p
            },
            Destination::Push(user, pushkey) => {
                let mut p: Vec<u8> = Vec::new();
                p.push(PUSH_SIGIL);
                append_bytes(&mut p, user.as_str().as_bytes());
                p.push(SEPARATOR);
                append_bytes(&mut p, pushkey.as_str().as_bytes());
                p.push(SEPARATOR);
                assert(p@ =~= spec_prefix(self@));
                p
            },
        }
    }
}

impl SendingEvent {
    /// A copy of this payload.
    pub fn duplicate(&self) -> (copy: Self)
        ensures
            copy@ == self@,
    {
        match self {
            SendingEvent::Pdu(id) => SendingEvent::Pdu(copy_bytes(id.as_slice())),
            SendingEvent::Edu(content) => SendingEvent::Edu(copy_bytes(content.as_slice())),
            SendingEvent::Flush => SendingEvent::Flush,
        }
    }
}

/// The key under which a message waits, given the count to use where the
/// payload has no id of its own.
pub fn queue_key(dest: &Destination, event: &SendingEvent, count: u64) -> (key: Vec<u8>)
    ensures
        key@ == spec_queue_key(dest@, event@, count),
{
    let mut key = dest.get_prefix();
    match event {
        SendingEvent::Pdu(id) => {
            append_bytes(&mut key, id.as_slice());
        },
        _ => {
            let id = u64_to_be_bytes(count);
            append_bytes(&mut key, id.as_slice());
        },
    }
    key
}

/// The value that is stored with a message.
pub fn queue_value(event: &SendingEvent) -> (value: Vec<u8>)
    ensures
        value@ == spec_queue_value(event@),
{
    match event {
        SendingEvent::Edu(content) => copy_bytes(content.as_slice()),
        _ => Vec::new(),
    }
}

/// The position of the first separator in `bytes`, if there is one.
pub open spec fn first_separator(bytes: Seq<u8>) -> Option<int> {
    bytes.index_of_first(SEPARATOR)
}

/// Finds the first separator at or after `from`.
pub fn find_separator(bytes: &[u8], from: usize) -> (at: Option<usize>)
    requires
        from <= bytes@.len(),
    ensures
        match at {
            Some(at) => from <= at < bytes@.len() && bytes@[at as int] == SEPARATOR
                && no_separator(bytes@.subrange(from as int, at as int)),
            None => no_separator(bytes@.subrange(from as int, bytes@.len() as int)),
        },
{
    let mut i: usize = from;
    while i < bytes.len()
        invariant
            from <= i <= bytes@.len(),
            no_separator(bytes@.subrange(from as int, i as int)),
        decreases bytes@.len() - i,
    {
        if bytes[i] == SEPARATOR {
            return Some(i);
        }
        proof {
            let longer = bytes@.subrange(from as int, i + 1);
            assert forall|k: int| 0 <= k < longer.len() implies #[trigger] longer[k]
                != SEPARATOR by {
                if k < i - from {
                    assert(longer[k] == bytes@.subrange(from as int, i as int)[k]);
                }
            }
        }
        i = i + 1;
    }
    None
}

/// The payload that a stored message carries: with a value it is an
/// ephemeral update, the value being its content; without one it is a
/// persistent event, the queue id being its id.
pub open spec fn spec_stored_event(queue_id: Seq<u8>, value: Seq<u8>) -> EventView {
    if value.len() == 0 {
        EventView::Pdu(queue_id)
    } else {
        EventView::Edu(value)
    }
}

/// A stored message as it was read back.
pub struct StoredView {
    pub dest: DestinationView,
    pub event: EventView,
}

/// The part of `bytes` before the first separator at or after `from`, and
/// the position after that separator.
pub open spec fn part_from(bytes: Seq<u8>, from: int) -> Option<(Seq<u8>, int)> {
    match first_separator(bytes.skip(from)) {
        Some(at) => Some((bytes.subrange(from, from + at), from + at + 1)),
        None => None,
    }
}

/// What a key and a value read back as: the destination and the payload.
/// A key that begins with `+` belongs to an application service, one that
/// begins with `$` to a push endpoint, any other to a server. The names
/// end at separators and must be text; what follows the last separator is
/// the queue id.
pub open spec fn spec_parse(key: Seq<u8>, value: Seq<u8>) -> Option<StoredView> {
    if key.len() > 0 && key[0] == APPSERVICE_SIGIL {
        match part_from(key, 1) {
            Some((name, after)) => if valid_utf8(name) {
                Some(
                    StoredView {
                        dest: DestinationView::Appservice(vstd::utf8::decode_utf8(name)),
                        event: spec_stored_event(key.skip(after), value),
                    },
                )
            } else {
                None
            },
            None => None,
        }
    } else if key.len() > 0 && key[0] == PUSH_SIGIL {
        match part_from(key, 1) {
            Some((user, middle)) => match part_from(key, middle) {
                Some((pushkey, after)) => if valid_utf8(user) && valid_utf8(pushkey) {
                    Some(
                        StoredView {
                            dest: DestinationView::Push(
                                vstd::utf8::decode_utf8(user),
                                vstd::utf8::decode_utf8(pushkey),
                            ),
                            event: spec_stored_event(key.skip(after), value),
                        },
                    )
                } else {
                    None
                },
                None => None,
            },
            None => None,
        }
    } else {
        match part_from(key, 0) {
            Some((name, after)) => if valid_utf8(name) {
                Some(
                    StoredView {
                        dest: DestinationView::Normal(vstd::utf8::decode_utf8(name)),
                        event: spec_stored_event(key.skip(after), value),
                    },
                )
            } else {
                None
            },
            None => None,
        }
    }
}

/// `at` is where the first separator of `bytes` lies.
pub proof fn lemma_first_separator(bytes: Seq<u8>, at: int)
    requires
        0 <= at < bytes.len(),
        bytes[at] == SEPARATOR,
        no_separator(bytes.take(at)),
    ensures
        first_separator(bytes) == Some(at),
{
    bytes.index_of_first_ensures(SEPARATOR);
    let found = bytes.index_of_first(SEPARATOR);
    assert(bytes.contains(SEPARATOR));
    let index = found->0;
    if index < at {
        assert(bytes.take(at)[index] == SEPARATOR);
    }
}

/// There is no separator in `bytes`.
pub proof fn lemma_no_first_separator(bytes: Seq<u8>)
    requires
        no_separator(bytes),
    ensures
        first_separator(bytes) is None,
{
    bytes.index_of_first_ensures(SEPARATOR);
}

fn read_part(key: &[u8], from: usize) -> (part: Option<(usize, usize)>)
    requires
        from <= key@.len(),
    ensures
        match part {
            Some((end, after)) => part_from(key@, from as int) == Some(
                (key@.subrange(from as int, end as int), after as int),
            ) && from <= end < key@.len() && after == end + 1,
            None => part_from(key@, from as int) is None,
        },
{
    let len = key.len();
    match find_separator(key, from) {
        Some(at) => {
            assert(at < len);
            proof {
                let rest = key@.skip(from as int);
                assert(rest.take(at - from) =~= key@.subrange(from as int, at as int));
                lemma_first_separator(rest, at - from);
            }
            Some((at, at + 1))
        },
        None => {
            proof {
                assert(key@.skip(from as int) =~= key@.subrange(from as int, key@.len() as int));
                lemma_no_first_separator(key@.skip(from as int));
            }
            None
        },
    }
}

fn stored_event(key: &[u8], after: usize, value: Vec<u8>) -> (event: SendingEvent)
    requires
        after <= key@.len(),
    ensures
        event@ == spec_stored_event(key@.skip(after as int), value@),
{
    if value.len() == 0 {
        let id = copy_bytes(slice_subrange(key, after, key.len()));
        assert(key@.subrange(after as int, key@.len() as int) =~= key@.skip(after as int));
        SendingEvent::Pdu(id)
    } else {
        SendingEvent::Edu(value)
    }
}

/// What became of reading a stored message.
pub open spec fn stored_of(parsed: Result<(Destination, SendingEvent), Error>) -> Option<StoredView> {
    match parsed {
        Ok((dest, event)) => Some(StoredView { dest: dest@, event: event@ }),
        Err(_) => None,
    }
}

/// Reads a stored message back from its key and value.
pub fn parse_servercurrentevent(key: &[u8], value: Vec<u8>) -> (parsed: Result<
    (Destination, SendingEvent),
    Error,
>)
    ensures
        stored_of(parsed) == spec_parse(key@, value@),
        parsed is Err ==> parsed->Err_0 is Database,
{
    if key.len() > 0 && key[0] == APPSERVICE_SIGIL {
        match read_part(key, 1) {
            Some((end, after)) => {
                match string_from_bytes(slice_subrange(key, 1, end)) {
                    Ok(name) => Ok((Destination::Appservice(name), stored_event(key, after, value))),
                    Err(_) => Err(
                        Error::Database("Invalid server bytes in server_currenttransaction".to_owned()),
                    ),
                }
            },
            None => Err(Error::Database("Invalid bytes in servercurrentpdus.".to_owned())),
        }
    } else if key.len() > 0 && key[0] == PUSH_SIGIL {
        match read_part(key, 1) {
            Some((end, middle)) => match read_part(key, middle) {
                Some((last, after)) => {
                    let user = string_from_bytes(slice_subrange(key, 1, end));
                    let pushkey = string_from_bytes(slice_subrange(key, middle, last));
                    match (user, pushkey) {
                        (Ok(user), Ok(pushkey)) => Ok(
                            (Destination::Push(user, pushkey), stored_event(key, after, value)),
                        ),
                        _ => Err(
                            Error::Database("Invalid bytes in servercurrentpdus.".to_owned()),
                        ),
                    }
                },
                None => Err(Error::Database("Invalid bytes in servercurrentpdus.".to_owned())),
            },
            None => Err(Error::Database("Invalid bytes in servercurrentpdus.".to_owned())),
        }
    } else {
        match read_part(key, 0) {
            Some((end, after)) => {
                match string_from_bytes(slice_subrange(key, 0, end)) {
                    Ok(name) => Ok((Destination::Normal(name), stored_event(key, after, value))),
                    Err(_) => Err(
                        Error::Database("Invalid server bytes in server_currenttransaction".to_owned()),
                    ),
                }
            },
            None => Err(Error::Database("Invalid bytes in servercurrentpdus.".to_owned())),
        }
    }
}

/// A message that reads back from storage as itself: it is no flush, an
/// ephemeral update has content, and the name of a server does not begin
/// like the prefix of an application service or a push endpoint.
pub open spec fn durable(dest: DestinationView, event: EventView) -> bool {
    &&& event !is Flush
    &&& event matches EventView::Edu(content) ==> content.len() > 0
    &&& dest matches DestinationView::Normal(server) ==> server.len() > 0 ==> server[0] != '+'
        && server[0] != '$'
}

/// The first separator after a text is the one that follows it.
proof fn lemma_part_after_text(front: Seq<u8>, text: Seq<char>, tail: Seq<u8>)
    ensures
        part_from(front + encode_utf8(text) + seq![SEPARATOR] + tail, front.len() as int) == Some(
            (encode_utf8(text), (front.len() + encode_utf8(text).len() + 1) as int),
        ),
        (front + encode_utf8(text) + seq![SEPARATOR] + tail).skip(
            (front.len() + encode_utf8(text).len() + 1) as int,
        ) == tail,
        valid_utf8(encode_utf8(text)),
        vstd::utf8::decode_utf8(encode_utf8(text)) == text,
{
    let name = encode_utf8(text);
    let key = front + name + seq![SEPARATOR] + tail;
    let rest = key.skip(front.len() as int);
    lemma_text_has_no_separator(text);
    assert(rest.take(name.len() as int) =~= name);
    assert(rest[name.len() as int] == SEPARATOR);
    lemma_first_separator(rest, name.len() as int);
    assert(key.subrange(front.len() as int, (front.len() + name.len()) as int) =~= name);
    assert(key.skip((front.len() + name.len() + 1) as int) =~= tail);
    vstd::utf8::encode_utf8_valid_utf8(text);
    vstd::utf8::encode_utf8_decode_utf8(text);
}

/// The first byte of a text that does not begin with an ASCII character
/// differs from every ASCII byte.
proof fn lemma_first_byte(text: Seq<char>, sigil: u8)
    requires
        text.len() > 0,
        sigil < 0x80,
        text[0] as u32 != sigil as u32,
    ensures
        encode_utf8(text).len() > 0,
        encode_utf8(text)[0] != sigil,
{
    let s = text[0] as u32;
    lemma_first_byte_bits(s, sigil);
    let first = encode_scalar(s);
    assert(encode_utf8(text) == first + encode_utf8(text.drop_first()));
    assert(encode_utf8(text)[0] == first[0]);
}

proof fn lemma_first_byte_bits(s: u32, sigil: u8)
    by (bit_vector)
    requires
        sigil < 0x80u8,
        s != sigil as u32,
    ensures
        s <= 0x7F ==> (s & 0x7F) as u8 != sigil,
        (0xC0u8 | ((s >> 6) & 0x1F) as u8) != sigil,
        (0xE0u8 | ((s >> 12) & 0x0F) as u8) != sigil,
        (0xF0u8 | ((s >> 18) & 0x7) as u8) != sigil,
{
}

/// Queue durability: a message that was written to storage under its key
/// reads back as the same message for the same destination, so that it is
/// found again after a restart.
pub proof fn lemma_stored_message_reads_back(dest: DestinationView, event: EventView, count: u64)
    requires
        durable(dest, event),
    ensures
        spec_parse(spec_queue_key(dest, event, count), spec_queue_value(event)) == Some(
            StoredView { dest, event },
        ),
{
    let id = spec_queue_id(event, count);
    let value = spec_queue_value(event);
    let key = spec_queue_key(dest, event, count);
    match dest {
        DestinationView::Normal(server) => {
            let front = Seq::<u8>::empty();
            assert(key =~= front + encode_utf8(server) + seq![SEPARATOR] + id);
            lemma_part_after_text(front, server, id);
            if server.len() > 0 {
                lemma_first_byte(server, APPSERVICE_SIGIL);
                lemma_first_byte(server, PUSH_SIGIL);
                assert(key[0] == encode_utf8(server)[0]);
            } else {
                assert(encode_utf8(server) =~= Seq::<u8>::empty());
                assert(key[0] == SEPARATOR);
            }
        },
        DestinationView::Appservice(name) => {
            let front = seq![APPSERVICE_SIGIL];
            assert(key =~= front + encode_utf8(name) + seq![SEPARATOR] + id);
            lemma_part_after_text(front, name, id);
            assert(key[0] == APPSERVICE_SIGIL);
        },
        DestinationView::Push(user, pushkey) => {
            let front = seq![PUSH_SIGIL];
            let tail = encode_utf8(pushkey) + seq![SEPARATOR] + id;
            assert(key =~= front + encode_utf8(user) + seq![SEPARATOR] + tail);
            lemma_part_after_text(front, user, tail);
            let middle = front + encode_utf8(user) + seq![SEPARATOR];
            assert(key =~= middle + encode_utf8(pushkey) + seq![SEPARATOR] + id);
            lemma_part_after_text(middle, pushkey, id);
            assert(key[0] == PUSH_SIGIL);
        },
    }
}

} // verus!
