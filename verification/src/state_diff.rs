//! State diffs and their stored form.
//!
//! A diff is stored as the parent handle in eight bytes (zero where there
//! is no parent), the added entries one after the other, and, only where
//! entries are removed, eight zero bytes and the removed entries.

use vstd::prelude::*;
use vstd::slice::slice_subrange;

use crate::bytes::{
    append_bytes, be_value, lemma_u64_be_round_trip, u64_be, u64_from_bytes, u64_to_be_bytes,
};
use crate::error::Error;

verus! {

/// The number of bytes of a stored handle.
pub const STRIDE: usize = 8;

/// One entry of a room state: the handle of a state key (event type and
/// state key) and the handle of the event that set it.
#[derive(Clone, Copy, Debug, PartialEq, Eq, Hash)]
pub struct CompressedStateEvent {
    pub shortstatekey: u64,
    pub shorteventid: u64,
}

/// What sets one snapshot apart from its parent.
#[derive(Debug, PartialEq, Eq)]
pub struct StateDiff {
    pub parent: Option<u64>,
    pub added: Vec<CompressedStateEvent>,
    pub removed: Vec<CompressedStateEvent>,
}

/// A diff as contracts see it.
pub struct DiffView {
    pub parent: Option<u64>,
    pub added: Seq<CompressedStateEvent>,
    pub removed: Seq<CompressedStateEvent>,
}

impl View for StateDiff {
    type V = DiffView;

    open spec fn view(&self) -> DiffView {
        DiffView { parent: self.parent, added: self.added@, removed: self.removed@ }
    }
}

/// The sixteen bytes that store an entry.
pub open spec fn entry_bytes(entry: CompressedStateEvent) -> Seq<u8> {
    u64_be(entry.shortstatekey) + u64_be(entry.shorteventid)
}

/// The bytes that store a run of entries.
pub open spec fn entries_bytes(entries: Seq<CompressedStateEvent>) -> Seq<u8>
    decreases entries.len(),
{
    if entries.len() == 0 {
        Seq::empty()
    } else {
        entry_bytes(entries[0]) + entries_bytes(entries.drop_first())
    }
}

/// The handle that is stored for a parent: zero stands for none.
pub open spec fn parent_field(parent: Option<u64>) -> u64 {
    match parent {
        Some(handle) => handle,
        None => 0,
    }
}

/// The stored form of a diff.
pub open spec fn spec_encode(diff: DiffView) -> Seq<u8> {
    u64_be(parent_field(diff.parent)) + entries_bytes(diff.added) + if diff.removed.len() > 0 {
        u64_be(0) + entries_bytes(diff.removed)
    } else {
        Seq::empty()
    }
}

/// The two runs of entries of a stored diff.
pub struct Sections {
    pub added: Seq<CompressedStateEvent>,
    pub removed: Seq<CompressedStateEvent>,
}

/// The entry that the first sixteen of `bytes` store.
pub open spec fn entry_at_front(bytes: Seq<u8>) -> CompressedStateEvent {
    CompressedStateEvent {
        shortstatekey: be_value(bytes.subrange(0, 8)) as u64,
        shorteventid: be_value(bytes.subrange(8, 16)) as u64,
    }
}

/// Reads the entries that follow the parent handle. Entries are added ones
/// until an entry begins with a zero handle: those eight bytes are skipped,
/// and the entries after them are removed ones. Fewer than sixteen bytes at
/// the end are left unread.
pub open spec fn decode_entries(bytes: Seq<u8>, adding: bool) -> Sections
    decreases bytes.len(),
{
    if bytes.len() < 16 {
        Sections { added: Seq::empty(), removed: Seq::empty() }
    } else if adding && be_value(bytes.subrange(0, 8)) == 0 {
        decode_entries(bytes.skip(8), false)
    } else {
        let rest = decode_entries(bytes.skip(16), adding);
        if adding {
            Sections { added: seq![entry_at_front(bytes)] + rest.added, removed: rest.removed }
        } else {
            Sections { added: rest.added, removed: seq![entry_at_front(bytes)] + rest.removed }
        }
    }
}

/// The diff that `bytes` store; none where they are too few to hold a
/// parent handle.
pub open spec fn spec_decode(bytes: Seq<u8>) -> Option<DiffView> {
    if bytes.len() < 8 {
        None
    } else {
        let parent = be_value(bytes.subrange(0, 8)) as u64;
        let sections = decode_entries(bytes.skip(8), true);
        Some(
            DiffView {
                parent: if parent != 0 {
                    Some(parent)
                } else {
                    None
                },
                added: sections.added,
                removed: sections.removed,
            },
        )
    }
}

/// A diff whose stored form reads back as itself: the parent handle is not
/// zero, and no added entry has a zero state key handle.
pub open spec fn storable(diff: DiffView) -> bool {
    &&& diff.parent != Some(0u64)
    &&& forall|i: int| 0 <= i < diff.added.len() ==> (#[trigger] diff.added[i]).shortstatekey != 0
}

/// Appending an entry appends its bytes.
pub proof fn lemma_entries_bytes_push(entries: Seq<CompressedStateEvent>, entry: CompressedStateEvent)
    ensures
        entries_bytes(entries.push(entry)) == entries_bytes(entries) + entry_bytes(entry),
    decreases entries.len(),
{
    let pushed = entries.push(entry);
    if entries.len() == 0 {
        assert(pushed.drop_first() =~= Seq::<CompressedStateEvent>::empty());
        assert(entries_bytes(pushed.drop_first()) =~= Seq::<u8>::empty());
        assert(pushed[0] == entry);
        assert(entries_bytes(pushed) =~= entry_bytes(entry));
        assert(entries_bytes(entries) + entry_bytes(entry) =~= entry_bytes(entry));
    } else {
        assert(pushed.drop_first() =~= entries.drop_first().push(entry));
        lemma_entries_bytes_push(entries.drop_first(), entry);
        assert(entries_bytes(pushed) =~= entries_bytes(entries) + entry_bytes(entry));
    }
}

/// An entry takes sixteen bytes and reads back as itself.
pub proof fn lemma_entry_round_trip(entry: CompressedStateEvent, tail: Seq<u8>)
    ensures
        entry_bytes(entry).len() == 16,
        entry_at_front(entry_bytes(entry) + tail) == entry,
        be_value((entry_bytes(entry) + tail).subrange(0, 8)) == entry.shortstatekey,
        (entry_bytes(entry) + tail).skip(16) == tail,
{
    lemma_u64_be_round_trip(entry.shortstatekey);
    lemma_u64_be_round_trip(entry.shorteventid);
    let bytes = entry_bytes(entry) + tail;
    assert(bytes.subrange(0, 8) =~= u64_be(entry.shortstatekey));
    assert(bytes.subrange(8, 16) =~= u64_be(entry.shorteventid));
    assert(bytes.skip(16) =~= tail);
}

/// Stored removed entries read back as they were.
pub proof fn lemma_decode_removed(entries: Seq<CompressedStateEvent>)
    ensures
        decode_entries(entries_bytes(entries), false).added == Seq::<CompressedStateEvent>::empty(),
        decode_entries(entries_bytes(entries), false).removed == entries,
    decreases entries.len(),
{
    if entries.len() > 0 {
        let tail = entries_bytes(entries.drop_first());
        lemma_entry_round_trip(entries[0], tail);
        lemma_decode_removed(entries.drop_first());
        let rest = decode_entries(tail, false);
        assert(seq![entries[0]] + rest.removed =~= entries);
    } else {
        assert(decode_entries(entries_bytes(entries), false).removed =~= entries);
    }
}

/// Stored added entries read back as they were, and what follows them is
/// read on in the same way.
pub proof fn lemma_decode_added(entries: Seq<CompressedStateEvent>, tail: Seq<u8>)
    requires
        forall|i: int| 0 <= i < entries.len() ==> (#[trigger] entries[i]).shortstatekey != 0,
    ensures
        decode_entries(entries_bytes(entries) + tail, true).added == entries + decode_entries(
            tail,
            true,
        ).added,
        decode_entries(entries_bytes(entries) + tail, true).removed == decode_entries(
            tail,
            true,
        ).removed,
    decreases entries.len(),
{
    if entries.len() > 0 {
        let later = entries.drop_first();
        let after = entries_bytes(later) + tail;
        assert(entries_bytes(entries) + tail =~= entry_bytes(entries[0]) + after);
        lemma_entry_round_trip(entries[0], after);
        assert forall|i: int| 0 <= i < later.len() implies (#[trigger] later[i]).shortstatekey
            != 0 by {
            assert(later[i] == entries[i + 1]);
        }
        lemma_decode_added(later, tail);
        assert(entries[0].shortstatekey != 0);
        let rest = decode_entries(after, true);
        assert(seq![entries[0]] + rest.added =~= entries + decode_entries(tail, true).added);
    } else {
        assert(entries_bytes(entries) + tail =~= tail);
        assert(entries + decode_entries(tail, true).added =~= decode_entries(tail, true).added);
    }
}

/// A storable diff reads back from its stored form as itself.
pub proof fn lemma_encode_decode(diff: DiffView)
    requires
        storable(diff),
    ensures
        spec_decode(spec_encode(diff)) == Some(diff),
{
    let head = u64_be(parent_field(diff.parent));
    lemma_u64_be_round_trip(parent_field(diff.parent));
    lemma_u64_be_round_trip(0);
    let tail = if diff.removed.len() > 0 {
        u64_be(0) + entries_bytes(diff.removed)
    } else {
        Seq::<u8>::empty()
    };
    let bytes = spec_encode(diff);
    assert(bytes =~= head + (entries_bytes(diff.added) + tail));
    assert(bytes.subrange(0, 8) =~= head);
    assert(bytes.skip(8) =~= entries_bytes(diff.added) + tail);
    lemma_decode_added(diff.added, tail);
    if diff.removed.len() > 0 {
        lemma_entry_round_trip(diff.removed[0], entries_bytes(diff.removed.drop_first()));
        assert(tail.subrange(0, 8) =~= u64_be(0));
        assert(tail.skip(8) =~= entries_bytes(diff.removed));
        lemma_decode_removed(diff.removed);
        assert(tail.len() >= 16);
        assert(decode_entries(tail, true) == decode_entries(tail.skip(8), false));
    }
    let sections = decode_entries(bytes.skip(8), true);
    assert(sections.added =~= diff.added);
    assert(sections.removed =~= diff.removed);
}

fn append_entries(out: &mut Vec<u8>, entries: &Vec<CompressedStateEvent>)
    ensures
        final(out)@ == old(out)@ + entries_bytes(entries@),
{
    let mut i: usize = 0;
    assert(entries@.take(0) =~= Seq::<CompressedStateEvent>::empty());
    while i < entries.len()
        invariant
            i <= entries@.len(),
            out@ =~= old(out)@ + entries_bytes(entries@.take(i as int)),
        decreases entries@.len() - i,
    {
        let key = u64_to_be_bytes(entries[i].shortstatekey);
        let event = u64_to_be_bytes(entries[i].shorteventid);
        proof {
            lemma_entries_bytes_push(entries@.take(i as int), entries@[i as int]);
            assert(entries@.take(i as int + 1) =~= entries@.take(i as int).push(entries@[i as int]));
        }
        append_bytes(out, key.as_slice());
        append_bytes(out, event.as_slice());
        i = i + 1;
    }
    assert(entries@.take(entries@.len() as int) =~= entries@);
}

/// The entries read so far, followed by those still to be read.
pub open spec fn sections_joined(
    added: Seq<CompressedStateEvent>,
    removed: Seq<CompressedStateEvent>,
    rest: Sections,
) -> Sections {
    Sections { added: added + rest.added, removed: removed + rest.removed }
}

impl StateDiff {
    /// The stored form of the diff.
    pub fn encode(&self) -> (value: Vec<u8>)
        ensures
            value@ == spec_encode(self@),
    {
        let parent: u64 = match self.parent {
            Some(handle) => handle,
            None => 0,
        };
        let mut value = u64_to_be_bytes(parent);
        append_entries(&mut value, &self.added);
        if self.removed.len() > 0 {
            let zero = u64_to_be_bytes(0);
            append_bytes(&mut value, zero.as_slice());
            append_entries(&mut value, &self.removed);
        }
        assert(value@ =~= spec_encode(self@));
        value
    }

    /// Reads a diff from its stored form. Bytes too few to hold a parent
    /// handle are refused.
    pub fn decode(bytes: &[u8]) -> (diff: Result<StateDiff, Error>)
        ensures
            diff is Ok <==> spec_decode(bytes@) is Some,
            diff is Ok ==> diff->Ok_0@ == spec_decode(bytes@)->0,
            diff is Err ==> diff->Err_0 is Database,
    {
        if bytes.len() < STRIDE {
            return Err(Error::Database("State diff is too short".to_owned()));
        }
        let parent = match u64_from_bytes(slice_subrange(bytes, 0, STRIDE)) {
            Some(parent) => parent,
            None => 0,
        };
        let parent = if parent != 0 {
            Some(parent)
        } else {
            None
        };
        let mut adding = true;
        let mut added: Vec<CompressedStateEvent> = Vec::new();
        let mut removed: Vec<CompressedStateEvent> = Vec::new();
        let mut i: usize = STRIDE;
        proof {
            assert(sections_joined(added@, removed@, decode_entries(bytes@.skip(8), true))
                =~= decode_entries(bytes@.skip(8), true)) by {
                let rest = decode_entries(bytes@.skip(8), true);
                assert(added@ + rest.added =~= rest.added);
                assert(removed@ + rest.removed =~= rest.removed);
            }
        }
        while bytes.len() - i >= 2 * STRIDE
            invariant
                8 <= i <= bytes@.len(),
                decode_entries(bytes@.skip(8), true) == sections_joined(
                    added@,
                    removed@,
                    decode_entries(bytes@.skip(i as int), adding),
                ),
            decreases bytes@.len() - i,
        {
            let ghost rest = bytes@.skip(i as int);
            let key = match u64_from_bytes(slice_subrange(bytes, i, i + STRIDE)) {
                Some(key) => key,
                None => 0,
            };
            proof {
                assert(rest.subrange(0, 8) =~= bytes@.subrange(i as int, i + 8));
                assert(rest.subrange(8, 16) =~= bytes@.subrange(i + 8, i + 16));
                assert(rest.skip(8) =~= bytes@.skip(i + 8));
                assert(rest.skip(16) =~= bytes@.skip(i + 16));
            }
            if adding && key == 0 {
                adding = false;
                i = i + STRIDE;
            } else {
                let event = match u64_from_bytes(slice_subrange(bytes, i + STRIDE, i + 2 * STRIDE)) {
                    Some(event) => event,
                    None => 0,
                };
                let entry = CompressedStateEvent { shortstatekey: key, shorteventid: event };
                proof {
                    assert(entry == entry_at_front(rest));
                    let later = decode_entries(rest.skip(16), adding);
                    if adding {
                        assert(added@.push(entry) + later.added =~= added@ + (seq![entry]
                            + later.added));
                    } else {
                        assert(removed@.push(entry) + later.removed =~= removed@ + (seq![entry]
                            + later.removed));
                    }
                }
                if adding {
                    added.push(entry);
                } else {
                    removed.push(entry);
                }
                i = i + 2 * STRIDE;
            }
        }
        proof {
            let rest = decode_entries(bytes@.skip(i as int), adding);
            assert(added@ + rest.added =~= added@);
            assert(removed@ + rest.removed =~= removed@);
        }
        Ok(StateDiff { parent, added, removed })
    }
}

} // verus!
