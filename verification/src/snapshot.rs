//! The snapshot store: room state at every point of a room's history, kept
//! as a chain of diffs.
//!
//! A snapshot is named by a handle. Under each handle the store keeps one
//! diff in its stored form. The state of a snapshot is found by walking
//! from its handle along the parents to a root, and applying the diffs from
//! the root back up. Handles grow, so a parent is always older than its
//! child: a parent that is not smaller than the child is a broken link.

use std::collections::HashMap;
use vstd::prelude::*;

use crate::error::Error;
use crate::state_diff::{
    lemma_encode_decode, spec_decode, spec_encode, storable, CompressedStateEvent, DiffView,
    StateDiff,
};

verus! {

broadcast use vstd::std_specs::hash::group_hash_axioms;

/// The snapshot store.
pub struct SnapshotStore {
    records: HashMap<u64, Vec<u8>>,
    next: u64,
}

/// The diff stored under `handle`, where there is one that can be read.
pub open spec fn diff_at(store: Map<u64, Seq<u8>>, handle: u64) -> Option<DiffView> {
    if store.contains_key(handle) {
        spec_decode(store[handle])
    } else {
        None
    }
}

/// The handles from `handle` to its root; none where a diff on the way is
/// missing or unreadable, or a link is broken.
pub open spec fn spec_chain(store: Map<u64, Seq<u8>>, handle: u64) -> Option<Seq<u64>>
    decreases handle,
{
    match diff_at(store, handle) {
        None => None,
        Some(diff) => match diff.parent {
            None => Some(seq![handle]),
            Some(parent) => if parent >= handle {
                None
            } else {
                match spec_chain(store, parent) {
                    Some(rest) => Some(seq![handle] + rest),
                    None => None,
                }
            },
        },
    }
}

/// `state` without the state keys of `removed`.
pub open spec fn without(state: Map<u64, u64>, removed: Seq<CompressedStateEvent>) -> Map<u64, u64>
    decreases removed.len(),
{
    if removed.len() == 0 {
        state
    } else {
        without(state, removed.drop_last()).remove(removed.last().shortstatekey)
    }
}

/// `state` with the entries of `added` set, one after the other.
pub open spec fn with(state: Map<u64, u64>, added: Seq<CompressedStateEvent>) -> Map<u64, u64>
    decreases added.len(),
{
    if added.len() == 0 {
        state
    } else {
        with(state, added.drop_last()).insert(
            added.last().shortstatekey,
            added.last().shorteventid,
        )
    }
}

/// One layer applied to the state below it: the removed entries leave,
/// then the added entries are set.
pub open spec fn apply_diff(state: Map<u64, u64>, diff: DiffView) -> Map<u64, u64> {
    with(without(state, diff.removed), diff.added)
}

/// The state that the layers of `chain` add up to; `chain` runs from a
/// snapshot to its root, and the layers are applied from the root up.
pub open spec fn fold_chain(store: Map<u64, Seq<u8>>, chain: Seq<u64>) -> Map<u64, u64>
    decreases chain.len(),
{
    if chain.len() == 0 {
        Map::empty()
    } else {
        apply_diff(fold_chain(store, chain.drop_first()), diff_at(store, chain[0])->0)
    }
}

/// The full state of the snapshot `handle`; none where its chain is
/// broken.
pub open spec fn spec_resolve(store: Map<u64, Seq<u8>>, handle: u64) -> Option<Map<u64, u64>> {
    match spec_chain(store, handle) {
        Some(chain) => Some(fold_chain(store, chain)),
        None => None,
    }
}

/// The event of the last of `added` that sets `key`.
pub open spec fn last_added(added: Seq<CompressedStateEvent>, key: u64) -> Option<u64>
    decreases added.len(),
{
    if added.len() == 0 {
        None
    } else if added.last().shortstatekey == key {
        Some(added.last().shorteventid)
    } else {
        last_added(added.drop_last(), key)
    }
}

/// Whether one of `removed` has the state key `key`.
pub open spec fn removes(removed: Seq<CompressedStateEvent>, key: u64) -> bool {
    exists|i: int| 0 <= i < removed.len() && (#[trigger] removed[i]).shortstatekey == key
}

/// The event under `key` in the snapshot `handle`, found from the top: the
/// first layer that adds or removes the key decides. The outer `None` says
/// that a diff was missing or a link broken before any layer decided.
pub open spec fn spec_resolve_one(store: Map<u64, Seq<u8>>, handle: u64, key: u64) -> Option<
    Option<u64>,
>
    decreases handle,
{
    match diff_at(store, handle) {
        None => None,
        Some(diff) => match last_added(diff.added, key) {
            Some(event) => Some(Some(event)),
            None => if removes(diff.removed, key) {
                Some(None)
            } else {
                match diff.parent {
                    None => Some(None),
                    Some(parent) => if parent >= handle {
                        None
                    } else {
                        spec_resolve_one(store, parent, key)
                    },
                }
            },
        },
    }
}

/// What a map holds under a key, if anything.
pub open spec fn value_at(state: Map<u64, u64>, key: u64) -> Option<u64> {
    if state.contains_key(key) {
        Some(state[key])
    } else {
        None
    }
}

/// What is under a key after entries were removed.
pub proof fn lemma_without(state: Map<u64, u64>, removed: Seq<CompressedStateEvent>, key: u64)
    ensures
        value_at(without(state, removed), key) == if removes(removed, key) {
            None
        } else {
            value_at(state, key)
        },
    decreases removed.len(),
{
    if removed.len() > 0 {
        let front = removed.drop_last();
        lemma_without(state, front, key);
        if removes(front, key) {
            let i = choose|i: int| 0 <= i < front.len() && (#[trigger] front[i]).shortstatekey == key;
            assert(removed[i] == front[i]);
        }
        if removed.last().shortstatekey == key {
            assert(removed[removed.len() - 1].shortstatekey == key);
        }
        if removes(removed, key) && removed.last().shortstatekey != key {
            let i = choose|i: int|
                0 <= i < removed.len() && (#[trigger] removed[i]).shortstatekey == key;
            assert(front[i] == removed[i]);
        }
    }
}

/// What is under a key after entries were set.
pub proof fn lemma_with(state: Map<u64, u64>, added: Seq<CompressedStateEvent>, key: u64)
    ensures
        value_at(with(state, added), key) == match last_added(added, key) {
            Some(event) => Some(event),
            None => value_at(state, key),
        },
    decreases added.len(),
{
    if added.len() > 0 {
        lemma_with(state, added.drop_last(), key);
    }
}

/// Where the whole chain of a snapshot is intact, looking one key up from
/// the top finds what the full state holds under it.
pub proof fn lemma_resolve_one_agrees(store: Map<u64, Seq<u8>>, handle: u64, key: u64)
    requires
        spec_resolve(store, handle) is Some,
    ensures
        spec_resolve_one(store, handle, key) == Some(
            value_at(spec_resolve(store, handle)->0, key),
        ),
    decreases handle,
{
    let diff = diff_at(store, handle)->0;
    let chain = spec_chain(store, handle)->0;
    assert(chain[0] == handle);
    let below = fold_chain(store, chain.drop_first());
    lemma_without(below, diff.removed, key);
    lemma_with(without(below, diff.removed), diff.added, key);
    match diff.parent {
        None => {
            assert(chain.drop_first() =~= Seq::<u64>::empty());
        },
        Some(parent) => {
            assert(chain.drop_first() =~= spec_chain(store, parent)->0);
            lemma_resolve_one_agrees(store, parent, key);
        },
    }
}

/// The state after a run of assignments of events to state keys.
pub open spec fn replay(assignments: Seq<CompressedStateEvent>) -> Map<u64, u64> {
    with(Map::empty(), assignments)
}

/// The layer that records one assignment on top of `parent`: it adds the
/// assignment, and removes nothing but entries of the same state key.
pub open spec fn records_assignment(
    diff: DiffView,
    parent: Option<u64>,
    assignment: CompressedStateEvent,
) -> bool {
    &&& diff.parent == parent
    &&& diff.added == seq![assignment]
    &&& forall|j: int|
        0 <= j < diff.removed.len() ==> (#[trigger] diff.removed[j]).shortstatekey
            == assignment.shortstatekey
}

/// `handles` name a chain of layers in `store` that record `assignments`
/// one by one, each on top of the one before, the first on no parent.
pub open spec fn built_from(
    store: Map<u64, Seq<u8>>,
    handles: Seq<u64>,
    layers: Seq<DiffView>,
    assignments: Seq<CompressedStateEvent>,
) -> bool {
    &&& handles.len() == assignments.len()
    &&& handles.len() == layers.len()
    &&& forall|i: int|
        0 <= i < handles.len() ==> {
            &&& store.contains_key(#[trigger] handles[i])
            &&& store[handles[i]] == spec_encode(layers[i])
            &&& storable(layers[i])
            &&& records_assignment(
                layers[i],
                if i == 0 {
                    None
                } else {
                    Some(handles[i - 1])
                },
                assignments[i],
            )
            &&& i > 0 ==> handles[i - 1] < handles[i]
        }
}

/// Removing a state key and setting it again is setting it.
pub proof fn lemma_apply_assignment(
    state: Map<u64, u64>,
    diff: DiffView,
    parent: Option<u64>,
    assignment: CompressedStateEvent,
)
    requires
        records_assignment(diff, parent, assignment),
    ensures
        apply_diff(state, diff) == state.insert(assignment.shortstatekey, assignment.shorteventid),
{
    let result = apply_diff(state, diff);
    let expected = state.insert(assignment.shortstatekey, assignment.shorteventid);
    assert forall|key: u64| value_at(result, key) == value_at(expected, key) by {
        lemma_without(state, diff.removed, key);
        lemma_with(without(state, diff.removed), diff.added, key);
        assert(diff.added.drop_last() =~= Seq::<CompressedStateEvent>::empty());
        assert(last_added(diff.added.drop_last(), key) is None);
        assert(diff.added.last() == assignment);
        if removes(diff.removed, key) {
            let j = choose|j: int|
                0 <= j < diff.removed.len() && (#[trigger] diff.removed[j]).shortstatekey == key;
            assert(key == assignment.shortstatekey);
        }
    }
    assert forall|key: u64| result.contains_key(key) == expected.contains_key(key) by {
        assert(value_at(result, key) == value_at(expected, key));
    }
    assert forall|key: u64| result.contains_key(key) implies result[key] == expected[key] by {
        assert(value_at(result, key) == value_at(expected, key));
    }
    assert(result =~= expected);
}

/// Snapshot fold: the state of a snapshot at the end of a chain of layers
/// that record a run of assignments, one layer each, is the state that
/// replaying the assignments in order gives. The layers must be storable:
/// no state key handle and no parent handle is zero.
pub proof fn lemma_resolve_equals_replay(
    store: Map<u64, Seq<u8>>,
    handles: Seq<u64>,
    layers: Seq<DiffView>,
    assignments: Seq<CompressedStateEvent>,
)
    requires
        built_from(store, handles, layers, assignments),
        handles.len() > 0,
    ensures
        spec_resolve(store, handles.last()) == Some(replay(assignments)),
    decreases handles.len(),
{
    let n = handles.len() as int;
    let top = handles[n - 1];
    let layer = layers[n - 1];
    lemma_encode_decode(layer);
    assert(diff_at(store, top) == Some(layer));
    assert(assignments.drop_last().push(assignments.last()) =~= assignments);
    let last = assignments.last();
    assert(replay(assignments) == replay(assignments.drop_last()).insert(
        last.shortstatekey,
        last.shorteventid,
    ));
    if n == 1 {
        assert(spec_chain(store, top) == Some(seq![top]));
        assert(seq![top].drop_first() =~= Seq::<u64>::empty());
        assert(fold_chain(store, seq![top].drop_first()) == Map::<u64, u64>::empty());
        assert(fold_chain(store, seq![top]) == apply_diff(Map::empty(), layer));
        lemma_apply_assignment(Map::empty(), layer, None, assignments[0]);
        assert(assignments.drop_last() =~= Seq::<CompressedStateEvent>::empty());
        assert(replay(assignments.drop_last()) == Map::<u64, u64>::empty());
    } else {
        let front_handles = handles.drop_last();
        let front_layers = layers.drop_last();
        let front = assignments.drop_last();
        assert(built_from(store, front_handles, front_layers, front)) by {
            assert forall|i: int| 0 <= i < front_handles.len() implies {
                &&& store.contains_key(#[trigger] front_handles[i])
                &&& store[front_handles[i]] == spec_encode(front_layers[i])
                &&& storable(front_layers[i])
                &&& records_assignment(
                    front_layers[i],
                    if i == 0 {
                        None
                    } else {
                        Some(front_handles[i - 1])
                    },
                    front[i],
                )
                &&& i > 0 ==> front_handles[i - 1] < front_handles[i]
            } by {
                assert(front_handles[i] == handles[i]);
                assert(store.contains_key(handles[i]));
            }
        }
        lemma_resolve_equals_replay(store, front_handles, front_layers, front);
        let parent = handles[n - 2];
        assert(front_handles.last() == parent);
        assert(store.contains_key(handles[n - 1]));
        assert(layer.parent == Some(parent));
        let below = spec_chain(store, parent)->0;
        assert(spec_chain(store, top) == Some(seq![top] + below));
        assert((seq![top] + below).drop_first() =~= below);
        assert((seq![top] + below)[0] == top);
        assert(fold_chain(store, seq![top] + below) == apply_diff(fold_chain(store, below), layer));
        lemma_apply_assignment(fold_chain(store, below), layer, Some(parent), assignments[n - 1]);
    }
}

/// A new snapshot changes no older one: what any other handle resolves to
/// stays as it was, where the new handle is larger than every handle in
/// use.
pub proof fn lemma_snapshots_immutable(
    store: Map<u64, Seq<u8>>,
    fresh: u64,
    value: Seq<u8>,
    handle: u64,
)
    requires
        !store.contains_key(fresh),
        handle < fresh,
    ensures
        spec_chain(store.insert(fresh, value), handle) == spec_chain(store, handle),
        spec_resolve(store.insert(fresh, value), handle) == spec_resolve(store, handle),
    decreases handle,
{
    let after = store.insert(fresh, value);
    assert(diff_at(after, handle) == diff_at(store, handle));
    match diff_at(store, handle) {
        None => {},
        Some(diff) => match diff.parent {
            None => {
                lemma_fold_unchanged(store, fresh, value, seq![handle]);
            },
            Some(parent) => {
                if parent < handle {
                    lemma_snapshots_immutable(store, fresh, value, parent);
                    if spec_chain(store, handle) is Some {
                        lemma_chain_below(store, handle);
                        lemma_fold_unchanged(store, fresh, value, spec_chain(store, handle)->0);
                    }
                }
            },
        },
    }
}

/// A chain holds no handle larger than the one it starts from.
pub proof fn lemma_chain_below(store: Map<u64, Seq<u8>>, handle: u64)
    requires
        spec_chain(store, handle) is Some,
    ensures
        forall|k: int|
            0 <= k < spec_chain(store, handle)->0.len() ==> (#[trigger] spec_chain(
                store,
                handle,
            )->0[k]) <= handle,
    decreases handle,
{
    let diff = diff_at(store, handle)->0;
    match diff.parent {
        None => {},
        Some(parent) => {
            lemma_chain_below(store, parent);
        },
    }
}

/// The layers of a chain add up to the same state in a store that differs
/// only under a handle that is not on the chain.
pub proof fn lemma_fold_unchanged(
    store: Map<u64, Seq<u8>>,
    fresh: u64,
    value: Seq<u8>,
    chain: Seq<u64>,
)
    requires
        forall|k: int| 0 <= k < chain.len() ==> (#[trigger] chain[k]) != fresh,
    ensures
        fold_chain(store.insert(fresh, value), chain) == fold_chain(store, chain),
    decreases chain.len(),
{
    if chain.len() > 0 {
        let rest = chain.drop_first();
        assert forall|k: int| 0 <= k < rest.len() implies (#[trigger] rest[k]) != fresh by {
            assert(rest[k] == chain[k + 1]);
        }
        lemma_fold_unchanged(store, fresh, value, rest);
        assert(chain[0] != fresh);
    }
}

/// Resolving twice gives the same: the outcome of resolving a handle is a
/// function of the stored diffs alone.
pub proof fn lemma_resolve_idempotent(
    store: Map<u64, Seq<u8>>,
    handle: u64,
    first: Option<Map<u64, u64>>,
    second: Option<Map<u64, u64>>,
)
    requires
        resolves_to(store, handle, first),
        resolves_to(store, handle, second),
    ensures
        first == second,
{
}

/// What `resolve` promises of its outcome, with `None` for an error.
pub open spec fn resolves_to(store: Map<u64, Seq<u8>>, handle: u64, state: Option<Map<u64, u64>>) -> bool {
    state == spec_resolve(store, handle)
}

/// What came of resolving, with `None` for an error.
pub open spec fn state_of(outcome: Result<HashMap<u64, u64>, Error>) -> Option<Map<u64, u64>> {
    match outcome {
        Ok(state) => Some(state@),
        Err(_) => None,
    }
}

fn apply_layer(state: &mut HashMap<u64, u64>, diff: &StateDiff)
    ensures
        final(state)@ == apply_diff(old(state)@, diff@),
{
    let mut i: usize = 0;
    assert(diff.removed@.take(0) =~= Seq::<CompressedStateEvent>::empty());
    while i < diff.removed.len()
        invariant
            i <= diff.removed@.len(),
            state@ == without(old(state)@, diff.removed@.take(i as int)),
        decreases diff.removed@.len() - i,
    {
        proof {
            let next = diff.removed@.take(i as int + 1);
            assert(next.drop_last() =~= diff.removed@.take(i as int));
            assert(next.last() == diff.removed@[i as int]);
        }
        state.remove(&diff.removed[i].shortstatekey);
        i = i + 1;
    }
    assert(diff.removed@.take(diff.removed@.len() as int) =~= diff.removed@);
    let ghost cleared = state@;
    let mut j: usize = 0;
    assert(diff.added@.take(0) =~= Seq::<CompressedStateEvent>::empty());
    while j < diff.added.len()
        invariant
            j <= diff.added@.len(),
            state@ == with(cleared, diff.added@.take(j as int)),
        decreases diff.added@.len() - j,
    {
        proof {
            let next = diff.added@.take(j as int + 1);
            assert(next.drop_last() =~= diff.added@.take(j as int));
            assert(next.last() == diff.added@[j as int]);
        }
        state.insert(diff.added[j].shortstatekey, diff.added[j].shorteventid);
        j = j + 1;
    }
    assert(diff.added@.take(diff.added@.len() as int) =~= diff.added@);
}

fn find_added(added: &Vec<CompressedStateEvent>, key: u64) -> (event: Option<u64>)
    ensures
        event == last_added(added@, key),
{
    let mut i: usize = added.len();
    assert(added@.take(i as int) =~= added@);
    while i > 0
        invariant
            i <= added@.len(),
            last_added(added@, key) == last_added(added@.take(i as int), key),
        decreases i,
    {
        proof {
            let front = added@.take(i as int);
            assert(front.last() == added@[i - 1]);
            assert(front.drop_last() =~= added@.take(i - 1));
        }
        if added[i - 1].shortstatekey == key {
            return Some(added[i - 1].shorteventid);
        }
        i = i - 1;
    }
    None
}

fn has_removed(removed: &Vec<CompressedStateEvent>, key: u64) -> (found: bool)
    ensures
        found == removes(removed@, key),
{
    let mut i: usize = 0;
    while i < removed.len()
        invariant
            i <= removed@.len(),
            forall|k: int| 0 <= k < i ==> (#[trigger] removed@[k]).shortstatekey != key,
        decreases removed@.len() - i,
    {
        if removed[i].shortstatekey == key {
            return true;
        }
        i = i + 1;
    }
    false
}

/// The diffs of a list as contracts see them.
pub open spec fn diff_views(layers: Seq<StateDiff>) -> Seq<DiffView> {
    layers.map_values(|diff: StateDiff| diff@)
}

/// The state that `layers` add up to; they run from a snapshot to its
/// root, and are applied from the root up.
pub open spec fn fold_layers(layers: Seq<DiffView>) -> Map<u64, u64>
    decreases layers.len(),
{
    if layers.len() == 0 {
        Map::empty()
    } else {
        apply_diff(fold_layers(layers.drop_first()), layers[0])
    }
}

/// A walk from a snapshot to its root, for a caller that fetches the
/// stored diffs one at a time: the walk says which handle it wants next,
/// and the caller supplies what storage holds under it.
pub struct ChainWalk {
    handle: u64,
    wanted: Option<u64>,
    layers: Vec<StateDiff>,
    walked: Ghost<Seq<u64>>,
}

/// A walk as contracts see it: the snapshot it started from, the handle it
/// wants next (none: the root is reached), and the handles and diffs it has
/// passed, from the snapshot down.
pub struct WalkView {
    pub handle: u64,
    pub wanted: Option<u64>,
    pub walked: Seq<u64>,
    pub layers: Seq<DiffView>,
}

impl View for ChainWalk {
    type V = WalkView;

    closed spec fn view(&self) -> WalkView {
        WalkView {
            handle: self.handle,
            wanted: self.wanted,
            walked: self.walked@,
            layers: diff_views(self.layers@),
        }
    }
}

/// The walk after the record under the handle it wanted was supplied; none
/// where the walk fails: it wanted nothing, there is no record, the record
/// cannot be read, or its parent is not older.
pub open spec fn walk_step(walk: WalkView, record: Option<Seq<u8>>) -> Option<WalkView> {
    match (walk.wanted, record) {
        (Some(wanted), Some(bytes)) => match spec_decode(bytes) {
            Some(diff) => match diff.parent {
                None => Some(
                    WalkView {
                        wanted: None,
                        walked: walk.walked.push(wanted),
                        layers: walk.layers.push(diff),
                        ..walk
                    },
                ),
                Some(parent) => if parent >= wanted {
                    None
                } else {
                    Some(
                        WalkView {
                            wanted: Some(parent),
                            walked: walk.walked.push(wanted),
                            layers: walk.layers.push(diff),
                            ..walk
                        },
                    )
                },
            },
            None => None,
        },
        _ => None,
    }
}

/// The walk has passed what `store` holds: its diffs are those of the
/// store, and the chain of its snapshot is what it has passed followed by
/// the chain of the handle it wants.
pub open spec fn follows(walk: WalkView, store: Map<u64, Seq<u8>>) -> bool {
    &&& walk.walked.len() == walk.layers.len()
    &&& forall|k: int|
        0 <= k < walk.walked.len() ==> diff_at(store, #[trigger] walk.walked[k]) == Some(
            walk.layers[k],
        )
    &&& spec_chain(store, walk.handle) == match walk.wanted {
        Some(wanted) => match spec_chain(store, wanted) {
            Some(rest) => Some(walk.walked + rest),
            None => None,
        },
        None => Some(walk.walked),
    }
}

/// What a store holds under a handle, if anything.
pub open spec fn record_at(store: Map<u64, Seq<u8>>, handle: u64) -> Option<Seq<u8>> {
    if store.contains_key(handle) {
        Some(store[handle])
    } else {
        None
    }
}

/// A walk that is supplied with what the store holds goes the way of the
/// store: it keeps following the store, and it fails only where the
/// snapshot cannot be resolved.
pub proof fn lemma_walk_follows(walk: WalkView, store: Map<u64, Seq<u8>>)
    requires
        follows(walk, store),
        walk.wanted is Some,
    ensures
        match walk_step(walk, record_at(store, walk.wanted->0)) {
            Some(next) => follows(next, store),
            None => spec_resolve(store, walk.handle) is None,
        },
{
    let wanted = walk.wanted->0;
    match walk_step(walk, record_at(store, wanted)) {
        Some(next) => {
            let diff = diff_at(store, wanted)->0;
            assert forall|k: int| 0 <= k < next.walked.len() implies diff_at(
                store,
                #[trigger] next.walked[k],
            ) == Some(next.layers[k]) by {
                if k < walk.walked.len() {
                    assert(next.walked[k] == walk.walked[k]);
                }
            }
            match diff.parent {
                None => {
                    assert(walk.walked + seq![wanted] =~= next.walked);
                },
                Some(parent) => {
                    match spec_chain(store, parent) {
                        Some(rest) => {
                            assert(walk.walked + (seq![wanted] + rest) =~= next.walked + rest);
                        },
                        None => {},
                    }
                },
            }
        },
        None => {},
    }
}

/// The layers of a walk that follows a store add up like the chain of the
/// store.
pub proof fn lemma_fold_layers(store: Map<u64, Seq<u8>>, walked: Seq<u64>, layers: Seq<DiffView>)
    requires
        walked.len() == layers.len(),
        forall|k: int| 0 <= k < walked.len() ==> diff_at(store, #[trigger] walked[k]) == Some(layers[k]),
    ensures
        fold_layers(layers) == fold_chain(store, walked),
    decreases walked.len(),
{
    if walked.len() > 0 {
        let rest = walked.drop_first();
        let below = layers.drop_first();
        assert forall|k: int| 0 <= k < rest.len() implies diff_at(store, #[trigger] rest[k])
            == Some(below[k]) by {
            assert(rest[k] == walked[k + 1]);
            assert(below[k] == layers[k + 1]);
        }
        lemma_fold_layers(store, rest, below);
        assert(diff_at(store, walked[0]) == Some(layers[0]));
    }
}

/// A complete walk that follows a store has found the state that the
/// store resolves its snapshot to.
pub proof fn lemma_walk_resolves(walk: WalkView, store: Map<u64, Seq<u8>>)
    requires
        follows(walk, store),
        walk.wanted is None,
    ensures
        spec_resolve(store, walk.handle) == Some(fold_layers(walk.layers)),
{
    lemma_fold_layers(store, walk.walked, walk.layers);
}

impl ChainWalk {
    /// Starts a walk at a snapshot: its own diff is wanted first. The walk
    /// follows every store.
    pub fn begin(handle: u64) -> (walk: Self)
        ensures
            walk@ == (WalkView {
                handle,
                wanted: Some(handle),
                walked: Seq::empty(),
                layers: Seq::empty(),
            }),
            forall|store: Map<u64, Seq<u8>>| follows(walk@, store),
    {
        let walk = ChainWalk {
            handle,
            wanted: Some(handle),
            layers: Vec::new(),
            walked: Ghost(Seq::empty()),
        };
        proof {
            assert(diff_views(walk.layers@) =~= Seq::<DiffView>::empty());
            assert forall|store: Map<u64, Seq<u8>>| follows(walk@, store) by {
                match spec_chain(store, handle) {
                    Some(rest) => {
                        assert(Seq::<u64>::empty() + rest =~= rest);
                    },
                    None => {},
                }
            }
        }
        walk
    }

    /// The handle whose stored diff is to be supplied next; none once the
    /// root is reached.
    pub fn wanted(&self) -> (handle: Option<u64>)
        ensures
            handle == self@.wanted,
    {
        self.wanted
    }

    /// Takes the record that storage holds under the wanted handle (none:
    /// storage holds nothing there) and goes on to the parent. Fails where
    /// the record is missing or unreadable, its parent is not older, or the
    /// walk wanted nothing; the walk then stays as it is.
    pub fn supply(&mut self, record: Option<&[u8]>) -> (outcome: Result<(), Error>)
        ensures
            match walk_step(
                old(self)@,
                match record {
                    Some(bytes) => Some(bytes@),
                    None => None,
                },
            ) {
                Some(next) => outcome is Ok && final(self)@ == next,
                None => outcome is Err && outcome->Err_0 is Database && final(self)@ == old(self)@,
            },
    {
        let wanted = match self.wanted {
            Some(wanted) => wanted,
            None => {
                return Err(Error::Database("State hash walk is complete".to_owned()));
            },
        };
        let bytes = match record {
            Some(bytes) => bytes,
            None => {
                return Err(Error::Database("State hash does not exist".to_owned()));
            },
        };
        let diff = StateDiff::decode(bytes)?;
        let next = match diff.parent {
            None => None,
            Some(parent) => {
                if parent >= wanted {
                    return Err(Error::Database("State hash has no older parent".to_owned()));
                }
                Some(parent)
            },
        };
        let ghost before = self.layers@;
        self.layers.push(diff);
        self.walked = Ghost(self.walked@.push(wanted));
        self.wanted = next;
        proof {
            assert(diff_views(before.push(diff)) =~= diff_views(before).push(diff@));
        }
        Ok(())
    }

    /// The state that the diffs passed add up to: for a complete walk the
    /// full state of the snapshot.
    pub fn finish(&self) -> (state: HashMap<u64, u64>)
        ensures
            state@ == fold_layers(self@.layers),
    {
        let ghost all = diff_views(self.layers@);
        let mut state: HashMap<u64, u64> = HashMap::new();
        let mut i: usize = self.layers.len();
        proof {
            assert(all.skip(i as int) =~= Seq::<DiffView>::empty());
            assert(state@ =~= Map::<u64, u64>::empty());
        }
        while i > 0
            invariant
                i <= self.layers@.len(),
                all == diff_views(self.layers@),
                state@ == fold_layers(all.skip(i as int)),
            decreases i,
        {
            i = i - 1;
            proof {
                let upper = all.skip(i as int);
                assert(upper.drop_first() =~= all.skip(i + 1));
                assert(upper[0] == self.layers@[i as int]@);
            }
            apply_layer(&mut state, &self.layers[i]);
        }
        proof {
            assert(all.skip(0) =~= all);
        }
        state
    }
}

impl View for SnapshotStore {
    type V = Map<u64, Seq<u8>>;

    closed spec fn view(&self) -> Map<u64, Seq<u8>> {
        Map::new(|handle: u64| self.records@.contains_key(handle), |handle: u64| self.records@[handle]@)
    }
}

impl SnapshotStore {
    /// The handles in use lie below the handle that comes next, as long as
    /// handles are left.
    pub closed spec fn wf(&self) -> bool {
        self.next < u64::MAX ==> forall|handle: u64|
            self.records@.contains_key(handle) ==> handle < self.next
    }

    /// The handle that the next snapshot gets.
    pub closed spec fn next_handle(&self) -> u64 {
        self.next
    }

    /// A store without snapshots. The first handle is 1: zero stands for
    /// "no parent" in a stored diff.
    pub fn new() -> (store: Self)
        ensures
            store@ == Map::<u64, Seq<u8>>::empty(),
            store.next_handle() == 1,
            store.wf(),
    {
        let store = SnapshotStore { records: HashMap::new(), next: 1 };
        assert(store@ =~= Map::<u64, Seq<u8>>::empty());
        store
    }

    /// A store without snapshots whose first handle is `next`, for a run
    /// that goes on where an earlier one stopped.
    pub fn starting_at(next: u64) -> (store: Self)
        ensures
            store@ == Map::<u64, Seq<u8>>::empty(),
            store.next_handle() == next,
            store.wf(),
    {
        let store = SnapshotStore { records: HashMap::new(), next };
        assert(store@ =~= Map::<u64, Seq<u8>>::empty());
        store
    }

    /// The handle that the next snapshot gets.
    pub fn peek_next_handle(&self) -> (handle: u64)
        ensures
            handle == self.next_handle(),
    {
        self.next
    }

    /// The stored form of the diff under `shortstatehash`, as it is to be
    /// written to durable storage.
    pub fn record(&self, shortstatehash: u64) -> (value: Option<&Vec<u8>>)
        ensures
            value is Some <==> self@.contains_key(shortstatehash),
            value is Some ==> value->0@ == self@[shortstatehash],
    {
        self.records.get(&shortstatehash)
    }

    /// Puts a stored diff under `shortstatehash`, as it was read from
    /// durable storage. Later snapshots get handles above it.
    pub fn load_record(&mut self, shortstatehash: u64, value: Vec<u8>)
        ensures
            final(self)@ == old(self)@.insert(shortstatehash, value@),
            final(self).next_handle() == if shortstatehash < old(self).next_handle() {
                old(self).next_handle()
            } else if shortstatehash < u64::MAX {
                (shortstatehash + 1) as u64
            } else {
                u64::MAX
            },
            old(self).wf() ==> final(self).wf(),
    {
        let ghost before = self@;
        let ghost bytes = value@;
        if shortstatehash >= self.next {
            self.next = if shortstatehash < u64::MAX {
                shortstatehash + 1
            } else {
                u64::MAX
            };
        }
        self.records.insert(shortstatehash, value);
        assert(self@ =~= before.insert(shortstatehash, bytes));
    }

    /// Reads the diff of a snapshot.
    pub fn get_statediff(&self, shortstatehash: u64) -> (diff: Result<StateDiff, Error>)
        ensures
            diff is Ok <==> diff_at(self@, shortstatehash) is Some,
            diff is Ok ==> diff->Ok_0@ == diff_at(self@, shortstatehash)->0,
            diff is Err ==> diff->Err_0 is Database,
    {
        match self.records.get(&shortstatehash) {
            None => Err(Error::Database("State hash does not exist".to_owned())),
            Some(value) => StateDiff::decode(value.as_slice()),
        }
    }

    /// Stores the diff of a snapshot under its handle, in place of what was
    /// there.
    pub fn save_statediff(&mut self, shortstatehash: u64, diff: &StateDiff)
        ensures
            final(self)@ == old(self)@.insert(shortstatehash, spec_encode(diff@)),
            final(self).next_handle() == if shortstatehash < old(self).next_handle() {
                old(self).next_handle()
            } else if shortstatehash < u64::MAX {
                (shortstatehash + 1) as u64
            } else {
                u64::MAX
            },
            old(self).wf() ==> final(self).wf(),
    {
        let value = diff.encode();
        self.load_record(shortstatehash, value);
    }

    /// Creates a snapshot from its diff: it gets a handle that was never
    /// in use, above all others, and the diff is stored under it. The diff
    /// is taken as it is.
    pub fn create_snapshot(
        &mut self,
        parent: Option<u64>,
        added: Vec<CompressedStateEvent>,
        removed: Vec<CompressedStateEvent>,
    ) -> (handle: u64)
        requires
            old(self).wf(),
            old(self).next_handle() < u64::MAX,
        ensures
            final(self).wf(),
            handle == old(self).next_handle(),
            final(self).next_handle() == handle + 1,
            !old(self)@.contains_key(handle),
            forall|other: u64| old(self)@.contains_key(other) ==> other < handle,
            final(self)@ == old(self)@.insert(
                handle,
                spec_encode(DiffView { parent, added: added@, removed: removed@ }),
            ),
    {
        let handle = self.next;
        let diff = StateDiff { parent, added, removed };
        self.save_statediff(handle, &diff);
        handle
    }

    /// The full state of a snapshot, from state key handles to event
    /// handles. Fails where a diff on the way to the root is missing or
    /// unreadable, or a parent is not older than its child.
    pub fn resolve(&self, handle: u64) -> (state: Result<HashMap<u64, u64>, Error>)
        ensures
            resolves_to(self@, handle, state_of(state)),
            state is Err ==> state->Err_0 is Database,
    {
        let mut layers: Vec<StateDiff> = Vec::new();
        let ghost mut walked: Seq<u64> = Seq::empty();
        let mut cur: u64 = handle;
        let mut more: bool = true;
        proof {
            match spec_chain(self@, cur) {
                Some(rest) => {
                    assert(walked + rest =~= rest);
                },
                None => {},
            }
        }
        while more
            invariant
                more ==> spec_chain(self@, handle) == match spec_chain(self@, cur) {
                    Some(rest) => Some(walked + rest),
                    None => None,
                },
                !more ==> spec_chain(self@, handle) == Some(walked),
                layers@.len() == walked.len(),
                forall|k: int|
                    0 <= k < walked.len() ==> diff_at(self@, #[trigger] walked[k]) == Some(
                        layers@[k]@,
                    ),
            decreases cur + if more { 1int } else { 0int },
        {
            match self.get_statediff(cur) {
                Err(e) => {
                    return Err(e);
                },
                Ok(diff) => {
                    let parent = diff.parent;
                    proof {
                        let before = walked;
                        walked = walked.push(cur);
                        match parent {
                            None => {
                                assert(before + seq![cur] =~= walked);
                            },
                            Some(p) => {
                                if p < cur {
                                    match spec_chain(self@, p) {
                                        Some(rest) => {
                                            assert(before + (seq![cur] + rest) =~= walked + rest);
                                        },
                                        None => {},
                                    }
                                }
                            },
                        }
                    }
                    layers.push(diff);
                    match parent {
                        None => {
                            more = false;
                        },
                        Some(p) => {
                            if p >= cur {
                                return Err(
                                    Error::Database("State hash has no older parent".to_owned()),
                                );
                            }
                            cur = p;
                        },
                    }
                },
            }
        }
        let mut state: HashMap<u64, u64> = HashMap::new();
        let mut i: usize = layers.len();
        proof {
            assert(walked.skip(i as int) =~= Seq::<u64>::empty());
            assert(state@ =~= Map::<u64, u64>::empty());
        }
        while i > 0
            invariant
                i <= layers@.len(),
                layers@.len() == walked.len(),
                forall|k: int|
                    0 <= k < walked.len() ==> diff_at(self@, #[trigger] walked[k]) == Some(
                        layers@[k]@,
                    ),
                state@ == fold_chain(self@, walked.skip(i as int)),
            decreases i,
        {
            i = i - 1;
            proof {
                let upper = walked.skip(i as int);
                assert(upper.drop_first() =~= walked.skip(i + 1));
                assert(upper[0] == walked[i as int]);
            }
            apply_layer(&mut state, &layers[i]);
        }
        proof {
            assert(walked.skip(0) =~= walked);
        }
        Ok(state)
    }

    /// The event under one state key in a snapshot, found without building
    /// the full state: the layers are read from the top, and the first that
    /// adds or removes the key decides. Fails where a diff is missing or
    /// unreadable, or a link broken, before any layer decided.
    pub fn resolve_one(&self, handle: u64, shortstatekey: u64) -> (event: Result<
        Option<u64>,
        Error,
    >)
        ensures
            event is Ok <==> spec_resolve_one(self@, handle, shortstatekey) is Some,
            event is Ok ==> event->Ok_0 == spec_resolve_one(self@, handle, shortstatekey)->0,
            event is Err ==> event->Err_0 is Database,
    {
        let mut cur: u64 = handle;
        loop
            invariant
                spec_resolve_one(self@, handle, shortstatekey) == spec_resolve_one(
                    self@,
                    cur,
                    shortstatekey,
                ),
            decreases cur,
        {
            match self.get_statediff(cur) {
                Err(e) => {
                    return Err(e);
                },
                Ok(diff) => {
                    match find_added(&diff.added, shortstatekey) {
                        Some(found) => {
                            return Ok(Some(found));
                        },
                        None => {},
                    }
                    if has_removed(&diff.removed, shortstatekey) {
                        return Ok(None);
                    }
                    match diff.parent {
                        None => {
                            return Ok(None);
                        },
                        Some(p) => {
                            if p >= cur {
                                return Err(
                                    Error::Database("State hash has no older parent".to_owned()),
                                );
                            }
                            cur = p;
                        },
                    }
                },
            }
        }
    }
}

} // verus!
