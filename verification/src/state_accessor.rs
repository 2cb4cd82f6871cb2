//! Who may see what: the history visibility rules, with a cache of the
//! decisions taken.
//!
//! A decision is about an actor (a user or a server) and a snapshot. It
//! follows from the room's history visibility at that snapshot and from
//! memberships; the caller looks those up and hands them over as facts.

use lru_cache::LruCache;
use std::collections::hash_map::RandomState;
use std::collections::HashMap;
use vstd::prelude::*;

use crate::error::Error;
use crate::json::{json_text_field, text_field};
use crate::lru::{
    cached, inserted, lemma_inserted, lemma_refreshed, lru_capacity, lru_clear, lru_entries,
    lru_get, lru_insert, lru_len, lru_new, refreshed, DecisionKey,
};
use crate::snapshot::{resolves_to, spec_resolve, state_of, value_at, SnapshotStore};
use crate::string::{chars_of, find_char, same_text, string_from_chars, text_of};

verus! {

broadcast use vstd::std_specs::hash::group_hash_axioms;

/// Who may see the history of a room.
#[derive(Clone, Copy, Debug, PartialEq, Eq)]
pub enum HistoryVisibility {
    /// Members, from the point they were invited.
    Invited,
    /// Members, from the point they joined.
    Joined,
    /// Members, all of it.
    Shared,
    /// Anyone.
    WorldReadable,
    /// A value this server does not know.
    Custom,
}

/// The standing of a user in a room.
#[derive(Clone, Copy, Debug, PartialEq, Eq)]
pub enum MembershipState {
    Ban,
    Invite,
    Join,
    Knock,
    Leave,
    /// A value this server does not know.
    Custom,
}

/// The visibility that a word names.
pub open spec fn visibility_named(word: Seq<char>) -> HistoryVisibility {
    if word == "invited"@ {
        HistoryVisibility::Invited
    } else if word == "joined"@ {
        HistoryVisibility::Joined
    } else if word == "shared"@ {
        HistoryVisibility::Shared
    } else if word == "world_readable"@ {
        HistoryVisibility::WorldReadable
    } else {
        HistoryVisibility::Custom
    }
}

/// The membership that a word names.
pub open spec fn membership_named(word: Seq<char>) -> MembershipState {
    if word == "ban"@ {
        MembershipState::Ban
    } else if word == "invite"@ {
        MembershipState::Invite
    } else if word == "join"@ {
        MembershipState::Join
    } else if word == "knock"@ {
        MembershipState::Knock
    } else if word == "leave"@ {
        MembershipState::Leave
    } else {
        MembershipState::Custom
    }
}

/// The visibility that a word names.
pub fn parse_history_visibility(word: &str) -> (visibility: HistoryVisibility)
    ensures
        visibility == visibility_named(word@),
{
    if same_text(word, "invited") {
        HistoryVisibility::Invited
    } else if same_text(word, "joined") {
        HistoryVisibility::Joined
    } else if same_text(word, "shared") {
        HistoryVisibility::Shared
    } else if same_text(word, "world_readable") {
        HistoryVisibility::WorldReadable
    } else {
        HistoryVisibility::Custom
    }
}

/// The membership that a word names.
pub fn parse_membership(word: &str) -> (membership: MembershipState)
    ensures
        membership == membership_named(word@),
{
    if same_text(word, "ban") {
        MembershipState::Ban
    } else if same_text(word, "invite") {
        MembershipState::Invite
    } else if same_text(word, "join") {
        MembershipState::Join
    } else if same_text(word, "knock") {
        MembershipState::Knock
    } else if same_text(word, "leave") {
        MembershipState::Leave
    } else {
        MembershipState::Custom
    }
}

/// The visibility in effect, given the word found in the visibility event:
/// "shared" where there is no word.
pub open spec fn visibility_from(word: Option<Seq<char>>) -> HistoryVisibility {
    match word {
        Some(word) => visibility_named(word),
        None => HistoryVisibility::Shared,
    }
}

/// The visibility in effect, given the word found in the visibility event.
pub fn visibility_from_word(word: Option<String>) -> (visibility: HistoryVisibility)
    ensures
        visibility == visibility_from(text_of(word)),
{
    match word {
        Some(word) => parse_history_visibility(word.as_str()),
        None => HistoryVisibility::Shared,
    }
}

/// The visibility in effect, given the content of the visibility event at
/// a snapshot: "shared" where the event is not set or its content is not
/// what it should be.
pub open spec fn spec_history_visibility(content: Option<Seq<char>>) -> HistoryVisibility {
    match content {
        Some(content) => visibility_from(json_text_field(content, "history_visibility"@)),
        None => HistoryVisibility::Shared,
    }
}

/// The visibility in effect, given the content of the visibility event.
pub fn history_visibility_of(content: &Option<String>) -> (visibility: HistoryVisibility)
    ensures
        visibility == spec_history_visibility(text_of(*content)),
{
    match content {
        Some(content) => visibility_from_word(text_field(content.as_str(), "history_visibility")),
        None => HistoryVisibility::Shared,
    }
}

/// The membership that a member event states, given the word found in it;
/// none where there is no word.
pub open spec fn membership_from(word: Option<Seq<char>>) -> Option<MembershipState> {
    match word {
        Some(word) => Some(membership_named(word)),
        None => None,
    }
}

/// The membership that a member event states, given the word found in it.
pub fn membership_from_word(word: Option<String>) -> (membership: Option<MembershipState>)
    ensures
        membership == membership_from(text_of(word)),
{
    match word {
        Some(word) => Some(parse_membership(word.as_str())),
        None => None,
    }
}

/// The membership of a user at a snapshot, given the content of the user's
/// member event there: "leave" where there is no such event, and none where
/// the content is not what it should be.
pub open spec fn spec_membership(content: Option<Seq<char>>) -> Option<MembershipState> {
    match content {
        Some(content) => membership_from(json_text_field(content, "membership"@)),
        None => Some(MembershipState::Leave),
    }
}

/// The membership of a user at a snapshot, given the content of the user's
/// member event there.
pub fn user_membership(content: &Option<String>) -> (membership: Option<MembershipState>)
    ensures
        membership == spec_membership(text_of(*content)),
{
    match content {
        Some(content) => membership_from_word(text_field(content.as_str(), "membership")),
        None => Some(MembershipState::Leave),
    }
}

/// The user was a joined member.
pub open spec fn was_joined(membership: Option<MembershipState>) -> bool {
    membership == Some(MembershipState::Join)
}

/// The user was an invited or joined member.
pub open spec fn was_invited(membership: Option<MembershipState>) -> bool {
    membership == Some(MembershipState::Join) || membership == Some(MembershipState::Invite)
}

/// The user was a joined member at this state (potentially in the past).
pub fn user_was_joined(membership: Option<MembershipState>) -> (joined: bool)
    ensures
        joined == was_joined(membership),
{
    match membership {
        Some(MembershipState::Join) => true,
        _ => false,
    }
}

/// The user was an invited or joined room member at this state (potentially
/// in the past).
pub fn user_was_invited(membership: Option<MembershipState>) -> (invited: bool)
    ensures
        invited == was_invited(membership),
{
    match membership {
        Some(MembershipState::Join) => true,
        Some(MembershipState::Invite) => true,
        _ => false,
    }
}

/// Whether a user may see an event: anyone where history is world-readable;
/// current members where it is shared; those who were at least invited, or
/// joined, at the event's snapshot where it says so; nobody where the
/// visibility is unknown.
pub open spec fn user_visibility(
    visibility: HistoryVisibility,
    currently_member: bool,
    membership: Option<MembershipState>,
) -> bool {
    match visibility {
        HistoryVisibility::WorldReadable => true,
        HistoryVisibility::Shared => currently_member,
        HistoryVisibility::Invited => was_invited(membership),
        HistoryVisibility::Joined => was_joined(membership),
        HistoryVisibility::Custom => false,
    }
}

/// Decides whether a user may see an event.
pub fn decide_user_visibility(
    visibility: HistoryVisibility,
    currently_member: bool,
    membership: Option<MembershipState>,
) -> (visible: bool)
    ensures
        visible == user_visibility(visibility, currently_member, membership),
{
    match visibility {
        HistoryVisibility::WorldReadable => true,
        HistoryVisibility::Shared => currently_member,
        HistoryVisibility::Invited => user_was_invited(membership),
        HistoryVisibility::Joined => user_was_joined(membership),
        HistoryVisibility::Custom => false,
    }
}

/// Whether a server may see an event, given the memberships at the event's
/// snapshot of its users that are in the room now: any server where history
/// is world-readable or shared; a server one of whose users was at least
/// invited, or joined, where it says so; none where the visibility is
/// unknown.
pub open spec fn server_visibility(
    visibility: HistoryVisibility,
    memberships: Seq<Option<MembershipState>>,
) -> bool {
    match visibility {
        HistoryVisibility::WorldReadable => true,
        HistoryVisibility::Shared => true,
        HistoryVisibility::Invited => exists|i: int|
            0 <= i < memberships.len() && was_invited(#[trigger] memberships[i]),
        HistoryVisibility::Joined => exists|i: int|
            0 <= i < memberships.len() && was_joined(#[trigger] memberships[i]),
        HistoryVisibility::Custom => false,
    }
}

/// Decides whether a server may see an event.
pub fn decide_server_visibility(
    visibility: HistoryVisibility,
    memberships: &Vec<Option<MembershipState>>,
) -> (visible: bool)
    ensures
        visible == server_visibility(visibility, memberships@),
{
    match visibility {
        HistoryVisibility::WorldReadable => true,
        HistoryVisibility::Shared => true,
        HistoryVisibility::Invited => {
            let mut i: usize = 0;
            while i < memberships.len()
                invariant
                    visibility is Invited,
                    i <= memberships@.len(),
                    forall|k: int| 0 <= k < i ==> !was_invited(#[trigger] memberships@[k]),
                decreases memberships@.len() - i,
            {
                if user_was_invited(memberships[i]) {
                    assert(was_invited(memberships@[i as int]));
                    return true;
                }
                i = i + 1;
            }
            false
        },
        HistoryVisibility::Joined => {
            let mut i: usize = 0;
            while i < memberships.len()
                invariant
                    visibility is Joined,
                    i <= memberships@.len(),
                    forall|k: int| 0 <= k < i ==> !was_joined(#[trigger] memberships@[k]),
                decreases memberships@.len() - i,
            {
                if user_was_joined(memberships[i]) {
                    assert(was_joined(memberships@[i as int]));
                    return true;
                }
                i = i + 1;
            }
            false
        },
        HistoryVisibility::Custom => false,
    }
}

/// The server of a user: what follows the first colon of the user's name.
pub open spec fn server_of(user_id: Seq<char>) -> Option<Seq<char>> {
    match user_id.index_of_first(':') {
        Some(at) => Some(user_id.skip(at + 1)),
        None => None,
    }
}

/// The server of a user.
pub fn user_server(user_id: &str) -> (server: Option<String>)
    ensures
        text_of(server) == server_of(user_id@),
{
    let chars = chars_of(user_id);
    let len = chars.len();
    match find_char(&chars, ':') {
        Some(at) => {
            assert(chars@.subrange(at + 1, chars@.len() as int) =~= user_id@.skip(at + 1));
            Some(string_from_chars(&chars, at + 1, len))
        },
        None => None,
    }
}

/// What a user's decision rests on: whether the user is in the room now,
/// the content of the room's visibility event at the snapshot, and the
/// content of the user's member event at the snapshot.
#[derive(Clone, Debug, PartialEq, Eq)]
pub struct UserFacts {
    pub currently_member: bool,
    pub history_visibility: Option<String>,
    pub membership: Option<String>,
}

/// A member of the room now, with the content of the member event that the
/// user had at the snapshot.
#[derive(Clone, Debug, PartialEq, Eq)]
pub struct Member {
    pub user_id: String,
    pub membership: Option<String>,
}

/// What a server's decision rests on: the content of the room's visibility
/// event at the snapshot, and the members of the room now.
#[derive(Clone, Debug, PartialEq, Eq)]
pub struct ServerFacts {
    pub history_visibility: Option<String>,
    pub current_members: Vec<Member>,
}

/// The decision for a user that the facts call for.
pub open spec fn user_decision(facts: UserFacts) -> bool {
    user_visibility(
        spec_history_visibility(text_of(facts.history_visibility)),
        facts.currently_member,
        spec_membership(text_of(facts.membership)),
    )
}

/// The memberships at the snapshot of those of `members` that belong to
/// the server `origin`.
pub open spec fn memberships_of(origin: Seq<char>, members: Seq<Member>) -> Seq<
    Option<MembershipState>,
>
    decreases members.len(),
{
    if members.len() == 0 {
        Seq::empty()
    } else {
        let before = memberships_of(origin, members.drop_last());
        if server_of(members.last().user_id@) == Some(origin) {
            before.push(spec_membership(text_of(members.last().membership)))
        } else {
            before
        }
    }
}

/// The decision for a server that the facts call for.
pub open spec fn server_decision(origin: Seq<char>, facts: ServerFacts) -> bool {
    server_visibility(
        spec_history_visibility(text_of(facts.history_visibility)),
        memberships_of(origin, facts.current_members@),
    )
}

/// What a request for a decision comes to, for a cache that held `before`:
/// a decision that the cache holds is given as it is, and its entry becomes
/// the most recently used one; otherwise the decision that the facts call
/// for is given and put into the cache.
pub open spec fn cache_outcome(
    before: Seq<(DecisionKey, bool)>,
    capacity: nat,
    key: DecisionKey,
    decision: bool,
    visible: bool,
    after: Seq<(DecisionKey, bool)>,
) -> bool {
    match cached(before, key) {
        Some(value) => visible == value && after == refreshed(before, key),
        None => visible == decision && after == inserted(before, capacity, key, decision),
    }
}

/// What a request to see an event comes to. An event without a snapshot is
/// visible, and the cache is left alone.
pub open spec fn can_see_outcome(
    before: Seq<(DecisionKey, bool)>,
    capacity: nat,
    actor: Seq<char>,
    shortstatehash: Option<u64>,
    decision: bool,
    visible: bool,
    after: Seq<(DecisionKey, bool)>,
) -> bool {
    match shortstatehash {
        None => visible && after == before,
        Some(handle) => cache_outcome(before, capacity, (actor, handle), decision, visible, after),
    }
}

/// The cache holds nothing under `key` that the facts do not call for.
pub open spec fn consistent(before: Seq<(DecisionKey, bool)>, key: DecisionKey, decision: bool) -> bool {
    cached(before, key) is None || cached(before, key) == Some(decision)
}

/// A request repeated gives the same answer: whatever the cache held, two
/// requests in a row for one actor and one event, on the same facts, agree.
pub proof fn lemma_can_see_twice(
    cache: Seq<(DecisionKey, bool)>,
    capacity: nat,
    actor: Seq<char>,
    shortstatehash: Option<u64>,
    decision: bool,
    first: bool,
    between: Seq<(DecisionKey, bool)>,
    second: bool,
    after: Seq<(DecisionKey, bool)>,
)
    requires
        can_see_outcome(cache, capacity, actor, shortstatehash, decision, first, between),
        can_see_outcome(between, capacity, actor, shortstatehash, decision, second, after),
    ensures
        first == second,
{
    match shortstatehash {
        None => {},
        Some(handle) => {
            let key = (actor, handle);
            lemma_refreshed(cache, key, key);
            lemma_inserted(cache, capacity, key, decision, key);
        },
    }
}

/// The cache is no source of truth: where it holds nothing under the key
/// that the facts do not call for, a request gives the decision that the
/// facts call for, whether the cache holds the decision or not, and leaves
/// the cache so. Hence removing an entry and asking again gives the same
/// answer.
pub proof fn lemma_can_see_without_cache(
    cache: Seq<(DecisionKey, bool)>,
    capacity: nat,
    actor: Seq<char>,
    handle: u64,
    decision: bool,
    visible: bool,
    after: Seq<(DecisionKey, bool)>,
)
    requires
        consistent(cache, (actor, handle), decision),
        can_see_outcome(cache, capacity, actor, Some(handle), decision, visible, after),
    ensures
        visible == decision,
        consistent(after, (actor, handle), decision),
{
    let key = (actor, handle);
    lemma_refreshed(cache, key, key);
    lemma_inserted(cache, capacity, key, decision, key);
}

/// A request about one key changes no decision that the cache holds under
/// another key; at most it makes the cache forget it.
pub proof fn lemma_can_see_other_keys(
    cache: Seq<(DecisionKey, bool)>,
    capacity: nat,
    actor: Seq<char>,
    shortstatehash: Option<u64>,
    decision: bool,
    visible: bool,
    after: Seq<(DecisionKey, bool)>,
    other: DecisionKey,
)
    requires
        can_see_outcome(cache, capacity, actor, shortstatehash, decision, visible, after),
        shortstatehash is Some ==> other != (actor, shortstatehash->0),
    ensures
        cached(after, other) == cached(cache, other) || cached(after, other) is None,
{
    match shortstatehash {
        None => {},
        Some(handle) => {
            let key = (actor, handle);
            lemma_refreshed(cache, key, other);
            lemma_inserted(cache, capacity, key, decision, other);
        },
    }
}

/// World-readable history is visible to every actor: to any user, member
/// or not, with or without a member event; and to any server, whoever its
/// users are.
pub proof fn lemma_world_readable_visible(
    currently_member: bool,
    membership: Option<MembershipState>,
    memberships: Seq<Option<MembershipState>>,
)
    ensures
        user_visibility(HistoryVisibility::WorldReadable, currently_member, membership),
        server_visibility(HistoryVisibility::WorldReadable, memberships),
{
}

/// Where history is world-readable at a snapshot and the cache holds
/// nothing else under the key, every request to see an event there is
/// granted.
pub proof fn lemma_world_readable_can_see(
    cache: Seq<(DecisionKey, bool)>,
    capacity: nat,
    actor: Seq<char>,
    shortstatehash: Option<u64>,
    visible: bool,
    after: Seq<(DecisionKey, bool)>,
)
    requires
        shortstatehash is Some ==> consistent(cache, (actor, shortstatehash->0), true),
        can_see_outcome(cache, capacity, actor, shortstatehash, true, visible, after),
    ensures
        visible,
{
}

/// The visibility rules with their two caches of decisions, one for
/// servers and one for users.
pub struct Service {
    server_visibility_cache: LruCache<(String, u64), bool, RandomState>,
    user_visibility_cache: LruCache<(String, u64), bool, RandomState>,
}

impl Service {
    /// The decisions cached for servers, least recently used first.
    pub closed spec fn server_cache(&self) -> Seq<(DecisionKey, bool)> {
        lru_entries(self.server_visibility_cache)
    }

    /// The decisions cached for users, least recently used first.
    pub closed spec fn user_cache(&self) -> Seq<(DecisionKey, bool)> {
        lru_entries(self.user_visibility_cache)
    }

    /// The number of decisions that the cache for servers holds at most.
    pub closed spec fn server_capacity(&self) -> nat {
        lru_capacity(self.server_visibility_cache)
    }

    /// The number of decisions that the cache for users holds at most.
    pub closed spec fn user_capacity(&self) -> nat {
        lru_capacity(self.user_visibility_cache)
    }

    /// The rules with empty caches of the given capacities.
    pub fn new(server_capacity: usize, user_capacity: usize) -> (service: Self)
        ensures
            service.server_cache() == Seq::<(DecisionKey, bool)>::empty(),
            service.user_cache() == Seq::<(DecisionKey, bool)>::empty(),
            service.server_capacity() == server_capacity,
            service.user_capacity() == user_capacity,
    {
        Service {
            server_visibility_cache: lru_new(server_capacity),
            user_visibility_cache: lru_new(user_capacity),
        }
    }

    /// The numbers of decisions held for servers and for users.
    pub fn memory_usage(&self) -> (sizes: (usize, usize))
        ensures
            sizes.0 == self.server_cache().len(),
            sizes.1 == self.user_cache().len(),
    {
        (lru_len(&self.server_visibility_cache), lru_len(&self.user_visibility_cache))
    }

    /// Forgets every decision.
    pub fn clear_cache(&mut self)
        ensures
            final(self).server_cache() == Seq::<(DecisionKey, bool)>::empty(),
            final(self).user_cache() == Seq::<(DecisionKey, bool)>::empty(),
            final(self).server_capacity() == old(self).server_capacity(),
            final(self).user_capacity() == old(self).user_capacity(),
    {
        lru_clear(&mut self.server_visibility_cache);
        lru_clear(&mut self.user_visibility_cache);
    }

    /// The decision that is cached for a user and a snapshot, if any. The
    /// entry that is found becomes the most recently used one.
    pub fn cached_user_visibility(&mut self, user_id: &str, shortstatehash: u64) -> (visible:
        Option<bool>)
        ensures
            visible == cached(old(self).user_cache(), (user_id@, shortstatehash)),
            final(self).user_cache() == refreshed(
                old(self).user_cache(),
                (user_id@, shortstatehash),
            ),
            final(self).server_cache() == old(self).server_cache(),
            final(self).server_capacity() == old(self).server_capacity(),
            final(self).user_capacity() == old(self).user_capacity(),
    {
        lru_get(&mut self.user_visibility_cache, user_id, shortstatehash)
    }

    /// The decision that is cached for a server and a snapshot, if any. The
    /// entry that is found becomes the most recently used one.
    pub fn cached_server_visibility(&mut self, origin: &str, shortstatehash: u64) -> (visible:
        Option<bool>)
        ensures
            visible == cached(old(self).server_cache(), (origin@, shortstatehash)),
            final(self).server_cache() == refreshed(
                old(self).server_cache(),
                (origin@, shortstatehash),
            ),
            final(self).user_cache() == old(self).user_cache(),
            final(self).server_capacity() == old(self).server_capacity(),
            final(self).user_capacity() == old(self).user_capacity(),
    {
        lru_get(&mut self.server_visibility_cache, origin, shortstatehash)
    }

    /// Whether a server is allowed to see an event through federation, based on
    /// the room's history_visibility at that event's state.
    pub fn server_can_see_event(
        &mut self,
        origin: &str,
        shortstatehash: Option<u64>,
        facts: &ServerFacts,
    ) -> (visible: bool)
        ensures
            can_see_outcome(
                old(self).server_cache(),
                old(self).server_capacity(),
                origin@,
                shortstatehash,
                server_decision(origin@, *facts),
                visible,
                final(self).server_cache(),
            ),
            final(self).user_cache() == old(self).user_cache(),
            final(self).server_capacity() == old(self).server_capacity(),
            final(self).user_capacity() == old(self).user_capacity(),
    {
        let handle = match shortstatehash {
            Some(handle) => handle,
            None => {
                return true;
            },
        };
        if let Some(visibility) = lru_get(&mut self.server_visibility_cache, origin, handle) {
            return visibility;
        }
        let history_visibility = history_visibility_of(&facts.history_visibility);
        let mut memberships: Vec<Option<MembershipState>> = Vec::new();
        let mut i: usize = 0;
        assert(facts.current_members@.take(0) =~= Seq::<Member>::empty());
        while i < facts.current_members.len()
            invariant
                i <= facts.current_members@.len(),
                memberships@ == memberships_of(origin@, facts.current_members@.take(i as int)),
            decreases facts.current_members@.len() - i,
        {
            let member = &facts.current_members[i];
            proof {
                let next = facts.current_members@.take(i as int + 1);
                assert(next.drop_last() =~= facts.current_members@.take(i as int));
                assert(next.last() == facts.current_members@[i as int]);
            }
            let belongs = match user_server(member.user_id.as_str()) {
                Some(server) => same_text(server.as_str(), origin),
                None => false,
            };
            if belongs {
                memberships.push(user_membership(&member.membership));
            }
            i = i + 1;
        }
        assert(facts.current_members@.take(facts.current_members@.len() as int)
            =~= facts.current_members@);
        let visibility = decide_server_visibility(history_visibility, &memberships);
        lru_insert(&mut self.server_visibility_cache, origin, handle, visibility);
        visibility
    }

    /// Whether a user is allowed to see an event, based on
    /// the room's history_visibility at that event's state.
    pub fn user_can_see_event(
        &mut self,
        user_id: &str,
        shortstatehash: Option<u64>,
        facts: &UserFacts,
    ) -> (visible: bool)
        ensures
            can_see_outcome(
                old(self).user_cache(),
                old(self).user_capacity(),
                user_id@,
                shortstatehash,
                user_decision(*facts),
                visible,
                final(self).user_cache(),
            ),
            final(self).server_cache() == old(self).server_cache(),
            final(self).server_capacity() == old(self).server_capacity(),
            final(self).user_capacity() == old(self).user_capacity(),
    {
        let handle = match shortstatehash {
            Some(handle) => handle,
            None => {
                return true;
            },
        };
        if let Some(visibility) = lru_get(&mut self.user_visibility_cache, user_id, handle) {
            return visibility;
        }
        let history_visibility = history_visibility_of(&facts.history_visibility);
        let membership = user_membership(&facts.membership);
        let visibility = decide_user_visibility(
            history_visibility,
            facts.currently_member,
            membership,
        );
        lru_insert(&mut self.user_visibility_cache, user_id, handle, visibility);
        visibility
    }

    /// Builds the full state of a snapshot: for each state key handle the
    /// handle of the event that set it.
    pub fn state_full_ids(&self, snapshots: &SnapshotStore, shortstatehash: u64) -> (state: Result<
        HashMap<u64, u64>,
        Error,
    >)
        ensures
            resolves_to(snapshots@, shortstatehash, state_of(state)),
            state is Err ==> state->Err_0 is Database,
    {
        snapshots.resolve(shortstatehash)
    }

    /// The handle of the event under one state key in the full state of a
    /// snapshot; none where the state holds nothing under the key.
    pub fn state_get_id(
        &self,
        snapshots: &SnapshotStore,
        shortstatehash: u64,
        shortstatekey: u64,
    ) -> (event: Result<Option<u64>, Error>)
        ensures
            event is Ok <==> spec_resolve(snapshots@, shortstatehash) is Some,
            event is Ok ==> event->Ok_0 == value_at(
                spec_resolve(snapshots@, shortstatehash)->0,
                shortstatekey,
            ),
            event is Err ==> event->Err_0 is Database,
    {
        match snapshots.resolve(shortstatehash) {
            Ok(state) => {
                match state.get(&shortstatekey) {
                    Some(event) => Ok(Some(*event)),
                    None => Ok(None),
                }
            },
            Err(e) => Err(e),
        }
    }

    /// The name of a room, given the content of its name event: none where
    /// the event is not set or its content holds no name.
    pub fn get_name(&self, content: &Option<String>) -> (name: Option<String>)
        ensures
            text_of(name) == match text_of(*content) {
                Some(content) => json_text_field(content, "name"@),
                None => None,
            },
    {
        match content {
            Some(content) => text_field(content.as_str(), "name"),
            None => None,
        }
    }

    /// The topic of a room, given the content of its topic event: none
    /// where the event is not set; an event whose content holds no topic is
    /// an error.
    pub fn get_room_topic(&self, content: &Option<String>) -> (topic: Result<Option<String>, Error>)
        ensures
            match text_of(*content) {
                None => topic is Ok && topic->Ok_0 is None,
                Some(content) => match json_text_field(content, "topic"@) {
                    Some(text) => topic is Ok && text_of(topic->Ok_0) == Some(text),
                    None => topic is Err && topic->Err_0 is Database,
                },
            },
    {
        match content {
            None => Ok(None),
            Some(content) => match text_field(content.as_str(), "topic") {
                Some(text) => Ok(Some(text)),
                None => Err(Error::Database("Invalid room topic event in database.".to_owned())),
            },
        }
    }

    /// Checks if guests are able to join a given room, given the content of
    /// its guest access event: they are where it says "can_join". A room
    /// without such an event lets no guest in; an event whose content holds
    /// no guest access is an error.
    pub fn guest_can_join(&self, content: &Option<String>) -> (can_join: Result<bool, Error>)
        ensures
            match text_of(*content) {
                None => can_join == Ok::<bool, Error>(false),
                Some(content) => match json_text_field(content, "guest_access"@) {
                    Some(word) => can_join == Ok::<bool, Error>(word == "can_join"@),
                    None => can_join is Err && can_join->Err_0 is Database,
                },
            },
    {
        match content {
            None => Ok(false),
            Some(content) => match text_field(content.as_str(), "guest_access") {
                Some(word) => Ok(same_text(word.as_str(), "can_join")),
                None => Err(
                    Error::Database("Invalid room guest access event in database.".to_owned()),
                ),
            },
        }
    }

    /// Gets the room's encryption algorithm if the encryption event is set,
    /// given its content; an event whose content holds no algorithm is an
    /// error.
    pub fn get_room_encryption(&self, content: &Option<String>) -> (algorithm: Result<
        Option<String>,
        Error,
    >)
        ensures
            match text_of(*content) {
                None => algorithm is Ok && algorithm->Ok_0 is None,
                Some(content) => match json_text_field(content, "algorithm"@) {
                    Some(text) => algorithm is Ok && text_of(algorithm->Ok_0) == Some(text),
                    None => algorithm is Err && algorithm->Err_0 is Database,
                },
            },
    {
        match content {
            None => Ok(None),
            Some(content) => match text_field(content.as_str(), "algorithm") {
                Some(text) => Ok(Some(text)),
                None => Err(
                    Error::Database("Invalid room encryption event in database".to_owned()),
                ),
            },
        }
    }

    /// Whether a user is allowed to see the state of a room as it is now:
    /// a current member is, and anyone is where history is world-readable.
    pub fn user_can_see_state_events(
        &self,
        currently_member: bool,
        history_visibility: &Option<String>,
    ) -> (visible: bool)
        ensures
            visible == (currently_member || spec_history_visibility(text_of(*history_visibility))
                == HistoryVisibility::WorldReadable),
    {
        if currently_member {
            return true;
        }
        match history_visibility_of(history_visibility) {
            HistoryVisibility::WorldReadable => true,
            _ => false,
        }
    }

    /// Checks if guests are able to view room content without joining: the
    /// room's visibility event says "world_readable". A room without such
    /// an event is not; an event whose content is not what it should be is
    /// an error.
    pub fn is_world_readable(&self, history_visibility: &Option<String>) -> (readable: Result<
        bool,
        Error,
    >)
        ensures
            match text_of(*history_visibility) {
                None => readable == Ok::<bool, Error>(false),
                Some(content) => match json_text_field(content, "history_visibility"@) {
                    Some(word) => readable == Ok::<bool, Error>(
                        visibility_named(word) == HistoryVisibility::WorldReadable,
                    ),
                    None => readable is Err && readable->Err_0 is Database,
                },
            },
    {
        match history_visibility {
            None => Ok(false),
            Some(content) => match text_field(content.as_str(), "history_visibility") {
                Some(word) => match parse_history_visibility(word.as_str()) {
                    HistoryVisibility::WorldReadable => Ok(true),
                    _ => Ok(false),
                },
                None => Err(
                    Error::Database("Invalid room history visibility event in database.".to_owned()),
                ),
            },
        }
    }
}

} // verus!
