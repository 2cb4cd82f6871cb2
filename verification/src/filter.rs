//! Testing values against an allowlist and a denylist.

use vstd::prelude::*;

use crate::json::{json_text_field, text_field};
use crate::string::{contains_name, has_name};

verus! {

/// Structure for testing against an allowlist and a denylist with a single
/// lookup.
///
/// The denylist takes precedence (an item included in both the allowlist and
/// the denylist is denied).
pub enum AllowDenyList {
    Allow(Vec<String>),
    Deny(Vec<String>),
}

impl AllowDenyList {
    /// Whether the list lets `value` through.
    pub open spec fn lets(self, value: Seq<char>) -> bool {
        match self {
            AllowDenyList::Allow(allow) => has_name(allow@, value),
            AllowDenyList::Deny(deny) => !has_name(deny@, value),
        }
    }

    /// Whether an allowlist (none: everything is allowed) and a denylist
    /// together let `value` through.
    pub open spec fn passes(allow: Option<Seq<String>>, deny: Seq<String>, value: Seq<char>) -> bool {
        (allow is Some ==> has_name(allow->0, value)) && !has_name(deny, value)
    }

    /// Makes one list out of an allowlist and a denylist.
    pub fn new(allow: Option<Vec<String>>, deny: Vec<String>) -> (list: AllowDenyList)
        ensures
            forall|value: Seq<char>|
                list.lets(value) == Self::passes(
                    match allow {
                        Some(allow) => Some(allow@),
                        None => None,
                    },
                    deny@,
                    value,
                ),
    {
        match allow {
            Some(allow) => {
                let mut kept: Vec<String> = Vec::new();
                let mut i: usize = 0;
                while i < allow.len()
                    invariant
                        i <= allow@.len(),
                        forall|value: Seq<char>|
                            has_name(kept@, value) == (has_name(allow@.take(i as int), value)
                                && !has_name(deny@, value)),
                    decreases allow@.len() - i,
                {
                    let ghost before = kept@;
                    let ghost seen = allow@.take(i as int);
                    let ghost next = allow@.take(i + 1);
                    let denied = contains_name(deny.as_slice(), allow[i].as_str());
                    if !denied {
                        kept.push(allow[i].clone());
                    }
                    proof {
                        assert forall|value: Seq<char>| has_name(kept@, value) == (has_name(
                            next,
                            value,
                        ) && !has_name(deny@, value)) by {
                            if has_name(next, value) {
                                let k = choose|k: int|
                                    0 <= k < next.len() && (#[trigger] next[k])@ == value;
                                if k < i {
                                    assert(seen[k] == next[k]);
                                    assert(has_name(seen, value));
                                }
                            }
                            if has_name(seen, value) {
                                let k = choose|k: int|
                                    0 <= k < seen.len() && (#[trigger] seen[k])@ == value;
                                assert(next[k] == seen[k]);
                            }
                            if has_name(before, value) {
                                let k = choose|k: int|
                                    0 <= k < before.len() && (#[trigger] before[k])@ == value;
                                assert(kept@[k] == before[k]);
                            }
                            if has_name(kept@, value) && !has_name(before, value) {
                                let k = choose|k: int|
                                    0 <= k < kept@.len() && (#[trigger] kept@[k])@ == value;
                                assert(k == before.len());
                                assert(next[i as int]@ == value);
                            }
                            if !denied && allow@[i as int]@ == value {
                                assert(kept@[before.len() as int]@ == value);
                                assert(next[i as int]@ == value);
                            }
                        }
                    }
                    i = i + 1;
                }
                assert(allow@.take(allow@.len() as int) =~= allow@);
                AllowDenyList::Allow(kept)
            },
            None => AllowDenyList::Deny(deny),
        }
    }

    /// Makes one list out of an allowlist and a denylist given as slices.
    pub fn from_slices(allow: Option<&[String]>, deny: &[String]) -> (list: AllowDenyList)
        ensures
            forall|value: Seq<char>|
                list.lets(value) == Self::passes(
                    match allow {
                        Some(allow) => Some(allow@),
                        None => None,
                    },
                    deny@,
                    value,
                ),
    {
        let denied = copy_names(deny);
        match allow {
            Some(allow) => {
                let allowed = copy_names(allow);
                AllowDenyList::new(Some(allowed), denied)
            },
            None => AllowDenyList::new(None, denied),
        }
    }

    /// Whether the list lets `value` through.
    pub fn allowed(&self, value: &str) -> (allowed: bool)
        ensures
            allowed == self.lets(value@),
    {
        match self {
            AllowDenyList::Allow(allow) => contains_name(allow.as_slice(), value),
            AllowDenyList::Deny(deny) => !contains_name(deny.as_slice(), value),
        }
    }
}

/// Which events a filter lets through by their `url` field.
#[derive(Clone, Copy, Debug, PartialEq, Eq)]
pub enum UrlFilter {
    /// Only events without a URL.
    EventsWithoutUrl,
    /// Only events with a URL.
    EventsWithUrl,
}

/// The parts of a room event filter that are tested event by event.
pub struct CompiledRoomEventFilter {
    rooms: AllowDenyList,
    senders: AllowDenyList,
    url_filter: Option<UrlFilter>,
}

/// Whether a URL filter lets an event through, given whether the event has
/// a URL.
pub open spec fn url_passes(filter: Option<UrlFilter>, has_url: bool) -> bool {
    match filter {
        None => true,
        Some(UrlFilter::EventsWithoutUrl) => !has_url,
        Some(UrlFilter::EventsWithUrl) => has_url,
    }
}

/// Decides whether a URL filter lets an event through.
pub fn url_filter_allows(filter: Option<UrlFilter>, has_url: bool) -> (allowed: bool)
    ensures
        allowed == url_passes(filter, has_url),
{
    match filter {
        None => true,
        Some(UrlFilter::EventsWithoutUrl) => !has_url,
        Some(UrlFilter::EventsWithUrl) => has_url,
    }
}

impl CompiledRoomEventFilter {
    /// Whether the filter lets events of `room` through.
    pub closed spec fn lets_room(&self, room: Seq<char>) -> bool {
        self.rooms.lets(room)
    }

    /// Whether the filter lets events of `sender` through.
    pub closed spec fn lets_sender(&self, sender: Seq<char>) -> bool {
        self.senders.lets(sender)
    }

    /// The URL filter.
    pub closed spec fn url_filter(&self) -> Option<UrlFilter> {
        self.url_filter
    }

    /// Compiles a filter from its lists: the allowed and the denied rooms,
    /// the allowed and the denied senders, and the URL filter.
    pub fn try_from(
        rooms: Option<&[String]>,
        not_rooms: &[String],
        senders: Option<&[String]>,
        not_senders: &[String],
        url_filter: Option<UrlFilter>,
    ) -> (filter: CompiledRoomEventFilter)
        ensures
            forall|room: Seq<char>|
                filter.lets_room(room) == AllowDenyList::passes(
                    match rooms {
                        Some(rooms) => Some(rooms@),
                        None => None,
                    },
                    not_rooms@,
                    room,
                ),
            forall|sender: Seq<char>|
                filter.lets_sender(sender) == AllowDenyList::passes(
                    match senders {
                        Some(senders) => Some(senders@),
                        None => None,
                    },
                    not_senders@,
                    sender,
                ),
            filter.url_filter() == url_filter,
    {
        CompiledRoomEventFilter {
            rooms: AllowDenyList::from_slices(rooms, not_rooms),
            senders: AllowDenyList::from_slices(senders, not_senders),
            url_filter,
        }
    }

    /// Returns `true` if a room is allowed by the `rooms` and `not_rooms`
    /// fields.
    pub fn room_allowed(&self, room_id: &str) -> (allowed: bool)
        ensures
            allowed == self.lets_room(room_id@),
    {
        self.rooms.allowed(room_id)
    }

    /// Returns `true` if an event is allowed by the filter, by its sender
    /// and, given its content, by whether it holds text under `url`.
    ///
    /// This does *not* check whether the event's room is allowed.
    pub fn pdu_event_allowed(&self, sender: &str, content: &str) -> (allowed: bool)
        ensures
            allowed == (self.lets_sender(sender@) && url_passes(
                self.url_filter(),
                json_text_field(content@, "url"@) is Some,
            )),
    {
        self.senders.allowed(sender) && self.allowed_by_url_filter(content)
    }

    fn allowed_by_url_filter(&self, content: &str) -> (allowed: bool)
        ensures
            allowed == url_passes(self.url_filter(), json_text_field(content@, "url"@) is Some),
    {
        if self.url_filter.is_none() {
            return true;
        }
        let url = text_field(content, "url");
        url_filter_allows(self.url_filter, url.is_some())
    }
}

fn copy_names(names: &[String]) -> (copy: Vec<String>)
    ensures
        copy@ == names@,
{
    let mut copy: Vec<String> = Vec::new();
    let mut i: usize = 0;
    while i < names.len()
        invariant
            i <= names@.len(),
            copy@ =~= names@.take(i as int),
        decreases names@.len() - i,
    {
        copy.push(names[i].clone());
        i = i + 1;
    }
    assert(names@.take(names@.len() as int) =~= names@);
    copy
}

} // verus!
