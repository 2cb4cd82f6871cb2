use std::collections::HashMap;

use homeserver_core::error::Error;
use homeserver_core::moderation::{is_remote_server_forbidden, server_is_ours, user_is_local};
use homeserver_core::snapshot::SnapshotStore;
use homeserver_core::state_diff::CompressedStateEvent;
use homeserver_core::state_accessor::{
    decide_server_visibility, decide_user_visibility, history_visibility_of, parse_history_visibility,
    parse_membership, user_membership, user_server, user_was_invited, user_was_joined,
    visibility_from_word, membership_from_word, HistoryVisibility, Member, MembershipState,
    ServerFacts, Service, UserFacts,
};

fn content(field: &str, word: &str) -> Option<String> {
    Some(format!(r#"{{"{}":"{}"}}"#, field, word))
}

fn visibility(word: &str) -> Option<String> {
    content("history_visibility", word)
}

fn membership(word: &str) -> Option<String> {
    content("membership", word)
}

fn user_facts(currently_member: bool, history: Option<String>, member: Option<String>) -> UserFacts {
    UserFacts { currently_member, history_visibility: history, membership: member }
}

fn member(user_id: &str, word: Option<&str>) -> Member {
    Member { user_id: user_id.to_owned(), membership: word.and_then(|w| membership(w)) }
}

#[test]
fn shared_visibility_is_the_default() {
    let mut service = Service::new(10, 10);
    let outsider = user_facts(false, None, None);
    let joined = user_facts(true, None, membership("join"));
    assert!(!service.user_can_see_event("@outsider:example.org", Some(1), &outsider));
    assert!(service.user_can_see_event("@member:example.org", Some(1), &joined));
    assert!(!service.user_can_see_event("@outsider:example.org", Some(2), &outsider));
    assert!(service.user_can_see_event("@member:example.org", Some(2), &joined));
}

#[test]
fn malformed_visibility_counts_as_shared() {
    for broken in ["", "{", "[]", r#"{"history_visibility":5}"#, r#"{"visibility":"joined"}"#] {
        assert_eq!(history_visibility_of(&Some(broken.to_owned())), HistoryVisibility::Shared);
    }
    assert_eq!(history_visibility_of(&None), HistoryVisibility::Shared);
    assert_eq!(history_visibility_of(&visibility("joined")), HistoryVisibility::Joined);
    assert_eq!(history_visibility_of(&visibility("org.example.custom")), HistoryVisibility::Custom);
}

#[test]
fn world_readable_history_is_visible_to_everyone() {
    let mut service = Service::new(10, 10);
    let facts = user_facts(false, visibility("world_readable"), None);
    assert!(service.user_can_see_event("@nobody:example.org", Some(1), &facts));
    let banned = user_facts(false, visibility("world_readable"), membership("ban"));
    assert!(service.user_can_see_event("@banned:example.org", Some(1), &banned));
    let server = ServerFacts { history_visibility: visibility("world_readable"), current_members: vec![] };
    assert!(service.server_can_see_event("unknown.example.org", Some(1), &server));
    for member in [None, Some(MembershipState::Leave), Some(MembershipState::Ban)] {
        assert!(decide_user_visibility(HistoryVisibility::WorldReadable, false, member));
    }
    assert!(decide_server_visibility(HistoryVisibility::WorldReadable, &vec![]));
}

#[test]
fn events_without_a_snapshot_are_visible() {
    let mut service = Service::new(10, 10);
    let facts = user_facts(false, visibility("joined"), membership("leave"));
    assert!(service.user_can_see_event("@user:example.org", None, &facts));
    let server = ServerFacts { history_visibility: visibility("joined"), current_members: vec![] };
    assert!(service.server_can_see_event("example.org", None, &server));
    assert_eq!(service.memory_usage(), (0, 0));
}

#[test]
fn user_visibility_follows_the_policy() {
    let cases = [
        (HistoryVisibility::WorldReadable, false, Some(MembershipState::Leave), true),
        (HistoryVisibility::Shared, true, Some(MembershipState::Leave), true),
        (HistoryVisibility::Shared, false, Some(MembershipState::Join), false),
        (HistoryVisibility::Invited, false, Some(MembershipState::Invite), true),
        (HistoryVisibility::Invited, false, Some(MembershipState::Join), true),
        (HistoryVisibility::Invited, true, Some(MembershipState::Leave), false),
        (HistoryVisibility::Invited, true, Some(MembershipState::Knock), false),
        (HistoryVisibility::Invited, true, None, false),
        (HistoryVisibility::Joined, false, Some(MembershipState::Join), true),
        (HistoryVisibility::Joined, true, Some(MembershipState::Invite), false),
        (HistoryVisibility::Joined, true, Some(MembershipState::Custom), false),
        (HistoryVisibility::Custom, true, Some(MembershipState::Join), false),
    ];
    for (history, current, at_snapshot, expected) in cases {
        assert_eq!(decide_user_visibility(history, current, at_snapshot), expected);
    }
}

#[test]
fn server_visibility_follows_the_policy() {
    let none = vec![];
    let left = vec![Some(MembershipState::Leave), None, Some(MembershipState::Ban)];
    let invited = vec![Some(MembershipState::Leave), Some(MembershipState::Invite)];
    let joined = vec![Some(MembershipState::Knock), Some(MembershipState::Join)];
    assert!(decide_server_visibility(HistoryVisibility::Shared, &none));
    assert!(!decide_server_visibility(HistoryVisibility::Invited, &none));
    assert!(!decide_server_visibility(HistoryVisibility::Invited, &left));
    assert!(decide_server_visibility(HistoryVisibility::Invited, &invited));
    assert!(decide_server_visibility(HistoryVisibility::Invited, &joined));
    assert!(!decide_server_visibility(HistoryVisibility::Joined, &invited));
    assert!(decide_server_visibility(HistoryVisibility::Joined, &joined));
    assert!(!decide_server_visibility(HistoryVisibility::Custom, &joined));
}

#[test]
fn servers_see_through_their_own_current_members() {
    let facts = ServerFacts {
        history_visibility: visibility("invited"),
        current_members: vec![
            member("@a:example.org", Some("leave")),
            member("@b:other.example.org", Some("join")),
            member("@c:example.org", Some("invite")),
        ],
    };
    let mut service = Service::new(10, 10);
    assert!(service.server_can_see_event("example.org", Some(1), &facts));
    assert!(service.server_can_see_event("other.example.org", Some(1), &facts));
    assert!(!service.server_can_see_event("third.example.org", Some(1), &facts));
    let joined_only = ServerFacts { history_visibility: visibility("joined"), ..facts.clone() };
    assert!(!service.server_can_see_event("example.org", Some(2), &joined_only));
    assert!(service.server_can_see_event("other.example.org", Some(2), &joined_only));
    let shared = ServerFacts { history_visibility: None, current_members: vec![] };
    assert!(service.server_can_see_event("third.example.org", Some(3), &shared));
}

#[test]
fn asking_twice_gives_the_same_answer() {
    let mut service = Service::new(10, 10);
    let facts = user_facts(false, visibility("invited"), membership("invite"));
    let first = service.user_can_see_event("@user:example.org", Some(5), &facts);
    let second = service.user_can_see_event("@user:example.org", Some(5), &facts);
    assert_eq!(first, second);
    assert!(first);
    assert_eq!(service.cached_user_visibility("@user:example.org", 5), Some(true));
}

#[test]
fn a_cached_decision_is_given_as_it_is() {
    let mut service = Service::new(10, 10);
    let allow = user_facts(false, visibility("world_readable"), None);
    let deny = user_facts(false, visibility("joined"), None);
    assert!(service.user_can_see_event("@user:example.org", Some(5), &allow));
    assert!(service.user_can_see_event("@user:example.org", Some(5), &deny));
    assert!(!service.user_can_see_event("@user:example.org", Some(6), &deny));
    assert!(!service.user_can_see_event("@other:example.org", Some(5), &deny));
}

#[test]
fn forgetting_a_decision_and_asking_again_gives_the_same_answer() {
    let mut service = Service::new(10, 10);
    let facts = user_facts(true, None, membership("join"));
    let first = service.user_can_see_event("@user:example.org", Some(5), &facts);
    service.clear_cache();
    assert_eq!(service.cached_user_visibility("@user:example.org", 5), None);
    assert_eq!(service.user_can_see_event("@user:example.org", Some(5), &facts), first);

    let mut small = Service::new(10, 1);
    let first = small.user_can_see_event("@user:example.org", Some(5), &facts);
    let other = user_facts(false, None, None);
    assert!(!small.user_can_see_event("@other:example.org", Some(5), &other));
    assert_eq!(small.cached_user_visibility("@user:example.org", 5), None);
    assert_eq!(small.user_can_see_event("@user:example.org", Some(5), &facts), first);
}

#[test]
fn the_least_recently_used_decision_leaves_first() {
    let mut service = Service::new(2, 2);
    let facts = user_facts(true, None, None);
    service.user_can_see_event("@a:example.org", Some(1), &facts);
    service.user_can_see_event("@b:example.org", Some(1), &facts);
    assert_eq!(service.memory_usage(), (0, 2));
    assert_eq!(service.cached_user_visibility("@a:example.org", 1), Some(true));
    service.user_can_see_event("@c:example.org", Some(1), &facts);
    assert_eq!(service.memory_usage(), (0, 2));
    assert_eq!(service.cached_user_visibility("@b:example.org", 1), None);
    assert_eq!(service.cached_user_visibility("@a:example.org", 1), Some(true));
    assert_eq!(service.cached_user_visibility("@c:example.org", 1), Some(true));
}

#[test]
fn a_cache_without_room_keeps_nothing() {
    let mut service = Service::new(0, 0);
    let facts = user_facts(true, None, None);
    assert!(service.user_can_see_event("@a:example.org", Some(1), &facts));
    assert_eq!(service.memory_usage(), (0, 0));
    assert!(service.user_can_see_event("@a:example.org", Some(1), &facts));
    let server = ServerFacts { history_visibility: None, current_members: vec![] };
    assert!(service.server_can_see_event("example.org", Some(1), &server));
    assert_eq!(service.cached_server_visibility("example.org", 1), None);
}

#[test]
fn the_two_caches_are_apart() {
    let mut service = Service::new(4, 4);
    let server = ServerFacts { history_visibility: visibility("joined"), current_members: vec![] };
    assert!(!service.server_can_see_event("example.org", Some(1), &server));
    assert_eq!(service.memory_usage(), (1, 0));
    assert_eq!(service.cached_user_visibility("example.org", 1), None);
    assert_eq!(service.cached_server_visibility("example.org", 1), Some(false));
    let user = user_facts(true, None, None);
    assert!(service.user_can_see_event("example.org", Some(1), &user));
    assert_eq!(service.memory_usage(), (1, 1));
    service.clear_cache();
    assert_eq!(service.memory_usage(), (0, 0));
}

#[test]
fn state_is_visible_to_members_and_where_world_readable() {
    let service = Service::new(1, 1);
    assert!(service.user_can_see_state_events(true, &None));
    assert!(!service.user_can_see_state_events(false, &None));
    assert!(service.user_can_see_state_events(false, &visibility("world_readable")));
    assert!(!service.user_can_see_state_events(false, &visibility("shared")));
    assert!(!service.user_can_see_state_events(false, &Some("junk".to_owned())));
    assert!(service.user_can_see_state_events(true, &visibility("joined")));
}

#[test]
fn rooms_are_world_readable_only_where_they_say_so() {
    let service = Service::new(1, 1);
    assert_eq!(service.is_world_readable(&None).ok(), Some(false));
    assert_eq!(service.is_world_readable(&visibility("world_readable")).ok(), Some(true));
    assert_eq!(service.is_world_readable(&visibility("shared")).ok(), Some(false));
    assert!(matches!(service.is_world_readable(&Some("{}".to_owned())), Err(Error::Database(_))));
}

#[test]
fn words_name_visibilities_and_memberships() {
    assert_eq!(parse_history_visibility("invited"), HistoryVisibility::Invited);
    assert_eq!(parse_history_visibility("joined"), HistoryVisibility::Joined);
    assert_eq!(parse_history_visibility("shared"), HistoryVisibility::Shared);
    assert_eq!(parse_history_visibility("world_readable"), HistoryVisibility::WorldReadable);
    assert_eq!(parse_history_visibility("Shared"), HistoryVisibility::Custom);
    assert_eq!(parse_history_visibility(""), HistoryVisibility::Custom);
    assert_eq!(parse_membership("ban"), MembershipState::Ban);
    assert_eq!(parse_membership("invite"), MembershipState::Invite);
    assert_eq!(parse_membership("join"), MembershipState::Join);
    assert_eq!(parse_membership("knock"), MembershipState::Knock);
    assert_eq!(parse_membership("leave"), MembershipState::Leave);
    assert_eq!(parse_membership("joined"), MembershipState::Custom);
    assert_eq!(visibility_from_word(None), HistoryVisibility::Shared);
    assert_eq!(visibility_from_word(Some("joined".to_owned())), HistoryVisibility::Joined);
    assert_eq!(membership_from_word(None), None);
    assert_eq!(membership_from_word(Some("join".to_owned())), Some(MembershipState::Join));
}

#[test]
fn memberships_are_read_from_member_events() {
    assert_eq!(user_membership(&None), Some(MembershipState::Leave));
    assert_eq!(user_membership(&membership("join")), Some(MembershipState::Join));
    assert_eq!(user_membership(&membership("invite")), Some(MembershipState::Invite));
    assert_eq!(user_membership(&Some("{}".to_owned())), None);
    assert_eq!(user_membership(&Some("junk".to_owned())), None);
    assert!(user_was_joined(Some(MembershipState::Join)));
    assert!(!user_was_joined(Some(MembershipState::Invite)));
    assert!(!user_was_joined(None));
    assert!(user_was_invited(Some(MembershipState::Join)));
    assert!(user_was_invited(Some(MembershipState::Invite)));
    assert!(!user_was_invited(Some(MembershipState::Leave)));
    assert!(!user_was_invited(None));
}

#[test]
fn the_server_of_a_user_follows_the_first_colon() {
    assert_eq!(user_server("@user:example.org"), Some("example.org".to_owned()));
    assert_eq!(user_server("@user:example.org:8448"), Some("example.org:8448".to_owned()));
    assert_eq!(user_server("@user:"), Some(String::new()));
    assert_eq!(user_server("@user"), None);
}

#[test]
fn state_is_read_through_the_snapshot_store() {
    let service = Service::new(1, 1);
    let mut snapshots = SnapshotStore::new();
    let entry = |shortstatekey, shorteventid| CompressedStateEvent { shortstatekey, shorteventid };
    let root = snapshots.create_snapshot(None, vec![entry(1, 10), entry(2, 20)], vec![]);
    let top = snapshots.create_snapshot(Some(root), vec![entry(1, 11)], vec![entry(1, 10)]);
    let expected: HashMap<u64, u64> = [(1, 11), (2, 20)].into_iter().collect();
    assert_eq!(service.state_full_ids(&snapshots, top).ok(), Some(expected));
    assert_eq!(service.state_get_id(&snapshots, top, 1).ok(), Some(Some(11)));
    assert_eq!(service.state_get_id(&snapshots, top, 2).ok(), Some(Some(20)));
    assert_eq!(service.state_get_id(&snapshots, top, 3).ok(), Some(None));
    assert!(matches!(service.state_get_id(&snapshots, 9, 1), Err(Error::Database(_))));
    assert!(matches!(service.state_full_ids(&snapshots, 9), Err(Error::Database(_))));
}

#[test]
fn room_attributes_are_read_from_event_content() {
    let service = Service::new(1, 1);
    assert_eq!(service.get_name(&None), None);
    assert_eq!(service.get_name(&content("name", "Lobby")), Some("Lobby".to_owned()));
    assert_eq!(service.get_name(&Some("{}".to_owned())), None);
    assert_eq!(service.get_room_topic(&None).ok(), Some(None));
    assert_eq!(
        service.get_room_topic(&content("topic", "Welcome")).ok(),
        Some(Some("Welcome".to_owned()))
    );
    assert!(matches!(service.get_room_topic(&Some("{}".to_owned())), Err(Error::Database(_))));
    assert_eq!(service.guest_can_join(&None).ok(), Some(false));
    assert_eq!(service.guest_can_join(&content("guest_access", "can_join")).ok(), Some(true));
    assert_eq!(service.guest_can_join(&content("guest_access", "forbidden")).ok(), Some(false));
    assert!(matches!(service.guest_can_join(&Some("[]".to_owned())), Err(Error::Database(_))));
    assert_eq!(service.get_room_encryption(&None).ok(), Some(None));
    assert_eq!(
        service.get_room_encryption(&content("algorithm", "m.megolm.v1.aes-sha2")).ok(),
        Some(Some("m.megolm.v1.aes-sha2".to_owned()))
    );
    assert!(matches!(service.get_room_encryption(&Some("{}".to_owned())), Err(Error::Database(_))));
}

#[test]
fn servers_are_forbidden_by_the_two_lists() {
    let none: Vec<String> = vec![];
    let some = vec!["good.example.org".to_owned(), "both.example.org".to_owned()];
    let bad = vec!["bad.example.org".to_owned(), "both.example.org".to_owned()];
    assert!(!is_remote_server_forbidden(&none, &none, "any.example.org"));
    assert!(is_remote_server_forbidden(&none, &bad, "bad.example.org"));
    assert!(!is_remote_server_forbidden(&none, &bad, "good.example.org"));
    assert!(!is_remote_server_forbidden(&some, &none, "good.example.org"));
    assert!(is_remote_server_forbidden(&some, &none, "other.example.org"));
    assert!(is_remote_server_forbidden(&some, &bad, "both.example.org"));
    assert!(server_is_ours("here.example.org", "here.example.org"));
    assert!(!server_is_ours("here.example.org", "there.example.org"));
    assert!(user_is_local("here.example.org", "@user:here.example.org"));
    assert!(!user_is_local("here.example.org", "@user:there.example.org"));
    assert!(!user_is_local("here.example.org", "here.example.org"));
}
