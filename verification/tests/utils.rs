use homeserver_core::error::{panic_str, Error, PanicPayload};
use homeserver_core::filter::{url_filter_allows, AllowDenyList, CompiledRoomEventFilter, UrlFilter};
use homeserver_core::name_map::NameMap;
use homeserver_core::resolver::{Resolver, ActualDestination};
use homeserver_core::destination::FedDest;
use homeserver_core::bytes::{bytes_of_hex, hex_of};
use homeserver_core::send::{
    destination_is_literal, handle_response, prepare_request, server_host, valid_cidr_range,
    validate_destination, validate_destination_ip_literal, validate_ip,
};
use homeserver_core::string::{
    chars_of, common_prefix, joined, same_text, split_once_infallible, str_from_bytes,
    string_from_bytes, string_from_chars, EMPTY,
};

#[test]
fn common_prefix_of_words() {
    assert_eq!(common_prefix(&["interstate", "internet", "interval"]), "inter");
    assert_eq!(common_prefix(&["internet"]), "internet");
    assert_eq!(common_prefix(&["internet", "internet"]), "internet");
    assert_eq!(common_prefix(&["abc", "xyz"]), "");
    assert_eq!(common_prefix(&["abc", ""]), "");
    assert_eq!(common_prefix(&["ab", "abc", "abcd"]), "ab");
    assert_eq!(common_prefix(&[]), EMPTY);
    assert_eq!(common_prefix(&["äöü", "äöx"]), "äö");
}

#[test]
fn split_once_without_fail() {
    assert_eq!(split_once_infallible("key=value", "="), ("key", "value"));
    assert_eq!(split_once_infallible("key=value=more", "="), ("key", "value=more"));
    assert_eq!(split_once_infallible("key", "="), ("key", ""));
    assert_eq!(split_once_infallible("", "="), ("", ""));
    assert_eq!(split_once_infallible("a::b", "::"), ("a", "b"));
    assert_eq!(split_once_infallible("a:b::c", "::"), ("a:b", "c"));
    assert_eq!(split_once_infallible("abc", ""), ("", "abc"));
    assert_eq!(split_once_infallible("ab", "abc"), ("ab", ""));
    assert_eq!(split_once_infallible("é=è", "="), ("é", "è"));
    for (input, delim) in [("a=b", "="), ("aaa", "aa"), ("x", "y"), ("", ""), ("=", "=")] {
        assert_eq!(
            split_once_infallible(input, delim),
            input.split_once(delim).unwrap_or((input, ""))
        );
    }
}

#[test]
fn bytes_become_text_only_where_they_are_utf8() {
    assert_eq!(string_from_bytes(b"example.org").ok(), Some("example.org".to_owned()));
    assert_eq!(string_from_bytes("é€😀".as_bytes()).ok(), Some("é€😀".to_owned()));
    assert_eq!(string_from_bytes(b"").ok(), Some(String::new()));
    assert!(matches!(string_from_bytes(b"\xff"), Err(Error::Utf8)));
    assert!(matches!(string_from_bytes(b"ab\xc3"), Err(Error::Utf8)));
    assert_eq!(str_from_bytes(b"abc").ok(), Some("abc"));
    assert!(matches!(str_from_bytes(b"\xc0\x80"), Err(Error::Utf8)));
}

#[test]
fn text_helpers() {
    assert_eq!(chars_of("aé"), vec!['a', 'é']);
    assert_eq!(string_from_chars(&vec!['a', 'b', 'c'], 1, 3), "bc");
    assert_eq!(string_from_chars(&vec!['a', 'b', 'c'], 1, 1), "");
    assert_eq!(joined("ab", "cd"), "abcd");
    assert_eq!(joined("", ""), "");
    assert!(same_text("abc", "abc"));
    assert!(!same_text("abc", "abd"));
    assert!(!same_text("abc", "ab"));
}

#[test]
fn errors_that_carry_a_panic() {
    let caught = Error::from_panic(PanicPayload::Message("boom".to_owned()));
    assert!(caught.is_panic());
    assert!(matches!(&caught, Error::Panic(text, _) if text == "boom"));
    assert_eq!(caught.panic_str(), Some("boom".to_owned()));

    let opaque = Error::from_panic(PanicPayload::Opaque);
    assert!(matches!(&opaque, Error::Panic(text, PanicPayload::Opaque) if text.is_empty()));
    assert!(matches!(opaque.into_panic(), PanicPayload::Opaque));

    let any = Error::PanicAny(PanicPayload::Message("later".to_owned()));
    assert!(any.is_panic());
    assert_eq!(any.panic_str(), Some("later".to_owned()));
    assert_eq!(panic_str(&PanicPayload::Message("text".to_owned())), "text");
    assert_eq!(panic_str(&PanicPayload::Opaque), "");
}

#[test]
fn errors_that_carry_none() {
    for error in [
        Error::Utf8,
        Error::Database("missing".to_owned()),
        Error::Config("off".to_owned()),
        Error::BadServerResponse("bad".to_owned()),
        Error::Other("other".to_owned()),
    ] {
        assert!(!error.is_panic());
    }
    assert_eq!(Error::Database("missing".to_owned()).panic_str(), None);
    match Error::Config("off".to_owned()).into_panic() {
        PanicPayload::Failure(inner) => assert!(matches!(*inner, Error::Config(text) if text == "off")),
        _ => panic!("the error itself is the payload"),
    }
}

#[test]
fn tables_by_name() {
    let mut table: NameMap<u32> = NameMap::new();
    assert!(!table.contains_key("a"));
    assert_eq!(table.get("a"), None);
    table.insert("a".to_owned(), 1);
    table.insert("b".to_owned(), 2);
    table.insert("a".to_owned(), 3);
    assert_eq!(table.get("a"), Some(&3));
    assert_eq!(table.get("b"), Some(&2));
    assert!(table.contains_key("b"));
    assert_eq!(table.take("a"), Some(3));
    assert_eq!(table.get("a"), None);
    assert_eq!(table.take("a"), None);
    assert_eq!(table.get("b"), Some(&2));
}

fn names(list: &[&str]) -> Vec<String> {
    list.iter().map(|name| (*name).to_owned()).collect()
}

#[test]
fn the_denylist_takes_precedence() {
    let list = AllowDenyList::new(Some(names(&["a", "b", "c"])), names(&["b", "x"]));
    assert!(list.allowed("a"));
    assert!(!list.allowed("b"));
    assert!(list.allowed("c"));
    assert!(!list.allowed("x"));
    assert!(!list.allowed("y"));
    assert!(matches!(&list, AllowDenyList::Allow(kept) if kept == &names(&["a", "c"])));
}

#[test]
fn without_an_allowlist_everything_else_is_allowed() {
    let list = AllowDenyList::new(None, names(&["b"]));
    assert!(list.allowed("a"));
    assert!(!list.allowed("b"));
    assert!(matches!(&list, AllowDenyList::Deny(deny) if deny == &names(&["b"])));
    let allow = names(&["a"]);
    let deny = names(&[]);
    let sliced = AllowDenyList::from_slices(Some(&allow), &deny);
    assert!(sliced.allowed("a"));
    assert!(!sliced.allowed("b"));
    let open = AllowDenyList::from_slices(None, &deny);
    assert!(open.allowed("anything"));
    let closed = AllowDenyList::from_slices(Some(&deny), &deny);
    assert!(!closed.allowed("anything"));
}

#[test]
fn requests_are_refused_before_they_are_sent() {
    assert!(valid_cidr_range(&vec![]));
    assert!(valid_cidr_range(&vec![false, false]));
    assert!(!valid_cidr_range(&vec![false, true]));
    assert!(validate_ip(true).is_ok());
    assert!(matches!(
        validate_ip(false),
        Err(Error::BadServerResponse(text)) if text == "Not allowed to send requests to this IP"
    ));
    assert!(validate_destination("there.example.org", "here.example.org", false, None).is_ok());
    assert!(validate_destination("10.0.0.1", "here.example.org", true, Some(true)).is_ok());
    assert!(matches!(
        validate_destination("10.0.0.1", "here.example.org", true, Some(false)),
        Err(Error::BadServerResponse(text)) if text == "Not allowed to send requests to this IP"
    ));
    assert!(matches!(
        validate_destination("[::1]", "here.example.org", true, None),
        Err(Error::BadServerResponse(text)) if text == "Invalid IP address"
    ));
    assert!(matches!(
        validate_destination("here.example.org", "here.example.org", false, None),
        Err(Error::Config(text)) if text == "Won't send federation request to ourselves"
    ));
    assert!(validate_destination_ip_literal(Some(true)).is_ok());
    assert!(validate_destination_ip_literal(Some(false)).is_err());
    assert!(validate_destination_ip_literal(None).is_err());
    assert!(prepare_request(true, "there.example.org", "here.example.org", false, None).is_ok());
    assert!(matches!(
        prepare_request(false, "there.example.org", "here.example.org", false, None),
        Err(Error::Config(text)) if text == "Federation is disabled."
    ));
    assert!(matches!(
        prepare_request(true, "here.example.org", "here.example.org", false, None),
        Err(Error::Config(_))
    ));
}

#[test]
fn hosts_are_server_names_without_their_port() {
    assert_eq!(server_host("example.org"), "example.org");
    assert_eq!(server_host("example.org:8448"), "example.org");
    assert_eq!(server_host("10.0.0.1:80"), "10.0.0.1");
    assert_eq!(server_host("[::1]:8448"), "[::1]");
    assert_eq!(server_host("[::1]"), "[::1]");
    assert_eq!(server_host(""), "");
    assert!(destination_is_literal("[::1]:8448", false));
    assert!(destination_is_literal("10.0.0.1", true));
    assert!(!destination_is_literal("example.org", false));
    assert!(!destination_is_literal("", false));
}

#[test]
fn bytes_are_written_in_hexadecimal() {
    assert_eq!(hex_of(&[]), "");
    assert_eq!(hex_of(&[0]), "00");
    assert_eq!(hex_of(&[0x0a, 0xff, 0x10, 0x99]), "0aff1099");
    assert_eq!(bytes_of_hex(""), Some(vec![]));
    assert_eq!(bytes_of_hex("0aff1099"), Some(vec![0x0a, 0xff, 0x10, 0x99]));
    assert_eq!(bytes_of_hex("0AFF"), None);
    assert_eq!(bytes_of_hex("0af"), None);
    assert_eq!(bytes_of_hex("0g"), None);
    assert_eq!(bytes_of_hex("zz00"), None);
    for byte in 0..=255u8 {
        assert_eq!(bytes_of_hex(&hex_of(&[byte, byte ^ 0x5a])), Some(vec![byte, byte ^ 0x5a]));
    }
}

fn fresh() -> ActualDestination {
    Resolver::resolved(
        FedDest::Named("there.example.org".to_owned(), ":8448".to_owned()),
        "there.example.org:8448".to_owned(),
    )
}

#[test]
fn answers_decide_what_is_remembered() {
    let mut resolver = Resolver::new();
    assert!(matches!(
        handle_response(&mut resolver, "there.example.org", &fresh(), 404, true),
        Err(Error::Federation(server, 404)) if server == "there.example.org"
    ));
    assert!(resolver.get_actual_destination("there.example.org").is_none());
    assert!(matches!(
        handle_response(&mut resolver, "there.example.org", &fresh(), 200, false),
        Err(Error::BadServerResponse(text)) if text == "Server returned bad 200 response."
    ));
    assert!(resolver.get_actual_destination("there.example.org").is_none());
    assert!(handle_response(&mut resolver, "there.example.org", &fresh(), 200, true).is_ok());
    let cached = resolver.get_actual_destination("there.example.org").unwrap();
    assert!(cached.cached);
    assert_eq!(cached.string, "https://there.example.org:8448");
    assert!(handle_response(&mut resolver, "other.example.org", &cached, 204, true).is_ok());
    assert!(resolver.get_actual_destination("other.example.org").is_none());
}

#[test]
fn room_event_filters_test_rooms_senders_and_urls() {
    let rooms = names(&["!a:example.org", "!b:example.org"]);
    let not_rooms = names(&["!b:example.org"]);
    let not_senders = names(&["@spam:example.org"]);
    let filter = CompiledRoomEventFilter::try_from(
        Some(&rooms),
        &not_rooms,
        None,
        &not_senders,
        Some(UrlFilter::EventsWithUrl),
    );
    assert!(filter.room_allowed("!a:example.org"));
    assert!(!filter.room_allowed("!b:example.org"));
    assert!(!filter.room_allowed("!c:example.org"));
    let with_url = r#"{"body":"cat","url":"mxc://example.org/cat"}"#;
    let without_url = r#"{"body":"cat"}"#;
    let odd_url = r#"{"body":"cat","url":5}"#;
    assert!(filter.pdu_event_allowed("@user:example.org", with_url));
    assert!(!filter.pdu_event_allowed("@user:example.org", without_url));
    assert!(!filter.pdu_event_allowed("@user:example.org", odd_url));
    assert!(!filter.pdu_event_allowed("@spam:example.org", with_url));

    let none: Vec<String> = vec![];
    let without = CompiledRoomEventFilter::try_from(None, &none, None, &none, Some(UrlFilter::EventsWithoutUrl));
    assert!(!without.pdu_event_allowed("@user:example.org", with_url));
    assert!(without.pdu_event_allowed("@user:example.org", without_url));
    let open = CompiledRoomEventFilter::try_from(None, &none, None, &none, None);
    assert!(open.pdu_event_allowed("@user:example.org", with_url));
    assert!(open.pdu_event_allowed("@user:example.org", "not json"));
    assert!(url_filter_allows(None, false));
    assert!(url_filter_allows(Some(UrlFilter::EventsWithUrl), true));
    assert!(!url_filter_allows(Some(UrlFilter::EventsWithoutUrl), true));
}
