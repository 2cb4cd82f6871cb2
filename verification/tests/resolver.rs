use homeserver_core::destination::{FedDest, IpLiteral, ParsedLiteral, SocketLiteral};
use homeserver_core::resolver::{
    choose_delegate, handle_resolve_error, host_header, port_complement, split_at_colon,
    srv_query_name, trim_trailing_dots, well_known_delegate, well_known_request, Action, Event,
    HttpReply, LookupError, Resolution, ResolveErrorKind, Resolver, SrvRecord,
};

fn ip(text: &str) -> IpLiteral {
    IpLiteral { text: text.to_owned(), v6: text.contains(':') }
}

fn socket(address: &str, port: u16) -> SocketLiteral {
    SocketLiteral { ip: ip(address), port }
}

/// How the texts of these tests read as addresses.
fn read_literal(text: &str) -> ParsedLiteral {
    let none = ParsedLiteral { socket: None, ip: None };
    match text {
        "1.1.1.1" | "10.0.0.1" | "1.2.3.4" | "::1" => {
            ParsedLiteral { socket: None, ip: Some(ip(text)) }
        },
        "10.0.0.1:8448" => ParsedLiteral { socket: Some(socket("10.0.0.1", 8448)), ip: None },
        "1.2.3.4:80" => ParsedLiteral { socket: Some(socket("1.2.3.4", 80)), ip: None },
        "[dead::beef]:8933" => {
            ParsedLiteral { socket: Some(socket("dead::beef", 8933)), ip: None }
        },
        "[::1]:80" => ParsedLiteral { socket: Some(socket("::1", 80)), ip: None },
        _ => none,
    }
}

fn reply(status: u16, body: &str) -> Event {
    Event::WellKnown(Some(HttpReply { status, body: body.to_owned() }))
}

fn failure(kind: ResolveErrorKind) -> LookupError {
    LookupError { kind, text: format!("{:?}", kind) }
}

fn begin(resolver: &mut Resolver, name: &str) -> (Resolution, Action) {
    let (state, action) = Resolver::begin(name);
    assert_eq!(action, Action::ReadLiteral(name.to_owned()));
    resolver.advance(state, Event::Literal(read_literal(name)))
}

#[test]
fn delegation_with_service_record_follows_the_fallback_order() {
    let mut resolver = Resolver::new();
    let (state, action) = begin(&mut resolver, "example.org");
    assert_eq!(action, Action::LookupIp("example.org".to_owned()));
    let (state, action) = resolver.advance(state, Event::Addresses(Ok(vec![ip("192.0.2.1")])));
    assert_eq!(
        action,
        Action::FetchWellKnown("https://example.org/.well-known/matrix/server".to_owned())
    );
    let (state, action) =
        resolver.advance(state, reply(200, r#"{"m.server":"deleg.example.org"}"#));
    assert_eq!(action, Action::ReadLiteral("deleg.example.org".to_owned()));
    let (state, action) =
        resolver.advance(state, Event::Literal(read_literal("deleg.example.org")));
    assert_eq!(action, Action::LookupSrv("_matrix-fed._tcp.deleg.example.org".to_owned()));
    let records = vec![SrvRecord { target: "target.example.org.".to_owned(), port: 9001 }];
    let (state, action) = resolver.advance(state, Event::Service(Ok(records)));
    assert_eq!(action, Action::LookupIp("target.example.org".to_owned()));
    let (state, action) = resolver.advance(state, Event::Addresses(Ok(vec![ip("198.51.100.7")])));
    assert_eq!(action, Action::ReadLiteral("deleg.example.org:9001".to_owned()));
    let (state, action) =
        resolver.advance(state, Event::Literal(read_literal("deleg.example.org:9001")));
    assert!(state.is_finished());
    match action {
        Action::Done(dest, host) => {
            assert_eq!(
                dest,
                FedDest::Named("deleg.example.org".to_owned(), ":9001".to_owned())
            );
            assert_eq!(dest.port(), Some(9001));
            assert_eq!(dest.duplicate().into_uri_string(), "deleg.example.org:9001");
            assert_eq!(dest.into_https_string(), "https://deleg.example.org:9001");
            assert_eq!(host, "deleg.example.org:9001");
        },
        other => panic!("not resolved: {:?}", other),
    }
    let connect = resolver.get_override("deleg.example.org").unwrap();
    assert_eq!(connect.ips, vec![ip("198.51.100.7")]);
    assert_eq!(connect.port, 9001);
    let first = resolver.get_override("example.org").unwrap();
    assert_eq!(first.ips, vec![ip("192.0.2.1")]);
    assert_eq!(first.port, 8448);
    assert!(resolver.get_override("target.example.org").is_none());
}

#[test]
fn literal_addresses_resolve_at_once() {
    let mut resolver = Resolver::new();
    let (state, action) = begin(&mut resolver, "1.1.1.1");
    assert!(state.is_finished());
    assert_eq!(
        action,
        Action::Done(
            FedDest::Literal(socket("1.1.1.1", 8448)),
            "1.1.1.1:8448".to_owned()
        )
    );
    let (state, action) = begin(&mut resolver, "[dead::beef]:8933");
    assert!(state.is_finished());
    assert_eq!(
        action,
        Action::Done(
            FedDest::Literal(socket("dead::beef", 8933)),
            "[dead::beef]:8933".to_owned()
        )
    );
}

#[test]
fn explicit_ports_skip_delegation() {
    let mut resolver = Resolver::new();
    let (state, action) = begin(&mut resolver, "example.org:1337");
    assert_eq!(action, Action::LookupIp("example.org".to_owned()));
    let (state, action) = resolver.advance(state, Event::Addresses(Ok(vec![ip("192.0.2.9")])));
    assert!(state.is_finished());
    assert_eq!(
        action,
        Action::Done(
            FedDest::Named("example.org".to_owned(), ":1337".to_owned()),
            "example.org:1337".to_owned()
        )
    );
    let connect = resolver.get_override("example.org").unwrap();
    assert_eq!(connect.ips, vec![ip("192.0.2.9")]);
    assert_eq!(connect.port, 1337);
}

#[test]
fn names_with_an_override_fetch_the_well_known_document_at_once() {
    let mut resolver = Resolver::new();
    let (state, _) = begin(&mut resolver, "example.org");
    let (_, action) = resolver.advance(state, Event::Addresses(Ok(vec![ip("192.0.2.1")])));
    assert!(matches!(action, Action::FetchWellKnown(_)));
    let (_, action) = begin(&mut resolver, "example.org");
    assert_eq!(
        action,
        Action::FetchWellKnown("https://example.org/.well-known/matrix/server".to_owned())
    );
}

fn to_service_lookup(resolver: &mut Resolver, name: &str, document: Event) -> Resolution {
    let (state, _) = begin(resolver, name);
    let (state, _) = resolver.advance(state, Event::Addresses(Ok(vec![ip("192.0.2.1")])));
    let (state, action) = resolver.advance(state, document);
    assert_eq!(action, Action::LookupSrv(format!("_matrix-fed._tcp.{}", name)));
    state
}

#[test]
fn no_delegation_falls_back_to_service_records() {
    let mut resolver = Resolver::new();
    let state = to_service_lookup(&mut resolver, "example.org", Event::WellKnown(None));
    let records = vec![
        SrvRecord { target: "first.example.org.".to_owned(), port: 8000 },
        SrvRecord { target: "second.example.org.".to_owned(), port: 8001 },
    ];
    let (state, action) = resolver.advance(state, Event::Service(Ok(records)));
    assert_eq!(action, Action::LookupIp("first.example.org".to_owned()));
    let (state, action) = resolver.advance(state, Event::Addresses(Ok(vec![ip("203.0.113.5")])));
    assert!(state.is_finished());
    assert_eq!(
        action,
        Action::Done(
            FedDest::Named("example.org".to_owned(), ":8000".to_owned()),
            "example.org:8448".to_owned()
        )
    );
    let connect = resolver.get_override("example.org").unwrap();
    assert_eq!(connect.ips, vec![ip("203.0.113.5")]);
    assert_eq!(connect.port, 8000);
}

#[test]
fn the_legacy_service_name_is_tried_second() {
    let mut resolver = Resolver::new();
    let state = to_service_lookup(&mut resolver, "example.org", reply(404, ""));
    let (state, action) =
        resolver.advance(state, Event::Service(Err(failure(ResolveErrorKind::NoRecordsFound))));
    assert_eq!(action, Action::LookupSrv("_matrix._tcp.example.org".to_owned()));
    let records = vec![SrvRecord { target: "old.example.org".to_owned(), port: 7000 }];
    let (_, action) = resolver.advance(state, Event::Service(Ok(records)));
    assert_eq!(action, Action::LookupIp("old.example.org".to_owned()));
}

#[test]
fn an_answer_without_records_counts_as_no_record() {
    let mut resolver = Resolver::new();
    let state = to_service_lookup(&mut resolver, "example.org", Event::WellKnown(None));
    let (_, action) = resolver.advance(state, Event::Service(Ok(Vec::new())));
    assert_eq!(action, Action::LookupSrv("_matrix._tcp.example.org".to_owned()));
}

#[test]
fn without_any_record_the_name_itself_is_used() {
    let mut resolver = Resolver::new();
    let state = to_service_lookup(&mut resolver, "example.org", Event::WellKnown(None));
    let (state, _) =
        resolver.advance(state, Event::Service(Err(failure(ResolveErrorKind::NoRecordsFound))));
    let (state, action) =
        resolver.advance(state, Event::Service(Err(failure(ResolveErrorKind::Timeout))));
    assert_eq!(action, Action::LookupIp("example.org".to_owned()));
    let (state, action) = resolver.advance(state, Event::Addresses(Ok(vec![ip("192.0.2.44")])));
    assert!(state.is_finished());
    assert_eq!(
        action,
        Action::Done(
            FedDest::Named("example.org".to_owned(), ":8448".to_owned()),
            "example.org:8448".to_owned()
        )
    );
    assert_eq!(resolver.get_override("example.org").unwrap().ips, vec![ip("192.0.2.44")]);
}

#[test]
fn delegation_to_a_literal_address() {
    let mut resolver = Resolver::new();
    let (state, _) = begin(&mut resolver, "example.org");
    let (state, _) = resolver.advance(state, Event::Addresses(Ok(vec![ip("192.0.2.1")])));
    let (state, action) = resolver.advance(state, reply(200, r#"{"m.server":"10.0.0.1"}"#));
    assert_eq!(action, Action::ReadLiteral("10.0.0.1".to_owned()));
    let (state, action) = resolver.advance(state, Event::Literal(read_literal("10.0.0.1")));
    assert_eq!(action, Action::ReadLiteral("10.0.0.1:8448".to_owned()));
    let (state, action) = resolver.advance(state, Event::Literal(read_literal("10.0.0.1:8448")));
    assert!(state.is_finished());
    assert_eq!(
        action,
        Action::Done(
            FedDest::Literal(socket("10.0.0.1", 8448)),
            "10.0.0.1:8448".to_owned()
        )
    );
}

#[test]
fn delegation_to_a_host_with_a_port() {
    let mut resolver = Resolver::new();
    let (state, _) = begin(&mut resolver, "example.org");
    let (state, _) = resolver.advance(state, Event::Addresses(Ok(vec![ip("192.0.2.1")])));
    let (state, _) = resolver.advance(state, reply(200, r#"{"m.server":"deleg.example.org:444"}"#));
    let (state, action) =
        resolver.advance(state, Event::Literal(read_literal("deleg.example.org:444")));
    assert_eq!(action, Action::LookupIp("deleg.example.org".to_owned()));
    let (state, action) = resolver.advance(state, Event::Addresses(Ok(vec![ip("192.0.2.2")])));
    assert_eq!(action, Action::ReadLiteral("deleg.example.org:444".to_owned()));
    let (_, action) =
        resolver.advance(state, Event::Literal(read_literal("deleg.example.org:444")));
    assert_eq!(
        action,
        Action::Done(
            FedDest::Named("deleg.example.org".to_owned(), ":444".to_owned()),
            "deleg.example.org:444".to_owned()
        )
    );
    assert_eq!(resolver.get_override("deleg.example.org").unwrap().port, 444);
}

#[test]
fn delegation_without_records_uses_the_delegated_host() {
    let mut resolver = Resolver::new();
    let (state, _) = begin(&mut resolver, "example.org");
    let (state, _) = resolver.advance(state, Event::Addresses(Ok(vec![ip("192.0.2.1")])));
    let (state, _) = resolver.advance(state, reply(200, r#"{"m.server":"deleg.example.org"}"#));
    let (state, _) = resolver.advance(state, Event::Literal(read_literal("deleg.example.org")));
    let (state, action) =
        resolver.advance(state, Event::Service(Err(failure(ResolveErrorKind::NoRecordsFound))));
    assert_eq!(action, Action::LookupSrv("_matrix._tcp.deleg.example.org".to_owned()));
    let (state, action) =
        resolver.advance(state, Event::Service(Err(failure(ResolveErrorKind::NoRecordsFound))));
    assert_eq!(action, Action::LookupIp("deleg.example.org".to_owned()));
    let (state, _) = resolver.advance(state, Event::Addresses(Ok(vec![ip("192.0.2.3")])));
    let (_, action) =
        resolver.advance(state, Event::Literal(read_literal("deleg.example.org:8448")));
    assert_eq!(
        action,
        Action::Done(
            FedDest::Named("deleg.example.org".to_owned(), ":8448".to_owned()),
            "deleg.example.org:8448".to_owned()
        )
    );
}

#[test]
fn io_failures_end_the_resolution() {
    let mut resolver = Resolver::new();
    let (state, _) = begin(&mut resolver, "example.org");
    let (state, action) = resolver.advance(
        state,
        Event::Addresses(Err(LookupError {
            kind: ResolveErrorKind::Io,
            text: "io error: resolver unreachable".to_owned(),
        })),
    );
    assert!(state.is_finished());
    assert_eq!(action, Action::Failed("io error: resolver unreachable".to_owned()));
    assert!(resolver.get_override("example.org").is_none());

    let state = to_service_lookup(&mut resolver, "other.example.org", Event::WellKnown(None));
    let (state, action) =
        resolver.advance(state, Event::Service(Err(failure(ResolveErrorKind::Io))));
    assert!(state.is_finished());
    assert_eq!(action, Action::Failed("Io".to_owned()));
}

#[test]
fn other_lookup_failures_are_passed_over() {
    for kind in [
        ResolveErrorKind::Message,
        ResolveErrorKind::Msg,
        ResolveErrorKind::NoConnections,
        ResolveErrorKind::NoRecordsFound,
        ResolveErrorKind::Proto,
        ResolveErrorKind::Timeout,
    ] {
        assert_eq!(handle_resolve_error(&failure(kind)), Ok(()));
        let mut resolver = Resolver::new();
        let (state, _) = begin(&mut resolver, "example.org");
        let (_, action) = resolver.advance(state, Event::Addresses(Err(failure(kind))));
        assert!(matches!(action, Action::FetchWellKnown(_)));
        assert!(resolver.get_override("example.org").is_none());
    }
    assert_eq!(handle_resolve_error(&failure(ResolveErrorKind::Io)), Err("Io".to_owned()));
}

#[test]
fn events_that_answer_nothing_fail() {
    let mut resolver = Resolver::new();
    let (state, _) = Resolver::begin("example.org");
    let (state, action) = resolver.advance(state, Event::WellKnown(None));
    assert!(state.is_finished());
    assert_eq!(action, Action::Failed("event does not answer the pending request".to_owned()));
    let (_, action) = resolver.advance(state, Event::Literal(read_literal("example.org")));
    assert_eq!(action, Action::Failed("event does not answer the pending request".to_owned()));
}

#[test]
fn well_known_documents_delegate_only_in_the_expected_form() {
    let some = |status: u16, body: &str| {
        well_known_delegate(&Some(HttpReply { status, body: body.to_owned() }))
    };
    assert_eq!(some(200, r#"{"m.server":"deleg.example.org"}"#), Some("deleg.example.org".to_owned()));
    assert_eq!(some(299, r#"{"m.server":"deleg.example.org:443"}"#), Some("deleg.example.org:443".to_owned()));
    assert_eq!(some(200, r#"{"m.server":"[::1]:443", "x": 1}"#), Some("[::1]:443".to_owned()));
    assert_eq!(some(404, r#"{"m.server":"deleg.example.org"}"#), None);
    assert_eq!(some(199, r#"{"m.server":"deleg.example.org"}"#), None);
    assert_eq!(some(300, r#"{"m.server":"deleg.example.org"}"#), None);
    assert_eq!(some(200, ""), None);
    assert_eq!(some(200, "not json"), None);
    assert_eq!(some(200, r#"["m.server"]"#), None);
    assert_eq!(some(200, r#"{"m.server":5}"#), None);
    assert_eq!(some(200, r#"{"server":"deleg.example.org"}"#), None);
    assert_eq!(some(200, r#"{"m.server":""}"#), None);
    assert_eq!(some(200, r#"{"m.server":"not a name"}"#), None);
    assert_eq!(some(200, r#"{"m.server":"host:port"}"#), None);
    assert_eq!(well_known_delegate(&None), None);
}

#[test]
fn well_known_documents_have_a_size_limit() {
    let padding = " ".repeat(12288 - 32);
    let body = format!(r#"{{"m.server":"deleg.example.org"}}{}"#, padding);
    assert_eq!(body.len(), 12288);
    assert_eq!(well_known_delegate(&Some(HttpReply { status: 200, body: body.clone() })), None);
    let shorter = &body[..12287];
    assert_eq!(
        well_known_delegate(&Some(HttpReply { status: 200, body: shorter.to_owned() })),
        Some("deleg.example.org".to_owned())
    );
}

#[test]
fn delegates_are_chosen_from_plain_values() {
    let server = || Some("deleg.example.org".to_owned());
    assert_eq!(choose_delegate(200, 10, server(), true), server());
    assert_eq!(choose_delegate(200, 12287, server(), true), server());
    assert_eq!(choose_delegate(200, 12288, server(), true), None);
    assert_eq!(choose_delegate(200, 10, server(), false), None);
    assert_eq!(choose_delegate(200, 10, None, false), None);
    assert_eq!(choose_delegate(500, 10, server(), true), None);
}

#[test]
fn service_names_carry_no_trailing_dot() {
    assert_eq!(srv_query_name("example.org", false), "_matrix-fed._tcp.example.org");
    assert_eq!(srv_query_name("example.org", true), "_matrix._tcp.example.org");
    assert_eq!(srv_query_name("example.org.", false), "_matrix-fed._tcp.example.org");
    assert_eq!(srv_query_name("", true), "_matrix._tcp");
    assert_eq!(trim_trailing_dots("a.b.."), "a.b");
    assert_eq!(trim_trailing_dots("..."), "");
    assert_eq!(trim_trailing_dots("a"), "a");
}

#[test]
fn host_headers_follow_the_reading_of_the_host() {
    assert_eq!(host_header(&read_literal("example.org"), "example.org"), "example.org:8448");
    assert_eq!(host_header(&read_literal("example.org:80"), "example.org:80"), "example.org:80");
    assert_eq!(host_header(&read_literal("1.2.3.4"), "1.2.3.4"), "1.2.3.4:8448");
    assert_eq!(host_header(&read_literal("1.2.3.4:80"), "1.2.3.4:80"), "1.2.3.4:80");
    assert_eq!(host_header(&read_literal("::1"), "::1"), "::1:8448");
    assert_eq!(host_header(&read_literal("[::1]:80"), "[::1]:80"), "[::1]:80");
}

#[test]
fn names_split_at_their_port() {
    assert_eq!(split_at_colon("example.org"), None);
    assert_eq!(
        split_at_colon("example.org:1337"),
        Some(("example.org".to_owned(), ":1337".to_owned(), 1337))
    );
    assert_eq!(
        split_at_colon("example.org:http"),
        Some(("example.org".to_owned(), ":http".to_owned(), 8448))
    );
    assert_eq!(split_at_colon(":"), Some((String::new(), ":".to_owned(), 8448)));
    assert_eq!(port_complement(9001), ":9001");
    assert_eq!(
        well_known_request("example.org"),
        "https://example.org/.well-known/matrix/server"
    );
}

#[test]
fn resolved_destinations_are_remembered_after_a_good_answer() {
    let mut resolver = Resolver::new();
    assert!(resolver.get_actual_destination("example.org").is_none());
    let dest = FedDest::Named("example.org".to_owned(), ":8448".to_owned());
    let actual = Resolver::resolved(dest.duplicate(), "example.org:8448".to_owned());
    assert!(!actual.cached);
    assert_eq!(actual.string, "https://example.org:8448");

    resolver.remember("example.org", &actual, false);
    assert!(resolver.get_actual_destination("example.org").is_none());

    resolver.remember("example.org", &actual, true);
    let cached = resolver.get_actual_destination("example.org").unwrap();
    assert!(cached.cached);
    assert_eq!(cached.destination, dest);
    assert_eq!(cached.host, "example.org:8448");
    assert_eq!(cached.string, "https://example.org:8448");

    let other = Resolver::resolved(
        FedDest::Named("other.example.org".to_owned(), ":1".to_owned()),
        "other.example.org:1".to_owned(),
    );
    resolver.remember("example.org", &cached, true);
    assert_eq!(resolver.get_actual_destination("example.org").unwrap().destination, dest);
    resolver.remember("example.org", &other, true);
    assert_eq!(
        resolver.get_actual_destination("example.org").unwrap().destination,
        other.destination
    );
    assert!(resolver.get_actual_destination("other.example.org").is_none());
}
