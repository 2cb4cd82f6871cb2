//! Discovery of the address behind a server name.
//!
//! A server name is resolved in up to five steps, the first that applies
//! deciding: the name is a literal address; the name carries a port; the
//! server delegates to another host in its well-known document; a service
//! record names a host and port; the name itself with the default port.
//!
//! The resolver never touches the network. It is a state machine: each
//! [`Action`] asks the caller for one piece of outside work, and the caller
//! hands the outcome back as an [`Event`].

use vstd::prelude::*;
use vstd::utf8::encode_utf8;

use crate::destination::{
    add_port_to_hostname, default_port_suffix, default_port_text, decimal_digits,
    get_ip_with_port, parse_port, port_digits, spec_add_port, spec_ip_with_port,
    spec_parse_port, FedDest, IpLiteral, LiteralReading, ParsedLiteral, Target, DEFAULT_PORT,
};
use crate::json::{json_text_field, text_field};
use crate::name_map::NameMap;
use crate::string::{chars_of, find_char, joined, push_char, string_from_chars, text_of};

verus! {

/// The largest well-known document that is still read, in bytes, is one
/// less than this.
pub const WELL_KNOWN_LIMIT: usize = 12288;

/// The classes of failure of a name lookup.
#[derive(Clone, Copy, Debug, PartialEq, Eq)]
pub enum ResolveErrorKind {
    Message,
    Msg,
    NoConnections,
    NoRecordsFound,
    Io,
    Proto,
    Timeout,
}

/// A failed name lookup: its class and its description.
#[derive(Clone, Debug, PartialEq, Eq)]
pub struct LookupError {
    pub kind: ResolveErrorKind,
    pub text: String,
}

/// One service record: the host it points to and the port there.
#[derive(Clone, Debug, PartialEq, Eq)]
pub struct SrvRecord {
    pub target: String,
    pub port: u16,
}

/// An answer to an HTTP request: the status code and the body.
#[derive(Clone, Debug, PartialEq, Eq)]
pub struct HttpReply {
    pub status: u16,
    pub body: String,
}

/// The outcome of the outside work that an [`Action`] asked for.
#[derive(Debug, PartialEq, Eq)]
pub enum Event {
    /// The text of `Action::ReadLiteral`, read as an address.
    Literal(ParsedLiteral),
    /// The addresses of the host of `Action::LookupIp`.
    Addresses(Result<Vec<IpLiteral>, LookupError>),
    /// The answer to the request of `Action::FetchWellKnown`; `None` where
    /// no answer could be had.
    WellKnown(Option<HttpReply>),
    /// The records under the name of `Action::LookupSrv`.
    Service(Result<Vec<SrvRecord>, LookupError>),
}

/// What the caller is to do next.
#[derive(Clone, Debug, PartialEq, Eq)]
pub enum Action {
    /// Read this text as an address with a port, and as a bare address.
    ReadLiteral(String),
    /// Look up the addresses of this host.
    LookupIp(String),
    /// Fetch this URL.
    FetchWellKnown(String),
    /// Look up the service records under this name.
    LookupSrv(String),
    /// The resolution is complete: the destination and the host header.
    Done(FedDest, String),
    /// The resolution failed, for this reason.
    Failed(String),
}

/// An action as contracts see it.
pub enum ActionView {
    ReadLiteral(Seq<char>),
    LookupIp(Seq<char>),
    FetchWellKnown(Seq<char>),
    LookupSrv(Seq<char>),
    Done(Target, Seq<char>),
    Failed(Seq<char>),
}

impl View for Action {
    type V = ActionView;

    open spec fn view(&self) -> ActionView {
        match self {
            Action::ReadLiteral(text) => ActionView::ReadLiteral(text@),
            Action::LookupIp(host) => ActionView::LookupIp(host@),
            Action::FetchWellKnown(url) => ActionView::FetchWellKnown(url@),
            Action::LookupSrv(name) => ActionView::LookupSrv(name@),
            Action::Done(dest, host) => ActionView::Done(dest@, host@),
            Action::Failed(reason) => ActionView::Failed(reason@),
        }
    }
}

/// Where a resolution stands: what it has asked for and is waiting on.
#[allow(inconsistent_fields)]
enum Phase {
    Name,
    Address { overname: String, port: u16, then: Option<FedDest>, host: Option<String> },
    WellKnown,
    Delegated { delegated: String },
    Service { target: String, legacy: bool, indirect: bool },
    Host { dest: FedDest, host: String },
    Finished,
}

/// A phase as contracts see it.
#[allow(inconsistent_fields)]
pub enum PhaseView {
    /// Waiting for the server name to be read as an address.
    Name,
    /// Waiting for the addresses of a host, to be stored under `overname`
    /// with `port`. Then the well-known document is fetched (`then` is
    /// `None`), or the resolution ends with the destination in `then`; its
    /// host header is made from `host`, or from the server name where
    /// `host` is `None`.
    Address { overname: Seq<char>, port: u16, then: Option<Target>, host: Option<Seq<char>> },
    /// Waiting for the well-known document.
    WellKnown,
    /// Waiting for the delegated host to be read as an address.
    Delegated { delegated: Seq<char> },
    /// Waiting for the service records of `target`, under the current name
    /// or under the legacy one.
    Service { target: Seq<char>, legacy: bool, indirect: bool },
    /// Waiting for the text of the host header to be read as an address.
    Host { dest: Target, host: Seq<char> },
    /// Nothing is asked for any more.
    Finished,
}

impl View for Phase {
    type V = PhaseView;

    closed spec fn view(&self) -> PhaseView {
        match self {
            Phase::Name => PhaseView::Name,
            Phase::Address { overname, port, then, host } => PhaseView::Address {
                overname: overname@,
                port: *port,
                then: match then {
                    Some(dest) => Some(dest@),
                    None => None,
                },
                host: match host {
                    Some(host) => Some(host@),
                    None => None,
                },
            },
            Phase::WellKnown => PhaseView::WellKnown,
            Phase::Delegated { delegated } => PhaseView::Delegated { delegated: delegated@ },
            Phase::Service { target, legacy, indirect } => PhaseView::Service {
                target: target@,
                legacy: *legacy,
                indirect: *indirect,
            },
            Phase::Host { dest, host } => PhaseView::Host { dest: dest@, host: host@ },
            Phase::Finished => PhaseView::Finished,
        }
    }
}

/// One resolution under way.
pub struct Resolution {
    name: String,
    literal: ParsedLiteral,
    phase: Phase,
}

/// A resolution as contracts see it: the server name, how it reads as an
/// address, and the phase.
pub struct ResolutionView {
    pub name: Seq<char>,
    pub literal: LiteralReading,
    pub phase: PhaseView,
}

impl View for Resolution {
    type V = ResolutionView;

    closed spec fn view(&self) -> ResolutionView {
        ResolutionView { name: self.name@, literal: self.literal@, phase: self.phase@ }
    }
}

/// A resolved destination that is kept for later requests.
#[derive(Clone, Debug, PartialEq, Eq)]
pub struct CachedDest {
    pub dest: FedDest,
    pub host: String,
}

/// The addresses to connect to in place of looking a host up, and the port.
#[derive(Clone, Debug, PartialEq, Eq)]
pub struct CachedOverride {
    pub ips: Vec<IpLiteral>,
    pub port: u16,
}

/// A destination ready for use: where to send, the host header, the base
/// URL, and whether it came from the cache.
#[derive(Clone, Debug, PartialEq, Eq)]
pub struct ActualDestination {
    pub destination: FedDest,
    pub host: String,
    pub string: String,
    pub cached: bool,
}

/// The resolver's memory: resolved destinations and address overrides, both
/// by server name.
pub struct Resolver {
    destinations: NameMap<CachedDest>,
    overrides: NameMap<CachedOverride>,
}

/// `text` without the dots that end it.
pub open spec fn trim_dots(text: Seq<char>) -> Seq<char>
    decreases text.len(),
{
    if text.len() > 0 && text.last() == '.' {
        trim_dots(text.drop_last())
    } else {
        text
    }
}

/// The name under which the service records of `target` are looked up.
pub open spec fn srv_name(target: Seq<char>, legacy: bool) -> Seq<char> {
    if legacy {
        trim_dots("_matrix._tcp."@ + target + "."@)
    } else {
        trim_dots("_matrix-fed._tcp."@ + target + "."@)
    }
}

/// The URL of the well-known document of `name`.
pub open spec fn well_known_url(name: Seq<char>) -> Seq<char> {
    "https://"@ + name + "/.well-known/matrix/server"@
}

/// The port that follows the colon at `at` in `name`, or the default port
/// where no port number stands there.
pub open spec fn explicit_port(name: Seq<char>, at: int) -> u16 {
    match spec_parse_port(name.skip(at + 1)) {
        Some(port) => port,
        None => DEFAULT_PORT,
    }
}

/// The host header for `host`, given how `host` reads as an address: an
/// address with a port stands as it is, a bare address and a bare name get
/// the default port, a name with a colon stands as it is.
pub open spec fn spec_host_header(reading: LiteralReading, host: Seq<char>) -> Seq<char> {
    match reading.socket {
        Some(socket) => socket.text(),
        None => match reading.ip {
            Some(ip) => ip.text + default_port_suffix(),
            None => spec_add_port(host).uri(),
        },
    }
}

/// Whether a status code reports success.
pub open spec fn is_success(status: u16) -> bool {
    200 <= status < 300
}

/// The host that a well-known answer delegates to, given the text under
/// `m.server` in its body and whether that text is a server name. Only a
/// successful answer with a body under the size limit delegates.
pub open spec fn spec_choose_delegate(
    status: u16,
    body_len: nat,
    server: Option<Seq<char>>,
    valid: bool,
) -> Option<Seq<char>> {
    if is_success(status) && body_len < WELL_KNOWN_LIMIT && server is Some && valid {
        server
    } else {
        None
    }
}

/// Whether `name` has the syntax of a server name: a host name or an
/// address, with an optional port.
pub uninterp spec fn server_name_valid(name: Seq<char>) -> bool;

/// `ruma_identifiers_validation::server_name::validate`: whether the text
/// is accepted depends on the text alone; the contract names the answer.
#[verifier::external_body]
fn is_server_name(name: &str) -> (valid: bool)
    ensures
        valid == server_name_valid(name@),
{
    ruma_identifiers_validation::server_name::validate(name).is_ok()
}

/// The host that a well-known answer delegates to.
pub open spec fn spec_delegation(reply: Option<HttpReply>) -> Option<Seq<char>> {
    match reply {
        None => None,
        Some(reply) => {
            let server = json_text_field(reply.body@, "m.server"@);
            spec_choose_delegate(
                reply.status,
                encode_utf8(reply.body@).len(),
                server,
                server is Some && server_name_valid(server->0),
            )
        },
    }
}

/// Decides whether a well-known answer delegates, from its status, the
/// size of its body, the text found under `m.server` and whether that text
/// is a server name.
pub fn choose_delegate(status: u16, body_len: usize, server: Option<String>, valid: bool) -> (host:
    Option<String>)
    ensures
        text_of(host) == spec_choose_delegate(status, body_len as nat, text_of(server), valid),
{
    if status >= 200 && status < 300 && body_len < WELL_KNOWN_LIMIT && valid {
        server
    } else {
        None
    }
}

/// Reads the delegated host out of the answer to a well-known request. Any
/// answer that does not delegate in the expected form delegates nowhere.
pub fn well_known_delegate(reply: &Option<HttpReply>) -> (host: Option<String>)
    ensures
        text_of(host) == spec_delegation(*reply),
{
    match reply {
        None => None,
        Some(reply) => {
            let server = text_field(reply.body.as_str(), "m.server");
            let valid = match &server {
                Some(name) => is_server_name(name.as_str()),
                None => false,
            };
            choose_delegate(reply.status, reply.body.as_str().as_bytes().len(), server, valid)
        },
    }
}

/// Whether a failed lookup ends the resolution. Only failures of the I/O
/// system do; every other failure counts as an absent record.
pub open spec fn is_fatal(kind: ResolveErrorKind) -> bool {
    kind is Io
}

/// Sorts a failed lookup: an I/O failure is an error, with the failure's
/// description; anything else lets the resolution go on.
pub fn handle_resolve_error(e: &LookupError) -> (outcome: Result<(), String>)
    ensures
        outcome is Err <==> is_fatal(e.kind),
        outcome is Err ==> outcome->Err_0@ == e.text@,
{
    match e.kind {
        ResolveErrorKind::Io => Err(e.text.clone()),
        _ => Ok(()),
    }
}

/// `text` without the dots that end it.
pub fn trim_trailing_dots(text: &str) -> (trimmed: String)
    ensures
        trimmed@ == trim_dots(text@),
{
    let chars = chars_of(text);
    let mut end: usize = chars.len();
    assert(chars@.take(end as int) =~= chars@);
    while end > 0 && chars[end - 1] == '.'
        invariant
            end <= chars@.len(),
            trim_dots(chars@) == trim_dots(chars@.take(end as int)),
        decreases end,
    {
        proof {
            assert(chars@.take(end as int).drop_last() =~= chars@.take(end - 1));
        }
        end = end - 1;
    }
    proof {
        assert(chars@.subrange(0, end as int) =~= chars@.take(end as int));
    }
    string_from_chars(&chars, 0, end)
}

/// The name under which the service records of `target` are looked up.
pub fn srv_query_name(target: &str, legacy: bool) -> (name: String)
    ensures
        name@ == srv_name(target@, legacy),
{
    let prefix = if legacy {
        "_matrix._tcp."
    } else {
        "_matrix-fed._tcp."
    };
    let front = joined(prefix, target);
    let full = joined(front.as_str(), ".");
    trim_trailing_dots(full.as_str())
}

/// The host header for `host`, given how `host` reads as an address.
pub fn host_header(reading: &ParsedLiteral, host: &str) -> (header: String)
    ensures
        header@ == spec_host_header(reading@, host@),
{
    match &reading.socket {
        Some(socket) => socket.text(),
        None => match &reading.ip {
            Some(ip) => {
                let suffix = default_port_text();
                joined(ip.text.as_str(), suffix.as_str())
            },
            None => add_port_to_hostname(host).into_uri_string(),
        },
    }
}

/// The URL of the well-known document of `name`.
pub fn well_known_request(name: &str) -> (url: String)
    ensures
        url@ == well_known_url(name@),
{
    let front = joined("https://", name);
    joined(front.as_str(), "/.well-known/matrix/server")
}

/// Splits `text` at its first colon into the host, the complement from the
/// colon on, and the port that the complement names (the default port where
/// it names none). `None` where `text` has no colon.
pub fn split_at_colon(text: &str) -> (parts: Option<(String, String, u16)>)
    ensures
        parts is Some <==> text@.index_of_first(':') is Some,
        match parts {
            Some((host, complement, port)) => {
                let at = text@.index_of_first(':')->0;
                &&& host@ == text@.take(at)
                &&& complement@ == text@.skip(at)
                &&& port == explicit_port(text@, at)
            },
            None => true,
        },
{
    let chars = chars_of(text);
    match find_char(&chars, ':') {
        None => None,
        Some(at) => {
            let host = string_from_chars(&chars, 0, at);
            let complement = string_from_chars(&chars, at, chars.len());
            let digits = string_from_chars(&chars, at + 1, chars.len());
            proof {
                assert(chars@.subrange(0, at as int) =~= text@.take(at as int));
                assert(chars@.subrange(at as int, chars@.len() as int) =~= text@.skip(at as int));
                assert(chars@.subrange(at + 1, chars@.len() as int) =~= text@.skip(at + 1));
            }
            let port = match parse_port(digits.as_str()) {
                Some(port) => port,
                None => DEFAULT_PORT,
            };
            Some((host, complement, port))
        },
    }
}

/// The complement that names `port`: a colon and the port in decimal.
pub fn port_complement(port: u16) -> (text: String)
    ensures
        text@ == seq![':'] + decimal_digits(port as nat),
{
    let mut text = String::new();
    push_char(&mut text, ':');
    let digits = port_digits(port);
    let text = joined(text.as_str(), digits.as_str());
    assert(text@ =~= seq![':'] + decimal_digits(port as nat));
    text
}

/// What one step of a resolution comes to: the state after it, the action
/// it asks for, and the override that it stores, if any, as the name and
/// the port under which the addresses of the event are kept.
pub struct Step {
    pub next: ResolutionView,
    pub action: ActionView,
    pub store: Option<(Seq<char>, u16)>,
}

/// The text of the failure that an event of the wrong kind causes.
pub open spec fn unexpected_event() -> Seq<char> {
    "event does not answer the pending request"@
}

/// The step that ends a resolution with a failure.
pub open spec fn fail(state: ResolutionView, reason: Seq<char>) -> Step {
    Step {
        next: ResolutionView { phase: PhaseView::Finished, ..state },
        action: ActionView::Failed(reason),
        store: None,
    }
}

/// The step that ends a resolution with a destination.
pub open spec fn finish(state: ResolutionView, dest: Target, host: Seq<char>) -> Step {
    Step {
        next: ResolutionView { phase: PhaseView::Finished, ..state },
        action: ActionView::Done(dest, host),
        store: None,
    }
}

/// The step that asks for the addresses of `host`.
pub open spec fn ask_address(
    state: ResolutionView,
    overname: Seq<char>,
    lookup: Seq<char>,
    port: u16,
    then: Option<Target>,
    host: Option<Seq<char>>,
) -> Step {
    Step {
        next: ResolutionView { phase: PhaseView::Address { overname, port, then, host }, ..state },
        action: ActionView::LookupIp(lookup),
        store: None,
    }
}

/// The step that asks for the service records of `target`.
pub open spec fn ask_service(
    state: ResolutionView,
    target: Seq<char>,
    legacy: bool,
    indirect: bool,
) -> Step {
    Step {
        next: ResolutionView {
            phase: PhaseView::Service { target, legacy, indirect },
            ..state
        },
        action: ActionView::LookupSrv(srv_name(target, legacy)),
        store: None,
    }
}

/// The step that asks for the well-known document of the server.
pub open spec fn ask_well_known(state: ResolutionView) -> Step {
    Step {
        next: ResolutionView { phase: PhaseView::WellKnown, ..state },
        action: ActionView::FetchWellKnown(well_known_url(state.name)),
        store: None,
    }
}

/// The step that asks for `host` to be read as an address, before the
/// resolution ends with `dest`.
pub open spec fn ask_host(state: ResolutionView, dest: Target, host: Seq<char>) -> Step {
    Step {
        next: ResolutionView { phase: PhaseView::Host { dest, host }, ..state },
        action: ActionView::ReadLiteral(host),
        store: None,
    }
}

/// The host header text of a delegated host: the host with the default
/// port where it names none.
pub open spec fn delegated_host(delegated: Seq<char>) -> Seq<char> {
    spec_add_port(delegated).uri()
}

/// The step after the server name was read as an address.
pub open spec fn step_name(state: ResolutionView, reading: LiteralReading, has_override: bool) -> Step {
    let known = ResolutionView { literal: reading, ..state };
    match spec_ip_with_port(reading) {
        Some(dest) => finish(known, dest, spec_host_header(reading, state.name)),
        None => match state.name.index_of_first(':') {
            Some(at) => ask_address(
                known,
                state.name.take(at),
                state.name.take(at),
                explicit_port(state.name, at),
                Some(Target::Named(state.name.take(at), state.name.skip(at))),
                None,
            ),
            None => if has_override {
                ask_well_known(known)
            } else {
                ask_address(known, state.name, state.name, DEFAULT_PORT, None, None)
            },
        },
    }
}

/// The step after a lookup of addresses that did not fail fatally.
pub open spec fn step_address(
    state: ResolutionView,
    then: Option<Target>,
    host: Option<Seq<char>>,
) -> Step {
    match then {
        None => ask_well_known(state),
        Some(dest) => match host {
            None => finish(state, dest, spec_host_header(state.literal, state.name)),
            Some(host) => ask_host(state, dest, host),
        },
    }
}

/// The step after the delegated host was read as an address.
pub open spec fn step_delegated(
    state: ResolutionView,
    delegated: Seq<char>,
    reading: LiteralReading,
) -> Step {
    let host = delegated_host(delegated);
    match spec_ip_with_port(reading) {
        Some(dest) => ask_host(state, dest, host),
        None => match delegated.index_of_first(':') {
            Some(at) => ask_address(
                state,
                delegated.take(at),
                delegated.take(at),
                explicit_port(delegated, at),
                Some(Target::Named(delegated.take(at), delegated.skip(at))),
                Some(host),
            ),
            None => ask_service(state, delegated, false, true),
        },
    }
}

/// The host header text of a destination that was found through the
/// service records of `target`, with the port of the record that decided
/// (none: no record did). A delegated host is named with that port, or
/// with the default port where no record decided. For the server name
/// itself there is no text: its header is made from the name.
pub open spec fn service_host(target: Seq<char>, indirect: bool, port: Option<u16>) -> Option<
    Seq<char>,
> {
    if indirect {
        match port {
            Some(port) => Some(target + seq![':'] + decimal_digits(port as nat)),
            None => Some(delegated_host(target)),
        }
    } else {
        None
    }
}

/// The step after a lookup of service records that did not fail fatally:
/// the first record decides where there is one, else the legacy name is
/// tried, else the host itself is used with the default port.
pub open spec fn step_service(
    state: ResolutionView,
    target: Seq<char>,
    legacy: bool,
    indirect: bool,
    first: Option<SrvRecord>,
) -> Step {
    match first {
        Some(record) => ask_address(
            state,
            target,
            trim_dots(record.target@),
            record.port,
            Some(Target::Named(target, seq![':'] + decimal_digits(record.port as nat))),
            service_host(target, indirect, Some(record.port)),
        ),
        None => if !legacy {
            ask_service(state, target, true, indirect)
        } else {
            ask_address(
                state,
                target,
                target,
                DEFAULT_PORT,
                Some(spec_add_port(target)),
                service_host(target, indirect, None),
            )
        },
    }
}

/// The first of the records of a lookup that succeeded.
pub open spec fn first_record(result: Result<Vec<SrvRecord>, LookupError>) -> Option<SrvRecord> {
    match result {
        Ok(records) => if records@.len() > 0 {
            Some(records@[0])
        } else {
            None
        },
        Err(_) => None,
    }
}

/// The transition function of a resolution: what follows from `event` in
/// `state`, where `has_override` says whether an override is stored for
/// the server name.
pub open spec fn spec_step(state: ResolutionView, event: Event, has_override: bool) -> Step {
    match (state.phase, event) {
        (PhaseView::Name, Event::Literal(reading)) => step_name(state, reading@, has_override),
        (PhaseView::Address { overname, port, then, host }, Event::Addresses(result)) => {
            match result {
                Err(e) => if is_fatal(e.kind) {
                    fail(state, e.text@)
                } else {
                    step_address(state, then, host)
                },
                Ok(_) => Step { store: Some((overname, port)), ..step_address(state, then, host) },
            }
        },
        (PhaseView::WellKnown, Event::WellKnown(reply)) => match spec_delegation(reply) {
            Some(delegated) => Step {
                next: ResolutionView { phase: PhaseView::Delegated { delegated }, ..state },
                action: ActionView::ReadLiteral(delegated),
                store: None,
            },
            None => ask_service(state, state.name, false, false),
        },
        (PhaseView::Delegated { delegated }, Event::Literal(reading)) => step_delegated(
            state,
            delegated,
            reading@,
        ),
        (PhaseView::Service { target, legacy, indirect }, Event::Service(result)) => {
            match result {
                Err(e) => if is_fatal(e.kind) {
                    fail(state, e.text@)
                } else {
                    step_service(state, target, legacy, indirect, None)
                },
                Ok(_) => step_service(state, target, legacy, indirect, first_record(result)),
            }
        },
        (PhaseView::Host { dest, host }, Event::Literal(reading)) => finish(
            state,
            dest,
            spec_host_header(reading@, host),
        ),
        _ => fail(state, unexpected_event()),
    }
}

/// How many more events a resolution in this phase can take at most.
pub open spec fn rank(phase: PhaseView) -> nat {
    match phase {
        PhaseView::Name => 8,
        PhaseView::Address { then: None, .. } => 7,
        PhaseView::WellKnown => 6,
        PhaseView::Delegated { .. } => 5,
        PhaseView::Service { legacy: false, .. } => 4,
        PhaseView::Service { legacy: true, .. } => 3,
        PhaseView::Address { then: Some(_), .. } => 2,
        PhaseView::Host { .. } => 1,
        PhaseView::Finished => 0,
    }
}

/// Whether `event` is the kind of outcome that `phase` waits for.
pub open spec fn answers(phase: PhaseView, event: Event) -> bool {
    match (phase, event) {
        (PhaseView::Name, Event::Literal(_)) => true,
        (PhaseView::Address { .. }, Event::Addresses(_)) => true,
        (PhaseView::WellKnown, Event::WellKnown(_)) => true,
        (PhaseView::Delegated { .. }, Event::Literal(_)) => true,
        (PhaseView::Service { .. }, Event::Service(_)) => true,
        (PhaseView::Host { .. }, Event::Literal(_)) => true,
        _ => false,
    }
}

/// Whether `event` reports a lookup that failed in the I/O system.
pub open spec fn is_fatal_event(event: Event) -> bool {
    match event {
        Event::Addresses(Err(e)) => is_fatal(e.kind),
        Event::Service(Err(e)) => is_fatal(e.kind),
        _ => false,
    }
}

/// Every step brings a resolution nearer to its end, so that a resolution
/// takes at most eight events; and it ends at once where it fails.
pub proof fn lemma_step_progress(state: ResolutionView, event: Event, has_override: bool)
    ensures
        state.phase !is Finished ==> rank(spec_step(state, event, has_override).next.phase) < rank(
            state.phase,
        ),
        rank(state.phase) <= 8,
        spec_step(state, event, has_override).action is Failed || spec_step(
            state,
            event,
            has_override,
        ).action is Done <==> spec_step(state, event, has_override).next.phase is Finished,
{
}

/// A resolution fails only where a lookup failed in the I/O system, or
/// where the event is not the outcome that was asked for. Nothing that the
/// well-known request returns makes it fail.
pub proof fn lemma_failure_causes(state: ResolutionView, event: Event, has_override: bool)
    ensures
        spec_step(state, event, has_override).action is Failed <==> is_fatal_event(event)
            || !answers(state.phase, event),
        event is WellKnown && state.phase is WellKnown ==> !(spec_step(
            state,
            event,
            has_override,
        ).action is Failed),
{
}

/// A server name that is a literal address resolves at once to that
/// address, with its own port or the default one, without any lookup.
pub proof fn lemma_literal_resolves_at_once(
    state: ResolutionView,
    reading: ParsedLiteral,
    has_override: bool,
)
    requires
        state.phase is Name,
        spec_ip_with_port(reading@) is Some,
    ensures
        spec_step(state, Event::Literal(reading), has_override).action == ActionView::Done(
            spec_ip_with_port(reading@)->0,
            spec_host_header(reading@, state.name),
        ),
        spec_step(state, Event::Literal(reading), has_override).store is None,
{
}

/// The state in which the resolution of `name` begins.
pub open spec fn initial(name: Seq<char>) -> ResolutionView {
    ResolutionView {
        name,
        literal: LiteralReading { socket: None, ip: None },
        phase: PhaseView::Name,
    }
}

/// The order of fallbacks, for a server that delegates to a host whose
/// service record names a target and a port: a name that is no address and
/// has no port is looked up, then its well-known document is fetched; the
/// delegated host, no address and without a port either, has its service
/// records looked up; the target of the first record is looked up, and its
/// addresses are stored for the delegated host with the port of the record;
/// the destination is the delegated host with that port, and so is the
/// host header.
pub proof fn lemma_delegation_then_service_record(
    name: Seq<char>,
    reading: ParsedLiteral,
    addresses: Result<Vec<IpLiteral>, LookupError>,
    reply: Option<HttpReply>,
    delegated: Seq<char>,
    delegated_reading: ParsedLiteral,
    records: Vec<SrvRecord>,
    target_addresses: Vec<IpLiteral>,
    host_reading: ParsedLiteral,
)
    requires
        spec_ip_with_port(reading@) is None,
        name.index_of_first(':') is None,
        addresses is Err ==> !is_fatal(addresses->Err_0.kind),
        spec_delegation(reply) == Some(delegated),
        spec_ip_with_port(delegated_reading@) is None,
        delegated.index_of_first(':') is None,
        records@.len() > 0,
    ensures
        ({
            let first = spec_step(initial(name), Event::Literal(reading), false);
            let second = spec_step(first.next, Event::Addresses(addresses), false);
            let third = spec_step(second.next, Event::WellKnown(reply), true);
            let fourth = spec_step(third.next, Event::Literal(delegated_reading), true);
            let fifth = spec_step(fourth.next, Event::Service(Ok(records)), true);
            let sixth = spec_step(fifth.next, Event::Addresses(Ok(target_addresses)), true);
            let last = spec_step(sixth.next, Event::Literal(host_reading), true);
            &&& first.action == ActionView::LookupIp(name)
            &&& second.action == ActionView::FetchWellKnown(well_known_url(name))
            &&& third.action == ActionView::ReadLiteral(delegated)
            &&& fourth.action == ActionView::LookupSrv(srv_name(delegated, false))
            &&& fifth.action == ActionView::LookupIp(trim_dots(records@[0].target@))
            &&& sixth.store == Some((delegated, records@[0].port))
            &&& sixth.action == ActionView::ReadLiteral(
                delegated + seq![':'] + decimal_digits(records@[0].port as nat),
            )
            &&& last.action == ActionView::Done(
                Target::Named(delegated, seq![':'] + decimal_digits(records@[0].port as nat)),
                spec_host_header(
                    host_reading@,
                    delegated + seq![':'] + decimal_digits(records@[0].port as nat),
                ),
            )
            &&& (Target::Named(
                delegated,
                seq![':'] + decimal_digits(records@[0].port as nat),
            )).port() == Some(records@[0].port)
        }),
{
    crate::destination::lemma_port_round_trip(records@[0].port);
    let digits = decimal_digits(records@[0].port as nat);
    assert((seq![':'] + digits).skip(1) =~= digits);
}

impl Resolution {
    /// The server name that is being resolved.
    pub fn name(&self) -> (name: &String)
        ensures
            name@ == self@.name,
    {
        &self.name
    }

    /// Whether the resolution has ended.
    pub fn is_finished(&self) -> (finished: bool)
        ensures
            finished == self@.phase is Finished,
    {
        match self.phase {
            Phase::Finished => true,
            _ => false,
        }
    }
}

impl Resolver {
    /// The destination that is remembered for `name`.
    pub closed spec fn cached(&self, name: Seq<char>) -> Option<CachedDest> {
        self.destinations.lookup(name)
    }

    /// The override that is stored for `name`.
    pub closed spec fn override_of(&self, name: Seq<char>) -> Option<CachedOverride> {
        self.overrides.lookup(name)
    }

    /// A resolver that remembers nothing.
    pub fn new() -> (resolver: Self)
        ensures
            forall|name: Seq<char>| resolver.cached(name) is None,
            forall|name: Seq<char>| resolver.override_of(name) is None,
    {
        Resolver { destinations: NameMap::new(), overrides: NameMap::new() }
    }

    /// The addresses and port to connect to in place of looking `name` up.
    pub fn get_override(&self, name: &str) -> (entry: Option<&CachedOverride>)
        ensures
            entry is Some <==> self.override_of(name@) is Some,
            entry is Some ==> *entry->0 == self.override_of(name@)->0,
    {
        self.overrides.get(name)
    }

    /// The remembered destination of `server_name`, ready for use and
    /// marked as coming from the cache; `None` where the name has to be
    /// resolved first.
    pub fn get_actual_destination(&self, server_name: &str) -> (actual: Option<ActualDestination>)
        ensures
            actual is Some <==> self.cached(server_name@) is Some,
            actual is Some ==> {
                let entry = self.cached(server_name@)->0;
                &&& actual->0.cached
                &&& actual->0.destination@ == entry.dest@
                &&& actual->0.host@ == entry.host@
                &&& actual->0.string@ == "https://"@ + entry.dest@.uri()
            },
    {
        match self.destinations.get(server_name) {
            None => None,
            Some(entry) => Some(
                ActualDestination {
                    destination: entry.dest.duplicate(),
                    host: entry.host.clone(),
                    string: entry.dest.duplicate().into_https_string(),
                    cached: true,
                },
            ),
        }
    }

    /// Makes the outcome of a fresh resolution ready for use.
    pub fn resolved(destination: FedDest, host: String) -> (actual: ActualDestination)
        ensures
            !actual.cached,
            actual.destination == destination,
            actual.host == host,
            actual.string@ == "https://"@ + destination@.uri(),
    {
        let string = destination.duplicate().into_https_string();
        ActualDestination { destination, host, string, cached: false }
    }

    /// Remembers a destination after a request to it: only one that was
    /// freshly resolved, and only where the request was answered well. It
    /// takes the place of what was remembered for the name.
    pub fn remember(&mut self, server_name: &str, actual: &ActualDestination, answered: bool)
        ensures
            forall|name: Seq<char>| final(self).override_of(name) == old(self).override_of(name),
            forall|name: Seq<char>|
                name != server_name@ ==> final(self).cached(name) == old(self).cached(name),
            answered && !actual.cached ==> final(self).cached(server_name@) is Some && final(self).cached(server_name@)->0.dest@ == actual.destination@ && final(self).cached(
                server_name@,
            )->0.host@ == actual.host@,
            !(answered && !actual.cached) ==> final(self).cached(server_name@) == old(self).cached(
                server_name@,
            ),
    {
        if answered && !actual.cached {
            let entry = CachedDest { dest: actual.destination.duplicate(), host: actual.host.clone() };
            self.destinations.insert(server_name.to_owned(), entry);
        }
    }

    /// Starts the resolution of `server_name`: the name is to be read as an
    /// address first.
    pub fn begin(server_name: &str) -> (started: (Resolution, Action))
        ensures
            started.0@ == (ResolutionView {
                name: server_name@,
                literal: LiteralReading { socket: None, ip: None },
                phase: PhaseView::Name,
            }),
            started.1@ == ActionView::ReadLiteral(server_name@),
    {
        let resolution = Resolution {
            name: server_name.to_owned(),
            literal: ParsedLiteral { socket: None, ip: None },
            phase: Phase::Name,
        };
        (resolution, Action::ReadLiteral(server_name.to_owned()))
    }

    /// Takes a resolution one step further with the outcome of the action
    /// that it last asked for, and says what to do next. Addresses that a
    /// lookup found are stored as the override of the name they stand for.
    pub fn advance(&mut self, resolution: Resolution, event: Event) -> (stepped: (
        Resolution,
        Action,
    ))
        ensures
            stepped.0@ == spec_step(
                resolution@,
                event,
                old(self).override_of(resolution@.name) is Some,
            ).next,
            stepped.1@ == spec_step(
                resolution@,
                event,
                old(self).override_of(resolution@.name) is Some,
            ).action,
            forall|name: Seq<char>| final(self).cached(name) == old(self).cached(name),
            match spec_step(
                resolution@,
                event,
                old(self).override_of(resolution@.name) is Some,
            ).store {
                None => forall|name: Seq<char>|
                    final(self).override_of(name) == old(self).override_of(name),
                Some((overname, port)) => {
                    &&& event matches Event::Addresses(Ok(ips))
                    &&& final(self).override_of(overname) == Some(CachedOverride { ips, port })
                    &&& forall|name: Seq<char>|
                        name != overname ==> final(self).override_of(name) == old(self).override_of(name)
                },
            },
    {
        let Resolution { name, literal, phase } = resolution;
        match (phase, event) {
            (Phase::Name, Event::Literal(reading)) => {
                match get_ip_with_port(&reading) {
                    Some(dest) => {
                        let header = host_header(&reading, name.as_str());
                        (
                            Resolution { name, literal: reading, phase: Phase::Finished },
                            Action::Done(dest, header),
                        )
                    },
                    None => match split_at_colon(name.as_str()) {
                        Some((host, complement, port)) => {
                            let lookup = host.clone();
                            let dest = FedDest::Named(host.clone(), complement);
                            (
                                Resolution {
                                    name,
                                    literal: reading,
                                    phase: Phase::Address {
                                        overname: host,
                                        port,
                                        then: Some(dest),
                                        host: None,
                                    },
                                },
                                Action::LookupIp(lookup),
                            )
                        },
                        None => {
                            if self.overrides.contains_key(name.as_str()) {
                                let url = well_known_request(name.as_str());
                                (
                                    Resolution { name, literal: reading, phase: Phase::WellKnown },
                                    Action::FetchWellKnown(url),
                                )
                            } else {
                                let lookup = name.clone();
                                let overname = name.clone();
                                (
                                    Resolution {
                                        name,
                                        literal: reading,
                                        phase: Phase::Address {
                                            overname,
                                            port: DEFAULT_PORT,
                                            then: None,
                                            host: None,
                                        },
                                    },
                                    Action::LookupIp(lookup),
                                )
                            }
                        },
                    },
                }
            },
            (Phase::Address { overname, port, then, host }, Event::Addresses(result)) => {
                match result {
                    Err(e) => {
                        if let Err(reason) = handle_resolve_error(&e) {
                            return (
                                Resolution { name, literal, phase: Phase::Finished },
                                Action::Failed(reason),
                            );
                        }
                    },
                    Ok(ips) => {
                        self.overrides.insert(overname, CachedOverride { ips, port });
                    },
                }
                match then {
                    None => {
                        let url = well_known_request(name.as_str());
                        (
                            Resolution { name, literal, phase: Phase::WellKnown },
                            Action::FetchWellKnown(url),
                        )
                    },
                    Some(dest) => match host {
                        None => {
                            let header = host_header(&literal, name.as_str());
                            (
                                Resolution { name, literal, phase: Phase::Finished },
                                Action::Done(dest, header),
                            )
                        },
                        Some(host) => {
                            let text = host.clone();
                            (
                                Resolution { name, literal, phase: Phase::Host { dest, host } },
                                Action::ReadLiteral(text),
                            )
                        },
                    },
                }
            },
            (Phase::WellKnown, Event::WellKnown(reply)) => {
                match well_known_delegate(&reply) {
                    Some(delegated) => {
                        let text = delegated.clone();
                        (
                            Resolution { name, literal, phase: Phase::Delegated { delegated } },
                            Action::ReadLiteral(text),
                        )
                    },
                    None => {
                        let query = srv_query_name(name.as_str(), false);
                        let target = name.clone();
                        (
                            Resolution {
                                name,
                                literal,
                                phase: Phase::Service { target, legacy: false, indirect: false },
                            },
                            Action::LookupSrv(query),
                        )
                    },
                }
            },
            (Phase::Delegated { delegated }, Event::Literal(reading)) => {
                let host = add_port_to_hostname(delegated.as_str()).into_uri_string();
                match get_ip_with_port(&reading) {
                    Some(dest) => {
                        let text = host.clone();
                        (
                            Resolution { name, literal, phase: Phase::Host { dest, host } },
                            Action::ReadLiteral(text),
                        )
                    },
                    None => match split_at_colon(delegated.as_str()) {
                        Some((front, complement, port)) => {
                            let lookup = front.clone();
                            let dest = FedDest::Named(front.clone(), complement);
                            (
                                Resolution {
                                    name,
                                    literal,
                                    phase: Phase::Address {
                                        overname: front,
                                        port,
                                        then: Some(dest),
                                        host: Some(host),
                                    },
                                },
                                Action::LookupIp(lookup),
                            )
                        },
                        None => {
                            let query = srv_query_name(delegated.as_str(), false);
                            (
                                Resolution {
                                    name,
                                    literal,
                                    phase: Phase::Service {
                                        target: delegated,
                                        legacy: false,
                                        indirect: true,
                                    },
                                },
                                Action::LookupSrv(query),
                            )
                        },
                    },
                }
            },
            (Phase::Service { target, legacy, indirect }, Event::Service(result)) => {
                let first: Option<(String, u16)> = match &result {
                    Err(e) => {
                        if let Err(reason) = handle_resolve_error(e) {
                            return (
                                Resolution { name, literal, phase: Phase::Finished },
                                Action::Failed(reason),
                            );
                        }
                        None
                    },
                    Ok(records) => {
                        if records.len() > 0 {
                            Some((trim_trailing_dots(records[0].target.as_str()), records[0].port))
                        } else {
                            None
                        }
                    },
                };
                let host = if indirect {
                    match &first {
                        Some((_, port)) => {
                            let complement = port_complement(*port);
                            let text = joined(target.as_str(), complement.as_str());
                            assert(text@ =~= target@ + seq![':'] + decimal_digits(*port as nat));
                            Some(text)
                        },
                        None => Some(add_port_to_hostname(target.as_str()).into_uri_string()),
                    }
                } else {
                    None
                };
                match first {
                    Some((lookup, port)) => {
                        let dest = FedDest::Named(target.clone(), port_complement(port));
                        (
                            Resolution {
                                name,
                                literal,
                                phase: Phase::Address {
                                    overname: target,
                                    port,
                                    then: Some(dest),
                                    host,
                                },
                            },
                            Action::LookupIp(lookup),
                        )
                    },
                    None => {
                        if !legacy {
                            let query = srv_query_name(target.as_str(), true);
                            (
                                Resolution {
                                    name,
                                    literal,
                                    phase: Phase::Service { target, legacy: true, indirect },
                                },
                                Action::LookupSrv(query),
                            )
                        } else {
                            let dest = add_port_to_hostname(target.as_str());
                            let lookup = target.clone();
                            (
                                Resolution {
                                    name,
                                    literal,
                                    phase: Phase::Address {
                                        overname: target,
                                        port: DEFAULT_PORT,
                                        then: Some(dest),
                                        host,
                                    },
                                },
                                Action::LookupIp(lookup),
                            )
                        }
                    },
                }
            },
            (Phase::Host { dest, host }, Event::Literal(reading)) => {
                let header = host_header(&reading, host.as_str());
                (Resolution { name, literal, phase: Phase::Finished }, Action::Done(dest, header))
            },
            _ => {
                (
                    Resolution { name, literal, phase: Phase::Finished },
                    Action::Failed("event does not answer the pending request".to_owned()),
                )
            },
        }
    }
}

} // verus!
