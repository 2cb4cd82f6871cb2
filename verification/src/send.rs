//! The rules around one federation request: when it may be sent, and what
//! its answer means for the resolver's memory.

use vstd::prelude::*;

use crate::error::Error;
use crate::resolver::{ActualDestination, Resolver};
use crate::string::{chars_of, find_char, same_text, string_from_chars};

verus! {

/// Whether no denied address range holds the address, given for each
/// denied range whether it holds it.
pub fn valid_cidr_range(included: &Vec<bool>) -> (valid: bool)
    ensures
        valid == forall|i: int| 0 <= i < included@.len() ==> !(#[trigger] included@[i]),
{
    let mut i: usize = 0;
    while i < included.len()
        invariant
            i <= included@.len(),
            forall|k: int| 0 <= k < i ==> !(#[trigger] included@[k]),
        decreases included@.len() - i,
    {
        if included[i] {
            return false;
        }
        i = i + 1;
    }
    true
}

/// Refuses an address in a denied range.
pub fn validate_ip(valid_range: bool) -> (checked: Result<(), Error>)
    ensures
        checked is Ok <==> valid_range,
        checked is Err ==> checked->Err_0 is BadServerResponse
            && checked->Err_0->BadServerResponse_0@ == "Not allowed to send requests to this IP"@,
{
    if !valid_range {
        return Err(Error::BadServerResponse("Not allowed to send requests to this IP".to_owned()));
    }
    Ok(())
}

/// The host of a server name: the name up to the bracket that closes an
/// address, or else up to the first colon.
pub open spec fn spec_host(server_name: Seq<char>) -> Seq<char> {
    match server_name.index_of_first(']') {
        Some(at) => server_name.take(at + 1),
        None => match server_name.index_of_first(':') {
            Some(at) => server_name.take(at),
            None => server_name,
        },
    }
}

/// The host of a server name, without its port.
pub fn server_host(server_name: &str) -> (host: String)
    ensures
        host@ == spec_host(server_name@),
{
    let chars = chars_of(server_name);
    let len = chars.len();
    let end = match find_char(&chars, ']') {
        Some(at) => at + 1,
        None => match find_char(&chars, ':') {
            Some(at) => at,
            None => len,
        },
    };
    proof {
        assert(chars@.subrange(0, end as int) =~= chars@.take(end as int));
        assert(chars@.take(len as int) =~= chars@);
    }
    string_from_chars(&chars, 0, end)
}

/// Whether a destination is a literal address: its name begins with a
/// bracket, or its host reads as an address.
pub fn destination_is_literal(server_name: &str, host_is_address: bool) -> (literal: bool)
    ensures
        literal == (host_is_address || (server_name@.len() > 0 && server_name@[0] == '[')),
{
    if host_is_address {
        return true;
    }
    let chars = chars_of(server_name);
    chars.len() > 0 && chars[0] == '['
}

/// Checks a destination that is a literal address against the denied
/// ranges, given whether no denied range holds it (none: the address
/// could not be read).
pub fn validate_destination_ip_literal(valid_range: Option<bool>) -> (checked: Result<(), Error>)
    ensures
        checked is Ok <==> valid_range == Some(true),
        checked is Err ==> checked->Err_0 is BadServerResponse,
        valid_range is None ==> checked is Err && checked->Err_0->BadServerResponse_0@
            == "Invalid IP address"@,
        valid_range == Some(false) ==> checked is Err && checked->Err_0->BadServerResponse_0@
            == "Not allowed to send requests to this IP"@,
{
    match valid_range {
        None => Err(Error::BadServerResponse("Invalid IP address".to_owned())),
        Some(valid) => validate_ip(valid),
    }
}

/// Refuses a destination that is this server itself, and one that is a
/// literal address which cannot be read or lies in a denied range.
pub fn validate_destination(
    destination: &str,
    own: &str,
    literal: bool,
    valid_range: Option<bool>,
) -> (checked: Result<(), Error>)
    ensures
        checked is Ok <==> destination@ != own@ && (literal ==> valid_range == Some(true)),
        destination@ == own@ ==> checked is Err && checked->Err_0 is Config
            && checked->Err_0->Config_0@ == "Won't send federation request to ourselves"@,
        destination@ != own@ && !(literal ==> valid_range == Some(true)) ==> checked is Err
            && checked->Err_0 is BadServerResponse,
{
    if same_text(destination, own) {
        return Err(Error::Config("Won't send federation request to ourselves".to_owned()));
    }
    if literal {
        return validate_destination_ip_literal(valid_range);
    }
    Ok(())
}

/// Decides whether a request may be sent at all: federation must be
/// switched on, and the destination must pass `validate_destination`.
pub fn prepare_request(
    allow_federation: bool,
    destination: &str,
    own: &str,
    literal: bool,
    valid_range: Option<bool>,
) -> (checked: Result<(), Error>)
    ensures
        checked is Ok <==> allow_federation && destination@ != own@ && (literal ==> valid_range
            == Some(true)),
        !allow_federation ==> checked is Err && checked->Err_0 is Config
            && checked->Err_0->Config_0@ == "Federation is disabled."@,
        allow_federation && destination@ == own@ ==> checked is Err && checked->Err_0 is Config
            && checked->Err_0->Config_0@ == "Won't send federation request to ourselves"@,
        allow_federation && destination@ != own@ && !(literal ==> valid_range == Some(true))
            ==> checked is Err && checked->Err_0 is BadServerResponse,
{
    if !allow_federation {
        return Err(Error::Config("Federation is disabled.".to_owned()));
    }
    validate_destination(destination, own, literal, valid_range)
}

/// Whether a status code reports success.
pub open spec fn status_is_success(status: u16) -> bool {
    200 <= status < 300
}

/// Takes in the answer to a request: a status that reports no success is
/// an error of the remote server, and so is a body that cannot be read. A
/// destination that was freshly resolved is remembered once it has
/// answered well.
pub fn handle_response(
    resolver: &mut Resolver,
    destination: &str,
    actual: &ActualDestination,
    status: u16,
    readable: bool,
) -> (outcome: Result<(), Error>)
    ensures
        outcome is Ok <==> status_is_success(status) && readable,
        !status_is_success(status) ==> outcome is Err && outcome->Err_0 is Federation
            && outcome->Err_0->Federation_0@ == destination@ && outcome->Err_0->Federation_1
            == status,
        status_is_success(status) && !readable ==> outcome is Err
            && outcome->Err_0 is BadServerResponse,
        forall|name: Seq<char>| final(resolver).override_of(name) == old(resolver).override_of(name),
        forall|name: Seq<char>|
            name != destination@ ==> final(resolver).cached(name) == old(resolver).cached(name),
        outcome is Ok && !actual.cached ==> final(resolver).cached(destination@) is Some && final(resolver).cached(destination@)->0.dest@ == actual.destination@ && final(resolver).cached(
            destination@,
        )->0.host@ == actual.host@,
        !(outcome is Ok && !actual.cached) ==> final(resolver).cached(destination@) == old(resolver).cached(destination@),
{
    if !(status >= 200 && status < 300) {
        return Err(Error::Federation(destination.to_owned(), status));
    }
    resolver.remember(destination, actual, readable);
    if !readable {
        return Err(Error::BadServerResponse("Server returned bad 200 response.".to_owned()));
    }
    Ok(())
}

} // verus!
