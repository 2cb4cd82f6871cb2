//! Which remote servers this server refuses to deal with.

use vstd::prelude::*;

use crate::state_accessor::{server_of, user_server};
use crate::string::{contains_name, has_name, same_text};

verus! {

/// Whether a remote server is forbidden: it is on the list of forbidden
/// servers, or there is a list of allowed servers and it is not on it.
pub open spec fn spec_forbidden(allowed: Seq<String>, forbidden: Seq<String>, server: Seq<char>) -> bool {
    !(allowed.len() == 0 || has_name(allowed, server)) || has_name(forbidden, server)
}

/// Whether a remote server is forbidden.
pub fn is_remote_server_forbidden(allowed: &Vec<String>, forbidden: &Vec<String>, server_name: &str) -> (forbidden_server:
    bool)
    ensures
        forbidden_server == spec_forbidden(allowed@, forbidden@, server_name@),
{
    !(allowed.len() == 0 || contains_name(allowed.as_slice(), server_name)) || contains_name(
        forbidden.as_slice(),
        server_name,
    )
}

/// Whether a server name is the name of this server.
pub fn server_is_ours(own: &str, server_name: &str) -> (ours: bool)
    ensures
        ours == (server_name@ == own@),
{
    same_text(server_name, own)
}

/// Checks if a user is local to this server, by the server of the user's
/// name.
pub fn user_is_local(own: &str, user_id: &str) -> (local: bool)
    ensures
        local == (server_of(user_id@) == Some(own@)),
{
    match user_server(user_id) {
        Some(server) => same_text(server.as_str(), own),
        None => false,
    }
}

} // verus!
