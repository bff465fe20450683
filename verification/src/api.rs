//! The bodies of the server's requests and answers.

use vstd::prelude::*;

use crate::room;
use crate::srgb::Srgb8;

verus! {

/// What a client asks for when it starts: a username and a color of its own,
/// each optional.
pub struct InitRequest {
    pub username: Option<String>,
    pub color: Option<Srgb8>,
}

impl Default for InitRequest {
    fn default() -> (r: Self)
        ensures
            r.username is None,
            r.color is None,
    {
        InitRequest { username: None, color: None }
    }
}

/// What a client is told when it starts: the map service's key, its room,
/// and the name and color it plays under.
pub struct InitResponse {
    pub api_key: String,
    pub room_id: room::Id,
    pub username: String,
    pub color: Srgb8,
}

/// The body of an answer that reports an error.
pub struct ErrorResponse {
    pub error: String,
}

} // verus!
