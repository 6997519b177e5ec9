//! The session state that the library decides on: the server credentials.

use vstd::prelude::*;

verus! {

/// Server connection details, held in memory for the session once the
/// settings screen supplies them.
#[derive(Clone)]
pub struct Credentials {
    pub base_url: String,
    pub token: String,
}

impl Default for Credentials {
    /// No server and no token.
    fn default() -> (r: Self)
        ensures
            r.base_url@ == Seq::<char>::empty(),
            r.token@ == Seq::<char>::empty(),
    {
        Credentials { base_url: String::new(), token: String::new() }
    }
}

/// The error when no credentials were set this session.
pub const NOT_CONNECTED: &'static str = "Not connected — set the server URL and token in Settings";

/// The credentials of the session, or an error asking for them when they
/// were never set.
pub fn require_credentials(credentials: &Option<Credentials>) -> (r: Result<Credentials, String>)
    ensures
        match credentials {
            Some(c) => r matches Ok(x) && x.base_url@ == c.base_url@ && x.token@ == c.token@,
            None => r matches Err(e) && e@ == NOT_CONNECTED@,
        },
{
    match credentials {
        Some(c) => Ok(Credentials { base_url: c.base_url.clone(), token: c.token.clone() }),
        None => {
            let mut e = String::new();
            e.append(NOT_CONNECTED);
            Err(e)
        },
    }
}

} // verus!
