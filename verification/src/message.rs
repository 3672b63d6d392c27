//! A plain message record: a timestamp and the author/content fields,
//! without an assigned id.

use vstd::prelude::*;

verus! {

/// A timestamped message.
///
/// Unlike a [`crate::post::Post`], a `Message` has no identifier; it is a
/// bare record of who said what, and when.
pub struct Message {
    pub timestamp: String,
    pub login: String,
    pub user_agent: String,
    pub message: String,
}

impl Message {
    /// Constructs a new `Message` from its four fields, stored verbatim.
    pub fn new(p_timestamp: String, p_login: String, p_user_agent: String, p_message: String) -> (r:
        Message)
        ensures
            r.timestamp@ == p_timestamp@,
            r.login@ == p_login@,
            r.user_agent@ == p_user_agent@,
            r.message@ == p_message@,
    {
        Message { timestamp: p_timestamp, login: p_login, user_agent: p_user_agent, message: p_message }
    }

    /// Tells whether the message is from an authenticated user, that is,
    /// whether its login is non-empty.
    pub fn is_authenticated(&self) -> (r: bool)
        ensures
            r == (self.login@.len() != 0),
    {
        !self.login.as_str().is_empty()
    }
}

} // verus!
