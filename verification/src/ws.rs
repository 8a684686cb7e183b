use vstd::prelude::*;
use crate::text::str_eq;

verus! {

/// The user a WebSocket text message authenticates, given its `type` and `username`
/// fields where they are strings: an `auth` message names its user; any other message
/// authenticates no one.
pub fn auth_user_of(msg_type: Option<&str>, username: Option<&str>) -> (r: Option<String>)
    ensures
        match (msg_type, username) {
            (Some(t), Some(u)) => if t@ == "auth"@ {
                r matches Some(n) && n@ == u@
            } else {
                r is None
            },
            _ => r is None,
        },
{
    match (msg_type, username) {
        (Some(t), Some(u)) => {
            if str_eq(t, "auth") {
                Some(u.to_string())
            } else {
                None
            }
        },
        _ => None,
    }
}

/// The user a WebSocket session stays authenticated as after a message: a message that
/// authenticates someone replaces the current user, any other keeps it.
pub fn session_user(current: Option<String>, msg_type: Option<&str>, username: Option<&str>) -> (r: Option<String>)
    ensures
        match (msg_type, username) {
            (Some(t), Some(u)) => if t@ == "auth"@ {
                r matches Some(n) && n@ == u@
            } else {
                r == current
            },
            _ => r == current,
        },
{
    match auth_user_of(msg_type, username) {
        Some(n) => Some(n),
        None => current,
    }
}

} // verus!
