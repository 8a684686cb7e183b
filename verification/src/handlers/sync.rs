use vstd::prelude::*;
use dashmap::DashSet;
use crate::models::{ApiError, User, UserPublic, UserPublicView, public_of, user_views};
use crate::presence::{is_online, online_names};
use crate::text::str_eq;

verus! {

/// The query of a sync request from a secondary server.
#[derive(Debug)]
pub struct SyncQuery {
    pub secret: String,
    pub since: Option<String>,
}

/// What a sync request is answered with: every account in public view, each marked with
/// whether it is online, and the names of the users online.
#[derive(Debug)]
pub struct SyncReply {
    pub users: Vec<UserPublic>,
    pub online_users: Vec<String>,
}

/// The public view of an account marked with some presence.
pub open spec fn public_with_presence(u: crate::models::UserView, p: UserPublicView) -> bool {
    &&& p.online is Some
    &&& p == UserPublicView { online: p.online, ..public_of(u) }
}

/// Answers a sync request: `expected` is the shared secret the server was started with;
/// an empty one refuses every request. Whether each user is online is read from the
/// shared set of users online.
pub fn sync_users(expected: &str, query: &SyncQuery, users: &Vec<User>, online: &DashSet<String>) -> (r: Result<
    SyncReply,
    ApiError,
>)
    ensures
        (expected@.len() == 0 || query.secret@ != expected@) ==> r matches Err(ApiError::Unauthorized),
        (expected@.len() > 0 && query.secret@ == expected@) ==> (r matches Ok(rep) && rep.users@.len() == users@.len() && forall|
            i: int,
        |
            0 <= i < users@.len() ==> public_with_presence(#[trigger] user_views(users@)[i], rep.users@[i]@)),
{
    if expected.is_empty() || !str_eq(query.secret.as_str(), expected) {
        return Err(ApiError::Unauthorized);
    }
    let mut out: Vec<UserPublic> = Vec::new();
    let mut i: usize = 0;
    while i < users.len()
        invariant
            0 <= i <= users@.len(),
            out@.len() == i,
            forall|k: int| 0 <= k < i ==> public_with_presence(#[trigger] user_views(users@)[k], out@[k]@),
        decreases users@.len() - i,
    {
        let on = is_online(online, users[i].username.as_str());
        let mut p = UserPublic::from_user(users[i].clone());
        p.online = Some(on);
        assert(user_views(users@)[i as int] == users@[i as int]@);
        out.push(p);
        i = i + 1;
    }
    Ok(SyncReply { users: out, online_users: online_names(online) })
}

} // verus!
