use vstd::prelude::*;
use crate::models::{User, UserPublic, UserPublicView, UserView, seq_views, user_views};
use crate::text::{chars_of, string_from_chars};

verus! {

/// `s` without the slashes at its end.
pub open spec fn without_trailing_slashes(s: Seq<char>) -> Seq<char>
    decreases s.len(),
{
    if s.len() > 0 && s.last() == '/' {
        without_trailing_slashes(s.drop_last())
    } else {
        s
    }
}

/// The address a secondary server pulls the accounts from.
pub open spec fn sync_address(master_url: Seq<char>, secret: Seq<char>) -> Seq<char> {
    without_trailing_slashes(master_url) + "/api/sync/users?secret="@ + secret
}

/// The address of the account list of the primary server at `master_url`, with the
/// shared `secret` as query.
pub fn sync_url(master_url: &str, secret: &str) -> (r: String)
    ensures
        r@ == sync_address(master_url@, secret@),
{
    let cs = chars_of(master_url);
    let mut n: usize = cs.len();
    assert(cs@.take(n as int) =~= master_url@);
    while n > 0 && cs[n - 1] == '/'
        invariant
            0 <= n <= cs@.len(),
            cs@ == master_url@,
            without_trailing_slashes(cs@.take(n as int)) == without_trailing_slashes(master_url@),
        decreases n,
    {
        assert(cs@.take(n as int).drop_last() =~= cs@.take(n - 1));
        n = n - 1;
    }
    let mut out: Vec<char> = Vec::new();
    let mut i: usize = 0;
    while i < n
        invariant
            0 <= i <= n <= cs@.len(),
            out@ == cs@.take(i as int),
        decreases n - i,
    {
        out.push(cs[i]);
        assert(out@ =~= cs@.take(i + 1));
        i = i + 1;
    }
    let base = string_from_chars(&out);
    proof {
        assert(without_trailing_slashes(cs@.take(n as int)) == cs@.take(n as int));
        assert(cs@.take(cs@.len() as int) =~= master_url@);
    }
    base.concat("/api/sync/users?secret=").concat(secret)
}

/// The accounts to store from a reply of the primary server: those it sent, when it
/// reported success and sent an account list; otherwise nothing is stored.
pub fn accepted_sync(success: Option<bool>, users: Option<Vec<User>>) -> (r: Option<Vec<User>>)
    ensures
        success == Some(true) ==> r == users,
        success != Some(true) ==> r is None,
{
    match success {
        Some(true) => users,
        _ => None,
    }
}

/// The account a public record sent by the primary server stands for: its fields as
/// sent and no password, which the primary does not send.
pub open spec fn synced_account(p: UserPublicView) -> UserView {
    UserView {
        id: p.id,
        username: p.username,
        password: Seq::empty(),
        email: p.email,
        name: p.name,
        role: p.role,
        avatar: p.avatar,
        signature: p.signature,
        birthday: p.birthday,
        gender: p.gender,
        starred_users: p.starred_users,
        friends: p.friends,
        title: p.title,
        subject: p.subject,
        managed_nodes: p.managed_nodes,
        network_location: p.network_location,
    }
}

/// The accounts the public records sent by the primary server stand for, in order.
pub fn accounts_from_public(records: Vec<UserPublic>) -> (r: Vec<User>)
    ensures
        user_views(r@) == seq_views(records@).map_values(|p: UserPublicView| synced_account(p)),
{
    let ghost src = seq_views(records@);
    let ghost f = |p: UserPublicView| synced_account(p);
    let mut out: Vec<User> = Vec::new();
    let n = records.len();
    let mut rest = records;
    let mut i: usize = 0;
    while rest.len() > 0
        invariant
            i + rest@.len() == src.len(),
            src.len() == n,
            seq_views(rest@) == src.skip(i as int),
            user_views(out@) == src.take(i as int).map_values(f),
            f == (|p: UserPublicView| synced_account(p)),
        decreases rest@.len(),
    {
        let ghost before_rest = rest@;
        let p = rest.remove(0);
        assert(p@ == seq_views(before_rest)[0]);
        assert(p@ == src[i as int]);
        assert forall|k: int| 0 <= k < rest@.len() implies #[trigger] seq_views(rest@)[k] == src.skip(i + 1)[k] by {
            assert(rest@[k] == before_rest[k + 1]);
            assert(seq_views(before_rest)[k + 1] == src.skip(i as int)[k + 1]);
        }
        assert(seq_views(rest@) =~= src.skip(i + 1));
        let u = User {
            id: p.id,
            username: p.username,
            password: String::new(),
            email: p.email,
            name: p.name,
            role: p.role,
            avatar: p.avatar,
            signature: p.signature,
            birthday: p.birthday,
            gender: p.gender,
            starred_users: p.starred_users,
            friends: p.friends,
            title: p.title,
            subject: p.subject,
            managed_nodes: p.managed_nodes,
            network_location: p.network_location,
        };
        assert(u@ == synced_account(src[i as int]));
        let ghost before = out@;
        out.push(u);
        assert(user_views(out@) =~= user_views(before).push(u@));
        assert(src.take(i + 1).map_values(f) =~= src.take(i as int).map_values(f).push(f(src[i as int])));
        i = i + 1;
    }
    assert(src.take(i as int) =~= src);
    out
}

} // verus!
