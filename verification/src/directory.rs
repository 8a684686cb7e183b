use vstd::prelude::*;
use crate::models::{Role, RoleView, User, UserView, role_views, user_views};
use crate::seqs::{first_index, first_match, lemma_first_index, lemma_first_index_at};
use crate::text::{contains_str, str_eq};

verus! {

broadcast use vstd::string::group_string_axioms;

/// An `Option<usize>` taken as an optional integer.
pub open spec fn opt_int(o: Option<usize>) -> Option<int> {
    match o {
        Some(i) => Some(i as int),
        None => None,
    }
}

/// Accounts named `name`.
pub open spec fn named(name: Seq<char>) -> spec_fn(UserView) -> bool {
    |u: UserView| u.username == name
}

/// Accounts named `name` whose password is `password`.
pub open spec fn with_login(name: Seq<char>, password: Seq<char>) -> spec_fn(UserView) -> bool {
    |u: UserView| u.username == name && u.password == password
}

/// Roles whose id is `id`.
pub open spec fn role_with_id(id: Seq<char>) -> spec_fn(RoleView) -> bool {
    |r: RoleView| r.id == id
}

/// Whether some account is named `name`.
pub open spec fn has_user(users: Seq<UserView>, name: Seq<char>) -> bool {
    first_index(users, named(name)) is Some
}

/// The largest account id, 0 for an empty list.
pub open spec fn max_user_id(users: Seq<UserView>) -> u64
    decreases users.len(),
{
    if users.len() == 0 {
        0
    } else {
        let m = max_user_id(users.drop_last());
        if users.last().id > m { users.last().id } else { m }
    }
}

/// The largest account id is at least each id, and 0 or one of them.
pub proof fn lemma_max_user_id(users: Seq<UserView>)
    ensures
        forall|i: int| 0 <= i < users.len() ==> (#[trigger] users[i]).id <= max_user_id(users),
        max_user_id(users) == 0 || exists|i: int| 0 <= i < users.len() && (#[trigger] users[i]).id == max_user_id(users),
    decreases users.len(),
{
    if users.len() > 0 {
        let init = users.drop_last();
        lemma_max_user_id(init);
        assert forall|i: int| 0 <= i < users.len() implies (#[trigger] users[i]).id <= max_user_id(users) by {
            if i < users.len() - 1 {
                assert(users[i] == init[i]);
            }
        }
        if max_user_id(users) != 0 && max_user_id(users) != users.last().id {
            let k = choose|i: int| 0 <= i < init.len() && (#[trigger] init[i]).id == max_user_id(init);
            assert(users[k] == init[k]);
        }
    }
}

/// The largest account id, 0 for an empty list.
pub fn max_id(users: &Vec<User>) -> (r: u64)
    ensures
        r == max_user_id(user_views(users@)),
{
    let ghost s = user_views(users@);
    let mut m: u64 = 0;
    let mut i: usize = 0;
    while i < users.len()
        invariant
            0 <= i <= users@.len(),
            s == user_views(users@),
            m == max_user_id(s.take(i as int)),
        decreases users@.len() - i,
    {
        assert(s.take(i + 1).drop_last() =~= s.take(i as int));
        if users[i].id > m {
            m = users[i].id;
        }
        i = i + 1;
    }
    assert(s.take(users@.len() as int) =~= s);
    m
}

/// How many accounts use `email`.
pub open spec fn email_uses(users: Seq<UserView>, email: Seq<char>) -> nat {
    users.filter(|u: UserView| u.email == email).len()
}

/// How many accounts use `email`.
pub fn count_email(users: &Vec<User>, email: &str) -> (r: usize)
    ensures
        r == email_uses(user_views(users@), email@),
{
    let ghost s = user_views(users@);
    let ghost p = |u: UserView| u.email == email@;
    let mut n: usize = 0;
    let mut i: usize = 0;
    proof {
        reveal(Seq::filter);
        assert(s.take(0).filter(p) =~= Seq::<UserView>::empty());
    }
    while i < users.len()
        invariant
            0 <= i <= users@.len(),
            s == user_views(users@),
            p == (|u: UserView| u.email == email@),
            n == s.take(i as int).filter(p).len(),
            n <= i,
        decreases users@.len() - i,
    {
        proof {
            reveal(Seq::filter);
            assert(s.take(i + 1).drop_last() =~= s.take(i as int));
        }
        if str_eq(users[i].email.as_str(), email) {
            n = n + 1;
        }
        i = i + 1;
    }
    assert(s.take(users@.len() as int) =~= s);
    n
}

/// The position of the first account named `name`.
pub fn find_user(users: &Vec<User>, name: &str) -> (r: Option<usize>)
    ensures
        opt_int(r) == first_index(user_views(users@), named(name@)),
{
    let ghost s = user_views(users@);
    let mut i: usize = 0;
    while i < users.len()
        invariant
            0 <= i <= users@.len(),
            s == user_views(users@),
            forall|k: int| 0 <= k < i ==> !named(name@)(#[trigger] s[k]),
        decreases users@.len() - i,
    {
        if str_eq(users[i].username.as_str(), name) {
            proof {
                lemma_first_index_at(s, named(name@), i as int);
            }
            return Some(i);
        }
        i = i + 1;
    }
    proof {
        lemma_first_index_at(s, named(name@), i as int);
    }
    None
}

/// The position of the first account named `name` whose password is `password`.
pub fn find_user_with_login(users: &Vec<User>, name: &str, password: &str) -> (r: Option<usize>)
    ensures
        opt_int(r) == first_index(user_views(users@), with_login(name@, password@)),
{
    let ghost s = user_views(users@);
    let mut i: usize = 0;
    while i < users.len()
        invariant
            0 <= i <= users@.len(),
            s == user_views(users@),
            forall|k: int| 0 <= k < i ==> !with_login(name@, password@)(#[trigger] s[k]),
        decreases users@.len() - i,
    {
        if str_eq(users[i].username.as_str(), name) && str_eq(users[i].password.as_str(), password) {
            proof {
                lemma_first_index_at(s, with_login(name@, password@), i as int);
            }
            return Some(i);
        }
        i = i + 1;
    }
    proof {
        lemma_first_index_at(s, with_login(name@, password@), i as int);
    }
    None
}

/// The id of the role that `name` acts with: the role of the first account so named,
/// `guest` when there is none.
pub open spec fn acting_role(users: Seq<UserView>, name: Seq<char>) -> Seq<char> {
    match first_match(users, named(name)) {
        Some(u) => u.role,
        None => "guest"@,
    }
}

/// Whether the first role with id `role_id` grants `permission`.
pub open spec fn role_grants(roles: Seq<RoleView>, role_id: Seq<char>, permission: Seq<char>) -> bool {
    match first_match(roles, role_with_id(role_id)) {
        Some(r) => r.permissions.contains(permission),
        None => false,
    }
}

/// Whether the first role with id `role_id` grants `permission`.
pub fn role_permits(roles: &Vec<Role>, role_id: &str, permission: &str) -> (r: bool)
    ensures
        r == role_grants(role_views(roles@), role_id@, permission@),
{
    let ghost s = role_views(roles@);
    let mut i: usize = 0;
    while i < roles.len()
        invariant
            0 <= i <= roles@.len(),
            s == role_views(roles@),
            forall|k: int| 0 <= k < i ==> !role_with_id(role_id@)(#[trigger] s[k]),
        decreases roles@.len() - i,
    {
        if str_eq(roles[i].id.as_str(), role_id) {
            proof {
                lemma_first_index_at(s, role_with_id(role_id@), i as int);
            }
            return contains_str(&roles[i].permissions, permission);
        }
        i = i + 1;
    }
    proof {
        lemma_first_index_at(s, role_with_id(role_id@), i as int);
    }
    false
}

/// The role id that `name` acts with.
pub fn acting_role_of(users: &Vec<User>, name: &str) -> (r: String)
    ensures
        r@ == acting_role(user_views(users@), name@),
{
    let found = find_user(users, name);
    proof {
        lemma_first_index(user_views(users@), named(name@));
    }
    match found {
        Some(i) => users[i].role.clone(),
        None => "guest".to_string(),
    }
}

} // verus!
