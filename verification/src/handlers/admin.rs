use vstd::prelude::*;
use dashmap::DashSet;
use crate::clock::now_utc;
use crate::directory::{
    acting_role, acting_role_of, find_user, find_user_with_login, has_user, max_id, max_user_id,
    named, role_grants, role_permits, with_login,
};
use crate::ids::{id_chars, random_str};
use crate::models::{
    ApiError, Credential, CredentialView, Role, RoleConfig, RoleView, User, UserView, default_gender,
    default_network_location, role_views, seq_views, user_views,
};
use crate::presence::online_count;
use crate::seqs::{first_index, first_match, lemma_first_index, lemma_first_index_at};
use crate::text::{clone_strings, decimal, str_eq, u64_to_decimal, views};

verus! {

broadcast use vstd::string::group_string_axioms;

/// How long a credential stays valid: thirty days, in milliseconds.
pub const CREDENTIAL_LIFETIME_MS: u64 = 2592000000;

/// A token as it is issued: the user name, the issue time in milliseconds and a random
/// suffix, joined by colons.
pub open spec fn token_text(username: Seq<char>, millis: u64, suffix: Seq<char>) -> Seq<char> {
    username + ":"@ + decimal(millis as nat) + ":"@ + suffix
}

/// Joins a user name, an issue time and a suffix into a token.
pub fn token_for(username: &str, millis: u64, suffix: &str) -> (r: String)
    ensures
        r@ == token_text(username@, millis, suffix@),
{
    let stamp = u64_to_decimal(millis);
    let r = username.to_string().concat(":").concat(stamp.as_str()).concat(":").concat(suffix);
    proof {
        reveal_strlit(":");
    }
    r
}

/// Issues a token for `username` stamped with the current time and twelve random
/// characters.
pub fn create_token(username: &str) -> (r: String)
    ensures
        exists|millis: u64, seed: u64| r@ == #[trigger] token_text(username@, millis, id_chars(seed, 12)),
{
    let now = now_utc();
    let suffix = random_str(12);
    token_for(username, now.millis, suffix.as_str())
}

/// A credential issued `now - created_at` milliseconds ago has outlived its lifetime.
/// The difference is taken modulo 2^64, so a credential stamped after `now` counts as
/// expired unless it is stamped very far ahead.
pub open spec fn expired(now: u64, created_at: u64) -> bool {
    now.wrapping_sub(created_at) > CREDENTIAL_LIFETIME_MS
}

/// Credentials that carry `token`.
pub open spec fn with_token(token: Seq<char>) -> spec_fn(CredentialView) -> bool {
    |c: CredentialView| c.token == token
}

/// Credentials of `username` that carry `token`.
pub open spec fn with_user_token(username: Seq<char>, token: Seq<char>) -> spec_fn(CredentialView) -> bool {
    |c: CredentialView| c.username == username && c.token == token
}

/// The credentials that a removal keyed by token (`by_token`) or by user name keeps.
pub open spec fn kept_credential(by_token: bool, key: Seq<char>) -> spec_fn(CredentialView) -> bool {
    |c: CredentialView| if by_token { c.token != key } else { c.username != key }
}

/// Removes the credentials whose token (`by_token`) or user name equals `key`, keeping
/// the others in order.
pub fn retain_credentials(creds: &mut Vec<Credential>, by_token: bool, key: &str)
    ensures
        seq_views(final(creds)@) == seq_views(old(creds)@).filter(kept_credential(by_token, key@)),
{
    let ghost s = seq_views(creds@);
    let ghost p = kept_credential(by_token, key@);
    let mut out: Vec<Credential> = Vec::new();
    let mut i: usize = 0;
    proof {
        reveal(Seq::filter);
        assert(s.take(0).filter(p) =~= Seq::<CredentialView>::empty());
    }
    while i < creds.len()
        invariant
            0 <= i <= creds@.len(),
            s == seq_views(creds@),
            p == kept_credential(by_token, key@),
            seq_views(out@) == s.take(i as int).filter(p),
        decreases creds@.len() - i,
    {
        proof {
            reveal(Seq::filter);
            assert(s.take(i + 1).drop_last() =~= s.take(i as int));
            assert(s.take(i + 1).last() == creds@[i as int]@);
        }
        let keep = if by_token {
            !str_eq(creds[i].token.as_str(), key)
        } else {
            !str_eq(creds[i].username.as_str(), key)
        };
        if keep {
            let c = creds[i].clone();
            let ghost before = out@;
            out.push(c);
            assert(seq_views(out@) =~= seq_views(before).push(c@));
        }
        i = i + 1;
    }
    assert(s.take(creds@.len() as int) =~= s);
    *creds = out;
}

/// An optional string taken as optional text.
pub open spec fn opt_text(o: Option<String>) -> Option<Seq<char>> {
    match o {
        Some(s) => Some(s@),
        None => None,
    }
}

/// What checking `token` at time `now` gives: the user the first credential with it
/// belongs to, while that credential is within its lifetime; and the credentials left,
/// every credential with the token being dropped once the first has expired.
pub open spec fn token_check(creds: Seq<CredentialView>, token: Seq<char>, now: u64) -> (
    Option<Seq<char>>,
    Seq<CredentialView>,
) {
    match first_match(creds, with_token(token)) {
        None => (None, creds),
        Some(c) => if expired(now, c.created_at) {
            (None, creds.filter(kept_credential(true, token)))
        } else {
            (Some(c.username), creds)
        },
    }
}

/// The position of the first credential that satisfies the search: by token alone, or
/// by user name and token.
fn find_credential(creds: &Vec<Credential>, username: Option<&str>, token: &str) -> (r: Option<usize>)
    ensures
        match username {
            None => crate::directory::opt_int(r) == first_index(seq_views(creds@), with_token(token@)),
            Some(u) => crate::directory::opt_int(r) == first_index(seq_views(creds@), with_user_token(u@, token@)),
        },
{
    let ghost s = seq_views(creds@);
    let ghost p = match username {
        None => with_token(token@),
        Some(u) => with_user_token(u@, token@),
    };
    let mut i: usize = 0;
    while i < creds.len()
        invariant
            0 <= i <= creds@.len(),
            s == seq_views(creds@),
            p == (match username {
                None => with_token(token@),
                Some(u) => with_user_token(u@, token@),
            }),
            forall|k: int| 0 <= k < i ==> !p(#[trigger] s[k]),
        decreases creds@.len() - i,
    {
        let hit = match username {
            None => str_eq(creds[i].token.as_str(), token),
            Some(u) => str_eq(creds[i].username.as_str(), u) && str_eq(creds[i].token.as_str(), token),
        };
        assert(s[i as int] == creds@[i as int]@);
        if hit {
            proof {
                lemma_first_index_at(s, p, i as int);
            }
            return Some(i);
        }
        i = i + 1;
    }
    proof {
        lemma_first_index_at(s, p, i as int);
    }
    None
}

/// Checks `token` at time `now`: gives the user it was issued to while it is within its
/// lifetime; an expired token is dropped from the credentials.
pub fn verify_token_at(creds: &mut Vec<Credential>, token: &str, now: u64) -> (r: Option<String>)
    ensures
        opt_text(r) == token_check(seq_views(old(creds)@), token@, now).0,
        seq_views(final(creds)@) == token_check(seq_views(old(creds)@), token@, now).1,
{
    let found = find_credential(creds, None, token);
    proof {
        lemma_first_index(seq_views(creds@), with_token(token@));
    }
    match found {
        None => None,
        Some(i) => {
            assert(seq_views(creds@)[i as int] == creds@[i as int]@);
            if now.wrapping_sub(creds[i].created_at) > CREDENTIAL_LIFETIME_MS {
                retain_credentials(creds, true, token);
                None
            } else {
                Some(creds[i].username.clone())
            }
        },
    }
}

/// Checks `token` against the current time, as [`verify_token_at`] does.
pub fn verify_token(creds: &mut Vec<Credential>, token: &str) -> (r: Option<String>)
    ensures
        exists|now: u64|
            opt_text(r) == (#[trigger] token_check(seq_views(old(creds)@), token@, now)).0
                && seq_views(final(creds)@) == token_check(seq_views(old(creds)@), token@, now).1,
{
    let now = now_utc();
    verify_token_at(creds, token, now.millis)
}

/// The answer to a credential check of `username` and `token` at time `now`.
pub open spec fn credential_outcome(creds: Seq<CredentialView>, username: Seq<char>, token: Seq<char>, now: u64) -> Result<(), ApiError> {
    if username.len() == 0 || token.len() == 0 {
        Err(ApiError::EmptyUsernameOrToken)
    } else {
        match first_match(creds, with_user_token(username, token)) {
            None => Err(ApiError::CredentialNotRecognised),
            Some(c) => if expired(now, c.created_at) {
                Err(ApiError::CredentialExpired)
            } else {
                Ok(())
            },
        }
    }
}

/// Checks that `token` is a live credential of `username` at time `now`; an expired one
/// is dropped, with every other credential carrying the same token.
pub fn credential_verify_at(creds: &mut Vec<Credential>, username: &str, token: &str, now: u64) -> (r: Result<
    (),
    ApiError,
>)
    ensures
        r == credential_outcome(seq_views(old(creds)@), username@, token@, now),
        r matches Err(ApiError::CredentialExpired) ==> seq_views(final(creds)@) == seq_views(old(creds)@).filter(
            kept_credential(true, token@),
        ),
        !(r matches Err(ApiError::CredentialExpired)) ==> final(creds)@ == old(creds)@,
{
    if username.is_empty() || token.is_empty() {
        return Err(ApiError::EmptyUsernameOrToken);
    }
    let found = find_credential(creds, Some(username), token);
    proof {
        lemma_first_index(seq_views(creds@), with_user_token(username@, token@));
    }
    match found {
        None => Err(ApiError::CredentialNotRecognised),
        Some(i) => {
            assert(seq_views(creds@)[i as int] == creds@[i as int]@);
            if now.wrapping_sub(creds[i].created_at) > CREDENTIAL_LIFETIME_MS {
                retain_credentials(creds, true, token);
                Err(ApiError::CredentialExpired)
            } else {
                Ok(())
            }
        },
    }
}

/// Checks a credential against the current time, as [`credential_verify_at`] does.
pub fn credential_verify(creds: &mut Vec<Credential>, username: &str, token: &str) -> (r: Result<(), ApiError>)
    ensures
        exists|now: u64| r == #[trigger] credential_outcome(seq_views(old(creds)@), username@, token@, now),
        r matches Err(ApiError::CredentialExpired) ==> seq_views(final(creds)@) == seq_views(old(creds)@).filter(
            kept_credential(true, token@),
        ),
        !(r matches Err(ApiError::CredentialExpired)) ==> final(creds)@ == old(creds)@,
{
    let now = now_utc();
    credential_verify_at(creds, username, token, now.millis)
}

/// A session opened by an administrative login.
#[derive(Debug)]
pub struct AdminSession {
    pub token: String,
    pub username: String,
    pub role: String,
}

/// Some account has this name and password.
pub open spec fn has_login(users: Seq<UserView>, name: Seq<char>, password: Seq<char>) -> bool {
    exists|i: int| 0 <= i < users.len() && (#[trigger] with_login(name, password)(users[i]))
}

/// The role an administrative login of `name` with `password` opens a session with, or
/// why it is refused. The name `admin` is accepted with the password of any account so
/// named; any other name with the password of the first account so named.
pub open spec fn admin_login_outcome(users: Seq<UserView>, name: Seq<char>, password: Seq<char>) -> Result<Seq<char>, ApiError> {
    if name.len() == 0 || password.len() == 0 {
        Err(ApiError::EmptyUsernameOrPassword)
    } else if name == "admin"@ {
        if has_login(users, name, password) {
            Ok("admin"@)
        } else {
            Err(ApiError::WrongAdminPassword)
        }
    } else {
        match first_match(users, named(name)) {
            Some(u) => if u.password == password {
                Ok(u.role)
            } else {
                Err(ApiError::WrongPassword)
            },
            None => Err(ApiError::UserNotFound),
        }
    }
}

/// The credentials after a session with `token` is opened for `name` at `now`: earlier
/// credentials of the name are dropped and the new one appended.
pub open spec fn with_session(creds: Seq<CredentialView>, name: Seq<char>, token: Seq<char>, now: u64) -> Seq<CredentialView> {
    creds.filter(kept_credential(false, name)).push(CredentialView { username: name, token, created_at: now })
}

/// Opens an administrative session with the given token and time stamp.
pub fn admin_login_at(
    users: &Vec<User>,
    creds: &mut Vec<Credential>,
    username: &str,
    password: &str,
    token: String,
    now: u64,
) -> (r: Result<AdminSession, ApiError>)
    ensures
        match admin_login_outcome(user_views(users@), username@, password@) {
            Ok(role) => {
                &&& r matches Ok(s) && s.token@ == token@ && s.username@ == username@ && s.role@ == role
                &&& seq_views(final(creds)@) == with_session(seq_views(old(creds)@), username@, token@, now)
            },
            Err(e) => r matches Err(f) && f == e && final(creds)@ == old(creds)@,
        },
{
    if username.is_empty() || password.is_empty() {
        return Err(ApiError::EmptyUsernameOrPassword);
    }
    let role: String;
    if str_eq(username, "admin") {
        let found = find_user_with_login(users, username, password);
        proof {
            lemma_first_index(user_views(users@), with_login(username@, password@));
        }
        if found.is_none() {
            return Err(ApiError::WrongAdminPassword);
        }
        role = "admin".to_string();
    } else {
        let found = find_user(users, username);
        proof {
            lemma_first_index(user_views(users@), named(username@));
        }
        match found {
            Some(k) => {
                if !str_eq(users[k].password.as_str(), password) {
                    return Err(ApiError::WrongPassword);
                }
                role = users[k].role.clone();
            },
            None => {
                return Err(ApiError::UserNotFound);
            },
        }
    }
    retain_credentials(creds, false, username);
    let c = Credential { username: username.to_string(), token: token.clone(), created_at: now };
    let ghost before = creds@;
    creds.push(c);
    assert(seq_views(creds@) =~= seq_views(before).push(c@));
    Ok(AdminSession { token, username: username.to_string(), role })
}

/// Opens an administrative session: the token is issued as [`create_token`] does, and its
/// credential is stamped with the current time.
pub fn admin_login(users: &Vec<User>, creds: &mut Vec<Credential>, username: &str, password: &str) -> (r: Result<
    AdminSession,
    ApiError,
>)
    ensures
        match admin_login_outcome(user_views(users@), username@, password@) {
            Ok(role) => r matches Ok(s) && s.username@ == username@ && s.role@ == role && (exists|millis: u64, seed: u64|
                s.token@ == #[trigger] token_text(username@, millis, id_chars(seed, 12))) && (exists|now: u64|
                seq_views(final(creds)@) == #[trigger] with_session(seq_views(old(creds)@), username@, s.token@, now)),
            Err(e) => r matches Err(f) && f == e && final(creds)@ == old(creds)@,
        },
{
    if username.is_empty() || password.is_empty() {
        return Err(ApiError::EmptyUsernameOrPassword);
    }
    let token = create_token(username);
    let now = now_utc();
    admin_login_at(users, creds, username, password, token, now.millis)
}

/// One line of the account list.
#[derive(Debug)]
pub struct AccountSummary {
    pub id: u64,
    pub username: String,
    pub name: String,
    pub email: String,
    pub role: String,
    pub title: String,
    pub subject: String,
    pub managed_nodes: Vec<String>,
    pub avatar: String,
}

/// The value of an [`AccountSummary`] with its strings taken as character sequences.
pub struct AccountSummaryView {
    pub id: u64,
    pub username: Seq<char>,
    pub name: Seq<char>,
    pub email: Seq<char>,
    pub role: Seq<char>,
    pub title: Seq<char>,
    pub subject: Seq<char>,
    pub managed_nodes: Seq<Seq<char>>,
    pub avatar: Seq<char>,
}

impl View for AccountSummary {
    type V = AccountSummaryView;

    open spec fn view(&self) -> AccountSummaryView {
        AccountSummaryView {
            id: self.id,
            username: self.username@,
            name: self.name@,
            email: self.email@,
            role: self.role@,
            title: self.title@,
            subject: self.subject@,
            managed_nodes: views(self.managed_nodes@),
            avatar: self.avatar@,
        }
    }
}

/// The account-list line of an account.
pub open spec fn summary_of(u: UserView) -> AccountSummaryView {
    AccountSummaryView {
        id: u.id,
        username: u.username,
        name: u.name,
        email: u.email,
        role: u.role,
        title: u.title,
        subject: u.subject,
        managed_nodes: u.managed_nodes,
        avatar: u.avatar,
    }
}

/// Lists every account for an authenticated caller; `auth` is the user that
/// [`verify_token`] found for the caller's token.
pub fn get_accounts(users: &Vec<User>, auth: Option<String>) -> (r: Result<Vec<AccountSummary>, ApiError>)
    ensures
        auth is None ==> r matches Err(ApiError::InvalidCredential),
        auth is Some ==> (r matches Ok(v) && seq_views(v@) == user_views(users@).map_values(
            |u: UserView| summary_of(u),
        )),
{
    if auth.is_none() {
        return Err(ApiError::InvalidCredential);
    }
    let ghost s = user_views(users@);
    let ghost f = |u: UserView| summary_of(u);
    let mut out: Vec<AccountSummary> = Vec::new();
    let mut i: usize = 0;
    while i < users.len()
        invariant
            0 <= i <= users@.len(),
            s == user_views(users@),
            f == (|u: UserView| summary_of(u)),
            seq_views(out@) == s.take(i as int).map_values(f),
        decreases users@.len() - i,
    {
        let u = &users[i];
        let a = AccountSummary {
            id: u.id,
            username: u.username.clone(),
            name: u.name.clone(),
            email: u.email.clone(),
            role: u.role.clone(),
            title: u.title.clone(),
            subject: u.subject.clone(),
            managed_nodes: clone_strings(&u.managed_nodes),
            avatar: u.avatar.clone(),
        };
        let ghost av = a@;
        assert(s[i as int] == users@[i as int]@);
        assert(av == summary_of(s[i as int]));
        let ghost before = out@;
        out.push(a);
        assert(seq_views(out@) =~= seq_views(before).push(av));
        assert(s.take(i + 1).map_values(f) =~= s.take(i as int).map_values(f).push(f(s[i as int])));
        assert(seq_views(out@) =~= s.take(i + 1).map_values(f));
        i = i + 1;
    }
    assert(s.take(users@.len() as int) =~= s);
    Ok(out)
}

/// The fields of a new account; missing ones take their defaults.
#[derive(Debug)]
pub struct NewAccount {
    pub username: Option<String>,
    pub password: Option<String>,
    pub role: Option<String>,
    pub email: Option<String>,
    pub name: Option<String>,
    pub title: Option<String>,
    pub subject: Option<String>,
    pub managed_nodes: Option<Vec<String>>,
}

/// The text of an optional field, `default` when it is missing.
pub open spec fn text_or(f: Option<String>, default: Seq<char>) -> Seq<char> {
    match f {
        Some(s) => s@,
        None => default,
    }
}

/// The names of an optional list, `default` when it is missing.
pub open spec fn names_or(f: Option<Vec<String>>, default: Seq<Seq<char>>) -> Seq<Seq<char>> {
    match f {
        Some(v) => views(v@),
        None => default,
    }
}

/// The account an administrator creates from `req` with id `id`: a missing role is
/// `student`, a missing email `<name>@local`, a missing display name the user name.
pub open spec fn new_account(id: u64, req: NewAccount) -> UserView {
    let name = text_or(req.username, Seq::empty());
    UserView {
        id,
        username: name,
        password: text_or(req.password, Seq::empty()),
        email: text_or(req.email, name + "@local"@),
        name: text_or(req.name, name),
        role: text_or(req.role, "student"@),
        avatar: Seq::empty(),
        signature: Seq::empty(),
        birthday: Seq::empty(),
        gender: "none"@,
        starred_users: Seq::empty(),
        friends: Seq::empty(),
        title: text_or(req.title, Seq::empty()),
        subject: text_or(req.subject, Seq::empty()),
        managed_nodes: names_or(req.managed_nodes, Seq::empty()),
        network_location: "public"@,
    }
}

/// Why creating an account is refused, if it is: the caller must be authenticated, and
/// hold `manage_users` through its role or be `admin`; the new name and password must be
/// given and the name free.
pub open spec fn add_account_refusal(users: Seq<UserView>, roles: Seq<RoleView>, auth: Option<Seq<char>>, req: NewAccount) -> Option<ApiError> {
    match auth {
        None => Some(ApiError::InvalidCredential),
        Some(a) => {
            let name = text_or(req.username, Seq::empty());
            let password = text_or(req.password, Seq::empty());
            if !role_grants(roles, acting_role(users, a), "manage_users"@) && a != "admin"@ {
                Some(ApiError::PermissionDenied)
            } else if name.len() == 0 || password.len() == 0 {
                Some(ApiError::EmptyNewAccountFields)
            } else if has_user(users, name) {
                Some(ApiError::UsernameTaken)
            } else {
                None
            }
        },
    }
}

fn text_or_default(f: Option<String>, default: String) -> (r: String)
    ensures
        r@ == text_or(f, default@),
{
    match f {
        Some(s) => s,
        None => default,
    }
}

/// The text of an optional field, borrowed; empty when it is missing.
fn field_or_empty(f: &Option<String>) -> (r: &str)
    ensures
        r@ == text_or(*f, Seq::empty()),
{
    match f {
        Some(s) => s.as_str(),
        None => {
            proof {
                reveal_strlit("");
            }
            ""
        },
    }
}

/// Why creating the account `req` on behalf of `auth` is refused, if it is; `roles` is
/// the role configuration.
pub fn add_account_check(users: &Vec<User>, roles: &Vec<Role>, auth: &Option<String>, req: &NewAccount) -> (r: Option<
    ApiError,
>)
    ensures
        r == add_account_refusal(user_views(users@), role_views(roles@), opt_text(*auth), *req),
{
    let a = match auth {
        None => {
            return Some(ApiError::InvalidCredential);
        },
        Some(a) => a,
    };
    let role = acting_role_of(users, a.as_str());
    let can_manage = role_permits(roles, role.as_str(), "manage_users");
    if !can_manage && !str_eq(a.as_str(), "admin") {
        return Some(ApiError::PermissionDenied);
    }
    let username = field_or_empty(&req.username);
    let password = field_or_empty(&req.password);
    if username.is_empty() || password.is_empty() {
        return Some(ApiError::EmptyNewAccountFields);
    }
    if find_user(users, username).is_some() {
        return Some(ApiError::UsernameTaken);
    }
    None
}

/// Creates an account on behalf of `auth`, the user that [`verify_token`] found for the
/// caller's token; `roles` is the role configuration. The account takes the next id
/// after the largest and is appended and given back.
pub fn add_account(users: &mut Vec<User>, roles: &Vec<Role>, auth: Option<String>, req: NewAccount) -> (r: Result<
    User,
    ApiError,
>)
    requires
        add_account_refusal(user_views(old(users)@), role_views(roles@), opt_text(auth), req) is None ==> max_user_id(
            user_views(old(users)@),
        ) < u64::MAX,
    ensures
        match add_account_refusal(user_views(old(users)@), role_views(roles@), opt_text(auth), req) {
            Some(e) => r matches Err(f) && f == e && final(users)@ == old(users)@,
            None => {
                let acc = new_account((max_user_id(user_views(old(users)@)) + 1) as u64, req);
                &&& r matches Ok(u) && u@ == acc
                &&& user_views(final(users)@) == user_views(old(users)@).push(acc)
            },
        },
{
    if let Some(e) = add_account_check(users, roles, &auth, &req) {
        return Err(e);
    }
    let ghost req_v = req;
    let username = text_or_default(req.username, String::new());
    let password = text_or_default(req.password, String::new());
    if username.as_str().is_empty() || password.as_str().is_empty() {
        return Err(ApiError::EmptyNewAccountFields);
    }
    if find_user(users, username.as_str()).is_some() {
        return Err(ApiError::UsernameTaken);
    }
    let top = max_id(users);
    let local = username.clone().concat("@local");
    let managed_nodes = match req.managed_nodes {
        Some(v) => v,
        None => Vec::new(),
    };
    let u = User {
        id: top + 1,
        username: username.clone(),
        password,
        email: text_or_default(req.email, local),
        name: text_or_default(req.name, username.clone()),
        role: text_or_default(req.role, "student".to_string()),
        avatar: String::new(),
        signature: String::new(),
        birthday: String::new(),
        gender: default_gender(),
        starred_users: Vec::new(),
        friends: Vec::new(),
        title: text_or_default(req.title, String::new()),
        subject: text_or_default(req.subject, String::new()),
        managed_nodes,
        network_location: default_network_location(),
    };
    assert(views(u.friends@) =~= Seq::<Seq<char>>::empty());
    assert(views(u.starred_users@) =~= Seq::<Seq<char>>::empty());
    assert(u@.managed_nodes == names_or(req_v.managed_nodes, Seq::empty())) by {
        if req_v.managed_nodes is None {
            assert(views(u.managed_nodes@) =~= Seq::<Seq<char>>::empty());
        }
    }
    let ghost before = users@;
    let c = u.clone();
    users.push(c);
    assert(user_views(users@) =~= user_views(before).push(u@));
    Ok(u)
}

/// Deletes the account `target` on behalf of `auth`, the user that [`verify_token`]
/// found for the caller's token, together with the target's credentials. No one may
/// delete their own account.
pub fn delete_account(users: &mut Vec<User>, creds: &mut Vec<Credential>, auth: Option<String>, target: &str) -> (r:
    Result<(), ApiError>)
    ensures
        auth is None ==> (r matches Err(ApiError::InvalidCredential) && final(users)@ == old(users)@ && final(creds)@
            == old(creds)@),
        (auth matches Some(a) && a@ == target@) ==> (r matches Err(ApiError::CannotDeleteSelf) && final(users)@ == old(
            users,
        )@ && final(creds)@ == old(creds)@),
        (auth matches Some(a) && a@ != target@) ==> match first_index(user_views(old(users)@), named(target@)) {
            Some(k) => {
                &&& r is Ok
                &&& user_views(final(users)@) == user_views(old(users)@).remove(k)
                &&& seq_views(final(creds)@) == seq_views(old(creds)@).filter(kept_credential(false, target@))
            },
            None => r matches Err(ApiError::UserNotFound) && final(users)@ == old(users)@ && final(creds)@ == old(
                creds,
            )@,
        },
{
    let a = match auth {
        None => {
            return Err(ApiError::InvalidCredential);
        },
        Some(a) => a,
    };
    if str_eq(target, a.as_str()) {
        return Err(ApiError::CannotDeleteSelf);
    }
    let found = find_user(users, target);
    proof {
        lemma_first_index(user_views(users@), named(target@));
    }
    match found {
        Some(k) => {
            let ghost before = users@;
            users.remove(k);
            assert(user_views(users@) =~= user_views(before).remove(k as int));
            retain_credentials(creds, false, target);
            Ok(())
        },
        None => Err(ApiError::UserNotFound),
    }
}

/// Changes to an account's administrative fields; a missing one stays as it is.
#[derive(Debug)]
pub struct AccountChanges {
    pub name: Option<String>,
    pub role: Option<String>,
    pub title: Option<String>,
    pub subject: Option<String>,
    pub email: Option<String>,
    pub managed_nodes: Option<Vec<String>>,
}

/// An account with `changes` applied.
pub open spec fn changed_account(u: UserView, changes: AccountChanges) -> UserView {
    UserView {
        name: text_or(changes.name, u.name),
        role: text_or(changes.role, u.role),
        title: text_or(changes.title, u.title),
        subject: text_or(changes.subject, u.subject),
        email: text_or(changes.email, u.email),
        managed_nodes: names_or(changes.managed_nodes, u.managed_nodes),
        ..u
    }
}

/// Updates the account `target` for an authenticated caller (`auth` being what
/// [`verify_token`] found for its token); gives the updated account.
pub fn update_account(users: &mut Vec<User>, auth: Option<String>, target: &str, changes: AccountChanges) -> (r: Result<
    User,
    ApiError,
>)
    ensures
        auth is None ==> (r matches Err(ApiError::InvalidCredential) && final(users)@ == old(users)@),
        auth is Some ==> match first_index(user_views(old(users)@), named(target@)) {
            Some(k) => {
                let u = changed_account(user_views(old(users)@)[k], changes);
                &&& r matches Ok(a) && a@ == u
                &&& user_views(final(users)@) == user_views(old(users)@).update(k, u)
            },
            None => r matches Err(ApiError::UserNotFound) && final(users)@ == old(users)@,
        },
{
    if auth.is_none() {
        return Err(ApiError::InvalidCredential);
    }
    let found = find_user(users, target);
    proof {
        lemma_first_index(user_views(users@), named(target@));
    }
    match found {
        Some(k) => {
            let ghost ch = changes;
            let mut u = users[k].clone();
            let ghost u0 = u@;
            if let Some(v) = changes.name {
                u.name = v;
            }
            if let Some(v) = changes.role {
                u.role = v;
            }
            if let Some(v) = changes.title {
                u.title = v;
            }
            if let Some(v) = changes.subject {
                u.subject = v;
            }
            if let Some(v) = changes.email {
                u.email = v;
            }
            if let Some(v) = changes.managed_nodes {
                u.managed_nodes = v;
            }
            assert(u@ == changed_account(u0, ch));
            let ghost before = users@;
            let c = u.clone();
            users.set(k, c);
            assert(user_views(users@) =~= user_views(before).update(k as int, u@));
            Ok(u)
        },
        None => Err(ApiError::UserNotFound),
    }
}

/// The roles of the role configuration.
pub fn get_roles(config: &RoleConfig) -> (r: Vec<Role>)
    ensures
        role_views(r@) == role_views(config.roles@),
{
    let mut out: Vec<Role> = Vec::new();
    let mut i: usize = 0;
    while i < config.roles.len()
        invariant
            0 <= i <= config.roles@.len(),
            role_views(out@) == role_views(config.roles@).take(i as int),
        decreases config.roles@.len() - i,
    {
        let c = config.roles[i].clone();
        let ghost before = out@;
        out.push(c);
        assert(role_views(out@) =~= role_views(before).push(c@));
        assert(role_views(out@) =~= role_views(config.roles@).take(i + 1));
        i = i + 1;
    }
    assert(role_views(config.roles@).take(config.roles@.len() as int) =~= role_views(config.roles@));
    out
}

/// The number of accounts, and of users online as the shared set counts them.
pub fn account_stats(users: &Vec<User>, online: &DashSet<String>) -> (r: (usize, usize))
    ensures
        r.0 == users@.len(),
{
    (users.len(), online_count(online))
}

} // verus!
