use vstd::prelude::*;
use dashmap::DashSet;
use crate::directory::{
    count_email, email_uses, find_user, find_user_with_login, has_user, max_id, max_user_id, with_login,
};
use crate::models::{
    ApiError, User, UserPublic, UserView, default_gender, default_network_location, default_role,
    public_of, user_views,
};
use crate::presence::{is_online, mark_offline, mark_online};
use crate::seqs::{first_match, lemma_first_index};
use crate::text::{chars_of, is_alphanumeric, unicode_alphanumeric, views};

verus! {

broadcast use vstd::string::group_string_axioms;

/// A login request; a missing field counts as empty.
#[derive(Debug)]
pub struct LoginReq {
    pub username: Option<String>,
    pub password: Option<String>,
}

/// A registration request; a missing field counts as empty, a missing network
/// location as `public`. The requested role is not used: new accounts are teachers.
#[derive(Debug)]
pub struct RegisterReq {
    pub username: Option<String>,
    pub password: Option<String>,
    pub email: Option<String>,
    pub role: Option<String>,
    pub network_location: Option<String>,
}

/// The text of an optional field, empty when it is missing.
pub open spec fn field_text(f: Option<String>) -> Seq<char> {
    match f {
        Some(s) => s@,
        None => Seq::empty(),
    }
}

/// The text of an optional field, empty when it is missing.
pub fn text_or_empty(f: Option<String>) -> (r: String)
    ensures
        r@ == field_text(f),
{
    match f {
        Some(s) => s,
        None => String::new(),
    }
}

/// The answer to a login with `name` and `password`: the public view of the first
/// account with both, or why there is none.
pub open spec fn login_outcome(users: Seq<UserView>, name: Seq<char>, password: Seq<char>) -> Result<
    crate::models::UserPublicView,
    ApiError,
> {
    if name.len() == 0 || password.len() == 0 {
        Err(ApiError::EmptyUsernameOrPassword)
    } else {
        match first_match(users, with_login(name, password)) {
            Some(u) => Ok(public_of(u)),
            None => Err(ApiError::WrongUsernameOrPassword),
        }
    }
}

/// Logs a user in: on success the name joins the users online and the account's public
/// view is given.
pub fn login(online: &DashSet<String>, users: &Vec<User>, req: LoginReq) -> (r: Result<UserPublic, ApiError>)
    ensures
        match login_outcome(user_views(users@), field_text(req.username), field_text(req.password)) {
            Ok(p) => r matches Ok(q) && q@ == p,
            Err(e) => r == Err::<UserPublic, ApiError>(e),
        },
{
    let username = text_or_empty(req.username);
    let password = text_or_empty(req.password);
    if username.as_str().is_empty() || password.as_str().is_empty() {
        return Err(ApiError::EmptyUsernameOrPassword);
    }
    let found = find_user_with_login(users, username.as_str(), password.as_str());
    proof {
        lemma_first_index(user_views(users@), with_login(username@, password@));
    }
    match found {
        Some(i) => {
            mark_online(online, username.as_str());
            Ok(UserPublic::from_user(users[i].clone()))
        },
        None => Err(ApiError::WrongUsernameOrPassword),
    }
}

/// A character allowed in a user name: a letter or digit, `_`, `|`, `~` or `:`.
pub open spec fn username_char(c: char) -> bool {
    unicode_alphanumeric(c) || c == '_' || c == '|' || c == '~' || c == ':'
}

/// A user name made of allowed characters only.
pub open spec fn valid_username(name: Seq<char>) -> bool {
    forall|i: int| 0 <= i < name.len() ==> username_char(#[trigger] name[i])
}

/// Whether every character of `name` is allowed in a user name.
pub fn username_allowed(name: &str) -> (r: bool)
    ensures
        r == valid_username(name@),
{
    let cs = chars_of(name);
    let mut i: usize = 0;
    while i < cs.len()
        invariant
            0 <= i <= cs@.len(),
            cs@ == name@,
            forall|k: int| 0 <= k < i ==> username_char(#[trigger] name@[k]),
        decreases cs@.len() - i,
    {
        let c = cs[i];
        if !(is_alphanumeric(c) || c == '_' || c == '|' || c == '~' || c == ':') {
            assert(!username_char(name@[i as int]));
            return false;
        }
        i = i + 1;
    }
    true
}

/// The account a registration creates.
pub open spec fn registered_account(
    id: u64,
    username: Seq<char>,
    password: Seq<char>,
    email: Seq<char>,
    network_location: Seq<char>,
) -> UserView {
    UserView {
        id,
        username,
        password,
        email,
        name: username,
        role: "teacher"@,
        avatar: Seq::empty(),
        signature: Seq::empty(),
        birthday: Seq::empty(),
        gender: "none"@,
        starred_users: Seq::empty(),
        friends: Seq::empty(),
        title: Seq::empty(),
        subject: Seq::empty(),
        managed_nodes: Seq::empty(),
        network_location,
    }
}

/// The network location a registration asks for, `public` when it names none.
pub open spec fn requested_location(f: Option<String>) -> Seq<char> {
    match f {
        Some(s) => s@,
        None => "public"@,
    }
}

/// Why a registration is refused, if it is.
pub open spec fn registration_refusal(users: Seq<UserView>, req: RegisterReq) -> Option<ApiError> {
    let name = field_text(req.username);
    let password = field_text(req.password);
    let email = field_text(req.email);
    if name.len() == 0 || password.len() == 0 || email.len() == 0 {
        Some(ApiError::EmptyRegistrationFields)
    } else if !valid_username(name) {
        Some(ApiError::InvalidUsernameCharacters)
    } else if has_user(users, name) {
        Some(ApiError::UsernameTaken)
    } else if email_uses(users, email) >= 2 {
        Some(ApiError::EmailLimitReached)
    } else {
        None
    }
}

/// The text of an optional field, borrowed; empty when it is missing.
fn field_str(f: &Option<String>) -> (r: &str)
    ensures
        r@ == field_text(*f),
{
    match f {
        Some(s) => s.as_str(),
        None => {
            proof {
                reveal_strlit("");
            }
            ""
        },
    }
}

/// Why the registration `req` is refused against the accounts `users`, if it is.
pub fn registration_check(users: &Vec<User>, req: &RegisterReq) -> (r: Option<ApiError>)
    ensures
        r == registration_refusal(user_views(users@), *req),
{
    let username = field_str(&req.username);
    let password = field_str(&req.password);
    let email = field_str(&req.email);
    if username.is_empty() || password.is_empty() || email.is_empty() {
        return Some(ApiError::EmptyRegistrationFields);
    }
    if !username_allowed(username) {
        return Some(ApiError::InvalidUsernameCharacters);
    }
    if find_user(users, username).is_some() {
        return Some(ApiError::UsernameTaken);
    }
    if count_email(users, email) >= 2 {
        return Some(ApiError::EmailLimitReached);
    }
    None
}

/// Registers a teacher account: the name must be free and made of letters, digits, `_`,
/// `|`, `~` and `:`, and an email address serves at most two accounts. The new account
/// takes the next id after the largest and is appended and given back.
pub fn register(users: &mut Vec<User>, req: RegisterReq) -> (r: Result<User, ApiError>)
    requires
        registration_refusal(user_views(old(users)@), req) is None ==> max_user_id(user_views(old(users)@)) < u64::MAX,
    ensures
        match registration_refusal(user_views(old(users)@), req) {
            Some(e) => r == Err::<User, ApiError>(e) && final(users)@ == old(users)@,
            None => {
                let acc = registered_account(
                    (max_user_id(user_views(old(users)@)) + 1) as u64,
                    field_text(req.username),
                    field_text(req.password),
                    field_text(req.email),
                    requested_location(req.network_location),
                );
                &&& r matches Ok(u) && u@ == acc
                &&& user_views(final(users)@) == user_views(old(users)@).push(acc)
            },
        },
{
    if let Some(e) = registration_check(users, &req) {
        return Err(e);
    }
    let username = text_or_empty(req.username);
    let password = text_or_empty(req.password);
    let email = text_or_empty(req.email);
    let top = max_id(users);
    let network_location = match req.network_location {
        Some(s) => s,
        None => default_network_location(),
    };
    let u = User {
        id: top + 1,
        username: username.clone(),
        password,
        email,
        name: username,
        role: default_role(),
        avatar: String::new(),
        signature: String::new(),
        birthday: String::new(),
        gender: default_gender(),
        starred_users: Vec::new(),
        friends: Vec::new(),
        title: String::new(),
        subject: String::new(),
        managed_nodes: Vec::new(),
        network_location,
    };
    assert(views(u.friends@) =~= Seq::<Seq<char>>::empty());
    assert(views(u.starred_users@) =~= Seq::<Seq<char>>::empty());
    assert(views(u.managed_nodes@) =~= Seq::<Seq<char>>::empty());
    let ghost before = users@;
    let c = u.clone();
    users.push(c);
    assert(user_views(users@) =~= user_views(before).push(u@));
    Ok(u)
}

/// Registers as [`register`] does where the next id fits: gives `None`, and leaves the
/// accounts as they are, when the registration would go through but the largest id is
/// already the largest `u64`.
pub fn try_register(users: &mut Vec<User>, req: RegisterReq) -> (r: Option<Result<User, ApiError>>)
    ensures
        match registration_refusal(user_views(old(users)@), req) {
            Some(e) => r == Some(Err::<User, ApiError>(e)) && final(users)@ == old(users)@,
            None => if max_user_id(user_views(old(users)@)) < u64::MAX {
                let acc = registered_account(
                    (max_user_id(user_views(old(users)@)) + 1) as u64,
                    field_text(req.username),
                    field_text(req.password),
                    field_text(req.email),
                    requested_location(req.network_location),
                );
                &&& r matches Some(Ok(u)) && u@ == acc
                &&& user_views(final(users)@) == user_views(old(users)@).push(acc)
            } else {
                r is None && final(users)@ == old(users)@
            },
        },
{
    if let Some(e) = registration_check(users, &req) {
        return Some(Err(e));
    }
    if max_id(users) == u64::MAX {
        return None;
    }
    Some(register(users, req))
}

/// What checking a password before logging out gives: the first account with the name
/// and password, or why there is none.
pub open spec fn logout_check(users: Seq<UserView>, name: Seq<char>, password: Seq<char>) -> Result<UserView, ApiError> {
    if name.len() == 0 || password.len() == 0 {
        Err(ApiError::EmptyUsernameOrPassword)
    } else {
        match first_match(users, with_login(name, password)) {
            Some(u) => Ok(u),
            None => Err(ApiError::WrongPassword),
        }
    }
}

/// Checks the password of a user about to log out; gives the account it belongs to.
pub fn logout_verify(users: &Vec<User>, req: LoginReq) -> (r: Result<User, ApiError>)
    ensures
        match logout_check(user_views(users@), field_text(req.username), field_text(req.password)) {
            Ok(u) => r matches Ok(a) && a@ == u,
            Err(e) => r == Err::<User, ApiError>(e),
        },
{
    let username = text_or_empty(req.username);
    let password = text_or_empty(req.password);
    if username.as_str().is_empty() || password.as_str().is_empty() {
        return Err(ApiError::EmptyUsernameOrPassword);
    }
    let found = find_user_with_login(users, username.as_str(), password.as_str());
    proof {
        lemma_first_index(user_views(users@), with_login(username@, password@));
    }
    match found {
        Some(i) => Ok(users[i].clone()),
        None => Err(ApiError::WrongPassword),
    }
}

/// Logs `username` out: it leaves the users online.
pub fn user_logout(online: &DashSet<String>, username: &str) -> (r: Result<(), ApiError>)
    ensures
        r is Ok <==> username@.len() > 0,
        r matches Err(e) ==> e == ApiError::EmptyUsername,
{
    if username.is_empty() {
        return Err(ApiError::EmptyUsername);
    }
    mark_offline(online, username);
    Ok(())
}

/// What a presence report does to the set of users online.
#[derive(Debug, Clone, Copy, PartialEq, Eq, Structural)]
pub enum PresenceAction {
    MarkOnline,
    MarkOffline,
    Keep,
}

/// `login` marks the user online, `logout` offline; any other report changes nothing.
pub fn presence_action(action: &str) -> (r: PresenceAction)
    ensures
        r == (if action@ == "login"@ {
            PresenceAction::MarkOnline
        } else if action@ == "logout"@ {
            PresenceAction::MarkOffline
        } else {
            PresenceAction::Keep
        }),
{
    if crate::text::str_eq(action, "login") {
        PresenceAction::MarkOnline
    } else if crate::text::str_eq(action, "logout") {
        PresenceAction::MarkOffline
    } else {
        PresenceAction::Keep
    }
}

/// Applies a presence report of `username` and tells whether it is online afterwards.
pub fn user_online(online: &DashSet<String>, username: &str, action: &str) -> (r: Result<bool, ApiError>)
    ensures
        r is Ok <==> username@.len() > 0,
        r matches Err(e) ==> e == ApiError::EmptyUsername,
{
    if username.is_empty() {
        return Err(ApiError::EmptyUsername);
    }
    match presence_action(action) {
        PresenceAction::MarkOnline => mark_online(online, username),
        PresenceAction::MarkOffline => mark_offline(online, username),
        PresenceAction::Keep => {},
    }
    Ok(is_online(online, username))
}

/// Tells whether `username` is online.
pub fn check_online(online: &DashSet<String>, username: &str) -> (r: Result<bool, ApiError>)
    ensures
        r is Ok <==> username@.len() > 0,
        r matches Err(e) ==> e == ApiError::EmptyUsername,
{
    if username.is_empty() {
        return Err(ApiError::EmptyUsername);
    }
    Ok(is_online(online, username))
}

} // verus!
