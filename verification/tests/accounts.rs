use dashmap::DashSet;
use electronic_server::handlers::admin::{
    account_stats, add_account, add_account_check, admin_login_at, create_token, credential_verify_at, delete_account,
    get_accounts, get_roles, retain_credentials, token_for, update_account, verify_token_at,
    AccountChanges, NewAccount, CREDENTIAL_LIFETIME_MS,
};
use electronic_server::handlers::auth::{
    check_online, login, logout_verify, presence_action, register, registration_check, try_register, user_logout, user_online,
    username_allowed, LoginReq, PresenceAction, RegisterReq,
};
use electronic_server::models::{ApiError, Credential, Role, RoleConfig, User};

fn account(id: u64, username: &str, password: &str, email: &str, role: &str) -> User {
    User {
        id,
        username: username.to_string(),
        password: password.to_string(),
        email: email.to_string(),
        name: username.to_string(),
        role: role.to_string(),
        avatar: String::new(),
        signature: String::new(),
        birthday: String::new(),
        gender: "none".to_string(),
        starred_users: vec![],
        friends: vec![],
        title: String::new(),
        subject: String::new(),
        managed_nodes: vec![],
        network_location: "public".to_string(),
    }
}

fn directory() -> Vec<User> {
    vec![
        account(1, "admin", "root", "admin@school", "admin"),
        account(4, "alice", "pw1", "shared@mail", "teacher"),
        account(2, "bob", "pw2", "shared@mail", "student"),
    ]
}

fn role_list() -> Vec<Role> {
    vec![
        Role { id: "admin".to_string(), name: "Admin".to_string(), permissions: vec!["manage_users".to_string(), "broadcast_all".to_string()] },
        Role { id: "teacher".to_string(), name: "Teacher".to_string(), permissions: vec!["broadcast_class".to_string()] },
        Role { id: "student".to_string(), name: "Student".to_string(), permissions: vec![] },
    ]
}

fn login_req(u: Option<&str>, p: Option<&str>) -> LoginReq {
    LoginReq { username: u.map(|s| s.to_string()), password: p.map(|s| s.to_string()) }
}

fn register_req(u: &str, p: &str, e: &str, loc: Option<&str>) -> RegisterReq {
    RegisterReq {
        username: Some(u.to_string()),
        password: Some(p.to_string()),
        email: Some(e.to_string()),
        role: Some("admin".to_string()),
        network_location: loc.map(|s| s.to_string()),
    }
}

#[test]
fn login_gives_public_view_and_marks_online() {
    let online = DashSet::new();
    let users = directory();
    let p = login(&online, &users, login_req(Some("alice"), Some("pw1"))).unwrap();
    assert_eq!(p.username, "alice");
    assert_eq!(p.id, 4);
    assert_eq!(p.online, None);
    assert!(online.contains("alice"));
}

#[test]
fn login_refusals() {
    let online = DashSet::new();
    let users = directory();
    assert_eq!(login(&online, &users, login_req(None, Some("pw1"))).unwrap_err(), ApiError::EmptyUsernameOrPassword);
    assert_eq!(login(&online, &users, login_req(Some("alice"), Some(""))).unwrap_err(), ApiError::EmptyUsernameOrPassword);
    assert_eq!(login(&online, &users, login_req(Some("alice"), Some("nope"))).unwrap_err(), ApiError::WrongUsernameOrPassword);
    assert!(online.is_empty());
}

#[test]
fn register_appends_teacher_with_next_id() {
    let mut users = directory();
    let u = register(&mut users, register_req("carol_1|x~y:z", "pw", "carol@mail", None)).unwrap();
    assert_eq!(u.id, 5);
    assert_eq!(u.role, "teacher");
    assert_eq!(u.name, "carol_1|x~y:z");
    assert_eq!(u.gender, "none");
    assert_eq!(u.network_location, "public");
    assert_eq!(users.len(), 4);
    assert_eq!(users[3].username, "carol_1|x~y:z");
}

#[test]
fn register_keeps_requested_location() {
    let mut users = directory();
    let u = register(&mut users, register_req("dave", "pw", "d@mail", Some("lan"))).unwrap();
    assert_eq!(u.network_location, "lan");
}

#[test]
fn register_refusals() {
    let mut users = directory();
    let empty = RegisterReq { username: Some("x".to_string()), password: None, email: Some("e".to_string()), role: None, network_location: None };
    assert_eq!(register(&mut users, empty).unwrap_err(), ApiError::EmptyRegistrationFields);
    assert_eq!(register(&mut users, register_req("bad name", "pw", "e@x", None)).unwrap_err(), ApiError::InvalidUsernameCharacters);
    assert_eq!(register(&mut users, register_req("bob", "pw", "e@x", None)).unwrap_err(), ApiError::UsernameTaken);
    assert_eq!(register(&mut users, register_req("eve", "pw", "shared@mail", None)).unwrap_err(), ApiError::EmailLimitReached);
    assert_eq!(users.len(), 3);
}

#[test]
fn registered_user_logs_in() {
    let online = DashSet::new();
    let mut users = directory();
    register(&mut users, register_req("frank", "secret", "f@mail", None)).unwrap();
    let p = login(&online, &users, login_req(Some("frank"), Some("secret"))).unwrap();
    assert_eq!(p.id, 5);
    assert_eq!(p.role, "teacher");
}

#[test]
fn username_characters() {
    assert!(username_allowed("Zoë_9"));
    assert!(username_allowed("a|b~c:d"));
    assert!(!username_allowed("a-b"));
    assert!(!username_allowed("a b"));
    assert!(username_allowed(""));
}

#[test]
fn logout_verify_checks_password() {
    let users = directory();
    let u = logout_verify(&users, login_req(Some("bob"), Some("pw2"))).unwrap();
    assert_eq!(u.id, 2);
    assert_eq!(u.role, "student");
    assert_eq!(logout_verify(&users, login_req(Some("bob"), Some("x"))).unwrap_err(), ApiError::WrongPassword);
    assert_eq!(logout_verify(&users, login_req(Some(""), Some("x"))).unwrap_err(), ApiError::EmptyUsernameOrPassword);
}

#[test]
fn presence_reports() {
    let online = DashSet::new();
    assert_eq!(presence_action("login"), PresenceAction::MarkOnline);
    assert_eq!(presence_action("logout"), PresenceAction::MarkOffline);
    assert_eq!(presence_action("ping"), PresenceAction::Keep);
    assert_eq!(user_online(&online, "amy", "login"), Ok(true));
    assert_eq!(check_online(&online, "amy"), Ok(true));
    assert_eq!(user_online(&online, "amy", "ping"), Ok(true));
    assert_eq!(user_online(&online, "amy", "logout"), Ok(false));
    assert_eq!(user_online(&online, "", "login"), Err(ApiError::EmptyUsername));
    assert_eq!(check_online(&online, ""), Err(ApiError::EmptyUsername));
    online.insert("ben".to_string());
    assert_eq!(user_logout(&online, "ben"), Ok(()));
    assert!(!online.contains("ben"));
    assert_eq!(user_logout(&online, ""), Err(ApiError::EmptyUsername));
}

#[test]
fn token_format() {
    assert_eq!(token_for("alice", 1700000000123, "abc123def456"), "alice:1700000000123:abc123def456");
    let t = create_token("bob");
    let parts: Vec<&str> = t.split(':').collect();
    assert_eq!(parts.len(), 3);
    assert_eq!(parts[0], "bob");
    assert!(parts[1].parse::<u64>().is_ok());
    assert_eq!(parts[2].len(), 12);
    assert!(parts[2].chars().all(|c| c.is_ascii_lowercase() || c.is_ascii_digit()));
}

fn cred(u: &str, t: &str, at: u64) -> Credential {
    Credential { username: u.to_string(), token: t.to_string(), created_at: at }
}

#[test]
fn token_within_lifetime_verifies() {
    let mut creds = vec![cred("alice", "t1", 1000), cred("bob", "t2", 2000)];
    assert_eq!(CREDENTIAL_LIFETIME_MS, 30 * 24 * 60 * 60 * 1000);
    assert_eq!(verify_token_at(&mut creds, "t2", 2000 + CREDENTIAL_LIFETIME_MS), Some("bob".to_string()));
    assert_eq!(creds.len(), 2);
    assert_eq!(verify_token_at(&mut creds, "zz", 5000), None);
    assert_eq!(creds.len(), 2);
}

#[test]
fn expired_token_is_dropped() {
    let mut creds = vec![cred("alice", "t1", 1000), cred("bob", "t2", 2000), cred("carl", "t1", 3000)];
    assert_eq!(verify_token_at(&mut creds, "t1", 1001 + CREDENTIAL_LIFETIME_MS), None);
    assert_eq!(creds.len(), 1);
    assert_eq!(creds[0].username, "bob");
}

#[test]
fn credential_check_answers() {
    let mut creds = vec![cred("alice", "t1", 1000)];
    assert_eq!(credential_verify_at(&mut creds, "", "t1", 1000), Err(ApiError::EmptyUsernameOrToken));
    assert_eq!(credential_verify_at(&mut creds, "bob", "t1", 1000), Err(ApiError::CredentialNotRecognised));
    assert_eq!(credential_verify_at(&mut creds, "alice", "t1", 5000), Ok(()));
    assert_eq!(creds.len(), 1);
    assert_eq!(credential_verify_at(&mut creds, "alice", "t1", 1001 + CREDENTIAL_LIFETIME_MS), Err(ApiError::CredentialExpired));
    assert!(creds.is_empty());
}

#[test]
fn credentials_removed_by_user_or_token() {
    let mut creds = vec![cred("a", "x", 1), cred("b", "y", 2), cred("a", "z", 3)];
    retain_credentials(&mut creds, false, "a");
    assert_eq!(creds.len(), 1);
    assert_eq!(creds[0].token, "y");
    retain_credentials(&mut creds, true, "y");
    assert!(creds.is_empty());
}

#[test]
fn admin_login_outcomes() {
    let users = directory();
    let mut creds = vec![cred("alice", "old", 1), cred("bob", "b", 2)];
    let s = admin_login_at(&users, &mut creds, "alice", "pw1", "new".to_string(), 99).unwrap();
    assert_eq!(s.role, "teacher");
    assert_eq!(s.token, "new");
    assert_eq!(creds.len(), 2);
    assert_eq!(creds[0].username, "bob");
    assert_eq!(creds[1].token, "new");
    assert_eq!(creds[1].created_at, 99);
    let a = admin_login_at(&users, &mut creds, "admin", "root", "adm".to_string(), 5).unwrap();
    assert_eq!(a.role, "admin");
    assert_eq!(admin_login_at(&users, &mut creds, "admin", "bad", "t".to_string(), 5).unwrap_err(), ApiError::WrongAdminPassword);
    assert_eq!(admin_login_at(&users, &mut creds, "bob", "bad", "t".to_string(), 5).unwrap_err(), ApiError::WrongPassword);
    assert_eq!(admin_login_at(&users, &mut creds, "zed", "x", "t".to_string(), 5).unwrap_err(), ApiError::UserNotFound);
    assert_eq!(admin_login_at(&users, &mut creds, "", "x", "t".to_string(), 5).unwrap_err(), ApiError::EmptyUsernameOrPassword);
    assert_eq!(creds.len(), 3);
}

#[test]
fn session_token_verifies_after_login() {
    let users = directory();
    let mut creds = vec![];
    admin_login_at(&users, &mut creds, "bob", "pw2", "tok".to_string(), 10).unwrap();
    assert_eq!(verify_token_at(&mut creds, "tok", 10 + CREDENTIAL_LIFETIME_MS), Some("bob".to_string()));
}

#[test]
fn account_listing() {
    let users = directory();
    assert_eq!(get_accounts(&users, None).unwrap_err(), ApiError::InvalidCredential);
    let list = get_accounts(&users, Some("admin".to_string())).unwrap();
    assert_eq!(list.len(), 3);
    assert_eq!(list[1].username, "alice");
    assert_eq!(list[1].id, 4);
    assert_eq!(list[2].role, "student");
}

fn new_account_req(u: &str, p: &str) -> NewAccount {
    NewAccount { username: Some(u.to_string()), password: Some(p.to_string()), role: None, email: None, name: None, title: None, subject: None, managed_nodes: None }
}

#[test]
fn admin_creates_account_with_defaults() {
    let mut users = directory();
    let roles = role_list();
    let u = add_account(&mut users, &roles, Some("admin".to_string()), new_account_req("gina", "pw")).unwrap();
    assert_eq!(u.id, 5);
    assert_eq!(u.role, "student");
    assert_eq!(u.email, "gina@local");
    assert_eq!(u.name, "gina");
    assert_eq!(u.network_location, "public");
    assert_eq!(users.len(), 4);
}

#[test]
fn account_creation_refusals() {
    let mut users = directory();
    let roles = role_list();
    assert_eq!(add_account(&mut users, &roles, None, new_account_req("x", "y")).unwrap_err(), ApiError::InvalidCredential);
    assert_eq!(add_account(&mut users, &roles, Some("alice".to_string()), new_account_req("x", "y")).unwrap_err(), ApiError::PermissionDenied);
    assert_eq!(add_account(&mut users, &roles, Some("admin".to_string()), new_account_req("", "y")).unwrap_err(), ApiError::EmptyNewAccountFields);
    assert_eq!(add_account(&mut users, &roles, Some("admin".to_string()), new_account_req("bob", "y")).unwrap_err(), ApiError::UsernameTaken);
    assert_eq!(users.len(), 3);
}

#[test]
fn role_with_manage_users_may_create() {
    let mut users = directory();
    users.push(account(9, "head", "pw", "h@x", "admin"));
    let roles = role_list();
    let req = NewAccount {
        username: Some("ivy".to_string()),
        password: Some("pw".to_string()),
        role: Some("teacher".to_string()),
        email: Some("ivy@x".to_string()),
        name: Some("Ivy".to_string()),
        title: Some("Dr".to_string()),
        subject: Some("Math".to_string()),
        managed_nodes: Some(vec!["n1".to_string()]),
    };
    let u = add_account(&mut users, &roles, Some("head".to_string()), req).unwrap();
    assert_eq!(u.id, 10);
    assert_eq!(u.name, "Ivy");
    assert_eq!(u.email, "ivy@x");
    assert_eq!(u.managed_nodes, vec!["n1".to_string()]);
}

#[test]
fn account_deletion() {
    let mut users = directory();
    let mut creds = vec![cred("bob", "t", 1), cred("alice", "u", 2)];
    assert_eq!(delete_account(&mut users, &mut creds, None, "bob"), Err(ApiError::InvalidCredential));
    assert_eq!(delete_account(&mut users, &mut creds, Some("bob".to_string()), "bob"), Err(ApiError::CannotDeleteSelf));
    assert_eq!(delete_account(&mut users, &mut creds, Some("admin".to_string()), "nobody"), Err(ApiError::UserNotFound));
    assert_eq!(delete_account(&mut users, &mut creds, Some("admin".to_string()), "bob"), Ok(()));
    assert_eq!(users.len(), 2);
    assert_eq!(creds.len(), 1);
    assert_eq!(creds[0].username, "alice");
}

#[test]
fn account_update() {
    let mut users = directory();
    let none = AccountChanges { name: None, role: None, title: None, subject: None, email: None, managed_nodes: None };
    assert_eq!(update_account(&mut users, None, "bob", none).unwrap_err(), ApiError::InvalidCredential);
    let ch = AccountChanges { name: Some("Bobby".to_string()), role: None, title: Some("T".to_string()), subject: None, email: None, managed_nodes: Some(vec![]) };
    let u = update_account(&mut users, Some("admin".to_string()), "bob", ch).unwrap();
    assert_eq!(u.name, "Bobby");
    assert_eq!(u.role, "student");
    assert_eq!(users[2].title, "T");
    let none2 = AccountChanges { name: None, role: None, title: None, subject: None, email: None, managed_nodes: None };
    assert_eq!(update_account(&mut users, Some("admin".to_string()), "zz", none2).unwrap_err(), ApiError::UserNotFound);
}

#[test]
fn roles_and_stats() {
    let config = RoleConfig { roles: role_list() };
    let roles = get_roles(&config);
    assert_eq!(roles.len(), 3);
    assert_eq!(roles[0].permissions.len(), 2);
    let online = DashSet::new();
    online.insert("x".to_string());
    assert_eq!(account_stats(&directory(), &online), (3, 1));
}

#[test]
fn registration_check_names_the_refusal() {
    let mut users = directory();
    assert_eq!(registration_check(&users, &register_req("bad name", "pw", "e@x", None)), Some(ApiError::InvalidUsernameCharacters));
    assert_eq!(registration_check(&users, &register_req("eve", "pw", "shared@mail", None)), Some(ApiError::EmailLimitReached));
    assert_eq!(registration_check(&users, &register_req("eve", "pw", "e@mail", None)), None);
    users.push(account(u64::MAX, "top", "pw", "t@x", "teacher"));
    assert_eq!(registration_check(&users, &register_req("top", "pw", "e@mail", None)), Some(ApiError::UsernameTaken));
    assert_eq!(register(&mut users, register_req("top", "pw", "e@mail", None)).unwrap_err(), ApiError::UsernameTaken);
}

#[test]
fn account_check_names_the_refusal() {
    let users = directory();
    let roles = role_list();
    assert_eq!(add_account_check(&users, &roles, &None, &new_account_req("x", "y")), Some(ApiError::InvalidCredential));
    assert_eq!(add_account_check(&users, &roles, &Some("alice".to_string()), &new_account_req("x", "y")), Some(ApiError::PermissionDenied));
    assert_eq!(add_account_check(&users, &roles, &Some("admin".to_string()), &new_account_req("x", "")), Some(ApiError::EmptyNewAccountFields));
    assert_eq!(add_account_check(&users, &roles, &Some("admin".to_string()), &new_account_req("bob", "y")), Some(ApiError::UsernameTaken));
    assert_eq!(add_account_check(&users, &roles, &Some("admin".to_string()), &new_account_req("gina", "y")), None);
}

#[test]
fn try_register_guards_the_next_id() {
    let mut users = directory();
    let u = try_register(&mut users, register_req("hana", "pw", "h@mail", None)).unwrap().unwrap();
    assert_eq!(u.id, 5);
    assert!(matches!(try_register(&mut users, register_req("hana", "pw", "h@mail", None)), Some(Err(ApiError::UsernameTaken))));
    users.push(account(u64::MAX, "top", "pw", "t@x", "teacher"));
    let n = users.len();
    assert!(try_register(&mut users, register_req("ivan", "pw", "i@mail", None)).is_none());
    assert_eq!(users.len(), n);
}

#[test]
fn registration_keeps_names_unique_and_emails_limited() {
    let mut users = directory();
    register(&mut users, register_req("jo", "pw", "shared2@mail", None)).unwrap();
    register(&mut users, register_req("kim", "pw", "shared2@mail", None)).unwrap();
    assert_eq!(register(&mut users, register_req("lee", "pw", "shared2@mail", None)).unwrap_err(), ApiError::EmailLimitReached);
    assert_eq!(register(&mut users, register_req("jo", "pw", "other@mail", None)).unwrap_err(), ApiError::UsernameTaken);
    let mut names: Vec<&str> = users.iter().map(|u| u.username.as_str()).collect();
    names.sort();
    names.dedup();
    assert_eq!(names.len(), users.len());
    for u in &users {
        assert!(users.iter().filter(|v| v.email == u.email).count() <= 2);
    }
}
