use dashmap::DashSet;
use electronic_server::counts::upsert;
use electronic_server::directory::{acting_role_of, count_email, find_user, find_user_with_login, max_id, role_permits};
use electronic_server::handlers::sync::{sync_users, SyncQuery};
use electronic_server::ids::{random_str, random_str_from_seed};
use electronic_server::models::{default_gender, default_network_location, default_role, ApiError, Group, OrgNode, RequestStats, Role, RoleConfig, User, UserPublic};
use electronic_server::monitor::{
    events, events_at, health_check, process_count, process_estimate, server_process_count, server_uptime, uptime_days_hours,
    EventTimes,
};
use electronic_server::presence::users_online;
use electronic_server::stats::{auth_header, begin_request, begin_request_on, end_request};
use electronic_server::sync_client::{accepted_sync, accounts_from_public, sync_url};
use electronic_server::text::{
    chars_of, clone_strings, contains_str, insert_sorted_unique, parse_u64, sort_dedup, str_eq, str_lt, trim,
    u64_to_decimal, urlencoding,
};
use electronic_server::ws::{auth_user_of, session_user};

fn account_of(id: u64, username: &str, role: &str) -> User {
    User {
        id,
        username: username.to_string(),
        password: "pw".to_string(),
        email: "same@x".to_string(),
        name: username.to_string(),
        role: role.to_string(),
        avatar: String::new(),
        signature: String::new(),
        birthday: String::new(),
        gender: "none".to_string(),
        starred_users: vec![],
        friends: vec![],
        title: String::new(),
        subject: String::new(),
        managed_nodes: vec![],
        network_location: "public".to_string(),
    }
}

fn fresh_stats(day: &str) -> RequestStats {
    RequestStats {
        today_date: day.to_string(),
        total_requests: 0,
        error_requests: 0,
        peak_concurrency: 0,
        current_concurrency: 0,
        data_transfer_bytes: 0,
    }
}

#[test]
fn decimal_numbers_round_trip() {
    assert_eq!(u64_to_decimal(0), "0");
    assert_eq!(u64_to_decimal(1234567890), "1234567890");
    assert_eq!(u64_to_decimal(u64::MAX), "18446744073709551615");
    assert_eq!(parse_u64(&u64_to_decimal(987654321)), Some(987654321));
    assert_eq!(parse_u64("+15"), Some(15));
    assert_eq!(parse_u64("18446744073709551616"), None);
    assert_eq!(parse_u64(""), None);
    assert_eq!(parse_u64("+"), None);
    assert_eq!(parse_u64("-1"), None);
    assert_eq!(parse_u64("1a"), None);
}

#[test]
fn text_helpers() {
    assert_eq!(trim("  \t hi there \n"), "hi there");
    assert_eq!(trim("\u{3000}x\u{a0}"), "x");
    assert!(str_lt("abc", "abd"));
    assert!(str_lt("ab", "abc"));
    assert!(!str_lt("b", "abc"));
    assert!(str_eq("x", "x"));
    assert_eq!(chars_of("héllo").len(), 5);
    assert!(contains_str(&vec!["a".to_string(), "b".to_string()], "b"));
    assert_eq!(clone_strings(&vec!["q".to_string()]), vec!["q".to_string()]);
    assert_eq!(urlencoding("a b~c-d_e.f"), "a%20b~c-d_e.f");
    assert_eq!(urlencoding("ö!"), "ö%21");
    assert_eq!(urlencoding("\u{263a}"), "%3A");
}

#[test]
fn sorted_unique_lists() {
    let v: Vec<String> = ["b", "a", "c", "a", "b"].iter().map(|s| s.to_string()).collect();
    let mut s = sort_dedup(v);
    assert_eq!(s, vec!["a".to_string(), "b".to_string(), "c".to_string()]);
    insert_sorted_unique(&mut s, "bb".to_string());
    insert_sorted_unique(&mut s, "a".to_string());
    assert_eq!(s, vec!["a".to_string(), "b".to_string(), "bb".to_string(), "c".to_string()]);
}

#[test]
fn counts_upserted_by_key() {
    let mut v = vec![("a".to_string(), 1usize)];
    upsert(&mut v, "b".to_string(), 2);
    upsert(&mut v, "a".to_string(), 5);
    assert_eq!(v, vec![("a".to_string(), 5), ("b".to_string(), 2)]);
}

#[test]
fn directory_lookups() {
    let users = vec![account_of(3, "ann", "teacher"), account_of(7, "ben", "student"), account_of(5, "ann", "admin")];
    assert_eq!(max_id(&users), 7);
    assert_eq!(max_id(&vec![]), 0);
    assert_eq!(count_email(&users, "same@x"), 3);
    assert_eq!(find_user(&users, "ann"), Some(0));
    assert_eq!(find_user(&users, "zed"), None);
    assert_eq!(find_user_with_login(&users, "ben", "pw"), Some(1));
    assert_eq!(find_user_with_login(&users, "ben", "no"), None);
    assert_eq!(acting_role_of(&users, "ann"), "teacher");
    assert_eq!(acting_role_of(&users, "zed"), "guest");
    let roles = vec![Role { id: "teacher".to_string(), name: "T".to_string(), permissions: vec!["broadcast_class".to_string()] }];
    assert!(role_permits(&roles, "teacher", "broadcast_class"));
    assert!(!role_permits(&roles, "teacher", "manage_users"));
    assert!(!role_permits(&roles, "guest", "broadcast_class"));
}

#[test]
fn defaults() {
    assert_eq!(default_network_location(), "public");
    assert_eq!(default_role(), "teacher");
    assert_eq!(default_gender(), "none");
    assert!(RoleConfig::default().roles.is_empty());
    let root = OrgNode::default();
    assert!(root.id.is_empty() && root.children.is_empty());
    let p: UserPublic = account_of(1, "ann", "teacher").into();
    assert_eq!(p.username, "ann");
    assert_eq!(p.online, None);
}

#[test]
fn random_ids() {
    let a = random_str_from_seed(12345, 12);
    assert_eq!(a, random_str_from_seed(12345, 12));
    assert_eq!(a.len(), 12);
    assert_eq!(random_str_from_seed(0, 3), "aaa");
    assert_eq!(random_str_from_seed(1, 4), "ccde");
    let r = random_str(9);
    assert_eq!(r.chars().count(), 9);
    assert!(r.chars().all(|c| c.is_ascii_lowercase() || c.is_ascii_digit()));
}

#[test]
fn request_statistics() {
    let mut st = fresh_stats("2024-05-01");
    begin_request_on(&mut st, "2024-05-01");
    begin_request_on(&mut st, "2024-05-01");
    assert_eq!((st.total_requests, st.current_concurrency, st.peak_concurrency), (2, 2, 2));
    end_request(&mut st, 200);
    end_request(&mut st, 404);
    assert_eq!((st.current_concurrency, st.error_requests, st.peak_concurrency), (0, 1, 2));
    end_request(&mut st, 500);
    assert_eq!((st.current_concurrency, st.error_requests), (0, 2));
    begin_request_on(&mut st, "2024-05-02");
    assert_eq!(st.today_date, "2024-05-02");
    assert_eq!((st.total_requests, st.error_requests, st.current_concurrency, st.peak_concurrency), (1, 0, 1, 1));
    let mut live = fresh_stats("");
    assert!(begin_request(&mut live));
    assert_eq!(live.total_requests, 1);
    assert_eq!(live.today_date.len(), 10);
    let date = live.today_date.clone();
    live.total_requests = u64::MAX;
    if begin_request(&mut live) {
        assert_ne!(live.today_date, date);
    } else {
        assert_eq!((live.total_requests, live.current_concurrency), (u64::MAX, 1));
    }
}

#[test]
fn bearer_credentials() {
    assert_eq!(auth_header(Some("Bearer abc:1:x")), Some("abc:1:x".to_string()));
    assert_eq!(auth_header(Some("Bearer ")), Some(String::new()));
    assert_eq!(auth_header(Some("Basic abc")), None);
    assert_eq!(auth_header(Some("Bearer")), None);
    assert_eq!(auth_header(None), None);
}

#[test]
fn sync_addresses_and_replies() {
    assert_eq!(sync_url("http://master:3001///", "s3cr3t"), "http://master:3001/api/sync/users?secret=s3cr3t");
    assert_eq!(sync_url("http://m", "k"), "http://m/api/sync/users?secret=k");
    assert_eq!(accepted_sync(Some(true), Some(vec![])).map(|v| v.len()), Some(0));
    assert!(accepted_sync(Some(false), Some(vec![])).is_none());
    assert!(accepted_sync(None, None).is_none());
}

#[test]
fn sync_requests_need_the_secret() {
    let online = DashSet::new();
    online.insert("ben".to_string());
    let users = vec![account_of(1, "ann", "teacher"), account_of(2, "ben", "teacher")];
    let q = SyncQuery { secret: "k".to_string(), since: None };
    assert_eq!(sync_users("", &q, &users, &online).unwrap_err(), ApiError::Unauthorized);
    assert_eq!(sync_users("other", &q, &users, &online).unwrap_err(), ApiError::Unauthorized);
    let rep = sync_users("k", &q, &users, &online).unwrap();
    assert_eq!(rep.users.len(), 2);
    assert_eq!(rep.users[0].online, Some(false));
    assert_eq!(rep.users[1].online, Some(true));
    assert_eq!(rep.online_users, vec!["ben".to_string()]);
    assert_eq!(users_online(&online), vec!["ben".to_string()]);
    online.insert("cora".to_string());
    online.insert("ben".to_string());
    let mut listed = users_online(&online);
    listed.sort();
    assert_eq!(listed, vec!["ben".to_string(), "cora".to_string()]);
}

#[test]
fn websocket_authentication() {
    assert_eq!(auth_user_of(Some("auth"), Some("ann")), Some("ann".to_string()));
    assert_eq!(auth_user_of(Some("chat"), Some("ann")), None);
    assert_eq!(auth_user_of(Some("auth"), None), None);
    assert_eq!(session_user(Some("ann".to_string()), Some("ping"), None), Some("ann".to_string()));
    assert_eq!(session_user(Some("ann".to_string()), Some("auth"), Some("ben")), Some("ben".to_string()));
    assert_eq!(session_user(None, None, Some("ben")), None);
}

#[test]
fn health_and_uptime() {
    let groups = vec![Group { id: "g".to_string(), name: "n".to_string(), creator: "c".to_string(), members: vec![], network_type: "lan".to_string(), created_at: "t".to_string() }];
    let h = health_check(&groups);
    assert_eq!((h.version.as_str(), h.lan_users, h.lan_groups), ("1.0.0", 0, 1));
    assert_eq!(uptime_days_hours(90061), (1, 1));
    assert_eq!(uptime_days_hours(86399), (0, 23));
    assert_eq!(process_count(8), 85);
    assert_eq!(process_estimate(8), Some(85));
    assert_eq!(process_estimate(1), Some(15));
    assert!(server_process_count().unwrap() >= 15);
    let (days, hours) = server_uptime();
    assert!(days > 19000 && hours < 24);
}

#[test]
fn event_log_latest_first() {
    let times = EventTimes {
        one_hour_ago: "2024-05-01 11:00".to_string(),
        two_hours_ago: "2024-05-01 10:00".to_string(),
        six_hours_ago: "2024-05-01 06:00".to_string(),
        one_day_ago: "2024-04-30 12:00".to_string(),
    };
    let quiet = events_at(&times, None, 5);
    let kinds: Vec<&str> = quiet.iter().map(|e| e.kind.as_str()).collect();
    assert_eq!(kinds, vec!["系统信息", "服务启动", "备份完成"]);
    let busy = events_at(&times, Some("CPU使用率达到95.5%".to_string()), 6);
    let order: Vec<(&str, &str)> = busy.iter().map(|e| (e.time.as_str(), e.level.as_str())).collect();
    assert_eq!(order, vec![
        ("2024-05-01 11:00", "error"),
        ("2024-05-01 10:00", "info"),
        ("2024-05-01 10:00", "warning"),
        ("2024-05-01 06:00", "info"),
        ("2024-04-30 12:00", "info"),
    ]);
    assert_eq!(busy[0].description, "累计 6 个错误请求");
    assert_eq!(busy[2].description, "CPU使用率达到95.5%");
    assert_eq!(events(None, 0).len(), 3);
}

#[test]
fn synced_accounts_from_public_records() {
    let mut first = UserPublic::from(account_of(3, "ann", "teacher"));
    first.online = Some(true);
    let second = UserPublic::from(account_of(8, "ben", "student"));
    let accounts = accounts_from_public(vec![first, second]);
    assert_eq!(accounts.len(), 2);
    assert_eq!((accounts[0].id, accounts[0].username.as_str(), accounts[0].role.as_str()), (3, "ann", "teacher"));
    assert_eq!((accounts[1].id, accounts[1].username.as_str(), accounts[1].role.as_str()), (8, "ben", "student"));
    assert_eq!(accounts[0].password, "");
    assert_eq!(accounts[1].email, account_of(8, "ben", "student").email);
    assert!(accounts_from_public(vec![]).is_empty());
}
