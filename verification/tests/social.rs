use electronic_server::handlers::users::{
    add_friend, avatar_path, avatar_upload_allowed, delete_avatar, get_fr_path, get_friend_requests,
    get_friends, get_starred, get_users, handle_friend_request, remove_friend, search_users,
    send_friend_request, send_friend_request_at, set_avatar, star_user, str_contains, update_profile,
    update_profile_checked, upload_avatar,
};
use electronic_server::models::{ApiError, FriendRequest, User};

fn person(id: u64, username: &str, email: &str) -> User {
    User {
        id,
        username: username.to_string(),
        password: "pw".to_string(),
        email: email.to_string(),
        name: username.to_string(),
        role: "teacher".to_string(),
        avatar: String::new(),
        signature: String::new(),
        birthday: String::new(),
        gender: "none".to_string(),
        starred_users: vec![],
        friends: vec![],
        title: String::new(),
        subject: String::new(),
        managed_nodes: vec![],
        network_location: "public".to_string(),
    }
}

fn people() -> Vec<User> {
    vec![person(1, "Alice", "ALICE@Example.com"), person(2, "bob", "bob@mail"), person(3, "carol", "c@mail")]
}

fn request(id: u64, s: &str, r: &str, status: &str) -> FriendRequest {
    FriendRequest { id, sender: s.to_string(), receiver: r.to_string(), status: status.to_string(), timestamp: "t".to_string() }
}

#[test]
fn public_listing_hides_nothing_but_password() {
    let list = get_users(&people());
    assert_eq!(list.len(), 3);
    assert_eq!(list[0].username, "Alice");
    assert_eq!(list[0].email, "ALICE@Example.com");
}

#[test]
fn search_ignores_case() {
    let users = people();
    let hits = search_users(&users, "alice").unwrap();
    assert_eq!(hits.len(), 1);
    assert_eq!(hits[0].id, 1);
    let by_mail = search_users(&users, "MAIL").unwrap();
    assert_eq!(by_mail.len(), 2);
    assert_eq!(search_users(&users, "").unwrap_err(), ApiError::EmptyQuery);
    assert!(search_users(&users, "zzz").unwrap().is_empty());
}

#[test]
fn substring_search() {
    assert!(str_contains("hello world", "lo w"));
    assert!(str_contains("abc", ""));
    assert!(!str_contains("abc", "abcd"));
    assert!(!str_contains("abc", "cb"));
}

#[test]
fn friends_added_and_removed() {
    let mut users = people();
    assert_eq!(add_friend(&mut users, "bob", "carol"), Ok(()));
    assert_eq!(users[1].friends, vec!["carol".to_string()]);
    assert_eq!(add_friend(&mut users, "bob", "carol"), Err(ApiError::AlreadyFriend));
    assert_eq!(add_friend(&mut users, "nobody", "carol"), Err(ApiError::CurrentUserNotFound));
    assert_eq!(add_friend(&mut users, "bob", "nobody"), Err(ApiError::TargetUserNotFound));
    let friends = get_friends(&users, "bob").unwrap();
    assert_eq!(friends.len(), 1);
    assert_eq!(friends[0].username, "carol");
    assert_eq!(remove_friend(&mut users, "bob", "carol"), Ok(()));
    assert!(users[1].friends.is_empty());
    assert_eq!(remove_friend(&mut users, "bob", "carol"), Err(ApiError::NotFriend));
    assert_eq!(remove_friend(&mut users, "nobody", "carol"), Err(ApiError::CurrentUserNotFound));
    assert_eq!(get_friends(&users, "nobody").unwrap_err(), ApiError::UserNotFound);
}

#[test]
fn starring_twice_restores() {
    let mut users = people();
    assert_eq!(star_user(&mut users, "carol", "bob"), Ok(true));
    assert_eq!(get_starred(&users, "carol").unwrap().len(), 1);
    assert_eq!(star_user(&mut users, "carol", "bob"), Ok(false));
    assert!(users[2].starred_users.is_empty());
    assert_eq!(star_user(&mut users, "nobody", "bob"), Err(ApiError::CurrentUserNotFound));
}

#[test]
fn profile_updates_and_refusals() {
    let mut users = people();
    assert_eq!(update_profile(&mut users, "bob", Some("hi"), Some("1990-01-02"), Some("male")), Ok(()));
    assert_eq!(users[1].signature, "hi");
    assert_eq!(users[1].birthday, "1990-01-02");
    assert_eq!(users[1].gender, "male");
    let long = "x".repeat(101);
    assert_eq!(update_profile(&mut users, "bob", Some(&long), None, None), Err(ApiError::SignatureTooLong));
    let forty = "签".repeat(40);
    assert_eq!(update_profile(&mut users, "bob", Some(&forty), None, None), Ok(()));
    assert_eq!(users[1].signature, forty);
    let hundred = "é".repeat(100);
    assert_eq!(update_profile(&mut users, "bob", Some(&hundred), None, None), Ok(()));
    assert_eq!(users[1].signature, hundred);
    let too_many = "é".repeat(101);
    assert_eq!(update_profile(&mut users, "bob", Some(&too_many), None, None), Err(ApiError::SignatureTooLong));
    assert_eq!(users[1].signature, hundred);
    assert_eq!(update_profile(&mut users, "bob", None, Some("1990/01/02"), None), Err(ApiError::InvalidBirthday));
    assert_eq!(update_profile(&mut users, "bob", None, Some(""), None), Ok(()));
    assert_eq!(users[1].birthday, "");
    assert_eq!(update_profile(&mut users, "bob", None, None, Some("other")), Err(ApiError::InvalidGender));
    assert_eq!(update_profile(&mut users, "", None, None, None), Err(ApiError::EmptyUsername));
    assert_eq!(update_profile(&mut users, "zed", None, None, None), Err(ApiError::UserNotFound));
    assert_eq!(update_profile_checked(&mut users, "bob", None, Some("x"), None, true), Ok(()));
    assert_eq!(users[1].birthday, "x");
}

#[test]
fn avatars() {
    let mut users = people();
    assert_eq!(avatar_path("/data", "bob"), "/data/avatars/bob.jpg");
    assert_eq!(avatar_upload_allowed("", 5), Err(ApiError::EmptyUsername));
    assert_eq!(avatar_upload_allowed("bob", 0), Err(ApiError::EmptyAvatar));
    assert_eq!(avatar_upload_allowed("bob", 3), Ok(()));
    assert_eq!(upload_avatar(&mut users, "bob", 10), Ok("/user/avatar/bob".to_string()));
    assert_eq!(users[1].avatar, "/user/avatar/bob");
    assert_eq!(set_avatar(&mut users, "nobody"), Err(ApiError::UserNotFound));
    assert!(delete_avatar(&mut users, "bob"));
    assert_eq!(users[1].avatar, "");
    assert!(!delete_avatar(&mut users, "nobody"));
}

#[test]
fn friend_request_sending() {
    let mut users = people();
    let mut reqs = vec![];
    assert_eq!(get_fr_path("/d", "bob"), "/d/friend_requests/bob.json");
    let q = send_friend_request_at(&users, &mut reqs, "carol", "bob", 77, "now".to_string()).unwrap();
    assert_eq!(q.id, 77);
    assert_eq!(q.status, "pending");
    assert_eq!(reqs.len(), 1);
    assert_eq!(send_friend_request_at(&users, &mut reqs, "carol", "bob", 78, "now".to_string()).unwrap_err(), ApiError::FriendRequestAlreadySent);
    assert_eq!(send_friend_request_at(&users, &mut reqs, "zed", "bob", 78, "now".to_string()).unwrap_err(), ApiError::SenderNotFound);
    assert_eq!(send_friend_request_at(&users, &mut reqs, "carol", "zed", 78, "now".to_string()).unwrap_err(), ApiError::ReceiverNotFound);
    add_friend(&mut users, "carol", "Alice").unwrap();
    let mut other = vec![];
    assert_eq!(send_friend_request_at(&users, &mut other, "carol", "Alice", 79, "now".to_string()).unwrap_err(), ApiError::AlreadyFriend);
    let fresh = send_friend_request(&users, &mut other, "bob", "Alice").unwrap();
    assert_eq!(fresh.sender, "bob");
    assert_eq!(other.len(), 1);
}

#[test]
fn friend_request_listings() {
    let files = vec![
        vec![request(1, "bob", "Alice", "pending")],
        vec![request(2, "carol", "bob", "pending"), request(3, "bob", "bob", "accepted")],
        vec![request(4, "bob", "carol", "pending")],
    ];
    let own = files[1].iter().map(|r| request(r.id, &r.sender, &r.receiver, &r.status)).collect::<Vec<_>>();
    let sent = get_friend_requests(&files, &own, "bob", "sent");
    assert_eq!(sent.iter().map(|r| r.id).collect::<Vec<_>>(), vec![1, 4]);
    let received = get_friend_requests(&files, &own, "bob", "received");
    assert_eq!(received.iter().map(|r| r.id).collect::<Vec<_>>(), vec![2, 3]);
    let mut own2 = own;
    own2.push(request(9, "x", "bob", "pending"));
    let all = get_friend_requests(&files, &own2, "bob", "");
    assert_eq!(all.iter().map(|r| r.id).collect::<Vec<_>>(), vec![1, 2, 3, 4, 9]);
}

#[test]
fn accepting_a_request_makes_mutual_friends() {
    let mut users = people();
    let mut files = vec![vec![], vec![request(5, "carol", "bob", "pending")], vec![]];
    assert_eq!(handle_friend_request(&mut users, &mut files, 5, "accept"), Ok(1));
    assert!(files[1].is_empty());
    assert_eq!(users[1].friends, vec!["carol".to_string()]);
    assert_eq!(users[2].friends, vec!["bob".to_string()]);
}

#[test]
fn rejecting_and_refusing_requests() {
    let mut users = people();
    let mut files = vec![vec![request(6, "bob", "Alice", "pending")], vec![], vec![]];
    assert_eq!(handle_friend_request(&mut users, &mut files, 0, "accept"), Err(ApiError::EmptyRequestFields));
    assert_eq!(handle_friend_request(&mut users, &mut files, 6, ""), Err(ApiError::EmptyRequestFields));
    assert_eq!(handle_friend_request(&mut users, &mut files, 6, "maybe"), Err(ApiError::InvalidRequestAction));
    assert_eq!(handle_friend_request(&mut users, &mut files, 7, "reject"), Err(ApiError::FriendRequestNotFound));
    assert_eq!(handle_friend_request(&mut users, &mut files, 6, "reject"), Ok(0));
    assert!(files[0].is_empty());
    assert!(users[0].friends.is_empty());
    assert!(users[1].friends.is_empty());
}
