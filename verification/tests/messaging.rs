use electronic_server::handlers::chat::{
    get_avatar_url, get_messages, lan_friends, lan_get_messages, lan_login, lan_logout, lan_online,
    lan_send_message_at, mark_read, mark_read_group, send_message, send_message_at, unread_counts_get,
    unread_counts_post, ConversationFile, ReadPoint,
};
use electronic_server::handlers::groups::{
    create_group_at, delete_group, get_group_messages, get_user_groups, group_messages_path,
    groups_file_path, join_group, leave_group, send_group_message_at,
};
use electronic_server::models::{ApiError, ChatMessage, Group, User};
use electronic_server::names::conversation_partner_of;
use electronic_server::storage::make_conv_path;

fn member(id: u64, username: &str, avatar: &str) -> User {
    User {
        id,
        username: username.to_string(),
        password: "pw".to_string(),
        email: format!("{}@x", username),
        name: username.to_string(),
        role: "student".to_string(),
        avatar: avatar.to_string(),
        signature: String::new(),
        birthday: String::new(),
        gender: "none".to_string(),
        starred_users: vec![],
        friends: vec![],
        title: String::new(),
        subject: String::new(),
        managed_nodes: vec![],
        network_location: "lan".to_string(),
    }
}

fn members() -> Vec<User> {
    vec![member(1, "ann", "/user/avatar/ann"), member(2, "ben", "")]
}

fn private(id: u64, sender: &str, receiver: &str, read_by: &[&str]) -> ChatMessage {
    ChatMessage {
        id,
        sender: sender.to_string(),
        receiver: receiver.to_string(),
        message: "hi".to_string(),
        timestamp: "t".to_string(),
        read_by: read_by.iter().map(|s| s.to_string()).collect(),
        from: String::new(),
        to: String::new(),
        msg_type: String::new(),
        sender_avatar: String::new(),
    }
}

fn group_msg(id: u64, from: &str, read_by: &[&str]) -> ChatMessage {
    ChatMessage {
        id,
        sender: String::new(),
        receiver: String::new(),
        message: "hey".to_string(),
        timestamp: "t".to_string(),
        read_by: read_by.iter().map(|s| s.to_string()).collect(),
        from: from.to_string(),
        to: String::new(),
        msg_type: "text".to_string(),
        sender_avatar: String::new(),
    }
}

fn team(id: &str, creator: &str, ms: &[&str]) -> Group {
    Group {
        id: id.to_string(),
        name: format!("group {}", id),
        creator: creator.to_string(),
        members: ms.iter().map(|s| s.to_string()).collect(),
        network_type: "lan".to_string(),
        created_at: "t".to_string(),
    }
}

#[test]
fn conversation_file_is_shared_by_both_parties() {
    assert_eq!(make_conv_path("/data/chat", "zoe", "adam"), "/data/chat/adam_zoe.json");
    assert_eq!(make_conv_path("/data/chat", "adam", "zoe"), "/data/chat/adam_zoe.json");
    assert_eq!(make_conv_path("/data/chat/", "b", "a"), "/data/chat/a_b.json");
}

#[test]
fn partner_read_back_from_file_name() {
    assert_eq!(conversation_partner_of("adam_zoe.json", "zoe"), Some("adam".to_string()));
    assert_eq!(conversation_partner_of("adam_zoe.json", "adam"), Some("zoe".to_string()));
    assert_eq!(conversation_partner_of("adam_zoe.json", "eve"), None);
    assert_eq!(conversation_partner_of("adam_zoe.txt", "adam"), None);
    assert_eq!(conversation_partner_of("a_b_c.json", "a"), None);
    let path = make_conv_path("", "kim", "lee");
    assert_eq!(conversation_partner_of(&path, "lee"), Some("kim".to_string()));
}

#[test]
fn private_message_sent_and_stored() {
    let users = members();
    let mut conv = vec![];
    let m = send_message_at(&users, &mut conv, "ann", "ben", "hello", 42, "ts".to_string()).unwrap();
    assert_eq!(m.id, 42);
    assert_eq!(m.sender_avatar, "/user/avatar/ann");
    assert_eq!(m.read_by, vec!["ann".to_string()]);
    assert_eq!(conv.len(), 1);
    assert_eq!(conv[0].sender_avatar, "");
    assert_eq!(conv[0].message, "hello");
    assert_eq!(send_message_at(&users, &mut conv, "", "ben", "x", 1, "t".to_string()).unwrap_err(), ApiError::EmptyMessageFields);
    assert_eq!(send_message_at(&users, &mut conv, "zed", "ben", "x", 1, "t".to_string()).unwrap_err(), ApiError::SenderNotFound);
    assert_eq!(send_message_at(&users, &mut conv, "ann", "zed", "x", 1, "t".to_string()).unwrap_err(), ApiError::ReceiverNotFound);
    let now = send_message(&users, &mut conv, "ben", "ann", "back").unwrap();
    assert_eq!(now.sender, "ben");
    assert_eq!(conv.len(), 2);
}

#[test]
fn conversation_read_back_with_avatars() {
    let users = members();
    let conv = vec![private(1, "ann", "ben", &["ann"]), private(2, "ben", "ann", &["ben"])];
    let got = get_messages(&users, conv, "ann", "ben").unwrap();
    assert_eq!(got[0].sender_avatar, "/user/avatar/ann");
    assert_eq!(got[1].sender_avatar, "");
    assert_eq!(get_messages(&users, vec![], "", "ben").unwrap_err(), ApiError::EmptySenderOrReceiver);
    assert_eq!(get_avatar_url(&users, "ann"), "/user/avatar/ann");
    assert_eq!(get_avatar_url(&users, "nobody"), "");
}

#[test]
fn marking_read_clears_unread_counts() {
    let mut conv = vec![private(1, "ann", "ben", &["ann"]), private(2, "ann", "ben", &["ann", "ben"]), private(3, "ben", "ann", &["ben"])];
    let files = vec![ConversationFile { name: "ann_ben.json".to_string(), messages: conv.iter().map(|m| private(m.id, &m.sender, &m.receiver, &m.read_by.iter().map(|s| s.as_str()).collect::<Vec<_>>())).collect() }];
    let before = unread_counts_get("ben", &files, &vec![], &vec![]).unwrap();
    assert_eq!(before.conversations, vec![("ann".to_string(), 1)]);
    assert_eq!(mark_read(&mut conv, "ben", "ann"), Ok(1));
    assert_eq!(mark_read(&mut conv, "ben", "ann"), Ok(0));
    let files_after = vec![ConversationFile { name: "ann_ben.json".to_string(), messages: conv }];
    let after = unread_counts_get("ben", &files_after, &vec![], &vec![]).unwrap();
    assert!(after.conversations.is_empty());
    let mut none: Vec<ChatMessage> = vec![];
    assert_eq!(mark_read(&mut none, "", "ann"), Err(ApiError::EmptyUsernameOrTarget));
    assert_eq!(mark_read_group(&mut none, "ben", ""), Err(ApiError::EmptyUsernameOrGroupId));
}

#[test]
fn unread_counts_by_groups_and_read_points() {
    let groups = vec![team("g1", "ann", &["ann", "ben"]), team("g2", "ann", &["ann"]), team("g3", "ben", &["ben"])];
    let group_files = vec![
        Some(vec![group_msg(10, "ann", &["ann"]), group_msg(11, "ben", &["ben"]), group_msg(12, "ann", &["ann", "ben"])]),
        Some(vec![group_msg(20, "ann", &["ann"])]),
        None,
    ];
    let files = vec![
        ConversationFile { name: "ann_ben.json".to_string(), messages: vec![private(5, "ann", "ben", &["ann"]), private(6, "ann", "ben", &["ann"])] },
        ConversationFile { name: "notes.txt".to_string(), messages: vec![private(7, "ann", "ben", &["ann"])] },
    ];
    let marks = unread_counts_get("ben", &files, &groups, &group_files).unwrap();
    assert_eq!(marks.conversations, vec![("ann".to_string(), 2)]);
    assert_eq!(marks.groups, vec![("g1".to_string(), 1)]);
    let points = vec![
        ReadPoint { key: "user:ann".to_string(), value: Some(5) },
        ReadPoint { key: "group:g1".to_string(), value: Some(12) },
    ];
    let by_points = unread_counts_post("ben", &points, &files, &groups, &group_files).unwrap();
    assert_eq!(by_points.conversations, vec![("ann".to_string(), 1)]);
    assert_eq!(by_points.groups, vec![("g1".to_string(), 0)]);
    assert_eq!(unread_counts_get("", &files, &groups, &group_files).unwrap_err(), ApiError::EmptyUsername);
}

#[test]
fn lan_session_and_messages() {
    let users = members();
    assert_eq!(lan_login(&users, "ann", "pw").unwrap().id, 1);
    assert_eq!(lan_login(&users, "ann", "x").unwrap_err(), ApiError::WrongUsernameOrPassword);
    assert_eq!(lan_login(&users, "", "x").unwrap_err(), ApiError::EmptyUsernameOrPassword);
    assert_eq!(lan_logout("ann"), Ok(()));
    assert_eq!(lan_logout(""), Err(ApiError::EmptyUsername));
    assert!(lan_online().is_empty());
    let friends = lan_friends(&users, "ann");
    assert_eq!(friends.len(), 1);
    assert_eq!(friends[0].username, "ben");
    let mut conv = vec![];
    let m = lan_send_message_at(&users, &mut conv, "ann", "ben", "yo", "text", 9, "t".to_string()).unwrap();
    assert_eq!(m.from, "ann");
    assert_eq!(m.sender_avatar, "/user/avatar/ann");
    assert_eq!(conv.len(), 1);
    assert_eq!(lan_send_message_at(&users, &mut conv, "ann", "", "yo", "text", 9, "t".to_string()).unwrap_err(), ApiError::EmptyMessageFields);
    assert_eq!(lan_get_messages(&users, conv, "ann", "ben").unwrap().len(), 1);
}

#[test]
fn groups_created_joined_and_left() {
    let mut groups = vec![];
    let g = create_group_at(&mut groups, "club", "ann", Some(vec!["ben".to_string(), "ann".to_string(), "".to_string(), "ben".to_string()]), None, "g1".to_string(), "t".to_string()).unwrap();
    assert_eq!(g.members, vec!["ann".to_string(), "ben".to_string()]);
    assert_eq!(g.network_type, "lan");
    assert_eq!(create_group_at(&mut groups, "", "ann", None, None, "g2".to_string(), "t".to_string()).unwrap_err(), ApiError::EmptyGroupNameOrCreator);
    assert_eq!(join_group(&mut groups, "g1", "cat").unwrap().members.len(), 3);
    assert_eq!(join_group(&mut groups, "g1", "cat").unwrap_err(), ApiError::AlreadyGroupMember);
    assert_eq!(join_group(&mut groups, "g9", "cat").unwrap_err(), ApiError::GroupNotFound);
    assert_eq!(join_group(&mut groups, "", "cat").unwrap_err(), ApiError::EmptyGroupIdOrUsername);
    assert_eq!(leave_group(&mut groups, "g1", "cat"), Ok(()));
    assert_eq!(groups[0].members, vec!["ann".to_string(), "ben".to_string()]);
    assert_eq!(leave_group(&mut groups, "g1", "ann"), Err(ApiError::OwnerCannotLeave));
    assert_eq!(leave_group(&mut groups, "g1", "ben"), Ok(()));
    assert_eq!(groups[0].members, vec!["ann".to_string()]);
    assert!(groups[0].members.contains(&groups[0].creator));
    assert_eq!(join_group(&mut groups, "g1", "ben").unwrap().members.len(), 2);
    assert_eq!(get_user_groups(&groups, "ben").unwrap().len(), 1);
    assert_eq!(get_user_groups(&groups, "").unwrap_err(), ApiError::EmptyUsername);
    assert_eq!(delete_group(&mut groups, "g1", "ben"), Err(ApiError::OnlyOwnerCanDelete));
    assert_eq!(delete_group(&mut groups, "g1", ""), Err(ApiError::EmptyUsername));
    assert_eq!(delete_group(&mut groups, "g1", "ann"), Ok(()));
    assert!(groups.is_empty());
    assert_eq!(delete_group(&mut groups, "g1", "ann"), Err(ApiError::GroupNotFound));
}

#[test]
fn group_messages_only_from_members() {
    let groups = vec![team("g1", "ann", &["ann", "ben"])];
    let mut msgs = vec![];
    let m = send_group_message_at(&groups, &mut msgs, "g1", "ben", "hi all", None, 3, "t".to_string()).unwrap();
    assert_eq!(m.msg_type, "text");
    assert_eq!(m.read_by, vec!["ben".to_string()]);
    assert_eq!(send_group_message_at(&groups, &mut msgs, "g1", "cat", "x", None, 4, "t".to_string()).unwrap_err(), ApiError::NotGroupMember);
    assert_eq!(send_group_message_at(&groups, &mut msgs, "g2", "ben", "x", None, 4, "t".to_string()).unwrap_err(), ApiError::GroupNotFound);
    assert_eq!(send_group_message_at(&groups, &mut msgs, "g1", "ben", "", None, 4, "t".to_string()).unwrap_err(), ApiError::EmptyGroupMessageFields);
    assert_eq!(get_group_messages("g1", msgs).unwrap().len(), 1);
    assert_eq!(get_group_messages("", vec![]).unwrap_err(), ApiError::EmptyGroupId);
    assert_eq!(groups_file_path("/d"), "/d/lan_groups/groups.json");
    assert_eq!(group_messages_path("/d", "g1"), "/d/lan_group_messages/g1.json");
}

#[test]
fn sent_message_read_back() {
    let users = members();
    let mut conv = vec![private(1, "ben", "ann", &["ben"])];
    let answer = send_message_at(&users, &mut conv, "ann", "ben", "see you", 7, "ts".to_string()).unwrap();
    let read = get_messages(&users, conv, "ben", "ann").unwrap();
    assert_eq!(read.len(), 2);
    let last = &read[1];
    assert_eq!((last.id, last.message.as_str(), last.sender_avatar.as_str()), (answer.id, "see you", "/user/avatar/ann"));
    assert_eq!(last.sender_avatar, answer.sender_avatar);
}
