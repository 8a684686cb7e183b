use electronic_server::handlers::broadcast::{
    get_broadcast_receipts, list_broadcasts, mark_broadcast_read, resolve_target_users, send_broadcast,
    send_broadcast_at,
};
use electronic_server::handlers::org::{
    add_node, add_node_with_id, delete_node, find_node_in_tree, generate_id, get_flat_nodes,
    get_node_members, tree_members_by_id, update_members,
};
use electronic_server::models::{ApiError, Broadcast, OrgNode, Role, User};

fn node(id: &str, name: &str, kind: &str, members: &[&str], children: Vec<OrgNode>) -> OrgNode {
    OrgNode {
        id: id.to_string(),
        name: name.to_string(),
        node_type: kind.to_string(),
        children,
        members: members.iter().map(|s| s.to_string()).collect(),
    }
}

fn school() -> OrgNode {
    node(
        "root",
        "School",
        "school",
        &["head"],
        vec![
            node("g1", "Grade 1", "grade", &["t1"], vec![node("c1", "Class 1", "class", &["s2", "s1"], vec![])]),
            node("g2", "Grade 2", "grade", &["t2", "s1"], vec![]),
        ],
    )
}

fn staff(id: u64, username: &str, role: &str, managed: &[&str]) -> User {
    User {
        id,
        username: username.to_string(),
        password: "pw".to_string(),
        email: String::new(),
        name: username.to_string(),
        role: role.to_string(),
        avatar: String::new(),
        signature: String::new(),
        birthday: String::new(),
        gender: "none".to_string(),
        starred_users: vec![],
        friends: vec![],
        title: String::new(),
        subject: String::new(),
        managed_nodes: managed.iter().map(|s| s.to_string()).collect(),
        network_location: "public".to_string(),
    }
}

fn roles() -> Vec<Role> {
    vec![
        Role { id: "admin".to_string(), name: "A".to_string(), permissions: vec!["broadcast_all".to_string()] },
        Role { id: "teacher".to_string(), name: "T".to_string(), permissions: vec!["broadcast_class".to_string()] },
        Role { id: "student".to_string(), name: "S".to_string(), permissions: vec![] },
    ]
}

fn strs(v: &[&str]) -> Vec<String> {
    v.iter().map(|s| s.to_string()).collect()
}

#[test]
fn nodes_added_found_and_deleted() {
    let mut tree = school();
    let added = add_node_with_id(&mut tree, "g2", "  Class 2 ", "class", "c2".to_string()).unwrap();
    assert_eq!(added.name, "Class 2");
    assert_eq!(find_node_in_tree(&tree, "c2").unwrap().node_type, "class");
    assert_eq!(add_node_with_id(&mut tree, "nowhere", "x", "class", "c3".to_string()).unwrap_err(), ApiError::ParentNodeNotFound);
    assert_eq!(add_node_with_id(&mut tree, "g2", "", "class", "c3".to_string()).unwrap_err(), ApiError::EmptyNodeNameOrType);
    let fresh = add_node(&mut tree, "root", "Grade 3", "grade").unwrap();
    assert!(fresh.id.starts_with("node_"));
    assert!(find_node_in_tree(&tree, &fresh.id).is_some());
    assert_eq!(delete_node(&mut tree, "c2"), Ok(()));
    assert!(find_node_in_tree(&tree, "c2").is_none());
    assert_eq!(delete_node(&mut tree, "c2"), Err(ApiError::NodeNotFound));
    assert_eq!(delete_node(&mut tree, "root"), Err(ApiError::CannotDeleteRoot));
}

#[test]
fn generated_ids_have_their_shape() {
    let id = generate_id();
    let parts: Vec<&str> = id.split('_').collect();
    assert_eq!(parts.len(), 3);
    assert_eq!(parts[0], "node");
    assert!(parts[1].parse::<u64>().is_ok());
    assert_eq!(parts[2].len(), 6);
}

#[test]
fn member_lists() {
    let mut tree = school();
    assert_eq!(get_node_members(&tree, "g1"), Ok(strs(&["s1", "s2", "t1"])));
    assert_eq!(get_node_members(&tree, "zz"), Err(ApiError::NodeNotFound));
    assert_eq!(tree_members_by_id(&tree, "root"), strs(&["head"]));
    assert!(tree_members_by_id(&tree, "zz").is_empty());
    assert_eq!(update_members(&mut tree, "c1", "add", &strs(&["s3", "s1"])), Ok(strs(&["s2", "s1", "s3"])));
    assert_eq!(find_node_in_tree(&tree, "c1").unwrap().members, strs(&["s2", "s1", "s3"]));
    assert_eq!(update_members(&mut tree, "c1", "remove", &strs(&["s2"])), Ok(strs(&["s1", "s3"])));
    assert_eq!(update_members(&mut tree, "c1", "", &strs(&["s2"])), Err(ApiError::InvalidParameters));
    assert_eq!(update_members(&mut tree, "c1", "add", &vec![]), Err(ApiError::InvalidParameters));
    assert_eq!(update_members(&mut tree, "zz", "add", &strs(&["x"])), Err(ApiError::NodeNotFound));
}

#[test]
fn flat_listing_in_pre_order() {
    let flat = get_flat_nodes(&school());
    let ids: Vec<&str> = flat.iter().map(|n| n.id.as_str()).collect();
    assert_eq!(ids, vec!["root", "g1", "c1", "g2"]);
    let depths: Vec<usize> = flat.iter().map(|n| n.depth).collect();
    assert_eq!(depths, vec![0, 1, 2, 1]);
    assert_eq!(flat[2].member_count, 2);
}

#[test]
fn broadcast_targets_resolved() {
    let tree = school();
    assert_eq!(resolve_target_users(&tree, &strs(&["c1", "g2"])), strs(&["s1", "s2", "t2"]));
    assert!(resolve_target_users(&tree, &strs(&["nope"])).is_empty());
}

#[test]
fn broadcasts_sent_listed_and_read() {
    let tree = school();
    let users = vec![staff(1, "head", "admin", &[]), staff(2, "t1", "teacher", &["g1", "c1"]), staff(3, "s1", "student", &[])];
    let rs = roles();
    let mut list: Vec<Broadcast> = vec![];
    let b = send_broadcast_at(&users, &rs, &tree, &mut list, "t1", "Hi", "Body", strs(&["c1"]), vec![], "b1".to_string(), "ts".to_string()).unwrap();
    assert_eq!(b.target_count, 2);
    assert!(b.read_by.is_empty());
    assert_eq!(list.len(), 1);
    assert_eq!(send_broadcast_at(&users, &rs, &tree, &mut list, "t1", "Hi", "Body", strs(&["g2"]), vec![], "b2".to_string(), "ts".to_string()).unwrap_err(), ApiError::BroadcastScopeDenied);
    assert_eq!(send_broadcast_at(&users, &rs, &tree, &mut list, "s1", "Hi", "Body", strs(&["c1"]), vec![], "b2".to_string(), "ts".to_string()).unwrap_err(), ApiError::NoBroadcastPermission);
    assert_eq!(send_broadcast_at(&users, &rs, &tree, &mut list, "head", "Hi", "Body", strs(&["zz"]), vec![], "b2".to_string(), "ts".to_string()).unwrap_err(), ApiError::NoTargetUsers);
    assert_eq!(send_broadcast_at(&users, &rs, &tree, &mut list, "head", "", "Body", strs(&["c1"]), vec![], "b2".to_string(), "ts".to_string()).unwrap_err(), ApiError::EmptyBroadcastFields);
    let now = send_broadcast(&users, &rs, &tree, &mut list, "head", "All", "Body", strs(&["root"]), strs(&["f.pdf"])).unwrap();
    assert_eq!(now.target_count, 1);
    assert_eq!(list.len(), 2);

    let seen = list_broadcasts(&tree, &list, "s1").unwrap();
    assert_eq!(seen.len(), 1);
    assert_eq!(seen[0].id, "b1");
    assert!(!seen[0].read);
    assert_eq!(list_broadcasts(&tree, &list, "").unwrap_err(), ApiError::EmptyUsername);

    assert_eq!(mark_broadcast_read(&mut list, "b1", "s1"), Ok(true));
    assert_eq!(mark_broadcast_read(&mut list, "b1", "s1"), Ok(false));
    assert_eq!(mark_broadcast_read(&mut list, "zz", "s1"), Err(ApiError::BroadcastNotFound));
    assert_eq!(mark_broadcast_read(&mut list, "b1", ""), Err(ApiError::EmptyUsername));
    assert!(list_broadcasts(&tree, &list, "s1").unwrap()[0].read);

    let rc = get_broadcast_receipts(&tree, &list, "b1").unwrap();
    assert_eq!(rc.total, 2);
    assert_eq!(rc.read, 1);
    assert_eq!(rc.read_by, strs(&["s1"]));
    assert_eq!(rc.unread_by, strs(&["s2"]));
    assert_eq!(rc.unread, 1);
    assert_eq!(get_broadcast_receipts(&tree, &list, "zz").unwrap_err(), ApiError::BroadcastNotFound);
}
