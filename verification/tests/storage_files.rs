use electronic_server::handlers::chunked::{
    accept_merged, chunk_dir, chunk_file_name, chunk_index_of, has_suffix, merge_chunk_data, merge_plan,
    merge_target_dir, query_chunks, record_merged_file, record_merged_file_at, strip_suffix_all, upload_chunk,
};
use electronic_server::handlers::files::{
    attachment_header, delete_file, downloaded_copy_path, find_file, get_all_files, get_user_files,
    send_file, update_user_files, upload_file, upload_file_at, upsert_file_meta, user_files_path,
    user_upload_dir, DirEntry, UserUploads,
};
use electronic_server::handlers::pending::{
    delete_pending_file, download_pending_file, file_status, get_pending_files, pending_file_path,
    pending_meta_path, store_pending_file, store_pending_file_at,
};
use electronic_server::models::{ApiError, FileMeta, PendingFileMeta, User};
use electronic_server::storage::{join_path, JsonStore};

fn meta(name: &str, uploader: &str, time: &str) -> FileMeta {
    FileMeta { name: name.to_string(), size: 10, last_modified: 1, uploader: uploader.to_string(), upload_time: time.to_string() }
}

fn owner(id: u64, username: &str) -> User {
    User {
        id,
        username: username.to_string(),
        password: "pw".to_string(),
        email: String::new(),
        name: username.to_string(),
        role: "teacher".to_string(),
        avatar: String::new(),
        signature: String::new(),
        birthday: String::new(),
        gender: "none".to_string(),
        starred_users: vec![],
        friends: vec![],
        title: String::new(),
        subject: String::new(),
        managed_nodes: vec![],
        network_location: "public".to_string(),
    }
}

fn names(v: &[&str]) -> Vec<String> {
    v.iter().map(|s| s.to_string()).collect()
}

#[test]
fn paths_join_like_unix_paths() {
    assert_eq!(join_path("/a", "b"), "/a/b");
    assert_eq!(join_path("/a/", "b"), "/a/b");
    assert_eq!(join_path("", "b"), "b");
    assert_eq!(join_path("/a", "/abs"), "/abs");
    assert_eq!(user_files_path("/d", "amy"), "/d/user_files/amy.json");
    assert_eq!(user_upload_dir("/d", "amy"), "/d/uploaded_files/amy");
    assert_eq!(downloaded_copy_path("/d", "amy", "f.txt"), "/d/downloaded_files/amy/f.txt");
    assert_eq!(chunk_dir("/d", "abc"), "/d/temp_chunks/abc");
    assert_eq!(merge_target_dir("/d", ""), "/d/uploaded_files/shared");
    assert_eq!(merge_target_dir("/d", "amy"), "/d/uploaded_files/amy");
    assert_eq!(pending_meta_path("/d"), "/d/pending_files_meta.json");
    assert_eq!(pending_file_path("/d", "f1"), "/d/pending_files/f1");
    let store: JsonStore<Vec<User>> = JsonStore::new("/d/users.json");
    assert_eq!(store.path(), "/d/users.json");
}

#[test]
fn attachment_names_are_url_encoded() {
    assert_eq!(attachment_header("a b.txt"), "attachment; filename=\"a%20b.txt\"");
    assert_eq!(attachment_header("报告.doc"), "attachment; filename=\"报告.doc\"");
    assert_eq!(attachment_header("x/y"), "attachment; filename=\"x%2Fy\"");
}

#[test]
fn recorded_file_is_found_again() {
    let mut files = vec![meta("a", "amy", "1"), meta("b", "amy", "2")];
    upsert_file_meta(&mut files, FileMeta { name: "b".to_string(), size: 99, last_modified: 5, uploader: "amy".to_string(), upload_time: "3".to_string() });
    assert_eq!(files.len(), 2);
    let k = find_file(&files, "b").unwrap();
    assert_eq!(files[k].size, 99);
    upsert_file_meta(&mut files, meta("c", "amy", "4"));
    assert_eq!(files.len(), 3);
    assert_eq!(find_file(&files, "zzz"), None);
}

#[test]
fn file_list_requests() {
    assert_eq!(get_user_files("", vec![]).unwrap_err(), ApiError::EmptyUsername);
    assert_eq!(get_user_files("amy", vec![meta("a", "amy", "1")]).unwrap().len(), 1);
    assert_eq!(update_user_files("", None).unwrap_err(), ApiError::EmptyUsername);
    assert_eq!(update_user_files("amy", None).unwrap_err(), ApiError::InvalidFileList);
    assert_eq!(update_user_files("amy", Some(vec![])).unwrap().len(), 0);
}

#[test]
fn uploads_recorded_and_deleted() {
    let mut files = vec![];
    assert_eq!(upload_file_at(&mut files, "amy", "r.pdf", 7, 100, "t1".to_string()), Ok(()));
    assert_eq!(files[0].uploader, "amy");
    assert_eq!(files[0].last_modified, 100);
    assert_eq!(upload_file_at(&mut files, "", "r.pdf", 7, 100, "t".to_string()), Err(ApiError::EmptyUsername));
    assert_eq!(upload_file_at(&mut files, "amy", "", 7, 100, "t".to_string()), Err(ApiError::EmptyFilename));
    assert_eq!(upload_file(&mut files, "amy", "r.pdf", 8), Ok(()));
    assert_eq!(files.len(), 1);
    assert_eq!(files[0].size, 8);
    assert_eq!(delete_file(&mut files, "amy", "r.pdf"), Ok(()));
    assert!(files.is_empty());
    assert_eq!(delete_file(&mut files, "", "r.pdf"), Err(ApiError::EmptyUsernameOrFilename));
}

#[test]
fn files_sent_between_users() {
    let users = vec![owner(1, "amy"), owner(2, "bo")];
    let sender_files = vec![meta("a.txt", "amy", "1")];
    let mut receiver_files = vec![];
    assert_eq!(send_file(&users, "amy", "bo", "a.txt", &sender_files, &mut receiver_files), Ok(true));
    assert_eq!(receiver_files.len(), 1);
    assert_eq!(send_file(&users, "amy", "bo", "a.txt", &sender_files, &mut receiver_files), Ok(false));
    assert_eq!(send_file(&users, "amy", "bo", "zz", &sender_files, &mut receiver_files), Err(ApiError::FileNotFound));
    assert_eq!(send_file(&users, "x", "bo", "a.txt", &sender_files, &mut receiver_files), Err(ApiError::SenderNotFound));
    assert_eq!(send_file(&users, "amy", "x", "a.txt", &sender_files, &mut receiver_files), Err(ApiError::ReceiverNotFound));
}

#[test]
fn all_files_newest_first() {
    let users = vec![owner(1, "amy"), owner(2, "bo")];
    let uploads = vec![
        UserUploads {
            metadata: vec![meta("a", "amy", "2024-01-02"), meta("a", "amy", "2024-03-01")],
            entries: vec![DirEntry { name: "a".to_string(), is_file: true }, DirEntry { name: "sub".to_string(), is_file: false }, DirEntry { name: "ghost".to_string(), is_file: true }],
        },
        UserUploads { metadata: vec![meta("b", "bo", "2024-02-01")], entries: vec![DirEntry { name: "b".to_string(), is_file: true }] },
    ];
    let all = get_all_files(&users, &uploads);
    let order: Vec<&str> = all.iter().map(|f| f.name.as_str()).collect();
    assert_eq!(order, vec!["a", "b", "ghost"]);
    assert_eq!(all[0].upload_time, "2024-03-01");
    assert_eq!(all[2].size, 0);
    assert_eq!(all[2].uploader, "amy");
}

#[test]
fn chunk_names_round_trip() {
    assert_eq!(chunk_file_name(12), "12.chunk");
    assert_eq!(chunk_index_of(&chunk_file_name(0)), Some(0));
    assert_eq!(chunk_index_of(&chunk_file_name(u64::MAX)), Some(u64::MAX));
    assert_eq!(chunk_index_of("7.chunk.chunk"), Some(7));
    assert_eq!(chunk_index_of("x.chunk"), None);
    assert_eq!(chunk_index_of("7.part"), None);
    assert!(has_suffix("a.chunk", ".chunk"));
    assert_eq!(strip_suffix_all("a.chunk.chunk", ".chunk"), "a");
}

#[test]
fn chunk_queries_and_uploads() {
    let entries = names(&["3.chunk", "x.txt", "1.chunk", "10.chunk", "+2.chunk"]);
    assert_eq!(query_chunks("m", true, &entries), Ok(vec![1, 2, 3, 10]));
    assert_eq!(query_chunks("m", false, &entries), Ok(vec![]));
    assert_eq!(query_chunks("", true, &entries), Err(ApiError::EmptyMd5));
    assert_eq!(upload_chunk("m", "4", "f"), Ok(4));
    assert_eq!(upload_chunk("m", "four", "f"), Err(ApiError::InvalidParameters));
    assert_eq!(upload_chunk("", "4", "f"), Err(ApiError::InvalidParameters));
    assert_eq!(upload_chunk("m", "4", ""), Err(ApiError::InvalidParameters));
}

#[test]
fn merge_planning() {
    let entries = names(&["2.chunk", "0.chunk", "1.chunk", "notes"]);
    assert_eq!(merge_plan("m", "f", Some(3), true, &entries), Ok(names(&["0.chunk", "1.chunk", "2.chunk"])));
    assert_eq!(merge_plan("m", "f", Some(4), true, &entries), Err(ApiError::IncompleteChunks { expected: 4, actual: 3 }));
    assert_eq!(merge_plan("m", "f", None, false, &entries), Err(ApiError::ChunksNotFound));
    assert_eq!(merge_plan("", "f", None, true, &entries), Err(ApiError::InvalidParameters));
}

#[test]
fn merged_data_checked_by_md5() {
    let parts = vec![Some(b"hel".to_vec()), None, Some(b"lo".to_vec())];
    let (data, digest) = merge_chunk_data("5d41402abc4b2a76b9719d911017c592", &parts).unwrap();
    assert_eq!(data, b"hello".to_vec());
    assert_eq!(digest, "5d41402abc4b2a76b9719d911017c592");
    assert_eq!(merge_chunk_data("00", &parts).unwrap_err(), ApiError::Md5Mismatch);
    assert_eq!(accept_merged("ab", "ab".to_string(), vec![1]).unwrap().0, vec![1]);
    assert_eq!(accept_merged("ab", "cd".to_string(), vec![1]).unwrap_err(), ApiError::Md5Mismatch);
}

#[test]
fn merged_upload_recorded_for_named_uploader() {
    let mut files = vec![];
    assert!(!record_merged_file_at(&mut files, "", "f", 5, 1, "t".to_string()));
    assert!(files.is_empty());
    assert!(record_merged_file_at(&mut files, "amy", "f", 5, 1, "t".to_string()));
    assert_eq!(files[0].size, 5);
    assert!(record_merged_file(&mut files, "amy", "f", 6));
    assert_eq!(files.len(), 1);
    assert_eq!(files[0].size, 6);
}

fn pending(id: &str, receiver: &str, filename: &str) -> PendingFileMeta {
    PendingFileMeta {
        id: id.to_string(),
        sender: "amy".to_string(),
        receiver: receiver.to_string(),
        filename: filename.to_string(),
        size: 3,
        expire_at: "e".to_string(),
        created_at: "c".to_string(),
    }
}

#[test]
fn pending_files_lifecycle() {
    let mut list = vec![pending("p1", "bo", "a.txt")];
    let p = store_pending_file_at(&mut list, "amy", "cy", "b.txt", 9, "p2".to_string(), "c".to_string(), "e".to_string()).unwrap();
    assert_eq!(p.id, "p2");
    assert_eq!(list.len(), 2);
    assert_eq!(store_pending_file_at(&mut list, "", "cy", "b.txt", 9, "p3".to_string(), "c".to_string(), "e".to_string()).unwrap_err(), ApiError::EmptyPendingFields);
    let generated = store_pending_file(&mut list, "amy", "bo", "c.txt", 1).unwrap();
    assert!(generated.id.starts_with("file_"));
    assert_eq!(generated.id.rsplit('_').next().unwrap().len(), 9);
    assert_eq!(get_pending_files(&list, "bo").unwrap().len(), 2);
    assert_eq!(get_pending_files(&list, "").unwrap_err(), ApiError::EmptyReceiver);
    assert_eq!(download_pending_file(&list, "p2").unwrap().filename, "b.txt");
    assert_eq!(download_pending_file(&list, "zz").unwrap_err(), ApiError::NotFound);
    assert_eq!(file_status(&list, "a.txt", "bo").unwrap().id, "p1");
    assert!(file_status(&list, "a.txt", "cy").is_none());
    assert_eq!(delete_pending_file(&mut list, "p1"), Ok(()));
    assert_eq!(list.len(), 2);
    assert_eq!(delete_pending_file(&mut list, "p1"), Err(ApiError::NotFound));
}

#[test]
fn uploaded_chunk_is_listed_in_order() {
    let mut entries = names(&["7.chunk", "2.chunk", "7.chunk.part"]);
    let index = upload_chunk("m", "5", "f").unwrap();
    entries.push(chunk_file_name(index));
    let listed = query_chunks("m", true, &entries).unwrap();
    assert!(listed.contains(&5));
    assert_eq!(listed, vec![2, 5, 7]);
}
