use vstd::prelude::*;
use crate::clock::{now_utc, rfc3339_of, unix_nanos};
use crate::directory::{find_user, has_user, named};
use crate::models::{ApiError, FileMeta, FileMetaView, User, UserView, seq_views, user_views};
use crate::seqs::{first_index, first_match, insert_pos, lemma_first_index, lemma_first_index_at, stable_sort};
use crate::storage::{join_path, path_join};
use crate::text::{seq_lt, str_eq, str_lt, url_encoded, urlencoding};

verus! {

broadcast use vstd::string::group_string_axioms;

/// File entries named `name`.
pub open spec fn file_named(name: Seq<char>) -> spec_fn(FileMetaView) -> bool {
    |f: FileMetaView| f.name == name
}

/// The position of the first file entry named `name`.
pub fn find_file(files: &Vec<FileMeta>, name: &str) -> (r: Option<usize>)
    ensures
        crate::directory::opt_int(r) == first_index(seq_views(files@), file_named(name@)),
{
    let ghost s = seq_views(files@);
    let mut i: usize = 0;
    while i < files.len()
        invariant
            0 <= i <= files@.len(),
            s == seq_views(files@),
            forall|k: int| 0 <= k < i ==> !file_named(name@)(#[trigger] s[k]),
        decreases files@.len() - i,
    {
        if str_eq(files[i].name.as_str(), name) {
            proof {
                lemma_first_index_at(s, file_named(name@), i as int);
            }
            return Some(i);
        }
        i = i + 1;
    }
    proof {
        lemma_first_index_at(s, file_named(name@), i as int);
    }
    None
}

/// A file list with `meta` recorded: it replaces the first entry of the same name,
/// or is appended when there is none.
pub open spec fn with_file_meta(files: Seq<FileMetaView>, meta: FileMetaView) -> Seq<FileMetaView> {
    match first_index(files, file_named(meta.name)) {
        Some(k) => files.update(k, meta),
        None => files.push(meta),
    }
}

/// Records `meta` in a file list, replacing the entry of the same name.
pub fn upsert_file_meta(files: &mut Vec<FileMeta>, meta: FileMeta)
    ensures
        seq_views(final(files)@) == with_file_meta(seq_views(old(files)@), meta@),
{
    let found = find_file(files, meta.name.as_str());
    proof {
        lemma_first_index(seq_views(files@), file_named(meta@.name));
    }
    let ghost before = files@;
    let ghost mv = meta@;
    match found {
        Some(k) => {
            files.set(k, meta);
            assert(seq_views(files@) =~= seq_views(before).update(k as int, mv));
        },
        None => {
            files.push(meta);
            assert(seq_views(files@) =~= seq_views(before).push(mv));
        },
    }
}

/// The metadata of an uploaded file.
pub open spec fn upload_meta(name: Seq<char>, size: u64, last_modified: u64, uploader: Seq<char>, upload_time: Seq<char>) -> FileMetaView {
    FileMetaView { name, size, last_modified, uploader, upload_time }
}

/// The file holding `username`'s file list.
pub fn user_files_path(base: &str, username: &str) -> (r: String)
    ensures
        r@ == path_join(path_join(base@, "user_files"@), username@ + ".json"@),
{
    let dir = join_path(base, "user_files");
    let name = username.to_string().concat(".json");
    join_path(dir.as_str(), name.as_str())
}

/// The directory holding `username`'s uploaded files.
pub fn user_upload_dir(base: &str, username: &str) -> (r: String)
    ensures
        r@ == path_join(path_join(base@, "uploaded_files"@), username@),
{
    let dir = join_path(base, "uploaded_files");
    join_path(dir.as_str(), username)
}

/// The downloaded copy of `filename` kept for `username`.
pub fn downloaded_copy_path(base: &str, username: &str, filename: &str) -> (r: String)
    ensures
        r@ == path_join(path_join(path_join(base@, "downloaded_files"@), username@), filename@),
{
    let dir = join_path(base, "downloaded_files");
    let user = join_path(dir.as_str(), username);
    join_path(user.as_str(), filename)
}

/// The `Content-Disposition` value offering `filename` as an attachment.
pub fn attachment_header(filename: &str) -> (r: String)
    ensures
        r@ == "attachment; filename=\""@ + url_encoded(filename@) + "\""@,
{
    let enc = urlencoding(filename);
    "attachment; filename=\"".to_string().concat(enc.as_str()).concat("\"")
}

/// `username`'s file list, once a user is named.
pub fn get_user_files(username: &str, files: Vec<FileMeta>) -> (r: Result<Vec<FileMeta>, ApiError>)
    ensures
        username@.len() == 0 ==> r matches Err(ApiError::EmptyUsername),
        username@.len() > 0 ==> (r matches Ok(v) && v@ == files@),
{
    if username.is_empty() {
        return Err(ApiError::EmptyUsername);
    }
    Ok(files)
}

/// Checks a file list replacement: the user must be named and the list given; gives
/// the list to store.
pub fn update_user_files(username: &str, files: Option<Vec<FileMeta>>) -> (r: Result<Vec<FileMeta>, ApiError>)
    ensures
        username@.len() == 0 ==> r matches Err(ApiError::EmptyUsername),
        username@.len() > 0 && files is None ==> r matches Err(ApiError::InvalidFileList),
        username@.len() > 0 && files is Some ==> (r matches Ok(v) && v@ == files->0@),
{
    if username.is_empty() {
        return Err(ApiError::EmptyUsername);
    }
    match files {
        None => Err(ApiError::InvalidFileList),
        Some(v) => Ok(v),
    }
}

/// Records an uploaded file of `size` bytes in `username`'s file list with the given times.
pub fn upload_file_at(
    files: &mut Vec<FileMeta>,
    username: &str,
    filename: &str,
    size: u64,
    last_modified: u64,
    upload_time: String,
) -> (r: Result<(), ApiError>)
    ensures
        username@.len() == 0 ==> (r matches Err(ApiError::EmptyUsername) && final(files)@ == old(files)@),
        username@.len() > 0 && filename@.len() == 0 ==> (r matches Err(ApiError::EmptyFilename) && final(files)@ == old(files)@),
        username@.len() > 0 && filename@.len() > 0 ==> (r is Ok && seq_views(final(files)@) == with_file_meta(
            seq_views(old(files)@),
            upload_meta(filename@, size, last_modified, username@, upload_time@),
        )),
{
    if username.is_empty() {
        return Err(ApiError::EmptyUsername);
    }
    if filename.is_empty() {
        return Err(ApiError::EmptyFilename);
    }
    let meta = FileMeta {
        name: filename.to_string(),
        size,
        last_modified,
        uploader: username.to_string(),
        upload_time,
    };
    upsert_file_meta(files, meta);
    Ok(())
}

/// Records an uploaded file, stamped with the current time.
pub fn upload_file(files: &mut Vec<FileMeta>, username: &str, filename: &str, size: u64) -> (r: Result<(), ApiError>)
    ensures
        username@.len() == 0 ==> (r matches Err(ApiError::EmptyUsername) && final(files)@ == old(files)@),
        username@.len() > 0 && filename@.len() == 0 ==> (r matches Err(ApiError::EmptyFilename) && final(files)@ == old(files)@),
        username@.len() > 0 && filename@.len() > 0 ==> (r is Ok && exists|last_modified: u64, secs: i64, nanos: u32|
            seq_views(final(files)@) == with_file_meta(
                seq_views(old(files)@),
                upload_meta(filename@, size, last_modified, username@, rfc3339_of(secs, nanos)),
            )),
{
    let millis = (unix_nanos() / 1_000_000) as u64;
    let now = now_utc();
    upload_file_at(files, username, filename, size, millis, now.rfc3339)
}

/// Removes `filename` from `username`'s file list.
pub fn delete_file(files: &mut Vec<FileMeta>, username: &str, filename: &str) -> (r: Result<(), ApiError>)
    ensures
        username@.len() == 0 || filename@.len() == 0 ==> (r matches Err(ApiError::EmptyUsernameOrFilename)
            && final(files)@ == old(files)@),
        username@.len() > 0 && filename@.len() > 0 ==> (r is Ok && seq_views(final(files)@) == seq_views(
            old(files)@,
        ).filter(|f: FileMetaView| f.name != filename@)),
{
    if username.is_empty() || filename.is_empty() {
        return Err(ApiError::EmptyUsernameOrFilename);
    }
    let ghost orig = seq_views(files@);
    let ghost p = |f: FileMetaView| f.name != filename@;
    let mut kept: Vec<FileMeta> = Vec::new();
    let mut i: usize = 0;
    proof {
        reveal(Seq::filter);
        assert(orig.take(0).filter(p) =~= Seq::<FileMetaView>::empty());
    }
    while i < files.len()
        invariant
            0 <= i <= files@.len(),
            orig == seq_views(files@),
            p == (|f: FileMetaView| f.name != filename@),
            seq_views(kept@) == orig.take(i as int).filter(p),
        decreases files@.len() - i,
    {
        proof {
            reveal(Seq::filter);
            assert(orig.take(i + 1).drop_last() =~= orig.take(i as int));
            assert(orig.take(i + 1).last() == files@[i as int]@);
        }
        if !str_eq(files[i].name.as_str(), filename) {
            let f = files[i].clone();
            let ghost before = kept@;
            kept.push(f);
            assert(seq_views(kept@) =~= seq_views(before).push(f@));
        }
        i = i + 1;
    }
    assert(orig.take(files@.len() as int) =~= orig);
    *files = kept;
    Ok(())
}

/// Shares a file: the first entry of the sender's list named `filename` is added to the
/// receiver's list unless the receiver already has a file of that name. Gives whether
/// the receiver's list changed.
pub fn send_file(
    users: &Vec<User>,
    sender: &str,
    receiver: &str,
    filename: &str,
    sender_files: &Vec<FileMeta>,
    receiver_files: &mut Vec<FileMeta>,
) -> (r: Result<bool, ApiError>)
    ensures
        ({
            let u = user_views(users@);
            if !has_user(u, sender@) {
                r matches Err(ApiError::SenderNotFound)
            } else if !has_user(u, receiver@) {
                r matches Err(ApiError::ReceiverNotFound)
            } else {
                match first_match(seq_views(sender_files@), file_named(filename@)) {
                    None => r matches Err(ApiError::FileNotFound),
                    Some(f) => if first_index(seq_views(old(receiver_files)@), file_named(filename@)) is Some {
                        r == Ok::<bool, ApiError>(false)
                    } else {
                        r == Ok::<bool, ApiError>(true) && seq_views(final(receiver_files)@) == seq_views(old(receiver_files)@).push(f)
                    },
                }
            }
        }),
        !(r == Ok::<bool, ApiError>(true)) ==> final(receiver_files)@ == old(receiver_files)@,
{
    if find_user(users, sender).is_none() {
        return Err(ApiError::SenderNotFound);
    }
    if find_user(users, receiver).is_none() {
        return Err(ApiError::ReceiverNotFound);
    }
    let found = find_file(sender_files, filename);
    proof {
        lemma_first_index(seq_views(sender_files@), file_named(filename@));
    }
    match found {
        None => Err(ApiError::FileNotFound),
        Some(k) => {
            if find_file(receiver_files, filename).is_some() {
                return Ok(false);
            }
            let f = sender_files[k].clone();
            let ghost before = receiver_files@;
            receiver_files.push(f);
            assert(seq_views(receiver_files@) =~= seq_views(before).push(f@));
            Ok(true)
        },
    }
}

/// An entry of a user's upload directory.
#[derive(Debug)]
pub struct DirEntry {
    pub name: String,
    pub is_file: bool,
}

/// What the server knows of one user's uploads: the recorded list and the directory.
#[derive(Debug)]
pub struct UserUploads {
    pub metadata: Vec<FileMeta>,
    pub entries: Vec<DirEntry>,
}

/// The last recorded entry named `name`.
pub open spec fn last_meta(files: Seq<FileMetaView>, name: Seq<char>) -> Option<FileMetaView>
    decreases files.len(),
{
    if files.len() == 0 {
        None
    } else if files.last().name == name {
        Some(files.last())
    } else {
        last_meta(files.drop_last(), name)
    }
}

/// The listing entry of an uploaded file: its recorded metadata, or size and times 0
/// and the directory owner as uploader when nothing is recorded.
pub open spec fn listed_file(name: Seq<char>, owner: Seq<char>, files: Seq<FileMetaView>) -> FileMetaView {
    match last_meta(files, name) {
        Some(m) => FileMetaView { name, size: m.size, last_modified: m.last_modified, uploader: m.uploader, upload_time: m.upload_time },
        None => FileMetaView { name, size: 0, last_modified: 0, uploader: owner, upload_time: Seq::empty() },
    }
}

/// The listing entries of one user's directory, in directory order, files only.
pub open spec fn user_listing(owner: Seq<char>, files: Seq<FileMetaView>, entries: Seq<(Seq<char>, bool)>) -> Seq<FileMetaView>
    decreases entries.len(),
{
    if entries.len() == 0 {
        Seq::empty()
    } else {
        let prev = user_listing(owner, files, entries.drop_last());
        let e = entries.last();
        if e.1 { prev.push(listed_file(e.0, owner, files)) } else { prev }
    }
}

/// The listing entries of all users in turn.
pub open spec fn all_listing(users: Seq<UserView>, uploads: Seq<(Seq<FileMetaView>, Seq<(Seq<char>, bool)>)>) -> Seq<FileMetaView>
    decreases users.len(),
{
    if users.len() == 0 || uploads.len() < users.len() {
        Seq::empty()
    } else {
        let k = users.len() - 1;
        all_listing(users.drop_last(), uploads.take(k)) + user_listing(users[k].username, uploads[k].0, uploads[k].1)
    }
}

/// Newest upload time first.
pub open spec fn newer_first() -> spec_fn(FileMetaView, FileMetaView) -> bool {
    |a: FileMetaView, b: FileMetaView| seq_lt(b.upload_time, a.upload_time)
}

/// The recorded lists and directory listings of the users' uploads.
pub open spec fn uploads_view(s: Seq<UserUploads>) -> Seq<(Seq<FileMetaView>, Seq<(Seq<char>, bool)>)> {
    s.map_values(|u: UserUploads| (seq_views(u.metadata@), u.entries@.map_values(|e: DirEntry| (e.name@, e.is_file))))
}

fn find_last_meta(files: &Vec<FileMeta>, name: &str) -> (r: Option<usize>)
    ensures
        match r {
            Some(k) => k < files@.len() && last_meta(seq_views(files@), name@) == Some(files@[k as int]@),
            None => last_meta(seq_views(files@), name@) is None,
        },
{
    let ghost s = seq_views(files@);
    let mut i: usize = files.len();
    assert(s.take(i as int) =~= s);
    while i > 0
        invariant
            0 <= i <= files@.len(),
            s == seq_views(files@),
            last_meta(s, name@) == last_meta(s.take(i as int), name@),
        decreases i,
    {
        assert(s.take(i as int).last() == files@[i - 1]@);
        if str_eq(files[i - 1].name.as_str(), name) {
            return Some(i - 1);
        }
        assert(s.take(i as int).drop_last() =~= s.take(i - 1));
        i = i - 1;
    }
    None
}

fn insert_newer_first(v: &mut Vec<FileMeta>, x: FileMeta)
    ensures
        seq_views(final(v)@) == seq_views(old(v)@).insert(insert_pos(seq_views(old(v)@), x@, newer_first()), x@),
{
    let ghost s = seq_views(v@);
    let ghost xv = x@;
    let ghost p = |y: FileMetaView| newer_first()(xv, y);
    let mut j: usize = 0;
    while j < v.len() && !str_lt(v[j].upload_time.as_str(), x.upload_time.as_str())
        invariant
            0 <= j <= v@.len(),
            s == seq_views(v@),
            xv == x@,
            p == (|y: FileMetaView| newer_first()(xv, y)),
            forall|k: int| 0 <= k < j ==> !p(#[trigger] s[k]),
        decreases v@.len() - j,
    {
        j = j + 1;
    }
    proof {
        lemma_first_index_at(s, p, j as int);
    }
    v.insert(j, x);
    assert(seq_views(v@) =~= s.insert(j as int, xv));
}

/// Every user's uploaded files, newest first (a stable sort by upload time, so equal
/// times keep the order of users and of their directories). `uploads[i]` belongs to `users[i]`.
pub fn get_all_files(users: &Vec<User>, uploads: &Vec<UserUploads>) -> (r: Vec<FileMeta>)
    requires
        uploads@.len() == users@.len(),
    ensures
        seq_views(r@) == stable_sort(all_listing(user_views(users@), uploads_view(uploads@)), newer_first()),
{
    let ghost us = user_views(users@);
    let ghost ups = uploads_view(uploads@);
    let ghost listed = Seq::<FileMetaView>::empty();
    let mut out: Vec<FileMeta> = Vec::new();
    assert(all_listing(us.take(0), ups.take(0)) =~= listed);
    let mut i: usize = 0;
    while i < users.len()
        invariant
            0 <= i <= users@.len(),
            uploads@.len() == users@.len(),
            us == user_views(users@),
            ups == uploads_view(uploads@),
            listed == all_listing(us.take(i as int), ups.take(i as int)),
            seq_views(out@) == stable_sort(listed, newer_first()),
        decreases users@.len() - i,
    {
        let user = &users[i];
        let up = &uploads[i];
        let ghost owner = user.username@;
        let ghost metas = seq_views(up.metadata@);
        let ghost ents = up.entries@.map_values(|e: DirEntry| (e.name@, e.is_file));
        let ghost base_listed = listed;
        proof {
            assert(us.take(i + 1).drop_last() =~= us.take(i as int));
            assert(ups.take(i + 1).take(i as int) =~= ups.take(i as int));
            assert(us.take(i + 1)[i as int] == user@);
            assert(ups.take(i + 1)[i as int] == (metas, ents));
            assert(all_listing(us.take(i + 1), ups.take(i + 1)) == base_listed + user_listing(owner, metas, ents));
            assert(ents.take(0) =~= Seq::<(Seq<char>, bool)>::empty());
            assert(base_listed + user_listing(owner, metas, ents.take(0)) =~= base_listed);
        }
        let mut k: usize = 0;
        while k < up.entries.len()
            invariant
                0 <= k <= up.entries@.len(),
                ents == up.entries@.map_values(|e: DirEntry| (e.name@, e.is_file)),
                owner == user.username@,
                metas == seq_views(up.metadata@),
                listed == base_listed + user_listing(owner, metas, ents.take(k as int)),
                seq_views(out@) == stable_sort(listed, newer_first()),
            decreases up.entries@.len() - k,
        {
            let e = &up.entries[k];
            proof {
                assert(ents.take(k + 1).drop_last() =~= ents.take(k as int));
                assert(ents.take(k + 1).last() == (e.name@, e.is_file));
            }
            if e.is_file {
                let entry = match find_last_meta(&up.metadata, e.name.as_str()) {
                    Some(m) => {
                        let meta = &up.metadata[m];
                        FileMeta {
                            name: e.name.clone(),
                            size: meta.size,
                            last_modified: meta.last_modified,
                            uploader: meta.uploader.clone(),
                            upload_time: meta.upload_time.clone(),
                        }
                    },
                    None => FileMeta {
                        name: e.name.clone(),
                        size: 0,
                        last_modified: 0,
                        uploader: user.username.clone(),
                        upload_time: String::new(),
                    },
                };
                assert(entry@ == listed_file(e.name@, owner, metas));
                let ghost prev = listed;
                proof {
                    listed = listed.push(entry@);
                    assert(listed.drop_last() =~= prev);
                    assert(base_listed + user_listing(owner, metas, ents.take(k + 1)) =~= listed);
                }
                insert_newer_first(&mut out, entry);
            } else {
                assert(base_listed + user_listing(owner, metas, ents.take(k + 1)) =~= listed);
            }
            k = k + 1;
        }
        assert(ents.take(up.entries@.len() as int) =~= ents);
        i = i + 1;
    }
    assert(us.take(users@.len() as int) =~= us);
    assert(ups.take(users@.len() as int) =~= ups);
    out
}

} // verus!
