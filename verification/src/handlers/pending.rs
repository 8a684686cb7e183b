use vstd::prelude::*;
use crate::clock::{millis_of, now_utc, rfc3339_at, rfc3339_of, shift, shifted};
use crate::directory::opt_int;
use crate::ids::{id_chars, random_str};
use crate::models::{ApiError, PendingFileMeta, PendingFileMetaView, seq_views};
use crate::seqs::{first_index, first_match, lemma_first_index, lemma_first_index_at};
use crate::storage::{join_path, path_join};
use crate::text::{decimal, str_eq, u64_to_decimal};

verus! {

broadcast use vstd::string::group_string_axioms;

/// The file listing the pending files.
pub fn pending_meta_path(base: &str) -> (r: String)
    ensures
        r@ == path_join(base@, "pending_files_meta.json"@),
{
    join_path(base, "pending_files_meta.json")
}

/// The file holding the content of pending file `file_id`.
pub fn pending_file_path(base: &str, file_id: &str) -> (r: String)
    ensures
        r@ == path_join(path_join(base@, "pending_files"@), file_id@),
{
    let dir = join_path(base, "pending_files");
    join_path(dir.as_str(), file_id)
}

/// Stores a pending file with the given id and times; gives its record.
pub fn store_pending_file_at(
    pending: &mut Vec<PendingFileMeta>,
    sender: &str,
    receiver: &str,
    filename: &str,
    size: u64,
    file_id: String,
    created_at: String,
    expire_at: String,
) -> (r: Result<PendingFileMeta, ApiError>)
    ensures
        sender@.len() == 0 || receiver@.len() == 0 || filename@.len() == 0 ==> (r matches Err(
            ApiError::EmptyPendingFields,
        ) && final(pending)@ == old(pending)@),
        sender@.len() > 0 && receiver@.len() > 0 && filename@.len() > 0 ==> {
            let m = PendingFileMetaView {
                id: file_id@,
                sender: sender@,
                receiver: receiver@,
                filename: filename@,
                size,
                expire_at: expire_at@,
                created_at: created_at@,
            };
            &&& r matches Ok(p) && p@ == m
            &&& seq_views(final(pending)@) == seq_views(old(pending)@).push(m)
        },
{
    if sender.is_empty() || receiver.is_empty() || filename.is_empty() {
        return Err(ApiError::EmptyPendingFields);
    }
    let m = PendingFileMeta {
        id: file_id,
        sender: sender.to_string(),
        receiver: receiver.to_string(),
        filename: filename.to_string(),
        size,
        expire_at,
        created_at,
    };
    let ghost before = pending@;
    pending.push(m.clone());
    assert(seq_views(pending@) =~= seq_views(before).push(m@));
    Ok(m)
}

/// Stores a pending file with a fresh id; it expires seven days after it is stored.
pub fn store_pending_file(
    pending: &mut Vec<PendingFileMeta>,
    sender: &str,
    receiver: &str,
    filename: &str,
    size: u64,
) -> (r: Result<PendingFileMeta, ApiError>)
    ensures
        sender@.len() == 0 || receiver@.len() == 0 || filename@.len() == 0 ==> (r matches Err(
            ApiError::EmptyPendingFields,
        ) && final(pending)@ == old(pending)@),
        sender@.len() > 0 && receiver@.len() > 0 && filename@.len() > 0 ==> (r matches Ok(p) && {
            &&& p@.sender == sender@ && p@.receiver == receiver@ && p@.filename == filename@ && p@.size == size
            &&& exists|secs: i64, nanos: u32, seed: u64|
                #![trigger rfc3339_of(secs, nanos), id_chars(seed, 9)]
            {
                &&& p@.id == "file_"@ + decimal(millis_of(secs, nanos) as nat) + "_"@ + id_chars(seed, 9)
                &&& p@.created_at == rfc3339_of(secs, nanos)
                &&& p@.expire_at == rfc3339_of(shifted(secs, 604800int), nanos)
            }
            &&& seq_views(final(pending)@) == seq_views(old(pending)@).push(p@)
        }),
{
    let now = now_utc();
    let millis = u64_to_decimal(now.millis);
    let suffix = random_str(9);
    let id = "file_".to_string().concat(millis.as_str()).concat("_").concat(suffix.as_str());
    let ghost seed = choose|seed: u64| suffix@ == id_chars(seed, 9);
    assert(id@ == "file_"@ + decimal(now.millis as nat) + "_"@ + id_chars(seed, 9));
    let expire = rfc3339_at(shift(now.secs, 7 * 86400), now.nanos);
    let ghost (secs, nanos) = (now.secs, now.nanos);
    let r = store_pending_file_at(pending, sender, receiver, filename, size, id, now.rfc3339, expire);
    proof {
        if r is Ok {
            assert(r->Ok_0@.expire_at == rfc3339_of(shifted(secs, 604800int), nanos));
        }
    }
    r
}

/// The pending files waiting for `receiver`, in order.
pub fn get_pending_files(pending: &Vec<PendingFileMeta>, receiver: &str) -> (r: Result<Vec<PendingFileMeta>, ApiError>)
    ensures
        receiver@.len() == 0 ==> r matches Err(ApiError::EmptyReceiver),
        receiver@.len() > 0 ==> (r matches Ok(v) && seq_views(v@) == seq_views(pending@).filter(
            |f: PendingFileMetaView| f.receiver == receiver@,
        )),
{
    if receiver.is_empty() {
        return Err(ApiError::EmptyReceiver);
    }
    let ghost ps = seq_views(pending@);
    let ghost p = |f: PendingFileMetaView| f.receiver == receiver@;
    let mut out: Vec<PendingFileMeta> = Vec::new();
    let mut i: usize = 0;
    proof {
        reveal(Seq::filter);
        assert(ps.take(0).filter(p) =~= Seq::<PendingFileMetaView>::empty());
    }
    while i < pending.len()
        invariant
            0 <= i <= pending@.len(),
            ps == seq_views(pending@),
            p == (|f: PendingFileMetaView| f.receiver == receiver@),
            seq_views(out@) == ps.take(i as int).filter(p),
        decreases pending@.len() - i,
    {
        proof {
            reveal(Seq::filter);
            assert(ps.take(i + 1).drop_last() =~= ps.take(i as int));
            assert(ps.take(i + 1).last() == pending@[i as int]@);
        }
        if str_eq(pending[i].receiver.as_str(), receiver) {
            let f = pending[i].clone();
            let ghost before = out@;
            out.push(f);
            assert(seq_views(out@) =~= seq_views(before).push(f@));
        }
        i = i + 1;
    }
    assert(ps.take(pending@.len() as int) =~= ps);
    Ok(out)
}

/// Pending files whose id is `id`.
pub open spec fn pending_with_id(id: Seq<char>) -> spec_fn(PendingFileMetaView) -> bool {
    |f: PendingFileMetaView| f.id == id
}

fn find_pending(pending: &Vec<PendingFileMeta>, file_id: &str) -> (r: Option<usize>)
    ensures
        opt_int(r) == first_index(seq_views(pending@), pending_with_id(file_id@)),
{
    let ghost s = seq_views(pending@);
    let mut i: usize = 0;
    while i < pending.len()
        invariant
            0 <= i <= pending@.len(),
            s == seq_views(pending@),
            forall|k: int| 0 <= k < i ==> !pending_with_id(file_id@)(#[trigger] s[k]),
        decreases pending@.len() - i,
    {
        if str_eq(pending[i].id.as_str(), file_id) {
            proof {
                lemma_first_index_at(s, pending_with_id(file_id@), i as int);
            }
            return Some(i);
        }
        i = i + 1;
    }
    proof {
        lemma_first_index_at(s, pending_with_id(file_id@), i as int);
    }
    None
}

/// The record of the pending file `file_id`, for its download.
pub fn download_pending_file(pending: &Vec<PendingFileMeta>, file_id: &str) -> (r: Result<PendingFileMeta, ApiError>)
    ensures
        match first_match(seq_views(pending@), pending_with_id(file_id@)) {
            Some(m) => r matches Ok(p) && p@ == m,
            None => r matches Err(ApiError::NotFound),
        },
{
    let found = find_pending(pending, file_id);
    proof {
        lemma_first_index(seq_views(pending@), pending_with_id(file_id@));
    }
    match found {
        Some(k) => Ok(pending[k].clone()),
        None => Err(ApiError::NotFound),
    }
}

/// Removes the record of the delivered pending file `file_id`.
pub fn delete_pending_file(pending: &mut Vec<PendingFileMeta>, file_id: &str) -> (r: Result<(), ApiError>)
    ensures
        match first_index(seq_views(old(pending)@), pending_with_id(file_id@)) {
            Some(k) => r is Ok && seq_views(final(pending)@) == seq_views(old(pending)@).remove(k),
            None => r matches Err(ApiError::NotFound) && final(pending)@ == old(pending)@,
        },
{
    let found = find_pending(pending, file_id);
    proof {
        lemma_first_index(seq_views(pending@), pending_with_id(file_id@));
    }
    match found {
        Some(k) => {
            let ghost before = pending@;
            pending.remove(k);
            assert(seq_views(pending@) =~= seq_views(before).remove(k as int));
            Ok(())
        },
        None => Err(ApiError::NotFound),
    }
}

/// The first pending file named `filename` waiting for `receiver`, if any.
pub fn file_status(pending: &Vec<PendingFileMeta>, filename: &str, receiver: &str) -> (r: Option<PendingFileMeta>)
    ensures
        match first_match(seq_views(pending@), |f: PendingFileMetaView| f.filename == filename@ && f.receiver == receiver@) {
            Some(m) => r matches Some(p) && p@ == m,
            None => r is None,
        },
{
    let ghost s = seq_views(pending@);
    let ghost p = |f: PendingFileMetaView| f.filename == filename@ && f.receiver == receiver@;
    let mut i: usize = 0;
    while i < pending.len()
        invariant
            0 <= i <= pending@.len(),
            s == seq_views(pending@),
            p == (|f: PendingFileMetaView| f.filename == filename@ && f.receiver == receiver@),
            forall|k: int| 0 <= k < i ==> !p(#[trigger] s[k]),
        decreases pending@.len() - i,
    {
        if str_eq(pending[i].filename.as_str(), filename) && str_eq(pending[i].receiver.as_str(), receiver) {
            proof {
                lemma_first_index_at(s, p, i as int);
            }
            return Some(pending[i].clone());
        }
        i = i + 1;
    }
    proof {
        lemma_first_index_at(s, p, i as int);
    }
    None
}

} // verus!
