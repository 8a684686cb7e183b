use vstd::prelude::*;
use crate::models::{ApiError, FileMeta, seq_views};
use crate::names::{ends_with, strip_suffixes};
use crate::seqs::{insert_pos, lemma_first_index_at, stable_sort};
use crate::storage::{join_path, path_join};
use crate::clock::{now_utc, rfc3339_of, unix_nanos};
use crate::handlers::files::{upload_meta, upsert_file_meta, with_file_meta};
use crate::text::{chars_of, decimal, parse_u64, parsed_u64, str_eq, string_from_chars, u64_to_decimal, views};

verus! {

broadcast use vstd::string::group_string_axioms;

/// The `.chunk` file extension.
pub open spec fn chunk_ext() -> Seq<char> {
    seq!['.', 'c', 'h', 'u', 'n', 'k']
}

/// Whether `s` ends with `suffix`.
pub fn has_suffix(s: &str, suffix: &str) -> (r: bool)
    ensures
        r == ends_with(s@, suffix@),
{
    let cs = chars_of(s);
    let sf = chars_of(suffix);
    if cs.len() < sf.len() {
        return false;
    }
    let off = cs.len() - sf.len();
    let mut i: usize = 0;
    while i < sf.len()
        invariant
            0 <= i <= sf@.len(),
            off + sf@.len() == cs@.len(),
            cs@.len() <= usize::MAX,
            cs@ == s@,
            sf@ == suffix@,
            forall|j: int| 0 <= j < i ==> cs@[off + j] == sf@[j],
        decreases sf@.len() - i,
    {
        if cs[off + i] != sf[i] {
            assert(cs@.subrange(off as int, cs@.len() as int)[i as int] != sf@[i as int]);
            return false;
        }
        i = i + 1;
    }
    assert(cs@.subrange(off as int, cs@.len() as int) =~= sf@);
    true
}

/// `s` with every trailing repetition of `suffix` removed.
pub fn strip_suffix_all(s: &str, suffix: &str) -> (r: String)
    ensures
        r@ == strip_suffixes(s@, suffix@),
{
    let cs = chars_of(s);
    let sf = chars_of(suffix);
    let mut n: usize = cs.len();
    assert(cs@.take(n as int) =~= cs@);
    if sf.len() > 0 {
        loop
            invariant
                n <= cs@.len(),
                cs@.len() <= usize::MAX,
                sf@ == suffix@,
                cs@ == s@,
                sf@.len() > 0,
                strip_suffixes(s@, suffix@) == strip_suffixes(cs@.take(n as int), suffix@),
            ensures
                n <= cs@.len(),
                strip_suffixes(s@, suffix@) == cs@.take(n as int),
            decreases n,
        {
            if n < sf.len() {
                break;
            }
            let off = n - sf.len();
            let mut i: usize = 0;
            let mut same = true;
            while i < sf.len()
                invariant
                    0 <= i <= sf@.len(),
                    off + sf@.len() == n,
                    n <= cs@.len(),
                    cs@.len() <= usize::MAX,
                    same == forall|j: int| 0 <= j < i ==> cs@[off + j] == sf@[j],
                decreases sf@.len() - i,
            {
                if cs[off + i] != sf[i] {
                    same = false;
                }
                i = i + 1;
            }
            let ghost t = cs@.take(n as int);
            assert(same == (t.subrange(off as int, n as int) =~= sf@));
            if !same {
                assert(!ends_with(t, suffix@));
                break;
            }
            assert(t.subrange(0, off as int) =~= cs@.take(off as int));
            n = off;
        }
    }
    let mut out: Vec<char> = Vec::new();
    let mut k: usize = 0;
    while k < n
        invariant
            0 <= k <= n,
            n <= cs@.len(),
            out@ == cs@.take(k as int),
        decreases n - k,
    {
        out.push(cs[k]);
        assert(out@ =~= cs@.take(k + 1));
        k = k + 1;
    }
    string_from_chars(&out)
}

/// The chunk index a file named `name` holds: `<index>.chunk`.
pub open spec fn chunk_index(name: Seq<char>) -> Option<u64> {
    if ends_with(name, chunk_ext()) {
        parsed_u64(strip_suffixes(name, chunk_ext()))
    } else {
        None
    }
}

/// The chunk index of a file name, if it names a chunk.
pub fn chunk_index_of(name: &str) -> (r: Option<u64>)
    ensures
        r == chunk_index(name@),
{
    proof {
        reveal_strlit(".chunk");
    }
    assert(".chunk"@ =~= chunk_ext());
    if has_suffix(name, ".chunk") {
        let stem = strip_suffix_all(name, ".chunk");
        parse_u64(stem.as_str())
    } else {
        None
    }
}

/// The chunk indices of the named files, in order.
pub open spec fn chunk_indices(names: Seq<Seq<char>>) -> Seq<u64>
    decreases names.len(),
{
    if names.len() == 0 {
        Seq::empty()
    } else {
        let prev = chunk_indices(names.drop_last());
        match chunk_index(names.last()) {
            Some(k) => prev.push(k),
            None => prev,
        }
    }
}

/// Ascending order of chunk indices.
pub open spec fn index_lt() -> spec_fn(u64, u64) -> bool {
    |a: u64, b: u64| a < b
}

fn insert_index(v: &mut Vec<u64>, x: u64)
    ensures
        final(v)@ == old(v)@.insert(insert_pos(old(v)@, x, index_lt()), x),
{
    let ghost p = |y: u64| index_lt()(x, y);
    let mut j: usize = 0;
    while j < v.len() && !(x < v[j])
        invariant
            0 <= j <= v@.len(),
            p == (|y: u64| index_lt()(x, y)),
            forall|k: int| 0 <= k < j ==> !p(#[trigger] v@[k]),
        decreases v@.len() - j,
    {
        j = j + 1;
    }
    proof {
        lemma_first_index_at(v@, p, j as int);
    }
    v.insert(j, x);
}

/// The chunk indices held in a chunk directory, in ascending order.
pub fn query_chunks(md5: &str, dir_exists: bool, entries: &Vec<String>) -> (r: Result<Vec<u64>, ApiError>)
    ensures
        md5@.len() == 0 ==> r matches Err(ApiError::EmptyMd5),
        md5@.len() > 0 && !dir_exists ==> (r matches Ok(v) && v@.len() == 0),
        md5@.len() > 0 && dir_exists ==> (r matches Ok(v) && v@ == stable_sort(
            chunk_indices(crate::text::views(entries@)),
            index_lt(),
        )),
{
    if md5.is_empty() {
        return Err(ApiError::EmptyMd5);
    }
    let mut out: Vec<u64> = Vec::new();
    if !dir_exists {
        return Ok(out);
    }
    let ghost names = crate::text::views(entries@);
    let ghost idx = chunk_indices(names);
    let mut found: Vec<u64> = Vec::new();
    let mut i: usize = 0;
    assert(names.take(0) =~= Seq::<Seq<char>>::empty());
    while i < entries.len()
        invariant
            0 <= i <= entries@.len(),
            names == crate::text::views(entries@),
            found@ == chunk_indices(names.take(i as int)),
            out@ == stable_sort(found@, index_lt()),
        decreases entries@.len() - i,
    {
        assert(names.take(i + 1).drop_last() =~= names.take(i as int));
        assert(names.take(i + 1).last() == entries@[i as int]@);
        match chunk_index_of(entries[i].as_str()) {
            Some(k) => {
                let ghost before = found@;
                found.push(k);
                assert(found@.drop_last() =~= before);
                insert_index(&mut out, k);
            },
            None => {},
        }
        i = i + 1;
    }
    assert(names.take(entries@.len() as int) =~= names);
    Ok(out)
}

/// Checks a chunk upload: the digest, the file name and a valid index are needed;
/// gives the index.
pub fn upload_chunk(md5: &str, index: &str, file_name: &str) -> (r: Result<u64, ApiError>)
    ensures
        md5@.len() == 0 || parsed_u64(index@) is None || file_name@.len() == 0 ==> r matches Err(ApiError::InvalidParameters),
        md5@.len() > 0 && file_name@.len() > 0 ==> match parsed_u64(index@) {
            Some(k) => r == Ok::<u64, ApiError>(k),
            None => true,
        },
{
    let parsed = parse_u64(index);
    if md5.is_empty() || parsed.is_none() || file_name.is_empty() {
        return Err(ApiError::InvalidParameters);
    }
    Ok(parsed.unwrap())
}

/// The directory holding the chunks of the upload with digest `md5`.
pub fn chunk_dir(base: &str, md5: &str) -> (r: String)
    ensures
        r@ == path_join(path_join(base@, "temp_chunks"@), md5@),
{
    let t = join_path(base, "temp_chunks");
    join_path(t.as_str(), md5)
}

/// The file name of chunk `index`.
pub fn chunk_file_name(index: u64) -> (r: String)
    ensures
        r@ == decimal(index as nat) + chunk_ext(),
{
    proof {
        reveal_strlit(".chunk");
    }
    assert(".chunk"@ =~= chunk_ext());
    u64_to_decimal(index).concat(".chunk")
}

/// The chunk files of a directory listing with their indices, in listing order.
pub open spec fn chunk_entries(names: Seq<Seq<char>>) -> Seq<(u64, Seq<char>)>
    decreases names.len(),
{
    if names.len() == 0 {
        Seq::empty()
    } else {
        let prev = chunk_entries(names.drop_last());
        match chunk_index(names.last()) {
            Some(k) => prev.push((k, names.last())),
            None => prev,
        }
    }
}

/// Ascending order of chunk entries by index.
pub open spec fn entry_lt() -> spec_fn((u64, Seq<char>), (u64, Seq<char>)) -> bool {
    |a: (u64, Seq<char>), b: (u64, Seq<char>)| a.0 < b.0
}

/// The files of a listing that end in `.chunk`.
pub open spec fn chunk_file_count(names: Seq<Seq<char>>) -> nat {
    names.filter(|n: Seq<char>| ends_with(n, chunk_ext())).len()
}

fn insert_entry(v: &mut Vec<(u64, String)>, x: (u64, String))
    ensures
        entry_views(final(v)@) == entry_views(old(v)@).insert(
            insert_pos(entry_views(old(v)@), (x.0, x.1@), entry_lt()),
            (x.0, x.1@),
        ),
{
    let ghost s = entry_views(v@);
    let ghost xv = (x.0, x.1@);
    let ghost p = |y: (u64, Seq<char>)| entry_lt()(xv, y);
    let mut j: usize = 0;
    while j < v.len() && !(x.0 < v[j].0)
        invariant
            0 <= j <= v@.len(),
            s == entry_views(v@),
            xv == (x.0, x.1@),
            p == (|y: (u64, Seq<char>)| entry_lt()(xv, y)),
            forall|k: int| 0 <= k < j ==> !p(#[trigger] s[k]),
        decreases v@.len() - j,
    {
        j = j + 1;
    }
    proof {
        lemma_first_index_at(s, p, j as int);
    }
    v.insert(j, x);
    assert(entry_views(v@) =~= s.insert(j as int, xv));
}

/// Index and file name of each chunk entry.
pub open spec fn entry_views(s: Seq<(u64, String)>) -> Seq<(u64, Seq<char>)> {
    s.map_values(|e: (u64, String)| (e.0, e.1@))
}

/// Plans a merge: checks the request and the chunk directory, and gives the chunk file
/// names in index order (a stable sort, so equal indices keep their listing order).
pub fn merge_plan(
    md5: &str,
    file_name: &str,
    total_chunks: Option<u64>,
    dir_exists: bool,
    entries: &Vec<String>,
) -> (r: Result<Vec<String>, ApiError>)
    ensures
        ({
            let names = views(entries@);
            if md5@.len() == 0 || file_name@.len() == 0 {
                r matches Err(ApiError::InvalidParameters)
            } else if !dir_exists {
                r matches Err(ApiError::ChunksNotFound)
            } else if total_chunks is Some && (chunk_file_count(names) as int) < total_chunks->0 {
                r == Err::<Vec<String>, ApiError>(ApiError::IncompleteChunks {
                    expected: total_chunks->0,
                    actual: chunk_file_count(names) as u64,
                })
            } else {
                r matches Ok(v) && views(v@) == stable_sort(chunk_entries(names), entry_lt()).map_values(
                    |e: (u64, Seq<char>)| e.1,
                )
            }
        }),
{
    if md5.is_empty() || file_name.is_empty() {
        return Err(ApiError::InvalidParameters);
    }
    if !dir_exists {
        return Err(ApiError::ChunksNotFound);
    }
    let ghost names = views(entries@);
    let ghost pc = |n: Seq<char>| ends_with(n, chunk_ext());
    proof {
        reveal_strlit(".chunk");
    }
    assert(".chunk"@ =~= chunk_ext());
    if let Some(total) = total_chunks {
        let mut count: usize = 0;
        let mut i: usize = 0;
        proof {
            reveal(Seq::filter);
            assert(names.take(0).filter(pc) =~= Seq::<Seq<char>>::empty());
        }
        while i < entries.len()
            invariant
                0 <= i <= entries@.len(),
                names == views(entries@),
                ".chunk"@ == chunk_ext(),
                pc == (|n: Seq<char>| ends_with(n, chunk_ext())),
                count == names.take(i as int).filter(pc).len(),
                count <= i,
            decreases entries@.len() - i,
        {
            proof {
                reveal(Seq::filter);
                assert(names.take(i + 1).drop_last() =~= names.take(i as int));
                assert(names.take(i + 1).last() == entries@[i as int]@);
            }
            if has_suffix(entries[i].as_str(), ".chunk") {
                count = count + 1;
            }
            i = i + 1;
        }
        assert(names.take(entries@.len() as int) =~= names);
        if (count as u64) < total {
            return Err(ApiError::IncompleteChunks { expected: total, actual: count as u64 });
        }
    }
    let mut sorted: Vec<(u64, String)> = Vec::new();
    let ghost found = Seq::<(u64, Seq<char>)>::empty();
    let mut i: usize = 0;
    assert(names.take(0) =~= Seq::<Seq<char>>::empty());
    while i < entries.len()
        invariant
            0 <= i <= entries@.len(),
            names == views(entries@),
            found == chunk_entries(names.take(i as int)),
            entry_views(sorted@) == stable_sort(found, entry_lt()),
        decreases entries@.len() - i,
    {
        assert(names.take(i + 1).drop_last() =~= names.take(i as int));
        assert(names.take(i + 1).last() == entries@[i as int]@);
        match chunk_index_of(entries[i].as_str()) {
            Some(k) => {
                let ghost before = found;
                proof {
                    found = found.push((k, entries@[i as int]@));
                    assert(found.drop_last() =~= before);
                }
                insert_entry(&mut sorted, (k, entries[i].clone()));
            },
            None => {},
        }
        i = i + 1;
    }
    assert(names.take(entries@.len() as int) =~= names);
    let ghost ordered = stable_sort(found, entry_lt());
    let mut out: Vec<String> = Vec::new();
    let mut k: usize = 0;
    while k < sorted.len()
        invariant
            0 <= k <= sorted@.len(),
            entry_views(sorted@) == ordered,
            views(out@) == ordered.take(k as int).map_values(|e: (u64, Seq<char>)| e.1),
        decreases sorted@.len() - k,
    {
        let ghost before = out@;
        let name = sorted[k].1.clone();
        assert(entry_views(sorted@)[k as int] == (sorted@[k as int].0, sorted@[k as int].1@));
        assert(name@ == ordered[k as int].1);
        out.push(name);
        assert(views(out@) =~= views(before).push(name@));
        assert(ordered.take(k + 1).map_values(|e: (u64, Seq<char>)| e.1) =~= ordered.take(k as int).map_values(|e: (u64, Seq<char>)| e.1).push(ordered[k as int].1));
        assert(views(out@) =~= ordered.take(k + 1).map_values(|e: (u64, Seq<char>)| e.1));
        k = k + 1;
    }
    assert(ordered.take(sorted@.len() as int) =~= ordered);
    Ok(out)
}

/// The lower-case hexadecimal MD5 digest of `data`.
pub uninterp spec fn md5_hex_digest(data: Seq<u8>) -> Seq<char>;

/// Computes the MD5 digest of `data` with the `md-5` crate (`Md5::digest`) and writes it
/// in lower-case hexadecimal (`{:x}`). The contract names the result; it does not state
/// the MD5 function itself.
#[verifier::external_body]
fn md5_hex(data: &Vec<u8>) -> (r: String)
    ensures
        r@ == md5_hex_digest(data@),
{
    format!("{:x}", <md5::Md5 as md5::Digest>::digest(data.as_slice()))
}

/// The bytes of the chunk files that could be read, in order.
pub open spec fn present_bytes(parts: Seq<Option<Vec<u8>>>) -> Seq<u8>
    decreases parts.len(),
{
    if parts.len() == 0 {
        Seq::empty()
    } else {
        present_bytes(parts.drop_last()) + match parts.last() {
            Some(b) => b@,
            None => Seq::empty(),
        }
    }
}

/// Accepts merged data whose digest, written in hexadecimal, is the one the client sent.
pub fn accept_merged(md5: &str, digest: String, combined: Vec<u8>) -> (r: Result<(Vec<u8>, String), ApiError>)
    ensures
        digest@ == md5@ ==> (r matches Ok((data, d)) && data@ == combined@ && d@ == digest@),
        digest@ != md5@ ==> r matches Err(ApiError::Md5Mismatch),
{
    if str_eq(digest.as_str(), md5) {
        Ok((combined, digest))
    } else {
        Err(ApiError::Md5Mismatch)
    }
}

/// Joins the chunk contents that could be read, in order, and checks their MD5 digest
/// against `md5`; gives the merged bytes and the digest.
pub fn merge_chunk_data(md5: &str, parts: &Vec<Option<Vec<u8>>>) -> (r: Result<(Vec<u8>, String), ApiError>)
    ensures
        ({
            let data = present_bytes(parts@);
            if md5_hex_digest(data) == md5@ {
                r matches Ok((d, h)) && d@ == data && h@ == md5@
            } else {
                r matches Err(ApiError::Md5Mismatch)
            }
        }),
{
    let mut combined: Vec<u8> = Vec::new();
    let mut i: usize = 0;
    assert(parts@.take(0) =~= Seq::<Option<Vec<u8>>>::empty());
    while i < parts.len()
        invariant
            0 <= i <= parts@.len(),
            combined@ == present_bytes(parts@.take(i as int)),
        decreases parts@.len() - i,
    {
        assert(parts@.take(i + 1).drop_last() =~= parts@.take(i as int));
        match &parts[i] {
            Some(bytes) => {
                let mut j: usize = 0;
                let ghost start = combined@;
                while j < bytes.len()
                    invariant
                        0 <= j <= bytes@.len(),
                        combined@ == start + bytes@.take(j as int),
                    decreases bytes@.len() - j,
                {
                    combined.push(bytes[j]);
                    assert(combined@ =~= start + bytes@.take(j + 1));
                    j = j + 1;
                }
                assert(bytes@.take(bytes@.len() as int) =~= bytes@);
            },
            None => {
                assert(combined@ =~= combined@ + Seq::<u8>::empty());
            },
        }
        i = i + 1;
    }
    assert(parts@.take(parts@.len() as int) =~= parts@);
    let digest = md5_hex(&combined);
    accept_merged(md5, digest, combined)
}

/// The directory a merged upload goes to: the uploader's own, or `shared` without one.
pub fn merge_target_dir(base: &str, username: &str) -> (r: String)
    ensures
        r@ == path_join(path_join(base@, "uploaded_files"@), if username@.len() == 0 { "shared"@ } else { username@ }),
{
    let up = join_path(base, "uploaded_files");
    if username.is_empty() {
        join_path(up.as_str(), "shared")
    } else {
        join_path(up.as_str(), username)
    }
}

/// Records a merged upload in the uploader's file list with the given times; nothing is
/// recorded for an anonymous upload. Gives whether the list changed.
pub fn record_merged_file_at(
    user_files: &mut Vec<FileMeta>,
    username: &str,
    file_name: &str,
    size: u64,
    last_modified: u64,
    upload_time: String,
) -> (r: bool)
    ensures
        r == (username@.len() > 0),
        r ==> seq_views(final(user_files)@) == with_file_meta(
            seq_views(old(user_files)@),
            upload_meta(file_name@, size, last_modified, username@, upload_time@),
        ),
        !r ==> final(user_files)@ == old(user_files)@,
{
    if username.is_empty() {
        return false;
    }
    let meta = FileMeta {
        name: file_name.to_string(),
        size,
        last_modified,
        uploader: username.to_string(),
        upload_time,
    };
    upsert_file_meta(user_files, meta);
    true
}

/// Records a merged upload in the uploader's file list, stamped with the current time.
pub fn record_merged_file(user_files: &mut Vec<FileMeta>, username: &str, file_name: &str, size: u64) -> (r: bool)
    ensures
        r == (username@.len() > 0),
        r ==> exists|last_modified: u64, secs: i64, nanos: u32| seq_views(final(user_files)@) == with_file_meta(
            seq_views(old(user_files)@),
            upload_meta(file_name@, size, last_modified, username@, rfc3339_of(secs, nanos)),
        ),
        !r ==> final(user_files)@ == old(user_files)@,
{
    let millis = (unix_nanos() / 1_000_000) as u64;
    let now = now_utc();
    record_merged_file_at(user_files, username, file_name, size, millis, now.rfc3339)
}

} // verus!
