use vstd::prelude::*;
use crate::directory::{email_uses, has_user, lemma_max_user_id, max_user_id, named, with_login};
use crate::handlers::admin::{
    CREDENTIAL_LIFETIME_MS, kept_credential, token_check, with_session, with_token,
};
use crate::handlers::auth::{field_text, login_outcome, registered_account, registration_refusal, requested_location, RegisterReq};
use crate::handlers::chat::{avatar_of, conversation_counts, counts_as_unread, ConversationFileView, marked_read, private_message, read_by_user, with_avatar};
use crate::handlers::chunked::{chunk_ext, chunk_index, chunk_indices, index_lt};
use crate::handlers::files::{file_named, newer_first, with_file_meta};
use crate::handlers::users::{befriend, other_than, without};
use crate::models::{ApiError, BroadcastView, ChatMessageView, CredentialView, FileMetaView, GroupView, PendingFileMetaView, UserView, public_of};
use crate::handlers::broadcast::{addressed_to, summary_of};
use crate::handlers::chat::{read_point, ReadPointView};
use crate::handlers::org::{flatten, flatten_in, FlatNodeView};
use crate::models::OrgNodeView;
use crate::handlers::groups::group_with_id;
use crate::handlers::pending::pending_with_id;
use crate::monitor::{EventView, later_first};
use crate::names::{conversation_partner, ends_with, is_char, json_ext, split_on, strip_suffixes};
use crate::storage::{conversation_file_name, law_conversation_file_symmetric};
use crate::seqs::{first_index, first_match, insert_pos, lemma_first_index, lemma_first_index_at, lemma_stable_sort_keeps, stable_sort};
use crate::stats::{bearer_token, finished, started};
use crate::text::{
    all_ascii_digits, decimal, digit_char, digits_value, lemma_seq_lt_asymmetric, lemma_seq_lt_transitive,
    parsed_u64, seq_lt,
};
use crate::models::RequestStatsView;

verus! {

broadcast use vstd::seq_lib::group_seq_properties;

/// No element of `s` must come before an element that precedes it.
pub open spec fn ordered_by<T>(s: Seq<T>, lt: spec_fn(T, T) -> bool) -> bool {
    forall|i: int, j: int| 0 <= i < j < s.len() ==> !lt(#[trigger] s[j], #[trigger] s[i])
}

/// `lt` is transitive and asymmetric.
pub open spec fn strict_order<T>(lt: spec_fn(T, T) -> bool) -> bool {
    &&& forall|a: T, b: T, c: T| #![trigger lt(a, b), lt(b, c)] lt(a, b) && lt(b, c) ==> lt(a, c)
    &&& forall|a: T, b: T| #![trigger lt(a, b)] lt(a, b) ==> !lt(b, a)
}

proof fn lemma_insert_keeps_ordered<T>(s: Seq<T>, x: T, lt: spec_fn(T, T) -> bool)
    requires
        ordered_by(s, lt),
        strict_order(lt),
    ensures
        ordered_by(s.insert(insert_pos(s, x, lt), x), lt),
{
    let p = insert_pos(s, x, lt);
    let before = |y: T| lt(x, y);
    lemma_first_index(s, before);
    let r = s.insert(p, x);
    assert forall|i: int, j: int| 0 <= i < j < r.len() implies !lt(#[trigger] r[j], #[trigger] r[i]) by {
        if j < p {
            assert(r[i] == s[i] && r[j] == s[j]);
        } else if j == p {
            assert(r[i] == s[i]);
            assert(!before(s[i]));
        } else if i == p {
            assert(r[j] == s[j - 1]);
            assert(before(s[p]));
            if lt(s[j - 1], x) {
                if j - 1 == p {
                    assert(!lt(s[p], x));
                } else {
                    assert(lt(s[j - 1], s[p]));
                    assert(!lt(s[j - 1], s[p]));
                }
            }
        } else if i < p {
            assert(r[i] == s[i] && r[j] == s[j - 1]);
        } else {
            assert(r[i] == s[i - 1] && r[j] == s[j - 1]);
        }
    }
}

/// A stable sort by a transitive, asymmetric order leaves no element before one that
/// must precede it.
pub proof fn law_stable_sort_ordered<T>(s: Seq<T>, lt: spec_fn(T, T) -> bool)
    requires
        strict_order(lt),
    ensures
        ordered_by(stable_sort(s, lt), lt),
    decreases s.len(),
{
    if s.len() > 0 {
        law_stable_sort_ordered(s.drop_last(), lt);
        lemma_insert_keeps_ordered(stable_sort(s.drop_last(), lt), s.last(), lt);
    }
}

/// The event log lists later entries first: no entry comes after one stamped earlier.
pub proof fn law_events_latest_first(raw: Seq<EventView>)
    ensures
        ordered_by(stable_sort(raw, later_first()), later_first()),
{
    let lt = later_first();
    assert forall|a: EventView, b: EventView, c: EventView| #![trigger lt(a, b), lt(b, c)] lt(a, b) && lt(b, c) implies lt(
        a,
        c,
    ) by {
        lemma_seq_lt_transitive(c.time, b.time, a.time);
    }
    assert forall|a: EventView, b: EventView| #![trigger lt(a, b)] lt(a, b) implies !lt(b, a) by {
        lemma_seq_lt_asymmetric(b.time, a.time);
    }
    law_stable_sort_ordered(raw, lt);
}

/// The list of all uploaded files shows newer uploads first: no file comes after one
/// uploaded earlier.
pub proof fn law_all_files_newest_first(listing: Seq<FileMetaView>)
    ensures
        ordered_by(stable_sort(listing, newer_first()), newer_first()),
{
    let lt = newer_first();
    assert forall|a: FileMetaView, b: FileMetaView, c: FileMetaView| #![trigger lt(a, b), lt(b, c)] lt(a, b) && lt(
        b,
        c,
    ) implies lt(a, c) by {
        lemma_seq_lt_transitive(c.upload_time, b.upload_time, a.upload_time);
    }
    assert forall|a: FileMetaView, b: FileMetaView| #![trigger lt(a, b)] lt(a, b) implies !lt(b, a) by {
        lemma_seq_lt_asymmetric(b.upload_time, a.upload_time);
    }
    law_stable_sort_ordered(listing, lt);
}

/// The chunk indices of an upload are reported in ascending order.
pub proof fn law_chunk_indices_ascending(indices: Seq<u64>)
    ensures
        ordered_by(stable_sort(indices, index_lt()), index_lt()),
{
    law_stable_sort_ordered(indices, index_lt());
}

/// The decimal digits of `n` stand for `n`.
proof fn lemma_decimal_digits(n: nat)
    ensures
        decimal(n).len() > 0,
        all_ascii_digits(decimal(n)),
        digits_value(decimal(n)) == n,
    decreases n,
{
    if n < 10 {
        let d = decimal(n);
        assert(d.drop_last() =~= Seq::<char>::empty());
        assert((digit_char(n) as u32) == ('0' as u32) + n);
        assert(digits_value(d) == digits_value(d.drop_last()) * 10 + ((d.last() as u32) - ('0' as u32)) as nat);
    } else {
        lemma_decimal_digits(n / 10);
        let d = decimal(n);
        assert(d.drop_last() =~= decimal(n / 10));
        assert(d.last() == digit_char(n % 10));
        assert((digit_char(n % 10) as u32) == ('0' as u32) + n % 10);
        assert(digits_value(d) == digits_value(d.drop_last()) * 10 + ((d.last() as u32) - ('0' as u32)) as nat);
        assert((n / 10) * 10 + n % 10 == n);
        assert forall|i: int| 0 <= i < d.len() implies '0' <= #[trigger] d[i] && d[i] <= '9' by {
            if i < d.len() - 1 {
                assert(d[i] == decimal(n / 10)[i]);
            }
        }
    }
}

/// Parsing the decimal form of a number gives the number back.
pub proof fn law_decimal_parses_back(n: u64)
    ensures
        parsed_u64(decimal(n as nat)) == Some(n),
{
    lemma_decimal_digits(n as nat);
    let d = decimal(n as nat);
    assert('0' <= d[0] && d[0] <= '9');
}

/// The file a chunk is stored in names the chunk's index: reading the index back from
/// the file name gives it.
pub proof fn law_chunk_name_round_trip(index: u64)
    ensures
        chunk_index(decimal(index as nat) + chunk_ext()) == Some(index),
{
    let d = decimal(index as nat);
    let name = d + chunk_ext();
    let ext = chunk_ext();
    assert(name.subrange(name.len() - ext.len(), name.len() as int) =~= ext);
    assert(name.subrange(0, name.len() - ext.len()) =~= d);
    lemma_decimal_digits(index as nat);
    if ends_with(d, ext) {
        assert(d.subrange(d.len() - ext.len(), d.len() as int)[5] == ext[5]);
        assert(d[d.len() - 1] == 'k');
    }
    assert(strip_suffixes(name, ext) == strip_suffixes(d, ext));
    assert(strip_suffixes(d, ext) == d);
    law_decimal_parses_back(index);
}

/// The chunk indices of a listing are the indices its chunk files name.
proof fn lemma_chunk_indices_contain(names: Seq<Seq<char>>, n: u64)
    ensures
        chunk_indices(names).contains(n) <==> exists|k: int| 0 <= k < names.len() && chunk_index(#[trigger] names[k]) == Some(n),
    decreases names.len(),
{
    if names.len() > 0 {
        let rest = names.drop_last();
        lemma_chunk_indices_contain(rest, n);
        let prev = chunk_indices(rest);
        if exists|k: int| 0 <= k < names.len() && chunk_index(#[trigger] names[k]) == Some(n) {
            let k = choose|k: int| 0 <= k < names.len() && chunk_index(#[trigger] names[k]) == Some(n);
            if k < rest.len() {
                assert(rest[k] == names[k]);
                let j = choose|j: int| 0 <= j < prev.len() && prev[j] == n;
                match chunk_index(names.last()) {
                    Some(x) => assert(prev.push(x)[j] == n),
                    None => {},
                }
            } else {
                assert(names.last() == names[k]);
                assert(prev.push(n)[prev.len() as int] == n);
            }
        }
        if chunk_indices(names).contains(n) {
            let j = choose|j: int| 0 <= j < chunk_indices(names).len() && chunk_indices(names)[j] == n;
            if j < prev.len() {
                assert(prev[j] == n);
                let k = choose|k: int| 0 <= k < rest.len() && chunk_index(#[trigger] rest[k]) == Some(n);
                assert(rest[k] == names[k]);
            } else {
                assert(chunk_index(names[names.len() - 1]) == Some(n));
            }
        }
    }
}

/// The chunk query lists, in ascending order, exactly the indices that the chunk files
/// of the directory name, each as often as a file names it; a chunk whose file was
/// written, named `<index>.chunk`, is among them.
pub proof fn law_chunk_query_lists_every_chunk(names: Seq<Seq<char>>, index: u64)
    ensures
        ordered_by(stable_sort(chunk_indices(names), index_lt()), index_lt()),
        stable_sort(chunk_indices(names), index_lt()).to_multiset() == chunk_indices(names).to_multiset(),
        forall|n: u64| #[trigger] stable_sort(chunk_indices(names), index_lt()).contains(n)
            <==> exists|k: int| 0 <= k < names.len() && chunk_index(#[trigger] names[k]) == Some(n),
        names.contains(decimal(index as nat) + chunk_ext()) ==> stable_sort(chunk_indices(names), index_lt()).contains(index),
{
    let idx = chunk_indices(names);
    let sorted = stable_sort(idx, index_lt());
    law_chunk_indices_ascending(idx);
    lemma_stable_sort_keeps(idx, index_lt());
    assert forall|n: u64| #[trigger] sorted.contains(n)
        <==> exists|k: int| 0 <= k < names.len() && chunk_index(#[trigger] names[k]) == Some(n) by {
        lemma_chunk_indices_contain(names, n);
        vstd::seq_lib::to_multiset_contains(sorted, n);
        vstd::seq_lib::to_multiset_contains(idx, n);
    }
    if names.contains(decimal(index as nat) + chunk_ext()) {
        let k = choose|k: int| 0 <= k < names.len() && names[k] == decimal(index as nat) + chunk_ext();
        law_chunk_name_round_trip(index);
        assert(chunk_index(names[k]) == Some(index));
        assert(sorted.contains(index));
    }
}

/// Accepting a friend request makes sender and receiver friends of each other: each
/// appears in the friend list of the other's first account.
pub proof fn law_befriend_mutual(users: Seq<UserView>, a: Seq<char>, b: Seq<char>)
    requires
        has_user(users, a),
        has_user(users, b),
    ensures
        ({
            let after = befriend(users, a, b);
            let ai = first_index(users, named(a))->0;
            let bi = first_index(users, named(b))->0;
            &&& after[ai].friends.contains(b)
            &&& after[bi].friends.contains(a)
            &&& after.len() == users.len()
        }),
{
    lemma_first_index(users, named(a));
    lemma_first_index(users, named(b));
    let ai = first_index(users, named(a))->0;
    let bi = first_index(users, named(b))->0;
    let u1 = if users[ai].friends.contains(b) {
        users
    } else {
        users.update(ai, UserView { friends: users[ai].friends.push(b), ..users[ai] })
    };
    if !users[ai].friends.contains(b) {
        assert(u1[ai].friends[u1[ai].friends.len() - 1] == b);
    }
    if !u1[bi].friends.contains(a) {
        let after = u1.update(bi, UserView { friends: u1[bi].friends.push(a), ..u1[bi] });
        assert(after[bi].friends[after[bi].friends.len() - 1] == a);
        if ai != bi {
            assert(after[ai] == u1[ai]);
        } else {
            assert(after[ai].friends.drop_last() == u1[ai].friends);
            let k = choose|k: int| 0 <= k < u1[ai].friends.len() && u1[ai].friends[k] == b;
            assert(after[ai].friends[k] == b);
        }
    }
}

proof fn lemma_filter_all<A>(s: Seq<A>, p: spec_fn(A) -> bool)
    requires
        forall|i: int| 0 <= i < s.len() ==> p(#[trigger] s[i]),
    ensures
        s.filter(p) == s,
    decreases s.len(),
{
    reveal(Seq::filter);
    if s.len() > 0 {
        lemma_filter_all(s.drop_last(), p);
        assert(s.drop_last().push(s.last()) =~= s);
    }
}

/// Removing a name just added to a list where it was missing restores the list: removing
/// a friend just added gives the friend list back, and so does starring a user twice, or
/// joining and leaving a group.
pub proof fn law_add_then_remove_restores(list: Seq<Seq<char>>, x: Seq<char>)
    requires
        !list.contains(x),
    ensures
        without(list.push(x), x) == list,
{
    let p = other_than(x);
    list.lemma_filter_push(x, p);
    assert forall|i: int| 0 <= i < list.len() implies p(#[trigger] list[i]) by {
        if list[i] == x {
            assert(list.contains(x));
        }
    }
    lemma_filter_all(list, p);
}

/// A registered account can log in with the name and password it was registered with,
/// and the login answers with the public view of that account.
pub proof fn law_registered_user_can_log_in(users: Seq<UserView>, req: RegisterReq)
    requires
        registration_refusal(users, req) is None,
        max_user_id(users) < u64::MAX,
    ensures
        ({
            let acc = registered_account(
                (max_user_id(users) + 1) as u64,
                field_text(req.username),
                field_text(req.password),
                field_text(req.email),
                requested_location(req.network_location),
            );
            login_outcome(users.push(acc), field_text(req.username), field_text(req.password)) == Ok::<
                crate::models::UserPublicView,
                ApiError,
            >(public_of(acc))
        }),
{
    let name = field_text(req.username);
    let password = field_text(req.password);
    let acc = registered_account(
        (max_user_id(users) + 1) as u64,
        name,
        password,
        field_text(req.email),
        requested_location(req.network_location),
    );
    let all = users.push(acc);
    let p = with_login(name, password);
    lemma_first_index(users, named(name));
    lemma_first_index(all, p);
    assert forall|j: int| 0 <= j < users.len() implies !p(#[trigger] all[j]) by {
        assert(all[j] == users[j]);
        assert(!named(name)(users[j]));
    }
    assert(p(all[users.len() as int]));
    lemma_first_index_at(all, p, users.len() as int);
}

/// No two accounts share a user name.
pub open spec fn distinct_usernames(users: Seq<UserView>) -> bool {
    forall|i: int, j: int| 0 <= i < j < users.len() ==> (#[trigger] users[i]).username != (#[trigger] users[j]).username
}

/// No e-mail address serves more than two accounts.
pub open spec fn email_limit_kept(users: Seq<UserView>) -> bool {
    forall|i: int| 0 <= i < users.len() ==> email_uses(users, (#[trigger] users[i]).email) <= 2
}

/// A registration that goes through keeps user names unique and every e-mail address
/// to at most two accounts: its name was free, and its address served at most one.
pub proof fn law_registration_keeps_directory_rules(users: Seq<UserView>, req: RegisterReq)
    requires
        distinct_usernames(users),
        email_limit_kept(users),
        registration_refusal(users, req) is None,
    ensures
        !has_user(users, field_text(req.username)),
        email_uses(users, field_text(req.email)) <= 1,
        ({
            let acc = registered_account(
                (max_user_id(users) + 1) as u64,
                field_text(req.username),
                field_text(req.password),
                field_text(req.email),
                requested_location(req.network_location),
            );
            distinct_usernames(users.push(acc)) && email_limit_kept(users.push(acc))
        }),
{
    let name = field_text(req.username);
    let email = field_text(req.email);
    let acc = registered_account(
        (max_user_id(users) + 1) as u64,
        name,
        field_text(req.password),
        email,
        requested_location(req.network_location),
    );
    let all = users.push(acc);
    lemma_first_index(users, named(name));
    assert forall|i: int, j: int| 0 <= i < j < all.len() implies (#[trigger] all[i]).username != (
    #[trigger] all[j]).username by {
        assert(all[i] == users[i]);
        if j < users.len() {
            assert(all[j] == users[j]);
        } else {
            assert(!named(name)(users[i]));
        }
    }
    assert forall|i: int| 0 <= i < all.len() implies email_uses(all, (#[trigger] all[i]).email) <= 2 by {
        let e = all[i].email;
        users.lemma_filter_len_push(|u: UserView| u.email == e, acc);
        assert(all.filter(|u: UserView| u.email == e).len() == email_uses(all, e));
        assert(users.filter(|u: UserView| u.email == e).len() == email_uses(users, e));
        if e != email {
            assert(all[i] == users[i]);
        }
    }
}

/// A registered account's id differs from the id of every account already there.
pub proof fn law_registered_id_fresh(users: Seq<UserView>)
    requires
        max_user_id(users) < u64::MAX,
    ensures
        forall|i: int| 0 <= i < users.len() ==> (#[trigger] users[i]).id != (max_user_id(users) + 1) as u64,
{
    lemma_max_user_id(users);
}

/// A token issued at a login verifies as its user's for the credential lifetime, when no
/// credential already carried it.
pub proof fn law_session_token_verifies(
    creds: Seq<CredentialView>,
    name: Seq<char>,
    token: Seq<char>,
    issued: u64,
    now: u64,
)
    requires
        forall|i: int| 0 <= i < creds.len() ==> (#[trigger] creds[i]).token != token,
        now.wrapping_sub(issued) <= CREDENTIAL_LIFETIME_MS,
    ensures
        token_check(with_session(creds, name, token, issued), token, now).0 == Some(name),
{
    let kept = creds.filter(kept_credential(false, name));
    let all = with_session(creds, name, token, issued);
    let p = with_token(token);
    assert forall|j: int| 0 <= j < kept.len() implies !p(#[trigger] kept[j]) by {
        assert(kept.contains(kept[j]));
        creds.lemma_filter_contains_rev(kept_credential(false, name), kept[j]);
        assert(creds.contains(kept[j]));
    }
    assert forall|j: int| 0 <= j < kept.len() implies !p(#[trigger] all[j]) by {
        assert(all[j] == kept[j]);
    }
    lemma_first_index_at(all, p, kept.len() as int);
}

/// A token check that does not accept the token leaves no credential carrying it.
pub proof fn law_rejected_token_leaves_no_credential(creds: Seq<CredentialView>, token: Seq<char>, now: u64)
    requires
        token_check(creds, token, now).0 is None,
    ensures
        forall|i: int|
            0 <= i < token_check(creds, token, now).1.len() ==> (#[trigger] token_check(creds, token, now).1[i]).token
                != token,
{
    lemma_first_index(creds, with_token(token));
    let left = token_check(creds, token, now).1;
    assert forall|i: int| 0 <= i < left.len() implies (#[trigger] left[i]).token != token by {
        match first_match(creds, with_token(token)) {
            None => {
                assert(!with_token(token)(creds[i]));
            },
            Some(c) => {
                assert(kept_credential(true, token)(left[i]));
            },
        }
    }
}

/// After a user marks messages read, none of them counts as unread for that user.
pub proof fn law_mark_read_clears_unread(ms: Seq<ChatMessageView>, u: Seq<char>, by_from: bool)
    ensures
        marked_read(ms, u).filter(counts_as_unread(u, by_from, None)).len() == 0,
{
    let marked = marked_read(ms, u);
    let p = counts_as_unread(u, by_from, None);
    assert forall|i: int| 0 <= i < marked.len() implies !p(#[trigger] marked[i]) by {
        let m = ms[i];
        if !m.read_by.contains(u) {
            let pushed = m.read_by.push(u);
            assert(pushed[pushed.len() - 1] == u);
        }
    }
    assert(marked.filter(p) =~= Seq::<ChatMessageView>::empty()) by {
        reveal(Seq::filter);
        lemma_none_kept(marked, p);
    }
}

proof fn lemma_none_kept<A>(s: Seq<A>, p: spec_fn(A) -> bool)
    requires
        forall|i: int| 0 <= i < s.len() ==> !p(#[trigger] s[i]),
    ensures
        s.filter(p).len() == 0,
    decreases s.len(),
{
    reveal(Seq::filter);
    if s.len() > 0 {
        lemma_none_kept(s.drop_last(), p);
    }
}

/// Marking messages read a second time changes nothing.
pub proof fn law_mark_read_idempotent(ms: Seq<ChatMessageView>, u: Seq<char>)
    ensures
        marked_read(marked_read(ms, u), u) == marked_read(ms, u),
{
    let once = marked_read(ms, u);
    assert forall|i: int| 0 <= i < once.len() implies #[trigger] read_by_user(once[i], u) == once[i] by {
        let m = ms[i];
        if !m.read_by.contains(u) {
            let pushed = m.read_by.push(u);
            assert(pushed[pushed.len() - 1] == u);
        }
    }
    assert(marked_read(once, u) =~= once);
}

/// After a file's metadata is recorded, looking the file up by name finds that metadata.
pub proof fn law_recorded_file_is_found(files: Seq<FileMetaView>, meta: FileMetaView)
    ensures
        ({
            let after = with_file_meta(files, meta);
            &&& first_index(after, file_named(meta.name)) is Some
            &&& after[first_index(after, file_named(meta.name))->0] == meta
        }),
{
    let p = file_named(meta.name);
    lemma_first_index(files, p);
    let after = with_file_meta(files, meta);
    match first_index(files, p) {
        Some(k) => {
            assert forall|j: int| 0 <= j < k implies !p(#[trigger] after[j]) by {
                assert(after[j] == files[j]);
            }
            lemma_first_index_at(after, p, k);
        },
        None => {
            assert forall|j: int| 0 <= j < files.len() implies !p(#[trigger] after[j]) by {
                assert(after[j] == files[j]);
            }
            lemma_first_index_at(after, p, files.len() as int);
        },
    }
}

/// A request counted in and out on the same day leaves the number of running requests as
/// it was and adds one to the day's total; the peak never falls below the running count.
pub proof fn law_request_counting_balanced(s: RequestStatsView, today: Seq<char>, status: u16)
    requires
        s.today_date == today,
        s.total_requests < u64::MAX,
        s.current_concurrency < u64::MAX,
    ensures
        finished(started(s, today), status).current_concurrency == s.current_concurrency,
        finished(started(s, today), status).total_requests == s.total_requests + 1,
        s.peak_concurrency >= s.current_concurrency ==> finished(started(s, today), status).peak_concurrency
            >= finished(started(s, today), status).current_concurrency,
        started(s, today).peak_concurrency >= started(s, today).current_concurrency,
{
}

/// The credential of a `Bearer` header is read back as it was written.
pub proof fn law_bearer_round_trip(token: Seq<char>)
    ensures
        bearer_token(Some("Bearer "@ + token)) == Some(token),
{
    reveal_strlit("Bearer ");
    let v = "Bearer "@ + token;
    assert(v.take(7) =~= "Bearer "@);
    assert(v.skip(7) =~= token);
}

proof fn lemma_split_no_sep(s: Seq<char>)
    requires
        !s.contains('_'),
    ensures
        split_on(s, '_') == seq![s],
{
    assert forall|k: int| 0 <= k < s.len() implies !is_char('_')(#[trigger] s[k]) by {
        if s[k] == '_' {
            assert(s.contains('_'));
        }
    }
    lemma_first_index_at(s, is_char('_'), s.len() as int);
}

proof fn lemma_split_pair(x: Seq<char>, y: Seq<char>)
    requires
        !x.contains('_'),
        !y.contains('_'),
    ensures
        split_on(x + "_"@ + y, '_') == seq![x, y],
{
    reveal_strlit("_");
    let s = x + "_"@ + y;
    assert forall|k: int| 0 <= k < x.len() implies !is_char('_')(#[trigger] s[k]) by {
        assert(s[k] == x[k]);
        if x[k] == '_' {
            assert(x.contains('_'));
        }
    }
    assert(s[x.len() as int] == '_');
    lemma_first_index_at(s, is_char('_'), x.len() as int);
    assert(s.take(x.len() as int) =~= x);
    assert(s.skip(x.len() as int + 1) =~= y);
    lemma_split_no_sep(y);
    assert(seq![x] + seq![y] =~= seq![x, y]);
}

/// Who the partner of `u` is in the conversation file of `a` and `b`, for names without
/// `_` and not ending in `.json`: the other of the two when `u` is one of them.
proof fn lemma_conversation_file_partner(a: Seq<char>, b: Seq<char>, u: Seq<char>)
    requires
        !a.contains('_'),
        !b.contains('_'),
        !ends_with(a, json_ext()),
        !ends_with(b, json_ext()),
    ensures
        conversation_partner(conversation_file_name(a, b), u) == (if u == a {
            Some(b)
        } else if u == b {
            Some(a)
        } else {
            None::<Seq<char>>
        }),
{
    reveal_strlit("_");
    reveal_strlit(".json");
    assert(".json"@ =~= json_ext());
    let (x, y) = if seq_lt(b, a) { (b, a) } else { (a, b) };
    let stem = x + "_"@ + y;
    let file = stem + json_ext();
    assert(conversation_file_name(a, b) =~= file);
    let e = json_ext();
    assert(file.subrange(file.len() - e.len(), file.len() as int) =~= e);
    assert(file.subrange(0, file.len() - e.len()) =~= stem);
    if ends_with(stem, e) {
        let tail = stem.subrange(stem.len() - e.len(), stem.len() as int);
        if y.len() >= 5 {
            assert(tail =~= y.subrange(y.len() - e.len(), y.len() as int));
        } else {
            let k = 4 - y.len();
            assert(tail[k] == stem[x.len() as int]);
            assert(tail[k] == e[k]);
        }
    }
    assert(strip_suffixes(file, e) == strip_suffixes(stem, e));
    assert(strip_suffixes(stem, e) == stem);
    lemma_split_pair(x, y);
    let parts = split_on(stem, '_');
    assert(parts[0] == x && parts[1] == y);
    if u == x {
        assert(parts.contains(u)) by {
            assert(parts[0] == u);
        }
    } else if u == y {
        assert(parts.contains(u)) by {
            assert(parts[1] == u);
        }
    } else {
        assert(!parts.contains(u)) by {
            if parts.contains(u) {
                let i = choose|i: int| 0 <= i < parts.len() && parts[i] == u;
                assert(i == 0 || i == 1);
            }
        }
    }
}

/// The unread counter reads back the partner of a conversation from the name of the file
/// the conversation is stored in, for names without `_` and not ending in `.json`.
pub proof fn law_conversation_partner_round_trip(a: Seq<char>, b: Seq<char>)
    requires
        !a.contains('_'),
        !b.contains('_'),
        !ends_with(a, json_ext()),
        !ends_with(b, json_ext()),
    ensures
        conversation_partner(conversation_file_name(a, b), a) == Some(b),
{
    lemma_conversation_file_partner(a, b, a);
}

/// A user name as it may stand in a chat file name: no `_`, and not ending in `.json`.
pub open spec fn plain_name(n: Seq<char>) -> bool {
    !n.contains('_') && !ends_with(n, json_ext())
}

/// A chat file name as the server writes it: the conversation file name of two plain names.
pub open spec fn server_chat_name(name: Seq<char>) -> bool {
    exists|a: Seq<char>, b: Seq<char>| plain_name(a) && plain_name(b) && #[trigger] conversation_file_name(a, b) == name
}

/// Without read points, a partner none of whose files holds an unread message gets no
/// count, and every count given is above zero.
proof fn lemma_conversation_counts_omit(files: Seq<ConversationFileView>, u: Seq<char>, o: Seq<char>)
    requires
        forall|j: int| 0 <= j < files.len() ==> (#[trigger] files[j]).messages.len() <= usize::MAX,
        forall|j: int| 0 <= j < files.len() && conversation_partner((#[trigger] files[j]).name, u) == Some(o)
            ==> files[j].messages.filter(counts_as_unread(u, false, None)).len() == 0,
    ensures
        !conversation_counts(files, u, None).contains_key(o),
        forall|key: Seq<char>| #[trigger] conversation_counts(files, u, None).contains_key(key)
            ==> conversation_counts(files, u, None)[key] > 0,
    decreases files.len(),
{
    if files.len() > 0 {
        let rest = files.drop_last();
        assert forall|j: int| 0 <= j < rest.len() implies (#[trigger] rest[j]).messages.len() <= usize::MAX by {
            assert(rest[j] == files[j]);
        }
        assert forall|j: int| 0 <= j < rest.len() && conversation_partner((#[trigger] rest[j]).name, u) == Some(o)
            implies rest[j].messages.filter(counts_as_unread(u, false, None)).len() == 0 by {
            assert(rest[j] == files[j]);
        }
        lemma_conversation_counts_omit(rest, u, o);
        let f = files.last();
        assert(f == files[files.len() - 1]);
        f.messages.lemma_filter_len(counts_as_unread(u, false, None));
    }
}

/// After a user marks a conversation read, the unread counts without read points give no
/// count for the partner of that conversation, and every count they do give is above
/// zero. `files` is a listing of the chat files, with distinct names as the server writes
/// them; `files[k]` is the conversation's file after marking, `before` its messages before.
pub proof fn law_marked_conversation_not_unread(
    files: Seq<ConversationFileView>,
    u: Seq<char>,
    o: Seq<char>,
    k: int,
    before: Seq<ChatMessageView>,
)
    requires
        forall|j: int| 0 <= j < files.len() ==> server_chat_name(#[trigger] files[j].name),
        forall|i: int, j: int| 0 <= i < j < files.len() ==> files[i].name != files[j].name,
        forall|j: int| 0 <= j < files.len() ==> (#[trigger] files[j]).messages.len() <= usize::MAX,
        0 <= k < files.len(),
        files[k].name == conversation_file_name(u, o),
        files[k].messages == marked_read(before, u),
    ensures
        !conversation_counts(files, u, None).contains_key(o),
        forall|key: Seq<char>| #[trigger] conversation_counts(files, u, None).contains_key(key)
            ==> conversation_counts(files, u, None)[key] > 0,
{
    assert forall|j: int| 0 <= j < files.len() && conversation_partner((#[trigger] files[j]).name, u) == Some(o)
        implies files[j].messages.filter(counts_as_unread(u, false, None)).len() == 0 by {
        assert(server_chat_name(files[j].name));
        let (a, b) = choose|a: Seq<char>, b: Seq<char>| plain_name(a) && plain_name(b) && #[trigger] conversation_file_name(a, b) == files[j].name;
        lemma_conversation_file_partner(a, b, u);
        law_conversation_file_symmetric(a, b);
        law_conversation_file_symmetric(u, o);
        assert(files[j].name == conversation_file_name(u, o));
        if j != k {
            if j < k {
                assert(files[j].name != files[k].name);
            } else {
                assert(files[k].name != files[j].name);
            }
        }
        law_mark_read_clears_unread(before, u, false);
    }
    lemma_conversation_counts_omit(files, u, o);
}

proof fn lemma_first_match_push<T>(s: Seq<T>, x: T, p: spec_fn(T) -> bool)
    requires
        forall|i: int| 0 <= i < s.len() ==> !p(#[trigger] s[i]),
        p(x),
    ensures
        first_match(s.push(x), p) == Some(x),
{
    let all = s.push(x);
    assert forall|j: int| 0 <= j < s.len() implies !p(#[trigger] all[j]) by {
        assert(all[j] == s[j]);
    }
    lemma_first_index_at(all, p, s.len() as int);
}

/// A file stored for an offline receiver is handed out again under its id, when no file
/// stored before carries that id.
pub proof fn law_stored_pending_file_found(pending: Seq<PendingFileMetaView>, stored: PendingFileMetaView)
    requires
        forall|i: int| 0 <= i < pending.len() ==> (#[trigger] pending[i]).id != stored.id,
    ensures
        first_match(pending.push(stored), pending_with_id(stored.id)) == Some(stored),
{
    lemma_first_match_push(pending, stored, pending_with_id(stored.id));
}

/// A group just created is found under its id, when no group had that id before.
pub proof fn law_created_group_found(groups: Seq<GroupView>, created: GroupView)
    requires
        forall|i: int| 0 <= i < groups.len() ==> (#[trigger] groups[i]).id != created.id,
    ensures
        first_match(groups.push(created), group_with_id(created.id)) == Some(created),
{
    lemma_first_match_push(groups, created, group_with_id(created.id));
}

/// Every group counts its creator among its members.
pub open spec fn creators_are_members(groups: Seq<GroupView>) -> bool {
    forall|i: int| 0 <= i < groups.len() ==> (#[trigger] groups[i]).members.contains(groups[i].creator)
}

/// A member other than the creator leaving a group keeps every group's creator among
/// its members: the group left keeps its creator, the others are unchanged.
pub proof fn law_leaving_keeps_creator(groups: Seq<GroupView>, k: int, username: Seq<char>)
    requires
        creators_are_members(groups),
        0 <= k < groups.len(),
        groups[k].creator != username,
    ensures
        creators_are_members(
            groups.update(k, GroupView { members: without(groups[k].members, username), ..groups[k] }),
        ),
{
    let g = groups[k];
    let after = groups.update(k, GroupView { members: without(g.members, username), ..g });
    broadcast use vstd::seq_lib::group_filter_ensures;

    let j = choose|j: int| 0 <= j < g.members.len() && g.members[j] == g.creator;
    assert(other_than(username)(g.members[j]));
    assert(without(g.members, username).contains(g.creator));
    assert forall|i: int| 0 <= i < after.len() implies (#[trigger] after[i]).members.contains(after[i].creator) by {
        if i != k {
            assert(after[i] == groups[i]);
        }
    }
}

/// A broadcast marked read by a user shows as read to that user.
pub proof fn law_marked_broadcast_shows_read(b: BroadcastView, username: Seq<char>)
    ensures
        summary_of(BroadcastView { read_by: b.read_by.push(username), ..b }, username).read,
{
    let r = b.read_by.push(username);
    assert(r[r.len() - 1] == username);
}

/// A private message that was sent is read back as the last message of its conversation,
/// as it was stored and with its sender's avatar, the same as the answer to the send.
pub proof fn law_sent_message_read_back(
    users: Seq<UserView>,
    conversation: Seq<ChatMessageView>,
    id: u64,
    sender: Seq<char>,
    receiver: Seq<char>,
    message: Seq<char>,
    timestamp: Seq<char>,
)
    ensures
        ({
            let m = private_message(id, sender, receiver, message, timestamp);
            let read = conversation.push(m).map_values(with_avatar(users));
            &&& read.len() == conversation.len() + 1
            &&& read.last() == ChatMessageView { sender_avatar: avatar_of(users, sender), ..m }
            &&& read.drop_last() == conversation.map_values(with_avatar(users))
        }),
{
    let m = private_message(id, sender, receiver, message, timestamp);
    let read = conversation.push(m).map_values(with_avatar(users));
    assert(read.drop_last() =~= conversation.map_values(with_avatar(users)));
}

/// A request arriving on the day being counted adds one to the total and to the running
/// requests, and the peak becomes the greater of the old peak and the new running
/// count, so it never falls within a day. On a new day the counters start again: one
/// request in all, one running, a peak of one and no errors.
pub proof fn law_peak_tracks_running(s: RequestStatsView, today: Seq<char>)
    requires
        s.today_date == today ==> s.total_requests < u64::MAX && s.current_concurrency < u64::MAX,
    ensures
        s.today_date == today ==> {
            let t = started(s, today);
            &&& t.total_requests == s.total_requests + 1
            &&& t.current_concurrency == s.current_concurrency + 1
            &&& t.peak_concurrency >= s.peak_concurrency
            &&& t.peak_concurrency >= t.current_concurrency
            &&& (t.peak_concurrency == s.peak_concurrency || t.peak_concurrency == t.current_concurrency)
            &&& t.error_requests == s.error_requests
        },
        s.today_date != today ==> {
            let t = started(s, today);
            &&& t.today_date == today
            &&& t.total_requests == 1
            &&& t.current_concurrency == 1
            &&& t.peak_concurrency == 1
            &&& t.error_requests == 0
        },
{
}

/// A broadcast's summary counts every user recorded as having read it, whoever is
/// looking; it shows as read exactly to a viewer among those readers. So each entry of a
/// user's broadcast list carries the number of readers of its broadcast.
pub proof fn law_broadcast_read_count_counts_readers(
    broadcasts: Seq<BroadcastView>,
    tree: OrgNodeView,
    viewer: Seq<char>,
    other: Seq<char>,
)
    requires
        forall|i: int| 0 <= i < broadcasts.len() ==> (#[trigger] broadcasts[i]).read_by.len() <= usize::MAX,
    ensures
        forall|i: int| 0 <= i < broadcasts.len() ==> {
            &&& (#[trigger] summary_of(broadcasts[i], viewer)).read_count == broadcasts[i].read_by.len()
            &&& summary_of(broadcasts[i], viewer).read_count == summary_of(broadcasts[i], other).read_count
            &&& summary_of(broadcasts[i], viewer).read == broadcasts[i].read_by.contains(viewer)
            &&& summary_of(broadcasts[i], viewer).id == broadcasts[i].id
        },
        ({
            let shown = broadcasts.filter(addressed_to(tree, viewer));
            let listed = shown.map_values(|b: BroadcastView| summary_of(b, viewer));
            forall|i: int| 0 <= i < listed.len() ==> (#[trigger] listed[i]).read_count == shown[i].read_by.len()
                && listed[i].id == shown[i].id
        }),
{
    let shown = broadcasts.filter(addressed_to(tree, viewer));
    broadcast use vstd::seq_lib::group_filter_ensures;

    assert forall|i: int| 0 <= i < shown.len() implies shown[i].read_by.len() <= usize::MAX by {
        assert(shown.contains(shown[i]));
        broadcasts.lemma_filter_contains_rev(addressed_to(tree, viewer), shown[i]);
    }
}

/// The listing of child `j` of `n`, one level deeper, stands as one block in the listing
/// of `n`, after the entry of `n` itself.
pub open spec fn child_block_listed(n: OrgNodeView, depth: int, j: int) -> bool {
    exists|off: int|
        #![trigger flatten(n, depth).subrange(off, off + flatten(n.children[j], depth + 1).len())]
    {
        &&& 1 <= off
        &&& off + flatten(n.children[j], depth + 1).len() <= flatten(n, depth).len()
        &&& flatten(n, depth).subrange(off, off + flatten(n.children[j], depth + 1).len())
            == flatten(n.children[j], depth + 1)
    }
}

/// The flat listing of a tree begins with the tree's root, at the given depth, carrying
/// the number of the root's own members whether or not it has children; the listing of
/// each child, one level deeper, stands as one block after it. So every node's entry
/// carries its own member count.
pub proof fn law_flat_listing_entries(n: OrgNodeView, depth: int)
    ensures
        flatten(n, depth).len() >= 1,
        flatten(n, depth)[0] == (FlatNodeView {
            id: n.id,
            name: n.name,
            node_type: n.node_type,
            depth,
            member_count: n.members.len() as int,
        }),
        forall|j: int| 0 <= j < n.children.len() ==> #[trigger] child_block_listed(n, depth, j),
{
    assert forall|j: int| 0 <= j < n.children.len() implies #[trigger] child_block_listed(n, depth, j) by {
        lemma_child_block(n, depth, j);
    }
}

proof fn lemma_child_block(n: OrgNodeView, depth: int, j: int)
    requires
        0 <= j < n.children.len(),
    ensures
        child_block_listed(n, depth, j),
{
    let all = flatten(n, depth);
    lemma_flatten_in_block(n.children, depth + 1, j);
    let inner = flatten_in(n.children, depth + 1);
    let f = flatten(n.children[j], depth + 1);
    let off = choose|off: int| 0 <= off && off + f.len() <= inner.len() && #[trigger] inner.subrange(off, off + f.len()) == f;
    assert(all == seq![all[0]] + inner);
    assert(all.subrange(off + 1, off + 1 + f.len()) =~= inner.subrange(off, off + f.len()));
    let o = off + 1;
    assert(1 <= o);
    assert(o + f.len() <= all.len());
    assert(flatten(n, depth).subrange(o, o + flatten(n.children[j], depth + 1).len()) == flatten(n.children[j], depth + 1));
}

/// The listing of each tree of `s` stands as one block in their joint listing.
proof fn lemma_flatten_in_block(s: Seq<OrgNodeView>, depth: int, j: int)
    requires
        0 <= j < s.len(),
    ensures
        exists|off: int| 0 <= off && off + flatten(s[j], depth).len() <= flatten_in(s, depth).len()
            && #[trigger] flatten_in(s, depth).subrange(off, off + flatten(s[j], depth).len()) == flatten(s[j], depth),
    decreases j,
{
    let all = flatten_in(s, depth);
    let first = flatten(s[0], depth);
    let rest = flatten_in(s.drop_first(), depth);
    assert(all == first + rest);
    if j == 0 {
        assert(all.subrange(0, first.len() as int) =~= first);
        assert(flatten_in(s, depth).subrange(0int, 0int + flatten(s[j], depth).len()) == flatten(s[j], depth));
    } else {
        lemma_flatten_in_block(s.drop_first(), depth, j - 1);
        assert(s.drop_first()[j - 1] == s[j]);
        let f = flatten(s[j], depth);
        let off = choose|off: int| 0 <= off && off + f.len() <= rest.len() && #[trigger] rest.subrange(off, off + f.len()) == f;
        assert(all.subrange(first.len() + off, first.len() + off + f.len()) =~= rest.subrange(off, off + f.len()));
        let o = first.len() + off;
        assert(flatten_in(s, depth).subrange(o, o + flatten(s[j], depth).len()) == flatten(s[j], depth));
    }
}

/// A message read back from a conversation carries the avatar of the first account named
/// as its writer, its `from` field when that is not empty and its `sender` field
/// otherwise (empty when no account has that name); nothing else of it changes.
pub proof fn law_message_carries_writer_avatar(users: Seq<UserView>, m: ChatMessageView, i: int)
    ensures
        ({
            let writer = if m.from.len() > 0 { m.from } else { m.sender };
            let shown = with_avatar(users)(m);
            &&& shown == ChatMessageView { sender_avatar: shown.sender_avatar, ..m }
            &&& (0 <= i < users.len() && users[i].username == writer && (forall|k: int| 0 <= k < i ==> (#[trigger] users[k]).username != writer))
                ==> shown.sender_avatar == users[i].avatar
            &&& (forall|k: int| 0 <= k < users.len() ==> (#[trigger] users[k]).username != writer)
                ==> shown.sender_avatar == Seq::<char>::empty()
        }),
{
    let writer = if m.from.len() > 0 { m.from } else { m.sender };
    lemma_first_index(users, named(writer));
    if 0 <= i < users.len() && users[i].username == writer && (forall|k: int| 0 <= k < i ==> (#[trigger] users[k]).username != writer) {
        lemma_first_index_at(users, named(writer), i);
    }
}

/// Without a read point for a conversation or group, the last message read counts as
/// id 0, so every message of someone else with a positive id counts as unread; with
/// one, the first point under that key gives it (0 when its value is not a number).
pub proof fn law_missing_read_point_counts_all(points: Seq<ReadPointView>, key: Seq<char>, u: Seq<char>, m: ChatMessageView, i: int)
    ensures
        (forall|k: int| 0 <= k < points.len() ==> (#[trigger] points[k]).key != key) ==> {
            &&& read_point(points, key) == 0
            &&& counts_as_unread(u, false, Some(read_point(points, key)))(m) == (m.sender != u && m.id > 0)
            &&& counts_as_unread(u, true, Some(read_point(points, key)))(m) == (m.from != u && m.id > 0)
        },
        (0 <= i < points.len() && points[i].key == key && (forall|k: int| 0 <= k < i ==> (#[trigger] points[k]).key != key))
            ==> read_point(points, key) == match points[i].value {
                Some(v) => v,
                None => 0u64,
            },
{
    let p = |x: ReadPointView| x.key == key;
    lemma_first_index(points, p);
    if 0 <= i < points.len() && points[i].key == key && (forall|k: int| 0 <= k < i ==> (#[trigger] points[k]).key != key) {
        lemma_first_index_at(points, p, i);
    }
}

} // verus!
