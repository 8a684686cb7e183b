use vstd::prelude::*;
use crate::clock::{millis_of, now_utc, one_reading, rfc3339_of};
use crate::directory::{find_user, has_user, named};
use crate::models::{
    ApiError, FriendRequest, FriendRequestView, User, UserPublic, UserPublicView, UserView, public_of,
    seq_views, user_views,
};
use crate::seqs::{first_index, first_match, lemma_first_index, lemma_first_index_at};
use crate::storage::{join_path, path_join};
use crate::text::{chars_of, contains_str, str_eq, views};
use vstd::string::StringSliceAdditionalSpecFns;

verus! {

broadcast use vstd::string::group_string_axioms;

/// The public view of an account.
pub fn to_public(user: &User) -> (p: UserPublic)
    ensures
        p@ == public_of(user@),
{
    UserPublic::from_user(user.clone())
}

/// Every account in the public view, in order.
pub fn get_users(users: &Vec<User>) -> (r: Vec<UserPublic>)
    ensures
        seq_views(r@) == user_views(users@).map_values(|u: UserView| public_of(u)),
{
    let mut out: Vec<UserPublic> = Vec::new();
    let mut i: usize = 0;
    while i < users.len()
        invariant
            0 <= i <= users@.len(),
            seq_views(out@) == user_views(users@).take(i as int).map_values(|u: UserView| public_of(u)),
        decreases users@.len() - i,
    {
        let p = to_public(&users[i]);
        let ghost before = out@;
        out.push(p);
        assert(seq_views(out@) =~= seq_views(before).push(p@));
        assert(user_views(users@).take(i + 1) =~= user_views(users@).take(i as int).push(users@[i as int]@));
        assert(seq_views(out@) =~= user_views(users@).take(i + 1).map_values(|u: UserView| public_of(u)));
        i = i + 1;
    }
    assert(user_views(users@).take(users@.len() as int) =~= user_views(users@));
    out
}

/// What `str::to_lowercase` gives for `s` (Unicode lower-case mapping).
pub uninterp spec fn lowercase_of(s: Seq<char>) -> Seq<char>;

/// `str::to_lowercase`. The result is named by [`lowercase_of`]; the Unicode case
/// mapping it applies is not stated here.
#[verifier::external_body]
fn to_lowercase(s: &str) -> (r: String)
    ensures
        r@ == lowercase_of(s@),
{
    s.to_lowercase()
}

/// Whether `needle` occurs in `hay` as a contiguous piece.
pub open spec fn contains_piece(hay: Seq<char>, needle: Seq<char>) -> bool {
    exists|i: int| 0 <= i && i + needle.len() <= hay.len() && #[trigger] hay.subrange(i, i + needle.len()) == needle
}

/// Whether `needle` occurs in `hay`.
pub fn str_contains(hay: &str, needle: &str) -> (r: bool)
    ensures
        r == contains_piece(hay@, needle@),
{
    let h = chars_of(hay);
    let n = chars_of(needle);
    if n.len() > h.len() {
        return false;
    }
    let mut i: usize = 0;
    while i <= h.len() - n.len()
        invariant
            h@ == hay@,
            n@ == needle@,
            n@.len() <= h@.len(),
            h@.len() <= usize::MAX,
            0 <= i <= h@.len() - n@.len() + 1,
            forall|k: int| 0 <= k < i ==> #[trigger] h@.subrange(k, k + n@.len()) != n@,
        decreases h@.len() - n@.len() + 1 - i,
    {
        let mut j: usize = 0;
        while j < n.len() && h[i + j] == n[j]
            invariant
                0 <= j <= n@.len(),
                i + n@.len() <= h@.len(),
                h@.len() <= usize::MAX,
                forall|m: int| 0 <= m < j ==> h@[i + m] == n@[m],
            decreases n@.len() - j,
        {
            j = j + 1;
        }
        if j == n.len() {
            assert(h@.subrange(i as int, i + n@.len()) =~= n@);
            return true;
        }
        assert(h@.subrange(i as int, i + n@.len())[j as int] != n@[j as int]);
        i = i + 1;
    }
    assert(!contains_piece(hay@, needle@)) by {
        if contains_piece(hay@, needle@) {
            let k = choose|k: int| 0 <= k && k + needle@.len() <= hay@.len() && #[trigger] hay@.subrange(k, k + needle@.len()) == needle@;
            assert(h@.subrange(k, k + n@.len()) == n@);
        }
    }
    false
}

/// Accounts whose lower-cased name or e-mail contains the lower-cased query.
pub open spec fn matches_query(q: Seq<char>) -> spec_fn(UserView) -> bool {
    |u: UserView| contains_piece(lowercase_of(u.username), q) || contains_piece(lowercase_of(u.email), q)
}

/// The accounts whose name or e-mail contains `query`, ignoring case, in the public view.
pub fn search_users(users: &Vec<User>, query: &str) -> (r: Result<Vec<UserPublic>, ApiError>)
    ensures
        ({
            let q = lowercase_of(query@);
            &&& q.len() == 0 ==> (r matches Err(ApiError::EmptyQuery))
            &&& q.len() > 0 ==> (r matches Ok(v) && seq_views(v@) == user_views(users@).filter(matches_query(q)).map_values(
                |u: UserView| public_of(u),
            ))
        }),
{
    let q = to_lowercase(query);
    if q.as_str().is_empty() {
        return Err(ApiError::EmptyQuery);
    }
    let ghost us = user_views(users@);
    let ghost p = matches_query(q@);
    let ghost pf = |u: UserView| public_of(u);
    let mut out: Vec<UserPublic> = Vec::new();
    proof {
        reveal(Seq::filter);
        assert(us.take(0).filter(p) =~= Seq::<UserView>::empty());
        assert(seq_views(out@) =~= us.take(0).filter(p).map_values(pf));
    }
    let mut i: usize = 0;
    while i < users.len()
        invariant
            0 <= i <= users@.len(),
            us == user_views(users@),
            p == matches_query(q@),
            pf == (|u: UserView| public_of(u)),
            seq_views(out@) == us.take(i as int).filter(p).map_values(pf),
        decreases users@.len() - i,
    {
        proof {
            reveal(Seq::filter);
            assert(us.take(i + 1).drop_last() =~= us.take(i as int));
            assert(us.take(i + 1).last() == users@[i as int]@);
        }
        let name = to_lowercase(users[i].username.as_str());
        let email = to_lowercase(users[i].email.as_str());
        if str_contains(name.as_str(), q.as_str()) || str_contains(email.as_str(), q.as_str()) {
            let pu = to_public(&users[i]);
            let ghost before = out@;
            out.push(pu);
            assert(seq_views(out@) =~= seq_views(before).push(pu@));
            assert(us.take(i + 1).filter(p).map_values(pf) =~= us.take(i as int).filter(p).map_values(pf).push(pf(users@[i as int]@)));
        }
        i = i + 1;
    }
    assert(us.take(users@.len() as int) =~= us);
    Ok(out)
}

/// The user list with account `k` changed to `u`.
pub open spec fn with_account(users: Seq<UserView>, k: int, u: UserView) -> Seq<UserView> {
    users.update(k, u)
}

/// Adds `friend` to `current`'s friend list; both accounts must exist.
pub fn add_friend(users: &mut Vec<User>, current: &str, friend: &str) -> (r: Result<(), ApiError>)
    ensures
        ({
            let u = user_views(old(users)@);
            match (first_index(u, named(current@)), first_index(u, named(friend@))) {
                (Some(ui), Some(_)) => if u[ui].friends.contains(friend@) {
                    r matches Err(ApiError::AlreadyFriend)
                } else {
                    r is Ok && user_views(final(users)@) == with_account(u, ui, UserView { friends: u[ui].friends.push(friend@), ..u[ui] })
                },
                (None, _) => r matches Err(ApiError::CurrentUserNotFound),
                (_, None) => r matches Err(ApiError::TargetUserNotFound),
            }
        }),
        r is Err ==> final(users)@ == old(users)@,
{
    let ui = find_user(users, current);
    let fi = find_user(users, friend);
    proof {
        lemma_first_index(user_views(users@), named(current@));
    }
    match (ui, fi) {
        (Some(ui), Some(_)) => {
            if contains_str(&users[ui].friends, friend) {
                return Err(ApiError::AlreadyFriend);
            }
            let ghost before = users@;
            let mut u = users[ui].clone();
            let ghost old_friends = u.friends@;
            u.friends.push(friend.to_string());
            assert(views(u.friends@) =~= views(old_friends).push(friend@));
            let ghost uv = u@;
            users.set(ui, u);
            assert(user_views(users@) =~= user_views(before).update(ui as int, uv));
            Ok(())
        },
        (None, _) => Err(ApiError::CurrentUserNotFound),
        (_, None) => Err(ApiError::TargetUserNotFound),
    }
}

/// `list` without any entry equal to `x`.
pub open spec fn without(list: Seq<Seq<char>>, x: Seq<char>) -> Seq<Seq<char>> {
    list.filter(other_than(x))
}

/// Names other than `x`.
pub open spec fn other_than(x: Seq<char>) -> spec_fn(Seq<char>) -> bool {
    |m: Seq<char>| m != x
}

fn remove_all(list: &Vec<String>, x: &str) -> (r: Vec<String>)
    ensures
        views(r@) == without(views(list@), x@),
{
    let ghost orig = views(list@);
    let ghost p = other_than(x@);
    let mut kept: Vec<String> = Vec::new();
    let mut i: usize = 0;
    proof {
        reveal(Seq::filter);
        assert(orig.take(0).filter(p) =~= Seq::<Seq<char>>::empty());
    }
    while i < list.len()
        invariant
            0 <= i <= list@.len(),
            orig == views(list@),
            p == other_than(x@),
            views(kept@) == orig.take(i as int).filter(p),
        decreases list@.len() - i,
    {
        proof {
            reveal(Seq::filter);
            assert(orig.take(i + 1).drop_last() =~= orig.take(i as int));
            assert(orig.take(i + 1).last() == list@[i as int]@);
        }
        if !str_eq(list[i].as_str(), x) {
            let m = list[i].clone();
            let ghost kb = views(kept@);
            kept.push(m);
            assert(views(kept@) =~= kb.push(m@));
        }
        i = i + 1;
    }
    assert(orig.take(list@.len() as int) =~= orig);
    kept
}

/// Removes `friend` from `current`'s friend list.
pub fn remove_friend(users: &mut Vec<User>, current: &str, friend: &str) -> (r: Result<(), ApiError>)
    ensures
        ({
            let u = user_views(old(users)@);
            match first_index(u, named(current@)) {
                Some(ui) => if !u[ui].friends.contains(friend@) {
                    r matches Err(ApiError::NotFriend)
                } else {
                    r is Ok && user_views(final(users)@) == with_account(u, ui, UserView { friends: without(u[ui].friends, friend@), ..u[ui] })
                },
                None => r matches Err(ApiError::CurrentUserNotFound),
            }
        }),
        r is Err ==> final(users)@ == old(users)@,
{
    let found = find_user(users, current);
    proof {
        lemma_first_index(user_views(users@), named(current@));
    }
    match found {
        Some(ui) => {
            if !contains_str(&users[ui].friends, friend) {
                return Err(ApiError::NotFriend);
            }
            let ghost before = users@;
            let mut u = users[ui].clone();
            u.friends = remove_all(&u.friends, friend);
            let ghost uv = u@;
            users.set(ui, u);
            assert(user_views(users@) =~= user_views(before).update(ui as int, uv));
            Ok(())
        },
        None => Err(ApiError::CurrentUserNotFound),
    }
}

/// The accounts whose names are listed in `names`, in user-list order, in the public view.
pub open spec fn listed_publics(users: Seq<UserView>, names: Seq<Seq<char>>) -> Seq<UserPublicView> {
    users.filter(|u: UserView| names.contains(u.username)).map_values(|u: UserView| public_of(u))
}

fn publics_listed(users: &Vec<User>, names: &Vec<String>) -> (r: Vec<UserPublic>)
    ensures
        seq_views(r@) == listed_publics(user_views(users@), views(names@)),
{
    let ghost us = user_views(users@);
    let ghost p = |u: UserView| views(names@).contains(u.username);
    let ghost pf = |u: UserView| public_of(u);
    let mut out: Vec<UserPublic> = Vec::new();
    proof {
        reveal(Seq::filter);
        assert(us.take(0).filter(p) =~= Seq::<UserView>::empty());
        assert(seq_views(out@) =~= us.take(0).filter(p).map_values(pf));
    }
    let mut i: usize = 0;
    while i < users.len()
        invariant
            0 <= i <= users@.len(),
            us == user_views(users@),
            p == (|u: UserView| views(names@).contains(u.username)),
            pf == (|u: UserView| public_of(u)),
            seq_views(out@) == us.take(i as int).filter(p).map_values(pf),
        decreases users@.len() - i,
    {
        proof {
            reveal(Seq::filter);
            assert(us.take(i + 1).drop_last() =~= us.take(i as int));
            assert(us.take(i + 1).last() == users@[i as int]@);
        }
        if contains_str(names, users[i].username.as_str()) {
            let pu = to_public(&users[i]);
            let ghost before = out@;
            out.push(pu);
            assert(seq_views(out@) =~= seq_views(before).push(pu@));
            assert(us.take(i + 1).filter(p).map_values(pf) =~= us.take(i as int).filter(p).map_values(pf).push(pf(users@[i as int]@)));
        }
        i = i + 1;
    }
    assert(us.take(users@.len() as int) =~= us);
    out
}

/// `username`'s friends, in user-list order, in the public view.
pub fn get_friends(users: &Vec<User>, username: &str) -> (r: Result<Vec<UserPublic>, ApiError>)
    ensures
        username@.len() == 0 ==> r matches Err(ApiError::EmptyUsername),
        username@.len() > 0 ==> match first_match(user_views(users@), named(username@)) {
            Some(u) => r matches Ok(v) && seq_views(v@) == listed_publics(user_views(users@), u.friends),
            None => r matches Err(ApiError::UserNotFound),
        },
{
    if username.is_empty() {
        return Err(ApiError::EmptyUsername);
    }
    let found = find_user(users, username);
    proof {
        lemma_first_index(user_views(users@), named(username@));
    }
    match found {
        Some(k) => Ok(publics_listed(users, &users[k].friends)),
        None => Err(ApiError::UserNotFound),
    }
}

/// Toggles the star `current` puts on `target`; gives whether `target` is starred afterwards.
pub fn star_user(users: &mut Vec<User>, current: &str, target: &str) -> (r: Result<bool, ApiError>)
    ensures
        ({
            let u = user_views(old(users)@);
            match first_index(u, named(current@)) {
                Some(ui) => if u[ui].starred_users.contains(target@) {
                    r == Ok::<bool, ApiError>(false) && user_views(final(users)@) == with_account(
                        u,
                        ui,
                        UserView { starred_users: without(u[ui].starred_users, target@), ..u[ui] },
                    )
                } else {
                    r == Ok::<bool, ApiError>(true) && user_views(final(users)@) == with_account(
                        u,
                        ui,
                        UserView { starred_users: u[ui].starred_users.push(target@), ..u[ui] },
                    )
                },
                None => r matches Err(ApiError::CurrentUserNotFound) && final(users)@ == old(users)@,
            }
        }),
{
    let found = find_user(users, current);
    proof {
        lemma_first_index(user_views(users@), named(current@));
    }
    match found {
        Some(ui) => {
            let ghost before = users@;
            let mut u = users[ui].clone();
            let starred = contains_str(&u.starred_users, target);
            if starred {
                u.starred_users = remove_all(&u.starred_users, target);
            } else {
                let ghost old_s = u.starred_users@;
                u.starred_users.push(target.to_string());
                assert(views(u.starred_users@) =~= views(old_s).push(target@));
            }
            let ghost uv = u@;
            users.set(ui, u);
            assert(user_views(users@) =~= user_views(before).update(ui as int, uv));
            Ok(!starred)
        },
        None => Err(ApiError::CurrentUserNotFound),
    }
}

/// The accounts `username` has starred, in user-list order, in the public view.
pub fn get_starred(users: &Vec<User>, username: &str) -> (r: Result<Vec<UserPublic>, ApiError>)
    ensures
        username@.len() == 0 ==> r matches Err(ApiError::EmptyUsername),
        username@.len() > 0 ==> match first_match(user_views(users@), named(username@)) {
            Some(u) => r matches Ok(v) && seq_views(v@) == listed_publics(user_views(users@), u.starred_users),
            None => r matches Err(ApiError::UserNotFound),
        },
{
    if username.is_empty() {
        return Err(ApiError::EmptyUsername);
    }
    let found = find_user(users, username);
    proof {
        lemma_first_index(user_views(users@), named(username@));
    }
    match found {
        Some(k) => Ok(publics_listed(users, &users[k].starred_users)),
        None => Err(ApiError::UserNotFound),
    }
}

/// What `regex::Regex::new(pattern)` followed by `is_match(text)` answers; false when
/// the pattern does not compile.
pub uninterp spec fn regex_matches(pattern: Seq<char>, text: Seq<char>) -> bool;

/// Compiles `pattern` with `regex::Regex::new` and tests `text` with `is_match`; a
/// pattern that does not compile matches nothing. The result is named by
/// [`regex_matches`]; the regular-expression semantics are not stated here.
#[verifier::external_body]
fn regex_match(pattern: &str, text: &str) -> (r: bool)
    ensures
        r == regex_matches(pattern@, text@),
{
    match regex::Regex::new(pattern) {
        Ok(re) => re.is_match(text),
        Err(_) => false,
    }
}

/// The birthday pattern: four digits, two digits and two digits joined by dashes.
pub open spec fn birthday_pattern() -> Seq<char> {
    "^\\d{4}-\\d{2}-\\d{2}$"@
}

/// The genders a profile may hold.
pub open spec fn valid_gender(g: Seq<char>) -> bool {
    g == "male"@ || g == "female"@ || g == "private"@ || g == "none"@
}

/// Why a profile update is refused, given whether the birthday has the right format.
pub open spec fn profile_refusal(
    signature: Option<&str>,
    birthday: Option<&str>,
    gender: Option<&str>,
    birthday_format_ok: bool,
) -> Option<ApiError> {
    if signature is Some && signature->0@.len() > 100 {
        Some(ApiError::SignatureTooLong)
    } else if birthday is Some && birthday->0@.len() > 0 && !birthday_format_ok {
        Some(ApiError::InvalidBirthday)
    } else if gender is Some && !valid_gender(gender->0@) {
        Some(ApiError::InvalidGender)
    } else {
        None
    }
}

/// The account with the given profile fields replaced.
pub open spec fn with_profile(u: UserView, signature: Option<&str>, birthday: Option<&str>, gender: Option<&str>) -> UserView {
    UserView {
        signature: match signature { Some(s) => s@, None => u.signature },
        birthday: match birthday { Some(b) => b@, None => u.birthday },
        gender: match gender { Some(g) => g@, None => u.gender },
        ..u
    }
}

/// Updates `username`'s signature, birthday and gender, those that are given, once
/// they pass the checks; `birthday_format_ok` says whether the birthday matches the
/// birthday pattern. A signature may hold at most 100 characters.
pub fn update_profile_checked(
    users: &mut Vec<User>,
    username: &str,
    signature: Option<&str>,
    birthday: Option<&str>,
    gender: Option<&str>,
    birthday_format_ok: bool,
) -> (r: Result<(), ApiError>)
    ensures
        username@.len() == 0 ==> r matches Err(ApiError::EmptyUsername),
        username@.len() > 0 ==> match profile_refusal(signature, birthday, gender, birthday_format_ok) {
            Some(e) => r == Err::<(), ApiError>(e),
            None => match first_index(user_views(old(users)@), named(username@)) {
                Some(k) => r is Ok && user_views(final(users)@) == with_account(
                    user_views(old(users)@),
                    k,
                    with_profile(user_views(old(users)@)[k], signature, birthday, gender),
                ),
                None => r matches Err(ApiError::UserNotFound),
            },
        },
        r is Err ==> final(users)@ == old(users)@,
{
    if username.is_empty() {
        return Err(ApiError::EmptyUsername);
    }
    if let Some(sig) = signature {
        if sig.unicode_len() > 100 {
            return Err(ApiError::SignatureTooLong);
        }
    }
    if let Some(b) = birthday {
        if !b.is_empty() && !birthday_format_ok {
            return Err(ApiError::InvalidBirthday);
        }
    }
    if let Some(g) = gender {
        if !(str_eq(g, "male") || str_eq(g, "female") || str_eq(g, "private") || str_eq(g, "none")) {
            return Err(ApiError::InvalidGender);
        }
    }
    let found = find_user(users, username);
    proof {
        lemma_first_index(user_views(users@), named(username@));
    }
    match found {
        Some(k) => {
            let ghost before = users@;
            let mut u = users[k].clone();
            if let Some(s) = signature {
                u.signature = s.to_string();
            }
            if let Some(b) = birthday {
                u.birthday = b.to_string();
            }
            if let Some(g) = gender {
                u.gender = g.to_string();
            }
            let ghost uv = u@;
            users.set(k, u);
            assert(user_views(users@) =~= user_views(before).update(k as int, uv));
            Ok(())
        },
        None => Err(ApiError::UserNotFound),
    }
}

/// Updates `username`'s profile; the birthday, when given and not empty, must match
/// the birthday pattern.
pub fn update_profile(
    users: &mut Vec<User>,
    username: &str,
    signature: Option<&str>,
    birthday: Option<&str>,
    gender: Option<&str>,
) -> (r: Result<(), ApiError>)
    ensures
        ({
            let ok = match birthday {
                Some(b) => regex_matches(birthday_pattern(), b@),
                None => true,
            };
            &&& username@.len() == 0 ==> (r matches Err(ApiError::EmptyUsername))
            &&& username@.len() > 0 ==> match profile_refusal(signature, birthday, gender, ok) {
                Some(e) => r == Err::<(), ApiError>(e),
                None => match first_index(user_views(old(users)@), named(username@)) {
                    Some(k) => r is Ok && user_views(final(users)@) == with_account(
                        user_views(old(users)@),
                        k,
                        with_profile(user_views(old(users)@)[k], signature, birthday, gender),
                    ),
                    None => r matches Err(ApiError::UserNotFound),
                },
            }
            &&& r is Err ==> final(users)@ == old(users)@
        }),
{
    let ok = match birthday {
        Some(b) => regex_match("^\\d{4}-\\d{2}-\\d{2}$", b),
        None => true,
    };
    update_profile_checked(users, username, signature, birthday, gender, ok)
}

/// The file holding `username`'s avatar.
pub fn avatar_path(base: &str, username: &str) -> (r: String)
    ensures
        r@ == path_join(path_join(base@, "avatars"@), username@ + ".jpg"@),
{
    let dir = join_path(base, "avatars");
    let name = username.to_string().concat(".jpg");
    join_path(dir.as_str(), name.as_str())
}

/// The address an avatar is served from.
pub open spec fn avatar_url(username: Seq<char>) -> Seq<char> {
    "/user/avatar/"@ + username
}

/// Checks an avatar upload before the image is stored: a user must be named and the
/// image must not be empty.
pub fn avatar_upload_allowed(username: &str, size: usize) -> (r: Result<(), ApiError>)
    ensures
        username@.len() == 0 ==> r matches Err(ApiError::EmptyUsername),
        username@.len() > 0 && size == 0 ==> r matches Err(ApiError::EmptyAvatar),
        username@.len() > 0 && size > 0 ==> r is Ok,
{
    if username.is_empty() {
        return Err(ApiError::EmptyUsername);
    }
    if size == 0 {
        return Err(ApiError::EmptyAvatar);
    }
    Ok(())
}

/// Points `username`'s avatar at the stored image; gives its address.
pub fn set_avatar(users: &mut Vec<User>, username: &str) -> (r: Result<String, ApiError>)
    ensures
        match first_index(user_views(old(users)@), named(username@)) {
            Some(k) => r matches Ok(url) && url@ == avatar_url(username@) && user_views(final(users)@) == with_account(
                user_views(old(users)@),
                k,
                UserView { avatar: avatar_url(username@), ..user_views(old(users)@)[k] },
            ),
            None => r matches Err(ApiError::UserNotFound) && final(users)@ == old(users)@,
        },
{
    let found = find_user(users, username);
    proof {
        lemma_first_index(user_views(users@), named(username@));
    }
    match found {
        Some(k) => {
            let url = "/user/avatar/".to_string().concat(username);
            let ghost before = users@;
            let mut u = users[k].clone();
            u.avatar = url.clone();
            let ghost uv = u@;
            users.set(k, u);
            assert(user_views(users@) =~= user_views(before).update(k as int, uv));
            Ok(url)
        },
        None => Err(ApiError::UserNotFound),
    }
}

/// Handles an avatar upload of `size` bytes: the checks of [`avatar_upload_allowed`],
/// then [`set_avatar`].
pub fn upload_avatar(users: &mut Vec<User>, username: &str, size: usize) -> (r: Result<String, ApiError>)
    ensures
        username@.len() == 0 ==> (r matches Err(ApiError::EmptyUsername) && final(users)@ == old(users)@),
        username@.len() > 0 && size == 0 ==> (r matches Err(ApiError::EmptyAvatar) && final(users)@ == old(users)@),
        username@.len() > 0 && size > 0 ==> match first_index(user_views(old(users)@), named(username@)) {
            Some(k) => r matches Ok(url) && url@ == avatar_url(username@) && user_views(final(users)@) == with_account(
                user_views(old(users)@),
                k,
                UserView { avatar: avatar_url(username@), ..user_views(old(users)@)[k] },
            ),
            None => r matches Err(ApiError::UserNotFound) && final(users)@ == old(users)@,
        },
{
    avatar_upload_allowed(username, size)?;
    set_avatar(users, username)
}

/// Clears `username`'s avatar, if the account exists; gives whether it does.
pub fn delete_avatar(users: &mut Vec<User>, username: &str) -> (r: bool)
    ensures
        match first_index(user_views(old(users)@), named(username@)) {
            Some(k) => r && user_views(final(users)@) == with_account(
                user_views(old(users)@),
                k,
                UserView { avatar: Seq::empty(), ..user_views(old(users)@)[k] },
            ),
            None => !r && final(users)@ == old(users)@,
        },
{
    let found = find_user(users, username);
    proof {
        lemma_first_index(user_views(users@), named(username@));
    }
    match found {
        Some(k) => {
            let ghost before = users@;
            let mut u = users[k].clone();
            u.avatar = String::new();
            let ghost uv = u@;
            users.set(k, u);
            assert(user_views(users@) =~= user_views(before).update(k as int, uv));
            true
        },
        None => false,
    }
}

/// The file holding the friend requests sent to `username`.
pub fn get_fr_path(base: &str, username: &str) -> (r: String)
    ensures
        r@ == path_join(path_join(base@, "friend_requests"@), username@ + ".json"@),
{
    let dir = join_path(base, "friend_requests");
    let name = username.to_string().concat(".json");
    join_path(dir.as_str(), name.as_str())
}

/// A pending request from `sender` is already in the list.
pub open spec fn pending_from(reqs: Seq<FriendRequestView>, sender: Seq<char>) -> bool {
    exists|i: int| 0 <= i < reqs.len() && (#[trigger] reqs[i]).sender == sender && reqs[i].status == "pending"@
}

/// Sends a friend request with the given id and time stamp, appending it to the
/// receiver's request list `requests`.
pub fn send_friend_request_at(
    users: &Vec<User>,
    requests: &mut Vec<FriendRequest>,
    sender: &str,
    receiver: &str,
    id: u64,
    timestamp: String,
) -> (r: Result<FriendRequest, ApiError>)
    ensures
        ({
            let u = user_views(users@);
            if !has_user(u, sender@) {
                r matches Err(ApiError::SenderNotFound)
            } else if !has_user(u, receiver@) {
                r matches Err(ApiError::ReceiverNotFound)
            } else if first_match(u, named(sender@))->0.friends.contains(receiver@) {
                r matches Err(ApiError::AlreadyFriend)
            } else if pending_from(seq_views(old(requests)@), sender@) {
                r matches Err(ApiError::FriendRequestAlreadySent)
            } else {
                let fr = FriendRequestView {
                    id,
                    sender: sender@,
                    receiver: receiver@,
                    status: "pending"@,
                    timestamp: timestamp@,
                };
                &&& r matches Ok(q) && q@ == fr
                &&& seq_views(final(requests)@) == seq_views(old(requests)@).push(fr)
            }
        }),
        r is Err ==> final(requests)@ == old(requests)@,
{
    let si = find_user(users, sender);
    proof {
        lemma_first_index(user_views(users@), named(sender@));
    }
    if si.is_none() {
        return Err(ApiError::SenderNotFound);
    }
    if find_user(users, receiver).is_none() {
        return Err(ApiError::ReceiverNotFound);
    }
    if contains_str(&users[si.unwrap()].friends, receiver) {
        return Err(ApiError::AlreadyFriend);
    }
    let mut i: usize = 0;
    while i < requests.len()
        invariant
            0 <= i <= requests@.len(),
            requests@ == old(requests)@,
            has_user(user_views(users@), sender@),
            has_user(user_views(users@), receiver@),
            !first_match(user_views(users@), named(sender@))->0.friends.contains(receiver@),
            forall|k: int| 0 <= k < i ==> !((#[trigger] seq_views(requests@)[k]).sender == sender@ && seq_views(requests@)[k].status == "pending"@),
        decreases requests@.len() - i,
    {
        if str_eq(requests[i].sender.as_str(), sender) && str_eq(requests[i].status.as_str(), "pending") {
            assert(seq_views(requests@)[i as int] == requests@[i as int]@);
            return Err(ApiError::FriendRequestAlreadySent);
        }
        assert(seq_views(requests@)[i as int] == requests@[i as int]@);
        i = i + 1;
    }
    let fr = FriendRequest {
        id,
        sender: sender.to_string(),
        receiver: receiver.to_string(),
        status: "pending".to_string(),
        timestamp,
    };
    let ghost before = requests@;
    requests.push(fr.clone());
    assert(seq_views(requests@) =~= seq_views(before).push(fr@));
    Ok(fr)
}

/// Sends a friend request stamped with the current time, its id being the time in milliseconds.
pub fn send_friend_request(
    users: &Vec<User>,
    requests: &mut Vec<FriendRequest>,
    sender: &str,
    receiver: &str,
) -> (r: Result<FriendRequest, ApiError>)
    ensures
        ({
            let u = user_views(users@);
            if !has_user(u, sender@) {
                r matches Err(ApiError::SenderNotFound)
            } else if !has_user(u, receiver@) {
                r matches Err(ApiError::ReceiverNotFound)
            } else if first_match(u, named(sender@))->0.friends.contains(receiver@) {
                r matches Err(ApiError::AlreadyFriend)
            } else if pending_from(seq_views(old(requests)@), sender@) {
                r matches Err(ApiError::FriendRequestAlreadySent)
            } else {
                r matches Ok(q) && q@.sender == sender@ && q@.receiver == receiver@ && q@.status == "pending"@
                    && one_reading(q@.id, q@.timestamp) && seq_views(final(requests)@) == seq_views(
                    old(requests)@,
                ).push(q@)
            }
        }),
        r is Err ==> final(requests)@ == old(requests)@,
{
    let now = now_utc();
    let ghost (secs, nanos) = (now.secs, now.nanos);
    let r = send_friend_request_at(users, requests, sender, receiver, now.millis, now.rfc3339);
    proof {
        if r is Ok {
            assert(r->Ok_0@.id == millis_of(secs, nanos) && rfc3339_of(secs, nanos) == r->Ok_0@.timestamp);
        }
    }
    r
}

/// The requests of the request lists in turn that satisfy `p`.
pub open spec fn requests_where(files: Seq<Seq<FriendRequestView>>, p: spec_fn(FriendRequestView) -> bool) -> Seq<FriendRequestView>
    decreases files.len(),
{
    if files.len() == 0 {
        Seq::empty()
    } else {
        requests_where(files.drop_last(), p) + files.last().filter(p)
    }
}

/// `extra` appended, one by one, to `base`, each unless a request with its id is
/// already there.
pub open spec fn append_new_ids(base: Seq<FriendRequestView>, extra: Seq<FriendRequestView>) -> Seq<FriendRequestView>
    decreases extra.len(),
{
    if extra.len() == 0 {
        base
    } else {
        let prev = append_new_ids(base, extra.drop_last());
        let r = extra.last();
        if exists|i: int| 0 <= i < prev.len() && (#[trigger] prev[i]).id == r.id { prev } else { prev.push(r) }
    }
}

/// The request lists of all users, in user order.
pub open spec fn request_files(s: Seq<Vec<FriendRequest>>) -> Seq<Seq<FriendRequestView>> {
    s.map_values(|v: Vec<FriendRequest>| seq_views(v@))
}

fn collect_requests(files: &Vec<Vec<FriendRequest>>, username: &str, sent_only: bool) -> (r: Vec<FriendRequest>)
    ensures
        seq_views(r@) == requests_where(request_files(files@), if sent_only {
            |q: FriendRequestView| q.sender == username@ && q.status == "pending"@
        } else {
            |q: FriendRequestView| q.sender == username@ || q.receiver == username@
        }),
{
    let ghost fs = request_files(files@);
    let ghost p = if sent_only {
        |q: FriendRequestView| q.sender == username@ && q.status == "pending"@
    } else {
        |q: FriendRequestView| q.sender == username@ || q.receiver == username@
    };
    let mut out: Vec<FriendRequest> = Vec::new();
    let mut i: usize = 0;
    assert(requests_where(fs.take(0), p) =~= Seq::<FriendRequestView>::empty());
    while i < files.len()
        invariant
            0 <= i <= files@.len(),
            fs == request_files(files@),
            p == (if sent_only {
                |q: FriendRequestView| q.sender == username@ && q.status == "pending"@
            } else {
                |q: FriendRequestView| q.sender == username@ || q.receiver == username@
            }),
            seq_views(out@) == requests_where(fs.take(i as int), p),
        decreases files@.len() - i,
    {
        let reqs = &files[i];
        let ghost rv = seq_views(reqs@);
        let ghost start = seq_views(out@);
        proof {
            assert(fs.take(i + 1).drop_last() =~= fs.take(i as int));
            assert(fs.take(i + 1).last() == rv);
            reveal(Seq::filter);
            assert(rv.take(0).filter(p) =~= Seq::<FriendRequestView>::empty());
        }
        let mut j: usize = 0;
        while j < reqs.len()
            invariant
                0 <= j <= reqs@.len(),
                rv == seq_views(reqs@),
                p == (if sent_only {
                    |q: FriendRequestView| q.sender == username@ && q.status == "pending"@
                } else {
                    |q: FriendRequestView| q.sender == username@ || q.receiver == username@
                }),
                seq_views(out@) == start + rv.take(j as int).filter(p),
            decreases reqs@.len() - j,
        {
            proof {
                reveal(Seq::filter);
                assert(rv.take(j + 1).drop_last() =~= rv.take(j as int));
                assert(rv.take(j + 1).last() == reqs@[j as int]@);
            }
            let q = &reqs[j];
            let keep = if sent_only {
                str_eq(q.sender.as_str(), username) && str_eq(q.status.as_str(), "pending")
            } else {
                str_eq(q.sender.as_str(), username) || str_eq(q.receiver.as_str(), username)
            };
            if keep {
                let c = q.clone();
                let ghost before = out@;
                out.push(c);
                assert(seq_views(out@) =~= seq_views(before).push(c@));
                assert(seq_views(out@) =~= start + rv.take(j + 1).filter(p));
            }
            j = j + 1;
        }
        assert(rv.take(reqs@.len() as int) =~= rv);
        i = i + 1;
    }
    assert(fs.take(files@.len() as int) =~= fs);
    out
}

/// Lists friend requests of `username`: `sent` gives the pending requests it sent, found
/// in every user's list; `received` gives its own list; anything else gives every request
/// it sent or received, followed by those of its own list not already listed by id.
/// `files[i]` is the request list of `users[i]`, and `own` that of `username`.
pub fn get_friend_requests(
    files: &Vec<Vec<FriendRequest>>,
    own: &Vec<FriendRequest>,
    username: &str,
    req_type: &str,
) -> (r: Vec<FriendRequest>)
    ensures
        req_type@ == "sent"@ ==> seq_views(r@) == requests_where(request_files(files@), |q: FriendRequestView| q.sender == username@ && q.status == "pending"@),
        req_type@ == "received"@ ==> seq_views(r@) == seq_views(own@),
        req_type@ != "sent"@ && req_type@ != "received"@ ==> seq_views(r@) == append_new_ids(
            requests_where(request_files(files@), |q: FriendRequestView| q.sender == username@ || q.receiver == username@),
            seq_views(own@),
        ),
{
    proof {
        reveal_strlit("sent");
        reveal_strlit("received");
        assert("sent"@.len() != "received"@.len());
    }
    if str_eq(req_type, "sent") {
        return collect_requests(files, username, true);
    }
    if str_eq(req_type, "received") {
        let mut out: Vec<FriendRequest> = Vec::new();
        let mut i: usize = 0;
        while i < own.len()
            invariant
                0 <= i <= own@.len(),
                seq_views(out@) == seq_views(own@).take(i as int),
            decreases own@.len() - i,
        {
            let c = own[i].clone();
            let ghost before = out@;
            out.push(c);
            assert(seq_views(out@) =~= seq_views(before).push(c@));
            assert(seq_views(out@) =~= seq_views(own@).take(i + 1));
            i = i + 1;
        }
        assert(seq_views(own@).take(own@.len() as int) =~= seq_views(own@));
        return out;
    }
    let mut out = collect_requests(files, username, false);
    let ghost base = seq_views(out@);
    let ghost ov = seq_views(own@);
    let mut i: usize = 0;
    assert(ov.take(0) =~= Seq::<FriendRequestView>::empty());
    while i < own.len()
        invariant
            0 <= i <= own@.len(),
            ov == seq_views(own@),
            seq_views(out@) == append_new_ids(base, ov.take(i as int)),
        decreases own@.len() - i,
    {
        proof {
            assert(ov.take(i + 1).drop_last() =~= ov.take(i as int));
            assert(ov.take(i + 1).last() == own@[i as int]@);
        }
        let ghost cur = seq_views(out@);
        let mut k: usize = 0;
        let mut seen = false;
        while k < out.len()
            invariant
                0 <= k <= out@.len(),
                i < own@.len(),
                cur == seq_views(out@),
                seen == exists|m: int| 0 <= m < k && (#[trigger] cur[m]).id == own@[i as int].id,
            decreases out@.len() - k,
        {
            if out[k].id == own[i].id {
                assert(cur[k as int].id == own@[i as int].id);
                seen = true;
            }
            k = k + 1;
        }
        if !seen {
            let c = own[i].clone();
            out.push(c);
            assert(seq_views(out@) =~= cur.push(c@));
        }
        i = i + 1;
    }
    assert(ov.take(own@.len() as int) =~= ov);
    out
}

/// The first list, in user order, holding a request with id `id`, and its position there.
pub open spec fn request_location(files: Seq<Seq<FriendRequestView>>, id: u64) -> Option<(int, int)>
    decreases files.len(),
{
    if files.len() == 0 {
        None
    } else {
        match request_location(files.drop_last(), id) {
            Some(loc) => Some(loc),
            None => match first_index(files.last(), |q: FriendRequestView| q.id == id) {
                Some(k) => Some((files.len() - 1, k)),
                None => None,
            },
        }
    }
}

/// Once a prefix of the lists holds the request, the first list holding it lies in that prefix.
proof fn lemma_request_location_prefix(files: Seq<Seq<FriendRequestView>>, id: u64, j: int)
    requires
        0 <= j <= files.len(),
        request_location(files.take(j), id) is Some,
    ensures
        request_location(files, id) == request_location(files.take(j), id),
    decreases files.len(),
{
    if j < files.len() {
        assert(files.drop_last().take(j) =~= files.take(j));
        lemma_request_location_prefix(files.drop_last(), id, j);
    } else {
        assert(files.take(j) =~= files);
    }
}

/// The account list after `a` and `b` become friends of each other: each is added to
/// the other's friend list where it is missing (at the first account of each name).
pub open spec fn befriend(users: Seq<UserView>, a: Seq<char>, b: Seq<char>) -> Seq<UserView> {
    match (first_index(users, named(a)), first_index(users, named(b))) {
        (Some(ai), Some(bi)) => {
            let u1 = if users[ai].friends.contains(b) {
                users
            } else {
                users.update(ai, UserView { friends: users[ai].friends.push(b), ..users[ai] })
            };
            if u1[bi].friends.contains(a) {
                u1
            } else {
                u1.update(bi, UserView { friends: u1[bi].friends.push(a), ..u1[bi] })
            }
        },
        _ => users,
    }
}

fn add_friend_if_missing(users: &mut Vec<User>, k: usize, friend: &String)
    requires
        k < old(users)@.len(),
    ensures
        user_views(final(users)@) == if user_views(old(users)@)[k as int].friends.contains(friend@) {
            user_views(old(users)@)
        } else {
            user_views(old(users)@).update(
                k as int,
                UserView { friends: user_views(old(users)@)[k as int].friends.push(friend@), ..user_views(old(users)@)[k as int] },
            )
        },
{
    if contains_str(&users[k].friends, friend.as_str()) {
        return;
    }
    let ghost before = users@;
    let mut u = users[k].clone();
    let ghost old_f = u.friends@;
    u.friends.push(friend.clone());
    assert(views(u.friends@) =~= views(old_f).push(friend@));
    let ghost uv = u@;
    users.set(k, u);
    assert(user_views(users@) =~= user_views(before).update(k as int, uv));
}

/// Accepts or rejects the friend request `request_id`: it is taken out of the first
/// request list holding it (`files[i]` is the list of `users[i]`), and on acceptance
/// sender and receiver become friends of each other. Gives the position of the list
/// that changed.
pub fn handle_friend_request(
    users: &mut Vec<User>,
    files: &mut Vec<Vec<FriendRequest>>,
    request_id: u64,
    action: &str,
) -> (r: Result<usize, ApiError>)
    ensures
        ({
            let fs = request_files(old(files)@);
            if request_id == 0 || action@.len() == 0 {
                r matches Err(ApiError::EmptyRequestFields)
            } else if action@ != "accept"@ && action@ != "reject"@ {
                r matches Err(ApiError::InvalidRequestAction)
            } else {
                match request_location(fs, request_id) {
                    None => r matches Err(ApiError::FriendRequestNotFound),
                    Some((f, k)) => {
                        let q = fs[f][k];
                        &&& r == Ok::<usize, ApiError>(f as usize)
                        &&& request_files(final(files)@) == fs.update(f, fs[f].remove(k))
                        &&& user_views(final(users)@) == if action@ == "accept"@ {
                            befriend(user_views(old(users)@), q.sender, q.receiver)
                        } else {
                            user_views(old(users)@)
                        }
                    },
                }
            }
        }),
        r is Err ==> final(users)@ == old(users)@ && final(files)@ == old(files)@,
{
    if request_id == 0 || action.is_empty() {
        return Err(ApiError::EmptyRequestFields);
    }
    if !str_eq(action, "accept") && !str_eq(action, "reject") {
        return Err(ApiError::InvalidRequestAction);
    }
    let ghost fs = request_files(files@);
    let ghost pid = |q: FriendRequestView| q.id == request_id;
    let mut i: usize = 0;
    assert(fs.take(0) =~= Seq::<Seq<FriendRequestView>>::empty());
    while i < files.len()
        invariant
            0 <= i <= files@.len(),
            fs == request_files(files@),
            fs == request_files(old(files)@),
            files@ == old(files)@,
            users@ == old(users)@,
            request_id != 0,
            action@.len() > 0,
            action@ == "accept"@ || action@ == "reject"@,
            pid == (|q: FriendRequestView| q.id == request_id),
            request_location(fs.take(i as int), request_id) is None,
        decreases files@.len() - i,
    {
        let ghost fi = seq_views(files@[i as int]@);
        assert(fs[i as int] == fi);
        assert(fs.take(i + 1).drop_last() =~= fs.take(i as int));
        let mut pos: usize = 0;
        while pos < files[i].len() && files[i][pos].id != request_id
            invariant
                0 <= pos <= files@[i as int]@.len(),
                i < files@.len(),
                fi == seq_views(files@[i as int]@),
                pid == (|q: FriendRequestView| q.id == request_id),
                forall|m: int| 0 <= m < pos ==> !pid(#[trigger] fi[m]),
            decreases files@[i as int]@.len() - pos,
        {
            pos = pos + 1;
        }
        proof {
            lemma_first_index_at(fi, pid, pos as int);
        }
        if pos < files[i].len() {
            let ghost fbefore = files@;
            let mut list = files[i].clone();
            assert(seq_views(list@) == fi);
            let q = list.remove(pos);
            assert(seq_views(list@) =~= fi.remove(pos as int));
            assert(q@ == fi[pos as int]);
            let ghost lv = list@;
            files.set(i, list);
            assert(request_files(files@) =~= fs.update(i as int, fi.remove(pos as int)));
            assert(fs.take(i + 1).last() == fi);
            proof {
                assert(request_location(fs.take(i + 1), request_id) == Some((i as int, pos as int)));
                lemma_request_location_prefix(fs, request_id, i + 1);
            }
            if str_eq(action, "accept") {
                let si = find_user(users, q.sender.as_str());
                let ri = find_user(users, q.receiver.as_str());
                proof {
                    lemma_first_index(user_views(users@), named(q.sender@));
                    lemma_first_index(user_views(users@), named(q.receiver@));
                }
                if let (Some(si), Some(ri)) = (si, ri) {
                    add_friend_if_missing(users, si, &q.receiver);
                    assert(user_views(users@).len() == users@.len());
                    add_friend_if_missing(users, ri, &q.sender);
                }
            }
            return Ok(i);
        }
        i = i + 1;
    }
    assert(fs.take(files@.len() as int) =~= fs);
    Err(ApiError::FriendRequestNotFound)
}

} // verus!
