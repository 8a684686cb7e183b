use vstd::prelude::*;
use crate::clock::{millis_of, now_utc, rfc3339_of};
use crate::directory::{acting_role, acting_role_of, find_user, named, opt_int, role_grants, role_permits};
use crate::ids::{id_chars, random_str};
use crate::models::{
    ApiError, Broadcast, BroadcastView, OrgNode, OrgNodeView, Role, User, lemma_nodes_view_index,
    node_view, nodes_view, role_views, seq_views, user_views,
};
use crate::seqs::{first_index, first_match, lemma_first_index, lemma_first_index_at};
use crate::text::{
    clone_strings, contains_str, decimal, lemma_sorted_card, lemma_sorted_filter, sort_dedup, str_eq,
    strictly_sorted, u64_to_decimal, views,
};

verus! {

broadcast use vstd::string::group_string_axioms;

/// The own members of every node of the tree whose id is one of `ids`.
pub open spec fn targeted_members(n: OrgNodeView, ids: Seq<Seq<char>>) -> Set<Seq<char>>
    decreases n,
{
    (if ids.contains(n.id) { n.members.to_set() } else { Set::empty() }).union(
        targeted_members_in(n.children, ids),
    )
}

/// [`targeted_members`] over the trees of `s`.
pub open spec fn targeted_members_in(s: Seq<OrgNodeView>, ids: Seq<Seq<char>>) -> Set<Seq<char>>
    decreases s,
{
    if s.len() == 0 {
        Set::empty()
    } else {
        targeted_members(s[0], ids).union(targeted_members_in(s.drop_first(), ids))
    }
}

proof fn lemma_targeted_members_in_push(s: Seq<OrgNodeView>, x: OrgNodeView, ids: Seq<Seq<char>>)
    ensures
        targeted_members_in(s.push(x), ids) == targeted_members_in(s, ids).union(targeted_members(x, ids)),
    decreases s.len(),
{
    if s.len() == 0 {
        assert(s.push(x).drop_first() =~= Seq::<OrgNodeView>::empty());
        assert(s.push(x)[0] == x);
        assert(targeted_members_in(s.push(x).drop_first(), ids) == Set::<Seq<char>>::empty());
        assert(targeted_members_in(s, ids) == Set::<Seq<char>>::empty());
        assert(targeted_members_in(s.push(x), ids) =~= targeted_members_in(s, ids).union(targeted_members(x, ids)));
    } else {
        assert(s.push(x).drop_first() =~= s.drop_first().push(x));
        assert(s.push(x)[0] == s[0]);
        lemma_targeted_members_in_push(s.drop_first(), x, ids);
        assert(targeted_members_in(s.push(x), ids) =~= targeted_members_in(s, ids).union(targeted_members(x, ids)));
    }
}

fn collect_members(node: &OrgNode, target_ids: &Vec<String>, result: &mut Vec<String>)
    ensures
        views(final(result)@).to_set() == views(old(result)@).to_set().union(
            targeted_members(node@, views(target_ids@)),
        ),
    decreases node,
{
    let ghost ids = views(target_ids@);
    let ghost start = views(result@).to_set();
    let ghost own = if ids.contains(node@.id) { node@.members.to_set() } else { Set::<Seq<char>>::empty() };
    if contains_str(target_ids, node.id.as_str()) {
        let mut k: usize = 0;
        while k < node.members.len()
            invariant
                0 <= k <= node.members@.len(),
                views(result@).to_set() == start.union(views(node.members@).take(k as int).to_set()),
            decreases node.members@.len() - k,
        {
            let ghost before = views(result@);
            let m = node.members[k].clone();
            result.push(m);
            proof {
                assert(views(result@) =~= before.push(m@));
                before.lemma_push_to_set_commute(m@);
                assert(views(node.members@).take(k + 1) =~= views(node.members@).take(k as int).push(m@));
                views(node.members@).take(k as int).lemma_push_to_set_commute(m@);
                assert(views(result@).to_set() =~= start.union(views(node.members@).take(k + 1).to_set()));
            }
            k = k + 1;
        }
        assert(views(node.members@).take(node.members@.len() as int) =~= views(node.members@));
    } else {
        assert(start =~= start.union(own));
    }
    let ghost v = nodes_view(node.children@);
    proof {
        lemma_nodes_view_index(node.children@);
        assert(v.take(0) =~= Seq::<OrgNodeView>::empty());
        assert(views(result@).to_set() =~= start.union(own).union(targeted_members_in(v.take(0), ids)));
    }
    let mut i: usize = 0;
    while i < node.children.len()
        invariant
            0 <= i <= node.children@.len(),
            v == nodes_view(node.children@),
            v == node@.children,
            v.len() == node.children@.len(),
            ids == views(target_ids@),
            forall|j: int| 0 <= j < node.children@.len() ==> #[trigger] v[j] == node_view(node.children@[j]),
            views(result@).to_set() == start.union(own).union(targeted_members_in(v.take(i as int), ids)),
        decreases node.children@.len() - i,
    {
        collect_members(&node.children[i], target_ids, result);
        proof {
            assert(v.take(i + 1) =~= v.take(i as int).push(v[i as int]));
            lemma_targeted_members_in_push(v.take(i as int), v[i as int], ids);
            assert(views(result@).to_set() =~= start.union(own).union(targeted_members_in(v.take(i + 1), ids)));
        }
        i = i + 1;
    }
    assert(v.take(i as int) =~= v);
    assert(views(result@).to_set() =~= start.union(targeted_members(node@, ids)));
}

/// The members of the nodes `target_node_ids`, sorted, each once.
pub fn resolve_target_users(tree: &OrgNode, target_node_ids: &Vec<String>) -> (r: Vec<String>)
    ensures
        strictly_sorted(views(r@)),
        views(r@).to_set() == targeted_members(tree@, views(target_node_ids@)),
{
    let mut all: Vec<String> = Vec::new();
    assert(views(all@).to_set() =~= Set::<Seq<char>>::empty());
    collect_members(tree, target_node_ids, &mut all);
    assert(views(all@).to_set() =~= targeted_members(tree@, views(target_node_ids@)));
    sort_dedup(all)
}

/// Whether every element of `items` is in `allowed`.
fn all_within(items: &Vec<String>, allowed: &Vec<String>) -> (r: bool)
    ensures
        r == forall|i: int| 0 <= i < items@.len() ==> views(allowed@).contains(#[trigger] items@[i]@),
{
    let mut i: usize = 0;
    while i < items.len()
        invariant
            0 <= i <= items@.len(),
            forall|j: int| 0 <= j < i ==> views(allowed@).contains(#[trigger] items@[j]@),
        decreases items@.len() - i,
    {
        if !contains_str(allowed, items[i].as_str()) {
            return false;
        }
        i = i + 1;
    }
    true
}

/// Whether the broadcast permissions let `sender` send to `targets`, and the refusal otherwise.
pub open spec fn broadcast_refusal(
    users: Seq<crate::models::UserView>,
    roles: Seq<crate::models::RoleView>,
    sender: Seq<char>,
    targets: Seq<Seq<char>>,
) -> Option<ApiError> {
    let role = acting_role(users, sender);
    if role_grants(roles, role, "broadcast_all"@) {
        None
    } else if !role_grants(roles, role, "broadcast_class"@) {
        Some(ApiError::NoBroadcastPermission)
    } else {
        match first_match(users, named(sender)) {
            Some(u) => if forall|i: int| 0 <= i < targets.len() ==> u.managed_nodes.contains(#[trigger] targets[i]) {
                None
            } else {
                Some(ApiError::BroadcastScopeDenied)
            },
            None => None,
        }
    }
}

/// Sends a broadcast with the given id and time stamp to the members of
/// `target_node_ids`, after the permission checks; the broadcast is appended to `broadcasts`.
pub fn send_broadcast_at(
    users: &Vec<User>,
    roles: &Vec<Role>,
    tree: &OrgNode,
    broadcasts: &mut Vec<Broadcast>,
    sender_id: &str,
    title: &str,
    content: &str,
    target_node_ids: Vec<String>,
    attachments: Vec<String>,
    id: String,
    timestamp: String,
) -> (r: Result<Broadcast, ApiError>)
    ensures
        ({
            let targets = targeted_members(tree@, views(target_node_ids@));
            if sender_id@.len() == 0 || title@.len() == 0 || content@.len() == 0 {
                r matches Err(ApiError::EmptyBroadcastFields)
            } else if let Some(e) = broadcast_refusal(user_views(users@), role_views(roles@), sender_id@, views(target_node_ids@)) {
                r == Err::<Broadcast, ApiError>(e)
            } else if targets.len() == 0 {
                r matches Err(ApiError::NoTargetUsers)
            } else {
                r matches Ok(b) && b@ == (BroadcastView {
                    id: id@,
                    sender_name: sender_id@,
                    target_node_ids: views(target_node_ids@),
                    target_count: targets.len() as usize,
                    title: title@,
                    content: content@,
                    attachments: views(attachments@),
                    timestamp: timestamp@,
                    read_by: Seq::empty(),
                })
            }
        }),
        r matches Ok(b) ==> seq_views(final(broadcasts)@) == seq_views(old(broadcasts)@).push(b@),
        r is Err ==> final(broadcasts)@ == old(broadcasts)@,
{
    if sender_id.is_empty() || title.is_empty() || content.is_empty() {
        return Err(ApiError::EmptyBroadcastFields);
    }
    let role = acting_role_of(users, sender_id);
    let has_all = role_permits(roles, role.as_str(), "broadcast_all");
    let has_class = role_permits(roles, role.as_str(), "broadcast_class");
    if !has_all {
        if !has_class {
            return Err(ApiError::NoBroadcastPermission);
        }
        let found = find_user(users, sender_id);
        proof {
            lemma_first_index(user_views(users@), named(sender_id@));
        }
        if let Some(ui) = found {
            let ok = all_within(&target_node_ids, &users[ui].managed_nodes);
            proof {
                let u = users@[ui as int]@;
                assert(user_views(users@)[ui as int] == u);
                assert forall|i: int| 0 <= i < views(target_node_ids@).len() implies
                    (u.managed_nodes.contains(#[trigger] views(target_node_ids@)[i]) <==> views(users@[ui as int].managed_nodes@).contains(target_node_ids@[i]@)) by {}
                if !ok {
                    let i = choose|i: int| 0 <= i < target_node_ids@.len() && !views(users@[ui as int].managed_nodes@).contains(#[trigger] target_node_ids@[i]@);
                    assert(!u.managed_nodes.contains(views(target_node_ids@)[i]));
                }
            }
            if !ok {
                return Err(ApiError::BroadcastScopeDenied);
            }
        }
    }
    let target_users = resolve_target_users(tree, &target_node_ids);
    proof {
        lemma_sorted_card(views(target_users@));
    }
    if target_users.len() == 0 {
        return Err(ApiError::NoTargetUsers);
    }
    let b = Broadcast {
        id,
        sender_name: sender_id.to_string(),
        target_node_ids,
        target_count: target_users.len(),
        title: title.to_string(),
        content: content.to_string(),
        attachments,
        timestamp,
        read_by: Vec::new(),
    };
    assert(views(b.read_by@) =~= Seq::<Seq<char>>::empty());
    let ghost before = broadcasts@;
    broadcasts.push(b.clone());
    assert(seq_views(broadcasts@) =~= seq_views(before).push(b@));
    Ok(b)
}

/// What [`send_broadcast`] gives a broadcast from one reading of the clock: an id made of
/// `bc_`, the milliseconds, `_` and eight id characters, and the RFC 3339 time stamp.
pub open spec fn fresh_broadcast_stamp(id: Seq<char>, timestamp: Seq<char>) -> bool {
    exists|secs: i64, nanos: u32, seed: u64|
        #![trigger rfc3339_of(secs, nanos), id_chars(seed, 8)]
        id == "bc_"@ + decimal(millis_of(secs, nanos) as nat) + "_"@ + id_chars(seed, 8)
            && rfc3339_of(secs, nanos) == timestamp
}

/// Sends a broadcast with a fresh id, stamped with the current time.
pub fn send_broadcast(
    users: &Vec<User>,
    roles: &Vec<Role>,
    tree: &OrgNode,
    broadcasts: &mut Vec<Broadcast>,
    sender_id: &str,
    title: &str,
    content: &str,
    target_node_ids: Vec<String>,
    attachments: Vec<String>,
) -> (r: Result<Broadcast, ApiError>)
    ensures
        ({
            let targets = targeted_members(tree@, views(target_node_ids@));
            if sender_id@.len() == 0 || title@.len() == 0 || content@.len() == 0 {
                r matches Err(ApiError::EmptyBroadcastFields)
            } else if let Some(e) = broadcast_refusal(user_views(users@), role_views(roles@), sender_id@, views(target_node_ids@)) {
                r == Err::<Broadcast, ApiError>(e)
            } else if targets.len() == 0 {
                r matches Err(ApiError::NoTargetUsers)
            } else {
                r matches Ok(b) && fresh_broadcast_stamp(b@.id, b@.timestamp) && b@ == (BroadcastView {
                    id: b@.id,
                    sender_name: sender_id@,
                    target_node_ids: views(target_node_ids@),
                    target_count: targets.len() as usize,
                    title: title@,
                    content: content@,
                    attachments: views(attachments@),
                    timestamp: b@.timestamp,
                    read_by: Seq::empty(),
                })
            }
        }),
        r matches Ok(b) ==> seq_views(final(broadcasts)@) == seq_views(old(broadcasts)@).push(b@),
        r is Err ==> final(broadcasts)@ == old(broadcasts)@,
{
    let now = now_utc();
    let millis = u64_to_decimal(now.millis);
    let suffix = random_str(8);
    let id = "bc_".to_string().concat(millis.as_str()).concat("_").concat(suffix.as_str());
    let ghost seed = choose|seed: u64| suffix@ == id_chars(seed, 8);
    let ghost (secs, nanos) = (now.secs, now.nanos);
    assert(id@ == "bc_"@ + decimal(millis_of(secs, nanos) as nat) + "_"@ + id_chars(seed, 8));
    let r = send_broadcast_at(users, roles, tree, broadcasts, sender_id, title, content, target_node_ids, attachments, id, now.rfc3339);
    proof {
        if r is Ok {
            assert(rfc3339_of(secs, nanos) == r->Ok_0@.timestamp);
        }
    }
    r
}

/// What a user sees of a broadcast in the broadcast list.
#[derive(Debug)]
pub struct BroadcastSummary {
    pub id: String,
    pub sender_name: String,
    pub title: String,
    pub content: String,
    pub attachments: Vec<String>,
    pub timestamp: String,
    pub read: bool,
    pub read_count: usize,
    pub total_count: usize,
}

/// The value of a [`BroadcastSummary`] with its strings taken as character sequences.
pub struct BroadcastSummaryView {
    pub id: Seq<char>,
    pub sender_name: Seq<char>,
    pub title: Seq<char>,
    pub content: Seq<char>,
    pub attachments: Seq<Seq<char>>,
    pub timestamp: Seq<char>,
    pub read: bool,
    pub read_count: usize,
    pub total_count: usize,
}

impl View for BroadcastSummary {
    type V = BroadcastSummaryView;

    open spec fn view(&self) -> BroadcastSummaryView {
        BroadcastSummaryView {
            id: self.id@,
            sender_name: self.sender_name@,
            title: self.title@,
            content: self.content@,
            attachments: views(self.attachments@),
            timestamp: self.timestamp@,
            read: self.read,
            read_count: self.read_count,
            total_count: self.total_count,
        }
    }
}

/// The summary of `b` for `username`.
pub open spec fn summary_of(b: BroadcastView, username: Seq<char>) -> BroadcastSummaryView {
    BroadcastSummaryView {
        id: b.id,
        sender_name: b.sender_name,
        title: b.title,
        content: b.content,
        attachments: b.attachments,
        timestamp: b.timestamp,
        read: b.read_by.contains(username),
        read_count: b.read_by.len() as usize,
        total_count: b.target_count,
    }
}

/// The broadcasts whose targets, resolved in `tree`, include `username`.
pub open spec fn addressed_to(tree: OrgNodeView, username: Seq<char>) -> spec_fn(BroadcastView) -> bool {
    |b: BroadcastView| targeted_members(tree, b.target_node_ids).contains(username)
}

/// The broadcasts addressed to `username`, in order, as that user sees them.
pub fn list_broadcasts(tree: &OrgNode, broadcasts: &Vec<Broadcast>, username: &str) -> (r: Result<
    Vec<BroadcastSummary>,
    ApiError,
>)
    ensures
        username@.len() == 0 ==> r matches Err(ApiError::EmptyUsername),
        username@.len() > 0 ==> (r matches Ok(v) && seq_views(v@) == seq_views(broadcasts@).filter(
            addressed_to(tree@, username@),
        ).map_values(|b: BroadcastView| summary_of(b, username@))),
{
    if username.is_empty() {
        return Err(ApiError::EmptyUsername);
    }
    let ghost bs = seq_views(broadcasts@);
    let ghost p = addressed_to(tree@, username@);
    let ghost sf = |b: BroadcastView| summary_of(b, username@);
    let mut out: Vec<BroadcastSummary> = Vec::new();
    proof {
        reveal(Seq::filter);
        assert(bs.take(0).filter(p) =~= Seq::<BroadcastView>::empty());
        assert(seq_views(out@) =~= bs.take(0).filter(p).map_values(sf));
    }
    let mut i: usize = 0;
    while i < broadcasts.len()
        invariant
            0 <= i <= broadcasts@.len(),
            bs == seq_views(broadcasts@),
            p == addressed_to(tree@, username@),
            sf == (|b: BroadcastView| summary_of(b, username@)),
            seq_views(out@) == bs.take(i as int).filter(p).map_values(sf),
        decreases broadcasts@.len() - i,
    {
        let bc = &broadcasts[i];
        let targets = resolve_target_users(tree, &bc.target_node_ids);
        let addressed = contains_str(&targets, username);
        proof {
            reveal(Seq::filter);
            assert(bs[i as int] == bc@);
            assert(bs.take(i + 1).drop_last() =~= bs.take(i as int));
            assert(bs.take(i + 1).last() == bc@);
            assert(addressed == p(bc@));
        }
        if addressed {
            let s = BroadcastSummary {
                id: bc.id.clone(),
                sender_name: bc.sender_name.clone(),
                title: bc.title.clone(),
                content: bc.content.clone(),
                attachments: clone_strings(&bc.attachments),
                timestamp: bc.timestamp.clone(),
                read: contains_str(&bc.read_by, username),
                read_count: bc.read_by.len(),
                total_count: bc.target_count,
            };
            let ghost before = out@;
            out.push(s);
            proof {
                assert(s@ == sf(bc@));
                assert(seq_views(out@) =~= seq_views(before).push(s@));
                assert(bs.take(i + 1).filter(p) == bs.take(i as int).filter(p).push(bc@));
                assert(bs.take(i + 1).filter(p).map_values(sf) =~= bs.take(i as int).filter(p).map_values(sf).push(sf(bc@)));
            }
        }
        i = i + 1;
    }
    assert(bs.take(broadcasts@.len() as int) =~= bs);
    Ok(out)
}

/// Who of a broadcast's targets has read it and who has not.
#[derive(Debug)]
pub struct Receipts {
    pub total: usize,
    pub read: usize,
    pub unread: usize,
    pub read_by: Vec<String>,
    pub unread_by: Vec<String>,
}

/// Broadcasts whose id is `id`.
pub open spec fn broadcast_with_id(id: Seq<char>) -> spec_fn(BroadcastView) -> bool {
    |b: BroadcastView| b.id == id
}

/// The position of the first broadcast whose id is `id`.
pub fn find_broadcast(broadcasts: &Vec<Broadcast>, id: &str) -> (r: Option<usize>)
    ensures
        opt_int(r) == first_index(seq_views(broadcasts@), broadcast_with_id(id@)),
{
    let ghost s = seq_views(broadcasts@);
    let mut i: usize = 0;
    while i < broadcasts.len()
        invariant
            0 <= i <= broadcasts@.len(),
            s == seq_views(broadcasts@),
            forall|k: int| 0 <= k < i ==> !broadcast_with_id(id@)(#[trigger] s[k]),
        decreases broadcasts@.len() - i,
    {
        if str_eq(broadcasts[i].id.as_str(), id) {
            proof {
                lemma_first_index_at(s, broadcast_with_id(id@), i as int);
            }
            return Some(i);
        }
        i = i + 1;
    }
    proof {
        lemma_first_index_at(s, broadcast_with_id(id@), i as int);
    }
    None
}

/// The read receipts of the first broadcast whose id is `id`: its recorded target
/// count and read count, and its current targets split, each part sorted, into those
/// who read it and those who did not.
pub fn get_broadcast_receipts(tree: &OrgNode, broadcasts: &Vec<Broadcast>, id: &str) -> (r: Result<
    Receipts,
    ApiError,
>)
    ensures
        match first_match(seq_views(broadcasts@), broadcast_with_id(id@)) {
            None => r matches Err(ApiError::BroadcastNotFound),
            Some(b) => r matches Ok(rc) && {
                let targets = targeted_members(tree@, b.target_node_ids);
                &&& rc.total == b.target_count
                &&& rc.read == b.read_by.len()
                &&& rc.unread == rc.unread_by@.len()
                &&& strictly_sorted(views(rc.read_by@))
                &&& views(rc.read_by@).to_set() == targets.filter(|u: Seq<char>| b.read_by.contains(u))
                &&& strictly_sorted(views(rc.unread_by@))
                &&& views(rc.unread_by@).to_set() == targets.filter(|u: Seq<char>| !b.read_by.contains(u))
            },
        },
{
    let found = find_broadcast(broadcasts, id);
    proof {
        lemma_first_index(seq_views(broadcasts@), broadcast_with_id(id@));
    }
    match found {
        None => Err(ApiError::BroadcastNotFound),
        Some(k) => {
            let bc = &broadcasts[k];
            assert(seq_views(broadcasts@)[k as int] == bc@);
            let targets = resolve_target_users(tree, &bc.target_node_ids);
            let ghost tv = views(targets@);
            let ghost pr = |u: Seq<char>| views(bc.read_by@).contains(u);
            let ghost pu = |u: Seq<char>| !views(bc.read_by@).contains(u);
            let mut read_by: Vec<String> = Vec::new();
            let mut unread_by: Vec<String> = Vec::new();
            proof {
                reveal(Seq::filter);
                assert(tv.take(0).filter(pr) =~= Seq::<Seq<char>>::empty());
                assert(tv.take(0).filter(pu) =~= Seq::<Seq<char>>::empty());
            }
            let mut i: usize = 0;
            while i < targets.len()
                invariant
                    0 <= i <= targets@.len(),
                    tv == views(targets@),
                    pr == (|u: Seq<char>| views(bc.read_by@).contains(u)),
                    pu == (|u: Seq<char>| !views(bc.read_by@).contains(u)),
                    views(read_by@) == tv.take(i as int).filter(pr),
                    views(unread_by@) == tv.take(i as int).filter(pu),
                decreases targets@.len() - i,
            {
                proof {
                    reveal(Seq::filter);
                    assert(tv.take(i + 1).drop_last() =~= tv.take(i as int));
                    assert(tv.take(i + 1).last() == targets@[i as int]@);
                }
                let u = targets[i].clone();
                if contains_str(&bc.read_by, u.as_str()) {
                    read_by.push(u);
                    assert(views(read_by@) =~= tv.take(i as int).filter(pr).push(u@));
                } else {
                    unread_by.push(u);
                    assert(views(unread_by@) =~= tv.take(i as int).filter(pu).push(u@));
                }
                i = i + 1;
            }
            proof {
                assert(tv.take(targets@.len() as int) =~= tv);
                lemma_sorted_filter(tv, pr);
                lemma_sorted_filter(tv, pu);
                assert(views(read_by@).to_set() =~= targeted_members(tree@, bc@.target_node_ids).filter(|u: Seq<char>| bc@.read_by.contains(u)));
                assert(views(unread_by@).to_set() =~= targeted_members(tree@, bc@.target_node_ids).filter(|u: Seq<char>| !bc@.read_by.contains(u)));
            }
            let unread = unread_by.len();
            Ok(Receipts { total: bc.target_count, read: bc.read_by.len(), unread, read_by, unread_by })
        },
    }
}

/// Records that `username` has read the first broadcast whose id is `id`; gives whether
/// the record changed (it does not when the user is already listed).
pub fn mark_broadcast_read(broadcasts: &mut Vec<Broadcast>, id: &str, username: &str) -> (r: Result<
    bool,
    ApiError,
>)
    ensures
        username@.len() == 0 ==> (r matches Err(ApiError::EmptyUsername) && final(broadcasts)@ == old(broadcasts)@),
        username@.len() > 0 ==> match first_index(seq_views(old(broadcasts)@), broadcast_with_id(id@)) {
            None => r matches Err(ApiError::BroadcastNotFound) && final(broadcasts)@ == old(broadcasts)@,
            Some(k) => {
                let b = seq_views(old(broadcasts)@)[k];
                if b.read_by.contains(username@) {
                    r == Ok::<bool, ApiError>(false) && seq_views(final(broadcasts)@) == seq_views(old(broadcasts)@)
                } else {
                    r == Ok::<bool, ApiError>(true) && seq_views(final(broadcasts)@) == seq_views(old(broadcasts)@).update(
                        k,
                        BroadcastView { read_by: b.read_by.push(username@), ..b },
                    )
                }
            },
        },
{
    if username.is_empty() {
        return Err(ApiError::EmptyUsername);
    }
    let found = find_broadcast(broadcasts, id);
    proof {
        lemma_first_index(seq_views(broadcasts@), broadcast_with_id(id@));
    }
    match found {
        None => Err(ApiError::BroadcastNotFound),
        Some(k) => {
            if contains_str(&broadcasts[k].read_by, username) {
                return Ok(false);
            }
            let ghost before = broadcasts@;
            let mut bc = broadcasts[k].clone();
            let ghost old_reads = bc.read_by@;
            bc.read_by.push(username.to_string());
            assert(views(bc.read_by@) =~= views(old_reads).push(username@));
            assert(bc@ == BroadcastView { read_by: seq_views(before)[k as int].read_by.push(username@), ..seq_views(before)[k as int] });
            broadcasts.set(k, bc);
            assert(seq_views(broadcasts@) =~= seq_views(before).update(
                k as int,
                BroadcastView { read_by: seq_views(before)[k as int].read_by.push(username@), ..seq_views(before)[k as int] },
            ));
            Ok(true)
        },
    }
}

} // verus!
