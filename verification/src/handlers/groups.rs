use vstd::prelude::*;
use crate::clock::{millis_of, now_utc, one_reading, rfc3339_of};
use crate::directory::opt_int;
use crate::ids::{id_chars, random_str};
use crate::models::{ApiError, ChatMessage, ChatMessageView, Group, GroupView, seq_views};
use crate::seqs::{first_index, first_match, lemma_first_index, lemma_first_index_at};
use crate::storage::{join_path, path_join};
use crate::text::{contains_str, decimal, str_eq, u64_to_decimal, views};
use crate::handlers::users::{other_than, without};

verus! {

broadcast use vstd::string::group_string_axioms;

/// The file holding the LAN groups.
pub fn groups_file_path(base: &str) -> (r: String)
    ensures
        r@ == path_join(path_join(base@, "lan_groups"@), "groups.json"@),
{
    let dir = join_path(base, "lan_groups");
    join_path(dir.as_str(), "groups.json")
}

/// The file holding the messages of group `group_id`.
pub fn group_messages_path(base: &str, group_id: &str) -> (r: String)
    ensures
        r@ == path_join(path_join(base@, "lan_group_messages"@), group_id@ + ".json"@),
{
    let dir = join_path(base, "lan_group_messages");
    let name = group_id.to_string().concat(".json");
    join_path(dir.as_str(), name.as_str())
}

/// The member list of a new group: the creator, then each named member that is not
/// empty and not already listed, in order.
pub open spec fn initial_members(creator: Seq<char>, members: Seq<Seq<char>>) -> Seq<Seq<char>>
    decreases members.len(),
{
    if members.len() == 0 {
        seq![creator]
    } else {
        let prev = initial_members(creator, members.drop_last());
        let m = members.last();
        if m.len() > 0 && !prev.contains(m) { prev.push(m) } else { prev }
    }
}

/// Groups whose id is `id`.
pub open spec fn group_with_id(id: Seq<char>) -> spec_fn(GroupView) -> bool {
    |g: GroupView| g.id == id
}

/// The position of the first group whose id is `id`.
pub fn find_group(groups: &Vec<Group>, id: &str) -> (r: Option<usize>)
    ensures
        opt_int(r) == first_index(seq_views(groups@), group_with_id(id@)),
{
    let ghost s = seq_views(groups@);
    let mut i: usize = 0;
    while i < groups.len()
        invariant
            0 <= i <= groups@.len(),
            s == seq_views(groups@),
            forall|k: int| 0 <= k < i ==> !group_with_id(id@)(#[trigger] s[k]),
        decreases groups@.len() - i,
    {
        if str_eq(groups[i].id.as_str(), id) {
            proof {
                lemma_first_index_at(s, group_with_id(id@), i as int);
            }
            return Some(i);
        }
        i = i + 1;
    }
    proof {
        lemma_first_index_at(s, group_with_id(id@), i as int);
    }
    None
}

/// Creates a group with the given id and creation time and appends it to `groups`.
/// Without a network type the group is a `lan` group.
pub fn create_group_at(
    groups: &mut Vec<Group>,
    name: &str,
    creator: &str,
    members: Option<Vec<String>>,
    network_type: Option<&str>,
    id: String,
    created_at: String,
) -> (r: Result<Group, ApiError>)
    ensures
        name@.len() == 0 || creator@.len() == 0 ==> (r matches Err(ApiError::EmptyGroupNameOrCreator)
            && final(groups)@ == old(groups)@),
        name@.len() > 0 && creator@.len() > 0 ==> {
            let g = GroupView {
                id: id@,
                name: name@,
                creator: creator@,
                members: initial_members(creator@, match members {
                    Some(m) => views(m@),
                    None => Seq::empty(),
                }),
                network_type: match network_type {
                    Some(t) => t@,
                    None => "lan"@,
                },
                created_at: created_at@,
            };
            &&& r matches Ok(gr) && gr@ == g
            &&& seq_views(final(groups)@) == seq_views(old(groups)@).push(g)
        },
{
    if name.is_empty() || creator.is_empty() {
        return Err(ApiError::EmptyGroupNameOrCreator);
    }
    let ghost ms = match &members { Some(m) => views(m@), None => Seq::<Seq<char>>::empty() };
    let mut member_set: Vec<String> = Vec::new();
    member_set.push(creator.to_string());
    assert(views(member_set@) =~= initial_members(creator@, ms.take(0)));
    if let Some(m) = members {
        let mut i: usize = 0;
        while i < m.len()
            invariant
                0 <= i <= m@.len(),
                ms == views(m@),
                views(member_set@) == initial_members(creator@, ms.take(i as int)),
            decreases m@.len() - i,
        {
            assert(ms.take(i + 1).drop_last() =~= ms.take(i as int));
            assert(ms.take(i + 1).last() == m@[i as int]@);
            let s = &m[i];
            if !s.as_str().is_empty() && !contains_str(&member_set, s.as_str()) {
                let ghost before = views(member_set@);
                member_set.push(s.clone());
                assert(views(member_set@) =~= before.push(s@));
            }
            i = i + 1;
        }
        assert(ms.take(m@.len() as int) =~= ms);
    } else {
        assert(ms.take(0) =~= ms);
    }
    let nt = match network_type {
        Some(t) => t.to_string(),
        None => "lan".to_string(),
    };
    let g = Group { id, name: name.to_string(), creator: creator.to_string(), members: member_set, network_type: nt, created_at };
    let ghost before = groups@;
    groups.push(g.clone());
    assert(seq_views(groups@) =~= seq_views(before).push(g@));
    Ok(g)
}

/// Creates a group with a fresh id, stamped with the current time.
pub fn create_group(
    groups: &mut Vec<Group>,
    name: &str,
    creator: &str,
    members: Option<Vec<String>>,
    network_type: Option<&str>,
) -> (r: Result<Group, ApiError>)
    ensures
        name@.len() == 0 || creator@.len() == 0 ==> (r matches Err(ApiError::EmptyGroupNameOrCreator)
            && final(groups)@ == old(groups)@),
        name@.len() > 0 && creator@.len() > 0 ==> (r matches Ok(gr) && {
            let g = GroupView {
                id: gr@.id,
                name: name@,
                creator: creator@,
                members: initial_members(creator@, match members {
                    Some(m) => views(m@),
                    None => Seq::empty(),
                }),
                network_type: match network_type {
                    Some(t) => t@,
                    None => "lan"@,
                },
                created_at: gr@.created_at,
            };
            &&& gr@ == g
            &&& exists|secs: i64, nanos: u32, seed: u64|
                #![trigger rfc3339_of(secs, nanos), id_chars(seed, 9)]
            {
                &&& gr@.id == "group_"@ + decimal(millis_of(secs, nanos) as nat) + "_"@ + id_chars(seed, 9)
                &&& rfc3339_of(secs, nanos) == gr@.created_at
            }
            &&& seq_views(final(groups)@) == seq_views(old(groups)@).push(g)
        }),
{
    let now = now_utc();
    let millis = u64_to_decimal(now.millis);
    let suffix = random_str(9);
    let id = "group_".to_string().concat(millis.as_str()).concat("_").concat(suffix.as_str());
    let ghost seed = choose|seed: u64| suffix@ == id_chars(seed, 9);
    let ghost (secs, nanos) = (now.secs, now.nanos);
    assert(id@ == "group_"@ + decimal(millis_of(secs, nanos) as nat) + "_"@ + id_chars(seed, 9));
    let r = create_group_at(groups, name, creator, members, network_type, id, now.rfc3339);
    proof {
        if r is Ok {
            assert(rfc3339_of(secs, nanos) == r->Ok_0@.created_at);
        }
    }
    r
}

/// The groups `username` belongs to, in order.
pub fn get_user_groups(groups: &Vec<Group>, username: &str) -> (r: Result<Vec<Group>, ApiError>)
    ensures
        username@.len() == 0 ==> r matches Err(ApiError::EmptyUsername),
        username@.len() > 0 ==> (r matches Ok(v) && seq_views(v@) == seq_views(groups@).filter(
            |g: GroupView| g.members.contains(username@),
        )),
{
    if username.is_empty() {
        return Err(ApiError::EmptyUsername);
    }
    let ghost gs = seq_views(groups@);
    let ghost p = |g: GroupView| g.members.contains(username@);
    let mut out: Vec<Group> = Vec::new();
    let mut i: usize = 0;
    proof {
        reveal(Seq::filter);
        assert(gs.take(0).filter(p) =~= Seq::<GroupView>::empty());
    }
    while i < groups.len()
        invariant
            0 <= i <= groups@.len(),
            gs == seq_views(groups@),
            p == (|g: GroupView| g.members.contains(username@)),
            seq_views(out@) == gs.take(i as int).filter(p),
        decreases groups@.len() - i,
    {
        proof {
            reveal(Seq::filter);
            assert(gs.take(i + 1).drop_last() =~= gs.take(i as int));
            assert(gs.take(i + 1).last() == groups@[i as int]@);
        }
        if contains_str(&groups[i].members, username) {
            let g = groups[i].clone();
            let ghost before = out@;
            out.push(g);
            assert(seq_views(out@) =~= seq_views(before).push(g@));
        }
        i = i + 1;
    }
    assert(gs.take(groups@.len() as int) =~= gs);
    Ok(out)
}

/// A group's messages, once the group is named.
pub fn get_group_messages(group_id: &str, messages: Vec<ChatMessage>) -> (r: Result<Vec<ChatMessage>, ApiError>)
    ensures
        group_id@.len() == 0 ==> r matches Err(ApiError::EmptyGroupId),
        group_id@.len() > 0 ==> (r matches Ok(v) && v@ == messages@),
{
    if group_id.is_empty() {
        return Err(ApiError::EmptyGroupId);
    }
    Ok(messages)
}

/// A group message as it is stored.
pub open spec fn group_message(id: u64, from: Seq<char>, message: Seq<char>, msg_type: Seq<char>, timestamp: Seq<char>) -> ChatMessageView {
    ChatMessageView {
        id,
        sender: Seq::empty(),
        receiver: Seq::empty(),
        message,
        timestamp,
        read_by: seq![from],
        from,
        to: Seq::empty(),
        msg_type,
        sender_avatar: Seq::empty(),
    }
}

/// Sends a message to a group with the given id and time stamp; only members may send.
/// Without a type the message is `text`.
pub fn send_group_message_at(
    groups: &Vec<Group>,
    messages: &mut Vec<ChatMessage>,
    group_id: &str,
    from: &str,
    message: &str,
    msg_type: Option<&str>,
    id: u64,
    timestamp: String,
) -> (r: Result<ChatMessage, ApiError>)
    ensures
        ({
            if group_id@.len() == 0 || from@.len() == 0 || message@.len() == 0 {
                r matches Err(ApiError::EmptyGroupMessageFields)
            } else {
                match first_match(seq_views(groups@), group_with_id(group_id@)) {
                    None => r matches Err(ApiError::GroupNotFound),
                    Some(g) => if !g.members.contains(from@) {
                        r matches Err(ApiError::NotGroupMember)
                    } else {
                        let m = group_message(id, from@, message@, match msg_type {
                            Some(t) => t@,
                            None => "text"@,
                        }, timestamp@);
                        &&& r matches Ok(resp) && resp@ == m
                        &&& seq_views(final(messages)@) == seq_views(old(messages)@).push(m)
                    },
                }
            }
        }),
        r is Err ==> final(messages)@ == old(messages)@,
{
    if group_id.is_empty() || from.is_empty() || message.is_empty() {
        return Err(ApiError::EmptyGroupMessageFields);
    }
    let found = find_group(groups, group_id);
    proof {
        lemma_first_index(seq_views(groups@), group_with_id(group_id@));
    }
    match found {
        None => Err(ApiError::GroupNotFound),
        Some(k) => {
            if !contains_str(&groups[k].members, from) {
                return Err(ApiError::NotGroupMember);
            }
            let mut read_by: Vec<String> = Vec::new();
            read_by.push(from.to_string());
            let t = match msg_type {
                Some(t) => t.to_string(),
                None => "text".to_string(),
            };
            let msg = ChatMessage {
                id,
                sender: String::new(),
                receiver: String::new(),
                message: message.to_string(),
                timestamp,
                read_by,
                from: from.to_string(),
                to: String::new(),
                msg_type: t,
                sender_avatar: String::new(),
            };
            assert(views(msg.read_by@) =~= seq![from@]);
            let ghost before = messages@;
            messages.push(msg.clone());
            assert(seq_views(messages@) =~= seq_views(before).push(msg@));
            Ok(msg)
        },
    }
}

/// Sends a group message stamped with the current time, its id being the time in milliseconds.
pub fn send_group_message(
    groups: &Vec<Group>,
    messages: &mut Vec<ChatMessage>,
    group_id: &str,
    from: &str,
    message: &str,
    msg_type: Option<&str>,
) -> (r: Result<ChatMessage, ApiError>)
    ensures
        ({
            if group_id@.len() == 0 || from@.len() == 0 || message@.len() == 0 {
                r matches Err(ApiError::EmptyGroupMessageFields)
            } else {
                match first_match(seq_views(groups@), group_with_id(group_id@)) {
                    None => r matches Err(ApiError::GroupNotFound),
                    Some(g) => if !g.members.contains(from@) {
                        r matches Err(ApiError::NotGroupMember)
                    } else {
                        r matches Ok(resp) && {
                            let m = group_message(resp.id, from@, message@, match msg_type {
                                Some(t) => t@,
                                None => "text"@,
                            }, resp.timestamp@);
                            &&& resp@ == m
                            &&& one_reading(resp.id, resp.timestamp@)
                            &&& seq_views(final(messages)@) == seq_views(old(messages)@).push(m)
                        }
                    },
                }
            }
        }),
        r is Err ==> final(messages)@ == old(messages)@,
{
    let now = now_utc();
    let ghost (secs, nanos) = (now.secs, now.nanos);
    let r = send_group_message_at(groups, messages, group_id, from, message, msg_type, now.millis, now.rfc3339);
    proof {
        if r is Ok {
            assert(r->Ok_0.id == millis_of(secs, nanos) && rfc3339_of(secs, nanos) == r->Ok_0.timestamp@);
        }
    }
    r
}

/// Adds `username` to the first group whose id is `group_id`; gives the group afterwards.
pub fn join_group(groups: &mut Vec<Group>, group_id: &str, username: &str) -> (r: Result<Group, ApiError>)
    ensures
        ({
            if group_id@.len() == 0 || username@.len() == 0 {
                r matches Err(ApiError::EmptyGroupIdOrUsername)
            } else {
                match first_index(seq_views(old(groups)@), group_with_id(group_id@)) {
                    None => r matches Err(ApiError::GroupNotFound),
                    Some(k) => {
                        let g = seq_views(old(groups)@)[k];
                        if g.members.contains(username@) {
                            r matches Err(ApiError::AlreadyGroupMember)
                        } else {
                            let ng = GroupView { members: g.members.push(username@), ..g };
                            &&& r matches Ok(gr) && gr@ == ng
                            &&& seq_views(final(groups)@) == seq_views(old(groups)@).update(k, ng)
                        }
                    },
                }
            }
        }),
        r is Err ==> final(groups)@ == old(groups)@,
{
    if group_id.is_empty() || username.is_empty() {
        return Err(ApiError::EmptyGroupIdOrUsername);
    }
    let found = find_group(groups, group_id);
    proof {
        lemma_first_index(seq_views(groups@), group_with_id(group_id@));
    }
    match found {
        None => Err(ApiError::GroupNotFound),
        Some(k) => {
            if contains_str(&groups[k].members, username) {
                return Err(ApiError::AlreadyGroupMember);
            }
            let ghost before = groups@;
            let mut g = groups[k].clone();
            let ghost old_members = g.members@;
            g.members.push(username.to_string());
            assert(views(g.members@) =~= views(old_members).push(username@));
            let out = g.clone();
            groups.set(k, g);
            assert(seq_views(groups@) =~= seq_views(before).update(k as int, out@));
            Ok(out)
        },
    }
}

/// Removes `username` from the first group whose id is `group_id`; the creator cannot leave.
pub fn leave_group(groups: &mut Vec<Group>, group_id: &str, username: &str) -> (r: Result<(), ApiError>)
    ensures
        ({
            if group_id@.len() == 0 || username@.len() == 0 {
                r matches Err(ApiError::EmptyGroupIdOrUsername)
            } else {
                match first_index(seq_views(old(groups)@), group_with_id(group_id@)) {
                    None => r matches Err(ApiError::GroupNotFound),
                    Some(k) => {
                        let g = seq_views(old(groups)@)[k];
                        if g.creator == username@ {
                            r matches Err(ApiError::OwnerCannotLeave)
                        } else {
                            &&& r is Ok
                            &&& seq_views(final(groups)@) == seq_views(old(groups)@).update(
                                k,
                                GroupView { members: without(g.members, username@), ..g },
                            )
                        }
                    },
                }
            }
        }),
        r is Err ==> final(groups)@ == old(groups)@,
{
    if group_id.is_empty() || username.is_empty() {
        return Err(ApiError::EmptyGroupIdOrUsername);
    }
    let found = find_group(groups, group_id);
    proof {
        lemma_first_index(seq_views(groups@), group_with_id(group_id@));
    }
    match found {
        None => Err(ApiError::GroupNotFound),
        Some(k) => {
            if str_eq(groups[k].creator.as_str(), username) {
                return Err(ApiError::OwnerCannotLeave);
            }
            let ghost before = groups@;
            let mut g = groups[k].clone();
            let ghost orig = views(g.members@);
            let ghost p = other_than(username@);
            let mut kept: Vec<String> = Vec::new();
            let mut i: usize = 0;
            proof {
                reveal(Seq::filter);
                assert(orig.take(0).filter(p) =~= Seq::<Seq<char>>::empty());
            }
            while i < g.members.len()
                invariant
                    0 <= i <= g.members@.len(),
                    orig == views(g.members@),
                    p == other_than(username@),
                    views(kept@) == orig.take(i as int).filter(p),
                decreases g.members@.len() - i,
            {
                proof {
                    reveal(Seq::filter);
                    assert(orig.take(i + 1).drop_last() =~= orig.take(i as int));
                    assert(orig.take(i + 1).last() == g.members@[i as int]@);
                }
                if !str_eq(g.members[i].as_str(), username) {
                    let m = g.members[i].clone();
                    let ghost kb = views(kept@);
                    kept.push(m);
                    assert(views(kept@) =~= kb.push(m@));
                }
                i = i + 1;
            }
            assert(orig.take(g.members@.len() as int) =~= orig);
            g.members = kept;
            let ghost gv = g@;
            groups.set(k, g);
            assert(seq_views(groups@) =~= seq_views(before).update(k as int, gv));
            Ok(())
        },
    }
}

/// Dissolves the first group whose id is `group_id`; only its creator may.
pub fn delete_group(groups: &mut Vec<Group>, group_id: &str, username: &str) -> (r: Result<(), ApiError>)
    ensures
        ({
            if username@.len() == 0 {
                r matches Err(ApiError::EmptyUsername)
            } else {
                match first_index(seq_views(old(groups)@), group_with_id(group_id@)) {
                    None => r matches Err(ApiError::GroupNotFound),
                    Some(k) => if seq_views(old(groups)@)[k].creator != username@ {
                        r matches Err(ApiError::OnlyOwnerCanDelete)
                    } else {
                        r is Ok && seq_views(final(groups)@) == seq_views(old(groups)@).remove(k)
                    },
                }
            }
        }),
        r is Err ==> final(groups)@ == old(groups)@,
{
    if username.is_empty() {
        return Err(ApiError::EmptyUsername);
    }
    let found = find_group(groups, group_id);
    proof {
        lemma_first_index(seq_views(groups@), group_with_id(group_id@));
    }
    match found {
        None => Err(ApiError::GroupNotFound),
        Some(k) => {
            if !str_eq(groups[k].creator.as_str(), username) {
                return Err(ApiError::OnlyOwnerCanDelete);
            }
            let ghost before = groups@;
            groups.remove(k);
            assert(seq_views(groups@) =~= seq_views(before).remove(k as int));
            Ok(())
        },
    }
}

} // verus!
