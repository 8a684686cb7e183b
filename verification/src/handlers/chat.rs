use vstd::prelude::*;
use crate::clock::{millis_of, now_utc, one_reading, rfc3339_of};
use crate::directory::{find_user, find_user_with_login, has_user, named, with_login};
use crate::counts::{distinct_keys, pair_views, pairs_map, upsert};
use crate::models::{
    ApiError, ChatMessage, ChatMessageView, Group, GroupView, User, UserPublic, UserView, public_of,
    seq_views, user_views,
};
use crate::names::{conversation_partner, conversation_partner_of};
use crate::seqs::{first_match, lemma_first_index};
use crate::text::{contains_str, str_eq, views};

verus! {

broadcast use vstd::string::group_string_axioms;

/// The avatar of the first account named `name`; empty when there is none.
pub open spec fn avatar_of(users: Seq<UserView>, name: Seq<char>) -> Seq<char> {
    match first_match(users, named(name)) {
        Some(u) => u.avatar,
        None => Seq::empty(),
    }
}

/// The avatar of the first account named `username`; empty when there is none.
pub fn get_avatar_url(users: &Vec<User>, username: &str) -> (r: String)
    ensures
        r@ == avatar_of(user_views(users@), username@),
{
    let found = find_user(users, username);
    proof {
        lemma_first_index(user_views(users@), named(username@));
    }
    match found {
        Some(i) => users[i].avatar.clone(),
        None => String::new(),
    }
}

/// Who sent a message: its `from` field, or its `sender` field when `from` is empty.
pub open spec fn author(m: ChatMessageView) -> Seq<char> {
    if m.from.len() == 0 { m.sender } else { m.from }
}

/// A message with its author's avatar filled in.
pub open spec fn with_avatar(users: Seq<UserView>) -> spec_fn(ChatMessageView) -> ChatMessageView {
    |m: ChatMessageView| ChatMessageView { sender_avatar: avatar_of(users, author(m)), ..m }
}

/// Fills in each message's author avatar.
pub fn enrich_with_avatar(users: &Vec<User>, msgs: Vec<ChatMessage>) -> (r: Vec<ChatMessage>)
    ensures
        seq_views(r@) == seq_views(msgs@).map_values(with_avatar(user_views(users@))),
{
    let mut msgs = msgs;
    let ghost orig = seq_views(msgs@);
    let mut i: usize = 0;
    while i < msgs.len()
        invariant
            0 <= i <= msgs@.len(),
            orig.len() == msgs@.len(),
            forall|j: int| 0 <= j < i ==> #[trigger] seq_views(msgs@)[j] == with_avatar(user_views(users@))(orig[j]),
            forall|j: int| i <= j < msgs@.len() ==> #[trigger] seq_views(msgs@)[j] == orig[j],
        decreases msgs@.len() - i,
    {
        let mut m = msgs[i].clone();
        let avatar = if m.from.as_str().is_empty() {
            get_avatar_url(users, m.sender.as_str())
        } else {
            get_avatar_url(users, m.from.as_str())
        };
        m.sender_avatar = avatar;
        assert(seq_views(msgs@)[i as int] == orig[i as int]);
        let ghost before = msgs@;
        msgs.set(i, m);
        assert(seq_views(msgs@) =~= seq_views(before).update(i as int, m@));
        i = i + 1;
    }
    assert(seq_views(msgs@) =~= orig.map_values(with_avatar(user_views(users@))));
    msgs
}

/// A private message as it is stored.
pub open spec fn private_message(
    id: u64,
    sender: Seq<char>,
    receiver: Seq<char>,
    message: Seq<char>,
    timestamp: Seq<char>,
) -> ChatMessageView {
    ChatMessageView {
        id,
        sender,
        receiver,
        message,
        timestamp,
        read_by: seq![sender],
        from: Seq::empty(),
        to: Seq::empty(),
        msg_type: Seq::empty(),
        sender_avatar: Seq::empty(),
    }
}

/// Sends a private message with the given id and time stamp: appends it to the
/// conversation `messages` and answers it with the sender's avatar filled in.
pub fn send_message_at(
    users: &Vec<User>,
    messages: &mut Vec<ChatMessage>,
    sender: &str,
    receiver: &str,
    message: &str,
    id: u64,
    timestamp: String,
) -> (r: Result<ChatMessage, ApiError>)
    ensures
        ({
            let u = user_views(users@);
            if sender@.len() == 0 || receiver@.len() == 0 || message@.len() == 0 {
                r matches Err(ApiError::EmptyMessageFields)
            } else if !has_user(u, sender@) {
                r matches Err(ApiError::SenderNotFound)
            } else if !has_user(u, receiver@) {
                r matches Err(ApiError::ReceiverNotFound)
            } else {
                let m = private_message(id, sender@, receiver@, message@, timestamp@);
                &&& r matches Ok(resp) && resp@ == ChatMessageView { sender_avatar: avatar_of(u, sender@), ..m }
                &&& seq_views(final(messages)@) == seq_views(old(messages)@).push(m)
            }
        }),
        r is Err ==> final(messages)@ == old(messages)@,
{
    if sender.is_empty() || receiver.is_empty() || message.is_empty() {
        return Err(ApiError::EmptyMessageFields);
    }
    if find_user(users, sender).is_none() {
        return Err(ApiError::SenderNotFound);
    }
    if find_user(users, receiver).is_none() {
        return Err(ApiError::ReceiverNotFound);
    }
    let mut read_by: Vec<String> = Vec::new();
    read_by.push(sender.to_string());
    let msg = ChatMessage {
        id,
        sender: sender.to_string(),
        receiver: receiver.to_string(),
        message: message.to_string(),
        timestamp,
        read_by,
        from: String::new(),
        to: String::new(),
        msg_type: String::new(),
        sender_avatar: String::new(),
    };
    assert(views(msg.read_by@) =~= seq![sender@]);
    let ghost before = messages@;
    messages.push(msg.clone());
    assert(seq_views(messages@) =~= seq_views(before).push(msg@));
    let mut resp = msg;
    resp.sender_avatar = get_avatar_url(users, sender);
    Ok(resp)
}

/// Sends a private message stamped with the current time, its id being the time in milliseconds.
pub fn send_message(
    users: &Vec<User>,
    messages: &mut Vec<ChatMessage>,
    sender: &str,
    receiver: &str,
    message: &str,
) -> (r: Result<ChatMessage, ApiError>)
    ensures
        ({
            let u = user_views(users@);
            if sender@.len() == 0 || receiver@.len() == 0 || message@.len() == 0 {
                r matches Err(ApiError::EmptyMessageFields)
            } else if !has_user(u, sender@) {
                r matches Err(ApiError::SenderNotFound)
            } else if !has_user(u, receiver@) {
                r matches Err(ApiError::ReceiverNotFound)
            } else {
                r matches Ok(resp) && {
                    let m = private_message(resp.id, sender@, receiver@, message@, resp.timestamp@);
                    &&& resp@ == ChatMessageView { sender_avatar: avatar_of(u, sender@), ..m }
                    &&& one_reading(resp.id, resp.timestamp@)
                    &&& seq_views(final(messages)@) == seq_views(old(messages)@).push(m)
                }
            }
        }),
        r is Err ==> final(messages)@ == old(messages)@,
{
    let now = now_utc();
    let ghost (secs, nanos) = (now.secs, now.nanos);
    let r = send_message_at(users, messages, sender, receiver, message, now.millis, now.rfc3339);
    proof {
        if r is Ok {
            assert(r->Ok_0.id == millis_of(secs, nanos) && rfc3339_of(secs, nanos) == r->Ok_0.timestamp@);
        }
    }
    r
}

/// The messages of a conversation with their authors' avatars, once both parties are named.
pub fn get_messages(users: &Vec<User>, messages: Vec<ChatMessage>, sender: &str, receiver: &str) -> (r: Result<
    Vec<ChatMessage>,
    ApiError,
>)
    ensures
        sender@.len() == 0 || receiver@.len() == 0 ==> r matches Err(ApiError::EmptySenderOrReceiver),
        sender@.len() > 0 && receiver@.len() > 0 ==> (r matches Ok(v) && seq_views(v@) == seq_views(
            messages@,
        ).map_values(with_avatar(user_views(users@)))),
{
    if sender.is_empty() || receiver.is_empty() {
        return Err(ApiError::EmptySenderOrReceiver);
    }
    Ok(enrich_with_avatar(users, messages))
}

/// The messages of a LAN conversation with their authors' avatars, once both parties are named.
pub fn lan_get_messages(users: &Vec<User>, messages: Vec<ChatMessage>, from: &str, to: &str) -> (r: Result<
    Vec<ChatMessage>,
    ApiError,
>)
    ensures
        from@.len() == 0 || to@.len() == 0 ==> r matches Err(ApiError::EmptySenderOrReceiver),
        from@.len() > 0 && to@.len() > 0 ==> (r matches Ok(v) && seq_views(v@) == seq_views(messages@).map_values(
            with_avatar(user_views(users@)),
        )),
{
    get_messages(users, messages, from, to)
}

/// A message with `u` among its readers.
pub open spec fn read_by_user(m: ChatMessageView, u: Seq<char>) -> ChatMessageView {
    if m.read_by.contains(u) { m } else { ChatMessageView { read_by: m.read_by.push(u), ..m } }
}

/// The messages with `u` among the readers of each.
pub open spec fn marked_read(ms: Seq<ChatMessageView>, u: Seq<char>) -> Seq<ChatMessageView> {
    ms.map_values(|m: ChatMessageView| read_by_user(m, u))
}

/// Adds `username` to the readers of every message; gives how many messages that changed.
pub fn mark_all_read(messages: &mut Vec<ChatMessage>, username: &str) -> (n: usize)
    ensures
        seq_views(final(messages)@) == marked_read(seq_views(old(messages)@), username@),
        n == seq_views(old(messages)@).filter(|m: ChatMessageView| !m.read_by.contains(username@)).len(),
{
    let ghost orig = seq_views(messages@);
    let ghost f = |m: ChatMessageView| read_by_user(m, username@);
    let ghost p = |m: ChatMessageView| !m.read_by.contains(username@);
    let mut changed: usize = 0;
    let mut i: usize = 0;
    proof {
        reveal(Seq::filter);
        assert(orig.take(0).filter(p) =~= Seq::<ChatMessageView>::empty());
    }
    while i < messages.len()
        invariant
            0 <= i <= messages@.len(),
            orig.len() == messages@.len(),
            f == (|m: ChatMessageView| read_by_user(m, username@)),
            p == (|m: ChatMessageView| !m.read_by.contains(username@)),
            forall|j: int| 0 <= j < i ==> #[trigger] seq_views(messages@)[j] == f(orig[j]),
            forall|j: int| i <= j < messages@.len() ==> #[trigger] seq_views(messages@)[j] == orig[j],
            changed == orig.take(i as int).filter(p).len(),
            changed <= i,
        decreases messages@.len() - i,
    {
        proof {
            reveal(Seq::filter);
            assert(orig.take(i + 1).drop_last() =~= orig.take(i as int));
            assert(orig.take(i + 1).last() == orig[i as int]);
            assert(seq_views(messages@)[i as int] == orig[i as int]);
        }
        if !contains_str(&messages[i].read_by, username) {
            let mut m = messages[i].clone();
            let ghost old_reads = m.read_by@;
            m.read_by.push(username.to_string());
            assert(views(m.read_by@) =~= views(old_reads).push(username@));
            let ghost before = messages@;
            messages.set(i, m);
            assert(seq_views(messages@) =~= seq_views(before).update(i as int, m@));
            changed = changed + 1;
        }
        i = i + 1;
    }
    assert(seq_views(messages@) =~= orig.map_values(f));
    assert(orig.take(messages@.len() as int) =~= orig);
    changed
}

/// Marks a private conversation read by `username`; gives how many messages that changed.
pub fn mark_read(messages: &mut Vec<ChatMessage>, username: &str, target: &str) -> (r: Result<usize, ApiError>)
    ensures
        username@.len() == 0 || target@.len() == 0 ==> (r matches Err(ApiError::EmptyUsernameOrTarget)
            && final(messages)@ == old(messages)@),
        username@.len() > 0 && target@.len() > 0 ==> (r matches Ok(n)
            && seq_views(final(messages)@) == marked_read(seq_views(old(messages)@), username@)
            && n == seq_views(old(messages)@).filter(|m: ChatMessageView| !m.read_by.contains(username@)).len()),
{
    if username.is_empty() || target.is_empty() {
        return Err(ApiError::EmptyUsernameOrTarget);
    }
    Ok(mark_all_read(messages, username))
}

/// Marks a group's messages read by `username`; gives how many messages that changed.
pub fn mark_read_group(messages: &mut Vec<ChatMessage>, username: &str, group_id: &str) -> (r: Result<usize, ApiError>)
    ensures
        username@.len() == 0 || group_id@.len() == 0 ==> (r matches Err(ApiError::EmptyUsernameOrGroupId)
            && final(messages)@ == old(messages)@),
        username@.len() > 0 && group_id@.len() > 0 ==> (r matches Ok(n)
            && seq_views(final(messages)@) == marked_read(seq_views(old(messages)@), username@)
            && n == seq_views(old(messages)@).filter(|m: ChatMessageView| !m.read_by.contains(username@)).len()),
{
    if username.is_empty() || group_id.is_empty() {
        return Err(ApiError::EmptyUsernameOrGroupId);
    }
    Ok(mark_all_read(messages, username))
}

/// Checks a LAN login: the public view of the first account with that name and password.
pub fn lan_login(users: &Vec<User>, username: &str, password: &str) -> (r: Result<UserPublic, ApiError>)
    ensures
        username@.len() == 0 || password@.len() == 0 ==> r matches Err(ApiError::EmptyUsernameOrPassword),
        username@.len() > 0 && password@.len() > 0 ==> match first_match(user_views(users@), with_login(username@, password@)) {
            Some(u) => r matches Ok(p) && p@ == public_of(u),
            None => r matches Err(ApiError::WrongUsernameOrPassword),
        },
{
    if username.is_empty() || password.is_empty() {
        return Err(ApiError::EmptyUsernameOrPassword);
    }
    let found = find_user_with_login(users, username, password);
    proof {
        lemma_first_index(user_views(users@), with_login(username@, password@));
    }
    match found {
        Some(i) => Ok(UserPublic::from_user(users[i].clone())),
        None => Err(ApiError::WrongUsernameOrPassword),
    }
}

/// Checks a LAN logout request: the user must be named.
pub fn lan_logout(username: &str) -> (r: Result<(), ApiError>)
    ensures
        r is Ok <==> username@.len() > 0,
        r matches Err(e) ==> e == ApiError::EmptyUsername,
{
    if username.is_empty() {
        Err(ApiError::EmptyUsername)
    } else {
        Ok(())
    }
}

/// The LAN users online: the LAN service does not track any.
pub fn lan_online() -> (r: Vec<String>)
    ensures
        r@.len() == 0,
{
    Vec::new()
}

/// Everyone but `current`, in the public view.
pub fn lan_friends(users: &Vec<User>, current: &str) -> (r: Vec<UserPublic>)
    ensures
        seq_views(r@) == user_views(users@).filter(|u: UserView| u.username != current@).map_values(
            |u: UserView| public_of(u),
        ),
{
    let ghost us = user_views(users@);
    let ghost p = |u: UserView| u.username != current@;
    let ghost pf = |u: UserView| public_of(u);
    let mut out: Vec<UserPublic> = Vec::new();
    proof {
        reveal(Seq::filter);
        assert(us.take(0).filter(p) =~= Seq::<UserView>::empty());
        assert(seq_views(out@) =~= us.take(0).filter(p).map_values(pf));
    }
    let mut i: usize = 0;
    while i < users.len()
        invariant
            0 <= i <= users@.len(),
            us == user_views(users@),
            p == (|u: UserView| u.username != current@),
            pf == (|u: UserView| public_of(u)),
            seq_views(out@) == us.take(i as int).filter(p).map_values(pf),
        decreases users@.len() - i,
    {
        proof {
            reveal(Seq::filter);
            assert(us.take(i + 1).drop_last() =~= us.take(i as int));
            assert(us.take(i + 1).last() == users@[i as int]@);
        }
        if !str_eq(users[i].username.as_str(), current) {
            let pu = UserPublic::from_user(users[i].clone());
            let ghost before = out@;
            out.push(pu);
            assert(seq_views(out@) =~= seq_views(before).push(pu@));
            assert(us.take(i + 1).filter(p).map_values(pf) =~= us.take(i as int).filter(p).map_values(pf).push(pf(users@[i as int]@)));
        }
        i = i + 1;
    }
    assert(us.take(users@.len() as int) =~= us);
    out
}

/// A LAN message as it is stored.
pub open spec fn lan_message(
    id: u64,
    from: Seq<char>,
    to: Seq<char>,
    message: Seq<char>,
    msg_type: Seq<char>,
    timestamp: Seq<char>,
    avatar: Seq<char>,
) -> ChatMessageView {
    ChatMessageView {
        id,
        sender: Seq::empty(),
        receiver: Seq::empty(),
        message,
        timestamp,
        read_by: seq![from],
        from,
        to,
        msg_type,
        sender_avatar: avatar,
    }
}

/// Sends a LAN message with the given id and time stamp, appending it to `messages`.
pub fn lan_send_message_at(
    users: &Vec<User>,
    messages: &mut Vec<ChatMessage>,
    from: &str,
    to: &str,
    message: &str,
    msg_type: &str,
    id: u64,
    timestamp: String,
) -> (r: Result<ChatMessage, ApiError>)
    ensures
        from@.len() == 0 || to@.len() == 0 || message@.len() == 0 ==> (r matches Err(ApiError::EmptyMessageFields)
            && final(messages)@ == old(messages)@),
        from@.len() > 0 && to@.len() > 0 && message@.len() > 0 ==> {
            let m = lan_message(id, from@, to@, message@, msg_type@, timestamp@, avatar_of(user_views(users@), from@));
            &&& r matches Ok(resp) && resp@ == m
            &&& seq_views(final(messages)@) == seq_views(old(messages)@).push(m)
        },
{
    if from.is_empty() || to.is_empty() || message.is_empty() {
        return Err(ApiError::EmptyMessageFields);
    }
    let mut read_by: Vec<String> = Vec::new();
    read_by.push(from.to_string());
    let msg = ChatMessage {
        id,
        sender: String::new(),
        receiver: String::new(),
        message: message.to_string(),
        timestamp,
        read_by,
        from: from.to_string(),
        to: to.to_string(),
        msg_type: msg_type.to_string(),
        sender_avatar: get_avatar_url(users, from),
    };
    assert(views(msg.read_by@) =~= seq![from@]);
    let ghost before = messages@;
    messages.push(msg.clone());
    assert(seq_views(messages@) =~= seq_views(before).push(msg@));
    Ok(msg)
}

/// Sends a LAN message stamped with the current time, its id being the time in milliseconds.
pub fn lan_send_message(
    users: &Vec<User>,
    messages: &mut Vec<ChatMessage>,
    from: &str,
    to: &str,
    message: &str,
    msg_type: &str,
) -> (r: Result<ChatMessage, ApiError>)
    ensures
        from@.len() == 0 || to@.len() == 0 || message@.len() == 0 ==> (r matches Err(ApiError::EmptyMessageFields)
            && final(messages)@ == old(messages)@),
        from@.len() > 0 && to@.len() > 0 && message@.len() > 0 ==> (r matches Ok(resp) && {
            let m = lan_message(resp.id, from@, to@, message@, msg_type@, resp.timestamp@, avatar_of(user_views(users@), from@));
            &&& resp@ == m
            &&& one_reading(resp.id, resp.timestamp@)
            &&& seq_views(final(messages)@) == seq_views(old(messages)@).push(m)
        }),
{
    let now = now_utc();
    let ghost (secs, nanos) = (now.secs, now.nanos);
    let r = lan_send_message_at(users, messages, from, to, message, msg_type, now.millis, now.rfc3339);
    proof {
        if r is Ok {
            assert(r->Ok_0.id == millis_of(secs, nanos) && rfc3339_of(secs, nanos) == r->Ok_0.timestamp@);
        }
    }
    r
}

/// A chat file of the conversation directory: its name and the messages it holds.
#[derive(Debug)]
pub struct ConversationFile {
    pub name: String,
    pub messages: Vec<ChatMessage>,
}

/// The value of a [`ConversationFile`].
pub struct ConversationFileView {
    pub name: Seq<char>,
    pub messages: Seq<ChatMessageView>,
}

impl View for ConversationFile {
    type V = ConversationFileView;

    open spec fn view(&self) -> ConversationFileView {
        ConversationFileView { name: self.name@, messages: seq_views(self.messages@) }
    }
}

/// A read position sent by the client: a conversation key and, when it is a whole
/// number, the id of the last message read.
#[derive(Debug)]
pub struct ReadPoint {
    pub key: String,
    pub value: Option<u64>,
}

/// The value of a [`ReadPoint`].
pub struct ReadPointView {
    pub key: Seq<char>,
    pub value: Option<u64>,
}

impl View for ReadPoint {
    type V = ReadPointView;

    open spec fn view(&self) -> ReadPointView {
        ReadPointView { key: self.key@, value: self.value }
    }
}

/// Messages that count as unread for `u`: written by someone else (by `from` when
/// `by_from`, else by `sender`) and, without a read point, not read by `u`, with one,
/// newer than it.
pub open spec fn counts_as_unread(u: Seq<char>, by_from: bool, after: Option<u64>) -> spec_fn(ChatMessageView) -> bool {
    |m: ChatMessageView|
        (if by_from { m.from != u } else { m.sender != u }) && match after {
            None => !m.read_by.contains(u),
            Some(last) => m.id > last,
        }
}

/// How many messages count as unread.
fn count_unread(ms: &Vec<ChatMessage>, u: &str, by_from: bool, after: Option<u64>) -> (n: usize)
    ensures
        n == seq_views(ms@).filter(counts_as_unread(u@, by_from, after)).len(),
{
    let ghost s = seq_views(ms@);
    let ghost p = counts_as_unread(u@, by_from, after);
    let mut n: usize = 0;
    let mut i: usize = 0;
    proof {
        reveal(Seq::filter);
        assert(s.take(0).filter(p) =~= Seq::<ChatMessageView>::empty());
    }
    while i < ms.len()
        invariant
            0 <= i <= ms@.len(),
            s == seq_views(ms@),
            p == counts_as_unread(u@, by_from, after),
            n == s.take(i as int).filter(p).len(),
            n <= i,
        decreases ms@.len() - i,
    {
        proof {
            reveal(Seq::filter);
            assert(s.take(i + 1).drop_last() =~= s.take(i as int));
            assert(s.take(i + 1).last() == ms@[i as int]@);
        }
        let m = &ms[i];
        let other = if by_from { !str_eq(m.from.as_str(), u) } else { !str_eq(m.sender.as_str(), u) };
        let fresh = match after {
            None => !contains_str(&m.read_by, u),
            Some(last) => m.id > last,
        };
        if other && fresh {
            n = n + 1;
        }
        i = i + 1;
    }
    assert(s.take(ms@.len() as int) =~= s);
    n
}

/// The unread counts by conversation partner that the chat files give: a file counts when
/// it belongs to a conversation of `u` and, without read points, holds unread messages.
pub open spec fn conversation_counts(
    files: Seq<ConversationFileView>,
    u: Seq<char>,
    points: Option<Seq<ReadPointView>>,
) -> Map<Seq<char>, usize>
    decreases files.len(),
{
    if files.len() == 0 {
        Map::empty()
    } else {
        let prev = conversation_counts(files.drop_last(), u, points);
        let f = files.last();
        match conversation_partner(f.name, u) {
            None => prev,
            Some(o) => match points {
                None => {
                    let n = f.messages.filter(counts_as_unread(u, false, None)).len();
                    if n > 0 { prev.insert(o, n as usize) } else { prev }
                },
                Some(ps) => {
                    let last = read_point(ps, "user:"@ + o);
                    prev.insert(o, f.messages.filter(counts_as_unread(u, false, Some(last))).len() as usize)
                },
            },
        }
    }
}

/// The unread counts by group: a group counts when `u` is a member and its message file
/// exists and, without read points, holds unread messages.
pub open spec fn group_counts(
    groups: Seq<GroupView>,
    files: Seq<Option<Seq<ChatMessageView>>>,
    u: Seq<char>,
    points: Option<Seq<ReadPointView>>,
) -> Map<Seq<char>, usize>
    decreases groups.len(),
{
    if groups.len() == 0 {
        Map::empty()
    } else {
        let prev = group_counts(groups.drop_last(), files.take(groups.len() - 1), u, points);
        let g = groups.last();
        if !g.members.contains(u) {
            prev
        } else {
            match files[groups.len() - 1] {
                None => prev,
                Some(ms) => match points {
                    None => {
                        let n = ms.filter(counts_as_unread(u, true, None)).len();
                        if n > 0 { prev.insert(g.id, n as usize) } else { prev }
                    },
                    Some(ps) => {
                        let last = read_point(ps, "group:"@ + g.id);
                        prev.insert(g.id, ms.filter(counts_as_unread(u, true, Some(last))).len() as usize)
                    },
                },
            }
        }
    }
}

/// The last-read message id recorded under `key`; 0 when there is none.
pub open spec fn read_point(points: Seq<ReadPointView>, key: Seq<char>) -> u64 {
    match first_match(points, |p: ReadPointView| p.key == key) {
        Some(p) => match p.value {
            Some(v) => v,
            None => 0,
        },
        None => 0,
    }
}

fn find_read_point(points: &Vec<ReadPoint>, key: &str) -> (r: u64)
    ensures
        r == read_point(seq_views(points@), key@),
{
    let ghost s = seq_views(points@);
    let ghost p = |x: ReadPointView| x.key == key@;
    let mut i: usize = 0;
    while i < points.len()
        invariant
            0 <= i <= points@.len(),
            s == seq_views(points@),
            p == (|x: ReadPointView| x.key == key@),
            forall|k: int| 0 <= k < i ==> !p(#[trigger] s[k]),
        decreases points@.len() - i,
    {
        if str_eq(points[i].key.as_str(), key) {
            proof {
                crate::seqs::lemma_first_index_at(s, p, i as int);
            }
            return match points[i].value {
                Some(v) => v,
                None => 0,
            };
        }
        i = i + 1;
    }
    proof {
        crate::seqs::lemma_first_index_at(s, p, i as int);
    }
    0
}

/// Unread counts by conversation partner and by group.
#[derive(Debug)]
pub struct UnreadCounts {
    pub conversations: Vec<(String, usize)>,
    pub groups: Vec<(String, usize)>,
}

fn count_conversations(files: &Vec<ConversationFile>, username: &str, points: Option<&Vec<ReadPoint>>) -> (r: Vec<(String, usize)>)
    ensures
        distinct_keys(pair_views(r@)),
        pairs_map(pair_views(r@)) == conversation_counts(seq_views(files@), username@, match points {
            Some(p) => Some(seq_views(p@)),
            None => None,
        }),
{
    let ghost fs = seq_views(files@);
    let ghost pts = match points { Some(p) => Some(seq_views(p@)), None => None::<Seq<ReadPointView>> };
    let mut out: Vec<(String, usize)> = Vec::new();
    assert(pairs_map(pair_views(out@)) =~= conversation_counts(fs.take(0), username@, pts));
    let mut i: usize = 0;
    while i < files.len()
        invariant
            0 <= i <= files@.len(),
            fs == seq_views(files@),
            pts == match points { Some(p) => Some(seq_views(p@)), None => None::<Seq<ReadPointView>> },
            distinct_keys(pair_views(out@)),
            pairs_map(pair_views(out@)) == conversation_counts(fs.take(i as int), username@, pts),
        decreases files@.len() - i,
    {
        let f = &files[i];
        proof {
            assert(fs.take(i + 1).drop_last() =~= fs.take(i as int));
            assert(fs.take(i + 1).last() == f@);
        }
        match conversation_partner_of(f.name.as_str(), username) {
            None => {},
            Some(other) => {
                match points {
                    None => {
                        let n = count_unread(&f.messages, username, false, None);
                        if n > 0 {
                            upsert(&mut out, other, n);
                        }
                    },
                    Some(ps) => {
                        let key = "user:".to_string().concat(other.as_str());
                        let last = find_read_point(ps, key.as_str());
                        let n = count_unread(&f.messages, username, false, Some(last));
                        upsert(&mut out, other, n);
                    },
                }
            },
        }
        i = i + 1;
    }
    assert(fs.take(files@.len() as int) =~= fs);
    out
}

fn count_groups(
    groups: &Vec<Group>,
    files: &Vec<Option<Vec<ChatMessage>>>,
    username: &str,
    points: Option<&Vec<ReadPoint>>,
) -> (r: Vec<(String, usize)>)
    requires
        files@.len() == groups@.len(),
    ensures
        distinct_keys(pair_views(r@)),
        pairs_map(pair_views(r@)) == group_counts(seq_views(groups@), message_files(files@), username@, match points {
            Some(p) => Some(seq_views(p@)),
            None => None,
        }),
{
    let ghost gs = seq_views(groups@);
    let ghost ms = message_files(files@);
    let ghost pts = match points { Some(p) => Some(seq_views(p@)), None => None::<Seq<ReadPointView>> };
    let mut out: Vec<(String, usize)> = Vec::new();
    assert(pairs_map(pair_views(out@)) =~= group_counts(gs.take(0), ms.take(0), username@, pts));
    let mut i: usize = 0;
    while i < groups.len()
        invariant
            0 <= i <= groups@.len(),
            files@.len() == groups@.len(),
            gs == seq_views(groups@),
            ms == message_files(files@),
            ms.len() == gs.len(),
            pts == match points { Some(p) => Some(seq_views(p@)), None => None::<Seq<ReadPointView>> },
            distinct_keys(pair_views(out@)),
            pairs_map(pair_views(out@)) == group_counts(gs.take(i as int), ms.take(i as int), username@, pts),
        decreases groups@.len() - i,
    {
        let g = &groups[i];
        proof {
            assert(gs.take(i + 1).drop_last() =~= gs.take(i as int));
            assert(gs.take(i + 1).last() == g@);
            assert(ms.take(i + 1).take(i as int) =~= ms.take(i as int));
            assert(ms.take(i + 1)[i as int] == ms[i as int]);
        }
        if contains_str(&g.members, username) {
            match &files[i] {
                None => {},
                Some(msgs) => {
                    match points {
                        None => {
                            let n = count_unread(msgs, username, true, None);
                            if n > 0 {
                                upsert(&mut out, g.id.clone(), n);
                            }
                        },
                        Some(ps) => {
                            let key = "group:".to_string().concat(g.id.as_str());
                            let last = find_read_point(ps, key.as_str());
                            let n = count_unread(msgs, username, true, Some(last));
                            upsert(&mut out, g.id.clone(), n);
                        },
                    }
                },
            }
        }
        i = i + 1;
    }
    assert(gs.take(groups@.len() as int) =~= gs);
    assert(ms.take(groups@.len() as int) =~= ms);
    out
}

/// The message lists of the group message files, `None` where a file does not exist.
pub open spec fn message_files(s: Seq<Option<Vec<ChatMessage>>>) -> Seq<Option<Seq<ChatMessageView>>> {
    s.map_values(|o: Option<Vec<ChatMessage>>| match o {
        Some(v) => Some(seq_views(v@)),
        None => None,
    })
}

/// Unread counts of `username` from the read marks: conversations with unread messages
/// from the chat files, and groups `username` belongs to with unread messages.
/// `group_files[i]` holds the message file of `groups[i]`.
pub fn unread_counts_get(
    username: &str,
    files: &Vec<ConversationFile>,
    groups: &Vec<Group>,
    group_files: &Vec<Option<Vec<ChatMessage>>>,
) -> (r: Result<UnreadCounts, ApiError>)
    requires
        group_files@.len() == groups@.len(),
    ensures
        username@.len() == 0 ==> r matches Err(ApiError::EmptyUsername),
        username@.len() > 0 ==> (r matches Ok(c) && {
            &&& distinct_keys(pair_views(c.conversations@))
            &&& pairs_map(pair_views(c.conversations@)) == conversation_counts(seq_views(files@), username@, None)
            &&& distinct_keys(pair_views(c.groups@))
            &&& pairs_map(pair_views(c.groups@)) == group_counts(seq_views(groups@), message_files(group_files@), username@, None)
        }),
{
    if username.is_empty() {
        return Err(ApiError::EmptyUsername);
    }
    let conversations = count_conversations(files, username, None);
    let groups = count_groups(groups, group_files, username, None);
    Ok(UnreadCounts { conversations, groups })
}

/// Unread counts of `username` from the client's read points: for every conversation
/// and every group of `username`, the messages from others newer than the read point.
pub fn unread_counts_post(
    username: &str,
    read_points: &Vec<ReadPoint>,
    files: &Vec<ConversationFile>,
    groups: &Vec<Group>,
    group_files: &Vec<Option<Vec<ChatMessage>>>,
) -> (r: Result<UnreadCounts, ApiError>)
    requires
        group_files@.len() == groups@.len(),
    ensures
        username@.len() == 0 ==> r matches Err(ApiError::EmptyUsername),
        username@.len() > 0 ==> (r matches Ok(c) && {
            &&& distinct_keys(pair_views(c.conversations@))
            &&& pairs_map(pair_views(c.conversations@)) == conversation_counts(seq_views(files@), username@, Some(seq_views(read_points@)))
            &&& distinct_keys(pair_views(c.groups@))
            &&& pairs_map(pair_views(c.groups@)) == group_counts(seq_views(groups@), message_files(group_files@), username@, Some(seq_views(read_points@)))
        }),
{
    if username.is_empty() {
        return Err(ApiError::EmptyUsername);
    }
    let conversations = count_conversations(files, username, Some(read_points));
    let groups = count_groups(groups, group_files, username, Some(read_points));
    Ok(UnreadCounts { conversations, groups })
}

} // verus!
