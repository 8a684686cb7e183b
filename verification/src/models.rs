use vstd::prelude::*;
use crate::text::{clone_strings, views};

verus! {

broadcast use vstd::string::group_string_axioms;

/// A registered account as stored in `users.json`.
#[derive(Debug)]
pub struct User {
    pub id: u64,
    pub username: String,
    pub password: String,
    pub email: String,
    pub name: String,
    pub role: String,
    pub avatar: String,
    pub signature: String,
    pub birthday: String,
    pub gender: String,
    pub starred_users: Vec<String>,
    pub friends: Vec<String>,
    pub title: String,
    pub subject: String,
    pub managed_nodes: Vec<String>,
    pub network_location: String,
}

/// The value of a [`User`] with its strings taken as character sequences.
pub struct UserView {
    pub id: u64,
    pub username: Seq<char>,
    pub password: Seq<char>,
    pub email: Seq<char>,
    pub name: Seq<char>,
    pub role: Seq<char>,
    pub avatar: Seq<char>,
    pub signature: Seq<char>,
    pub birthday: Seq<char>,
    pub gender: Seq<char>,
    pub starred_users: Seq<Seq<char>>,
    pub friends: Seq<Seq<char>>,
    pub title: Seq<char>,
    pub subject: Seq<char>,
    pub managed_nodes: Seq<Seq<char>>,
    pub network_location: Seq<char>,
}

impl View for User {
    type V = UserView;

    open spec fn view(&self) -> UserView {
        UserView {
            id: self.id,
            username: self.username@,
            password: self.password@,
            email: self.email@,
            name: self.name@,
            role: self.role@,
            avatar: self.avatar@,
            signature: self.signature@,
            birthday: self.birthday@,
            gender: self.gender@,
            starred_users: views(self.starred_users@),
            friends: views(self.friends@),
            title: self.title@,
            subject: self.subject@,
            managed_nodes: views(self.managed_nodes@),
            network_location: self.network_location@,
        }
    }
}

impl Clone for User {
    fn clone(&self) -> (r: Self)
        ensures
            r@ == self@,
    {
        User {
            id: self.id,
            username: self.username.clone(),
            password: self.password.clone(),
            email: self.email.clone(),
            name: self.name.clone(),
            role: self.role.clone(),
            avatar: self.avatar.clone(),
            signature: self.signature.clone(),
            birthday: self.birthday.clone(),
            gender: self.gender.clone(),
            starred_users: clone_strings(&self.starred_users),
            friends: clone_strings(&self.friends),
            title: self.title.clone(),
            subject: self.subject.clone(),
            managed_nodes: clone_strings(&self.managed_nodes),
            network_location: self.network_location.clone(),
        }
    }
}

/// What the server shows of an account: everything but the password, and an optional online flag.
#[derive(Debug)]
pub struct UserPublic {
    pub id: u64,
    pub username: String,
    pub email: String,
    pub name: String,
    pub role: String,
    pub avatar: String,
    pub signature: String,
    pub birthday: String,
    pub gender: String,
    pub starred_users: Vec<String>,
    pub friends: Vec<String>,
    pub title: String,
    pub subject: String,
    pub managed_nodes: Vec<String>,
    pub network_location: String,
    pub online: Option<bool>,
}

/// The value of a [`UserPublic`] with its strings taken as character sequences.
pub struct UserPublicView {
    pub id: u64,
    pub username: Seq<char>,
    pub email: Seq<char>,
    pub name: Seq<char>,
    pub role: Seq<char>,
    pub avatar: Seq<char>,
    pub signature: Seq<char>,
    pub birthday: Seq<char>,
    pub gender: Seq<char>,
    pub starred_users: Seq<Seq<char>>,
    pub friends: Seq<Seq<char>>,
    pub title: Seq<char>,
    pub subject: Seq<char>,
    pub managed_nodes: Seq<Seq<char>>,
    pub network_location: Seq<char>,
    pub online: Option<bool>,
}

impl View for UserPublic {
    type V = UserPublicView;

    open spec fn view(&self) -> UserPublicView {
        UserPublicView {
            id: self.id,
            username: self.username@,
            email: self.email@,
            name: self.name@,
            role: self.role@,
            avatar: self.avatar@,
            signature: self.signature@,
            birthday: self.birthday@,
            gender: self.gender@,
            starred_users: views(self.starred_users@),
            friends: views(self.friends@),
            title: self.title@,
            subject: self.subject@,
            managed_nodes: views(self.managed_nodes@),
            network_location: self.network_location@,
            online: self.online,
        }
    }
}

impl Clone for UserPublic {
    fn clone(&self) -> (r: Self)
        ensures
            r@ == self@,
    {
        UserPublic {
            id: self.id,
            username: self.username.clone(),
            email: self.email.clone(),
            name: self.name.clone(),
            role: self.role.clone(),
            avatar: self.avatar.clone(),
            signature: self.signature.clone(),
            birthday: self.birthday.clone(),
            gender: self.gender.clone(),
            starred_users: clone_strings(&self.starred_users),
            friends: clone_strings(&self.friends),
            title: self.title.clone(),
            subject: self.subject.clone(),
            managed_nodes: clone_strings(&self.managed_nodes),
            network_location: self.network_location.clone(),
            online: self.online,
        }
    }
}

/// A private, LAN or group chat message.
#[derive(Debug)]
pub struct ChatMessage {
    pub id: u64,
    pub sender: String,
    pub receiver: String,
    pub message: String,
    pub timestamp: String,
    pub read_by: Vec<String>,
    pub from: String,
    pub to: String,
    pub msg_type: String,
    pub sender_avatar: String,
}

/// The value of a [`ChatMessage`] with its strings taken as character sequences.
pub struct ChatMessageView {
    pub id: u64,
    pub sender: Seq<char>,
    pub receiver: Seq<char>,
    pub message: Seq<char>,
    pub timestamp: Seq<char>,
    pub read_by: Seq<Seq<char>>,
    pub from: Seq<char>,
    pub to: Seq<char>,
    pub msg_type: Seq<char>,
    pub sender_avatar: Seq<char>,
}

impl View for ChatMessage {
    type V = ChatMessageView;

    open spec fn view(&self) -> ChatMessageView {
        ChatMessageView {
            id: self.id,
            sender: self.sender@,
            receiver: self.receiver@,
            message: self.message@,
            timestamp: self.timestamp@,
            read_by: views(self.read_by@),
            from: self.from@,
            to: self.to@,
            msg_type: self.msg_type@,
            sender_avatar: self.sender_avatar@,
        }
    }
}

impl Clone for ChatMessage {
    fn clone(&self) -> (r: Self)
        ensures
            r@ == self@,
    {
        ChatMessage {
            id: self.id,
            sender: self.sender.clone(),
            receiver: self.receiver.clone(),
            message: self.message.clone(),
            timestamp: self.timestamp.clone(),
            read_by: clone_strings(&self.read_by),
            from: self.from.clone(),
            to: self.to.clone(),
            msg_type: self.msg_type.clone(),
            sender_avatar: self.sender_avatar.clone(),
        }
    }
}

/// A LAN group chat.
#[derive(Debug)]
pub struct Group {
    pub id: String,
    pub name: String,
    pub creator: String,
    pub members: Vec<String>,
    pub network_type: String,
    pub created_at: String,
}

/// The value of a [`Group`] with its strings taken as character sequences.
pub struct GroupView {
    pub id: Seq<char>,
    pub name: Seq<char>,
    pub creator: Seq<char>,
    pub members: Seq<Seq<char>>,
    pub network_type: Seq<char>,
    pub created_at: Seq<char>,
}

impl View for Group {
    type V = GroupView;

    open spec fn view(&self) -> GroupView {
        GroupView {
            id: self.id@,
            name: self.name@,
            creator: self.creator@,
            members: views(self.members@),
            network_type: self.network_type@,
            created_at: self.created_at@,
        }
    }
}

impl Clone for Group {
    fn clone(&self) -> (r: Self)
        ensures
            r@ == self@,
    {
        Group {
            id: self.id.clone(),
            name: self.name.clone(),
            creator: self.creator.clone(),
            members: clone_strings(&self.members),
            network_type: self.network_type.clone(),
            created_at: self.created_at.clone(),
        }
    }
}

/// Metadata of a file in a user's file list.
#[derive(Debug)]
pub struct FileMeta {
    pub name: String,
    pub size: u64,
    pub last_modified: u64,
    pub uploader: String,
    pub upload_time: String,
}

/// The value of a [`FileMeta`] with its strings taken as character sequences.
pub struct FileMetaView {
    pub name: Seq<char>,
    pub size: u64,
    pub last_modified: u64,
    pub uploader: Seq<char>,
    pub upload_time: Seq<char>,
}

impl View for FileMeta {
    type V = FileMetaView;

    open spec fn view(&self) -> FileMetaView {
        FileMetaView {
            name: self.name@,
            size: self.size,
            last_modified: self.last_modified,
            uploader: self.uploader@,
            upload_time: self.upload_time@,
        }
    }
}

impl Clone for FileMeta {
    fn clone(&self) -> (r: Self)
        ensures
            r@ == self@,
    {
        FileMeta {
            name: self.name.clone(),
            size: self.size,
            last_modified: self.last_modified,
            uploader: self.uploader.clone(),
            upload_time: self.upload_time.clone(),
        }
    }
}

/// A file held on the server until its receiver fetches it.
#[derive(Debug)]
pub struct PendingFileMeta {
    pub id: String,
    pub sender: String,
    pub receiver: String,
    pub filename: String,
    pub size: u64,
    pub expire_at: String,
    pub created_at: String,
}

/// The value of a [`PendingFileMeta`] with its strings taken as character sequences.
pub struct PendingFileMetaView {
    pub id: Seq<char>,
    pub sender: Seq<char>,
    pub receiver: Seq<char>,
    pub filename: Seq<char>,
    pub size: u64,
    pub expire_at: Seq<char>,
    pub created_at: Seq<char>,
}

impl View for PendingFileMeta {
    type V = PendingFileMetaView;

    open spec fn view(&self) -> PendingFileMetaView {
        PendingFileMetaView {
            id: self.id@,
            sender: self.sender@,
            receiver: self.receiver@,
            filename: self.filename@,
            size: self.size,
            expire_at: self.expire_at@,
            created_at: self.created_at@,
        }
    }
}

impl Clone for PendingFileMeta {
    fn clone(&self) -> (r: Self)
        ensures
            r@ == self@,
    {
        PendingFileMeta {
            id: self.id.clone(),
            sender: self.sender.clone(),
            receiver: self.receiver.clone(),
            filename: self.filename.clone(),
            size: self.size,
            expire_at: self.expire_at.clone(),
            created_at: self.created_at.clone(),
        }
    }
}

/// A friend request, kept in the receiver's request file.
#[derive(Debug)]
pub struct FriendRequest {
    pub id: u64,
    pub sender: String,
    pub receiver: String,
    pub status: String,
    pub timestamp: String,
}

/// The value of a [`FriendRequest`] with its strings taken as character sequences.
pub struct FriendRequestView {
    pub id: u64,
    pub sender: Seq<char>,
    pub receiver: Seq<char>,
    pub status: Seq<char>,
    pub timestamp: Seq<char>,
}

impl View for FriendRequest {
    type V = FriendRequestView;

    open spec fn view(&self) -> FriendRequestView {
        FriendRequestView {
            id: self.id,
            sender: self.sender@,
            receiver: self.receiver@,
            status: self.status@,
            timestamp: self.timestamp@,
        }
    }
}

impl Clone for FriendRequest {
    fn clone(&self) -> (r: Self)
        ensures
            r@ == self@,
    {
        FriendRequest {
            id: self.id,
            sender: self.sender.clone(),
            receiver: self.receiver.clone(),
            status: self.status.clone(),
            timestamp: self.timestamp.clone(),
        }
    }
}

/// An administration token issued at login.
#[derive(Debug)]
pub struct Credential {
    pub username: String,
    pub token: String,
    pub created_at: u64,
}

/// The value of a [`Credential`] with its strings taken as character sequences.
pub struct CredentialView {
    pub username: Seq<char>,
    pub token: Seq<char>,
    pub created_at: u64,
}

impl View for Credential {
    type V = CredentialView;

    open spec fn view(&self) -> CredentialView {
        CredentialView {
            username: self.username@,
            token: self.token@,
            created_at: self.created_at,
        }
    }
}

impl Clone for Credential {
    fn clone(&self) -> (r: Self)
        ensures
            r@ == self@,
    {
        Credential {
            username: self.username.clone(),
            token: self.token.clone(),
            created_at: self.created_at,
        }
    }
}

/// A notice sent to the members of some organisation nodes.
#[derive(Debug)]
pub struct Broadcast {
    pub id: String,
    pub sender_name: String,
    pub target_node_ids: Vec<String>,
    pub target_count: usize,
    pub title: String,
    pub content: String,
    pub attachments: Vec<String>,
    pub timestamp: String,
    pub read_by: Vec<String>,
}

/// The value of a [`Broadcast`] with its strings taken as character sequences.
pub struct BroadcastView {
    pub id: Seq<char>,
    pub sender_name: Seq<char>,
    pub target_node_ids: Seq<Seq<char>>,
    pub target_count: usize,
    pub title: Seq<char>,
    pub content: Seq<char>,
    pub attachments: Seq<Seq<char>>,
    pub timestamp: Seq<char>,
    pub read_by: Seq<Seq<char>>,
}

impl View for Broadcast {
    type V = BroadcastView;

    open spec fn view(&self) -> BroadcastView {
        BroadcastView {
            id: self.id@,
            sender_name: self.sender_name@,
            target_node_ids: views(self.target_node_ids@),
            target_count: self.target_count,
            title: self.title@,
            content: self.content@,
            attachments: views(self.attachments@),
            timestamp: self.timestamp@,
            read_by: views(self.read_by@),
        }
    }
}

impl Clone for Broadcast {
    fn clone(&self) -> (r: Self)
        ensures
            r@ == self@,
    {
        Broadcast {
            id: self.id.clone(),
            sender_name: self.sender_name.clone(),
            target_node_ids: clone_strings(&self.target_node_ids),
            target_count: self.target_count,
            title: self.title.clone(),
            content: self.content.clone(),
            attachments: clone_strings(&self.attachments),
            timestamp: self.timestamp.clone(),
            read_by: clone_strings(&self.read_by),
        }
    }
}

/// A role and the permissions it grants.
#[derive(Debug)]
pub struct Role {
    pub id: String,
    pub name: String,
    pub permissions: Vec<String>,
}

/// The value of a [`Role`] with its strings taken as character sequences.
pub struct RoleView {
    pub id: Seq<char>,
    pub name: Seq<char>,
    pub permissions: Seq<Seq<char>>,
}

impl View for Role {
    type V = RoleView;

    open spec fn view(&self) -> RoleView {
        RoleView {
            id: self.id@,
            name: self.name@,
            permissions: views(self.permissions@),
        }
    }
}

impl Clone for Role {
    fn clone(&self) -> (r: Self)
        ensures
            r@ == self@,
    {
        Role {
            id: self.id.clone(),
            name: self.name.clone(),
            permissions: clone_strings(&self.permissions),
        }
    }
}

/// Request counters of the current day.
#[derive(Debug)]
pub struct RequestStats {
    pub today_date: String,
    pub total_requests: u64,
    pub error_requests: u64,
    pub peak_concurrency: u64,
    pub current_concurrency: u64,
    pub data_transfer_bytes: u64,
}

/// The value of a [`RequestStats`] with its strings taken as character sequences.
pub struct RequestStatsView {
    pub today_date: Seq<char>,
    pub total_requests: u64,
    pub error_requests: u64,
    pub peak_concurrency: u64,
    pub current_concurrency: u64,
    pub data_transfer_bytes: u64,
}

impl View for RequestStats {
    type V = RequestStatsView;

    open spec fn view(&self) -> RequestStatsView {
        RequestStatsView {
            today_date: self.today_date@,
            total_requests: self.total_requests,
            error_requests: self.error_requests,
            peak_concurrency: self.peak_concurrency,
            current_concurrency: self.current_concurrency,
            data_transfer_bytes: self.data_transfer_bytes,
        }
    }
}

impl Clone for RequestStats {
    fn clone(&self) -> (r: Self)
        ensures
            r@ == self@,
    {
        RequestStats {
            today_date: self.today_date.clone(),
            total_requests: self.total_requests,
            error_requests: self.error_requests,
            peak_concurrency: self.peak_concurrency,
            current_concurrency: self.current_concurrency,
            data_transfer_bytes: self.data_transfer_bytes,
        }
    }
}

/// An organisation tree node: a school, a grade, a class and so on.
#[derive(Debug)]
pub struct OrgNode {
    pub id: String,
    pub name: String,
    pub node_type: String,
    pub children: Vec<OrgNode>,
    pub members: Vec<String>,
}

/// The value of an [`OrgNode`] with its strings taken as character sequences.
pub struct OrgNodeView {
    pub id: Seq<char>,
    pub name: Seq<char>,
    pub node_type: Seq<char>,
    pub children: Seq<OrgNodeView>,
    pub members: Seq<Seq<char>>,
}

/// The view of a node and of all nodes below it.
pub open spec fn node_view(n: OrgNode) -> OrgNodeView
    decreases n,
{
    OrgNodeView {
        id: n.id@,
        name: n.name@,
        node_type: n.node_type@,
        children: nodes_view(n.children@),
        members: views(n.members@),
    }
}

/// The views of a sequence of nodes.
pub open spec fn nodes_view(s: Seq<OrgNode>) -> Seq<OrgNodeView>
    decreases s,
{
    if s.len() == 0 {
        Seq::empty()
    } else {
        seq![node_view(s[0])] + nodes_view(s.drop_first())
    }
}

impl View for OrgNode {
    type V = OrgNodeView;

    open spec fn view(&self) -> OrgNodeView {
        node_view(*self)
    }
}

impl Clone for OrgNode {
    fn clone(&self) -> (r: Self)
        ensures
            r@ == self@,
        decreases self,
    {
        let mut children: Vec<OrgNode> = Vec::new();
        let mut i: usize = 0;
        while i < self.children.len()
            invariant
                0 <= i <= self.children@.len(),
                nodes_view(children@) == nodes_view(self.children@.take(i as int)),
            decreases self.children@.len() - i,
        {
            let c = self.children[i].clone();
            proof {
                lemma_nodes_view_push(children@, c);
                lemma_nodes_view_push(self.children@.take(i as int), self.children@[i as int]);
                assert(self.children@.take(i + 1) =~= self.children@.take(i as int).push(self.children@[i as int]));
            }
            children.push(c);
            i = i + 1;
        }
        assert(self.children@.take(self.children@.len() as int) =~= self.children@);
        OrgNode {
            id: self.id.clone(),
            name: self.name.clone(),
            node_type: self.node_type.clone(),
            children,
            members: clone_strings(&self.members),
        }
    }
}

/// Appending a node appends its view.
pub proof fn lemma_nodes_view_push(s: Seq<OrgNode>, n: OrgNode)
    ensures
        nodes_view(s.push(n)) == nodes_view(s).push(node_view(n)),
    decreases s.len(),
{
    if s.len() == 0 {
        assert(s.push(n).drop_first() =~= Seq::<OrgNode>::empty());
        assert(nodes_view(Seq::<OrgNode>::empty()) == Seq::<OrgNodeView>::empty());
        assert(nodes_view(s.push(n)) =~= seq![node_view(n)]);
        assert(nodes_view(s) =~= Seq::<OrgNodeView>::empty());
    } else {
        assert(s.push(n).drop_first() =~= s.drop_first().push(n));
        lemma_nodes_view_push(s.drop_first(), n);
        assert(nodes_view(s.push(n)) =~= nodes_view(s).push(node_view(n)));
    }
}

/// The views of a node sequence line up with the nodes one by one.
pub proof fn lemma_nodes_view_index(s: Seq<OrgNode>)
    ensures
        nodes_view(s).len() == s.len(),
        forall|i: int| 0 <= i < s.len() ==> #[trigger] nodes_view(s)[i] == node_view(s[i]),
    decreases s.len(),
{
    if s.len() > 0 {
        lemma_nodes_view_index(s.drop_first());
        assert forall|i: int| 0 <= i < s.len() implies #[trigger] nodes_view(s)[i] == node_view(s[i]) by {
            if i > 0 {
                assert(s.drop_first()[i - 1] == s[i]);
            }
        }
    }
}

/// Why a request was refused; each variant stands for one answer of the server.
#[derive(Debug, Clone, Copy, PartialEq, Eq, Structural)]
pub enum ApiError {
    EmptyUsernameOrPassword,
    WrongUsernameOrPassword,
    EmptyRegistrationFields,
    InvalidUsernameCharacters,
    UsernameTaken,
    EmailLimitReached,
    WrongPassword,
    EmptyUsername,
    WrongAdminPassword,
    UserNotFound,
    InvalidCredential,
    PermissionDenied,
    EmptyNewAccountFields,
    CannotDeleteSelf,
    EmptyBroadcastFields,
    NoBroadcastPermission,
    BroadcastScopeDenied,
    NoTargetUsers,
    BroadcastNotFound,
    EmptyMessageFields,
    SenderNotFound,
    ReceiverNotFound,
    EmptySenderOrReceiver,
    EmptyUsernameOrTarget,
    EmptyUsernameOrGroupId,
    EmptyMd5,
    InvalidParameters,
    ChunksNotFound,
    IncompleteChunks { expected: u64, actual: u64 },
    Md5Mismatch,
    EmptyFilename,
    InvalidFileList,
    EmptyUsernameOrFilename,
    FileNotFound,
    EmptyGroupNameOrCreator,
    EmptyGroupId,
    EmptyGroupMessageFields,
    NotGroupMember,
    GroupNotFound,
    EmptyGroupIdOrUsername,
    AlreadyGroupMember,
    OwnerCannotLeave,
    OnlyOwnerCanDelete,
    EmptyNodeNameOrType,
    ParentNodeNotFound,
    CannotDeleteRoot,
    NodeNotFound,
    EmptyPendingFields,
    EmptyReceiver,
    Unauthorized,
    EmptyQuery,
    AlreadyFriend,
    CurrentUserNotFound,
    TargetUserNotFound,
    NotFriend,
    SignatureTooLong,
    InvalidBirthday,
    InvalidGender,
    EmptyAvatar,
    FriendRequestAlreadySent,
    EmptyRequestFields,
    InvalidRequestAction,
    FriendRequestNotFound,
    EmptyUsernameOrToken,
    CredentialExpired,
    CredentialNotRecognised,
    NotFound,
}

/// The role list of `roles_config.json`.
#[derive(Debug)]
pub struct RoleConfig {
    pub roles: Vec<Role>,
}

impl Default for RoleConfig {
    fn default() -> (r: Self)
        ensures
            r.roles@.len() == 0,
    {
        RoleConfig { roles: Vec::new() }
    }
}

impl Default for OrgNode {
    fn default() -> (r: Self)
        ensures
            r@ == (OrgNodeView {
                id: Seq::empty(),
                name: Seq::empty(),
                node_type: Seq::empty(),
                children: Seq::empty(),
                members: Seq::empty(),
            }),
    {
        let r = OrgNode {
            id: String::new(),
            name: String::new(),
            node_type: String::new(),
            children: Vec::new(),
            members: Vec::new(),
        };
        assert(views(r.members@) =~= Seq::<Seq<char>>::empty());
        assert(nodes_view(r.children@) =~= Seq::<OrgNodeView>::empty());
        r
    }
}

/// The roles of a role configuration, each taken by its view.
pub open spec fn role_views(s: Seq<Role>) -> Seq<RoleView> {
    s.map_values(|r: Role| r@)
}

/// The elements of `s`, each taken by its view.
pub open spec fn seq_views<T: View>(s: Seq<T>) -> Seq<T::V> {
    s.map_values(|x: T| x@)
}

/// The accounts of a user list, each taken by its view.
pub open spec fn user_views(s: Seq<User>) -> Seq<UserView> {
    s.map_values(|u: User| u@)
}

/// A sample of the processor's idle and total times.
#[derive(Debug)]
pub struct CpuSnapshot {
    pub idle: u64,
    pub total: u64,
}

/// The value a missing `network_location` field takes.
pub fn default_network_location() -> (s: String)
    ensures
        s@ == "public"@,
{
    "public".to_string()
}

/// The value a missing `role` field takes.
pub fn default_role() -> (s: String)
    ensures
        s@ == "teacher"@,
{
    "teacher".to_string()
}

/// The value a missing `gender` field takes.
pub fn default_gender() -> (s: String)
    ensures
        s@ == "none"@,
{
    "none".to_string()
}

/// The public projection of an account: all but the password, with no online flag.
pub open spec fn public_of(u: UserView) -> UserPublicView {
    UserPublicView {
        id: u.id,
        username: u.username,
        email: u.email,
        name: u.name,
        role: u.role,
        avatar: u.avatar,
        signature: u.signature,
        birthday: u.birthday,
        gender: u.gender,
        starred_users: u.starred_users,
        friends: u.friends,
        title: u.title,
        subject: u.subject,
        managed_nodes: u.managed_nodes,
        network_location: u.network_location,
        online: None,
    }
}

impl From<User> for UserPublic {
    fn from(u: User) -> (p: UserPublic) {
        UserPublic {
            id: u.id,
            username: u.username,
            email: u.email,
            name: u.name,
            role: u.role,
            avatar: u.avatar,
            signature: u.signature,
            birthday: u.birthday,
            gender: u.gender,
            starred_users: u.starred_users,
            friends: u.friends,
            title: u.title,
            subject: u.subject,
            managed_nodes: u.managed_nodes,
            network_location: u.network_location,
            online: None,
        }
    }
}

impl vstd::std_specs::convert::FromSpecImpl<User> for UserPublic {
    open spec fn obeys_from_spec() -> bool {
        true
    }

    open spec fn from_spec(u: User) -> UserPublic {
        UserPublic {
            id: u.id,
            username: u.username,
            email: u.email,
            name: u.name,
            role: u.role,
            avatar: u.avatar,
            signature: u.signature,
            birthday: u.birthday,
            gender: u.gender,
            starred_users: u.starred_users,
            friends: u.friends,
            title: u.title,
            subject: u.subject,
            managed_nodes: u.managed_nodes,
            network_location: u.network_location,
            online: None,
        }
    }
}

impl UserPublic {
    /// The public projection of `u`.
    pub fn from_user(u: User) -> (p: UserPublic)
        ensures
            p@ == public_of(u@),
    {
        UserPublic::from(u)
    }
}

} // verus!
