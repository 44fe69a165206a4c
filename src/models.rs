//! The records that the relay and its collaborators exchange: users,
//! conversations, groups, their messages, and posts.

use vstd::prelude::*;

verus! {

/// A registered user.
pub struct User {
    pub id: String,
    pub username: String,
    pub email: String,
    pub password_hash: String,
    pub created_at: i64,
    pub updated_at: i64,
    pub last_seen_at: Option<i64>,
    pub is_online: bool,
    pub interests: Option<String>,
    pub language: Option<String>,
}

/// A sign-up request.
pub struct NewUser {
    pub username: String,
    pub email: String,
    pub password: String,
    pub interests: Option<String>,
    pub language: Option<String>,
}

/// A sign-in request.
pub struct LoginRequest {
    pub email: String,
    pub password: String,
}

/// The answer to a successful sign-in.
pub struct AuthResponse {
    pub token: String,
    pub user: User,
}

/// The fields of a profile that a user asks to change.
pub struct UpdateProfileRequest {
    pub username: Option<String>,
    pub email: Option<String>,
    pub password: Option<String>,
    pub interests: Option<String>,
    pub language: Option<String>,
}

/// What others may see of a user: everything but the password hash and the
/// time of the last update.
pub struct UserProfile {
    pub id: String,
    pub username: String,
    pub email: String,
    pub created_at: i64,
    pub last_seen_at: Option<i64>,
    pub is_online: bool,
    pub interests: Option<String>,
    pub language: Option<String>,
}

/// The identifier of a user, as a path or body carries it.
pub struct UserId {
    pub id: String,
}

/// A search over users.
pub struct SearchQuery {
    pub q: String,
}

pub open spec fn same_text(a: Option<String>, b: Option<String>) -> bool {
    match (a, b) {
        (Some(x), Some(y)) => x@ == y@,
        (None, None) => true,
        _ => false,
    }
}

fn copy_text(a: &Option<String>) -> (r: Option<String>)
    ensures
        same_text(*a, r),
{
    match a {
        Some(s) => Some(s.clone()),
        None => None,
    }
}

impl User {
    /// The public profile of this user.
    pub fn to_profile(&self) -> (r: UserProfile)
        ensures
            r.id@ == self.id@,
            r.username@ == self.username@,
            r.email@ == self.email@,
            r.created_at == self.created_at,
            r.last_seen_at == self.last_seen_at,
            r.is_online == self.is_online,
            same_text(r.interests, self.interests),
            same_text(r.language, self.language),
    {
        UserProfile {
            id: self.id.clone(),
            username: self.username.clone(),
            email: self.email.clone(),
            created_at: self.created_at,
            last_seen_at: self.last_seen_at,
            is_online: self.is_online,
            interests: copy_text(&self.interests),
            language: copy_text(&self.language),
        }
    }
}

/// A one-to-one or group conversation.
pub struct Conversation {
    pub id: String,
    pub name: Option<String>,
    pub is_group: bool,
    pub created_at: i64,
    pub updated_at: i64,
    pub last_message_at: Option<i64>,
    pub participant_ids: Vec<String>,
    pub customization: Option<ConversationCustomization>,
}

/// A request to open a conversation.
pub struct NewConversation {
    pub name: Option<String>,
    pub is_group: bool,
    pub participant_ids: Vec<String>,
}

/// A conversation with its participants.
pub struct ConversationResponse {
    pub conversation: Conversation,
    pub participants: Vec<ConversationParticipant>,
}

/// One participant of a conversation.
pub struct ConversationParticipant {
    pub user_id: String,
    pub username: String,
    pub joined_at: i64,
}

/// How a conversation looks.
pub struct ConversationCustomization {
    pub background_image_url: Option<String>,
    pub primary_message_color: Option<String>,
    pub secondary_message_color: Option<String>,
    pub text_color_primary: Option<String>,
    pub text_color_secondary: Option<String>,
}

/// A page size for listing messages.
pub struct ListMessagesRequest {
    pub limit: Option<i32>,
}

/// A page size for listing messages, as a query string carries it.
pub struct ListMessagesQuery {
    pub limit: Option<i32>,
}

/// A stored message of a conversation: the relay carries serialized copies
/// of it and never changes one.
pub struct Message {
    pub id: String,
    pub conversation_id: String,
    pub sender_id: String,
    pub content: String,
    pub created_at: i64,
    pub updated_at: i64,
    pub is_edited: bool,
    pub is_deleted: bool,
}

/// The content of a message to send.
pub struct NewMessage {
    pub content: String,
}

/// The new content of an edited message.
pub struct UpdateMessage {
    pub content: String,
}

/// A message with its sender.
pub struct MessageResponse {
    pub message: Message,
    pub sender: MessageSender,
}

/// The sender of a message.
pub struct MessageSender {
    pub user_id: String,
    pub username: String,
}

/// A named group of users.
pub struct Group {
    pub id: String,
    pub name: String,
    pub created_at: i64,
    pub updated_at: i64,
    pub member_ids: Vec<String>,
    pub customization: Option<GroupCustomization>,
}

/// A request to create a group.
pub struct NewGroup {
    pub name: String,
    pub member_ids: Vec<String>,
}

/// A group with its members.
pub struct GroupResponse {
    pub group: Group,
    pub members: Vec<GroupMember>,
}

/// One member of a group.
pub struct GroupMember {
    pub user_id: String,
    pub username: String,
    pub joined_at: i64,
}

/// A request to add a member to a group.
pub struct AddMemberRequest {
    pub user_id: String,
}

/// A request to remove a member from a group.
pub struct RemoveMemberRequest {
    pub user_id: String,
}

/// A request to rename a group.
pub struct UpdateGroupRequest {
    pub name: Option<String>,
}

/// How a group looks.
pub struct GroupCustomization {
    pub background_image_url: Option<String>,
    pub primary_message_color: Option<String>,
    pub secondary_message_color: Option<String>,
    pub text_color_primary: Option<String>,
    pub text_color_secondary: Option<String>,
    pub photo_url: Option<String>,
}

/// A stored message of a group.
pub struct GroupMessage {
    pub id: String,
    pub group_id: String,
    pub sender_id: String,
    pub content: String,
    pub created_at: i64,
    pub updated_at: i64,
    pub is_edited: bool,
    pub is_deleted: bool,
}

/// The content of a group message to send.
pub struct NewGroupMessage {
    pub content: String,
}

/// A post on the board.
pub struct Post {
    pub id: String,
    pub user_id: String,
    pub title: String,
    pub content: String,
    pub code: Option<String>,
    pub language: Option<String>,
    pub tags: Option<Vec<String>>,
    pub created_at: i64,
    pub updated_at: i64,
    pub is_published: bool,
    pub likes_count: i64,
}

/// A request to write a post.
pub struct NewPost {
    pub title: String,
    pub content: String,
    pub code: Option<String>,
    pub language: Option<String>,
    pub tags: Option<Vec<String>>,
    pub is_published: Option<bool>,
}

/// The fields of a post to change.
pub struct UpdatePost {
    pub title: Option<String>,
    pub content: Option<String>,
    pub code: Option<String>,
    pub language: Option<String>,
    pub tags: Option<Vec<String>>,
    pub is_published: Option<bool>,
}

/// A post with its author.
pub struct PostResponse {
    pub post: Post,
    pub author: PostAuthor,
}

/// The author of a post.
pub struct PostAuthor {
    pub user_id: String,
    pub username: String,
}

/// A page size for listing posts.
pub struct PostQueryParams {
    pub limit: Option<i32>,
}

/// The bearer token of a connection to a conversation.
pub struct ConversationQuery {
    pub token: String,
}

/// The bearer token of a connection to a group.
pub struct GroupQuery {
    pub token: String,
}

/// The user whose presence a connection tracks.
pub struct OnlineQuery {
    pub user_id: String,
}

} // verus!
