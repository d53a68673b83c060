//! Per-message metadata enrichment: which lookups to make for a message's
//! attribution and permalink, and how the answers become the record's
//! metadata.
//!
//! The remote lookups themselves are performed by the shell around the
//! library; everything decided here is a pure function of the message and of
//! the answers handed back.

use vstd::prelude::*;

verus! {

/// Where a forwarded message originally came from.
#[derive(Debug, Clone)]
pub enum ForwardOrigin {
    /// A post from a channel or another chat: the origin chat and message.
    Chat { chat_id: i64, message_id: i64 },
    /// A sender hidden by privacy settings; only a display name is known.
    HiddenUser { sender_name: String },
    /// A known user.
    User { user_id: i64 },
}

/// What the enricher reads of one message.
#[derive(Debug, Clone)]
pub struct MessageInfo {
    pub chat_id: i64,
    pub message_id: i64,
    /// Seconds since the Unix epoch.
    pub date: i64,
    pub origin: Option<ForwardOrigin>,
}

/// How the sender or channel label is to be found.
#[derive(Debug, Clone)]
pub enum NamePlan {
    /// The message sits in the account's own archive chat.
    SavedMessages,
    /// Resolve the chat's display name remotely.
    LookupChat { chat_id: i64 },
    /// Resolve the user's display name remotely.
    LookupUser { user_id: i64 },
    /// Use this name as supplied, with no lookup.
    Literal { name: String },
}

/// A permalink lookup to attempt.
#[derive(Debug, Clone, PartialEq, Eq, Structural)]
pub struct LinkRequest {
    pub chat_id: i64,
    pub message_id: i64,
}

/// The lookups one message calls for.
#[derive(Debug, Clone)]
pub struct MetaPlan {
    pub name: NamePlan,
    pub link: Option<LinkRequest>,
}

/// Decide which lookups a message needs.
///
/// A message with no forward origin sitting in the account's own chat is
/// labelled `SavedMessages` with no permalink; in any other chat, the chat's
/// name is looked up and a permalink attempted.  A forward from a channel or
/// chat looks up the origin chat's name and attempts a permalink with the
/// origin ids; a forward from a hidden sender keeps the supplied name with no
/// lookup and no permalink; a forward from a user looks the user up, with no
/// permalink.
pub fn plan_meta(msg: &MessageInfo, own_chat_id: i64) -> (r: MetaPlan)
    ensures
        msg.origin is None && msg.chat_id == own_chat_id ==> r.name == NamePlan::SavedMessages
            && r.link is None,
        msg.origin is None && msg.chat_id != own_chat_id ==> r.name == (NamePlan::LookupChat {
            chat_id: msg.chat_id,
        }) && r.link == Some(
            LinkRequest { chat_id: msg.chat_id, message_id: msg.message_id },
        ),
        msg.origin matches Some(ForwardOrigin::Chat { chat_id, message_id }) ==> r.name == (
        NamePlan::LookupChat { chat_id }) && r.link == Some(
            LinkRequest { chat_id, message_id },
        ),
        msg.origin matches Some(ForwardOrigin::HiddenUser { sender_name }) ==> r.name == (
        NamePlan::Literal { name: sender_name }) && r.link is None,
        msg.origin matches Some(ForwardOrigin::User { user_id }) ==> r.name == (
        NamePlan::LookupUser { user_id }) && r.link is None,
{
    match &msg.origin {
        None => {
            if msg.chat_id == own_chat_id {
                MetaPlan { name: NamePlan::SavedMessages, link: None }
            } else {
                MetaPlan {
                    name: NamePlan::LookupChat { chat_id: msg.chat_id },
                    link: Some(
                        LinkRequest { chat_id: msg.chat_id, message_id: msg.message_id },
                    ),
                }
            }
        },
        Some(ForwardOrigin::Chat { chat_id, message_id }) => MetaPlan {
            name: NamePlan::LookupChat { chat_id: *chat_id },
            link: Some(LinkRequest { chat_id: *chat_id, message_id: *message_id }),
        },
        Some(ForwardOrigin::HiddenUser { sender_name }) => MetaPlan {
            name: NamePlan::Literal { name: sender_name.clone() },
            link: None,
        },
        Some(ForwardOrigin::User { user_id }) => MetaPlan {
            name: NamePlan::LookupUser { user_id: *user_id },
            link: None,
        },
    }
}

/// What kind of chat a chat-name lookup found.
#[derive(Debug, Clone)]
pub enum ChatKind {
    Supergroup { supergroup_id: i64 },
    BasicGroup,
    Private { user_id: i64 },
    Secret,
    Unknown,
}

/// The next step of resolving a chat's display name from its kind.
#[derive(Debug, Clone, PartialEq, Eq, Structural)]
pub enum NameLookupStep {
    /// Ask for the supergroup's active usernames.
    AskSupergroup { supergroup_id: i64 },
    /// Ask for the user's active usernames.
    AskUser { user_id: i64 },
    /// This kind of chat carries no display name.
    NoName,
    /// This kind of chat is not supported.
    Unsupported,
}

/// Decide the secondary lookup a chat's display name needs: a supergroup's
/// name comes from the supergroup, a private chat's from its user, a basic
/// group has none, and secret or unknown chats are unsupported.
pub fn chat_name_step(kind: &ChatKind) -> (r: NameLookupStep)
    ensures
        *kind matches ChatKind::Supergroup { supergroup_id } ==> r == (
        NameLookupStep::AskSupergroup { supergroup_id }),
        *kind is BasicGroup ==> r == NameLookupStep::NoName,
        *kind matches ChatKind::Private { user_id } ==> r == (NameLookupStep::AskUser { user_id }),
        *kind is Secret ==> r == NameLookupStep::Unsupported,
        *kind is Unknown ==> r == NameLookupStep::Unsupported,
{
    match kind {
        ChatKind::Supergroup { supergroup_id } => NameLookupStep::AskSupergroup {
            supergroup_id: *supergroup_id,
        },
        ChatKind::BasicGroup => NameLookupStep::NoName,
        ChatKind::Private { user_id } => NameLookupStep::AskUser { user_id: *user_id },
        ChatKind::Secret => NameLookupStep::Unsupported,
        ChatKind::Unknown => NameLookupStep::Unsupported,
    }
}

/// The first of an entity's active usernames, or `None` when the entity
/// carries no username record at all.
pub fn first_active_username(names: &Option<Vec<String>>) -> (r: Option<String>)
    requires
        *names matches Some(v) ==> v.len() > 0,
    ensures
        *names is None ==> r is None,
        *names matches Some(v) ==> r == Some(v[0]),
{
    match names {
        None => None,
        Some(v) => Some(v[0].clone()),
    }
}

/// The resolved label for a record: the fixed label for the archive chat, the
/// literal name of a hidden sender, or whatever a lookup handed back — a
/// failed lookup (`None`) simply leaves the label out.
pub fn resolve_name(plan: &NamePlan, lookup: Option<String>) -> (r: Option<String>)
    ensures
        *plan is SavedMessages ==> (r matches Some(n) && n@ == "SavedMessages"@),
        *plan matches NamePlan::Literal { name } ==> r == Some(name),
        *plan is LookupChat ==> r == lookup,
        *plan is LookupUser ==> r == lookup,
{
    match plan {
        NamePlan::SavedMessages => Some(String::from_str("SavedMessages")),
        NamePlan::Literal { name } => Some(name.clone()),
        NamePlan::LookupChat { .. } => lookup,
        NamePlan::LookupUser { .. } => lookup,
    }
}

} // verus!
