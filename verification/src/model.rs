//! Data model of the conversation core.
//!
//! Identifiers are plain integers with a time-ordered meaning: the store
//! assigns them from a strictly increasing stamp, so a larger id was created
//! later. Timestamps are the same stamps, so creation order, id order and
//! creation-time order coincide.

use vstd::prelude::*;

verus! {

/// The role a chat message is spoken in.
#[derive(Clone, Copy, PartialEq, Eq, Structural, Debug)]
pub enum ChatRole {
    System,
    User,
    Assistant,
}

impl ChatRole {
    /// The wire name of the role.
    pub fn as_str(&self) -> (r: &'static str)
        ensures
            r@ == self.spec_str(),
    {
        match self {
            ChatRole::System => "system",
            ChatRole::User => "user",
            ChatRole::Assistant => "assistant",
        }
    }

    /// The wire name of the role, as a sequence of characters.
    pub open spec fn spec_str(&self) -> Seq<char> {
        match self {
            ChatRole::System => "system"@,
            ChatRole::User => "user"@,
            ChatRole::Assistant => "assistant"@,
        }
    }
}

/// One persisted chat message. Immutable once created.
#[derive(Debug)]
pub struct Message {
    pub id: u64,
    pub session_id: u64,
    pub role: ChatRole,
    pub content: String,
    pub created_at: u64,
    pub updated_at: u64,
}

/// One persisted conversation thread, owned by exactly one user.
#[derive(Debug)]
pub struct Session {
    pub id: u64,
    pub user_id: u64,
    pub title: Option<String>,
    pub created_at: u64,
    pub updated_at: u64,
}

/// A registered model endpoint: base URL and optional bearer credential.
#[derive(Debug)]
pub struct Provider {
    pub id: u64,
    pub user_id: u64,
    pub name: String,
    pub url: String,
    pub key: Option<String>,
}

/// A model offered by a provider; `model_id` is the remote model identifier.
#[derive(Debug)]
pub struct ProviderModel {
    pub id: u64,
    pub provider_id: u64,
    pub model_id: String,
    pub name: String,
}

/// One role/content pair as handed to the completion backend.
#[derive(Debug)]
pub struct ChatMessagePayload {
    pub role: String,
    pub content: String,
}

/// The body of one chat-completion request.
#[derive(Debug)]
pub struct ChatRequestPayload {
    pub model: String,
    pub messages: Vec<ChatMessagePayload>,
    pub stream: bool,
}

/// One item of the increment sequence a turn produces: a fragment of model
/// output, or an inline error signal that does not end the sequence.
#[derive(Debug)]
pub enum StreamItem {
    Chunk(String),
    Failure(String),
}

impl StreamItem {
    /// The text this item contributes to the accumulated assistant reply:
    /// a chunk contributes its content, an error contributes nothing.
    pub open spec fn chunk_text(&self) -> Seq<char> {
        match self {
            StreamItem::Chunk(s) => s@,
            StreamItem::Failure(_) => Seq::<char>::empty(),
        }
    }
}

/// The concatenation of all non-error increments of a sequence, in order.
pub open spec fn concat_chunks(items: Seq<StreamItem>) -> Seq<char>
    decreases items.len(),
{
    if items.len() == 0 {
        Seq::<char>::empty()
    } else {
        concat_chunks(items.drop_last()) + items.last().chunk_text()
    }
}

/// Appending one item extends the concatenation by that item's text.
pub proof fn lemma_concat_chunks_push(items: Seq<StreamItem>, item: StreamItem)
    ensures
        concat_chunks(items.push(item)) == concat_chunks(items) + item.chunk_text(),
{
    assert(items.push(item).drop_last() =~= items);
    assert(items.push(item).last() == item);
}

/// Extending a prefix by one item extends its concatenation by that item's
/// text.
pub proof fn lemma_concat_chunks_step(items: Seq<StreamItem>, i: int)
    requires
        0 <= i < items.len(),
    ensures
        concat_chunks(items.subrange(0, i + 1)) == concat_chunks(items.subrange(0, i))
            + items[i].chunk_text(),
{
    let a = items.subrange(0, i + 1);
    assert(a.drop_last() =~= items.subrange(0, i));
    assert(a.last() == items[i]);
}

/// Clones an optional string, keeping its value.
pub fn clone_opt_string(s: &Option<String>) -> (r: Option<String>)
    ensures
        r == *s,
{
    match s {
        Some(t) => Some(t.clone()),
        None => None,
    }
}

impl Clone for Message {
    fn clone(&self) -> (r: Self)
        ensures
            r == *self,
    {
        Message {
            id: self.id,
            session_id: self.session_id,
            role: self.role,
            content: self.content.clone(),
            created_at: self.created_at,
            updated_at: self.updated_at,
        }
    }
}

impl Clone for Session {
    fn clone(&self) -> (r: Self)
        ensures
            r == *self,
    {
        Session {
            id: self.id,
            user_id: self.user_id,
            title: clone_opt_string(&self.title),
            created_at: self.created_at,
            updated_at: self.updated_at,
        }
    }
}

impl Clone for Provider {
    fn clone(&self) -> (r: Self)
        ensures
            r == *self,
    {
        Provider {
            id: self.id,
            user_id: self.user_id,
            name: self.name.clone(),
            url: self.url.clone(),
            key: clone_opt_string(&self.key),
        }
    }
}

impl Clone for ProviderModel {
    fn clone(&self) -> (r: Self)
        ensures
            r == *self,
    {
        ProviderModel {
            id: self.id,
            provider_id: self.provider_id,
            model_id: self.model_id.clone(),
            name: self.name.clone(),
        }
    }
}

impl Clone for ChatMessagePayload {
    fn clone(&self) -> (r: Self)
        ensures
            r == *self,
    {
        ChatMessagePayload { role: self.role.clone(), content: self.content.clone() }
    }
}

impl Clone for StreamItem {
    fn clone(&self) -> (r: Self)
        ensures
            r == *self,
    {
        match self {
            StreamItem::Chunk(s) => StreamItem::Chunk(s.clone()),
            StreamItem::Failure(s) => StreamItem::Failure(s.clone()),
        }
    }
}

} // verus!
