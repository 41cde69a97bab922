//! Messages of a chat-completion request.
use vstd::prelude::*;

verus! {

/// One message of a chat: who speaks, and what is said.
pub struct ChatMessage {
    pub role: String,
    pub content: String,
}

impl ChatMessage {
    /// A message with role `system`.
    pub fn system(content: &str) -> (r: Self)
        ensures
            r.role@ == "system"@,
            r.content@ == content@,
    {
        ChatMessage { role: "system".to_owned(), content: content.to_owned() }
    }

    /// A message with role `user`.
    pub fn user(content: &str) -> (r: Self)
        ensures
            r.role@ == "user"@,
            r.content@ == content@,
    {
        ChatMessage { role: "user".to_owned(), content: content.to_owned() }
    }

    /// A message with role `assistant`.
    pub fn assistant(content: &str) -> (r: Self)
        ensures
            r.role@ == "assistant"@,
            r.content@ == content@,
    {
        ChatMessage { role: "assistant".to_owned(), content: content.to_owned() }
    }
}

} // verus!
