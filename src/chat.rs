//! The chat front end's request, and the message stored for a model reply.
use vstd::prelude::*;
use crate::conversation::{ChatMessage, ChatMessageView, Timestamp};

verus! {

/// A message that a user submits to the local model.
pub struct ChatRequest {
    message: String,
    sender: String,
}

impl ChatRequest {
    pub fn new(message: String, sender: String) -> (r: ChatRequest)
        ensures
            r.message_view() == message@,
            r.sender_view() == sender@,
    {
        ChatRequest { message, sender }
    }

    pub closed spec fn message_view(&self) -> Seq<char> {
        self.message@
    }

    pub closed spec fn sender_view(&self) -> Seq<char> {
        self.sender@
    }

    /// The text submitted, which becomes the model's prompt.
    pub fn message(&self) -> (r: String)
        ensures
            r@ == self.message_view(),
    {
        self.message.clone()
    }

    /// Who submitted it.
    pub fn sender(&self) -> (r: String)
        ensures
            r@ == self.sender_view(),
    {
        self.sender.clone()
    }

    /// The message stored for the model's reply `content`, received at `now`:
    /// it carries the reply's text and the request's sender.
    pub fn reply_message(&self, content: String, now: Timestamp) -> (r: ChatMessage)
        ensures
            r@ == (ChatMessageView { content: content@, timestamp: now, sender: self.sender_view() }),
    {
        ChatMessage { content, timestamp: now, sender: self.sender.clone() }
    }
}

} // verus!
