//! The receiving side of a peer connection: it announces this node's
//! capability, then reads one message at a time and decides what to do.
use vstd::prelude::*;
use vstd::utf8::encode_utf8;
use crate::codec::{copy_range, Decoded, DecodedView, Message, MessageView};
use crate::registry::{capability_update, PeerRegistry};

verus! {

/// The port that this node's language model service listens on, handed to
/// peers that are granted access.
pub const MODEL_PORT: i32 = 11434;

pub open spec fn granted_note() -> Seq<u8> {
    encode_utf8("Access granted automatically"@)
}

pub open spec fn refused_note() -> Seq<u8> {
    encode_utf8("This peer does not have LLM capability"@)
}

/// The answer to an access request, given whether this node has a model
/// and the host name under which the peer reached it.
pub open spec fn access_reply(has_llm: bool, local_host: Seq<char>) -> MessageView {
    if has_llm {
        MessageView::LLMAccessResponse {
            granted: true,
            message: granted_note(),
            llm_host: Some(encode_utf8(local_host)),
            llm_port: Some(MODEL_PORT),
        }
    } else {
        MessageView::LLMAccessResponse {
            granted: false,
            message: refused_note(),
            llm_host: None,
            llm_port: None,
        }
    }
}

/// Where a connection stands.
#[derive(PartialEq, Eq, Structural, Clone, Copy, Debug)]
pub enum HandlerState {
    /// Accepted; the capability announcement is not sent yet.
    Greeting,
    /// Reading messages.
    Receiving,
    /// The peer closed the stream at a frame boundary.
    Closed,
    /// A frame could not be read; the connection is dropped.
    Errored,
}

/// What the caller must do after a message was handled.
#[derive(PartialEq, Eq, Debug)]
pub enum Action {
    /// Nothing beyond what the registry already recorded.
    Idle,
    /// Send this message back.
    Reply { msg: Message },
    /// Write `content` to the received-files area under `name`.
    StoreFile { name: Vec<u8>, content: Vec<u8> },
    /// Send a `SyncResponse` with every conversation of the store.
    SendSnapshot,
    /// Write each conversation of this JSON array to the received-files area.
    SaveConversations { payload: Vec<u8> },
    /// Release the connection: the peer is done.
    Close,
    /// Release the connection: the stream could not be read.
    Fail,
}

pub enum ActionView {
    Idle,
    Reply { msg: MessageView },
    StoreFile { name: Seq<u8>, content: Seq<u8> },
    SendSnapshot,
    SaveConversations { payload: Seq<u8> },
    Close,
    Fail,
}

impl View for Action {
    type V = ActionView;

    open spec fn view(&self) -> ActionView {
        match self {
            Action::Idle => ActionView::Idle,
            Action::Reply { msg } => ActionView::Reply { msg: msg@ },
            Action::StoreFile { name, content } => ActionView::StoreFile {
                name: name@,
                content: content@,
            },
            Action::SendSnapshot => ActionView::SendSnapshot,
            Action::SaveConversations { payload } => ActionView::SaveConversations {
                payload: payload@,
            },
            Action::Close => ActionView::Close,
            Action::Fail => ActionView::Fail,
        }
    }
}

/// The registry holds the same peers in `a` and `b`.
pub open spec fn same_registry(a: PeerRegistry, b: PeerRegistry) -> bool {
    a.capable@ == b.capable@ && a.authorized@ == b.authorized@ && a.endpoints@ == b.endpoints@
}

/// The message that announces whether this node has a language model.
pub fn announcement(has_llm: bool) -> (r: Message)
    ensures
        r@ == (MessageView::LLMCapability { has_llm }),
{
    Message::LLMCapability { has_llm }
}

/// The bytes of `s`.
pub fn text_bytes(s: &str) -> (r: Vec<u8>)
    ensures
        r@ == encode_utf8(s@),
{
    let b = s.as_bytes();
    copy_range(b, 0, b.len())
}

/// The answer to an access request.
pub fn access_reply_message(has_llm: bool, local_host: &String) -> (r: Message)
    ensures
        r@ == access_reply(has_llm, local_host@),
{
    if has_llm {
        Message::LLMAccessResponse {
            granted: true,
            message: text_bytes("Access granted automatically"),
            llm_host: Some(text_bytes(local_host.as_str())),
            llm_port: Some(MODEL_PORT),
        }
    } else {
        Message::LLMAccessResponse {
            granted: false,
            message: text_bytes("This peer does not have LLM capability"),
            llm_host: None,
            llm_port: None,
        }
    }
}

/// One accepted connection from a peer.
pub struct Connection {
    pub state: HandlerState,
    /// Whether this node's model answered when the connection was accepted.
    pub has_llm: bool,
    /// The peer's IP address.
    pub peer_ip: String,
    /// The host name of this node's end of the connection.
    pub local_host: String,
}

impl Connection {
    pub fn new(has_llm: bool, peer_ip: String, local_host: String) -> (r: Connection)
        ensures
            r.state == HandlerState::Greeting,
            r.has_llm == has_llm,
            r.peer_ip == peer_ip,
            r.local_host == local_host,
    {
        Connection { state: HandlerState::Greeting, has_llm, peer_ip, local_host }
    }

    /// The capability announcement, sent before anything is read.
    pub fn greet(&mut self) -> (r: Message)
        requires
            old(self).state == HandlerState::Greeting,
        ensures
            final(self).state == HandlerState::Receiving,
            final(self).has_llm == old(self).has_llm,
            final(self).peer_ip == old(self).peer_ip,
            final(self).local_host == old(self).local_host,
            r@ == (MessageView::LLMCapability { has_llm: old(self).has_llm }),
    {
        self.state = HandlerState::Receiving;
        announcement(self.has_llm)
    }

    /// Handles what one read of the stream gave.
    pub fn step(&mut self, received: Decoded, reg: &mut PeerRegistry) -> (r: Action)
        requires
            old(self).state == HandlerState::Receiving,
        ensures
            final(self).has_llm == old(self).has_llm,
            final(self).peer_ip == old(self).peer_ip,
            final(self).local_host == old(self).local_host,
            match received@ {
                DecodedView::End => final(self).state == HandlerState::Closed && r@
                    == ActionView::Close && same_registry(*final(reg), *old(reg)),
                DecodedView::Truncated | DecodedView::Malformed => final(self).state
                    == HandlerState::Errored && r@ == ActionView::Fail && same_registry(
                    *final(reg),
                    *old(reg),
                ),
                DecodedView::Frame { msg, .. } => final(self).state == HandlerState::Receiving
                    && match msg {
                    MessageView::ConversationFile { name, content } => r@ == (ActionView::StoreFile {
                        name,
                        content,
                    }) && same_registry(*final(reg), *old(reg)),
                    MessageView::SyncRequest => r@ == ActionView::SendSnapshot && same_registry(
                        *final(reg),
                        *old(reg),
                    ),
                    MessageView::SyncResponse { payload } => r@
                        == (ActionView::SaveConversations { payload }) && same_registry(
                        *final(reg),
                        *old(reg),
                    ),
                    MessageView::LLMCapability { has_llm } => r@ == ActionView::Idle
                        && final(reg).capable@ == capability_update(
                        old(reg).capable@,
                        old(self).peer_ip@,
                        has_llm,
                    ) && final(reg).authorized@ == old(reg).authorized@ && final(reg).endpoints@
                        == old(reg).endpoints@,
                    MessageView::LLMAccessRequest { .. } => r@ == (ActionView::Reply {
                        msg: access_reply(old(self).has_llm, old(self).local_host@),
                    }) && final(reg).capable@ == old(reg).capable@ && final(reg).authorized@ == (
                    if old(self).has_llm {
                        old(reg).authorized@.insert(old(self).peer_ip@)
                    } else {
                        old(reg).authorized@
                    }) && final(reg).endpoints@ == old(reg).endpoints@,
                    MessageView::LLMAccessResponse { granted, llm_host, llm_port, .. } => r@
                        == ActionView::Idle && final(reg).capable@ == old(reg).capable@
                        && final(reg).authorized@ == (if granted {
                        old(reg).authorized@.insert(old(self).peer_ip@)
                    } else {
                        old(reg).authorized@
                    }) && final(reg).endpoints@ == match (granted, llm_host, llm_port) {
                        (true, Some(h), Some(p)) => old(reg).endpoints@.insert(
                            old(self).peer_ip@,
                            (h, p),
                        ),
                        _ => old(reg).endpoints@,
                    },
                },
            },
    {
        match received {
            Decoded::End => {
                self.state = HandlerState::Closed;
                Action::Close
            },
            Decoded::Truncated | Decoded::Malformed => {
                self.state = HandlerState::Errored;
                Action::Fail
            },
            Decoded::Frame { msg, .. } => match msg {
                Message::ConversationFile { name, content } => Action::StoreFile { name, content },
                Message::SyncRequest => Action::SendSnapshot,
                Message::SyncResponse { payload } => Action::SaveConversations { payload },
                Message::LLMCapability { has_llm } => {
                    reg.record_capability(&self.peer_ip, has_llm);
                    Action::Idle
                },
                Message::LLMAccessRequest { .. } => {
                    let reply = access_reply_message(self.has_llm, &self.local_host);
                    if self.has_llm {
                        reg.authorized.insert(self.peer_ip.clone());
                    }
                    Action::Reply { msg: reply }
                },
                Message::LLMAccessResponse { granted, llm_host, llm_port, .. } => {
                    reg.record_access_response(&self.peer_ip, granted, llm_host, llm_port);
                    Action::Idle
                },
            },
        }
    }
}

} // verus!
