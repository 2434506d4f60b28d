//! The calling side: what this node sends to a newly discovered peer, and
//! what it records from the peer's answer to an access request.
use vstd::prelude::*;
use vstd::utf8::encode_utf8;
use crate::codec::{Decoded, DecodedView, Message, MessageView};
use crate::handler::{same_registry, text_bytes};
use crate::registry::{capability_update, PeerRegistry};

verus! {

/// The port that peers listen on for this protocol.
pub const PEER_PORT: u16 = 7878;
/// Seconds between two rounds of connecting to discovered peers.
pub const SYNC_INTERVAL_SECS: u64 = 30;

pub open spec fn access_reason() -> Seq<u8> {
    encode_utf8("Requesting access to LLM services"@)
}

/// The name this node gives itself in an access request: its host name,
/// or `Unknown` where that could not be had.
pub open spec fn peer_name_of(host: Option<Seq<char>>) -> Seq<u8> {
    match host {
        Some(h) => encode_utf8(h),
        None => encode_utf8("Unknown"@),
    }
}

/// Relies on `hostname::get`: the name of this machine, or an error. The
/// name is read from the system, so nothing is stated of it.
#[verifier::external_body]
fn local_hostname() -> (r: Option<String>) {
    hostname::get().ok().map(|h| h.to_string_lossy().to_string())
}

/// The access request that this node sends under the name `host`.
pub fn access_request_named(host: Option<String>) -> (r: Message)
    ensures
        r@ == (MessageView::LLMAccessRequest {
            peer_name: peer_name_of(match host {
                Some(h) => Some(h@),
                None => None,
            }),
            reason: access_reason(),
        }),
{
    let peer_name = match host {
        Some(h) => text_bytes(h.as_str()),
        None => text_bytes("Unknown"),
    };
    Message::LLMAccessRequest { peer_name, reason: text_bytes("Requesting access to LLM services") }
}

/// The access request that this node sends, under this machine's host name.
pub fn access_request() -> (r: Message)
    ensures
        exists|h: Option<Seq<char>>|
            r@ == (MessageView::LLMAccessRequest {
                peer_name: #[trigger] peer_name_of(h),
                reason: access_reason(),
            }),
{
    let host = local_hostname();
    let ghost h = match &host {
        Some(s) => Some(s@),
        None => None,
    };
    let r = access_request_named(host);
    assert(r@ == (MessageView::LLMAccessRequest { peer_name: peer_name_of(h), reason: access_reason() }));
    r
}

/// What came of an access request.
#[derive(PartialEq, Eq, Structural, Clone, Copy, Debug)]
pub enum AccessOutcome {
    /// The peer granted access.
    Granted,
    /// The peer refused access.
    Refused,
    /// The peer sent something else first (its capability announcement):
    /// read again.
    Waiting,
    /// The stream ended before an answer came.
    NoResponse,
    /// The request could not be sent, or the reply could not be read.
    Failed,
}

/// Where a visit to a discovered peer stands.
#[derive(PartialEq, Eq, Structural, Clone, Copy, Debug)]
pub enum VisitState {
    /// Opening the connection.
    Connecting,
    /// Sending this node's capability announcement.
    Announcing,
    /// Waiting for the peer's own capability announcement.
    Greeting,
    /// Waiting for the answer to an access request.
    Requesting,
    /// Sending the local conversation files.
    SendingFiles,
    /// Finished, or given up.
    Done,
}

/// What the caller must do next on a visit.
#[derive(PartialEq, Eq, Debug)]
pub enum VisitStep {
    /// Send this message.
    Send { msg: Message },
    /// Read one frame and hand it back.
    Receive,
    /// Send every local conversation file, one `file_message` each.
    SendFiles,
    /// Drop the connection and go on with the next address.
    Stop,
}

pub enum VisitStepView {
    Send { msg: MessageView },
    Receive,
    SendFiles,
    Stop,
}

impl View for VisitStep {
    type V = VisitStepView;

    open spec fn view(&self) -> VisitStepView {
        match self {
            VisitStep::Send { msg } => VisitStepView::Send { msg: msg@ },
            VisitStep::Receive => VisitStepView::Receive,
            VisitStep::SendFiles => VisitStepView::SendFiles,
            VisitStep::Stop => VisitStepView::Stop,
        }
    }
}

/// `ip` has a model that this node has not been granted access to.
pub open spec fn wants_access(reg: PeerRegistry, ip: Seq<char>) -> bool {
    reg.capable@.contains(ip) && !reg.authorized@.contains(ip)
}

/// One visit of the connector to a discovered peer: connect, announce, take
/// the peer's own announcement, ask for access where the peer has a model
/// that this node may not use yet, then send the local conversation files.
pub struct Visit {
    pub state: VisitState,
    /// The peer's IP address.
    pub ip: String,
}

impl Visit {
    pub fn new(ip: String) -> (r: Visit)
        ensures
            r.state == VisitState::Connecting,
            r.ip == ip,
    {
        Visit { state: VisitState::Connecting, ip }
    }

    /// After the connection attempt: announce whether this node has a model,
    /// or give up on a peer that could not be reached.
    pub fn connected(&mut self, ok: bool, has_llm: bool) -> (r: VisitStep)
        requires
            old(self).state == VisitState::Connecting,
        ensures
            final(self).ip == old(self).ip,
            ok ==> final(self).state == VisitState::Announcing && r@ == (VisitStepView::Send {
                msg: MessageView::LLMCapability { has_llm },
            }),
            !ok ==> final(self).state == VisitState::Done && r@ == VisitStepView::Stop,
    {
        if ok {
            self.state = VisitState::Announcing;
            VisitStep::Send { msg: Message::LLMCapability { has_llm } }
        } else {
            self.state = VisitState::Done;
            VisitStep::Stop
        }
    }

    /// After the announcement was sent, or failed to be: read the peer's
    /// own announcement, which it sends first. A failed announcement ends
    /// the visit.
    pub fn announced(&mut self, sent: bool) -> (r: VisitStep)
        requires
            old(self).state == VisitState::Announcing,
        ensures
            final(self).ip == old(self).ip,
            sent ==> final(self).state == VisitState::Greeting && r@ == VisitStepView::Receive,
            !sent ==> final(self).state == VisitState::Done && r@ == VisitStepView::Stop,
    {
        if sent {
            self.state = VisitState::Greeting;
            VisitStep::Receive
        } else {
            self.state = VisitState::Done;
            VisitStep::Stop
        }
    }

    /// After reading the peer's first frame (`None` where the read failed):
    /// a capability announcement is recorded as the receiving side records
    /// one. Then this node asks for access where the peer has a model and
    /// has not granted access yet, and otherwise goes on to the files. A
    /// stream that ended or could not be read ends the visit.
    pub fn greeted(&mut self, reply: Option<Decoded>, reg: &mut PeerRegistry) -> (r: VisitStep)
        requires
            old(self).state == VisitState::Greeting,
        ensures
            final(self).ip == old(self).ip,
            final(reg).authorized@ == old(reg).authorized@,
            final(reg).endpoints@ == old(reg).endpoints@,
            match reply {
                Some(Decoded::Frame { msg, .. }) => final(reg).capable@ == match msg@ {
                    MessageView::LLMCapability { has_llm } => capability_update(
                        old(reg).capable@,
                        old(self).ip@,
                        has_llm,
                    ),
                    _ => old(reg).capable@,
                } && (wants_access(*final(reg), old(self).ip@) ==> final(self).state
                    == VisitState::Requesting && exists|h: Option<Seq<char>>|
                    r@ == (VisitStepView::Send {
                    msg: MessageView::LLMAccessRequest {
                        peer_name: #[trigger] peer_name_of(h),
                        reason: access_reason(),
                    },
                })) && (!wants_access(*final(reg), old(self).ip@) ==> final(self).state
                    == VisitState::SendingFiles && r@ == VisitStepView::SendFiles),
                _ => final(self).state == VisitState::Done && r@ == VisitStepView::Stop
                    && final(reg).capable@ == old(reg).capable@,
            },
    {
        match reply {
            Some(Decoded::Frame { msg, .. }) => {
                match msg {
                    Message::LLMCapability { has_llm } => reg.record_capability(&self.ip, has_llm),
                    _ => {},
                }
                if reg.needs_access(&self.ip) {
                    self.state = VisitState::Requesting;
                    VisitStep::Send { msg: access_request() }
                } else {
                    self.state = VisitState::SendingFiles;
                    VisitStep::SendFiles
                }
            },
            _ => {
                self.state = VisitState::Done;
                VisitStep::Stop
            },
        }
    }

    /// After reading a frame while waiting for the access answer (`None`
    /// where the request could not be sent or the stream could not be read).
    /// An access response is recorded as the receiving side records one; a
    /// capability announcement is recorded and the wait goes on, as it does
    /// after any other message. The files come next once the wait is over.
    pub fn access_answered(&mut self, reply: Option<Decoded>, reg: &mut PeerRegistry) -> (r: AccessOutcome)
        requires
            old(self).state == VisitState::Requesting,
        ensures
            final(self).ip == old(self).ip,
            final(self).state == (if r == AccessOutcome::Waiting {
                VisitState::Requesting
            } else {
                VisitState::SendingFiles
            }),
            match reply {
                None => r == AccessOutcome::Failed && same_registry(*final(reg), *old(reg)),
                Some(d) => match d@ {
                    DecodedView::Frame {
                        msg: MessageView::LLMAccessResponse { granted, llm_host, llm_port, .. },
                        ..
                    } => r == (if granted {
                        AccessOutcome::Granted
                    } else {
                        AccessOutcome::Refused
                    }) && final(reg).capable@ == old(reg).capable@ && final(reg).authorized@ == (
                    if granted {
                        old(reg).authorized@.insert(old(self).ip@)
                    } else {
                        old(reg).authorized@
                    }) && final(reg).endpoints@ == match (granted, llm_host, llm_port) {
                        (true, Some(h), Some(p)) => old(reg).endpoints@.insert(
                            old(self).ip@,
                            (h, p),
                        ),
                        _ => old(reg).endpoints@,
                    },
                    DecodedView::Frame { msg: MessageView::LLMCapability { has_llm }, .. } => r
                        == AccessOutcome::Waiting && final(reg).capable@ == capability_update(
                        old(reg).capable@,
                        old(self).ip@,
                        has_llm,
                    ) && final(reg).authorized@ == old(reg).authorized@ && final(reg).endpoints@
                        == old(reg).endpoints@,
                    DecodedView::Frame { .. } => r == AccessOutcome::Waiting && same_registry(
                        *final(reg),
                        *old(reg),
                    ),
                    DecodedView::End => r == AccessOutcome::NoResponse && same_registry(
                        *final(reg),
                        *old(reg),
                    ),
                    _ => r == AccessOutcome::Failed && same_registry(*final(reg), *old(reg)),
                },
            },
    {
        match reply {
            Some(Decoded::Frame { msg: Message::LLMCapability { has_llm }, .. }) => {
                reg.record_capability(&self.ip, has_llm);
                AccessOutcome::Waiting
            },
            Some(Decoded::Frame { msg: Message::LLMAccessResponse { granted, llm_host, llm_port, .. }, .. }) => {
                self.state = VisitState::SendingFiles;
                reg.record_access_response(&self.ip, granted, llm_host, llm_port);
                if granted {
                    AccessOutcome::Granted
                } else {
                    AccessOutcome::Refused
                }
            },
            Some(Decoded::Frame { .. }) => AccessOutcome::Waiting,
            Some(Decoded::End) => {
                self.state = VisitState::SendingFiles;
                AccessOutcome::NoResponse
            },
            _ => {
                self.state = VisitState::SendingFiles;
                AccessOutcome::Failed
            },
        }
    }

    /// After the files were sent; a file that failed to go does not stop
    /// the others.
    pub fn files_sent(&mut self)
        requires
            old(self).state == VisitState::SendingFiles,
        ensures
            final(self).ip == old(self).ip,
            final(self).state == VisitState::Done,
    {
        self.state = VisitState::Done;
    }
}

/// The message that carries one local conversation file.
pub fn file_message(name: &String, content: &String) -> (r: Message)
    ensures
        r@ == (MessageView::ConversationFile {
            name: encode_utf8(name@),
            content: encode_utf8(content@),
        }),
{
    Message::ConversationFile { name: text_bytes(name.as_str()), content: text_bytes(content.as_str()) }
}

/// Whether an answer to the model's status query shows the model available:
/// an answer came, with a success status (200 to 299).
pub fn model_available(status: Option<u16>) -> (r: bool)
    ensures
        r == match status {
            Some(s) => 200 <= s <= 299,
            None => false,
        },
{
    match status {
        Some(s) => 200 <= s && s <= 299,
        None => false,
    }
}

} // verus!
