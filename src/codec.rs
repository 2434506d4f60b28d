//! The peer wire format: a five-byte ASCII tag, an eight-byte little-endian
//! payload length, then the payload.
use vstd::prelude::*;
use crate::decimal::{i32_text, parse_i32_spec, push_i32_text, parse_i32, lemma_i32_text_parses};

verus! {

/// The separator between fields of a payload (`|`).
pub const BAR: u8 = 124;
/// Length of a frame's tag.
pub const TAG_LEN: usize = 5;
/// Length of a frame's tag and length field together.
pub const HEADER_LEN: usize = 13;

/// A message of the peer protocol. Text fields hold the raw bytes sent on
/// the wire (UTF-8 for well-behaved peers).
#[derive(PartialEq, Eq, Debug)]
pub enum Message {
    ConversationFile { name: Vec<u8>, content: Vec<u8> },
    SyncRequest,
    /// A JSON array of conversations.
    SyncResponse { payload: Vec<u8> },
    LLMCapability { has_llm: bool },
    LLMAccessRequest { peer_name: Vec<u8>, reason: Vec<u8> },
    LLMAccessResponse {
        granted: bool,
        message: Vec<u8>,
        llm_host: Option<Vec<u8>>,
        llm_port: Option<i32>,
    },
}

pub enum MessageView {
    ConversationFile { name: Seq<u8>, content: Seq<u8> },
    SyncRequest,
    SyncResponse { payload: Seq<u8> },
    LLMCapability { has_llm: bool },
    LLMAccessRequest { peer_name: Seq<u8>, reason: Seq<u8> },
    LLMAccessResponse {
        granted: bool,
        message: Seq<u8>,
        llm_host: Option<Seq<u8>>,
        llm_port: Option<i32>,
    },
}

pub open spec fn opt_view(o: Option<Vec<u8>>) -> Option<Seq<u8>> {
    match o {
        Some(v) => Some(v@),
        None => None,
    }
}

impl View for Message {
    type V = MessageView;

    open spec fn view(&self) -> MessageView {
        match self {
            Message::ConversationFile { name, content } => MessageView::ConversationFile {
                name: name@,
                content: content@,
            },
            Message::SyncRequest => MessageView::SyncRequest,
            Message::SyncResponse { payload } => MessageView::SyncResponse { payload: payload@ },
            Message::LLMCapability { has_llm } => MessageView::LLMCapability { has_llm: *has_llm },
            Message::LLMAccessRequest { peer_name, reason } => MessageView::LLMAccessRequest {
                peer_name: peer_name@,
                reason: reason@,
            },
            Message::LLMAccessResponse { granted, message, llm_host, llm_port } =>
                MessageView::LLMAccessResponse {
                granted: *granted,
                message: message@,
                llm_host: opt_view(*llm_host),
                llm_port: *llm_port,
            },
        }
    }
}

/// The six kinds of frame, one per tag.
#[derive(PartialEq, Eq, Structural, Clone, Copy, Debug)]
pub enum Tag {
    File,
    Sync,
    Resp,
    Capability,
    AccessRequest,
    AccessResponse,
}

pub open spec fn tag_text(t: Tag) -> Seq<u8> {
    match t {
        Tag::File => seq![70u8, 73, 76, 69, 58], // FILE:
        Tag::Sync => seq![83u8, 89, 78, 67, 58], // SYNC:
        Tag::Resp => seq![82u8, 69, 83, 80, 58], // RESP:
        Tag::Capability => seq![76u8, 76, 77, 67, 58], // LLMC:
        Tag::AccessRequest => seq![76u8, 82, 69, 81, 58], // LREQ:
        Tag::AccessResponse => seq![76u8, 82, 69, 83, 58], // LRES:
    }
}

/// The kind of frame that the five bytes `t` announce, if any.
pub open spec fn tag_of_text(t: Seq<u8>) -> Option<Tag> {
    if t == tag_text(Tag::File) {
        Some(Tag::File)
    } else if t == tag_text(Tag::Sync) {
        Some(Tag::Sync)
    } else if t == tag_text(Tag::Resp) {
        Some(Tag::Resp)
    } else if t == tag_text(Tag::Capability) {
        Some(Tag::Capability)
    } else if t == tag_text(Tag::AccessRequest) {
        Some(Tag::AccessRequest)
    } else if t == tag_text(Tag::AccessResponse) {
        Some(Tag::AccessResponse)
    } else {
        None
    }
}

pub open spec fn tag_of_message(m: MessageView) -> Tag {
    match m {
        MessageView::ConversationFile { .. } => Tag::File,
        MessageView::SyncRequest => Tag::Sync,
        MessageView::SyncResponse { .. } => Tag::Resp,
        MessageView::LLMCapability { .. } => Tag::Capability,
        MessageView::LLMAccessRequest { .. } => Tag::AccessRequest,
        MessageView::LLMAccessResponse { .. } => Tag::AccessResponse,
    }
}

pub open spec fn true_text() -> Seq<u8> {
    seq![116u8, 114, 117, 101] // true
}

pub open spec fn false_text() -> Seq<u8> {
    seq![102u8, 97, 108, 115, 101] // false
}

pub open spec fn bool_text(b: bool) -> Seq<u8> {
    if b { true_text() } else { false_text() }
}

pub open spec fn host_text(h: Option<Seq<u8>>) -> Seq<u8> {
    match h {
        Some(s) => s,
        None => Seq::empty(),
    }
}

pub open spec fn port_text(p: Option<i32>) -> Seq<u8> {
    match p {
        Some(v) => i32_text(v),
        None => Seq::empty(),
    }
}

/// `a`, a bar, then `b`.
pub open spec fn joined(a: Seq<u8>, b: Seq<u8>) -> Seq<u8> {
    a.push(BAR) + b
}

/// The payload that a message is sent with.
pub open spec fn payload_of(m: MessageView) -> Seq<u8> {
    match m {
        MessageView::ConversationFile { name, content } => joined(name, content),
        MessageView::SyncRequest => Seq::empty(),
        MessageView::SyncResponse { payload } => payload,
        MessageView::LLMCapability { has_llm } => bool_text(has_llm),
        MessageView::LLMAccessRequest { peer_name, reason } => joined(peer_name, reason),
        MessageView::LLMAccessResponse { granted, message, llm_host, llm_port } => joined(
            bool_text(granted),
            joined(message, joined(host_text(llm_host), port_text(llm_port))),
        ),
    }
}

/// The eight little-endian bytes of `n`.
pub open spec fn le_bytes(n: u64) -> Seq<u8> {
    seq![
        (n & 0xff) as u8,
        ((n >> 8u64) & 0xff) as u8,
        ((n >> 16u64) & 0xff) as u8,
        ((n >> 24u64) & 0xff) as u8,
        ((n >> 32u64) & 0xff) as u8,
        ((n >> 40u64) & 0xff) as u8,
        ((n >> 48u64) & 0xff) as u8,
        ((n >> 56u64) & 0xff) as u8,
    ]
}

/// The number that eight little-endian bytes `b` stand for.
pub open spec fn le_value(b: Seq<u8>) -> u64 {
    (b[0] as u64) | ((b[1] as u64) << 8u64) | ((b[2] as u64) << 16u64) | ((b[3] as u64) << 24u64)
        | ((b[4] as u64) << 32u64) | ((b[5] as u64) << 40u64) | ((b[6] as u64) << 48u64) | ((
    b[7] as u64) << 56u64)
}

/// The bytes that a message is sent as.
pub open spec fn frame_of(m: MessageView) -> Seq<u8> {
    tag_text(tag_of_message(m)) + le_bytes(payload_of(m).len() as u64) + payload_of(m)
}

/// `i` is the position of the first bar in `s`.
pub open spec fn first_bar_at(s: Seq<u8>, i: int) -> bool {
    0 <= i < s.len() && s[i] == BAR && forall|j: int| 0 <= j < i ==> s[j] != BAR
}

pub open spec fn has_bar(s: Seq<u8>) -> bool {
    exists|i: int| first_bar_at(s, i)
}

pub open spec fn bar_free(s: Seq<u8>) -> bool {
    forall|i: int| 0 <= i < s.len() ==> s[i] != BAR
}

/// `s` cut at its first bar: what stands before it and what stands after it.
pub open spec fn split_bar(s: Seq<u8>) -> Option<(Seq<u8>, Seq<u8>)> {
    if has_bar(s) {
        let i = choose|i: int| first_bar_at(s, i);
        Some((s.subrange(0, i), s.subrange(i + 1, s.len() as int)))
    } else {
        None
    }
}

/// The four fields of an access response payload, where it has exactly four.
pub open spec fn response_fields(p: Seq<u8>) -> Option<(Seq<u8>, Seq<u8>, Seq<u8>, Seq<u8>)> {
    match split_bar(p) {
        None => None,
        Some((g, r1)) => match split_bar(r1) {
            None => None,
            Some((msg, r2)) => match split_bar(r2) {
                None => None,
                Some((host, port)) => if has_bar(port) {
                    None
                } else {
                    Some((g, msg, host, port))
                },
            },
        },
    }
}

/// The truth value that `p` spells, if it spells one.
pub open spec fn bool_of_text(p: Seq<u8>) -> Option<bool> {
    if p == true_text() {
        Some(true)
    } else if p == false_text() {
        Some(false)
    } else {
        None
    }
}

/// The port field of an access response: empty for no port, otherwise a
/// number that must parse. `None` where it does not parse; `Some(None)`
/// where it is empty.
pub open spec fn port_of_text(p: Seq<u8>) -> Option<Option<i32>> {
    if p.len() == 0 {
        Some(None)
    } else {
        match parse_i32_spec(p) {
            Some(v) => Some(Some(v)),
            None => None,
        }
    }
}

/// The message that a payload under tag `t` stands for, if it is well formed.
pub open spec fn parse_payload(t: Tag, p: Seq<u8>) -> Option<MessageView> {
    match t {
        Tag::File => match split_bar(p) {
            Some((name, content)) => Some(MessageView::ConversationFile { name, content }),
            None => None,
        },
        Tag::Sync => if p.len() == 0 {
            Some(MessageView::SyncRequest)
        } else {
            None
        },
        Tag::Resp => Some(MessageView::SyncResponse { payload: p }),
        Tag::Capability => match bool_of_text(p) {
            Some(has_llm) => Some(MessageView::LLMCapability { has_llm }),
            None => None,
        },
        Tag::AccessRequest => match split_bar(p) {
            Some((peer_name, reason)) => Some(MessageView::LLMAccessRequest { peer_name, reason }),
            None => None,
        },
        Tag::AccessResponse => match response_fields(p) {
            Some((g, message, host, port)) => match (bool_of_text(g), port_of_text(port)) {
                (Some(granted), Some(llm_port)) => Some(
                    MessageView::LLMAccessResponse {
                        granted,
                        message,
                        llm_host: if host.len() == 0 { None } else { Some(host) },
                        llm_port,
                    },
                ),
                _ => None,
            },
            None => None,
        },
    }
}

pub enum DecodedView {
    /// The stream ended at a frame boundary.
    End,
    /// The stream ended inside a frame.
    Truncated,
    /// An unknown tag, or a payload that does not split or parse.
    Malformed,
    /// A message, and the number of bytes that its frame took.
    Frame { msg: MessageView, used: nat },
}

/// What reading one frame from the start of `b` gives.
pub open spec fn decode_of(b: Seq<u8>) -> DecodedView {
    if b.len() == 0 {
        DecodedView::End
    } else if b.len() < HEADER_LEN {
        DecodedView::Truncated
    } else {
        let len = le_value(b.subrange(TAG_LEN as int, HEADER_LEN as int));
        if b.len() - HEADER_LEN < len {
            DecodedView::Truncated
        } else {
            let used = HEADER_LEN + len;
            match tag_of_text(b.subrange(0, TAG_LEN as int)) {
                None => DecodedView::Malformed,
                Some(t) => match parse_payload(t, b.subrange(HEADER_LEN as int, used as int)) {
                    None => DecodedView::Malformed,
                    Some(msg) => DecodedView::Frame { msg, used: used as nat },
                },
            }
        }
    }
}

/// The outcome of reading one frame.
#[derive(PartialEq, Eq, Debug)]
pub enum Decoded {
    End,
    Truncated,
    Malformed,
    Frame { msg: Message, used: usize },
}

impl View for Decoded {
    type V = DecodedView;

    open spec fn view(&self) -> DecodedView {
        match self {
            Decoded::End => DecodedView::End,
            Decoded::Truncated => DecodedView::Truncated,
            Decoded::Malformed => DecodedView::Malformed,
            Decoded::Frame { msg, used } => DecodedView::Frame { msg: msg@, used: *used as nat },
        }
    }
}


fn push_all(out: &mut Vec<u8>, s: &[u8])
    ensures
        final(out)@ == old(out)@ + s@,
{
    let mut i: usize = 0;
    while i < s.len()
        invariant
            i <= s.len(),
            out@ == old(out)@ + s@.subrange(0, i as int),
        decreases s.len() - i,
    {
        out.push(s[i]);
        i = i + 1;
        assert(out@ =~= old(out)@ + s@.subrange(0, i as int));
    }
    assert(s@.subrange(0, s.len() as int) =~= s@);
}

pub(crate) fn copy_range(s: &[u8], lo: usize, hi: usize) -> (r: Vec<u8>)
    requires
        lo <= hi <= s.len(),
    ensures
        r@ == s@.subrange(lo as int, hi as int),
{
    let mut r: Vec<u8> = Vec::new();
    let mut i: usize = lo;
    while i < hi
        invariant
            lo <= i <= hi <= s.len(),
            r@ == s@.subrange(lo as int, i as int),
        decreases hi - i,
    {
        r.push(s[i]);
        i = i + 1;
        assert(r@ =~= s@.subrange(lo as int, i as int));
    }
    r
}

fn push_tag(out: &mut Vec<u8>, t: Tag)
    ensures
        final(out)@ == old(out)@ + tag_text(t),
{
    let (a, b, c, d): (u8, u8, u8, u8) = match t {
        Tag::File => (70, 73, 76, 69),
        Tag::Sync => (83, 89, 78, 67),
        Tag::Resp => (82, 69, 83, 80),
        Tag::Capability => (76, 76, 77, 67),
        Tag::AccessRequest => (76, 82, 69, 81),
        Tag::AccessResponse => (76, 82, 69, 83),
    };
    out.push(a);
    out.push(b);
    out.push(c);
    out.push(d);
    out.push(58u8);
    assert(final(out)@ =~= old(out)@ + tag_text(t));
}

fn push_bool_text(out: &mut Vec<u8>, b: bool)
    ensures
        final(out)@ == old(out)@ + bool_text(b),
{
    if b {
        out.push(116u8);
        out.push(114u8);
        out.push(117u8);
        out.push(101u8);
    } else {
        out.push(102u8);
        out.push(97u8);
        out.push(108u8);
        out.push(115u8);
        out.push(101u8);
    }
    assert(final(out)@ =~= old(out)@ + bool_text(b));
}

fn push_le_bytes(out: &mut Vec<u8>, n: u64)
    ensures
        final(out)@ == old(out)@ + le_bytes(n),
{
    out.push((n & 0xff) as u8);
    out.push(((n >> 8u64) & 0xff) as u8);
    out.push(((n >> 16u64) & 0xff) as u8);
    out.push(((n >> 24u64) & 0xff) as u8);
    out.push(((n >> 32u64) & 0xff) as u8);
    out.push(((n >> 40u64) & 0xff) as u8);
    out.push(((n >> 48u64) & 0xff) as u8);
    out.push(((n >> 56u64) & 0xff) as u8);
    assert(final(out)@ =~= old(out)@ + le_bytes(n));
}

fn message_tag(m: &Message) -> (t: Tag)
    ensures
        t == tag_of_message(m@),
{
    match m {
        Message::ConversationFile { .. } => Tag::File,
        Message::SyncRequest => Tag::Sync,
        Message::SyncResponse { .. } => Tag::Resp,
        Message::LLMCapability { .. } => Tag::Capability,
        Message::LLMAccessRequest { .. } => Tag::AccessRequest,
        Message::LLMAccessResponse { .. } => Tag::AccessResponse,
    }
}

fn push_joined(out: &mut Vec<u8>, a: &[u8], b: &[u8])
    ensures
        final(out)@ == old(out)@ + joined(a@, b@),
{
    push_all(out, a);
    out.push(BAR);
    push_all(out, b);
    assert(final(out)@ =~= old(out)@ + joined(a@, b@));
}

/// The payload that `m` is sent with.
pub fn payload(m: &Message) -> (r: Vec<u8>)
    ensures
        r@ == payload_of(m@),
{
    let mut out: Vec<u8> = Vec::new();
    match m {
        Message::ConversationFile { name, content } => {
            push_joined(&mut out, name.as_slice(), content.as_slice());
        },
        Message::SyncRequest => {},
        Message::SyncResponse { payload } => {
            push_all(&mut out, payload.as_slice());
        },
        Message::LLMCapability { has_llm } => {
            push_bool_text(&mut out, *has_llm);
        },
        Message::LLMAccessRequest { peer_name, reason } => {
            push_joined(&mut out, peer_name.as_slice(), reason.as_slice());
        },
        Message::LLMAccessResponse { granted, message, llm_host, llm_port } => {
            push_bool_text(&mut out, *granted);
            out.push(BAR);
            push_all(&mut out, message.as_slice());
            out.push(BAR);
            match llm_host {
                Some(h) => push_all(&mut out, h.as_slice()),
                None => {},
            }
            out.push(BAR);
            match llm_port {
                Some(p) => push_i32_text(*p, &mut out),
                None => {},
            }
            assert(out@ =~= payload_of(m@));
        },
    }
    assert(out@ =~= payload_of(m@));
    out
}

/// The frame that `m` is sent as: its tag, its payload's length, its payload.
pub fn encode(m: &Message) -> (r: Vec<u8>)
    ensures
        r@ == frame_of(m@),
{
    let p = payload(m);
    let mut out: Vec<u8> = Vec::new();
    push_tag(&mut out, message_tag(m));
    push_le_bytes(&mut out, p.len() as u64);
    push_all(&mut out, p.as_slice());
    assert(out@ =~= frame_of(m@));
    out
}

/// The payload length that a frame header declares.
pub fn declared_length(header: &[u8]) -> (r: u64)
    requires
        header.len() >= HEADER_LEN,
    ensures
        r == le_value(header@.subrange(TAG_LEN as int, HEADER_LEN as int)),
{
    (header[5] as u64) | ((header[6] as u64) << 8u64) | ((header[7] as u64) << 16u64) | ((
    header[8] as u64) << 24u64) | ((header[9] as u64) << 32u64) | ((header[10] as u64) << 40u64)
        | ((header[11] as u64) << 48u64) | ((header[12] as u64) << 56u64)
}

fn tag_at_start(b: &[u8]) -> (r: Option<Tag>)
    requires
        b.len() >= TAG_LEN,
    ensures
        r == tag_of_text(b@.subrange(0, TAG_LEN as int)),
{
    let ghost t = b@.subrange(0, TAG_LEN as int);
    assert(t[0] == b[0] && t[1] == b[1] && t[2] == b[2] && t[3] == b[3] && t[4] == b[4]);
    if b[4] != 58u8 {
        return None;
    }
    let r = if b[0] == 70 && b[1] == 73 && b[2] == 76 && b[3] == 69 {
        Some(Tag::File)
    } else if b[0] == 83 && b[1] == 89 && b[2] == 78 && b[3] == 67 {
        Some(Tag::Sync)
    } else if b[0] == 82 && b[1] == 69 && b[2] == 83 && b[3] == 80 {
        Some(Tag::Resp)
    } else if b[0] == 76 && b[1] == 76 && b[2] == 77 && b[3] == 67 {
        Some(Tag::Capability)
    } else if b[0] == 76 && b[1] == 82 && b[2] == 69 && b[3] == 81 {
        Some(Tag::AccessRequest)
    } else if b[0] == 76 && b[1] == 82 && b[2] == 69 && b[3] == 83 {
        Some(Tag::AccessResponse)
    } else {
        None
    };
    proof {
        match r {
            Some(k) => {
                assert(t =~= tag_text(k));
            },
            None => {},
        }
    }
    r
}

fn find_bar(s: &[u8]) -> (r: Option<usize>)
    ensures
        match r {
            Some(i) => first_bar_at(s@, i as int),
            None => bar_free(s@),
        },
{
    let mut i: usize = 0;
    while i < s.len()
        invariant
            i <= s.len(),
            forall|j: int| 0 <= j < i ==> s@[j] != BAR,
        decreases s.len() - i,
    {
        if s[i] == BAR {
            return Some(i);
        }
        i = i + 1;
    }
    None
}

proof fn lemma_first_bar_unique(s: Seq<u8>, i: int, k: int)
    requires
        first_bar_at(s, i),
        first_bar_at(s, k),
    ensures
        i == k,
{
    if i < k {
        assert(s[i] != BAR);
    } else if k < i {
        assert(s[k] != BAR);
    }
}

/// Splits `s` at its first bar.
fn split_at_bar(s: &[u8]) -> (r: Option<(Vec<u8>, Vec<u8>)>)
    ensures
        match r {
            Some((a, b)) => split_bar(s@) == Some((a@, b@)),
            None => split_bar(s@) is None,
        },
{
    match find_bar(s) {
        Some(i) => {
            proof {
                let k = choose|k: int| first_bar_at(s@, k);
                lemma_first_bar_unique(s@, i as int, k);
            }
            assert(i < s.len());
            let a = copy_range(s, 0, i);
            let b = copy_range(s, i + 1, s.len());
            Some((a, b))
        },
        None => None,
    }
}

fn parse_bool_text(s: &[u8]) -> (r: Option<bool>)
    ensures
        r == bool_of_text(s@),
{
    if is_true_text(s) {
        Some(true)
    } else if s.len() == 5 && s[0] == 102u8 && s[1] == 97u8 && s[2] == 108u8 && s[3] == 115u8
        && s[4] == 101u8 {
        assert(s@ =~= false_text());
        Some(false)
    } else {
        proof {
            if s@ == false_text() {
                assert(s@[0] == 102u8);
            }
        }
        None
    }
}

fn is_true_text(s: &[u8]) -> (r: bool)
    ensures
        r == (s@ == true_text()),
{
    if s.len() == 4 && s[0] == 116u8 && s[1] == 114u8 && s[2] == 117u8 && s[3] == 101u8 {
        assert(s@ =~= true_text());
        true
    } else {
        proof {
            if s@ == true_text() {
                assert(s@[0] == 116u8);
            }
        }
        false
    }
}

fn parse_response(p: &[u8]) -> (r: Option<Message>)
    ensures
        match r {
            Some(m) => parse_payload(Tag::AccessResponse, p@) == Some(m@),
            None => parse_payload(Tag::AccessResponse, p@) is None,
        },
{
    let (g, r1) = match split_at_bar(p) {
        Some(x) => x,
        None => return None,
    };
    let (message, r2) = match split_at_bar(r1.as_slice()) {
        Some(x) => x,
        None => return None,
    };
    let (host, port) = match split_at_bar(r2.as_slice()) {
        Some(x) => x,
        None => return None,
    };
    if find_bar(port.as_slice()).is_some() {
        return None;
    }
    let granted = match parse_bool_text(g.as_slice()) {
        Some(b) => b,
        None => return None,
    };
    let llm_port = if port.len() == 0 {
        None
    } else {
        match parse_i32(port.as_slice()) {
            Some(v) => Some(v),
            None => return None,
        }
    };
    let llm_host = if host.len() == 0 { None } else { Some(host) };
    Some(Message::LLMAccessResponse { granted, message, llm_host, llm_port })
}

/// The message that payload `p` under tag `t` stands for, if it is well formed.
fn parse_frame_payload(t: Tag, p: &[u8]) -> (r: Option<Message>)
    ensures
        match r {
            Some(m) => parse_payload(t, p@) == Some(m@),
            None => parse_payload(t, p@) is None,
        },
{
    match t {
        Tag::File => match split_at_bar(p) {
            Some((name, content)) => Some(Message::ConversationFile { name, content }),
            None => None,
        },
        Tag::Sync => if p.len() == 0 {
            Some(Message::SyncRequest)
        } else {
            None
        },
        Tag::Resp => {
            let payload = copy_range(p, 0, p.len());
            assert(payload@ =~= p@);
            Some(Message::SyncResponse { payload })
        },
        Tag::Capability => match parse_bool_text(p) {
            Some(has_llm) => Some(Message::LLMCapability { has_llm }),
            None => None,
        },
        Tag::AccessRequest => match split_at_bar(p) {
            Some((peer_name, reason)) => Some(Message::LLMAccessRequest { peer_name, reason }),
            None => None,
        },
        Tag::AccessResponse => parse_response(p),
    }
}

/// Reads one frame from the start of `buf`; bytes after it are left alone.
pub fn decode(buf: &[u8]) -> (r: Decoded)
    ensures
        r@ == decode_of(buf@),
        buf@.len() == 0 <==> r is End,
{
    if buf.len() == 0 {
        return Decoded::End;
    }
    if buf.len() < HEADER_LEN {
        return Decoded::Truncated;
    }
    let len = declared_length(buf);
    let avail: usize = buf.len() - HEADER_LEN;
    if (avail as u64) < len {
        return Decoded::Truncated;
    }
    let used: usize = HEADER_LEN + len as usize;
    let t = match tag_at_start(buf) {
        Some(t) => t,
        None => return Decoded::Malformed,
    };
    let p = copy_range(buf, HEADER_LEN, used);
    match parse_frame_payload(t, p.as_slice()) {
        Some(msg) => Decoded::Frame { msg, used },
        None => Decoded::Malformed,
    }
}

/// Messages whose fields survive the trip over the wire: a file name, a peer
/// name and a response text hold no bar, and a host, where given, is a
/// non-empty text without a bar.
pub open spec fn wire_safe(m: MessageView) -> bool {
    match m {
        MessageView::ConversationFile { name, .. } => bar_free(name),
        MessageView::LLMAccessRequest { peer_name, .. } => bar_free(peer_name),
        MessageView::LLMAccessResponse { message, llm_host, .. } => bar_free(message) && match llm_host {
            Some(h) => h.len() > 0 && bar_free(h),
            None => true,
        },
        _ => true,
    }
}

proof fn lemma_le_round_trip(n: u64)
    ensures
        le_value(le_bytes(n)) == n,
{
    let b = le_bytes(n);
    assert(le_value(b) == (((n & 0xff) as u8) as u64) | (((((n >> 8u64) & 0xff) as u8) as u64)
        << 8u64) | (((((n >> 16u64) & 0xff) as u8) as u64) << 16u64) | (((((n >> 24u64) & 0xff)
        as u8) as u64) << 24u64) | (((((n >> 32u64) & 0xff) as u8) as u64) << 32u64) | (((((n
        >> 40u64) & 0xff) as u8) as u64) << 40u64) | (((((n >> 48u64) & 0xff) as u8) as u64)
        << 48u64) | (((((n >> 56u64) & 0xff) as u8) as u64) << 56u64));
    assert((((n & 0xff) as u8) as u64) | (((((n >> 8u64) & 0xff) as u8) as u64) << 8u64) | (((((n
        >> 16u64) & 0xff) as u8) as u64) << 16u64) | (((((n >> 24u64) & 0xff) as u8) as u64)
        << 24u64) | (((((n >> 32u64) & 0xff) as u8) as u64) << 32u64) | (((((n >> 40u64) & 0xff)
        as u8) as u64) << 40u64) | (((((n >> 48u64) & 0xff) as u8) as u64) << 48u64) | (((((n
        >> 56u64) & 0xff) as u8) as u64) << 56u64) == n) by (bit_vector);
}

proof fn lemma_tag_text_read(t: Tag)
    ensures
        tag_of_text(tag_text(t)) == Some(t),
{
    let f = tag_text(Tag::File);
    let sy = tag_text(Tag::Sync);
    let re = tag_text(Tag::Resp);
    let c = tag_text(Tag::Capability);
    let q = tag_text(Tag::AccessRequest);
    let x = tag_text(Tag::AccessResponse);
    assert(f[0] != sy[0] && f[0] != re[0] && f[0] != c[0] && f[0] != q[0] && f[0] != x[0]);
    assert(sy[0] != re[0] && sy[0] != c[0] && sy[0] != q[0] && sy[0] != x[0]);
    assert(re[0] != c[0] && re[0] != q[0] && re[0] != x[0]);
    assert(c[1] != q[1] && c[1] != x[1]);
    assert(q[3] != x[3]);
}

proof fn lemma_split_joined(a: Seq<u8>, b: Seq<u8>)
    requires
        bar_free(a),
    ensures
        split_bar(joined(a, b)) == Some((a, b)),
{
    let s = joined(a, b);
    assert(first_bar_at(s, a.len() as int));
    let k = choose|k: int| first_bar_at(s, k);
    lemma_first_bar_unique(s, a.len() as int, k);
    assert(s.subrange(0, a.len() as int) =~= a);
    assert(s.subrange(a.len() as int + 1, s.len() as int) =~= b);
}

proof fn lemma_bar_free_no_bar(s: Seq<u8>)
    requires
        bar_free(s),
    ensures
        !has_bar(s),
{
    if has_bar(s) {
        let k = choose|k: int| first_bar_at(s, k);
        assert(s[k] == BAR);
    }
}

proof fn lemma_bool_text(b: bool)
    ensures
        bar_free(bool_text(b)),
        (bool_text(b) == true_text()) == b,
        bool_of_text(bool_text(b)) == Some(b),
{
    assert(true_text().len() != false_text().len());
}

proof fn lemma_payload_read(m: MessageView)
    requires
        wire_safe(m),
    ensures
        parse_payload(tag_of_message(m), payload_of(m)) == Some(m),
{
    match m {
        MessageView::ConversationFile { name, content } => {
            lemma_split_joined(name, content);
        },
        MessageView::LLMCapability { has_llm } => {
            lemma_bool_text(has_llm);
        },
        MessageView::LLMAccessRequest { peer_name, reason } => {
            lemma_split_joined(peer_name, reason);
        },
        MessageView::LLMAccessResponse { granted, message, llm_host, llm_port } => {
            let h = host_text(llm_host);
            let pt = port_text(llm_port);
            lemma_bool_text(granted);
            lemma_split_joined(bool_text(granted), joined(message, joined(h, pt)));
            lemma_split_joined(message, joined(h, pt));
            assert(bar_free(h));
            lemma_split_joined(h, pt);
            match llm_port {
                Some(v) => {
                    lemma_i32_text_parses(v);
                },
                None => {},
            }
            assert(bar_free(pt));
            lemma_bar_free_no_bar(pt);
        },
        _ => {},
    }
}

/// Decoding the frame of a message gives the message back, takes the whole
/// frame, and finds the stream at its end right after it.
pub proof fn lemma_round_trip(m: MessageView)
    requires
        wire_safe(m),
        payload_of(m).len() <= u64::MAX,
    ensures
        decode_of(frame_of(m)) == (DecodedView::Frame { msg: m, used: frame_of(m).len() }),
        decode_of(frame_of(m).subrange(frame_of(m).len() as int, frame_of(m).len() as int))
            == DecodedView::End,
{
    let f = frame_of(m);
    let p = payload_of(m);
    let t = tag_of_message(m);
    lemma_le_round_trip(p.len() as u64);
    assert(f.subrange(0, TAG_LEN as int) =~= tag_text(t));
    assert(f.subrange(TAG_LEN as int, HEADER_LEN as int) =~= le_bytes(p.len() as u64));
    assert(f.subrange(HEADER_LEN as int, f.len() as int) =~= p);
    lemma_tag_text_read(t);
    lemma_payload_read(m);
    assert(f.subrange(f.len() as int, f.len() as int) =~= Seq::<u8>::empty());
}

/// A frame is read from its own bytes alone: it takes its header and exactly
/// the payload length that the header declares, and what follows in the
/// stream changes nothing.
pub proof fn lemma_decode_exact(b: Seq<u8>, rest: Seq<u8>)
    requires
        decode_of(b) is Frame,
    ensures
        decode_of(b)->used == HEADER_LEN + le_value(b.subrange(TAG_LEN as int, HEADER_LEN as int)),
        decode_of(b + rest) == decode_of(b),
        decode_of(b.subrange(0, decode_of(b)->used as int)) == decode_of(b),
{
    let used = decode_of(b)->used as int;
    let br = b + rest;
    let bu = b.subrange(0, used);
    assert(br.subrange(0, TAG_LEN as int) =~= b.subrange(0, TAG_LEN as int));
    assert(br.subrange(TAG_LEN as int, HEADER_LEN as int) =~= b.subrange(TAG_LEN as int, HEADER_LEN as int));
    assert(br.subrange(HEADER_LEN as int, used) =~= b.subrange(HEADER_LEN as int, used));
    assert(bu.subrange(0, TAG_LEN as int) =~= b.subrange(0, TAG_LEN as int));
    assert(bu.subrange(TAG_LEN as int, HEADER_LEN as int) =~= b.subrange(TAG_LEN as int, HEADER_LEN as int));
    assert(bu.subrange(HEADER_LEN as int, used) =~= b.subrange(HEADER_LEN as int, used));
}

/// An access request frame whose payload has no bar cannot be read: the
/// frame is malformed, whatever follows it.
pub proof fn lemma_request_without_bar(p: Seq<u8>, rest: Seq<u8>)
    requires
        bar_free(p),
        p.len() <= u64::MAX,
    ensures
        decode_of(tag_text(Tag::AccessRequest) + le_bytes(p.len() as u64) + p + rest)
            == DecodedView::Malformed,
{
    let b = tag_text(Tag::AccessRequest) + le_bytes(p.len() as u64) + p + rest;
    lemma_le_round_trip(p.len() as u64);
    lemma_tag_text_read(Tag::AccessRequest);
    lemma_bar_free_no_bar(p);
    assert(b.subrange(0, TAG_LEN as int) =~= tag_text(Tag::AccessRequest));
    assert(b.subrange(TAG_LEN as int, HEADER_LEN as int) =~= le_bytes(p.len() as u64));
    assert(b.subrange(HEADER_LEN as int, HEADER_LEN + p.len()) =~= p);
}

} // verus!
