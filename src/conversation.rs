//! Conversations held in memory, by id.
use vstd::prelude::*;
use vstd::utf8::encode_utf8;

verus! {

/// A point in time: whole seconds since the Unix epoch and the nanoseconds
/// past that second.
#[derive(PartialEq, Eq, Structural, Clone, Copy, Debug)]
pub struct Timestamp {
    pub secs: i64,
    pub nanos: u32,
}

/// One message of a conversation.
#[derive(Clone, Debug)]
pub struct ChatMessage {
    pub content: String,
    pub timestamp: Timestamp,
    pub sender: String,
}

pub struct ChatMessageView {
    pub content: Seq<char>,
    pub timestamp: Timestamp,
    pub sender: Seq<char>,
}

impl View for ChatMessage {
    type V = ChatMessageView;

    open spec fn view(&self) -> ChatMessageView {
        ChatMessageView { content: self.content@, timestamp: self.timestamp, sender: self.sender@ }
    }
}

impl ChatMessage {
    /// A copy of this message.
    pub fn copied(&self) -> (r: ChatMessage)
        ensures
            r@ == self@,
    {
        ChatMessage {
            content: self.content.clone(),
            timestamp: self.timestamp,
            sender: self.sender.clone(),
        }
    }
}

pub open spec fn messages_view(v: Seq<ChatMessage>) -> Seq<ChatMessageView> {
    v.map_values(|m: ChatMessage| m@)
}

/// An ordered log of messages under an id.
#[derive(Clone, Debug)]
pub struct Conversation {
    pub id: String,
    pub messages: Vec<ChatMessage>,
}

pub struct ConversationView {
    pub id: Seq<char>,
    pub messages: Seq<ChatMessageView>,
}

impl View for Conversation {
    type V = ConversationView;

    open spec fn view(&self) -> ConversationView {
        ConversationView { id: self.id@, messages: messages_view(self.messages@) }
    }
}

impl Conversation {
    /// A copy of this conversation.
    pub fn copied(&self) -> (r: Conversation)
        ensures
            r@ == self@,
    {
        let mut messages: Vec<ChatMessage> = Vec::new();
        let mut i: usize = 0;
        while i < self.messages.len()
            invariant
                i <= self.messages.len(),
                messages.len() == i,
                forall|j: int| 0 <= j < i ==> #[trigger] messages@[j]@ == self.messages@[j]@,
            decreases self.messages.len() - i,
        {
            messages.push(self.messages[i].copied());
            i = i + 1;
        }
        assert(messages_view(messages@) =~= messages_view(self.messages@));
        Conversation { id: self.id.clone(), messages }
    }
}

pub open spec fn store_holds(c: Seq<Conversation>, m: Map<Seq<char>, Seq<ChatMessageView>>) -> bool {
    &&& forall|i: int| 0 <= i < c.len() ==> #[trigger] m.contains_key(c[i].id@) && m[c[i].id@]
        == c[i]@.messages
    &&& forall|k: Seq<char>| #[trigger] m.contains_key(k) ==> exists|i: int| 0 <= i < c.len() && c[i].id@ == k
    &&& forall|i: int, j: int| 0 <= i < j < c.len() ==> c[i].id@ != c[j].id@
}

/// `v` holds each conversation of `m` once, with its messages in order.
pub open spec fn snapshot_of(v: Seq<ConversationView>, m: Map<Seq<char>, Seq<ChatMessageView>>) -> bool {
    &&& forall|i: int| 0 <= i < v.len() ==> #[trigger] m.contains_key(v[i].id) && m[v[i].id]
        == v[i].messages
    &&& forall|k: Seq<char>| #[trigger] m.contains_key(k) ==> exists|i: int| 0 <= i < v.len() && v[i].id == k
    &&& forall|i: int, j: int| 0 <= i < j < v.len() ==> v[i].id != v[j].id
}

/// The messages that `id` holds after `msg` was added to it.
pub open spec fn with_message(
    m: Map<Seq<char>, Seq<ChatMessageView>>,
    id: Seq<char>,
    msg: ChatMessageView,
) -> Map<Seq<char>, Seq<ChatMessageView>> {
    let before = if m.contains_key(id) { m[id] } else { Seq::empty() };
    m.insert(id, before.push(msg))
}

/// The conversations of this node, by id. They are kept in a `Vec` with
/// unique ids rather than a `HashMap`, whose specification says little of
/// `String` keys; the ghost map is what the contracts speak of.
pub struct ConversationStore {
    conversations: Vec<Conversation>,
    model: Ghost<Map<Seq<char>, Seq<ChatMessageView>>>,
}

impl View for ConversationStore {
    type V = Map<Seq<char>, Seq<ChatMessageView>>;

    closed spec fn view(&self) -> Map<Seq<char>, Seq<ChatMessageView>> {
        self.model@
    }
}

impl ConversationStore {
    #[verifier::type_invariant]
    spec fn inv(&self) -> bool {
        store_holds(self.conversations@, self.model@)
    }

    pub fn new() -> (r: ConversationStore)
        ensures
            r@ == Map::<Seq<char>, Seq<ChatMessageView>>::empty(),
    {
        ConversationStore { conversations: Vec::new(), model: Ghost(Map::empty()) }
    }

    fn index_of(&self, id: &String) -> (r: Option<usize>)
        ensures
            match r {
                Some(i) => i < self.conversations.len() && self.conversations@[i as int].id@ == id@,
                None => forall|i: int|
                    0 <= i < self.conversations.len() ==> self.conversations@[i].id@ != id@,
            },
    {
        let mut i: usize = 0;
        while i < self.conversations.len()
            invariant
                i <= self.conversations.len(),
                forall|j: int| 0 <= j < i ==> self.conversations@[j].id@ != id@,
            decreases self.conversations.len() - i,
        {
            if self.conversations[i].id.eq(id) {
                return Some(i);
            }
            i = i + 1;
        }
        None
    }

    /// Appends `message` to the conversation `conversation_id`, which is
    /// started if it does not exist yet, and returns a copy of that
    /// conversation as it now stands.
    pub fn add_message(&mut self, conversation_id: String, message: ChatMessage) -> (r: Conversation)
        ensures
            final(self)@ == with_message(old(self)@, conversation_id@, message@),
            r@.id == conversation_id@,
            r@.messages == final(self)@[conversation_id@],
    {
        proof {
            use_type_invariant(&*self);
        }
        let found = self.index_of(&conversation_id);
        let mut cur = ConversationStore::new();
        std::mem::swap(&mut cur, self);
        proof {
            use_type_invariant(&cur);
        }
        let ConversationStore { conversations, model } = cur;
        let ghost m = with_message(model@, conversation_id@, message@);
        let ghost old_c = conversations@;
        let mut conversations = conversations;
        let mut conv = match found {
            Some(k) => {
                let c = conversations.remove(k);
                proof {
                    assert(model@.contains_key(old_c[k as int].id@));
                    assert forall|i: int, j: int| 0 <= i < j < conversations.len() implies
                        conversations@[i].id@ != conversations@[j].id@ by {
                        let oi = if i < k { i } else { i + 1 };
                        let oj = if j < k { j } else { j + 1 };
                        assert(conversations@[i] == old_c[oi]);
                        assert(conversations@[j] == old_c[oj]);
                    }
                    assert forall|i: int| 0 <= i < conversations.len() implies conversations@[i].id@
                        != conversation_id@ by {
                        let oi = if i < k { i } else { i + 1 };
                        assert(conversations@[i] == old_c[oi]);
                    }
                }
                c
            },
            None => {
                Conversation { id: conversation_id, messages: Vec::new() }
            },
        };
        let ghost before = conv@.messages;
        conv.messages.push(message);
        assert(conv@.messages =~= before.push(message@));
        let r = conv.copied();
        let ghost mid = conversations@;
        conversations.push(conv);
        proof {
            let n = conversations.len() - 1;
            assert forall|i: int| 0 <= i < conversations.len() implies #[trigger] m.contains_key(
                conversations@[i].id@,
            ) && m[conversations@[i].id@] == conversations@[i]@.messages by {
                if i < n {
                    let oi = match found {
                        Some(k) => if i < k { i } else { i + 1 },
                        None => i,
                    };
                    assert(conversations@[i] == old_c[oi]);
                    assert(model@.contains_key(old_c[oi].id@));
                }
            }
            assert forall|k2: Seq<char>| #[trigger] m.contains_key(k2) implies exists|i: int|
                0 <= i < conversations.len() && conversations@[i].id@ == k2 by {
                if k2 == r@.id {
                    assert(conversations@[n].id@ == k2);
                } else {
                    assert(model@.contains_key(k2));
                    let oi = choose|i: int| 0 <= i < old_c.len() && old_c[i].id@ == k2;
                    match found {
                        Some(k) => {
                            assert(oi != k);
                            let i = if oi < k { oi } else { oi - 1 };
                            assert(conversations@[i] == old_c[oi]);
                        },
                        None => {
                            assert(conversations@[oi] == old_c[oi]);
                        },
                    }
                }
            }
            assert forall|i: int, j: int| 0 <= i < j < conversations.len() implies conversations@[i].id@
                != conversations@[j].id@ by {
                if j == n {
                    assert(conversations@[i] == mid[i]);
                    match found {
                        Some(_) => {},
                        None => {
                            assert(mid[i] == old_c[i]);
                        },
                    }
                } else {
                    assert(conversations@[i] == mid[i]);
                    assert(conversations@[j] == mid[j]);
                }
            }
        }
        *self = ConversationStore { conversations, model: Ghost(m) };
        r
    }

    /// A copy of the conversation `conversation_id`, if there is one.
    pub fn get_conversation(&self, conversation_id: &String) -> (r: Option<Conversation>)
        ensures
            match r {
                Some(c) => self@.contains_key(conversation_id@) && c@.id == conversation_id@
                    && c@.messages == self@[conversation_id@],
                None => !self@.contains_key(conversation_id@),
            },
    {
        proof {
            use_type_invariant(self);
        }
        match self.index_of(conversation_id) {
            Some(i) => {
                proof {
                    assert(self.model@.contains_key(self.conversations@[i as int].id@));
                }
                Some(self.conversations[i].copied())
            },
            None => None,
        }
    }

    /// A copy of every conversation, each once: a snapshot, which later
    /// changes to the store do not reach.
    pub fn get_all_conversations(&self) -> (r: Vec<Conversation>)
        ensures
            snapshot_of(r@.map_values(|c: Conversation| c@), self@),
    {
        proof {
            use_type_invariant(self);
        }
        let mut out: Vec<Conversation> = Vec::new();
        let mut i: usize = 0;
        while i < self.conversations.len()
            invariant
                i <= self.conversations.len(),
                store_holds(self.conversations@, self.model@),
                out.len() == i,
                forall|j: int| 0 <= j < i ==> #[trigger] out@[j]@ == self.conversations@[j]@,
            decreases self.conversations.len() - i,
        {
            out.push(self.conversations[i].copied());
            i = i + 1;
        }
        proof {
            let v = out@.map_values(|c: Conversation| c@);
            let c = self.conversations@;
            let m = self.model@;
            assert forall|j: int| 0 <= j < v.len() implies #[trigger] m.contains_key(v[j].id) && m[v[j].id]
                == v[j].messages by {
                assert(v[j] == out@[j]@);
                assert(m.contains_key(c[j].id@));
            }
            assert forall|k: Seq<char>| #[trigger] m.contains_key(k) implies exists|j: int|
                0 <= j < v.len() && v[j].id == k by {
                let j = choose|j: int| 0 <= j < c.len() && c[j].id@ == k;
                assert(v[j] == out@[j]@);
            }
            assert forall|a: int, b: int| 0 <= a < b < v.len() implies v[a].id != v[b].id by {
                assert(v[a] == out@[a]@);
                assert(v[b] == out@[b]@);
            }
        }
        out
    }
}

/// `.json`
pub open spec fn json_suffix() -> Seq<u8> {
    seq![46u8, 106, 115, 111, 110]
}

/// Where the file name `b` is a saved conversation, the length of its id:
/// the name is a non-empty id followed by `.json`, and the id is what
/// stands before that suffix.
pub open spec fn saved_id_len(b: Seq<u8>) -> Option<nat> {
    if b.len() > 5 && b.subrange(b.len() - 5, b.len() as int) == json_suffix() {
        Some((b.len() - 5) as nat)
    } else {
        None
    }
}

/// Where the file `file_name` holds a saved conversation, the length in
/// bytes of its id, which is `file_name[..n]`.
pub fn conversation_id_len(file_name: &str) -> (r: Option<usize>)
    ensures
        match r {
            Some(n) => saved_id_len(encode_utf8(file_name@)) == Some(n as nat),
            None => saved_id_len(encode_utf8(file_name@)) is None,
        },
{
    let b = file_name.as_bytes();
    let n = b.len();
    if n > 5 && b[n - 5] == 46u8 && b[n - 4] == 106u8 && b[n - 3] == 115u8 && b[n - 2] == 111u8
        && b[n - 1] == 110u8 {
        assert(b@.subrange(n - 5, n as int) =~= json_suffix());
        Some(n - 5)
    } else {
        proof {
            if n > 5 && b@.subrange(n - 5, n as int) == json_suffix() {
                assert(b@.subrange(n - 5, n as int)[0] == b@[n - 5]);
                assert(b@.subrange(n - 5, n as int)[1] == b@[n - 4]);
                assert(b@.subrange(n - 5, n as int)[2] == b@[n - 3]);
                assert(b@.subrange(n - 5, n as int)[3] == b@[n - 2]);
                assert(b@.subrange(n - 5, n as int)[4] == b@[n - 1]);
            }
        }
        None
    }
}

} // verus!
