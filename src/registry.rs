//! What a node knows of its peers, keyed by the peer's IP address: which
//! peers have a language model, which have granted this node access to
//! theirs, and where their model can be reached.
use vstd::prelude::*;
use crate::codec::copy_range;

verus! {

/// `v` lists the members of `s`, each once.
pub open spec fn lists(v: Seq<String>, s: Set<Seq<char>>) -> bool {
    &&& forall|i: int| 0 <= i < v.len() ==> s.contains(#[trigger] v[i]@)
    &&& forall|k: Seq<char>| #[trigger] s.contains(k) ==> exists|i: int| 0 <= i < v.len() && v[i]@ == k
    &&& forall|i: int, j: int| 0 <= i < j < v.len() ==> v[i]@ != v[j]@
}

/// A set of peer addresses. It is kept in a `Vec` without repeats rather
/// than a `HashSet`, whose specification says little of `String` keys; the
/// ghost set is what the contracts speak of.
pub struct PeerSet {
    items: Vec<String>,
    model: Ghost<Set<Seq<char>>>,
}

impl View for PeerSet {
    type V = Set<Seq<char>>;

    closed spec fn view(&self) -> Set<Seq<char>> {
        self.model@
    }
}

/// One draining of a set: `out` lists what the set held before, and the set
/// is left empty.
pub open spec fn drained(before: Set<Seq<char>>, out: Seq<String>, after: Set<Seq<char>>) -> bool {
    lists(out, before) && after == Set::<Seq<char>>::empty()
}

/// Draining a set twice in a row, with nothing added in between, gives
/// nothing the second time.
pub proof fn lemma_drain_twice(
    s0: Set<Seq<char>>,
    out1: Seq<String>,
    s1: Set<Seq<char>>,
    out2: Seq<String>,
    s2: Set<Seq<char>>,
)
    requires
        drained(s0, out1, s1),
        drained(s1, out2, s2),
    ensures
        out2.len() == 0,
        s2.is_empty(),
{
    if out2.len() > 0 {
        assert(s1.contains(out2[0]@));
    }
}

impl PeerSet {
    #[verifier::type_invariant]
    spec fn inv(&self) -> bool {
        lists(self.items@, self.model@)
    }

    pub fn new() -> (r: PeerSet)
        ensures
            r@ == Set::<Seq<char>>::empty(),
    {
        PeerSet { items: Vec::new(), model: Ghost(Set::empty()) }
    }

    fn index_of(&self, ip: &String) -> (r: Option<usize>)
        ensures
            match r {
                Some(i) => i < self.items.len() && self.items@[i as int]@ == ip@,
                None => forall|i: int| 0 <= i < self.items.len() ==> self.items@[i]@ != ip@,
            },
    {
        let mut i: usize = 0;
        while i < self.items.len()
            invariant
                i <= self.items.len(),
                forall|j: int| 0 <= j < i ==> self.items@[j]@ != ip@,
            decreases self.items.len() - i,
        {
            if self.items[i].eq(ip) {
                return Some(i);
            }
            i = i + 1;
        }
        None
    }

    /// Whether `ip` is in the set.
    pub fn contains(&self, ip: &String) -> (r: bool)
        ensures
            r == self@.contains(ip@),
    {
        proof {
            use_type_invariant(self);
        }
        self.index_of(ip).is_some()
    }

    /// Adds `ip`; adding one already there changes nothing.
    pub fn insert(&mut self, ip: String)
        ensures
            final(self)@ == old(self)@.insert(ip@),
    {
        proof {
            use_type_invariant(&*self);
        }
        if self.index_of(&ip).is_none() {
            let mut cur = PeerSet::new();
            std::mem::swap(&mut cur, self);
            proof {
                use_type_invariant(&cur);
            }
            let PeerSet { items, model } = cur;
            let ghost m = model@.insert(ip@);
            let ghost old_items = items@;
            let mut items = items;
            items.push(ip);
            proof {
                assert forall|k: Seq<char>| #[trigger] m.contains(k) implies exists|i: int|
                    0 <= i < items.len() && items@[i]@ == k by {
                    if k == ip@ {
                        assert(items@[items.len() - 1]@ == k);
                    } else {
                        let i = choose|i: int| 0 <= i < old_items.len() && old_items[i]@ == k;
                        assert(items@[i] == old_items[i]);
                    }
                }
            }
            *self = PeerSet { items, model: Ghost(m) };
        } else {
            proof {
                assert(self@.insert(ip@) =~= self@);
            }
        }
    }

    /// Takes `ip` out; taking out one not there changes nothing.
    pub fn remove(&mut self, ip: &String)
        ensures
            final(self)@ == old(self)@.remove(ip@),
    {
        proof {
            use_type_invariant(&*self);
        }
        match self.index_of(ip) {
            Some(k) => {
                let mut cur = PeerSet::new();
                std::mem::swap(&mut cur, self);
                proof {
                    use_type_invariant(&cur);
                }
                let PeerSet { items, model } = cur;
                let ghost m = model@.remove(ip@);
                let ghost old_items = items@;
                let mut items = items;
                items.remove(k);
                proof {
                    assert forall|i: int| 0 <= i < items.len() implies m.contains(
                        #[trigger] items@[i]@,
                    ) by {
                        if i < k {
                            assert(items@[i] == old_items[i]);
                        } else {
                            assert(items@[i] == old_items[i + 1]);
                        }
                    }
                    assert forall|k2: Seq<char>| #[trigger] m.contains(k2) implies exists|i: int|
                        0 <= i < items.len() && items@[i]@ == k2 by {
                        let i = choose|i: int| 0 <= i < old_items.len() && old_items[i]@ == k2;
                        if i < k {
                            assert(items@[i]@ == k2);
                        } else {
                            assert(i != k);
                            assert(items@[i - 1]@ == k2);
                        }
                    }
                    assert forall|i: int, j: int| 0 <= i < j < items.len() implies items@[i]@
                        != items@[j]@ by {
                        let oi = if i < k { i } else { i + 1 };
                        let oj = if j < k { j } else { j + 1 };
                        assert(items@[i] == old_items[oi]);
                        assert(items@[j] == old_items[oj]);
                    }
                }
                *self = PeerSet { items, model: Ghost(m) };
            },
            None => {
                proof {
                    assert(!self@.contains(ip@));
                    assert(self@.remove(ip@) =~= self@);
                }
            },
        }
    }

    /// Takes every address out and hands them over, each once.
    pub fn drain(&mut self) -> (r: Vec<String>)
        ensures
            drained(old(self)@, r@, final(self)@),
    {
        let mut cur = PeerSet::new();
        std::mem::swap(&mut cur, self);
        proof {
            use_type_invariant(&cur);
        }
        let PeerSet { items, .. } = cur;
        items
    }
}

/// Where a peer's language model can be reached.
pub struct Endpoint {
    pub ip: String,
    pub host: Vec<u8>,
    pub port: i32,
}

/// The model endpoints that peers have handed over, by peer address. They
/// are kept in a `Vec` with unique addresses rather than a `HashMap`, whose
/// specification says little of `String` keys; the ghost map is what the
/// contracts speak of.
pub struct EndpointMap {
    entries: Vec<Endpoint>,
    model: Ghost<Map<Seq<char>, (Seq<u8>, i32)>>,
}

impl View for EndpointMap {
    type V = Map<Seq<char>, (Seq<u8>, i32)>;

    closed spec fn view(&self) -> Map<Seq<char>, (Seq<u8>, i32)> {
        self.model@
    }
}

pub open spec fn entries_hold(e: Seq<Endpoint>, m: Map<Seq<char>, (Seq<u8>, i32)>) -> bool {
    &&& forall|i: int| 0 <= i < e.len() ==> #[trigger] m.contains_key(e[i].ip@) && m[e[i].ip@] == (
    e[i].host@, e[i].port)
    &&& forall|k: Seq<char>| #[trigger] m.contains_key(k) ==> exists|i: int| 0 <= i < e.len() && e[i].ip@ == k
    &&& forall|i: int, j: int| 0 <= i < j < e.len() ==> e[i].ip@ != e[j].ip@
}

impl EndpointMap {
    #[verifier::type_invariant]
    spec fn inv(&self) -> bool {
        entries_hold(self.entries@, self.model@)
    }

    pub fn new() -> (r: EndpointMap)
        ensures
            r@ == Map::<Seq<char>, (Seq<u8>, i32)>::empty(),
    {
        EndpointMap { entries: Vec::new(), model: Ghost(Map::empty()) }
    }

    fn index_of(&self, ip: &String) -> (r: Option<usize>)
        ensures
            match r {
                Some(i) => i < self.entries.len() && self.entries@[i as int].ip@ == ip@,
                None => forall|i: int| 0 <= i < self.entries.len() ==> self.entries@[i].ip@ != ip@,
            },
    {
        let mut i: usize = 0;
        while i < self.entries.len()
            invariant
                i <= self.entries.len(),
                forall|j: int| 0 <= j < i ==> self.entries@[j].ip@ != ip@,
            decreases self.entries.len() - i,
        {
            if self.entries[i].ip.eq(ip) {
                return Some(i);
            }
            i = i + 1;
        }
        None
    }

    /// The endpoint recorded for `ip`, if any.
    pub fn get(&self, ip: &String) -> (r: Option<(Vec<u8>, i32)>)
        ensures
            match r {
                Some((h, p)) => self@.contains_key(ip@) && self@[ip@] == (h@, p),
                None => !self@.contains_key(ip@),
            },
    {
        proof {
            use_type_invariant(self);
        }
        match self.index_of(ip) {
            Some(i) => {
                let e = &self.entries[i];
                let h = copy_range(e.host.as_slice(), 0, e.host.len());
                assert(h@ =~= e.host@);
                assert(self.model@.contains_key(self.entries@[i as int].ip@));
                Some((h, e.port))
            },
            None => None,
        }
    }

    /// Records `(host, port)` for `ip`, replacing what was there.
    pub fn upsert(&mut self, ip: String, host: Vec<u8>, port: i32)
        ensures
            final(self)@ == old(self)@.insert(ip@, (host@, port)),
    {
        proof {
            use_type_invariant(&*self);
        }
        let found = self.index_of(&ip);
        let mut cur = EndpointMap::new();
        std::mem::swap(&mut cur, self);
        proof {
            use_type_invariant(&cur);
        }
        let EndpointMap { entries, model } = cur;
        let ghost m = model@.insert(ip@, (host@, port));
        let ghost old_entries = entries@;
        let mut entries = entries;
        match found {
            Some(k) => {
                entries.remove(k);
                proof {
                    assert forall|i: int, j: int| 0 <= i < j < entries.len() implies entries@[i].ip@
                        != entries@[j].ip@ by {
                        let oi = if i < k { i } else { i + 1 };
                        let oj = if j < k { j } else { j + 1 };
                        assert(entries@[i] == old_entries[oi]);
                        assert(entries@[j] == old_entries[oj]);
                    }
                    assert forall|i: int| 0 <= i < entries.len() implies entries@[i].ip@ != ip@ by {
                        let oi = if i < k { i } else { i + 1 };
                        assert(entries@[i] == old_entries[oi]);
                    }
                }
            },
            None => {},
        }
        let ghost mid = entries@;
        entries.push(Endpoint { ip, host, port });
        proof {
            let n = entries.len() - 1;
            assert forall|i: int| 0 <= i < entries.len() implies #[trigger] m.contains_key(
                entries@[i].ip@,
            ) && m[entries@[i].ip@] == (entries@[i].host@, entries@[i].port) by {
                if i < n {
                    let oi = match found {
                        Some(k) => if i < k { i } else { i + 1 },
                        None => i,
                    };
                    assert(entries@[i] == old_entries[oi]);
                }
            }
            assert forall|k2: Seq<char>| #[trigger] m.contains_key(k2) implies exists|i: int|
                0 <= i < entries.len() && entries@[i].ip@ == k2 by {
                if k2 == ip@ {
                    assert(entries@[n].ip@ == k2);
                } else {
                    let oi = choose|i: int| 0 <= i < old_entries.len() && old_entries[i].ip@ == k2;
                    match found {
                        Some(k) => {
                            assert(oi != k);
                            let i = if oi < k { oi } else { oi - 1 };
                            assert(entries@[i] == old_entries[oi]);
                        },
                        None => {
                            assert(entries@[oi] == old_entries[oi]);
                        },
                    }
                }
            }
            assert forall|i: int, j: int| 0 <= i < j < entries.len() implies entries@[i].ip@
                != entries@[j].ip@ by {
                if j == n {
                    assert(entries@[i] == mid[i]);
                    match found {
                        Some(_) => {},
                        None => {
                            assert(mid[i] == old_entries[i]);
                        },
                    }
                } else {
                    assert(entries@[i] == mid[i]);
                    assert(entries@[j] == mid[j]);
                }
            }
        }
        *self = EndpointMap { entries, model: Ghost(m) };
    }
}

/// The capable set after a peer announced `has_llm`: the peer joins it or
/// leaves it, whatever it held before.
pub open spec fn capability_update(s: Set<Seq<char>>, ip: Seq<char>, has_llm: bool) -> Set<Seq<char>> {
    if has_llm {
        s.insert(ip)
    } else {
        s.remove(ip)
    }
}

/// A later announcement overrides an earlier one: a peer that announced a
/// model and then announced none is not in the capable set.
pub proof fn lemma_capability_last_wins(s: Set<Seq<char>>, ip: Seq<char>, first: bool, second: bool)
    ensures
        capability_update(capability_update(s, ip, first), ip, second).contains(ip) == second,
{
}

/// Everything this node knows of its peers.
pub struct PeerRegistry {
    /// Peers that announced a language model.
    pub capable: PeerSet,
    /// Peers that granted this node access to their model, or were granted
    /// access to this node's.
    pub authorized: PeerSet,
    /// Where granting peers' models can be reached.
    pub endpoints: EndpointMap,
}

impl PeerRegistry {
    pub fn new() -> (r: PeerRegistry)
        ensures
            r.capable@ == Set::<Seq<char>>::empty(),
            r.authorized@ == Set::<Seq<char>>::empty(),
            r.endpoints@ == Map::<Seq<char>, (Seq<u8>, i32)>::empty(),
    {
        PeerRegistry { capable: PeerSet::new(), authorized: PeerSet::new(), endpoints: EndpointMap::new() }
    }

    /// Records a capability announcement from `ip`.
    pub fn record_capability(&mut self, ip: &String, has_llm: bool)
        ensures
            final(self).capable@ == capability_update(old(self).capable@, ip@, has_llm),
            final(self).authorized@ == old(self).authorized@,
            final(self).endpoints@ == old(self).endpoints@,
    {
        if has_llm {
            self.capable.insert(ip.clone());
        } else {
            self.capable.remove(ip);
        }
    }

    /// Records an access response from `ip`: a grant authorizes the peer, and
    /// a grant that names both host and port records them as its endpoint.
    pub fn record_access_response(
        &mut self,
        ip: &String,
        granted: bool,
        host: Option<Vec<u8>>,
        port: Option<i32>,
    )
        ensures
            final(self).capable@ == old(self).capable@,
            final(self).authorized@ == if granted {
                old(self).authorized@.insert(ip@)
            } else {
                old(self).authorized@
            },
            final(self).endpoints@ == match (granted, host, port) {
                (true, Some(h), Some(p)) => old(self).endpoints@.insert(ip@, (h@, p)),
                _ => old(self).endpoints@,
            },
    {
        if granted {
            self.authorized.insert(ip.clone());
            match (host, port) {
                (Some(h), Some(p)) => self.endpoints.upsert(ip.clone(), h, p),
                _ => {},
            }
        }
    }

    /// Whether this node should ask `ip` for access: the peer has a model and
    /// has not granted access yet.
    pub fn needs_access(&self, ip: &String) -> (r: bool)
        ensures
            r == (self.capable@.contains(ip@) && !self.authorized@.contains(ip@)),
    {
        self.capable.contains(ip) && !self.authorized.contains(ip)
    }
}

} // verus!
