//! Elder candidates and the identity of a key-generation session.

use vstd::prelude::*;
use crate::name::{lemma_ascending_unique, name_lt, names_ascending, Name, NameSet, Prefix};
use crate::peer::Peer;

verus! {

/// The names of the peers of `s`, in the order of `s`.
pub open spec fn peer_names(s: Seq<Peer>) -> Seq<Name> {
    s.map_values(|p: Peer| p.name)
}

/// Whether `p` stands in `s` and no later peer of `s` has its name.
pub open spec fn is_last_with_name(s: Seq<Peer>, p: Peer) -> bool {
    exists|i: int|
        0 <= i < s.len() && #[trigger] s[i] == p && forall|j: int|
            i < j < s.len() ==> (#[trigger] s[j]).name != p.name
}

/// What [`ElderCandidates`] stands for: a prefix and the candidates, one for
/// each name, in the order of their names.
pub struct CandidatesView {
    /// The prefix of the section.
    pub prefix: Prefix,
    /// The candidates, in the order of their names.
    pub elders: Seq<Peer>,
}

/// The peers nominated to become the elders of a section: at most one for
/// each name, held in the order of their names.
#[derive(Debug, PartialEq, Eq)]
pub struct ElderCandidates {
    prefix: Prefix,
    elders: Vec<Peer>,
}

impl View for ElderCandidates {
    type V = CandidatesView;

    closed spec fn view(&self) -> CandidatesView {
        CandidatesView { prefix: self.prefix, elders: self.elders@ }
    }
}

/// A copy of `v`.
pub fn copy_peers(v: &Vec<Peer>) -> (out: Vec<Peer>)
    ensures
        out@ == v@,
{
    let mut out: Vec<Peer> = Vec::new();
    let mut i: usize = 0;
    while i < v.len()
        invariant
            i <= v.len(),
            out@ == v@.take(i as int),
        decreases v.len() - i,
    {
        out.push(v[i]);
        assert(v@.take(i + 1) == v@.take(i as int).push(v@[i as int]));
        i += 1;
    }
    assert(v@.take(v.len() as int) == v@);
    out
}

impl ElderCandidates {
    /// The candidates are held in the strict order of their names, so that
    /// no two have one name. This holds of every value of the type.
    #[verifier::type_invariant]
    pub open spec fn wf(self) -> bool {
        names_ascending(peer_names(self@.elders))
    }

    /// No candidates, for the section of `prefix`.
    pub fn empty(prefix: Prefix) -> (out: ElderCandidates)
        ensures
            out@.prefix == prefix,
            out@.elders == Seq::<Peer>::empty(),
    {
        ElderCandidates { prefix, elders: Vec::new() }
    }

    /// The candidates that `peers` names for the section of `prefix`. Where
    /// several of the peers have one name, the last of them is the
    /// candidate.
    pub fn new(prefix: Prefix, peers: Vec<Peer>) -> (out: ElderCandidates)
        ensures
            out.wf(),
            out@.prefix == prefix,
            forall|p: Peer| out@.elders.contains(p) <==> is_last_with_name(peers@, p),
    {
        let mut out = ElderCandidates::empty(prefix);
        let mut i: usize = 0;
        while i < peers.len()
            invariant
                i <= peers.len(),
                out@.prefix == prefix,
                forall|p: Peer|
                    out@.elders.contains(p) <==> is_last_with_name(peers@.take(i as int), p),
            decreases peers.len() - i,
        {
            let ghost before = out@.elders;
            out.insert(peers[i]);
            proof {
                let t0 = peers@.take(i as int);
                let t1 = peers@.take(i + 1);
                let q = peers@[i as int];
                assert forall|p: Peer| out@.elders.contains(p) <==> is_last_with_name(t1, p) by {
                    if is_last_with_name(t1, p) {
                        let k = choose|k: int|
                            0 <= k < t1.len() && #[trigger] t1[k] == p && forall|j: int|
                                k < j < t1.len() ==> (#[trigger] t1[j]).name != p.name;
                        if k < i {
                            assert(t1[i as int].name != p.name);
                            assert(t0[k] == p);
                            assert forall|j: int| k < j < t0.len() implies (#[trigger] t0[j]).name
                                != p.name by {
                                assert(t1[j] == t0[j]);
                            }
                            assert(is_last_with_name(t0, p));
                        }
                    }
                    if p == q {
                        assert(t1[i as int] == p);
                        assert(is_last_with_name(t1, p));
                    }
                    if before.contains(p) && p.name != q.name {
                        let k = choose|k: int|
                            0 <= k < t0.len() && #[trigger] t0[k] == p && forall|j: int|
                                k < j < t0.len() ==> (#[trigger] t0[j]).name != p.name;
                        assert(t1[k] == p);
                        assert forall|j: int| k < j < t1.len() implies (#[trigger] t1[j]).name
                            != p.name by {
                            if j < i {
                                assert(t1[j] == t0[j]);
                            }
                        }
                        assert(is_last_with_name(t1, p));
                    }
                }
            }
            i += 1;
        }
        assert(peers@.take(peers.len() as int) == peers@);
        proof {
            use_type_invariant(&out);
        }
        out
    }

    /// Makes `peer` a candidate, in place of the candidate of its name where
    /// there is one.
    pub fn insert(&mut self, peer: Peer)
        ensures
            final(self).wf(),
            final(self)@.prefix == old(self)@.prefix,
            forall|p: Peer|
                final(self)@.elders.contains(p) <==> (p == peer || (old(self)@.elders.contains(p)
                    && p.name != peer.name)),
    {
        proof {
            use_type_invariant(&*self);
        }
        let ghost before = self.elders@;
        let mut i: usize = 0;
        while i < self.elders.len() && self.elders[i].name.precedes(&peer.name)
            invariant
                i <= self.elders.len(),
                self.elders@ == before,
                self.prefix == old(self).prefix,
                forall|k: int| 0 <= k < i ==> name_lt(before[k].name, peer.name),
            decreases self.elders.len() - i,
        {
            i += 1;
        }
        proof {
            assert forall|k: int| 0 <= k < before.len() implies peer_names(before)[k]
                == before[k].name by {}
        }
        if i < self.elders.len() && self.elders[i].name == peer.name {
            proof {
                let after = before.update(i as int, peer);
                assert forall|a: int, b: int| 0 <= a < b < after.len() implies name_lt(
                    #[trigger] peer_names(after)[a],
                    #[trigger] peer_names(after)[b],
                ) by {
                    assert(name_lt(peer_names(before)[a], peer_names(before)[b]));
                }
                assert forall|p: Peer|
                    after.contains(p) <==> (p == peer || (before.contains(p) && p.name
                        != peer.name)) by {
                    if after.contains(p) {
                        let k = choose|k: int| 0 <= k < after.len() && after[k] == p;
                        if k != i {
                            assert(before[k] == p);
                            assert(name_lt(peer_names(before)[k], peer_names(before)[i as int])
                                || name_lt(peer_names(before)[i as int], peer_names(before)[k]));
                        }
                    }
                    if before.contains(p) && p.name != peer.name {
                        let k = choose|k: int| 0 <= k < before.len() && before[k] == p;
                        assert(after[k] == p);
                    }
                    if p == peer {
                        assert(after[i as int] == p);
                    }
                }
            }
            let mut elders: Vec<Peer> = Vec::new();
            core::mem::swap(&mut self.elders, &mut elders);
            elders[i] = peer;
            self.elders = elders;
        } else {
            proof {
                let after = before.insert(i as int, peer);
                assert forall|a: int, b: int| 0 <= a < b < after.len() implies name_lt(
                    #[trigger] peer_names(after)[a],
                    #[trigger] peer_names(after)[b],
                ) by {
                    if b < i {
                        assert(name_lt(peer_names(before)[a], peer_names(before)[b]));
                    } else if b == i {
                    } else if a < i {
                        assert(a == b - 1 || name_lt(
                            peer_names(before)[a],
                            peer_names(before)[b - 1],
                        ));
                    } else if a == i {
                        assert(b - 1 == i || name_lt(
                            peer_names(before)[i as int],
                            peer_names(before)[b - 1],
                        ));
                    } else {
                        assert(name_lt(peer_names(before)[a - 1], peer_names(before)[b - 1]));
                    }
                }
                assert forall|p: Peer|
                    after.contains(p) <==> (p == peer || (before.contains(p) && p.name
                        != peer.name)) by {
                    if after.contains(p) {
                        let k = choose|k: int| 0 <= k < after.len() && after[k] == p;
                        if k < i {
                            assert(before[k] == p);
                        } else if k > i {
                            assert(before[k - 1] == p);
                            assert(k - 1 == i || name_lt(
                                peer_names(before)[i as int],
                                peer_names(before)[k - 1],
                            ));
                        }
                    }
                    if before.contains(p) && p.name != peer.name {
                        let k = choose|k: int| 0 <= k < before.len() && before[k] == p;
                        if k < i {
                            assert(after[k] == p);
                        } else {
                            assert(after[k + 1] == p);
                        }
                    }
                    if p == peer {
                        assert(after[i as int] == p);
                    }
                }
            }
            let mut elders: Vec<Peer> = Vec::new();
            core::mem::swap(&mut self.elders, &mut elders);
            elders.insert(i, peer);
            self.elders = elders;
        }
    }

    /// The prefix of the section.
    pub fn prefix(&self) -> (prefix: Prefix)
        ensures
            prefix == self@.prefix,
    {
        self.prefix
    }

    /// The number of candidates.
    pub fn len(&self) -> (n: usize)
        ensures
            n == self@.elders.len(),
    {
        self.elders.len()
    }

    /// The candidate at position `i` of the order of names.
    pub fn get(&self, i: usize) -> (peer: Peer)
        requires
            i < self@.elders.len(),
        ensures
            peer == self@.elders[i as int],
    {
        self.elders[i]
    }

    /// The candidates, in the order of their names.
    pub fn elders(&self) -> (peers: Vec<Peer>)
        ensures
            peers@ == self@.elders,
    {
        copy_peers(&self.elders)
    }

    /// The names of the candidates, in ascending order.
    pub fn names(&self) -> (names: Vec<Name>)
        ensures
            names@ == peer_names(self@.elders),
    {
        let mut names: Vec<Name> = Vec::new();
        let mut i: usize = 0;
        while i < self.elders.len()
            invariant
                i <= self.elders.len(),
                names@ == peer_names(self.elders@.take(i as int)),
            decreases self.elders.len() - i,
        {
            names.push(self.elders[i].name);
            assert(peer_names(self.elders@.take(i + 1)) =~= peer_names(
                self.elders@.take(i as int),
            ).push(self.elders@[i as int].name));
            i += 1;
        }
        assert(self.elders@.take(self.elders.len() as int) == self.elders@);
        names
    }

    /// The names of the candidates, as a set.
    pub fn name_set(&self) -> (names: NameSet)
        ensures
            names@ == peer_names(self@.elders),
    {
        let list = self.names();
        let names = NameSet::from_vec(&list);
        proof {
            use_type_invariant(self);
            use_type_invariant(&names);
            lemma_ascending_unique(names@, list@);
        }
        names
    }

    /// The position of the candidate named `name`, if there is one.
    pub fn position(&self, name: &Name) -> (at: Option<usize>)
        ensures
            at matches Some(i) ==> i < self@.elders.len() && self@.elders[i as int].name == *name,
            at is None ==> !peer_names(self@.elders).contains(*name),
    {
        let mut i: usize = 0;
        while i < self.elders.len()
            invariant
                i <= self.elders.len(),
                forall|k: int| 0 <= k < i ==> self.elders@[k].name != *name,
            decreases self.elders.len() - i,
        {
            if self.elders[i].name == *name {
                return Some(i);
            }
            i += 1;
        }
        proof {
            if peer_names(self.elders@).contains(*name) {
                let k = choose|k: int|
                    0 <= k < peer_names(self.elders@).len() && peer_names(self.elders@)[k]
                        == *name;
                assert(self.elders@[k].name == *name);
            }
        }
        None
    }

    /// Whether one of the candidates is named `name`.
    pub fn contains_name(&self, name: &Name) -> (b: bool)
        ensures
            b == peer_names(self@.elders).contains(*name),
    {
        match self.position(name) {
            Some(i) => {
                assert(peer_names(self.elders@)[i as int] == *name);
                true
            },
            None => false,
        }
    }

    /// Whether the two hold the same candidates for the same prefix.
    pub fn same(&self, other: &ElderCandidates) -> (b: bool)
        ensures
            b == (self@ == other@),
    {
        if !(self.prefix == other.prefix) || self.elders.len() != other.elders.len() {
            return false;
        }
        let mut i: usize = 0;
        while i < self.elders.len()
            invariant
                i <= self.elders.len(),
                self.elders.len() == other.elders.len(),
                forall|k: int| 0 <= k < i ==> self.elders@[k] == other.elders@[k],
            decreases self.elders.len() - i,
        {
            if !(self.elders[i] == other.elders[i]) {
                return false;
            }
            i += 1;
        }
        assert(self.elders@ =~= other.elders@);
        true
    }

    /// A copy of the candidates.
    pub fn copy(&self) -> (out: ElderCandidates)
        ensures
            out@ == self@,
    {
        proof {
            use_type_invariant(self);
        }
        ElderCandidates { prefix: self.prefix, elders: copy_peers(&self.elders) }
    }
}

/// What [`DkgSessionId`] stands for.
pub struct SessionIdView {
    /// The prefix of the section that generates the key.
    pub prefix: Prefix,
    /// The generation of the section that the session is for.
    pub generation: u64,
    /// The candidates with their addresses, in the order of their names.
    pub elders: Seq<Peer>,
}

/// The identity of one run of key generation: the prefix of the section,
/// the generation that the run is for, and the address of each candidate.
#[derive(Debug, PartialEq, Eq)]
pub struct DkgSessionId {
    candidates: ElderCandidates,
    generation: u64,
}

impl View for DkgSessionId {
    type V = SessionIdView;

    closed spec fn view(&self) -> SessionIdView {
        SessionIdView {
            prefix: self.candidates@.prefix,
            generation: self.generation,
            elders: self.candidates@.elders,
        }
    }
}

/// The identity of the session in which the candidates of `c` generate the
/// key of generation `generation`.
pub open spec fn session_id_of(c: CandidatesView, generation: u64) -> SessionIdView {
    SessionIdView { prefix: c.prefix, generation, elders: c.elders }
}

impl DkgSessionId {
    /// The identity of the session in which `candidates` generate the key of
    /// generation `generation`.
    pub fn new(candidates: &ElderCandidates, generation: u64) -> (id: DkgSessionId)
        ensures
            id@ == session_id_of(candidates@, generation),
    {
        DkgSessionId { candidates: candidates.copy(), generation }
    }

    /// The generation that the session is for.
    pub fn generation(&self) -> (generation: u64)
        ensures
            generation == self@.generation,
    {
        self.generation
    }

    /// The prefix of the section that generates the key.
    pub fn prefix(&self) -> (prefix: Prefix)
        ensures
            prefix == self@.prefix,
    {
        self.candidates.prefix()
    }

    /// The candidates with their addresses, in the order of their names.
    pub fn elders(&self) -> (peers: Vec<Peer>)
        ensures
            peers@ == self@.elders,
            names_ascending(peer_names(peers@)),
    {
        proof {
            use_type_invariant(&self.candidates);
        }
        self.candidates.elders()
    }

    /// Whether the two are the identity of one session.
    pub fn same(&self, other: &DkgSessionId) -> (b: bool)
        ensures
            b == (self@ == other@),
    {
        self.generation == other.generation && self.candidates.same(&other.candidates)
    }

    /// A copy of the identity.
    pub fn copy(&self) -> (id: DkgSessionId)
        ensures
            id@ == self@,
    {
        DkgSessionId { candidates: self.candidates.copy(), generation: self.generation }
    }
}

} // verus!
