//! What a node knows of its section when an event arrives: the length of the
//! section's chain of keys, its current authority, its members, and what the
//! membership rules propose.

use vstd::prelude::*;
use crate::keys::SectionKey;
use crate::name::{names_ascending, Name, Prefix};
use crate::peer::{Address, Peer};
use crate::session::{peer_names, CandidatesView, ElderCandidates};

verus! {

/// What [`SectionAuthorityProvider`] stands for.
pub struct SapView {
    /// The prefix of the section.
    pub prefix: Prefix,
    /// The bytes of the section's public key.
    pub section_key: Seq<u8>,
    /// The elders, in the order of their names.
    pub elders: Seq<Peer>,
}

/// The elders of a section together with the section's public key.
#[derive(Debug, PartialEq, Eq)]
pub struct SectionAuthorityProvider {
    candidates: ElderCandidates,
    section_key: SectionKey,
}

impl View for SectionAuthorityProvider {
    type V = SapView;

    closed spec fn view(&self) -> SapView {
        SapView {
            prefix: self.candidates@.prefix,
            section_key: self.section_key@,
            elders: self.candidates@.elders,
        }
    }
}

/// The authority in which the candidates of `c` are the elders and hold the
/// key `section_key`.
pub open spec fn sap_of(c: CandidatesView, section_key: Seq<u8>) -> SapView {
    SapView { prefix: c.prefix, section_key, elders: c.elders }
}

impl SectionAuthorityProvider {
    /// The authority in which `candidates` are the elders and hold the key
    /// `section_key`.
    pub fn from_elder_candidates(candidates: ElderCandidates, section_key: SectionKey) -> (sap:
        SectionAuthorityProvider)
        ensures
            sap@ == sap_of(candidates@, section_key@),
    {
        SectionAuthorityProvider { candidates, section_key }
    }

    /// The prefix of the section.
    pub fn prefix(&self) -> (prefix: Prefix)
        ensures
            prefix == self@.prefix,
    {
        self.candidates.prefix()
    }

    /// The section's public key.
    pub fn section_key(&self) -> (key: SectionKey)
        ensures
            key@ == self@.section_key,
    {
        self.section_key
    }

    /// The elders, in the order of their names.
    pub fn elders_vec(&self) -> (elders: Vec<Peer>)
        ensures
            elders@ == self@.elders,
            names_ascending(peer_names(elders@)),
    {
        proof {
            use_type_invariant(&self.candidates);
        }
        self.candidates.elders()
    }

    /// The elders as candidates.
    pub fn candidates(&self) -> (candidates: ElderCandidates)
        ensures
            candidates@.prefix == self@.prefix,
            candidates@.elders == self@.elders,
    {
        self.candidates.copy()
    }

    /// The elder named `name`, if there is one.
    pub fn get_elder(&self, name: &Name) -> (elder: Option<Peer>)
        ensures
            elder matches Some(p) ==> self@.elders.contains(p) && p.name == *name,
            elder is None ==> !peer_names(self@.elders).contains(*name),
            names_ascending(peer_names(self@.elders)),
    {
        proof {
            use_type_invariant(&self.candidates);
        }
        match self.candidates.position(name) {
            Some(i) => Some(self.candidates.get(i)),
            None => None,
        }
    }

    /// A copy of the authority.
    pub fn copy(&self) -> (sap: SectionAuthorityProvider)
        ensures
            sap@ == self@,
    {
        SectionAuthorityProvider {
            candidates: self.candidates.copy(),
            section_key: self.section_key,
        }
    }
}

/// What each authority of `v` stands for, in the order of `v`.
pub open spec fn sap_views(v: Seq<SectionAuthorityProvider>) -> Seq<SapView> {
    v.map_values(|s: SectionAuthorityProvider| s@)
}

/// What each set of candidates of `v` stands for, in the order of `v`.
pub open spec fn candidates_views(v: Seq<ElderCandidates>) -> Seq<CandidatesView> {
    v.map_values(|c: ElderCandidates| c@)
}

/// Whether `i` is the position of the first of `members` at `addr`.
pub open spec fn is_first_at(members: Seq<Peer>, addr: Address, i: int) -> bool {
    0 <= i < members.len() && members[i].addr == addr && forall|j: int|
        0 <= j < i ==> (#[trigger] members[j]).addr != addr
}

/// The first of `members` at the address `addr`, if one is there.
pub open spec fn member_at(members: Seq<Peer>, addr: Address) -> Option<Peer> {
    if exists|i: int| is_first_at(members, addr, i) {
        Some(members[choose|i: int| is_first_at(members, addr, i)])
    } else {
        None
    }
}

/// Whether one of `members` is named `name`.
pub open spec fn has_member(members: Seq<Peer>, name: Name) -> bool {
    peer_names(members).contains(name)
}

/// Whether `i` is the position of the first of `signed` that is for
/// `prefix` and holds the key `key`.
pub open spec fn is_first_signed(signed: Seq<SapView>, key: Seq<u8>, prefix: Prefix, i: int)
    -> bool {
    0 <= i < signed.len() && signed[i].section_key == key && signed[i].prefix == prefix
        && forall|j: int|
        0 <= j < i ==> !((#[trigger] signed[j]).section_key == key && signed[j].prefix == prefix)
}

/// The first of `signed` that is for `prefix` and holds the key `key`, if
/// one is there.
pub open spec fn signed_authority(signed: Seq<SapView>, key: Seq<u8>, prefix: Prefix) -> Option<
    SapView,
> {
    if exists|i: int| is_first_signed(signed, key, prefix, i) {
        Some(signed[choose|i: int| is_first_signed(signed, key, prefix, i)])
    } else {
        None
    }
}

/// The peer that stands for the candidate `name` at `addr`. A member of the
/// section that is known at that address stands for the candidate, unless
/// the elder of that name is at that address already; a candidate that is
/// not known is a peer of its own.
pub open spec fn resolved_peer(k: KnowledgeView, name: Name, addr: Address) -> Peer {
    if k.authority.elders.contains(Peer { name, addr }) {
        Peer { name, addr }
    } else {
        match member_at(k.members, addr) {
            Some(member) => member,
            None => Peer { name, addr },
        }
    }
}

/// What [`NetworkKnowledge`] stands for.
pub struct KnowledgeView {
    /// The length of the section's chain of keys, which is its generation.
    pub chain_len: u64,
    /// The current elders and their key.
    pub authority: SapView,
    /// The members of the section.
    pub members: Seq<Peer>,
    /// Authorities that the section has signed and that this node has
    /// received, whether or not it has adopted them.
    pub signed_authorities: Seq<SapView>,
    /// The sets of candidates that the membership rules propose for the
    /// next elders.
    pub candidate_variants: Seq<CandidatesView>,
}

/// A node's knowledge of its section at one moment.
#[derive(Debug)]
pub struct NetworkKnowledge {
    chain_len: u64,
    authority: SectionAuthorityProvider,
    members: Vec<Peer>,
    signed_authorities: Vec<SectionAuthorityProvider>,
    candidate_variants: Vec<ElderCandidates>,
}

impl View for NetworkKnowledge {
    type V = KnowledgeView;

    closed spec fn view(&self) -> KnowledgeView {
        KnowledgeView {
            chain_len: self.chain_len,
            authority: self.authority@,
            members: self.members@,
            signed_authorities: sap_views(self.signed_authorities@),
            candidate_variants: candidates_views(self.candidate_variants@),
        }
    }
}

impl NetworkKnowledge {
    /// The knowledge made of the given parts.
    pub fn new(
        chain_len: u64,
        authority: SectionAuthorityProvider,
        members: Vec<Peer>,
        signed_authorities: Vec<SectionAuthorityProvider>,
        candidate_variants: Vec<ElderCandidates>,
    ) -> (knowledge: NetworkKnowledge)
        ensures
            knowledge@ == (KnowledgeView {
                chain_len,
                authority: authority@,
                members: members@,
                signed_authorities: sap_views(signed_authorities@),
                candidate_variants: candidates_views(candidate_variants@),
            }),
    {
        NetworkKnowledge { chain_len, authority, members, signed_authorities, candidate_variants }
    }

    /// The length of the section's chain of keys.
    pub fn chain_len(&self) -> (n: u64)
        ensures
            n == self@.chain_len,
    {
        self.chain_len
    }

    /// The current elders and their key.
    pub fn authority_provider(&self) -> (sap: SectionAuthorityProvider)
        ensures
            sap@ == self@.authority,
    {
        self.authority.copy()
    }

    /// The section's current public key.
    pub fn section_key(&self) -> (key: SectionKey)
        ensures
            key@ == self@.authority.section_key,
    {
        self.authority.section_key()
    }

    /// The first member of the section at the address `addr`, if one is
    /// known.
    pub fn find_member_by_addr(&self, addr: &Address) -> (member: Option<Peer>)
        ensures
            member == member_at(self@.members, *addr),
    {
        let mut i: usize = 0;
        while i < self.members.len()
            invariant
                i <= self.members.len(),
                forall|j: int| 0 <= j < i ==> (#[trigger] self.members@[j]).addr != *addr,
            decreases self.members.len() - i,
        {
            if self.members[i].addr == *addr {
                proof {
                    assert(is_first_at(self.members@, *addr, i as int));
                    let c = choose|c: int| is_first_at(self.members@, *addr, c);
                    assert(c == i) by {
                        if c < i {
                            assert(self.members@[c].addr != *addr);
                        } else if c > i {
                            assert(self.members@[i as int].addr != *addr);
                        }
                    }
                }
                return Some(self.members[i]);
            }
            i += 1;
        }
        proof {
            assert forall|c: int| !is_first_at(self.members@, *addr, c) by {
                if is_first_at(self.members@, *addr, c) {
                    assert(self.members@[c].addr != *addr);
                }
            }
        }
        None
    }

    /// Whether a member of the section is named `name`.
    pub fn is_section_member(&self, name: &Name) -> (b: bool)
        ensures
            b == has_member(self@.members, *name),
    {
        let mut i: usize = 0;
        while i < self.members.len()
            invariant
                i <= self.members.len(),
                forall|j: int| 0 <= j < i ==> (#[trigger] self.members@[j]).name != *name,
            decreases self.members.len() - i,
        {
            if self.members[i].name == *name {
                assert(peer_names(self.members@)[i as int] == *name);
                return true;
            }
            i += 1;
        }
        proof {
            if peer_names(self.members@).contains(*name) {
                let k = choose|k: int|
                    0 <= k < peer_names(self.members@).len() && peer_names(self.members@)[k]
                        == *name;
                assert(self.members@[k].name == *name);
            }
        }
        false
    }

    /// The peer that stands for the candidate `name` at `addr`.
    pub fn resolve_peer(&self, name: Name, addr: Address) -> (peer: Peer)
        ensures
            peer == resolved_peer(self@, name, addr),
    {
        let elder = self.authority.get_elder(&name);
        let known = match elder {
            Some(elder) => elder.addr == addr,
            None => false,
        };
        proof {
            let wanted = Peer { name, addr };
            let elders = self@.authority.elders;
            if elders.contains(wanted) {
                let k = choose|k: int| 0 <= k < elders.len() && elders[k] == wanted;
                assert(peer_names(elders)[k] == name);
                let found = elder->Some_0;
                let f = choose|f: int| 0 <= f < elders.len() && elders[f] == found;
                assert(peer_names(elders)[f] == name);
                assert(f == k);
            }
            assert(known == elders.contains(wanted));
        }
        if known {
            Peer::new(name, addr)
        } else {
            match self.find_member_by_addr(&addr) {
                Some(member) => member,
                None => Peer::new(name, addr),
            }
        }
    }

    /// The sets of candidates that the membership rules propose for the
    /// next elders.
    pub fn promote_and_demote_elders(&self) -> (variants: Vec<ElderCandidates>)
        ensures
            candidates_views(variants@) == self@.candidate_variants,
    {
        let mut out: Vec<ElderCandidates> = Vec::new();
        let mut i: usize = 0;
        while i < self.candidate_variants.len()
            invariant
                i <= self.candidate_variants.len(),
                out@.len() == i,
                forall|j: int| 0 <= j < i ==> (#[trigger] out@[j])@ == self.candidate_variants@[j]@,
            decreases self.candidate_variants.len() - i,
        {
            out.push(self.candidate_variants[i].copy());
            i += 1;
        }
        assert(candidates_views(out@) =~= self@.candidate_variants);
        out
    }

    /// Adopts as the current authority the first signed authority that is
    /// for `prefix` and holds the key `section_key`, and says whether there
    /// was one.
    pub fn try_update_current_sap(&mut self, section_key: &SectionKey, prefix: &Prefix) -> (adopted:
        bool)
        ensures
            adopted == signed_authority(
                old(self)@.signed_authorities,
                section_key@,
                *prefix,
            ) is Some,
            final(self)@ == (KnowledgeView {
                authority: match signed_authority(
                    old(self)@.signed_authorities,
                    section_key@,
                    *prefix,
                ) {
                    Some(sap) => sap,
                    None => old(self)@.authority,
                },
                ..old(self)@
            }),
    {
        let ghost signed = self@.signed_authorities;
        let mut i: usize = 0;
        while i < self.signed_authorities.len()
            invariant
                i <= self.signed_authorities.len(),
                *self == *old(self),
                signed == self@.signed_authorities,
                forall|j: int|
                    0 <= j < i ==> !((#[trigger] signed[j]).section_key == section_key@
                        && signed[j].prefix == *prefix),
            decreases self.signed_authorities.len() - i,
        {
            let sap = &self.signed_authorities[i];
            assert(sap@ == signed[i as int]);
            if sap.section_key().same(section_key) && sap.prefix() == *prefix {
                proof {
                    assert(is_first_signed(signed, section_key@, *prefix, i as int));
                    let c = choose|c: int| is_first_signed(signed, section_key@, *prefix, c);
                    assert(c == i) by {
                        if c < i {
                            assert(!(signed[c].section_key == section_key@ && signed[c].prefix
                                == *prefix));
                        } else if c > i {
                            assert(!(signed[i as int].section_key == section_key@ && signed[i as int].prefix
                                == *prefix));
                        }
                    }
                }
                self.authority = sap.copy();
                proof {
                    assert(self@.signed_authorities == signed);
                    assert(self@.authority == signed[i as int]);
                }
                return true;
            }
            i += 1;
        }
        proof {
            assert forall|c: int| !is_first_signed(signed, section_key@, *prefix, c) by {
                if is_first_signed(signed, section_key@, *prefix, c) {
                    assert(!(signed[c].section_key == section_key@ && signed[c].prefix
                        == *prefix));
                }
            }
        }
        false
    }
}

} // verus!
