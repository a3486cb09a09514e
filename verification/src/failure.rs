//! Votes that key generation has failed, and the sets of such votes that
//! prove the failure to others.

use vstd::prelude::*;
use crate::name::{Name, NameSet};
use crate::session::{
    peer_names,
    session_id_of,
    CandidatesView,
    DkgSessionId,
    ElderCandidates,
    SessionIdView,
};

verus! {

/// The number of elders that make a supermajority among `n`: more than two
/// thirds of them.
pub open spec fn spec_supermajority(n: nat) -> nat {
    1 + n * 2 / 3
}

/// Whether `votes` votes of failure are enough among `participants`
/// candidates: there must be candidates, and the voters together with any
/// supermajority must be more than all of them, so that no supermajority is
/// left that could still finish the key generation without a voter.
pub open spec fn spec_has_failure_agreement(participants: nat, votes: nat) -> bool {
    participants > 0 && votes + spec_supermajority(participants) > participants
}

/// The number of elders that make a supermajority among `n`.
pub fn supermajority(n: usize) -> (m: usize)
    ensures
        m == spec_supermajority(n as nat),
        n > 0 ==> m <= n,
{
    1 + (n / 3 * 2 + (n % 3) * 2 / 3)
}

/// Whether `votes` votes of failure are enough among `participants`
/// candidates.
pub fn has_failure_agreement(participants: usize, votes: usize) -> (agreed: bool)
    ensures
        agreed == spec_has_failure_agreement(participants as nat, votes as nat),
{
    if participants == 0 {
        return false;
    }
    votes > participants - supermajority(participants)
}

/// A copy of `v`.
pub fn copy_bytes(v: &Vec<u8>) -> (out: Vec<u8>)
    ensures
        out@ == v@,
{
    let mut out: Vec<u8> = Vec::new();
    let mut i: usize = 0;
    while i < v.len()
        invariant
            i <= v.len(),
            out@ == v@.take(i as int),
        decreases v.len() - i,
    {
        out.push(v[i]);
        assert(v@.take(i + 1) == v@.take(i as int).push(v@[i as int]));
        i += 1;
    }
    assert(v@.take(v.len() as int) == v@);
    out
}

/// What [`DkgFailureSig`] stands for.
pub struct FailureSigView {
    /// The name of the participant that signed.
    pub signer: Name,
    /// The session that the signer declared failed.
    pub session_id: SessionIdView,
    /// The participants that the signer held responsible, in ascending order.
    pub failed_participants: Seq<Name>,
    /// The bytes of the signature.
    pub signature: Seq<u8>,
}

/// The signed statement of one participant that a session of key generation
/// has failed, with the participants that it holds responsible. The bytes of
/// the signature are carried for those who receive the statement; a value of
/// this type stands for a signature that was checked when it was received.
#[derive(Debug, PartialEq, Eq)]
pub struct DkgFailureSig {
    signer: Name,
    session_id: DkgSessionId,
    failed_participants: NameSet,
    signature: Vec<u8>,
}

impl View for DkgFailureSig {
    type V = FailureSigView;

    closed spec fn view(&self) -> FailureSigView {
        FailureSigView {
            signer: self.signer,
            session_id: self.session_id@,
            failed_participants: self.failed_participants@,
            signature: self.signature@,
        }
    }
}

impl DkgFailureSig {
    /// The statement of `signer` that the session `session_id` failed
    /// because of `failed_participants`.
    pub fn new(
        signer: Name,
        session_id: DkgSessionId,
        failed_participants: NameSet,
        signature: Vec<u8>,
    ) -> (sig: DkgFailureSig)
        ensures
            sig@ == (FailureSigView {
                signer,
                session_id: session_id@,
                failed_participants: failed_participants@,
                signature: signature@,
            }),
    {
        DkgFailureSig { signer, session_id, failed_participants, signature }
    }

    /// The name of the participant that signed.
    pub fn signer(&self) -> (signer: Name)
        ensures
            signer == self@.signer,
    {
        self.signer
    }

    /// The bytes of the signature.
    pub fn signature(&self) -> (bytes: Vec<u8>)
        ensures
            bytes@ == self@.signature,
    {
        copy_bytes(&self.signature)
    }

    /// Whether this is a statement about the session `session_id` that holds
    /// exactly `failed_participants` responsible.
    pub fn verify(&self, session_id: &DkgSessionId, failed_participants: &NameSet) -> (ok: bool)
        ensures
            ok == (self@.session_id == session_id@ && self@.failed_participants
                == failed_participants@),
    {
        self.session_id.same(session_id) && self.failed_participants.same(failed_participants)
    }

    /// A copy of the statement.
    pub fn copy(&self) -> (sig: DkgFailureSig)
        ensures
            sig@ == self@,
    {
        DkgFailureSig {
            signer: self.signer,
            session_id: self.session_id.copy(),
            failed_participants: self.failed_participants.copy(),
            signature: copy_bytes(&self.signature),
        }
    }
}

/// What each statement of `v` stands for, in the order of `v`.
pub open spec fn sig_views(v: Seq<DkgFailureSig>) -> Seq<FailureSigView> {
    v.map_values(|s: DkgFailureSig| s@)
}

/// Whether one of `sigs` is signed by `signer`.
pub open spec fn signed_by(sigs: Seq<FailureSigView>, signer: Name) -> bool {
    exists|i: int| 0 <= i < sigs.len() && (#[trigger] sigs[i]).signer == signer
}

/// Whether no two of `sigs` have one signer.
pub open spec fn signers_distinct(sigs: Seq<FailureSigView>) -> bool {
    forall|i: int, j: int|
        0 <= i < j < sigs.len() ==> (#[trigger] sigs[i]).signer != (#[trigger] sigs[j]).signer
}

/// Whether `sig` counts as a vote that the candidates of `c` failed to
/// generate the key of generation `generation` because of `failed`: its
/// signer is one of the candidates, and it is a statement about exactly that
/// session and those participants.
pub open spec fn vote_counts(
    sig: FailureSigView,
    c: CandidatesView,
    generation: u64,
    failed: Seq<Name>,
) -> bool {
    peer_names(c.elders).contains(sig.signer) && sig.session_id == session_id_of(c, generation)
        && sig.failed_participants == failed
}

/// How many of `sigs` count as such votes.
pub open spec fn counted_votes(
    sigs: Seq<FailureSigView>,
    c: CandidatesView,
    generation: u64,
    failed: Seq<Name>,
) -> nat
    decreases sigs.len(),
{
    if sigs.len() == 0 {
        0
    } else {
        counted_votes(sigs.drop_last(), c, generation, failed) + if vote_counts(
            sigs.last(),
            c,
            generation,
            failed,
        ) {
            1nat
        } else {
            0nat
        }
    }
}

/// What [`DkgFailureSigSet`] stands for.
pub struct FailureSetView {
    /// The statements, in the order in which they were added.
    pub sigs: Seq<FailureSigView>,
    /// The participants held responsible, in ascending order.
    pub failed_participants: Seq<Name>,
    /// The session that failed.
    pub session_id: SessionIdView,
}

/// The set after `sig`, which came with `failed`, is offered to `set`. The
/// first participants that are named stay the ones of the set, and a
/// second statement of one signer is not taken.
pub open spec fn set_after_insert(set: FailureSetView, sig: FailureSigView, failed: Seq<Name>)
    -> FailureSetView {
    FailureSetView {
        sigs: if signed_by(set.sigs, sig.signer) {
            set.sigs
        } else {
            set.sigs.push(sig)
        },
        failed_participants: if set.failed_participants.len() == 0 {
            failed
        } else {
            set.failed_participants
        },
        session_id: set.session_id,
    }
}

/// Whether the statements of `set` prove that the candidates of `c` failed
/// to generate the key of generation `generation`.
pub open spec fn set_verifies(set: FailureSetView, c: CandidatesView, generation: u64) -> bool {
    spec_has_failure_agreement(
        c.elders.len(),
        counted_votes(set.sigs, c, generation, set.failed_participants),
    )
}

/// Statements of failure about one session, at most one of each signer.
#[derive(Debug, PartialEq, Eq)]
pub struct DkgFailureSigSet {
    sigs: Vec<DkgFailureSig>,
    failed_participants: NameSet,
    session_id: DkgSessionId,
}

impl View for DkgFailureSigSet {
    type V = FailureSetView;

    closed spec fn view(&self) -> FailureSetView {
        FailureSetView {
            sigs: sig_views(self.sigs@),
            failed_participants: self.failed_participants@,
            session_id: self.session_id@,
        }
    }
}

impl DkgFailureSigSet {
    /// No two statements have one signer. This holds of every value of the
    /// type.
    #[verifier::type_invariant]
    pub open spec fn wf(self) -> bool {
        signers_distinct(self@.sigs)
    }

    /// The set without any statement about the session `session_id`.
    pub fn new(session_id: DkgSessionId) -> (set: DkgFailureSigSet)
        ensures
            set@ == (FailureSetView {
                sigs: Seq::empty(),
                failed_participants: Seq::empty(),
                session_id: session_id@,
            }),
    {
        let sigs: Vec<DkgFailureSig> = Vec::new();
        assert(sig_views(sigs@) =~= Seq::empty());
        DkgFailureSigSet { sigs, failed_participants: NameSet::new(), session_id }
    }

    /// The number of statements.
    pub fn len(&self) -> (n: usize)
        ensures
            n == self@.sigs.len(),
    {
        self.sigs.len()
    }

    /// The statement at position `i`.
    pub fn sig(&self, i: usize) -> (sig: DkgFailureSig)
        requires
            i < self@.sigs.len(),
        ensures
            sig@ == self@.sigs[i as int],
    {
        self.sigs[i].copy()
    }

    /// The participants held responsible.
    pub fn failed_participants(&self) -> (failed: NameSet)
        ensures
            failed@ == self@.failed_participants,
    {
        self.failed_participants.copy()
    }

    /// The session that the statements are about.
    pub fn session_id(&self) -> (id: DkgSessionId)
        ensures
            id@ == self@.session_id,
    {
        self.session_id.copy()
    }

    /// Whether one of the statements is signed by `signer`.
    pub fn is_signed_by(&self, signer: &Name) -> (b: bool)
        ensures
            b == signed_by(self@.sigs, *signer),
    {
        let mut i: usize = 0;
        while i < self.sigs.len()
            invariant
                i <= self.sigs.len(),
                forall|k: int| 0 <= k < i ==> (#[trigger] self@.sigs[k]).signer != *signer,
            decreases self.sigs.len() - i,
        {
            if self.sigs[i].signer() == *signer {
                assert(self@.sigs[i as int].signer == *signer);
                return true;
            }
            i += 1;
        }
        false
    }

    /// Offers `sig`, which came with `failed_participants`, to the set, and
    /// says whether it was taken: it is, unless its signer has a statement
    /// in the set already. Where the set names no participants yet, it
    /// names `failed_participants` from now on.
    pub fn insert(&mut self, sig: DkgFailureSig, failed_participants: &NameSet) -> (taken: bool)
        ensures
            final(self)@ == set_after_insert(old(self)@, sig@, failed_participants@),
            taken == !signed_by(old(self)@.sigs, sig@.signer),
    {
        proof {
            use_type_invariant(&*self);
        }
        if self.failed_participants.is_empty() {
            self.failed_participants = failed_participants.copy();
        }
        if self.is_signed_by(&sig.signer()) {
            false
        } else {
            let ghost before = self@.sigs;
            let mut sigs: Vec<DkgFailureSig> = Vec::new();
            assert(sig_views(sigs@) =~= Seq::empty());
            core::mem::swap(&mut self.sigs, &mut sigs);
            assert(sig_views(sigs@) == before);
            let ghost view = sig@;
            sigs.push(sig);
            proof {
                let after = sig_views(sigs@);
                assert(after =~= before.push(view));
                assert forall|i: int, j: int| 0 <= i < j < after.len() implies (
                #[trigger] after[i]).signer != (#[trigger] after[j]).signer by {
                    if j < before.len() {
                        assert(after[i] == before[i] && after[j] == before[j]);
                    } else {
                        assert(after[i] == before[i]);
                    }
                }
            }
            self.sigs = sigs;
            true
        }
    }

    /// Whether the statements are enough among `candidates` to agree on the
    /// failure. What the statements say is not looked at.
    pub fn has_agreement(&self, candidates: &ElderCandidates) -> (agreed: bool)
        ensures
            agreed == spec_has_failure_agreement(candidates@.elders.len(), self@.sigs.len()),
    {
        has_failure_agreement(candidates.len(), self.sigs.len())
    }

    /// Whether the statements prove that `candidates` failed to generate the
    /// key of generation `generation`: enough of them are signed by one of
    /// the candidates and are about that session and the participants that
    /// the set holds responsible.
    pub fn verify(&self, candidates: &ElderCandidates, generation: u64) -> (ok: bool)
        ensures
            ok == set_verifies(self@, candidates@, generation),
    {
        let session_id = DkgSessionId::new(candidates, generation);
        let mut votes: usize = 0;
        let mut i: usize = 0;
        while i < self.sigs.len()
            invariant
                i <= self.sigs.len(),
                votes <= i,
                session_id@ == session_id_of(candidates@, generation),
                votes == counted_votes(
                    self@.sigs.take(i as int),
                    candidates@,
                    generation,
                    self@.failed_participants,
                ),
            decreases self.sigs.len() - i,
        {
            let sig = &self.sigs[i];
            assert(sig@ == self@.sigs[i as int]);
            assert(self@.sigs.take(i + 1).drop_last() == self@.sigs.take(i as int));
            assert(self@.sigs.take(i + 1).last() == self@.sigs[i as int]);
            if candidates.contains_name(&sig.signer()) && sig.verify(
                &session_id,
                &self.failed_participants,
            ) {
                votes += 1;
            }
            i += 1;
        }
        assert(self@.sigs.take(self.sigs.len() as int) == self@.sigs);
        has_failure_agreement(candidates.len(), votes)
    }
}

} // verus!
