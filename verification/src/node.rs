//! The handlers: what a node does when an event of key generation reaches
//! it.

use vstd::prelude::*;
use bls_dkg::key_gen::message::Message as DkgMessage;
use bls_dkg::key_gen::KeyGen;
use crate::error::DkgError;
use crate::failure::{set_verifies, DkgFailureSig, DkgFailureSigSet, FailureSetView};
use crate::keys::{section_key_of, SectionKey, SectionKeyShare};
use crate::knowledge::{
    has_member,
    resolved_peer,
    signed_authority,
    KnowledgeView,
    NetworkKnowledge,
    SapView,
    SectionAuthorityProvider,
};
use crate::messages::{cmd_views, Cmd, CmdView, SystemMsg, SystemMsgView};
use crate::name::{names_ascending, Name, NameSet, Prefix};
use crate::peer::{Address, Peer};
use crate::session::{
    is_last_with_name,
    peer_names,
    CandidatesView,
    DkgSessionId,
    ElderCandidates,
    SessionIdView,
};
use crate::voter::{
    message_result,
    result_views,
    session_started,
    voter_after_message,
    voter_after_replay,
    voter_after_vote,
    voter_history_replayed,
    voter_message_applied,
    voter_replay_commands,
    voter_vote_outcome,
    DkgVoter,
    Feed,
    VoterView,
};

verus! {

/// Whether an event about the generation `generation` comes too late: the
/// section has left that generation behind. An event about the generation
/// that the section is in does not come too late.
pub open spec fn is_stale(k: KnowledgeView, generation: u64) -> bool {
    generation < k.chain_len
}

/// The peers that stand for the candidates `elders`, each given by its name
/// and address, in their order.
pub open spec fn resolved_peers(k: KnowledgeView, elders: Seq<(Name, Address)>) -> Seq<Peer> {
    elders.map_values(|e: (Name, Address)| resolved_peer(k, e.0, e.1))
}

/// Whether `c` holds, for the section of `prefix`, the peers that stand for
/// the candidates `elders`: for each name the last of them.
pub open spec fn candidates_resolved(
    k: KnowledgeView,
    prefix: Prefix,
    elders: Seq<(Name, Address)>,
    c: CandidatesView,
) -> bool {
    &&& c.prefix == prefix
    &&& names_ascending(peer_names(c.elders))
    &&& forall|p: Peer| c.elders.contains(p) <==> is_last_with_name(resolved_peers(k, elders), p)
}

/// Whether `after` and `cmds` are what the start of the session `id` gives
/// to a node that holds the sessions `v` and knows `k`, when the handshake
/// opens with the state `key_gen` and the messages `responses`, and `c` are
/// the candidates. A start that comes too late changes nothing and gives no
/// command.
pub open spec fn dkg_start_handled(
    v: VoterView,
    k: KnowledgeView,
    id: SessionIdView,
    prefix: Prefix,
    elders: Seq<(Name, Address)>,
    own_name: Name,
    c: CandidatesView,
    key_gen: KeyGen,
    responses: Seq<(Name, DkgMessage)>,
    after: VoterView,
    cmds: Seq<CmdView>,
) -> bool {
    if is_stale(k, id.generation) {
        after == v && cmds == Seq::<CmdView>::empty()
    } else {
        candidates_resolved(k, prefix, elders, c) && session_started(
            v,
            id,
            c,
            own_name,
            k.authority.section_key,
            key_gen,
            responses,
            after,
            cmds,
        )
    }
}

/// The command that tells `sender` that this node has no session `id` for
/// its message.
pub open spec fn not_ready_reply(
    id: SessionIdView,
    message: DkgMessage,
    sender: Peer,
    section_key: Seq<u8>,
) -> CmdView {
    CmdView::SendMsg {
        recipients: seq![sender],
        msg: SystemMsgView::DkgNotReady { session_id: id, message },
        section_key,
    }
}

/// The command that has the node state the failure of the session `id`
/// without holding any participant responsible.
pub open spec fn failure_observed(id: SessionIdView) -> CmdView {
    CmdView::ObserveDkgFailure { session_id: id, failed_participants: Seq::empty() }
}

/// The commands that a message of the handshake of the session `id` gives
/// when `fed` comes back from the handshake: the answer that the node is not
/// ready, where it has no such session; the observation of a failure, where
/// the handshake refuses the message; otherwise what the session gives.
pub open spec fn message_commands(
    v: VoterView,
    id: SessionIdView,
    message: DkgMessage,
    sender: Peer,
    section_key: Seq<u8>,
    fed: Feed,
) -> Seq<CmdView> {
    if !v.dom().contains(id) {
        seq![not_ready_reply(id, message, sender, section_key)]
    } else {
        match message_result(id, v[id], message, fed, section_key) {
            Ok(cmds) => cmds,
            Err(_) => seq![failure_observed(id)],
        }
    }
}

/// Whether `after` and `cmds` are what a message of the handshake gives
/// when `fed` comes back from the handshake.
pub open spec fn dkg_msg_handled(
    v: VoterView,
    id: SessionIdView,
    message: DkgMessage,
    sender: Peer,
    section_key: Seq<u8>,
    fed: Feed,
    after: VoterView,
    cmds: Seq<CmdView>,
) -> bool {
    after == voter_after_message(v, id, message, fed) && cmds == message_commands(
        v,
        id,
        message,
        sender,
        section_key,
        fed,
    )
}

/// The command that answers `sender`, which was not ready for `message`,
/// with the messages `history` of the session `id`.
pub open spec fn retry_reply(
    id: SessionIdView,
    history: Seq<DkgMessage>,
    message: DkgMessage,
    sender: Peer,
    section_key: Seq<u8>,
) -> CmdView {
    CmdView::SendMsg {
        recipients: seq![sender],
        msg: SystemMsgView::DkgRetry { message_history: history, message, session_id: id },
        section_key,
    }
}

/// Whether `after` and `cmds` are what the answer to "not ready" gives to
/// a node that holds the sessions `v` and knows `k`, when `feeds` come back
/// from the handshake for the messages of `history` and `fed` for
/// `message`. The history is replayed first and `message` is handled
/// after it; the commands stand in that order. An answer that comes too late
/// changes nothing and gives no command.
pub open spec fn dkg_retry_handled(
    v: VoterView,
    k: KnowledgeView,
    id: SessionIdView,
    history: Seq<DkgMessage>,
    message: DkgMessage,
    sender: Peer,
    feeds: Seq<Feed>,
    fed: Feed,
    after: VoterView,
    cmds: Seq<CmdView>,
) -> bool {
    if is_stale(k, id.generation) {
        after == v && cmds == Seq::<CmdView>::empty()
    } else {
        let key = k.authority.section_key;
        let replayed = voter_after_replay(v, id, history, feeds);
        &&& feeds.len() == history.len()
        &&& after == voter_after_message(replayed, id, message, fed)
        &&& cmds == voter_replay_commands(v, id, history, feeds, key) + message_commands(
            replayed,
            id,
            message,
            sender,
            key,
            fed,
        )
    }
}

/// The commands of an optional command.
pub open spec fn optional_command(cmd: Option<CmdView>) -> Seq<CmdView> {
    match cmd {
        Some(cmd) => seq![cmd],
        None => Seq::empty(),
    }
}

/// Whether the statements of `set` prove the failure of one of the sessions
/// that the section could be running: for one of the sets of candidates
/// that the membership rules propose, in the generation of the section.
pub open spec fn claim_verified(set: FailureSetView, k: KnowledgeView) -> bool {
    exists|i: int|
        0 <= i < k.candidate_variants.len() && set_verifies(
            set,
            #[trigger] k.candidate_variants[i],
            k.chain_len,
        )
}

/// The commands that follow from a proven failure for which `failed` are
/// held responsible: where there are any, the proposal to take them as
/// offline; and in any case the order to work out the elders anew without
/// them.
pub open spec fn agreement_commands(failed: Seq<Name>) -> Seq<CmdView> {
    (if failed.len() > 0 {
        seq![CmdView::ProposeOffline(failed)]
    } else {
        Seq::empty()
    }) + seq![CmdView::PromoteAndDemoteElders { excluded: failed }]
}

/// What the statements `set`, which `sender` sent, give to a node that
/// knows `k`: the error where the sender is no member of the section; no
/// command where the statements prove nothing; otherwise the commands that
/// follow from the failure.
pub open spec fn failure_agreement_result(k: KnowledgeView, sender: Name, set: FailureSetView)
    -> Result<Seq<CmdView>, DkgError> {
    if !has_member(k.members, sender) {
        Err(DkgError::UnauthorizedSender)
    } else if !claim_verified(set, k) {
        Ok(Seq::empty())
    } else {
        Ok(agreement_commands(set.failed_participants))
    }
}

/// Whether a node that knows `k` adopts an authority for `prefix` with the
/// key `key` at once: the section has signed such an authority and the node
/// has received it.
pub open spec fn adopts(k: KnowledgeView, prefix: Prefix, key: Seq<u8>) -> bool {
    signed_authority(k.signed_authorities, key, prefix) is Some
}

/// What the node knows after the handshake gave the key `key` for the
/// authority `sap`.
pub open spec fn knowledge_after_outcome(k: KnowledgeView, sap: SapView, key: Seq<u8>)
    -> KnowledgeView {
    KnowledgeView {
        authority: match signed_authority(k.signed_authorities, key, sap.prefix) {
            Some(signed) => signed,
            None => k.authority,
        },
        ..k
    }
}

/// The commands after the handshake gave the key `key` for the authority
/// `sap`: where the node adopts a signed authority at once, only the order
/// to bring its state up to date; otherwise one proposal of `sap`, to the
/// elders that the node knew before.
pub open spec fn outcome_commands(k: KnowledgeView, sap: SapView, key: Seq<u8>) -> Seq<CmdView> {
    if adopts(k, sap.prefix, key) {
        seq![CmdView::UpdateNodeState { previous: k.authority }]
    } else {
        seq![
            CmdView::ProposeSectionInfo {
                recipients: k.authority.elders,
                section_auth: sap,
                signing_key: key,
            },
        ]
    }
}

/// The message that carries the statements `set` to the elders that the
/// node knows.
pub open spec fn failure_broadcast(k: KnowledgeView, set: FailureSetView) -> CmdView {
    CmdView::SendMsg {
        recipients: k.authority.elders,
        msg: SystemMsgView::DkgFailureAgreement(set),
        section_key: k.authority.section_key,
    }
}

/// A node, as far as key generation is concerned.
#[derive(Debug)]
pub struct Node {
    /// The name and address of the node.
    pub info: Peer,
    /// The sessions that the node takes part in.
    pub dkg_voter: DkgVoter,
    /// What the node knows of its section.
    pub network_knowledge: NetworkKnowledge,
    /// The shares of section keys that the node holds, oldest first.
    pub section_keys: Vec<SectionKeyShare>,
}

impl Node {
    /// A node without sessions and key shares.
    pub fn new(info: Peer, network_knowledge: NetworkKnowledge) -> (node: Node)
        ensures
            node.info == info,
            node.dkg_voter@ == VoterView::empty(),
            node.network_knowledge@ == network_knowledge@,
            node.section_keys@ == Seq::<SectionKeyShare>::empty(),
    {
        Node { info, dkg_voter: DkgVoter::new(), network_knowledge, section_keys: Vec::new() }
    }

    /// Says whether an event about the generation `generation` comes too
    /// late.
    pub fn check_generation(&self, generation: u64) -> (r: Result<(), DkgError>)
        ensures
            r == if is_stale(self.network_knowledge@, generation) {
                Err::<(), DkgError>(DkgError::StaleGeneration)
            } else {
                Ok::<(), DkgError>(())
            },
    {
        if generation < self.network_knowledge.chain_len() {
            Err(DkgError::StaleGeneration)
        } else {
            Ok(())
        }
    }

    /// The candidates for the section of `prefix` that `elders` names, each
    /// by its name and address.
    pub fn resolve_candidates(&self, prefix: Prefix, elders: &Vec<(Name, Address)>) -> (candidates:
        ElderCandidates)
        ensures
            candidates_resolved(self.network_knowledge@, prefix, elders@, candidates@),
    {
        let mut peers: Vec<Peer> = Vec::new();
        let mut i: usize = 0;
        assert(peers@ =~= resolved_peers(self.network_knowledge@, elders@.take(0)));
        while i < elders.len()
            invariant
                i <= elders.len(),
                peers@ == resolved_peers(self.network_knowledge@, elders@.take(i as int)),
            decreases elders.len() - i,
        {
            let peer = self.network_knowledge.resolve_peer(elders[i].0, elders[i].1);
            peers.push(peer);
            assert(peers@ =~= resolved_peers(self.network_knowledge@, elders@.take(i + 1)));
            i += 1;
        }
        assert(elders@.take(elders.len() as int) == elders@);
        let candidates = ElderCandidates::new(prefix, peers);
        proof {
            use_type_invariant(&candidates);
        }
        candidates
    }

    /// Handles the start of the session `session_id`, in which the
    /// candidates `elders` generate a key for the section of `prefix`. A
    /// start for a generation that the section has left behind is dropped.
    /// Otherwise the voter starts the session for the peers that stand for
    /// the candidates.
    pub fn handle_dkg_start(
        &mut self,
        session_id: DkgSessionId,
        prefix: Prefix,
        elders: Vec<(Name, Address)>,
    ) -> (r: Result<Vec<Cmd>, DkgError>)
        ensures
            r is Ok,
            final(self).info == old(self).info,
            final(self).network_knowledge@ == old(self).network_knowledge@,
            final(self).section_keys@ == old(self).section_keys@,
            exists|c: CandidatesView, key_gen: KeyGen, responses: Seq<(Name, DkgMessage)>| #[trigger]
                dkg_start_handled(
                    old(self).dkg_voter@,
                    old(self).network_knowledge@,
                    session_id@,
                    prefix,
                    elders@,
                    old(self).info.name,
                    c,
                    key_gen,
                    responses,
                    final(self).dkg_voter@,
                    cmd_views(r->Ok_0@),
                ),
    {
        let ghost v = self.dkg_voter@;
        let ghost k = self.network_knowledge@;
        let ghost id = session_id@;
        assert(v == old(self).dkg_voter@ && k == old(self).network_knowledge@);
        if self.check_generation(session_id.generation()).is_err() {
            let r: Result<Vec<Cmd>, DkgError> = Ok(Vec::new());
            proof {
                assert(cmd_views(r->Ok_0@) =~= Seq::empty());
                let c: CandidatesView = arbitrary();
                let key_gen: KeyGen = arbitrary();
                assert(dkg_start_handled(
                    v,
                    k,
                    id,
                    prefix,
                    elders@,
                    self.info.name,
                    c,
                    key_gen,
                    Seq::empty(),
                    self.dkg_voter@,
                    cmd_views(r->Ok_0@),
                ));
            }
            return r;
        }
        let candidates = self.resolve_candidates(prefix, &elders);
        let ghost c = candidates@;
        let section_key = self.network_knowledge.section_key();
        let r = self.dkg_voter.start(&self.info, session_id, candidates, section_key);
        proof {
            let (key_gen, responses) = choose|key_gen: KeyGen, responses: Seq<(Name, DkgMessage)>| #[trigger]
                session_started(
                    v,
                    id,
                    c,
                    self.info.name,
                    section_key@,
                    key_gen,
                    responses,
                    self.dkg_voter@,
                    cmd_views(r->Ok_0@),
                );
            assert(dkg_start_handled(
                v,
                k,
                id,
                prefix,
                elders@,
                self.info.name,
                c,
                key_gen,
                responses,
                self.dkg_voter@,
                cmd_views(r->Ok_0@),
            ));
        }
        r
    }

    /// Hands `message`, which `sender` sent for the session `session_id`,
    /// to the voter, on behalf of a section that holds `section_key`.
    fn deliver(
        &mut self,
        session_id: DkgSessionId,
        message: DkgMessage,
        sender: Peer,
        section_key: SectionKey,
    ) -> (cmds: Vec<Cmd>)
        ensures
            final(self).info == old(self).info,
            final(self).network_knowledge@ == old(self).network_knowledge@,
            final(self).section_keys@ == old(self).section_keys@,
            exists|fed: Feed| #[trigger]
                dkg_msg_handled(
                    old(self).dkg_voter@,
                    session_id@,
                    message,
                    sender,
                    section_key@,
                    fed,
                    final(self).dkg_voter@,
                    cmd_views(cmds@),
                ),
    {
        let ghost v = self.dkg_voter@;
        let ghost id = session_id@;
        assert(v == old(self).dkg_voter@);
        let mut cmds: Vec<Cmd> = Vec::new();
        if !self.dkg_voter.knows(&session_id) {
            let mut recipients: Vec<Peer> = Vec::new();
            recipients.push(sender);
            cmds.push(
                Cmd::SendMsg {
                    recipients,
                    msg: SystemMsg::DkgNotReady { session_id, message },
                    section_key,
                },
            );
            proof {
                assert(recipients@ =~= seq![sender]);
                assert(cmd_views(cmds@) =~= seq![
                    not_ready_reply(id, message, sender, section_key@),
                ]);
                let fed = Feed::Rejected { key_gen: arbitrary() };
                assert(dkg_msg_handled(
                    v,
                    id,
                    message,
                    sender,
                    section_key@,
                    fed,
                    self.dkg_voter@,
                    cmd_views(cmds@),
                ));
            }
            return cmds;
        }
        let r = self.dkg_voter.process_msg(sender, &self.info, &session_id, message, section_key);
        let ghost fed = choose|fed: Feed| #[trigger]
            voter_message_applied(
                v,
                id,
                message,
                section_key@,
                fed,
                self.dkg_voter@,
                result_views(r),
            );
        match r {
            Ok(cmds) => {
                proof {
                    assert(dkg_msg_handled(
                        v,
                        id,
                        message,
                        sender,
                        section_key@,
                        fed,
                        self.dkg_voter@,
                        cmd_views(cmds@),
                    ));
                }
                cmds
            },
            Err(_) => {
                cmds.push(
                    Cmd::ObserveDkgFailure { session_id, failed_participants: NameSet::new() },
                );
                proof {
                    assert(cmd_views(cmds@) =~= seq![failure_observed(id)]);
                    assert(dkg_msg_handled(
                        v,
                        id,
                        message,
                        sender,
                        section_key@,
                        fed,
                        self.dkg_voter@,
                        cmd_views(cmds@),
                    ));
                }
                cmds
            },
        }
    }

    /// Handles `message`, a message of the handshake of the session
    /// `session_id` that `sender` sent. Where the node has no such session,
    /// it tells the sender that it is not ready. Where the handshake
    /// refuses the message, the node is told to state the failure of the
    /// session. Otherwise the commands are those of the session.
    pub fn handle_dkg_msg(&mut self, session_id: DkgSessionId, message: DkgMessage, sender: Peer)
        -> (r: Result<Vec<Cmd>, DkgError>)
        ensures
            r is Ok,
            final(self).info == old(self).info,
            final(self).network_knowledge@ == old(self).network_knowledge@,
            final(self).section_keys@ == old(self).section_keys@,
            exists|fed: Feed| #[trigger]
                dkg_msg_handled(
                    old(self).dkg_voter@,
                    session_id@,
                    message,
                    sender,
                    old(self).network_knowledge@.authority.section_key,
                    fed,
                    final(self).dkg_voter@,
                    cmd_views(r->Ok_0@),
                ),
    {
        let section_key = self.network_knowledge.section_key();
        let cmds = self.deliver(session_id, message, sender, section_key);
        let r: Result<Vec<Cmd>, DkgError> = Ok(cmds);
        proof {
            let fed = choose|fed: Feed| #[trigger]
                dkg_msg_handled(
                    old(self).dkg_voter@,
                    session_id@,
                    message,
                    sender,
                    section_key@,
                    fed,
                    self.dkg_voter@,
                    cmd_views(cmds@),
                );
            assert(dkg_msg_handled(
                old(self).dkg_voter@,
                session_id@,
                message,
                sender,
                old(self).network_knowledge@.authority.section_key,
                fed,
                self.dkg_voter@,
                cmd_views(r->Ok_0@),
            ));
        }
        r
    }

    /// Handles the word of `sender` that it was not ready for `message` of
    /// the session `session_id`: the answer, to that peer alone, carries the
    /// messages recorded for the session and `message`. Nothing changes.
    pub fn handle_dkg_not_ready(
        &self,
        sender: Peer,
        message: DkgMessage,
        session_id: DkgSessionId,
        section_pk: SectionKey,
    ) -> (r: Result<Vec<Cmd>, DkgError>)
        ensures
            r matches Ok(cmds) && cmd_views(cmds@) == seq![
                retry_reply(
                    session_id@,
                    crate::voter::cached_messages(self.dkg_voter@, session_id@),
                    message,
                    sender,
                    section_pk@,
                ),
            ],
    {
        let message_history = self.dkg_voter.get_cached_msgs(&session_id);
        let ghost id = session_id@;
        let mut recipients: Vec<Peer> = Vec::new();
        recipients.push(sender);
        let mut cmds: Vec<Cmd> = Vec::new();
        cmds.push(
            Cmd::SendMsg {
                recipients,
                msg: SystemMsg::DkgRetry { message_history, message, session_id },
                section_key: section_pk,
            },
        );
        proof {
            assert(recipients@ =~= seq![sender]);
            assert(cmd_views(cmds@) =~= seq![
                retry_reply(id, message_history@, message, sender, section_pk@),
            ]);
        }
        Ok(cmds)
    }

    /// Handles the answer to "not ready" for the session `session_id`: the
    /// messages `message_history` of the session and `message`, from
    /// `sender`. An answer for a generation that the section has left
    /// behind is dropped. Otherwise the history is replayed and `message` is
    /// handled after it, as `handle_dkg_msg` handles it.
    pub fn handle_dkg_retry(
        &mut self,
        session_id: DkgSessionId,
        message_history: Vec<DkgMessage>,
        message: DkgMessage,
        sender: Peer,
    ) -> (r: Result<Vec<Cmd>, DkgError>)
        ensures
            r is Ok,
            final(self).info == old(self).info,
            final(self).network_knowledge@ == old(self).network_knowledge@,
            final(self).section_keys@ == old(self).section_keys@,
            exists|feeds: Seq<Feed>, fed: Feed| #[trigger]
                dkg_retry_handled(
                    old(self).dkg_voter@,
                    old(self).network_knowledge@,
                    session_id@,
                    message_history@,
                    message,
                    sender,
                    feeds,
                    fed,
                    final(self).dkg_voter@,
                    cmd_views(r->Ok_0@),
                ),
    {
        let ghost v = self.dkg_voter@;
        let ghost k = self.network_knowledge@;
        let ghost id = session_id@;
        assert(v == old(self).dkg_voter@ && k == old(self).network_knowledge@);
        let section_key = self.network_knowledge.section_key();
        if self.check_generation(session_id.generation()).is_err() {
            let r: Result<Vec<Cmd>, DkgError> = Ok(Vec::new());
            proof {
                assert(cmd_views(r->Ok_0@) =~= Seq::empty());
                let fed = Feed::Rejected { key_gen: arbitrary() };
                assert(dkg_retry_handled(
                    v,
                    k,
                    id,
                    message_history@,
                    message,
                    sender,
                    Seq::empty(),
                    fed,
                    self.dkg_voter@,
                    cmd_views(r->Ok_0@),
                ));
            }
            return r;
        }
        let replayed = self.dkg_voter.handle_dkg_history(
            &self.info,
            session_id.copy(),
            message_history,
            sender.name,
            section_key,
        );
        let ghost mid = self.dkg_voter@;
        let ghost feeds = choose|feeds: Seq<Feed>| #[trigger]
            voter_history_replayed(
                v,
                id,
                message_history@,
                section_key@,
                feeds,
                mid,
                cmd_views(replayed->Ok_0@),
            );
        let mut cmds = match replayed {
            Ok(cmds) => cmds,
            Err(_) => Vec::new(),
        };
        let ghost first = cmds@;
        let mut more = self.deliver(session_id, message, sender, section_key);
        let ghost second = more@;
        cmds.append(&mut more);
        let r: Result<Vec<Cmd>, DkgError> = Ok(cmds);
        proof {
            let fed = choose|fed: Feed| #[trigger]
                dkg_msg_handled(
                    mid,
                    id,
                    message,
                    sender,
                    section_key@,
                    fed,
                    self.dkg_voter@,
                    cmd_views(second),
                );
            assert(cmd_views(r->Ok_0@) =~= cmd_views(first) + cmd_views(second));
            assert(dkg_retry_handled(
                v,
                k,
                id,
                message_history@,
                message,
                sender,
                feeds,
                fed,
                self.dkg_voter@,
                cmd_views(r->Ok_0@),
            ));
        }
        r
    }

    /// Handles the node's own observation that the session `session_id`
    /// failed because of `failed_participants`, with its signed statement:
    /// the voter takes notice of it, and at most one command results.
    pub fn handle_dkg_failure_observation(
        &mut self,
        session_id: DkgSessionId,
        failed_participants: &NameSet,
        signed: DkgFailureSig,
    ) -> (r: Result<Vec<Cmd>, DkgError>)
        ensures
            r is Ok,
            final(self).info == old(self).info,
            final(self).network_knowledge@ == old(self).network_knowledge@,
            final(self).section_keys@ == old(self).section_keys@,
            final(self).dkg_voter@ == voter_after_vote(
                old(self).dkg_voter@,
                session_id@,
                failed_participants@,
                signed@,
            ),
            cmd_views(r->Ok_0@) == optional_command(
                voter_vote_outcome(
                    old(self).dkg_voter@,
                    session_id@,
                    failed_participants@,
                    signed@,
                ),
            ),
    {
        let mut cmds: Vec<Cmd> = Vec::new();
        match self.dkg_voter.process_failure(&session_id, failed_participants, signed) {
            None => {
                assert(cmd_views(cmds@) =~= Seq::empty());
            },
            Some(cmd) => {
                cmds.push(cmd);
                assert(cmd_views(cmds@) =~= seq![cmd@]);
            },
        }
        Ok(cmds)
    }

    /// The first set of candidates, among those that the membership rules
    /// propose, whose failure in the generation of the section the
    /// statements of `failure_set` prove; or the error that they prove
    /// nothing.
    pub fn verify_failure_claim(&self, failure_set: &DkgFailureSigSet) -> (r: Result<
        ElderCandidates,
        DkgError,
    >)
        ensures
            r is Ok <==> claim_verified(failure_set@, self.network_knowledge@),
            r matches Ok(c) ==> self.network_knowledge@.candidate_variants.contains(c@)
                && set_verifies(failure_set@, c@, self.network_knowledge@.chain_len),
            r matches Err(e) ==> e == DkgError::UnverifiedFailureClaim,
    {
        let generation = self.network_knowledge.chain_len();
        let variants = self.network_knowledge.promote_and_demote_elders();
        let ghost k = self.network_knowledge@;
        let mut i: usize = 0;
        while i < variants.len()
            invariant
                i <= variants.len(),
                k == self.network_knowledge@,
                generation == k.chain_len,
                crate::knowledge::candidates_views(variants@) == k.candidate_variants,
                forall|j: int|
                    0 <= j < i ==> !set_verifies(
                        failure_set@,
                        #[trigger] k.candidate_variants[j],
                        k.chain_len,
                    ),
            decreases variants.len() - i,
        {
            assert(variants@[i as int]@ == k.candidate_variants[i as int]);
            if failure_set.verify(&variants[i], generation) {
                return Ok(variants[i].copy());
            }
            i += 1;
        }
        Err(DkgError::UnverifiedFailureClaim)
    }

    /// Handles the statements `failure_set`, which `sender` sent as proof
    /// that a session failed. A sender that is no member of the section is
    /// refused. Statements that do not prove the failure of a session that
    /// the section could be running are passed over. Otherwise the node
    /// proposes to take the participants held responsible as offline, where
    /// there are any, and has the elders worked out anew without them.
    pub fn handle_dkg_failure_agreement(&self, sender: &Name, failure_set: &DkgFailureSigSet) -> (r:
        Result<Vec<Cmd>, DkgError>)
        ensures
            result_views(r) == failure_agreement_result(
                self.network_knowledge@,
                *sender,
                failure_set@,
            ),
    {
        if !self.network_knowledge.is_section_member(sender) {
            return Err(DkgError::UnauthorizedSender);
        }
        let mut cmds: Vec<Cmd> = Vec::new();
        if self.verify_failure_claim(failure_set).is_err() {
            assert(cmd_views(cmds@) =~= Seq::empty());
            return Ok(cmds);
        }
        let failed = failure_set.failed_participants();
        if !failed.is_empty() {
            cmds.push(Cmd::ProposeOffline(failed.copy()));
        }
        cmds.push(Cmd::PromoteAndDemoteElders { excluded: failed });
        assert(cmd_views(cmds@) =~= agreement_commands(failure_set@.failed_participants));
        Ok(cmds)
    }

    /// Adopts the authority for the prefix of `sap` that holds `key`, where
    /// the section has signed one and the node has received it, and has the
    /// node's state brought up to date. Otherwise proposes `sap` to the
    /// elders that the node knows, signed with the share of `key`.
    pub fn adopt_or_propose(&mut self, sap: SectionAuthorityProvider, key: SectionKey) -> (cmds:
        Vec<Cmd>)
        ensures
            final(self).info == old(self).info,
            final(self).dkg_voter@ == old(self).dkg_voter@,
            final(self).section_keys@ == old(self).section_keys@,
            final(self).network_knowledge@ == knowledge_after_outcome(
                old(self).network_knowledge@,
                sap@,
                key@,
            ),
            cmd_views(cmds@) == outcome_commands(old(self).network_knowledge@, sap@, key@),
    {
        let previous = self.network_knowledge.authority_provider();
        let prefix = sap.prefix();
        let mut cmds: Vec<Cmd> = Vec::new();
        if self.network_knowledge.try_update_current_sap(&key, &prefix) {
            cmds.push(Cmd::UpdateNodeState { previous });
            assert(cmd_views(cmds@) =~= outcome_commands(old(self).network_knowledge@, sap@, key@));
        } else {
            let recipients = previous.elders_vec();
            cmds.push(Cmd::ProposeSectionInfo { recipients, section_auth: sap, signing_key: key });
            assert(cmd_views(cmds@) =~= outcome_commands(old(self).network_knowledge@, sap@, key@));
        }
        cmds
    }

    /// Handles the outcome of a handshake: the authority `sap` and this
    /// node's share `key_share` of its key. The share joins the shares that
    /// the node holds, and the node adopts or proposes as
    /// `adopt_or_propose` says, for the section key that the share carries.
    /// A share that carries no section key is refused, and nothing changes.
    pub fn handle_dkg_outcome(&mut self, sap: SectionAuthorityProvider, key_share: SectionKeyShare)
        -> (r: Result<Vec<Cmd>, DkgError>)
        ensures
            final(self).info == old(self).info,
            final(self).dkg_voter@ == old(self).dkg_voter@,
            match section_key_of(key_share.public_key_set) {
                None => {
                    &&& r == Err::<Vec<Cmd>, DkgError>(DkgError::HandshakeFailed)
                    &&& final(self).section_keys@ == old(self).section_keys@
                    &&& final(self).network_knowledge@ == old(self).network_knowledge@
                },
                Some(key) => {
                    &&& r is Ok
                    &&& final(self).section_keys@ == old(self).section_keys@.push(key_share)
                    &&& final(self).network_knowledge@ == knowledge_after_outcome(
                        old(self).network_knowledge@,
                        sap@,
                        key,
                    )
                    &&& cmd_views(r->Ok_0@) == outcome_commands(
                        old(self).network_knowledge@,
                        sap@,
                        key,
                    )
                },
            },
    {
        match key_share.public_key() {
            None => Err(DkgError::HandshakeFailed),
            Some(key) => {
                self.section_keys.push(key_share);
                let cmds = self.adopt_or_propose(sap, key);
                Ok(cmds)
            },
        }
    }

    /// Handles the statements `failure_set` that the voter handed on: the
    /// command sends them to the elders that the node knows.
    pub fn handle_dkg_failure(&self, failure_set: DkgFailureSigSet) -> (r: Result<Cmd, DkgError>)
        ensures
            r matches Ok(cmd) && cmd@ == failure_broadcast(self.network_knowledge@, failure_set@),
    {
        let authority = self.network_knowledge.authority_provider();
        Ok(
            Cmd::SendMsg {
                recipients: authority.elders_vec(),
                msg: SystemMsg::DkgFailureAgreement(failure_set),
                section_key: authority.section_key(),
            },
        )
    }
}

} // verus!
