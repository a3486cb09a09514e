//! The voter: every session of key generation that this node takes part in,
//! with the messages seen so far and the statements of failure gathered.

use vstd::prelude::*;
use bls_dkg::key_gen::message::Message as DkgMessage;
use bls_dkg::key_gen::KeyGen;
use crate::error::DkgError;
use crate::failure::{
    set_after_insert,
    signed_by,
    spec_has_failure_agreement,
    supermajority,
    DkgFailureSig,
    DkgFailureSigSet,
    FailureSetView,
    FailureSigView,
};
use crate::handshake::{
    clone_message,
    creator_index,
    generate_keys,
    handle_message,
    initialize,
    message_creator,
    same_message,
};
use crate::keys::{key_bytes, key_set_bytes, section_key_of, SectionKey, SectionKeyShare};
use crate::knowledge::{sap_of, SectionAuthorityProvider};
use crate::messages::{cmd_views, copy_messages, Cmd, CmdView, SystemMsg, SystemMsgView};
use crate::name::{names_without, same_names, Name, NameSet};
use crate::peer::Peer;
use crate::session::{peer_names, CandidatesView, DkgSessionId, ElderCandidates, SessionIdView};

verus! {

/// How far a session has come.
#[derive(Clone, Copy, Debug, PartialEq, Eq, Structural, Hash)]
pub enum SessionStatus {
    /// The handshake goes on.
    Active,
    /// The handshake ended and gave this node its share of the key.
    Succeeded,
    /// The handshake ended without a key that all candidates share.
    Failed,
}

/// What the voter holds of one session.
pub struct SessionView {
    /// The candidates that generate the key.
    pub candidates: CandidatesView,
    /// The position of this node among the candidates.
    pub participant_index: usize,
    /// The messages of the handshake that were handed to the session,
    /// oldest first.
    pub history: Seq<DkgMessage>,
    /// The statements of failure gathered so far.
    pub failures: FailureSetView,
    /// Whether the statements of failure were handed on once they were
    /// enough.
    pub failure_reported: bool,
    /// How far the session has come.
    pub status: SessionStatus,
    /// The state of the handshake.
    pub key_gen: KeyGen,
}

/// What the handshake gives when it has ended.
pub struct Generated {
    /// The participants that took part to the end.
    pub participants: Seq<Name>,
    /// The public keys of the set.
    pub public_key_set: blsttc::PublicKeySet,
    /// The secret share of this node.
    pub secret_key_share: blsttc::SecretKeyShare,
}

/// What the handshake gave when it ended, with the section key that was
/// found in the key set.
pub struct Keys {
    /// The participants that took part to the end.
    pub participants: Seq<Name>,
    /// The public keys of the set.
    pub public_key_set: blsttc::PublicKeySet,
    /// The secret share of this node.
    pub secret_key_share: blsttc::SecretKeyShare,
    /// The bytes of the section key that the set holds, if it holds one.
    pub section_key: Option<Seq<u8>>,
}

/// What came back from the handshake when a message was handed to it. The
/// handshake draws random numbers, so this is not determined by the message.
pub enum Feed {
    /// The handshake refused the message.
    Rejected {
        /// The state of the handshake afterwards.
        key_gen: KeyGen,
    },
    /// The handshake took the message.
    Answered {
        /// The state of the handshake afterwards.
        key_gen: KeyGen,
        /// The messages to send in answer, each with the name of the
        /// candidate that it is for.
        responses: Seq<(Name, DkgMessage)>,
        /// What the handshake gave, if it has ended.
        keys: Option<Generated>,
    },
}

/// The position of `name` in `names`.
pub open spec fn name_position(names: Seq<Name>, name: Name) -> int {
    choose|i: int| 0 <= i < names.len() && names[i] == name
}

/// The command that sends one answer of the handshake to the candidate that
/// it is for. An answer for a name that is no candidate is dropped.
pub open spec fn response_command(
    id: SessionIdView,
    elders: Seq<Peer>,
    response: (Name, DkgMessage),
    section_key: Seq<u8>,
) -> Seq<CmdView> {
    let names = peer_names(elders);
    if names.contains(response.0) {
        seq![
            CmdView::SendMsg {
                recipients: seq![elders[name_position(names, response.0)]],
                msg: SystemMsgView::DkgMessage { session_id: id, message: response.1 },
                section_key,
            },
        ]
    } else {
        Seq::empty()
    }
}

/// The commands that send the answers of the handshake, in their order.
pub open spec fn response_commands(
    id: SessionIdView,
    elders: Seq<Peer>,
    responses: Seq<(Name, DkgMessage)>,
    section_key: Seq<u8>,
) -> Seq<CmdView>
    decreases responses.len(),
{
    if responses.len() == 0 {
        Seq::empty()
    } else {
        response_commands(id, elders, responses.drop_last(), section_key) + response_command(
            id,
            elders,
            responses.last(),
            section_key,
        )
    }
}

/// How a session ends, and the command that says so. It has succeeded
/// where exactly the candidates took part to the end and the key set holds
/// a section key: the command then hands on the candidates as the new
/// authority and this node's share. Otherwise it has failed, and the command
/// names the candidates that did not take part to the end.
pub open spec fn completion(
    id: SessionIdView,
    c: CandidatesView,
    participant_index: usize,
    keys: Keys,
) -> (SessionStatus, CmdView) {
    let names = peer_names(c.elders);
    if same_names(keys.participants, names) && keys.section_key is Some {
        (
            SessionStatus::Succeeded,
            CmdView::HandleDkgOutcome {
                section_auth: sap_of(c, keys.section_key->Some_0),
                outcome: SectionKeyShare {
                    public_key_set: keys.public_key_set,
                    index: participant_index,
                    secret_key_share: keys.secret_key_share,
                },
            },
        )
    } else {
        (
            SessionStatus::Failed,
            CmdView::ObserveDkgFailure {
                session_id: id,
                failed_participants: names_without(names, keys.participants),
            },
        )
    }
}

/// What the handshake gave, with the section key that its key set holds.
pub open spec fn keys_of(generated: Generated) -> Keys {
    Keys {
        participants: generated.participants,
        public_key_set: generated.public_key_set,
        secret_key_share: generated.secret_key_share,
        section_key: section_key_of(generated.public_key_set),
    }
}

/// Whether a message may be handed to the handshake: the handshake counts
/// on from the index of the message's creator, which therefore must not be
/// the largest number.
pub open spec fn acceptable(message: DkgMessage) -> bool {
    creator_index(message) < u64::MAX
}

/// The session after `message` was handed to it and `fed` came back. The
/// message is recorded in any case. Only a session whose handshake goes on
/// hands the message to the handshake.
pub open spec fn session_after_message(
    id: SessionIdView,
    s: SessionView,
    message: DkgMessage,
    fed: Feed,
) -> SessionView {
    let recorded = SessionView { history: s.history.push(message), ..s };
    if s.status != SessionStatus::Active || !acceptable(message) {
        recorded
    } else {
        match fed {
            Feed::Rejected { key_gen } => SessionView { key_gen, ..recorded },
            Feed::Answered { key_gen, responses, keys } => SessionView {
                key_gen,
                status: match keys {
                    None => SessionStatus::Active,
                    Some(generated) => completion(
                        id,
                        s.candidates,
                        s.participant_index,
                        keys_of(generated),
                    ).0,
                },
                ..recorded
            },
        }
    }
}

/// What handing `message` to the session gives: nothing where the handshake
/// has ended; the error where the handshake refused the message; otherwise
/// the commands that send the answers, followed by the command that says how
/// the session ended, if it did.
pub open spec fn message_result(
    id: SessionIdView,
    s: SessionView,
    message: DkgMessage,
    fed: Feed,
    section_key: Seq<u8>,
) -> Result<Seq<CmdView>, DkgError> {
    if s.status != SessionStatus::Active {
        Ok(Seq::empty())
    } else if !acceptable(message) {
        Err(DkgError::HandshakeFailed)
    } else {
        match fed {
            Feed::Rejected { .. } => Err(DkgError::HandshakeFailed),
            Feed::Answered { key_gen, responses, keys } => Ok(
                response_commands(id, s.candidates.elders, responses, section_key) + match keys {
                    None => Seq::empty(),
                    Some(generated) => seq![
                        completion(id, s.candidates, s.participant_index, keys_of(generated)).1,
                    ],
                },
            ),
        }
    }
}

/// The session after the messages of `incoming` were replayed to it in
/// their order, where `feeds[i]` came back for `incoming[i]`. A message that
/// the session has recorded already is passed over.
pub open spec fn session_after_replay(
    id: SessionIdView,
    s: SessionView,
    incoming: Seq<DkgMessage>,
    feeds: Seq<Feed>,
) -> SessionView
    decreases incoming.len(),
{
    if incoming.len() == 0 {
        s
    } else {
        let before = session_after_replay(id, s, incoming.drop_last(), feeds.drop_last());
        if before.history.contains(incoming.last()) {
            before
        } else {
            session_after_message(id, before, incoming.last(), feeds.last())
        }
    }
}

/// The commands that the replay of `incoming` gives. A message that the
/// handshake refuses gives none.
pub open spec fn replay_commands(
    id: SessionIdView,
    s: SessionView,
    incoming: Seq<DkgMessage>,
    feeds: Seq<Feed>,
    section_key: Seq<u8>,
) -> Seq<CmdView>
    decreases incoming.len(),
{
    if incoming.len() == 0 {
        Seq::empty()
    } else {
        let before = session_after_replay(id, s, incoming.drop_last(), feeds.drop_last());
        let earlier = replay_commands(
            id,
            s,
            incoming.drop_last(),
            feeds.drop_last(),
            section_key,
        );
        if before.history.contains(incoming.last()) {
            earlier
        } else {
            match message_result(id, before, incoming.last(), feeds.last(), section_key) {
                Ok(cmds) => earlier + cmds,
                Err(_) => earlier,
            }
        }
    }
}

/// Whether `after` and `result` are what handing `message` to the session
/// `s` gives when `fed` comes back from the handshake.
pub open spec fn message_applied(
    id: SessionIdView,
    s: SessionView,
    message: DkgMessage,
    section_key: Seq<u8>,
    fed: Feed,
    after: SessionView,
    result: Result<Seq<CmdView>, DkgError>,
) -> bool {
    after == session_after_message(id, s, message, fed) && result == message_result(
        id,
        s,
        message,
        fed,
        section_key,
    )
}

/// Whether `after` and `cmds` are what the replay of `incoming` to the
/// session `s` gives when `feeds` come back from the handshake.
pub open spec fn history_replayed(
    id: SessionIdView,
    s: SessionView,
    incoming: Seq<DkgMessage>,
    section_key: Seq<u8>,
    feeds: Seq<Feed>,
    after: SessionView,
    cmds: Seq<CmdView>,
) -> bool {
    feeds.len() == incoming.len() && after == session_after_replay(id, s, incoming, feeds) && cmds
        == replay_commands(id, s, incoming, feeds, section_key)
}

/// No statement of failure about the session `id`.
pub open spec fn no_failures(id: SessionIdView) -> FailureSetView {
    FailureSetView { sigs: Seq::empty(), failed_participants: Seq::empty(), session_id: id }
}

/// Whether the session takes notice of the statement `sig`, which came with
/// `failed`: it has not handed on its statements yet, the signer is one of
/// its candidates, and the statement is about this session and holds
/// exactly `failed` responsible.
pub open spec fn vote_admitted(
    s: SessionView,
    id: SessionIdView,
    failed: Seq<Name>,
    sig: FailureSigView,
) -> bool {
    !s.failure_reported && peer_names(s.candidates.elders).contains(sig.signer) && sig.session_id
        == id && sig.failed_participants == failed
}

/// Whether the statement `sig` is the one with which the statements of the
/// session become enough.
pub open spec fn vote_decides(
    s: SessionView,
    id: SessionIdView,
    failed: Seq<Name>,
    sig: FailureSigView,
) -> bool {
    vote_admitted(s, id, failed, sig) && !signed_by(s.failures.sigs, sig.signer)
        && spec_has_failure_agreement(s.candidates.elders.len(), s.failures.sigs.len() + 1)
}

/// The session after the statement `sig`, which came with `failed`. Once
/// the statements are enough they are handed on, the session keeps none of
/// them, and it takes notice of no further one.
pub open spec fn session_after_vote(
    s: SessionView,
    id: SessionIdView,
    failed: Seq<Name>,
    sig: FailureSigView,
) -> SessionView {
    if !vote_admitted(s, id, failed, sig) {
        s
    } else if vote_decides(s, id, failed, sig) {
        SessionView { failures: no_failures(s.failures.session_id), failure_reported: true, ..s }
    } else {
        SessionView { failures: set_after_insert(s.failures, sig, failed), ..s }
    }
}

/// The command that the statement `sig` gives: the one that hands on all
/// statements, where `sig` makes them enough.
pub open spec fn vote_outcome(
    s: SessionView,
    id: SessionIdView,
    failed: Seq<Name>,
    sig: FailureSigView,
) -> Option<CmdView> {
    if vote_decides(s, id, failed, sig) {
        Some(CmdView::HandleDkgFailure(set_after_insert(s.failures, sig, failed)))
    } else {
        None
    }
}

/// What the commands of a result stand for.
pub open spec fn result_views(r: Result<Vec<Cmd>, DkgError>) -> Result<Seq<CmdView>, DkgError> {
    match r {
        Ok(cmds) => Ok(cmd_views(cmds@)),
        Err(e) => Err(e),
    }
}

/// What an optional command stands for.
pub open spec fn option_view(r: Option<Cmd>) -> Option<CmdView> {
    match r {
        Some(cmd) => Some(cmd@),
        None => None,
    }
}

/// The commands that send the answers of the handshake of the session
/// `session_id` to the candidates that they are for.
pub fn send_responses(
    session_id: &DkgSessionId,
    candidates: &ElderCandidates,
    responses: &Vec<(Name, DkgMessage)>,
    section_key: SectionKey,
) -> (cmds: Vec<Cmd>)
    ensures
        cmd_views(cmds@) == response_commands(
            session_id@,
            candidates@.elders,
            responses@,
            section_key@,
        ),
{
    let mut cmds: Vec<Cmd> = Vec::new();
    let mut i: usize = 0;
    assert(cmd_views(cmds@) =~= Seq::empty());
    while i < responses.len()
        invariant
            i <= responses.len(),
            cmd_views(cmds@) == response_commands(
                session_id@,
                candidates@.elders,
                responses@.take(i as int),
                section_key@,
            ),
        decreases responses.len() - i,
    {
        let ghost before = cmds@;
        let ghost names = peer_names(candidates@.elders);
        assert(responses@.take(i + 1).drop_last() == responses@.take(i as int));
        assert(responses@.take(i + 1).last() == responses@[i as int]);
        let target = responses[i].0;
        match candidates.position(&target) {
            Some(at) => {
                proof {
                    use_type_invariant(candidates);
                    assert(names[at as int] == target);
                    let chosen = name_position(names, target);
                    assert(chosen == at) by {
                        if chosen < at {
                            assert(crate::name::name_lt(names[chosen], names[at as int]));
                        } else if chosen > at {
                            assert(crate::name::name_lt(names[at as int], names[chosen]));
                        }
                    }
                }
                let mut recipients: Vec<Peer> = Vec::new();
                recipients.push(candidates.get(at));
                let cmd = Cmd::SendMsg {
                    recipients,
                    msg: SystemMsg::DkgMessage {
                        session_id: session_id.copy(),
                        message: clone_message(&responses[i].1),
                    },
                    section_key,
                };
                proof {
                    assert(recipients@ =~= seq![candidates@.elders[at as int]]);
                }
                cmds.push(cmd);
                assert(cmd_views(cmds@) =~= cmd_views(before) + response_command(
                    session_id@,
                    candidates@.elders,
                    responses@[i as int],
                    section_key@,
                ));
            },
            None => {
                assert(cmd_views(cmds@) =~= cmd_views(before) + response_command(
                    session_id@,
                    candidates@.elders,
                    responses@[i as int],
                    section_key@,
                ));
            },
        }
        i += 1;
    }
    assert(responses@.take(responses.len() as int) == responses@);
    cmds
}

/// How the session `session_id` of `candidates` ends, given what its
/// handshake gave, and the command that says so.
pub fn complete(
    session_id: &DkgSessionId,
    candidates: &ElderCandidates,
    participant_index: usize,
    participants: &Vec<Name>,
    public_key_set: blsttc::PublicKeySet,
    secret_key_share: blsttc::SecretKeyShare,
    section_key: Option<SectionKey>,
) -> (r: (SessionStatus, Cmd))
    ensures
        (r.0, r.1@) == completion(
            session_id@,
            candidates@,
            participant_index,
            Keys {
                participants: participants@,
                public_key_set,
                secret_key_share,
                section_key: key_bytes(section_key),
            },
        ),
{
    let names = candidates.name_set();
    let present = NameSet::from_vec(participants);
    let all_present = present.same(&names);
    proof {
        assert(all_present == same_names(participants@, names@));
    }
    match section_key {
        Some(key) if all_present => {
            let section_auth = SectionAuthorityProvider::from_elder_candidates(
                candidates.copy(),
                key,
            );
            let outcome = SectionKeyShare::new(public_key_set, participant_index, secret_key_share);
            (SessionStatus::Succeeded, Cmd::HandleDkgOutcome { section_auth, outcome })
        },
        _ => {
            let failed_participants = names.without(&present);
            proof {
                lemma_without_same(names@, present@, participants@);
            }
            (
                SessionStatus::Failed,
                Cmd::ObserveDkgFailure { session_id: session_id.copy(), failed_participants },
            )
        },
    }
}

/// Which names are left out depends only on which names are excluded, not
/// on their order or on how often each occurs.
pub proof fn lemma_without_same(names: Seq<Name>, a: Seq<Name>, b: Seq<Name>)
    requires
        same_names(a, b),
    ensures
        names_without(names, a) == names_without(names, b),
    decreases names.len(),
{
    if names.len() > 0 {
        lemma_without_same(names.drop_last(), a, b);
    }
}

/// One session as the voter holds it.
#[derive(Debug)]
struct Session {
    id: DkgSessionId,
    candidates: ElderCandidates,
    participant_index: usize,
    key_gen: KeyGen,
    history: Vec<DkgMessage>,
    failures: DkgFailureSigSet,
    failure_reported: bool,
    status: SessionStatus,
}

impl View for Session {
    type V = SessionView;

    closed spec fn view(&self) -> SessionView {
        SessionView {
            candidates: self.candidates@,
            participant_index: self.participant_index,
            history: self.history@,
            failures: self.failures@,
            failure_reported: self.failure_reported,
            status: self.status,
            key_gen: self.key_gen,
        }
    }
}

impl Session {
    /// The identity of the session.
    spec fn id(&self) -> SessionIdView {
        self.id@
    }

    /// Whether `message` is recorded in the history of the session.
    fn has_recorded(&self, message: &DkgMessage) -> (b: bool)
        ensures
            b == self@.history.contains(*message),
    {
        let mut i: usize = 0;
        while i < self.history.len()
            invariant
                i <= self.history.len(),
                forall|k: int| 0 <= k < i ==> self.history@[k] != *message,
            decreases self.history.len() - i,
        {
            if same_message(&self.history[i], message) {
                return true;
            }
            i += 1;
        }
        false
    }

    /// Records `message` and, where the handshake goes on, hands it to the
    /// handshake.
    fn apply(&mut self, message: DkgMessage, section_key: SectionKey) -> (r: Result<
        Vec<Cmd>,
        DkgError,
    >)
        ensures
            final(self).id() == old(self).id(),
            exists|fed: Feed| #[trigger]
                message_applied(
                    old(self).id(),
                    old(self)@,
                    message,
                    section_key@,
                    fed,
                    final(self)@,
                    result_views(r),
                ),
    {
        let ghost id = self.id@;
        let ghost before = self@;
        assert(id == old(self).id() && before == old(self)@);
        self.history.push(clone_message(&message));
        match self.status {
            SessionStatus::Active => {},
            _ => {
                let cmds: Vec<Cmd> = Vec::new();
                assert(cmd_views(cmds@) =~= Seq::empty());
                let r: Result<Vec<Cmd>, DkgError> = Ok(cmds);
                proof {
                    let fed = Feed::Rejected { key_gen: self.key_gen };
                    assert(message_applied(
                        id,
                        before,
                        message,
                        section_key@,
                        fed,
                        self@,
                        result_views(r),
                    ));
                }
                return r;
            },
        }
        if message_creator(&message) == u64::MAX {
            proof {
                let fed = Feed::Rejected { key_gen: self.key_gen };
                assert(message_applied(
                    id,
                    before,
                    message,
                    section_key@,
                    fed,
                    self@,
                    Err(DkgError::HandshakeFailed),
                ));
            }
            return Err(DkgError::HandshakeFailed);
        }
        match handle_message(&mut self.key_gen, message) {
            Err(_) => {
                proof {
                    let fed = Feed::Rejected { key_gen: self.key_gen };
                    assert(message_applied(
                        id,
                        before,
                        message,
                        section_key@,
                        fed,
                        self@,
                        Err(DkgError::HandshakeFailed),
                    ));
                }
                Err(DkgError::HandshakeFailed)
            },
            Ok(responses) => {
                let mut cmds = send_responses(&self.id, &self.candidates, &responses, section_key);
                match generate_keys(&self.key_gen) {
                    None => {
                        proof {
                            let fed = Feed::Answered {
                                key_gen: self.key_gen,
                                responses: responses@,
                                keys: None,
                            };
                            assert(cmd_views(cmds@) =~= cmd_views(cmds@) + Seq::<CmdView>::empty());
                            assert(message_applied(
                                id,
                                before,
                                message,
                                section_key@,
                                fed,
                                self@,
                                Ok(cmd_views(cmds@)),
                            ));
                        }
                        Ok(cmds)
                    },
                    Some((participants, public_key_set, secret_key_share)) => {
                        let section_key_found = SectionKey::leading(
                            &key_set_bytes(&public_key_set),
                        );
                        let ghost generated = Generated {
                            participants: participants@,
                            public_key_set,
                            secret_key_share,
                        };
                        let (status, cmd) = complete(
                            &self.id,
                            &self.candidates,
                            self.participant_index,
                            &participants,
                            public_key_set,
                            secret_key_share,
                            section_key_found,
                        );
                        self.status = status;
                        let ghost sent = cmds@;
                        cmds.push(cmd);
                        proof {
                            let fed = Feed::Answered {
                                key_gen: self.key_gen,
                                responses: responses@,
                                keys: Some(generated),
                            };
                            assert(cmd_views(cmds@) =~= cmd_views(sent) + seq![cmd@]);
                            assert(message_applied(
                                id,
                                before,
                                message,
                                section_key@,
                                fed,
                                self@,
                                Ok(cmd_views(cmds@)),
                            ));
                        }
                        Ok(cmds)
                    },
                }
            },
        }
    }

    /// Replays the messages of `incoming` that the session has not recorded.
    fn replay(&mut self, incoming: &Vec<DkgMessage>, section_key: SectionKey) -> (cmds: Vec<Cmd>)
        ensures
            final(self).id() == old(self).id(),
            exists|feeds: Seq<Feed>| #[trigger]
                history_replayed(
                    old(self).id(),
                    old(self)@,
                    incoming@,
                    section_key@,
                    feeds,
                    final(self)@,
                    cmd_views(cmds@),
                ),
    {
        let ghost id = self.id@;
        let ghost start = self@;
        assert(id == old(self).id() && start == old(self)@);
        let ghost mut feeds: Seq<Feed> = Seq::empty();
        let mut cmds: Vec<Cmd> = Vec::new();
        let mut i: usize = 0;
        assert(cmd_views(cmds@) =~= Seq::empty());
        assert(incoming@.take(0) =~= Seq::empty());
        while i < incoming.len()
            invariant
                i <= incoming.len(),
                self.id() == id,
                feeds.len() == i,
                self@ == session_after_replay(id, start, incoming@.take(i as int), feeds),
                cmd_views(cmds@) == replay_commands(
                    id,
                    start,
                    incoming@.take(i as int),
                    feeds,
                    section_key@,
                ),
            decreases incoming.len() - i,
        {
            let ghost before = self@;
            let ghost earlier = cmds@;
            let ghost fed_before = feeds;
            let message = &incoming[i];
            assert(incoming@.take(i + 1).drop_last() == incoming@.take(i as int));
            assert(incoming@.take(i + 1).last() == *message);
            if self.has_recorded(message) {
                proof {
                    feeds = feeds.push(Feed::Rejected { key_gen: self.key_gen });
                    assert(feeds.drop_last() == fed_before);
                }
            } else {
                let r = self.apply(clone_message(message), section_key);
                proof {
                    let fed = choose|fed: Feed| #[trigger]
                        message_applied(
                            id,
                            before,
                            *message,
                            section_key@,
                            fed,
                            self@,
                            result_views(r),
                        );
                    feeds = feeds.push(fed);
                    assert(feeds.drop_last() == fed_before);
                    assert(feeds.last() == fed);
                }
                match r {
                    Ok(mut more) => {
                        let ghost added = more@;
                        cmds.append(&mut more);
                        assert(cmd_views(cmds@) =~= cmd_views(earlier) + cmd_views(added));
                    },
                    Err(_) => {},
                }
            }
            i += 1;
        }
        assert(incoming@.take(incoming.len() as int) == incoming@);
        assert(history_replayed(id, start, incoming@, section_key@, feeds, self@, cmd_views(cmds@)));
        cmds
    }

    /// Takes notice of the statement `signed`, which came with
    /// `failed_participants`.
    fn vote(&mut self, failed_participants: &NameSet, signed: DkgFailureSig) -> (r: Option<Cmd>)
        requires
            old(self)@.failures.session_id == old(self).id(),
        ensures
            final(self).id() == old(self).id(),
            final(self)@.failures.session_id == final(self).id(),
            final(self)@ == session_after_vote(
                old(self)@,
                old(self).id(),
                failed_participants@,
                signed@,
            ),
            option_view(r) == vote_outcome(
                old(self)@,
                old(self).id(),
                failed_participants@,
                signed@,
            ),
    {
        if self.failure_reported {
            return None;
        }
        if !self.candidates.contains_name(&signed.signer()) {
            return None;
        }
        if !signed.verify(&self.id, failed_participants) {
            return None;
        }
        let taken = self.failures.insert(signed, failed_participants);
        if taken && self.failures.has_agreement(&self.candidates) {
            let mut set = DkgFailureSigSet::new(self.id.copy());
            core::mem::swap(&mut self.failures, &mut set);
            self.failure_reported = true;
            Some(Cmd::HandleDkgFailure(set))
        } else {
            None
        }
    }
}

/// What the voter holds: for the identity of each registered session, the
/// session.
pub type VoterView = Map<SessionIdView, SessionView>;

/// The sessions of `v` that are for the generation `generation` or a later
/// one.
pub open spec fn purged(v: VoterView, generation: u64) -> VoterView {
    Map::new(
        |id: SessionIdView| v.dom().contains(id) && id.generation >= generation,
        |id: SessionIdView| v[id],
    )
}

/// The session `id` of the candidates of `c` as it is when it starts.
pub open spec fn fresh_session(
    id: SessionIdView,
    c: CandidatesView,
    participant_index: usize,
    key_gen: KeyGen,
) -> SessionView {
    SessionView {
        candidates: c,
        participant_index,
        history: Seq::empty(),
        failures: no_failures(id),
        failure_reported: false,
        status: SessionStatus::Active,
        key_gen,
    }
}

/// Whether the node named `own_name` is one of the candidates of `c`.
pub open spec fn is_participant(c: CandidatesView, own_name: Name) -> bool {
    peer_names(c.elders).contains(own_name)
}

/// The voter after the session `id` of the candidates of `c` was started
/// by the node named `own_name`. Every session of an earlier generation is
/// gone. Where the node is one of the candidates, the session is
/// registered as a new one, in place of an earlier session with this
/// identity.
pub open spec fn voter_after_start(
    v: VoterView,
    id: SessionIdView,
    c: CandidatesView,
    own_name: Name,
    key_gen: KeyGen,
) -> VoterView {
    let kept = purged(v, id.generation);
    if is_participant(c, own_name) {
        kept.insert(
            id,
            fresh_session(id, c, name_position(peer_names(c.elders), own_name) as usize, key_gen),
        )
    } else {
        kept
    }
}

/// Whether `responses` are the opening messages of a handshake of the
/// candidates of `c`: one for each candidate, in the order of the
/// candidates, all of them the same message.
pub open spec fn opening_messages(c: CandidatesView, responses: Seq<(Name, DkgMessage)>) -> bool {
    responses.len() == c.elders.len() && forall|i: int|
        0 <= i < responses.len() ==> (#[trigger] responses[i]).0 == c.elders[i].name
            && responses[i].1 == responses[0].1
}

/// Whether `after` and `cmds` are what the start of the session `id` gives
/// when the handshake opens with the state `key_gen` and the messages
/// `responses`.
pub open spec fn session_started(
    v: VoterView,
    id: SessionIdView,
    c: CandidatesView,
    own_name: Name,
    section_key: Seq<u8>,
    key_gen: KeyGen,
    responses: Seq<(Name, DkgMessage)>,
    after: VoterView,
    cmds: Seq<CmdView>,
) -> bool {
    &&& after == voter_after_start(v, id, c, own_name, key_gen)
    &&& is_participant(c, own_name) ==> opening_messages(c, responses) && cmds
        == response_commands(id, c.elders, responses, section_key)
    &&& !is_participant(c, own_name) ==> cmds == Seq::<CmdView>::empty()
}

/// The voter after `message` was handed to its session `id` and `fed` came
/// back from the handshake. A voter without that session stays as it is.
pub open spec fn voter_after_message(
    v: VoterView,
    id: SessionIdView,
    message: DkgMessage,
    fed: Feed,
) -> VoterView {
    if v.dom().contains(id) {
        v.insert(id, session_after_message(id, v[id], message, fed))
    } else {
        v
    }
}

/// What handing `message` to the session `id` of the voter gives. A
/// session that is not registered gives no command and no error.
pub open spec fn voter_message_result(
    v: VoterView,
    id: SessionIdView,
    message: DkgMessage,
    fed: Feed,
    section_key: Seq<u8>,
) -> Result<Seq<CmdView>, DkgError> {
    if v.dom().contains(id) {
        message_result(id, v[id], message, fed, section_key)
    } else {
        Ok(Seq::empty())
    }
}

/// Whether `after` and `result` are what handing `message` to the session
/// `id` of the voter gives when `fed` comes back from the handshake.
pub open spec fn voter_message_applied(
    v: VoterView,
    id: SessionIdView,
    message: DkgMessage,
    section_key: Seq<u8>,
    fed: Feed,
    after: VoterView,
    result: Result<Seq<CmdView>, DkgError>,
) -> bool {
    after == voter_after_message(v, id, message, fed) && result == voter_message_result(
        v,
        id,
        message,
        fed,
        section_key,
    )
}

/// The voter after the messages of `incoming` were replayed to its session
/// `id` and `feeds` came back from the handshake. A voter without that
/// session stays as it is.
pub open spec fn voter_after_replay(
    v: VoterView,
    id: SessionIdView,
    incoming: Seq<DkgMessage>,
    feeds: Seq<Feed>,
) -> VoterView {
    if v.dom().contains(id) {
        v.insert(id, session_after_replay(id, v[id], incoming, feeds))
    } else {
        v
    }
}

/// The commands that the replay of `incoming` to the session `id` of the
/// voter gives: none where the session is not registered.
pub open spec fn voter_replay_commands(
    v: VoterView,
    id: SessionIdView,
    incoming: Seq<DkgMessage>,
    feeds: Seq<Feed>,
    section_key: Seq<u8>,
) -> Seq<CmdView> {
    if v.dom().contains(id) {
        replay_commands(id, v[id], incoming, feeds, section_key)
    } else {
        Seq::empty()
    }
}

/// Whether `after` and `cmds` are what the replay of `incoming` to the
/// session `id` of the voter gives when `feeds` come back from the
/// handshake, one for each message.
pub open spec fn voter_history_replayed(
    v: VoterView,
    id: SessionIdView,
    incoming: Seq<DkgMessage>,
    section_key: Seq<u8>,
    feeds: Seq<Feed>,
    after: VoterView,
    cmds: Seq<CmdView>,
) -> bool {
    &&& feeds.len() == incoming.len()
    &&& after == voter_after_replay(v, id, incoming, feeds)
    &&& cmds == voter_replay_commands(v, id, incoming, feeds, section_key)
}

/// The voter after the statement `sig` about the session `id`, which came
/// with `failed`.
pub open spec fn voter_after_vote(
    v: VoterView,
    id: SessionIdView,
    failed: Seq<Name>,
    sig: FailureSigView,
) -> VoterView {
    if v.dom().contains(id) {
        v.insert(id, session_after_vote(v[id], id, failed, sig))
    } else {
        v
    }
}

/// The command that the statement `sig` about the session `id` gives.
pub open spec fn voter_vote_outcome(
    v: VoterView,
    id: SessionIdView,
    failed: Seq<Name>,
    sig: FailureSigView,
) -> Option<CmdView> {
    if v.dom().contains(id) {
        vote_outcome(v[id], id, failed, sig)
    } else {
        None
    }
}

/// The messages that the voter has recorded for the session `id`, oldest
/// first: none where the session is not registered.
pub open spec fn cached_messages(v: VoterView, id: SessionIdView) -> Seq<DkgMessage> {
    if v.dom().contains(id) {
        v[id].history
    } else {
        Seq::empty()
    }
}

spec fn ids_distinct(s: Seq<Session>) -> bool {
    forall|i: int, j: int| 0 <= i < j < s.len() ==> (#[trigger] s[i]).id() != (#[trigger] s[j]).id()
}

spec fn failures_in_place(s: Seq<Session>) -> bool {
    forall|i: int| 0 <= i < s.len() ==> (#[trigger] s[i])@.failures.session_id == s[i].id()
}

spec fn known_at(s: Seq<Session>, id: SessionIdView, i: int) -> bool {
    0 <= i < s.len() && s[i].id() == id
}

spec fn sessions_map(s: Seq<Session>) -> VoterView {
    Map::new(
        |id: SessionIdView| exists|i: int| known_at(s, id, i),
        |id: SessionIdView| s[choose|i: int| known_at(s, id, i)]@,
    )
}

proof fn lemma_map_at(s: Seq<Session>, i: int)
    requires
        ids_distinct(s),
        0 <= i < s.len(),
    ensures
        sessions_map(s).dom().contains(s[i].id()),
        sessions_map(s)[s[i].id()] == s[i]@,
{
    let id = s[i].id();
    assert(known_at(s, id, i));
    let c = choose|c: int| known_at(s, id, c);
    assert(c == i) by {
        if c < i {
            assert(s[c].id() != s[i].id());
        } else if c > i {
            assert(s[i].id() != s[c].id());
        }
    }
}

proof fn lemma_map_update(s: Seq<Session>, i: int, n: Session)
    requires
        ids_distinct(s),
        0 <= i < s.len(),
        n.id() == s[i].id(),
    ensures
        ids_distinct(s.update(i, n)),
        sessions_map(s.update(i, n)) == sessions_map(s).insert(n.id(), n@),
{
    let t = s.update(i, n);
    assert forall|a: int, b: int| 0 <= a < b < t.len() implies (#[trigger] t[a]).id() != (
    #[trigger] t[b]).id() by {
        assert(s[a].id() != s[b].id());
    }
    let m0 = sessions_map(s).insert(n.id(), n@);
    let m1 = sessions_map(t);
    assert forall|id: SessionIdView| m1.dom().contains(id) <==> m0.dom().contains(id) by {
        if m1.dom().contains(id) {
            let c = choose|c: int| known_at(t, id, c);
            assert(known_at(s, id, c));
        }
        if sessions_map(s).dom().contains(id) {
            let c = choose|c: int| known_at(s, id, c);
            assert(known_at(t, id, c));
        }
        if id == n.id() {
            assert(known_at(t, id, i));
        }
    }
    assert forall|id: SessionIdView| m1.dom().contains(id) implies m1[id] == m0[id] by {
        let c = choose|c: int| known_at(t, id, c);
        lemma_map_at(t, c);
        if c != i {
            lemma_map_at(s, c);
        }
    }
    assert(m1 =~= m0);
}

proof fn lemma_map_push(s: Seq<Session>, n: Session)
    requires
        ids_distinct(s),
        forall|i: int| 0 <= i < s.len() ==> (#[trigger] s[i]).id() != n.id(),
    ensures
        ids_distinct(s.push(n)),
        sessions_map(s.push(n)) == sessions_map(s).insert(n.id(), n@),
{
    let t = s.push(n);
    assert forall|a: int, b: int| 0 <= a < b < t.len() implies (#[trigger] t[a]).id() != (
    #[trigger] t[b]).id() by {
        if b < s.len() {
            assert(s[a].id() != s[b].id());
        } else {
            assert(s[a].id() != n.id());
        }
    }
    let m0 = sessions_map(s).insert(n.id(), n@);
    let m1 = sessions_map(t);
    assert forall|id: SessionIdView| m1.dom().contains(id) <==> m0.dom().contains(id) by {
        if m1.dom().contains(id) {
            let c = choose|c: int| known_at(t, id, c);
            if c < s.len() {
                assert(known_at(s, id, c));
            }
        }
        if sessions_map(s).dom().contains(id) {
            let c = choose|c: int| known_at(s, id, c);
            assert(known_at(t, id, c));
        }
        if id == n.id() {
            assert(known_at(t, id, s.len() as int));
        }
    }
    assert forall|id: SessionIdView| m1.dom().contains(id) implies m1[id] == m0[id] by {
        let c = choose|c: int| known_at(t, id, c);
        lemma_map_at(t, c);
        if c < s.len() {
            lemma_map_at(s, c);
        }
    }
    assert(m1 =~= m0);
}

/// The position of the session `id` in `sessions`, if it is there.
fn find(sessions: &Vec<Session>, id: &DkgSessionId) -> (at: Option<usize>)
    requires
        ids_distinct(sessions@),
    ensures
        at matches Some(i) ==> known_at(sessions@, id@, i as int),
        at is Some <==> sessions_map(sessions@).dom().contains(id@),
{
    let mut i: usize = 0;
    while i < sessions.len()
        invariant
            i <= sessions.len(),
            forall|k: int| 0 <= k < i ==> !known_at(sessions@, id@, k),
        decreases sessions.len() - i,
    {
        if sessions[i].id.same(id) {
            assert(known_at(sessions@, id@, i as int));
            return Some(i);
        }
        i += 1;
    }
    None
}

proof fn lemma_map_pop(s: Seq<Session>)
    requires
        ids_distinct(s),
        s.len() > 0,
    ensures
        ids_distinct(s.drop_last()),
        sessions_map(s.drop_last()) == sessions_map(s).remove(s.last().id()),
{
    let t = s.drop_last();
    assert forall|a: int, b: int| 0 <= a < b < t.len() implies (#[trigger] t[a]).id() != (
    #[trigger] t[b]).id() by {
        assert(s[a].id() != s[b].id());
    }
    let m0 = sessions_map(s).remove(s.last().id());
    let m1 = sessions_map(t);
    assert forall|id: SessionIdView| m1.dom().contains(id) <==> m0.dom().contains(id) by {
        if m1.dom().contains(id) {
            let c = choose|c: int| known_at(t, id, c);
            assert(known_at(s, id, c));
            assert(s[c].id() != s[s.len() - 1].id());
        }
        if m0.dom().contains(id) {
            let c = choose|c: int| known_at(s, id, c);
            assert(known_at(t, id, c));
        }
    }
    assert forall|id: SessionIdView| m1.dom().contains(id) implies m1[id] == m0[id] by {
        let c = choose|c: int| known_at(t, id, c);
        lemma_map_at(t, c);
        lemma_map_at(s, c);
    }
    assert(m1 =~= m0);
}

/// Whether `kept` and what is still to come of `rest` make up `target`.
spec fn retaining(kept: VoterView, rest: VoterView, target: VoterView, generation: u64) -> bool {
    &&& forall|id: SessionIdView| #[trigger]
        kept.dom().contains(id) ==> !rest.dom().contains(id) && target.dom().contains(id)
            && kept[id] == target[id]
    &&& forall|id: SessionIdView| #[trigger]
        rest.dom().contains(id) && id.generation >= generation ==> target.dom().contains(id)
            && rest[id] == target[id]
    &&& forall|id: SessionIdView| #[trigger]
        target.dom().contains(id) ==> kept.dom().contains(id) || (rest.dom().contains(id)
            && id.generation >= generation)
}

/// The sessions of `sessions` that are for the generation `generation` or
/// a later one.
fn retain_from(sessions: Vec<Session>, generation: u64) -> (kept: Vec<Session>)
    requires
        ids_distinct(sessions@),
        failures_in_place(sessions@),
    ensures
        ids_distinct(kept@),
        failures_in_place(kept@),
        sessions_map(kept@) == purged(sessions_map(sessions@), generation),
{
    let ghost target = purged(sessions_map(sessions@), generation);
    let mut rest = sessions;
    let mut kept: Vec<Session> = Vec::new();
    while rest.len() > 0
        invariant
            ids_distinct(rest@),
            failures_in_place(rest@),
            ids_distinct(kept@),
            failures_in_place(kept@),
            retaining(sessions_map(kept@), sessions_map(rest@), target, generation),
        decreases rest@.len(),
    {
        let ghost rest_before = rest@;
        let ghost kept_before = kept@;
        proof {
            lemma_map_pop(rest_before);
            lemma_map_at(rest_before, rest_before.len() - 1);
        }
        let session = rest.pop().unwrap();
        assert(rest@ =~= rest_before.drop_last());
        assert forall|k: int| 0 <= k < rest@.len() implies (#[trigger] rest@[k])@.failures.session_id
            == rest@[k].id() by {
            assert(rest@[k] == rest_before[k]);
        }
        if session.id.generation() >= generation {
            proof {
                assert forall|k: int| 0 <= k < kept_before.len() implies (
                #[trigger] kept_before[k]).id() != session.id() by {
                    lemma_map_at(kept_before, k);
                }
                lemma_map_push(kept_before, session);
                assert forall|k: int| 0 <= k < kept_before.push(session).len() implies (
                #[trigger] kept_before.push(session)[k])@.failures.session_id == kept_before.push(
                    session,
                )[k].id() by {
                    if k < kept_before.len() {
                        assert(kept_before.push(session)[k] == kept_before[k]);
                    }
                }
            }
            kept.push(session);
        }
    }
    proof {
        assert forall|id: SessionIdView| !sessions_map(rest@).dom().contains(id) by {
            if sessions_map(rest@).dom().contains(id) {
                let c = choose|c: int| known_at(rest@, id, c);
            }
        }
        assert(sessions_map(kept@) =~= target);
    }
    kept
}

/// The sessions of key generation that a node takes part in.
#[derive(Debug)]
pub struct DkgVoter {
    sessions: Vec<Session>,
}

impl View for DkgVoter {
    type V = VoterView;

    closed spec fn view(&self) -> VoterView {
        sessions_map(self.sessions@)
    }
}

impl DkgVoter {
    #[verifier::type_invariant]
    spec fn inv(self) -> bool {
        ids_distinct(self.sessions@) && failures_in_place(self.sessions@)
    }

    /// A voter without any session.
    pub fn new() -> (voter: DkgVoter)
        ensures
            voter@ == VoterView::empty(),
    {
        let voter = DkgVoter { sessions: Vec::new() };
        assert(voter@ =~= VoterView::empty());
        voter
    }

    /// Whether the session `session_id` is registered.
    pub fn knows(&self, session_id: &DkgSessionId) -> (b: bool)
        ensures
            b == self@.dom().contains(session_id@),
    {
        proof {
            use_type_invariant(self);
        }
        find(&self.sessions, session_id).is_some()
    }

    /// How far the session `session_id` has come, if it is registered.
    pub fn status(&self, session_id: &DkgSessionId) -> (status: Option<SessionStatus>)
        ensures
            status == if self@.dom().contains(session_id@) {
                Some(self@[session_id@].status)
            } else {
                None
            },
    {
        proof {
            use_type_invariant(self);
        }
        match find(&self.sessions, session_id) {
            Some(i) => {
                proof {
                    lemma_map_at(self.sessions@, i as int);
                }
                Some(self.sessions[i].status)
            },
            None => None,
        }
    }

    /// Starts the session `session_id`, in which `elder_candidates`
    /// generate a key, for the node `own`. Every session of an earlier
    /// generation is given up. Where the node is one of the candidates,
    /// the session is registered with a new handshake, in place of an
    /// earlier session with this identity, and the commands send the
    /// opening message of the handshake to each candidate.
    pub fn start(
        &mut self,
        own: &Peer,
        session_id: DkgSessionId,
        elder_candidates: ElderCandidates,
        section_key: SectionKey,
    ) -> (r: Result<Vec<Cmd>, DkgError>)
        ensures
            r is Ok,
            exists|key_gen: KeyGen, responses: Seq<(Name, DkgMessage)>| #[trigger]
                session_started(
                    old(self)@,
                    session_id@,
                    elder_candidates@,
                    own.name,
                    section_key@,
                    key_gen,
                    responses,
                    final(self)@,
                    cmd_views(r->Ok_0@),
                ),
    {
        proof {
            use_type_invariant(&*self);
            use_type_invariant(&elder_candidates);
        }
        let ghost before = self@;
        assert(before == old(self)@);
        let mut taken: Vec<Session> = Vec::new();
        core::mem::swap(&mut self.sessions, &mut taken);
        let mut sessions = retain_from(taken, session_id.generation());
        let ghost kept = sessions@;
        let index = match elder_candidates.position(&own.name) {
            Some(index) => index,
            None => {
                let cmds: Vec<Cmd> = Vec::new();
                self.sessions = sessions;
                let r: Result<Vec<Cmd>, DkgError> = Ok(cmds);
                proof {
                    assert(cmd_views(r->Ok_0@) =~= Seq::empty());
                    let key_gen: KeyGen = arbitrary();
                    assert(session_started(
                        before,
                        session_id@,
                        elder_candidates@,
                        own.name,
                        section_key@,
                        key_gen,
                        Seq::empty(),
                        self@,
                        cmd_views(r->Ok_0@),
                    ));
                }
                return r;
            },
        };
        let ghost names = peer_names(elder_candidates@.elders);
        proof {
            assert(names[index as int] == own.name);
            let chosen = name_position(names, own.name);
            assert(chosen == index) by {
                if chosen < index {
                    assert(crate::name::name_lt(names[chosen], names[index as int]));
                } else if chosen > index {
                    assert(crate::name::name_lt(names[index as int], names[chosen]));
                }
            }
        }
        let list = elder_candidates.names();
        let threshold = supermajority(list.len()) - 1;
        match initialize(own.name, threshold, &list) {
            Err(_) => {
                self.sessions = sessions;
                Err(DkgError::HandshakeFailed)
            },
            Ok((key_gen, responses)) => {
                let cmds = send_responses(&session_id, &elder_candidates, &responses, section_key);
                let session = Session {
                    failures: DkgFailureSigSet::new(session_id.copy()),
                    id: session_id,
                    candidates: elder_candidates,
                    participant_index: index,
                    key_gen,
                    history: Vec::new(),
                    failure_reported: false,
                    status: SessionStatus::Active,
                };
                let ghost fresh = session@;
                let ghost id = session.id();
                proof {
                    assert(fresh == fresh_session(id, fresh.candidates, index, key_gen));
                }
                match find(&sessions, &session.id) {
                    Some(i) => {
                        proof {
                            lemma_map_update(kept, i as int, session);
                            assert forall|k: int| 0 <= k < kept.update(i as int, session).len() implies (
                            #[trigger] kept.update(i as int, session)[k])@.failures.session_id
                                == kept.update(i as int, session)[k].id() by {
                                if k != i {
                                    assert(kept.update(i as int, session)[k] == kept[k]);
                                }
                            }
                        }
                        sessions[i] = session;
                    },
                    None => {
                        proof {
                            assert forall|k: int| 0 <= k < kept.len() implies (#[trigger] kept[k]).id()
                                != session.id() by {
                                if kept[k].id() == session.id() {
                                    assert(known_at(kept, session.id(), k));
                                }
                            }
                            lemma_map_push(kept, session);
                            assert forall|k: int| 0 <= k < kept.push(session).len() implies (
                            #[trigger] kept.push(session)[k])@.failures.session_id == kept.push(
                                session,
                            )[k].id() by {
                                if k < kept.len() {
                                    assert(kept.push(session)[k] == kept[k]);
                                }
                            }
                        }
                        sessions.push(session);
                    },
                }
                self.sessions = sessions;
                let r: Result<Vec<Cmd>, DkgError> = Ok(cmds);
                proof {
                    assert(session_started(
                        before,
                        id,
                        fresh.candidates,
                        own.name,
                        section_key@,
                        key_gen,
                        responses@,
                        self@,
                        cmd_views(r->Ok_0@),
                    ));
                }
                r
            },
        }
    }

    /// Hands `message`, which `sender` sent, to the session `session_id`.
    /// The session records the message and, where its handshake goes on,
    /// hands it to the handshake; the commands send the answers and say how
    /// the session ended, if it did. A session that is not registered gives
    /// no command and no error.
    pub fn process_msg(
        &mut self,
        sender: Peer,
        own: &Peer,
        session_id: &DkgSessionId,
        message: DkgMessage,
        section_key: SectionKey,
    ) -> (r: Result<Vec<Cmd>, DkgError>)
        ensures
            exists|fed: Feed| #[trigger]
                voter_message_applied(
                    old(self)@,
                    session_id@,
                    message,
                    section_key@,
                    fed,
                    final(self)@,
                    result_views(r),
                ),
    {
        proof {
            use_type_invariant(&*self);
        }
        let ghost before = self@;
        assert(before == old(self)@);
        let mut sessions: Vec<Session> = Vec::new();
        core::mem::swap(&mut self.sessions, &mut sessions);
        let ghost all = sessions@;
        match find(&sessions, session_id) {
            None => {
                self.sessions = sessions;
                let cmds: Vec<Cmd> = Vec::new();
                proof {
                    assert(cmd_views(cmds@) =~= Seq::empty());
                    let fed = Feed::Rejected { key_gen: arbitrary() };
                    assert(voter_message_applied(
                        before,
                        session_id@,
                        message,
                        section_key@,
                        fed,
                        self@,
                        Ok(cmd_views(cmds@)),
                    ));
                }
                Ok(cmds)
            },
            Some(i) => {
                let mut session = sessions.remove(i);
                let ghost was = session@;
                let r = session.apply(message, section_key);
                proof {
                    lemma_map_at(all, i as int);
                    lemma_map_update(all, i as int, session);
                    assert(all.remove(i as int).insert(i as int, session) =~= all.update(
                        i as int,
                        session,
                    ));
                    lemma_apply_keeps_failures(session_id@, was, message, session@, r, section_key@);
                    assert forall|k: int| 0 <= k < all.update(i as int, session).len() implies (
                    #[trigger] all.update(i as int, session)[k])@.failures.session_id == all.update(
                        i as int,
                        session,
                    )[k].id() by {
                        if k != i {
                            assert(all.update(i as int, session)[k] == all[k]);
                        }
                    }
                }
                let ghost after = session@;
                sessions.insert(i, session);
                self.sessions = sessions;
                proof {
                    let fed = choose|fed: Feed| #[trigger]
                        message_applied(
                            session_id@,
                            was,
                            message,
                            section_key@,
                            fed,
                            after,
                            result_views(r),
                        );
                    assert(voter_message_applied(
                        before,
                        session_id@,
                        message,
                        section_key@,
                        fed,
                        self@,
                        result_views(r),
                    ));
                }
                r
            },
        }
    }

    /// The messages recorded for the session `session_id`, oldest first;
    /// none where the session is not registered.
    pub fn get_cached_msgs(&self, session_id: &DkgSessionId) -> (messages: Vec<DkgMessage>)
        ensures
            messages@ == cached_messages(self@, session_id@),
    {
        match self.history(session_id) {
            Ok(messages) => messages,
            Err(_) => Vec::new(),
        }
    }

    /// The messages recorded for the session `session_id`, oldest first, or
    /// the error that no such session is registered.
    pub fn history(&self, session_id: &DkgSessionId) -> (r: Result<Vec<DkgMessage>, DkgError>)
        ensures
            self@.dom().contains(session_id@) ==> (r matches Ok(messages) && messages@
                == self@[session_id@].history),
            !self@.dom().contains(session_id@) ==> r == Err::<Vec<DkgMessage>, DkgError>(
                DkgError::UnknownSession,
            ),
    {
        proof {
            use_type_invariant(self);
        }
        match find(&self.sessions, session_id) {
            Some(i) => {
                proof {
                    lemma_map_at(self.sessions@, i as int);
                }
                Ok(copy_messages(&self.sessions[i].history))
            },
            None => Err(DkgError::UnknownSession),
        }
    }

    /// Replays to the session `session_id` the messages of `history` that
    /// it has not recorded, in their order, as `process_msg` hands a
    /// message to it. A message that the session has recorded is not handed
    /// to the handshake again, and a message that the handshake refuses
    /// gives no command. A session that is not registered gives no command.
    pub fn handle_dkg_history(
        &mut self,
        own: &Peer,
        session_id: DkgSessionId,
        history: Vec<DkgMessage>,
        sender: Name,
        section_key: SectionKey,
    ) -> (r: Result<Vec<Cmd>, DkgError>)
        ensures
            r is Ok,
            exists|feeds: Seq<Feed>| #[trigger]
                voter_history_replayed(
                    old(self)@,
                    session_id@,
                    history@,
                    section_key@,
                    feeds,
                    final(self)@,
                    cmd_views(r->Ok_0@),
                ),
    {
        proof {
            use_type_invariant(&*self);
        }
        let ghost before = self@;
        assert(before == old(self)@);
        let mut sessions: Vec<Session> = Vec::new();
        core::mem::swap(&mut self.sessions, &mut sessions);
        let ghost all = sessions@;
        match find(&sessions, &session_id) {
            None => {
                self.sessions = sessions;
                let cmds: Vec<Cmd> = Vec::new();
                let r: Result<Vec<Cmd>, DkgError> = Ok(cmds);
                proof {
                    assert(cmd_views(r->Ok_0@) =~= Seq::empty());
                    let feeds = Seq::new(
                        history@.len(),
                        |i: int| Feed::Rejected { key_gen: arbitrary() },
                    );
                    assert(voter_history_replayed(
                        before,
                        session_id@,
                        history@,
                        section_key@,
                        feeds,
                        self@,
                        cmd_views(r->Ok_0@),
                    ));
                }
                r
            },
            Some(i) => {
                let mut session = sessions.remove(i);
                let ghost was = session@;
                let cmds = session.replay(&history, section_key);
                let ghost after = session@;
                proof {
                    lemma_map_at(all, i as int);
                    lemma_map_update(all, i as int, session);
                    assert(all.remove(i as int).insert(i as int, session) =~= all.update(
                        i as int,
                        session,
                    ));
                    let feeds = choose|feeds: Seq<Feed>| #[trigger]
                        history_replayed(
                            session_id@,
                            was,
                            history@,
                            section_key@,
                            feeds,
                            after,
                            cmd_views(cmds@),
                        );
                    lemma_replay_keeps_failures(session_id@, was, history@, feeds);
                    assert forall|k: int| 0 <= k < all.update(i as int, session).len() implies (
                    #[trigger] all.update(i as int, session)[k])@.failures.session_id == all.update(
                        i as int,
                        session,
                    )[k].id() by {
                        if k != i {
                            assert(all.update(i as int, session)[k] == all[k]);
                        }
                    }
                }
                sessions.insert(i, session);
                self.sessions = sessions;
                proof {
                    let feeds = choose|feeds: Seq<Feed>| #[trigger]
                        history_replayed(
                            session_id@,
                            was,
                            history@,
                            section_key@,
                            feeds,
                            after,
                            cmd_views(cmds@),
                        );
                    assert(voter_history_replayed(
                        before,
                        session_id@,
                        history@,
                        section_key@,
                        feeds,
                        self@,
                        cmd_views(cmds@),
                    ));
                }
                let r: Result<Vec<Cmd>, DkgError> = Ok(cmds);
                assert(cmd_views(r->Ok_0@) == cmd_views(cmds@));
                r
            },
        }
    }

    /// Takes notice of the statement `signed` that the session `session_id`
    /// failed because of `failed_participants`. The statement counts where
    /// the session is registered and has not handed on its statements yet,
    /// its signer is one of the candidates, it is about this session and
    /// these participants, and the signer has made no other. With the
    /// statement that makes them enough, the command hands on all
    /// statements of the session; this happens once.
    pub fn process_failure(
        &mut self,
        session_id: &DkgSessionId,
        failed_participants: &NameSet,
        signed: DkgFailureSig,
    ) -> (r: Option<Cmd>)
        ensures
            final(self)@ == voter_after_vote(
                old(self)@,
                session_id@,
                failed_participants@,
                signed@,
            ),
            option_view(r) == voter_vote_outcome(
                old(self)@,
                session_id@,
                failed_participants@,
                signed@,
            ),
    {
        proof {
            use_type_invariant(&*self);
        }
        let mut sessions: Vec<Session> = Vec::new();
        core::mem::swap(&mut self.sessions, &mut sessions);
        let ghost all = sessions@;
        match find(&sessions, session_id) {
            None => {
                self.sessions = sessions;
                None
            },
            Some(i) => {
                let mut session = sessions.remove(i);
                assert(session == all[i as int]);
                let r = session.vote(failed_participants, signed);
                proof {
                    lemma_map_at(all, i as int);
                    lemma_map_update(all, i as int, session);
                    assert(all.remove(i as int).insert(i as int, session) =~= all.update(
                        i as int,
                        session,
                    ));
                    assert forall|k: int| 0 <= k < all.update(i as int, session).len() implies (
                    #[trigger] all.update(i as int, session)[k])@.failures.session_id == all.update(
                        i as int,
                        session,
                    )[k].id() by {
                        if k != i {
                            assert(all.update(i as int, session)[k] == all[k]);
                        }
                    }
                }
                sessions.insert(i, session);
                self.sessions = sessions;
                r
            },
        }
    }
}

/// Handing a message to a session leaves its statements of failure as they
/// are.
proof fn lemma_apply_keeps_failures(
    id: SessionIdView,
    s: SessionView,
    message: DkgMessage,
    after: SessionView,
    r: Result<Vec<Cmd>, DkgError>,
    section_key: Seq<u8>,
)
    requires
        exists|fed: Feed| #[trigger]
            message_applied(id, s, message, section_key, fed, after, result_views(r)),
    ensures
        after.failures == s.failures,
{
}

/// A replay leaves the statements of failure of a session as they are.
pub proof fn lemma_replay_keeps_failures(
    id: SessionIdView,
    s: SessionView,
    incoming: Seq<DkgMessage>,
    feeds: Seq<Feed>,
)
    ensures
        session_after_replay(id, s, incoming, feeds).failures == s.failures,
        session_after_replay(id, s, incoming, feeds).failure_reported == s.failure_reported,
        session_after_replay(id, s, incoming, feeds).candidates == s.candidates,
    decreases incoming.len(),
{
    if incoming.len() > 0 {
        lemma_replay_keeps_failures(id, s, incoming.drop_last(), feeds.drop_last());
    }
}

} // verus!
