//! The messages that nodes exchange during key generation, and the commands
//! with which the handlers tell the node what to do next.

use vstd::prelude::*;
use bls_dkg::key_gen::message::Message as DkgMessage;
use crate::failure::{DkgFailureSigSet, FailureSetView};
use crate::handshake::clone_message;
use crate::keys::{SectionKey, SectionKeyShare};
use crate::knowledge::{SapView, SectionAuthorityProvider};
use crate::name::{Name, NameSet};
use crate::peer::Peer;
use crate::session::{DkgSessionId, SessionIdView};

verus! {

/// A copy of `messages`.
pub fn copy_messages(messages: &Vec<DkgMessage>) -> (out: Vec<DkgMessage>)
    ensures
        out@ == messages@,
{
    let mut out: Vec<DkgMessage> = Vec::new();
    let mut i: usize = 0;
    while i < messages.len()
        invariant
            i <= messages.len(),
            out@ == messages@.take(i as int),
        decreases messages.len() - i,
    {
        out.push(clone_message(&messages[i]));
        assert(messages@.take(i + 1) == messages@.take(i as int).push(messages@[i as int]));
        i += 1;
    }
    assert(messages@.take(messages.len() as int) == messages@);
    out
}

/// What [`SystemMsg`] stands for.
pub enum SystemMsgView {
    /// See [`SystemMsg::DkgMessage`].
    DkgMessage { session_id: SessionIdView, message: DkgMessage },
    /// See [`SystemMsg::DkgNotReady`].
    DkgNotReady { session_id: SessionIdView, message: DkgMessage },
    /// See [`SystemMsg::DkgRetry`].
    DkgRetry { message_history: Seq<DkgMessage>, message: DkgMessage, session_id: SessionIdView },
    /// See [`SystemMsg::DkgFailureAgreement`].
    DkgFailureAgreement(FailureSetView),
}

/// A message from one node to others about a session of key generation.
#[derive(Debug, PartialEq, Eq)]
pub enum SystemMsg {
    /// A message of the handshake of the session.
    DkgMessage {
        /// The session.
        session_id: DkgSessionId,
        /// The message of the handshake.
        message: DkgMessage,
    },
    /// The answer of a node that has no such session to a message of its
    /// handshake.
    DkgNotReady {
        /// The session.
        session_id: DkgSessionId,
        /// The message that could not be handled.
        message: DkgMessage,
    },
    /// The answer to `DkgNotReady`: the messages of the session so far, with
    /// the message that could not be handled.
    DkgRetry {
        /// The messages of the session so far, oldest first.
        message_history: Vec<DkgMessage>,
        /// The message that could not be handled.
        message: DkgMessage,
        /// The session.
        session_id: DkgSessionId,
    },
    /// The statements that together prove the failure of a session.
    DkgFailureAgreement(DkgFailureSigSet),
}

impl View for SystemMsg {
    type V = SystemMsgView;

    open spec fn view(&self) -> SystemMsgView {
        match *self {
            SystemMsg::DkgMessage { session_id, message } => SystemMsgView::DkgMessage {
                session_id: session_id@,
                message,
            },
            SystemMsg::DkgNotReady { session_id, message } => SystemMsgView::DkgNotReady {
                session_id: session_id@,
                message,
            },
            SystemMsg::DkgRetry {
                message_history,
                message,
                session_id,
            } => SystemMsgView::DkgRetry {
                message_history: message_history@,
                message,
                session_id: session_id@,
            },
            SystemMsg::DkgFailureAgreement(set) => SystemMsgView::DkgFailureAgreement(set@),
        }
    }
}

/// What [`Cmd`] stands for.
pub enum CmdView {
    /// See [`Cmd::SendMsg`].
    SendMsg { recipients: Seq<Peer>, msg: SystemMsgView, section_key: Seq<u8> },
    /// See [`Cmd::HandleDkgOutcome`].
    HandleDkgOutcome { section_auth: SapView, outcome: SectionKeyShare },
    /// See [`Cmd::HandleDkgFailure`].
    HandleDkgFailure(FailureSetView),
    /// See [`Cmd::ObserveDkgFailure`].
    ObserveDkgFailure { session_id: SessionIdView, failed_participants: Seq<Name> },
    /// See [`Cmd::ProposeOffline`].
    ProposeOffline(Seq<Name>),
    /// See [`Cmd::PromoteAndDemoteElders`].
    PromoteAndDemoteElders { excluded: Seq<Name> },
    /// See [`Cmd::ProposeSectionInfo`].
    ProposeSectionInfo { recipients: Seq<Peer>, section_auth: SapView, signing_key: Seq<u8> },
    /// See [`Cmd::UpdateNodeState`].
    UpdateNodeState { previous: SapView },
}

/// What a handler asks the node to do next.
#[derive(Debug, PartialEq, Eq)]
pub enum Cmd {
    /// Send `msg` to each of `recipients`, which are in the section that
    /// holds `section_key`.
    SendMsg {
        /// The peers to send to.
        recipients: Vec<Peer>,
        /// The message.
        msg: SystemMsg,
        /// The key of the section of the recipients.
        section_key: SectionKey,
    },
    /// The handshake ended with a key: hand the new authority and this
    /// node's share of its key to the handler of outcomes.
    HandleDkgOutcome {
        /// The candidates as elders, with the new key.
        section_auth: SectionAuthorityProvider,
        /// This node's share of the new key.
        outcome: SectionKeyShare,
    },
    /// Enough participants state the failure of a session: hand their
    /// statements to the handler of failures.
    HandleDkgFailure(DkgFailureSigSet),
    /// This node saw a session fail: sign a statement that holds
    /// `failed_participants` responsible and hand it to the handler of such
    /// observations.
    ObserveDkgFailure {
        /// The session that failed.
        session_id: DkgSessionId,
        /// The participants that did not take part to the end.
        failed_participants: NameSet,
    },
    /// Propose to the section that the named nodes be taken as offline.
    ProposeOffline(NameSet),
    /// Work out anew who should be the elders, leaving out the named nodes,
    /// and start key generation for them.
    PromoteAndDemoteElders {
        /// The nodes that may not become elders.
        excluded: NameSet,
    },
    /// Propose `section_auth` to `recipients` as the next authority, signed
    /// with this node's share of the key `signing_key`.
    ProposeSectionInfo {
        /// The peers to send the proposal to.
        recipients: Vec<Peer>,
        /// The proposed authority.
        section_auth: SectionAuthorityProvider,
        /// The key whose share signs the proposal.
        signing_key: SectionKey,
    },
    /// The node adopted a new authority: bring its state up to date with
    /// it. `previous` is the authority that it had before.
    UpdateNodeState {
        /// The authority before the adoption.
        previous: SectionAuthorityProvider,
    },
}

impl View for Cmd {
    type V = CmdView;

    open spec fn view(&self) -> CmdView {
        match *self {
            Cmd::SendMsg { recipients, msg, section_key } => CmdView::SendMsg {
                recipients: recipients@,
                msg: msg@,
                section_key: section_key@,
            },
            Cmd::HandleDkgOutcome { section_auth, outcome } => CmdView::HandleDkgOutcome {
                section_auth: section_auth@,
                outcome,
            },
            Cmd::HandleDkgFailure(set) => CmdView::HandleDkgFailure(set@),
            Cmd::ObserveDkgFailure {
                session_id,
                failed_participants,
            } => CmdView::ObserveDkgFailure {
                session_id: session_id@,
                failed_participants: failed_participants@,
            },
            Cmd::ProposeOffline(names) => CmdView::ProposeOffline(names@),
            Cmd::PromoteAndDemoteElders { excluded } => CmdView::PromoteAndDemoteElders {
                excluded: excluded@,
            },
            Cmd::ProposeSectionInfo {
                recipients,
                section_auth,
                signing_key,
            } => CmdView::ProposeSectionInfo {
                recipients: recipients@,
                section_auth: section_auth@,
                signing_key: signing_key@,
            },
            Cmd::UpdateNodeState { previous } => CmdView::UpdateNodeState { previous: previous@ },
        }
    }
}

/// What each command of `v` stands for, in the order of `v`.
pub open spec fn cmd_views(v: Seq<Cmd>) -> Seq<CmdView> {
    v.map_values(|c: Cmd| c@)
}

} // verus!
