//! What holds of the voter and the handlers whatever the events are.

use vstd::prelude::*;
use bls_dkg::key_gen::message::Message as DkgMessage;
use bls_dkg::key_gen::KeyGen;
use crate::error::DkgError;
use crate::failure::{FailureSetView, FailureSigView};
use crate::knowledge::{has_member, KnowledgeView, SapView};
use crate::messages::CmdView;
use crate::name::Name;
use crate::node::{
    adopts,
    agreement_commands,
    claim_verified,
    dkg_retry_handled,
    failure_agreement_result,
    is_stale,
    knowledge_after_outcome,
    message_commands,
    not_ready_reply,
    outcome_commands,
};
use crate::peer::Peer;
use crate::session::{CandidatesView, SessionIdView};
use crate::voter::{
    cached_messages,
    lemma_replay_keeps_failures,
    replay_commands,
    session_after_replay,
    voter_after_message,
    voter_after_replay,
    voter_after_start,
    voter_after_vote,
    voter_message_result,
    voter_replay_commands,
    voter_vote_outcome,
    Feed,
    SessionView,
    VoterView,
};

verus! {

/// Something that happens to a voter, with what came back from the
/// handshake where the handshake was asked.
pub enum Event {
    /// The session `id` of `candidates` was started by the node `own_name`.
    Start { id: SessionIdView, candidates: CandidatesView, own_name: Name, key_gen: KeyGen },
    /// A message was handed to the session `id`.
    Message { id: SessionIdView, message: DkgMessage, fed: Feed },
    /// Messages were replayed to the session `id`.
    Replay { id: SessionIdView, incoming: Seq<DkgMessage>, feeds: Seq<Feed> },
    /// A statement of failure about the session `id` came in.
    Vote { id: SessionIdView, failed: Seq<Name>, sig: FailureSigView },
}

/// The voter after `event`.
pub open spec fn after_event(v: VoterView, event: Event) -> VoterView {
    match event {
        Event::Start { id, candidates, own_name, key_gen } => voter_after_start(
            v,
            id,
            candidates,
            own_name,
            key_gen,
        ),
        Event::Message { id, message, fed } => voter_after_message(v, id, message, fed),
        Event::Replay { id, incoming, feeds } => voter_after_replay(v, id, incoming, feeds),
        Event::Vote { id, failed, sig } => voter_after_vote(v, id, failed, sig),
    }
}

/// Whether `event` has the voter hand on the statements of failure of the
/// session `id`.
pub open spec fn hands_on(v: VoterView, event: Event, id: SessionIdView) -> bool {
    match event {
        Event::Vote { id: about, failed, sig } => about == id && voter_vote_outcome(
            v,
            about,
            failed,
            sig,
        ) is Some,
        _ => false,
    }
}

/// The voter after the events of `events`, in their order.
pub open spec fn after_events(v: VoterView, events: Seq<Event>) -> VoterView
    decreases events.len(),
{
    if events.len() == 0 {
        v
    } else {
        after_event(after_events(v, events.drop_last()), events.last())
    }
}

/// How often, in the course of `events`, the voter hands on the statements
/// of failure of the session `id`.
pub open spec fn times_handed_on(v: VoterView, events: Seq<Event>, id: SessionIdView) -> nat
    decreases events.len(),
{
    if events.len() == 0 {
        0
    } else {
        times_handed_on(v, events.drop_last(), id) + if hands_on(
            after_events(v, events.drop_last()),
            events.last(),
            id,
        ) {
            1nat
        } else {
            0nat
        }
    }
}

/// Whether none of `events` starts the session `id`.
pub open spec fn never_starts(events: Seq<Event>, id: SessionIdView) -> bool {
    forall|i: int|
        0 <= i < events.len() ==> !((#[trigger] events[i]) matches Event::Start { id: started, .. }
            && started == id)
}

/// Whether the session `id` can hand on no statements any more: it is not
/// registered, or it has handed them on.
pub open spec fn is_spent(v: VoterView, id: SessionIdView) -> bool {
    !v.dom().contains(id) || v[id].failure_reported
}

/// An event that does not start the session `id` leaves it spent if it was,
/// hands on its statements only if it was not, and leaves it spent if it
/// does so.
proof fn lemma_event_spends(v: VoterView, event: Event, id: SessionIdView)
    requires
        !(event matches Event::Start { id: started, .. } && started == id),
    ensures
        is_spent(v, id) ==> is_spent(after_event(v, event), id) && !hands_on(v, event, id),
        hands_on(v, event, id) ==> is_spent(after_event(v, event), id),
{
    match event {
        Event::Start { .. } => {},
        Event::Message { .. } => {},
        Event::Replay { id: about, incoming, feeds } => {
            if v.dom().contains(about) {
                lemma_replay_keeps_failures(about, v[about], incoming, feeds);
            }
        },
        Event::Vote { .. } => {},
    }
}

/// In the course of events that do not start the session `id`, it hands on
/// its statements at most once, and is spent once it has.
proof fn lemma_handed_on_once(v: VoterView, events: Seq<Event>, id: SessionIdView)
    requires
        never_starts(events, id),
    ensures
        times_handed_on(v, events, id) <= 1,
        times_handed_on(v, events, id) == 1 ==> is_spent(after_events(v, events), id),
        is_spent(v, id) ==> times_handed_on(v, events, id) == 0 && is_spent(
            after_events(v, events),
            id,
        ),
    decreases events.len(),
{
    if events.len() > 0 {
        let earlier = events.drop_last();
        assert forall|i: int| 0 <= i < earlier.len() implies !((
        #[trigger] earlier[i]) matches Event::Start { id: started, .. } && started == id) by {
            assert(earlier[i] == events[i]);
        }
        lemma_handed_on_once(v, earlier, id);
        assert(events.last() == events[events.len() - 1]);
        lemma_event_spends(after_events(v, earlier), events.last(), id);
    }
}

/// However many statements of failure come in, and whatever messages are
/// handed over and replayed among them, the statements of one session are
/// handed on at most once, as long as the session is not started again.
pub proof fn law_failure_set_handed_on_at_most_once(
    v: VoterView,
    events: Seq<Event>,
    id: SessionIdView,
)
    requires
        never_starts(events, id),
    ensures
        times_handed_on(v, events, id) <= 1,
{
    lemma_handed_on_once(v, events, id);
}

/// The start of a session gives up every session of an earlier generation,
/// and such a session stays away: a message for it leaves the voter as it
/// is, gives no command from the voter and no error, and has the handler
/// answer that the node is not ready; a replay and a statement of failure
/// for it change nothing either.
pub proof fn law_start_gives_up_earlier_generations(
    v: VoterView,
    started: SessionIdView,
    candidates: CandidatesView,
    own_name: Name,
    key_gen: KeyGen,
    earlier: SessionIdView,
    message: DkgMessage,
    sender: Peer,
    section_key: Seq<u8>,
    fed: Feed,
    incoming: Seq<DkgMessage>,
    feeds: Seq<Feed>,
    failed: Seq<Name>,
    sig: FailureSigView,
)
    requires
        earlier.generation < started.generation,
    ensures
        ({
            let after = voter_after_start(v, started, candidates, own_name, key_gen);
            &&& !after.dom().contains(earlier)
            &&& cached_messages(after, earlier) == Seq::<DkgMessage>::empty()
            &&& voter_after_message(after, earlier, message, fed) == after
            &&& voter_message_result(after, earlier, message, fed, section_key) == Ok::<
                Seq<CmdView>,
                DkgError,
            >(Seq::empty())
            &&& message_commands(after, earlier, message, sender, section_key, fed) == seq![
                not_ready_reply(earlier, message, sender, section_key),
            ]
            &&& voter_after_replay(after, earlier, incoming, feeds) == after
            &&& voter_replay_commands(after, earlier, incoming, feeds, section_key) == Seq::<
                CmdView,
            >::empty()
            &&& voter_after_vote(after, earlier, failed, sig) == after
            &&& voter_vote_outcome(after, earlier, failed, sig) is None
        }),
{
}

/// The start of a session leaves every session of its own or a later
/// generation as it is, but for the session that is started.
pub proof fn law_start_keeps_later_generations(
    v: VoterView,
    started: SessionIdView,
    candidates: CandidatesView,
    own_name: Name,
    key_gen: KeyGen,
    other: SessionIdView,
)
    requires
        other.generation >= started.generation,
        other != started,
    ensures
        ({
            let after = voter_after_start(v, started, candidates, own_name, key_gen);
            &&& after.dom().contains(other) == v.dom().contains(other)
            &&& v.dom().contains(other) ==> after[other] == v[other]
        }),
{
}

/// The replay of messages that a session has recorded already changes
/// nothing, whatever the handshake would have answered: not the state of the
/// handshake, not the history, and it gives no command.
pub proof fn law_replay_of_recorded_changes_nothing(
    id: SessionIdView,
    s: SessionView,
    incoming: Seq<DkgMessage>,
    feeds: Seq<Feed>,
    section_key: Seq<u8>,
)
    requires
        forall|i: int| 0 <= i < incoming.len() ==> s.history.contains(#[trigger] incoming[i]),
    ensures
        session_after_replay(id, s, incoming, feeds) == s,
        replay_commands(id, s, incoming, feeds, section_key) == Seq::<CmdView>::empty(),
    decreases incoming.len(),
{
    if incoming.len() > 0 {
        let earlier = incoming.drop_last();
        assert forall|i: int| 0 <= i < earlier.len() implies s.history.contains(
            #[trigger] earlier[i],
        ) by {
            assert(earlier[i] == incoming[i]);
        }
        law_replay_of_recorded_changes_nothing(id, s, earlier, feeds.drop_last(), section_key);
        assert(incoming.last() == incoming[incoming.len() - 1]);
    }
}

/// After a replay the session has recorded what it had recorded before and
/// every message that was replayed.
pub proof fn lemma_replay_records(
    id: SessionIdView,
    s: SessionView,
    incoming: Seq<DkgMessage>,
    feeds: Seq<Feed>,
)
    ensures
        forall|m: DkgMessage|
            s.history.contains(m) ==> session_after_replay(id, s, incoming, feeds).history.contains(
                m,
            ),
        forall|i: int|
            0 <= i < incoming.len() ==> session_after_replay(
                id,
                s,
                incoming,
                feeds,
            ).history.contains(#[trigger] incoming[i]),
    decreases incoming.len(),
{
    if incoming.len() > 0 {
        let earlier = incoming.drop_last();
        let before = session_after_replay(id, s, earlier, feeds.drop_last());
        let after = session_after_replay(id, s, incoming, feeds);
        lemma_replay_records(id, s, earlier, feeds.drop_last());
        let last = incoming.last();
        if !before.history.contains(last) {
            assert(after.history == before.history.push(last));
            assert(after.history[before.history.len() as int] == last);
            assert forall|m: DkgMessage| before.history.contains(m) implies after.history.contains(
                m,
            ) by {
                let k = choose|k: int| 0 <= k < before.history.len() && before.history[k] == m;
                assert(after.history[k] == m);
            }
        }
        assert forall|i: int| 0 <= i < incoming.len() implies after.history.contains(
            #[trigger] incoming[i],
        ) by {
            if i < earlier.len() {
                assert(earlier[i] == incoming[i]);
            } else {
                assert(incoming[i] == last);
            }
        }
    }
}

/// A replay is idempotent: once messages were replayed to a session, to
/// replay them again changes nothing and gives no command, whatever the
/// handshake answered the first time and would answer the second time.
pub proof fn law_replay_is_idempotent(
    id: SessionIdView,
    s: SessionView,
    incoming: Seq<DkgMessage>,
    first: Seq<Feed>,
    second: Seq<Feed>,
    section_key: Seq<u8>,
)
    ensures
        ({
            let once = session_after_replay(id, s, incoming, first);
            &&& session_after_replay(id, once, incoming, second) == once
            &&& replay_commands(id, once, incoming, second, section_key) == Seq::<CmdView>::empty()
        }),
{
    lemma_replay_records(id, s, incoming, first);
    law_replay_of_recorded_changes_nothing(
        id,
        session_after_replay(id, s, incoming, first),
        incoming,
        second,
        section_key,
    );
}

/// An answer to "not ready" for a generation that the section has left
/// behind gives no command and changes nothing: a session that was not
/// registered is not registered afterwards, and one that was is as it was.
pub proof fn law_stale_retry_changes_nothing(
    v: VoterView,
    k: KnowledgeView,
    id: SessionIdView,
    history: Seq<DkgMessage>,
    message: DkgMessage,
    sender: Peer,
    feeds: Seq<Feed>,
    fed: Feed,
    after: VoterView,
    cmds: Seq<CmdView>,
)
    requires
        id.generation < k.chain_len,
        dkg_retry_handled(v, k, id, history, message, sender, feeds, fed, after, cmds),
    ensures
        cmds == Seq::<CmdView>::empty(),
        after == v,
        after.dom().contains(id) == v.dom().contains(id),
{
}

/// Statements of failure from a sender that is no member of the section
/// are refused. From a member, statements that prove the failure of a
/// session that the section could be running give the proposal to take the
/// participants held responsible as offline, exactly where there are any,
/// and after it, in any case, the order to work out the elders anew without
/// them.
pub proof fn law_failure_agreement(k: KnowledgeView, sender: Name, set: FailureSetView)
    ensures
        !has_member(k.members, sender) ==> failure_agreement_result(k, sender, set) == Err::<
            Seq<CmdView>,
            DkgError,
        >(DkgError::UnauthorizedSender),
        has_member(k.members, sender) && claim_verified(set, k) && set.failed_participants.len()
            > 0 ==> failure_agreement_result(k, sender, set) == Ok::<Seq<CmdView>, DkgError>(
            seq![
                CmdView::ProposeOffline(set.failed_participants),
                CmdView::PromoteAndDemoteElders { excluded: set.failed_participants },
            ],
        ),
        has_member(k.members, sender) && claim_verified(set, k) && set.failed_participants.len()
            == 0 ==> failure_agreement_result(k, sender, set) == Ok::<Seq<CmdView>, DkgError>(
            seq![CmdView::PromoteAndDemoteElders { excluded: set.failed_participants }],
        ),
        has_member(k.members, sender) && !claim_verified(set, k) ==> failure_agreement_result(
            k,
            sender,
            set,
        ) == Ok::<Seq<CmdView>, DkgError>(Seq::empty()),
{
    let failed = set.failed_participants;
    if failed.len() > 0 {
        assert(agreement_commands(failed) =~= seq![
            CmdView::ProposeOffline(failed),
            CmdView::PromoteAndDemoteElders { excluded: failed },
        ]);
    } else {
        assert(agreement_commands(failed) =~= seq![
            CmdView::PromoteAndDemoteElders { excluded: failed },
        ]);
    }
}

/// After a handshake gave a key, the node either adopts an authority that
/// the section has signed for that key, and then only brings its state up
/// to date without proposing anything; or it keeps the authority that it
/// had and proposes the new one once, to the elders that it knew before.
pub proof fn law_outcome_adopts_or_proposes(k: KnowledgeView, sap: SapView, key: Seq<u8>)
    ensures
        adopts(k, sap.prefix, key) ==> {
            &&& outcome_commands(k, sap, key) == seq![
                CmdView::UpdateNodeState { previous: k.authority },
            ]
            &&& knowledge_after_outcome(k, sap, key).authority.section_key == key
            &&& knowledge_after_outcome(k, sap, key).authority.prefix == sap.prefix
        },
        !adopts(k, sap.prefix, key) ==> {
            &&& outcome_commands(k, sap, key) == seq![
                CmdView::ProposeSectionInfo {
                    recipients: k.authority.elders,
                    section_auth: sap,
                    signing_key: key,
                },
            ]
            &&& knowledge_after_outcome(k, sap, key) == k
        },
{
}

/// The generation that the section is in is never too late: only an
/// earlier one is.
pub proof fn law_current_generation_is_not_stale(k: KnowledgeView, generation: u64)
    ensures
        is_stale(k, generation) <==> generation < k.chain_len,
        !is_stale(k, k.chain_len),
{
}

} // verus!
