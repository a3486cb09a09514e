use bls_dkg::key_gen::message::Message;
use sn_dkg::error::DkgError;
use sn_dkg::failure::DkgFailureSig;
use sn_dkg::keys::{SectionKey, SectionKeyShare};
use sn_dkg::messages::{Cmd, SystemMsg};
use sn_dkg::name::{Name, NameSet, Prefix};
use sn_dkg::peer::{Address, Peer};
use sn_dkg::session::{DkgSessionId, ElderCandidates};
use sn_dkg::voter::{complete, send_responses, DkgVoter, SessionStatus};
use std::collections::BTreeSet;
use xor_name::XorName;

fn voter_peer(n: u128) -> Peer {
    Peer::new(Name::new(0, n), Address::V4 { ip: n as u32, port: 2000 })
}

fn voter_candidates(count: u128, bits: u16) -> ElderCandidates {
    ElderCandidates::new(Prefix::new(bits, Name::new(0, 0)), (1..=count).map(voter_peer).collect())
}

fn voter_key() -> SectionKey {
    SectionKey::new([9u8; 48])
}

fn complaint(creator: u64, target: u64) -> Message {
    Message::Complaint { key_gen_id: creator, target, msg: vec![1, 2, 3] }
}

fn statement(n: u128, id: &DkgSessionId, failed: &NameSet) -> DkgFailureSig {
    DkgFailureSig::new(Name::new(0, n), id.copy(), failed.copy(), vec![n as u8; 64])
}

fn started(count: u128, generation: u64) -> (DkgVoter, DkgSessionId, ElderCandidates) {
    let candidates = voter_candidates(count, 0);
    let id = DkgSessionId::new(&candidates, generation);
    let mut voter = DkgVoter::new();
    let cmds = voter.start(&voter_peer(1), id.copy(), candidates.copy(), voter_key()).unwrap();
    assert_eq!(cmds.len(), count as usize);
    (voter, id, candidates)
}

#[test]
fn start_registers_session_and_sends_opening_messages() {
    let candidates = voter_candidates(3, 0);
    let id = DkgSessionId::new(&candidates, 1);
    let mut voter = DkgVoter::new();
    assert!(!voter.knows(&id));
    let cmds = voter.start(&voter_peer(2), id.copy(), candidates.copy(), voter_key()).unwrap();
    assert!(voter.knows(&id));
    assert_eq!(voter.status(&id), Some(SessionStatus::Active));
    assert!(voter.get_cached_msgs(&id).is_empty());
    let members: BTreeSet<XorName> =
        (1..=3u128).map(|n| XorName(Name::new(0, n).to_bytes())).collect();
    let opening = Message::Initialization { key_gen_id: 1, m: 2, n: 3, member_list: members };
    let expected: Vec<Cmd> = (1..=3u128)
        .map(|n| Cmd::SendMsg {
            recipients: vec![voter_peer(n)],
            msg: SystemMsg::DkgMessage { session_id: id.copy(), message: opening.clone() },
            section_key: voter_key(),
        })
        .collect();
    assert_eq!(cmds, expected);
}

#[test]
fn start_by_a_node_that_is_no_candidate_registers_nothing() {
    let candidates = voter_candidates(3, 0);
    let id = DkgSessionId::new(&candidates, 1);
    let mut voter = DkgVoter::new();
    let cmds = voter.start(&voter_peer(8), id.copy(), candidates, voter_key()).unwrap();
    assert!(cmds.is_empty());
    assert!(!voter.knows(&id));
    assert_eq!(voter.status(&id), None);
}

#[test]
fn start_of_one_candidate_alone() {
    let candidates = voter_candidates(1, 0);
    let id = DkgSessionId::new(&candidates, 1);
    let mut voter = DkgVoter::new();
    let cmds = voter.start(&voter_peer(1), id.copy(), candidates, voter_key()).unwrap();
    assert_eq!(cmds.len(), 1);
    assert!(voter.knows(&id));
}

#[test]
fn later_generation_replaces_earlier_session() {
    let candidates = voter_candidates(3, 0);
    let five = DkgSessionId::new(&candidates, 5);
    let six = DkgSessionId::new(&candidates, 6);
    let own = voter_peer(1);
    let mut voter = DkgVoter::new();
    voter.start(&own, five.copy(), candidates.copy(), voter_key()).unwrap();
    voter.process_msg(voter_peer(2), &own, &five, complaint(1, 0), voter_key()).unwrap();
    assert_eq!(voter.get_cached_msgs(&five).len(), 1);
    voter.start(&own, six.copy(), candidates.copy(), voter_key()).unwrap();
    assert!(voter.knows(&six));
    assert!(!voter.knows(&five));
    assert!(voter.get_cached_msgs(&five).is_empty());
    assert_eq!(voter.history(&five), Err(DkgError::UnknownSession));
    let cmds = voter.process_msg(voter_peer(2), &own, &five, complaint(1, 0), voter_key());
    assert_eq!(cmds, Ok(vec![]));
    assert!(!voter.knows(&five));
    assert!(voter.get_cached_msgs(&five).is_empty());
}

#[test]
fn start_gives_up_earlier_generations_of_every_prefix() {
    let own = voter_peer(1);
    let here = voter_candidates(3, 0);
    let there = voter_candidates(3, 1);
    let old_here = DkgSessionId::new(&here, 3);
    let old_there = DkgSessionId::new(&there, 4);
    let same = DkgSessionId::new(&there, 5);
    let later = DkgSessionId::new(&there, 9);
    let new_here = DkgSessionId::new(&here, 5);
    let mut voter = DkgVoter::new();
    voter.start(&own, old_here.copy(), here.copy(), voter_key()).unwrap();
    voter.start(&own, old_there.copy(), there.copy(), voter_key()).unwrap();
    assert!(!voter.knows(&old_here));
    voter.start(&own, later.copy(), there.copy(), voter_key()).unwrap();
    voter.start(&own, same.copy(), there.copy(), voter_key()).unwrap();
    assert!(voter.knows(&later) && voter.knows(&same) && !voter.knows(&old_there));
    voter.start(&own, new_here.copy(), here.copy(), voter_key()).unwrap();
    assert!(voter.knows(&new_here));
    assert!(voter.knows(&same));
    assert!(voter.knows(&later));
    assert!(!voter.knows(&old_there));
}

#[test]
fn start_by_a_stranger_still_gives_up_earlier_generations() {
    let own = voter_peer(1);
    let candidates = voter_candidates(3, 0);
    let old = DkgSessionId::new(&candidates, 2);
    let strangers = ElderCandidates::new(
        Prefix::new(0, Name::new(0, 0)),
        (5..=7).map(voter_peer).collect(),
    );
    let new = DkgSessionId::new(&strangers, 3);
    let mut voter = DkgVoter::new();
    voter.start(&own, old.copy(), candidates, voter_key()).unwrap();
    let cmds = voter.start(&own, new.copy(), strangers, voter_key()).unwrap();
    assert!(cmds.is_empty());
    assert!(!voter.knows(&old));
    assert!(!voter.knows(&new));
}

#[test]
fn second_start_of_a_session_begins_anew() {
    let (mut voter, id, candidates) = started(3, 1);
    let own = voter_peer(1);
    voter.process_msg(voter_peer(2), &own, &id, complaint(1, 0), voter_key()).unwrap();
    assert_eq!(voter.get_cached_msgs(&id).len(), 1);
    let cmds = voter.start(&own, id.copy(), candidates, voter_key()).unwrap();
    assert_eq!(cmds.len(), 3);
    assert!(voter.knows(&id));
    assert!(voter.get_cached_msgs(&id).is_empty());
    assert_eq!(voter.status(&id), Some(SessionStatus::Active));
}

#[test]
fn message_for_unregistered_session_gives_nothing() {
    let candidates = voter_candidates(3, 0);
    let id = DkgSessionId::new(&candidates, 1);
    let mut voter = DkgVoter::new();
    let r = voter.process_msg(voter_peer(2), &voter_peer(1), &id, complaint(1, 0), voter_key());
    assert_eq!(r, Ok(vec![]));
    assert!(!voter.knows(&id));
    assert!(voter.get_cached_msgs(&id).is_empty());
}

#[test]
fn message_is_recorded_in_order() {
    let (mut voter, id, _) = started(3, 1);
    let own = voter_peer(1);
    let first = complaint(1, 0);
    let second = complaint(2, 0);
    assert_eq!(voter.process_msg(voter_peer(2), &own, &id, first.clone(), voter_key()), Ok(vec![]));
    assert_eq!(voter.process_msg(voter_peer(3), &own, &id, second.clone(), voter_key()), Ok(vec![]));
    assert_eq!(voter.get_cached_msgs(&id), vec![first.clone(), second.clone()]);
    assert_eq!(voter.history(&id), Ok(vec![first, second]));
}

#[test]
fn history_of_unknown_session_is_an_error() {
    let candidates = voter_candidates(3, 0);
    let id = DkgSessionId::new(&candidates, 1);
    let voter = DkgVoter::new();
    assert_eq!(voter.history(&id), Err(DkgError::UnknownSession));
    assert!(voter.get_cached_msgs(&id).is_empty());
}

#[test]
fn message_with_impossible_creator_is_refused_but_recorded() {
    let (mut voter, id, _) = started(3, 1);
    let own = voter_peer(1);
    let bad = complaint(u64::MAX, 0);
    let r = voter.process_msg(voter_peer(2), &own, &id, bad.clone(), voter_key());
    assert_eq!(r, Err(DkgError::HandshakeFailed));
    assert_eq!(voter.get_cached_msgs(&id), vec![bad]);
    assert_eq!(voter.status(&id), Some(SessionStatus::Active));
}

#[test]
fn opening_messages_move_the_handshake_on() {
    let candidates = voter_candidates(3, 0);
    let id = DkgSessionId::new(&candidates, 1);
    let own = voter_peer(1);
    let mut voter = DkgVoter::new();
    voter.start(&own, id.copy(), candidates.copy(), voter_key()).unwrap();
    let members: BTreeSet<XorName> =
        (1..=3u128).map(|n| XorName(Name::new(0, n).to_bytes())).collect();
    let opening = |from: u64| Message::Initialization {
        key_gen_id: from,
        m: 2,
        n: 3,
        member_list: members.clone(),
    };
    let one = voter.process_msg(voter_peer(1), &own, &id, opening(0), voter_key()).unwrap();
    assert!(one.is_empty());
    let two = voter.process_msg(voter_peer(2), &own, &id, opening(1), voter_key()).unwrap();
    assert_eq!(two.len(), 3);
    for (cmd, n) in two.iter().zip(1..=3u128) {
        match cmd {
            Cmd::SendMsg { recipients, msg, section_key } => {
                assert_eq!(recipients, &vec![voter_peer(n)]);
                assert_eq!(section_key, &voter_key());
                match msg {
                    SystemMsg::DkgMessage { session_id, message } => {
                        assert!(session_id.same(&id));
                        assert!(matches!(message, Message::Proposal { key_gen_id: 0, .. }));
                    }
                    other => panic!("unexpected message {:?}", other),
                }
            }
            other => panic!("unexpected command {:?}", other),
        }
    }
    assert_eq!(voter.get_cached_msgs(&id), vec![opening(0), opening(1)]);
    assert_eq!(voter.status(&id), Some(SessionStatus::Active));
}

#[test]
fn replay_hands_over_only_what_is_new() {
    let (mut voter, id, _) = started(3, 1);
    let own = voter_peer(1);
    let a = complaint(1, 0);
    let b = complaint(2, 0);
    let c = complaint(2, 1);
    voter.process_msg(voter_peer(2), &own, &id, a.clone(), voter_key()).unwrap();
    let cmds = voter
        .handle_dkg_history(
            &own,
            id.copy(),
            vec![b.clone(), a.clone(), c.clone(), b.clone()],
            Name::new(0, 2),
            voter_key(),
        )
        .unwrap();
    assert!(cmds.is_empty());
    assert_eq!(voter.get_cached_msgs(&id), vec![a, b, c]);
}

#[test]
fn replay_twice_changes_nothing_the_second_time() {
    let candidates = voter_candidates(3, 0);
    let id = DkgSessionId::new(&candidates, 1);
    let own = voter_peer(1);
    let mut voter = DkgVoter::new();
    voter.start(&own, id.copy(), candidates.copy(), voter_key()).unwrap();
    let members: BTreeSet<XorName> =
        (1..=3u128).map(|n| XorName(Name::new(0, n).to_bytes())).collect();
    let history: Vec<Message> = (0..3u64)
        .map(|from| Message::Initialization {
            key_gen_id: from,
            m: 2,
            n: 3,
            member_list: members.clone(),
        })
        .collect();
    let first = voter
        .handle_dkg_history(&own, id.copy(), history.clone(), Name::new(0, 2), voter_key())
        .unwrap();
    assert_eq!(first.len(), 3);
    let recorded = voter.get_cached_msgs(&id);
    assert_eq!(recorded, history);
    let second = voter
        .handle_dkg_history(&own, id.copy(), history.clone(), Name::new(0, 2), voter_key())
        .unwrap();
    assert!(second.is_empty());
    assert_eq!(voter.get_cached_msgs(&id), recorded);
    assert_eq!(voter.status(&id), Some(SessionStatus::Active));
}

#[test]
fn replay_passes_over_a_refused_message() {
    let (mut voter, id, _) = started(3, 1);
    let own = voter_peer(1);
    let bad = complaint(u64::MAX, 0);
    let good = complaint(1, 0);
    let cmds = voter
        .handle_dkg_history(
            &own,
            id.copy(),
            vec![bad.clone(), good.clone()],
            Name::new(0, 2),
            voter_key(),
        )
        .unwrap();
    assert!(cmds.is_empty());
    assert_eq!(voter.get_cached_msgs(&id), vec![bad, good]);
}

#[test]
fn replay_to_unregistered_session_gives_nothing() {
    let candidates = voter_candidates(3, 0);
    let id = DkgSessionId::new(&candidates, 1);
    let mut voter = DkgVoter::new();
    let cmds = voter
        .handle_dkg_history(
            &voter_peer(1),
            id.copy(),
            vec![complaint(1, 0)],
            Name::new(0, 2),
            voter_key(),
        )
        .unwrap();
    assert!(cmds.is_empty());
    assert!(!voter.knows(&id));
}

#[test]
fn failure_statements_are_handed_on_once() {
    let (mut voter, id, _) = started(7, 1);
    let failed = NameSet::from_vec(&vec![Name::new(0, 7)]);
    assert!(voter.process_failure(&id, &failed, statement(1, &id, &failed)).is_none());
    assert!(voter.process_failure(&id, &failed, statement(2, &id, &failed)).is_none());
    let cmd = voter.process_failure(&id, &failed, statement(3, &id, &failed));
    match cmd {
        Some(Cmd::HandleDkgFailure(set)) => {
            assert_eq!(set.len(), 3);
            assert!(set.failed_participants().same(&failed));
            assert!(set.session_id().same(&id));
            assert_eq!(set.sig(0).signer(), Name::new(0, 1));
            assert_eq!(set.sig(2).signer(), Name::new(0, 3));
        }
        other => panic!("unexpected outcome {:?}", other),
    }
    for n in 1..=7u128 {
        assert!(voter.process_failure(&id, &failed, statement(n, &id, &failed)).is_none());
    }
    let none = NameSet::new();
    for n in 1..=7u128 {
        assert!(voter.process_failure(&id, &none, statement(n, &id, &none)).is_none());
    }
}

#[test]
fn failure_statements_that_do_not_count() {
    let (mut voter, id, candidates) = started(7, 1);
    let failed = NameSet::from_vec(&vec![Name::new(0, 7)]);
    let other = NameSet::from_vec(&vec![Name::new(0, 6)]);
    let elsewhere = DkgSessionId::new(&candidates, 2);
    assert!(voter.process_failure(&id, &failed, statement(1, &id, &failed)).is_none());
    assert!(voter.process_failure(&id, &failed, statement(1, &id, &failed)).is_none());
    assert!(voter.process_failure(&id, &failed, statement(99, &id, &failed)).is_none());
    assert!(voter.process_failure(&id, &failed, statement(2, &id, &other)).is_none());
    assert!(voter.process_failure(&id, &failed, statement(2, &elsewhere, &failed)).is_none());
    assert!(voter.process_failure(&elsewhere, &failed, statement(2, &elsewhere, &failed)).is_none());
    assert!(voter.process_failure(&id, &failed, statement(2, &id, &failed)).is_none());
    assert!(voter.process_failure(&id, &failed, statement(3, &id, &failed)).is_some());
}

#[test]
fn failure_statements_of_a_restarted_session_start_anew() {
    let (mut voter, id, candidates) = started(3, 1);
    let none = NameSet::new();
    assert!(voter.process_failure(&id, &none, statement(1, &id, &none)).is_some());
    assert!(voter.process_failure(&id, &none, statement(2, &id, &none)).is_none());
    voter.start(&voter_peer(1), id.copy(), candidates, voter_key()).unwrap();
    assert!(voter.process_failure(&id, &none, statement(2, &id, &none)).is_some());
}

#[test]
fn responses_go_to_the_candidate_they_are_for() {
    let candidates = voter_candidates(3, 0);
    let id = DkgSessionId::new(&candidates, 1);
    let responses = vec![
        (Name::new(0, 3), complaint(0, 1)),
        (Name::new(0, 44), complaint(0, 2)),
        (Name::new(0, 1), complaint(0, 3)),
    ];
    let cmds = send_responses(&id, &candidates, &responses, voter_key());
    assert_eq!(
        cmds,
        vec![
            Cmd::SendMsg {
                recipients: vec![voter_peer(3)],
                msg: SystemMsg::DkgMessage { session_id: id.copy(), message: complaint(0, 1) },
                section_key: voter_key(),
            },
            Cmd::SendMsg {
                recipients: vec![voter_peer(1)],
                msg: SystemMsg::DkgMessage { session_id: id.copy(), message: complaint(0, 3) },
                section_key: voter_key(),
            },
        ]
    );
    assert!(send_responses(&id, &candidates, &vec![], voter_key()).is_empty());
}

#[test]
fn completion_with_all_participants_succeeds() {
    let candidates = voter_candidates(3, 0);
    let id = DkgSessionId::new(&candidates, 1);
    let keys = blsttc::SecretKeySet::random(1, &mut rand::thread_rng());
    let public = keys.public_keys();
    let share = keys.secret_key_share(2);
    let key = SectionKey::new(public.public_key().to_bytes());
    let participants = vec![Name::new(0, 3), Name::new(0, 1), Name::new(0, 2)];
    let (status, cmd) =
        complete(&id, &candidates, 2, &participants, public.clone(), share.clone(), Some(key));
    assert_eq!(status, SessionStatus::Succeeded);
    match cmd {
        Cmd::HandleDkgOutcome { section_auth, outcome } => {
            assert_eq!(section_auth.elders_vec(), candidates.elders());
            assert_eq!(section_auth.prefix(), candidates.prefix());
            assert_eq!(section_auth.section_key(), key);
            assert_eq!(outcome, SectionKeyShare::new(public, 2, share));
            assert_eq!(outcome.public_key(), Some(key));
        }
        other => panic!("unexpected command {:?}", other),
    }
}

#[test]
fn completion_without_a_participant_fails() {
    let candidates = voter_candidates(3, 0);
    let id = DkgSessionId::new(&candidates, 1);
    let keys = blsttc::SecretKeySet::random(1, &mut rand::thread_rng());
    let key = SectionKey::new(keys.public_keys().public_key().to_bytes());
    let participants = vec![Name::new(0, 1), Name::new(0, 3)];
    let (status, cmd) = complete(
        &id,
        &candidates,
        0,
        &participants,
        keys.public_keys(),
        keys.secret_key_share(0),
        Some(key),
    );
    assert_eq!(status, SessionStatus::Failed);
    assert_eq!(
        cmd,
        Cmd::ObserveDkgFailure {
            session_id: id.copy(),
            failed_participants: NameSet::from_vec(&vec![Name::new(0, 2)]),
        }
    );
}

#[test]
fn completion_with_a_stranger_or_without_a_key_fails() {
    let candidates = voter_candidates(3, 0);
    let id = DkgSessionId::new(&candidates, 1);
    let keys = blsttc::SecretKeySet::random(1, &mut rand::thread_rng());
    let key = SectionKey::new(keys.public_keys().public_key().to_bytes());
    let all = vec![Name::new(0, 1), Name::new(0, 2), Name::new(0, 3)];
    let mut more = all.clone();
    more.push(Name::new(0, 4));
    let (status, cmd) = complete(
        &id,
        &candidates,
        0,
        &more,
        keys.public_keys(),
        keys.secret_key_share(0),
        Some(key),
    );
    assert_eq!(status, SessionStatus::Failed);
    assert_eq!(
        cmd,
        Cmd::ObserveDkgFailure { session_id: id.copy(), failed_participants: NameSet::new() }
    );
    let (status, cmd) =
        complete(&id, &candidates, 0, &all, keys.public_keys(), keys.secret_key_share(0), None);
    assert_eq!(status, SessionStatus::Failed);
    assert_eq!(
        cmd,
        Cmd::ObserveDkgFailure { session_id: id.copy(), failed_participants: NameSet::new() }
    );
}

#[test]
fn section_key_is_the_start_of_the_key_set() {
    let keys = blsttc::SecretKeySet::random(2, &mut rand::thread_rng());
    let public = keys.public_keys();
    let expected = SectionKey::new(public.public_key().to_bytes());
    let share = SectionKeyShare::new(public.clone(), 1, keys.secret_key_share(1));
    assert_eq!(share.public_key(), Some(expected));
    assert_eq!(SectionKey::leading(&public.to_bytes()), Some(expected));
    assert_eq!(SectionKey::leading(&vec![0u8; 47]), None);
    assert_eq!(SectionKey::leading(&vec![3u8; 48]), Some(SectionKey::new([3u8; 48])));
    assert!(expected.same(&SectionKey::new(expected.to_bytes())));
    assert!(!expected.same(&SectionKey::new([0u8; 48])));
}
