use bls_dkg::key_gen::message::Message;
use sn_dkg::error::DkgError;
use sn_dkg::failure::{DkgFailureSig, DkgFailureSigSet};
use sn_dkg::keys::{SectionKey, SectionKeyShare};
use sn_dkg::knowledge::{NetworkKnowledge, SectionAuthorityProvider};
use sn_dkg::messages::{Cmd, SystemMsg};
use sn_dkg::name::{Name, NameSet, Prefix};
use sn_dkg::node::Node;
use sn_dkg::peer::{Address, Peer};
use sn_dkg::session::{DkgSessionId, ElderCandidates};
use sn_dkg::voter::SessionStatus;
use std::collections::VecDeque;

fn at(n: u128, port: u16) -> Address {
    Address::V4 { ip: n as u32, port }
}

fn node_peer(n: u128) -> Peer {
    Peer::new(Name::new(0, n), at(n, 3000))
}

fn root() -> Prefix {
    Prefix::new(0, Name::new(0, 0))
}

fn old_key() -> SectionKey {
    SectionKey::new([4u8; 48])
}

fn group(range: std::ops::RangeInclusive<u128>) -> ElderCandidates {
    ElderCandidates::new(root(), range.map(node_peer).collect())
}

fn authority(range: std::ops::RangeInclusive<u128>, key: SectionKey) -> SectionAuthorityProvider {
    SectionAuthorityProvider::from_elder_candidates(group(range), key)
}

fn node_with(
    own: u128,
    chain_len: u64,
    signed: Vec<SectionAuthorityProvider>,
    variants: Vec<ElderCandidates>,
) -> Node {
    let members: Vec<Peer> = (1..=9).map(node_peer).collect();
    Node::new(
        node_peer(own),
        NetworkKnowledge::new(chain_len, authority(1..=3, old_key()), members, signed, variants),
    )
}

fn pairs(range: std::ops::RangeInclusive<u128>) -> Vec<(Name, Address)> {
    range.map(|n| (Name::new(0, n), at(n, 3000))).collect()
}

fn node_complaint(creator: u64) -> Message {
    Message::Complaint { key_gen_id: creator, target: 0, msg: vec![7] }
}

fn signed_by(n: u128, id: &DkgSessionId, failed: &NameSet) -> DkgFailureSig {
    DkgFailureSig::new(Name::new(0, n), id.copy(), failed.copy(), vec![n as u8; 64])
}

fn proof_of_failure(
    signers: std::ops::RangeInclusive<u128>,
    id: &DkgSessionId,
    failed: &NameSet,
) -> DkgFailureSigSet {
    let mut set = DkgFailureSigSet::new(id.copy());
    for n in signers {
        assert!(set.insert(signed_by(n, id, failed), failed));
    }
    set
}

#[test]
fn generation_before_the_chain_length_is_stale() {
    let node = node_with(1, 5, vec![], vec![]);
    assert_eq!(node.check_generation(4), Err(DkgError::StaleGeneration));
    assert_eq!(node.check_generation(0), Err(DkgError::StaleGeneration));
    assert_eq!(node.check_generation(5), Ok(()));
    assert_eq!(node.check_generation(6), Ok(()));
    assert_eq!(node.network_knowledge.chain_len(), 5);
}

#[test]
fn stale_start_is_dropped() {
    let mut node = node_with(1, 5, vec![], vec![]);
    let id = DkgSessionId::new(&group(1..=3), 4);
    let cmds = node.handle_dkg_start(id.copy(), root(), pairs(1..=3)).unwrap();
    assert!(cmds.is_empty());
    assert!(!node.dkg_voter.knows(&id));
}

#[test]
fn start_of_the_current_generation_is_taken() {
    let mut node = node_with(2, 5, vec![], vec![]);
    let id = DkgSessionId::new(&group(1..=3), 5);
    let cmds = node.handle_dkg_start(id.copy(), root(), pairs(1..=3)).unwrap();
    assert_eq!(cmds.len(), 3);
    assert!(node.dkg_voter.knows(&id));
    for (cmd, n) in cmds.iter().zip(1..=3u128) {
        match cmd {
            Cmd::SendMsg { recipients, msg, section_key } => {
                assert_eq!(recipients, &vec![node_peer(n)]);
                assert_eq!(section_key, &old_key());
                assert!(matches!(
                    msg,
                    SystemMsg::DkgMessage {
                        message: Message::Initialization { key_gen_id: 1, m: 2, n: 3, .. },
                        ..
                    }
                ));
            }
            other => panic!("unexpected command {:?}", other),
        }
    }
}

#[test]
fn start_then_start_of_the_next_generation() {
    let mut node = node_with(1, 5, vec![], vec![]);
    let five = DkgSessionId::new(&group(1..=3), 5);
    let six = DkgSessionId::new(&group(1..=3), 6);
    node.handle_dkg_start(five.copy(), root(), pairs(1..=3)).unwrap();
    node.handle_dkg_start(six.copy(), root(), pairs(1..=3)).unwrap();
    assert!(node.dkg_voter.knows(&six));
    assert!(!node.dkg_voter.knows(&five));
    assert!(node.dkg_voter.get_cached_msgs(&five).is_empty());
    let cmds = node.handle_dkg_msg(five.copy(), node_complaint(1), node_peer(2)).unwrap();
    assert_eq!(
        cmds,
        vec![Cmd::SendMsg {
            recipients: vec![node_peer(2)],
            msg: SystemMsg::DkgNotReady { session_id: five.copy(), message: node_complaint(1) },
            section_key: old_key(),
        }]
    );
    assert!(!node.dkg_voter.knows(&five));
}

#[test]
fn candidates_are_resolved_against_what_the_node_knows() {
    let node = node_with(1, 5, vec![], vec![]);
    let known_elder = (Name::new(0, 2), at(2, 3000));
    let moved_elder = (Name::new(0, 3), at(3, 4444));
    let renamed_member = (Name::new(0, 77), at(5, 3000));
    let stranger = (Name::new(0, 88), at(88, 1));
    let candidates = node.resolve_candidates(
        root(),
        &vec![stranger, renamed_member, moved_elder, known_elder],
    );
    assert_eq!(
        candidates.elders(),
        vec![
            node_peer(2),
            Peer::new(Name::new(0, 3), at(3, 4444)),
            node_peer(5),
            Peer::new(Name::new(0, 88), at(88, 1)),
        ]
    );
    assert_eq!(node.network_knowledge.resolve_peer(Name::new(0, 2), at(2, 3000)), node_peer(2));
    assert_eq!(node.network_knowledge.resolve_peer(Name::new(0, 2), at(3, 3000)), node_peer(3));
    assert_eq!(node.network_knowledge.find_member_by_addr(&at(9, 3000)), Some(node_peer(9)));
    assert_eq!(node.network_knowledge.find_member_by_addr(&at(9, 3001)), None);
}

#[test]
fn message_for_a_session_without_a_handshake_is_answered_not_ready() {
    let mut node = node_with(1, 5, vec![], vec![]);
    let id = DkgSessionId::new(&group(1..=3), 5);
    let cmds = node.handle_dkg_msg(id.copy(), node_complaint(2), node_peer(3)).unwrap();
    assert_eq!(
        cmds,
        vec![Cmd::SendMsg {
            recipients: vec![node_peer(3)],
            msg: SystemMsg::DkgNotReady { session_id: id.copy(), message: node_complaint(2) },
            section_key: old_key(),
        }]
    );
    assert!(!node.dkg_voter.knows(&id));
}

#[test]
fn refused_message_has_the_node_observe_a_failure() {
    let mut node = node_with(1, 5, vec![], vec![]);
    let id = DkgSessionId::new(&group(1..=3), 5);
    node.handle_dkg_start(id.copy(), root(), pairs(1..=3)).unwrap();
    let cmds = node.handle_dkg_msg(id.copy(), node_complaint(u64::MAX), node_peer(3)).unwrap();
    assert_eq!(
        cmds,
        vec![Cmd::ObserveDkgFailure { session_id: id.copy(), failed_participants: NameSet::new() }]
    );
    assert_eq!(node.dkg_voter.get_cached_msgs(&id), vec![node_complaint(u64::MAX)]);
}

#[test]
fn not_ready_is_answered_with_the_history() {
    let mut node = node_with(1, 5, vec![], vec![]);
    let id = DkgSessionId::new(&group(1..=3), 5);
    node.handle_dkg_start(id.copy(), root(), pairs(1..=3)).unwrap();
    node.handle_dkg_msg(id.copy(), node_complaint(1), node_peer(2)).unwrap();
    node.handle_dkg_msg(id.copy(), node_complaint(2), node_peer(3)).unwrap();
    let key = SectionKey::new([6u8; 48]);
    let cmds = node.handle_dkg_not_ready(node_peer(3), node_complaint(0), id.copy(), key).unwrap();
    assert_eq!(
        cmds,
        vec![Cmd::SendMsg {
            recipients: vec![node_peer(3)],
            msg: SystemMsg::DkgRetry {
                message_history: vec![node_complaint(1), node_complaint(2)],
                message: node_complaint(0),
                session_id: id.copy(),
            },
            section_key: key,
        }]
    );
    assert_eq!(node.dkg_voter.get_cached_msgs(&id).len(), 2);
    let unknown = DkgSessionId::new(&group(1..=3), 6);
    let cmds = node.handle_dkg_not_ready(node_peer(2), node_complaint(0), unknown.copy(), key);
    assert_eq!(
        cmds,
        Ok(vec![Cmd::SendMsg {
            recipients: vec![node_peer(2)],
            msg: SystemMsg::DkgRetry {
                message_history: vec![],
                message: node_complaint(0),
                session_id: unknown.copy(),
            },
            section_key: key,
        }])
    );
    assert!(!node.dkg_voter.knows(&unknown));
}

#[test]
fn stale_retry_is_ignored() {
    let mut node = node_with(1, 5, vec![], vec![]);
    let old = DkgSessionId::new(&group(1..=3), 4);
    let cmds = node
        .handle_dkg_retry(old.copy(), vec![node_complaint(1)], node_complaint(2), node_peer(2))
        .unwrap();
    assert!(cmds.is_empty());
    assert!(!node.dkg_voter.knows(&old));
    assert!(node.dkg_voter.get_cached_msgs(&old).is_empty());
}

#[test]
fn stale_retry_leaves_a_registered_session_alone() {
    let mut node = node_with(1, 4, vec![], vec![]);
    let id = DkgSessionId::new(&group(1..=3), 4);
    node.handle_dkg_start(id.copy(), root(), pairs(1..=3)).unwrap();
    node.handle_dkg_msg(id.copy(), node_complaint(1), node_peer(2)).unwrap();
    node.network_knowledge =
        NetworkKnowledge::new(5, authority(1..=3, old_key()), vec![], vec![], vec![]);
    let cmds = node
        .handle_dkg_retry(id.copy(), vec![node_complaint(2)], node_complaint(0), node_peer(2))
        .unwrap();
    assert!(cmds.is_empty());
    assert_eq!(node.dkg_voter.get_cached_msgs(&id), vec![node_complaint(1)]);
}

#[test]
fn retry_replays_history_and_then_handles_the_message() {
    let mut node = node_with(1, 5, vec![], vec![]);
    let id = DkgSessionId::new(&group(1..=3), 5);
    node.handle_dkg_start(id.copy(), root(), pairs(1..=3)).unwrap();
    let members: std::collections::BTreeSet<xor_name::XorName> =
        (1..=3u128).map(|n| xor_name::XorName(Name::new(0, n).to_bytes())).collect();
    let opening = |from: u64| Message::Initialization {
        key_gen_id: from,
        m: 2,
        n: 3,
        member_list: members.clone(),
    };
    let cmds = node
        .handle_dkg_retry(
            id.copy(),
            vec![opening(1), opening(2)],
            node_complaint(u64::MAX),
            node_peer(2),
        )
        .unwrap();
    assert_eq!(cmds.len(), 4);
    for cmd in &cmds[..3] {
        assert!(matches!(
            cmd,
            Cmd::SendMsg {
                msg: SystemMsg::DkgMessage { message: Message::Proposal { .. }, .. },
                ..
            }
        ));
    }
    assert_eq!(
        cmds[3],
        Cmd::ObserveDkgFailure { session_id: id.copy(), failed_participants: NameSet::new() }
    );
    assert_eq!(
        node.dkg_voter.get_cached_msgs(&id),
        vec![opening(1), opening(2), node_complaint(u64::MAX)]
    );
}

#[test]
fn retry_for_an_unregistered_session_is_answered_not_ready() {
    let mut node = node_with(1, 5, vec![], vec![]);
    let id = DkgSessionId::new(&group(1..=3), 5);
    let cmds = node
        .handle_dkg_retry(id.copy(), vec![node_complaint(1)], node_complaint(2), node_peer(2))
        .unwrap();
    assert_eq!(
        cmds,
        vec![Cmd::SendMsg {
            recipients: vec![node_peer(2)],
            msg: SystemMsg::DkgNotReady { session_id: id.copy(), message: node_complaint(2) },
            section_key: old_key(),
        }]
    );
    assert!(!node.dkg_voter.knows(&id));
}

#[test]
fn failure_observation_gives_at_most_one_command() {
    let mut node = node_with(1, 5, vec![], vec![]);
    let id = DkgSessionId::new(&group(1..=3), 5);
    node.handle_dkg_start(id.copy(), root(), pairs(1..=3)).unwrap();
    let failed = NameSet::from_vec(&vec![Name::new(0, 3)]);
    let first = node
        .handle_dkg_failure_observation(id.copy(), &failed, signed_by(1, &id, &failed))
        .unwrap();
    assert_eq!(first.len(), 1);
    match &first[0] {
        Cmd::HandleDkgFailure(set) => {
            assert_eq!(set.len(), 1);
            assert!(set.failed_participants().same(&failed));
        }
        other => panic!("unexpected command {:?}", other),
    }
    let second = node
        .handle_dkg_failure_observation(id.copy(), &failed, signed_by(2, &id, &failed))
        .unwrap();
    assert!(second.is_empty());
    let unknown = DkgSessionId::new(&group(1..=3), 6);
    let third = node
        .handle_dkg_failure_observation(unknown.copy(), &failed, signed_by(1, &unknown, &failed))
        .unwrap();
    assert!(third.is_empty());
}

#[test]
fn failure_agreement_from_a_stranger_is_refused() {
    let variants = vec![group(1..=7)];
    let node = node_with(1, 5, vec![], variants);
    let id = DkgSessionId::new(&group(1..=7), 5);
    let failed = NameSet::from_vec(&vec![Name::new(0, 7)]);
    let set = proof_of_failure(1..=3, &id, &failed);
    assert_eq!(
        node.handle_dkg_failure_agreement(&Name::new(0, 10), &set),
        Err(DkgError::UnauthorizedSender)
    );
    assert!(node.network_knowledge.is_section_member(&Name::new(0, 9)));
    assert!(!node.network_knowledge.is_section_member(&Name::new(0, 10)));
}

#[test]
fn failure_agreement_from_a_member_restarts_without_the_failed() {
    let variants = vec![group(2..=8), group(1..=7)];
    let node = node_with(1, 5, vec![], variants);
    let id = DkgSessionId::new(&group(1..=7), 5);
    let failed = NameSet::from_vec(&vec![Name::new(0, 7), Name::new(0, 6)]);
    let set = proof_of_failure(1..=3, &id, &failed);
    assert_eq!(
        node.handle_dkg_failure_agreement(&Name::new(0, 9), &set),
        Ok(vec![
            Cmd::ProposeOffline(failed.copy()),
            Cmd::PromoteAndDemoteElders { excluded: failed.copy() },
        ])
    );
    assert!(node.verify_failure_claim(&set).unwrap().same(&group(1..=7)));
}

#[test]
fn failure_agreement_without_failed_participants_only_restarts() {
    let node = node_with(1, 5, vec![], vec![group(1..=7)]);
    let id = DkgSessionId::new(&group(1..=7), 5);
    let none = NameSet::new();
    let set = proof_of_failure(2..=4, &id, &none);
    assert_eq!(
        node.handle_dkg_failure_agreement(&Name::new(0, 1), &set),
        Ok(vec![Cmd::PromoteAndDemoteElders { excluded: NameSet::new() }])
    );
}

#[test]
fn failure_agreement_that_proves_nothing_is_passed_over() {
    let node = node_with(1, 5, vec![], vec![group(1..=7)]);
    let failed = NameSet::from_vec(&vec![Name::new(0, 7)]);
    let id = DkgSessionId::new(&group(1..=7), 5);
    let too_few = proof_of_failure(1..=2, &id, &failed);
    assert_eq!(node.handle_dkg_failure_agreement(&Name::new(0, 2), &too_few), Ok(vec![]));
    assert_eq!(
        node.verify_failure_claim(&too_few).map(|c| c.len()),
        Err(DkgError::UnverifiedFailureClaim)
    );
    let old = DkgSessionId::new(&group(1..=7), 4);
    let outdated = proof_of_failure(1..=5, &old, &failed);
    assert_eq!(node.handle_dkg_failure_agreement(&Name::new(0, 2), &outdated), Ok(vec![]));
    let others = DkgSessionId::new(&group(2..=8), 5);
    let elsewhere = proof_of_failure(2..=6, &others, &failed);
    assert_eq!(node.handle_dkg_failure_agreement(&Name::new(0, 2), &elsewhere), Ok(vec![]));
    let empty = node_with(1, 5, vec![], vec![]);
    let enough = proof_of_failure(1..=7, &id, &failed);
    assert_eq!(empty.handle_dkg_failure_agreement(&Name::new(0, 2), &enough), Ok(vec![]));
    let nobody = node_with(1, 5, vec![], vec![ElderCandidates::empty(root())]);
    assert_eq!(nobody.handle_dkg_failure_agreement(&Name::new(0, 2), &enough), Ok(vec![]));
}

#[test]
fn outcome_is_proposed_to_the_elders_known_before() {
    let keys = blsttc::SecretKeySet::random(1, &mut rand::thread_rng());
    let new_key = SectionKey::new(keys.public_keys().public_key().to_bytes());
    let unrelated = authority(2..=4, SectionKey::new([1u8; 48]));
    let mut node = node_with(2, 5, vec![unrelated], vec![]);
    let sap = authority(2..=4, new_key);
    let share = SectionKeyShare::new(keys.public_keys(), 0, keys.secret_key_share(0));
    let cmds = node.handle_dkg_outcome(sap.copy(), share).unwrap();
    assert_eq!(
        cmds,
        vec![Cmd::ProposeSectionInfo {
            recipients: (1..=3).map(node_peer).collect(),
            section_auth: sap,
            signing_key: new_key,
        }]
    );
    assert_eq!(node.section_keys.len(), 1);
    assert_eq!(node.section_keys[0].public_key(), Some(new_key));
    assert_eq!(node.network_knowledge.section_key(), old_key());
    assert_eq!(node.network_knowledge.authority_provider(), authority(1..=3, old_key()));
}

#[test]
fn outcome_that_the_section_has_signed_is_adopted_without_a_proposal() {
    let keys = blsttc::SecretKeySet::random(1, &mut rand::thread_rng());
    let new_key = SectionKey::new(keys.public_keys().public_key().to_bytes());
    let signed = authority(2..=4, new_key);
    let mut node = node_with(2, 5, vec![authority(5..=7, old_key()), signed.copy()], vec![]);
    let share = SectionKeyShare::new(keys.public_keys(), 0, keys.secret_key_share(0));
    let cmds = node.handle_dkg_outcome(signed.copy(), share).unwrap();
    assert_eq!(cmds, vec![Cmd::UpdateNodeState { previous: authority(1..=3, old_key()) }]);
    assert_eq!(node.section_keys.len(), 1);
    assert_eq!(node.network_knowledge.section_key(), new_key);
    assert_eq!(node.network_knowledge.authority_provider(), signed);
}

#[test]
fn outcome_for_another_prefix_is_not_adopted() {
    let keys = blsttc::SecretKeySet::random(1, &mut rand::thread_rng());
    let new_key = SectionKey::new(keys.public_keys().public_key().to_bytes());
    let elsewhere = SectionAuthorityProvider::from_elder_candidates(
        ElderCandidates::new(Prefix::new(1, Name::new(0, 0)), (2..=4).map(node_peer).collect()),
        new_key,
    );
    let mut node = node_with(2, 5, vec![elsewhere], vec![]);
    let sap = authority(2..=4, new_key);
    let cmds = node.adopt_or_propose(sap.copy(), new_key);
    assert_eq!(
        cmds,
        vec![Cmd::ProposeSectionInfo {
            recipients: (1..=3).map(node_peer).collect(),
            section_auth: sap,
            signing_key: new_key,
        }]
    );
    assert_eq!(node.network_knowledge.section_key(), old_key());
    assert!(node.section_keys.is_empty());
}

#[test]
fn failure_is_sent_to_the_elders() {
    let node = node_with(1, 5, vec![], vec![]);
    let id = DkgSessionId::new(&group(1..=7), 5);
    let failed = NameSet::from_vec(&vec![Name::new(0, 7)]);
    let cmd = node.handle_dkg_failure(proof_of_failure(1..=3, &id, &failed)).unwrap();
    assert_eq!(
        cmd,
        Cmd::SendMsg {
            recipients: (1..=3).map(node_peer).collect(),
            msg: SystemMsg::DkgFailureAgreement(proof_of_failure(1..=3, &id, &failed)),
            section_key: old_key(),
        }
    );
}

#[test]
fn three_nodes_generate_a_key() {
    let id = DkgSessionId::new(&group(1..=3), 5);
    let mut nodes: Vec<Node> = (1..=3).map(|n| node_with(n, 5, vec![], vec![])).collect();
    let mut queue: VecDeque<(Peer, Peer, Message)> = VecDeque::new();
    let mut outcomes: Vec<Option<(SectionAuthorityProvider, SectionKeyShare)>> =
        vec![None, None, None];
    let mut pending: Vec<(usize, Vec<Cmd>)> = Vec::new();
    for (i, node) in nodes.iter_mut().enumerate() {
        pending.push((i, node.handle_dkg_start(id.copy(), root(), pairs(1..=3)).unwrap()));
    }
    let mut rounds = 0;
    loop {
        for (from, cmds) in pending.drain(..) {
            for cmd in cmds {
                match cmd {
                    Cmd::SendMsg {
                        recipients,
                        msg: SystemMsg::DkgMessage { session_id, message },
                        section_key,
                    } => {
                        assert!(session_id.same(&id));
                        assert_eq!(section_key, old_key());
                        assert_eq!(recipients.len(), 1);
                        queue.push_back((recipients[0], node_peer(from as u128 + 1), message));
                    }
                    Cmd::HandleDkgOutcome { section_auth, outcome } => {
                        assert!(outcomes[from].is_none());
                        outcomes[from] = Some((section_auth, outcome));
                    }
                    other => panic!("unexpected command {:?}", other),
                }
            }
        }
        let (to, from, message) = match queue.pop_front() {
            Some(next) => next,
            None => break,
        };
        let index = (to.name.lo - 1) as usize;
        let cmds = nodes[index].handle_dkg_msg(id.copy(), message, from).unwrap();
        pending.push((index, cmds));
        rounds += 1;
        assert!(rounds < 10_000);
    }
    let mut keys = Vec::new();
    for (i, outcome) in outcomes.into_iter().enumerate() {
        let (section_auth, share) = outcome.expect("every node ends with a share");
        assert_eq!(section_auth.elders_vec(), group(1..=3).elders());
        assert_eq!(section_auth.prefix(), root());
        assert_eq!(share.index, i);
        assert_eq!(share.public_key(), Some(section_auth.section_key()));
        assert_eq!(
            share.public_key_set.public_key_share(i),
            share.secret_key_share.public_key_share()
        );
        assert_eq!(nodes[i].dkg_voter.status(&id), Some(SessionStatus::Succeeded));
        keys.push(section_auth.section_key());
    }
    assert_eq!(keys[0], keys[1]);
    assert_eq!(keys[1], keys[2]);
    let late = nodes[0].handle_dkg_msg(id.copy(), node_complaint(1), node_peer(2)).unwrap();
    assert!(late.is_empty());
}

#[test]
fn message_that_comes_too_early_for_the_handshake_is_refused() {
    let id = DkgSessionId::new(&group(1..=3), 5);
    let mut early = node_with(1, 5, vec![], vec![]);
    let mut ahead = node_with(2, 5, vec![], vec![]);
    let opening = early.handle_dkg_start(id.copy(), root(), pairs(1..=3)).unwrap();
    ahead.handle_dkg_start(id.copy(), root(), pairs(1..=3)).unwrap();
    let mut proposals = Vec::new();
    for (cmd, from) in opening.into_iter().zip([10u64, 11, 12]) {
        if let Cmd::SendMsg { msg: SystemMsg::DkgMessage { message, .. }, .. } = cmd {
            let message = match message {
                Message::Initialization { m, n, member_list, .. } => {
                    Message::Initialization { key_gen_id: from - 10, m, n, member_list }
                }
                other => other,
            };
            proposals.extend(ahead.handle_dkg_msg(id.copy(), message, node_peer(1)).unwrap());
        }
    }
    let for_early = proposals
        .into_iter()
        .find_map(|cmd| match cmd {
            Cmd::SendMsg { recipients, msg: SystemMsg::DkgMessage { message, .. }, .. }
                if recipients == vec![node_peer(1)] =>
            {
                Some(message)
            }
            _ => None,
        })
        .expect("a proposal for the first node");
    assert!(matches!(for_early, Message::Proposal { .. }));
    let cmds = early.handle_dkg_msg(id.copy(), for_early.clone(), node_peer(2)).unwrap();
    assert_eq!(
        cmds,
        vec![Cmd::ObserveDkgFailure { session_id: id.copy(), failed_participants: NameSet::new() }]
    );
    assert_eq!(early.dkg_voter.get_cached_msgs(&id), vec![for_early]);
    assert_eq!(early.dkg_voter.status(&id), Some(SessionStatus::Active));
}
