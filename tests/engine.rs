use febft::consensus::{Consensus, ConsensusPollStatus, ConsensusStatus, DecisionLog, Proof};
use febft::decision::DecisionPhase;
use febft::guard::{ClientRqInfo, ProposerConsensusGuard};
use febft::message::{
    ConsensusMessage, ConsensusMessageKind, Digest, Header, NodeId, RequestMessage, Signature, StoredMessage,
    StoredRequestMessage, ViewInfo,
};
use febft::ordering::SeqNo;
use febft::protocol::{
    ConsensusPhase, OrderProtocolPoll, PBFTOrderProtocol, SyncPhaseRes, SynchronizerPollStatus, SynchronizerStatus,
};

fn digest(x: u64) -> Digest {
    Digest { w0: x, w1: x + 1, w2: x + 2, w3: x + 3 }
}

fn header(from: NodeId, to: NodeId, d: Digest) -> Header {
    Header {
        from,
        to,
        nonce: 7,
        digest: d,
        signature: Signature { lo: digest(100), hi: digest(200) },
        length: 0,
    }
}

fn view(seq: u32) -> ViewInfo {
    // n = 4, f = 1, the leader rotates with the view
    ViewInfo::new(SeqNo::new(seq), 1, vec![seq % 4])
}

fn request(client: NodeId, op_id: u32, op: &[u8]) -> StoredRequestMessage {
    StoredRequestMessage {
        header: header(client, 0, digest(op_id as u64)),
        message: RequestMessage::new(SeqNo::new(1), SeqNo::new(op_id), op.to_vec()),
    }
}

fn pre_prepare(seq: u32, v: u32, reqs: Vec<StoredRequestMessage>) -> ConsensusMessage {
    ConsensusMessage::new(SeqNo::new(seq), SeqNo::new(v), ConsensusMessageKind::PrePrepare(reqs))
}

fn prepare(seq: u32, v: u32, d: Digest) -> ConsensusMessage {
    ConsensusMessage::new(SeqNo::new(seq), SeqNo::new(v), ConsensusMessageKind::Prepare(d))
}

fn commit(seq: u32, v: u32, d: Digest) -> ConsensusMessage {
    ConsensusMessage::new(SeqNo::new(seq), SeqNo::new(v), ConsensusMessageKind::Commit(d))
}

/// Replica 1 (a backup) runs slot `seq` of view 0 to Decided.
fn decide(c: &mut Consensus, seq: u32, d: Digest) {
    let st = c.process_message(header(0, 1, d), pre_prepare(seq, 0, vec![request(9, seq, b"op")]));
    assert_eq!(st.0, ConsensusStatus::Deciding);
    c.process_message(header(2, 1, d), prepare(seq, 0, d));
    c.process_message(header(3, 1, d), prepare(seq, 0, d));
    c.process_message(header(2, 1, d), commit(seq, 0, d));
    let st = c.process_message(header(3, 1, d), commit(seq, 0, d));
    assert_eq!(st.0, ConsensusStatus::Decided);
}

#[test]
fn happy_path_backup_finalizes_batch() {
    let v = view(0);
    let mut proto = PBFTOrderProtocol::initialize_protocol(1, &v, 4, false);
    let d = digest(42);
    let batch = vec![request(9, 1, b"R1"), request(9, 2, b"R2")];
    let (st, bcast, done) = proto.process_consensus_message(header(0, 1, d), pre_prepare(0, 0, batch));
    assert_eq!(st, ConsensusStatus::Deciding);
    assert!(done.is_empty());
    match bcast {
        Some(ConsensusMessage { kind: ConsensusMessageKind::Prepare(p), .. }) => assert_eq!(p, d),
        _ => panic!("a backup broadcasts its prepare"),
    }
    let (_, bcast, _) = proto.process_consensus_message(header(2, 1, d), prepare(0, 0, d));
    match bcast {
        Some(ConsensusMessage { kind: ConsensusMessageKind::Commit(c), .. }) => assert_eq!(c, d),
        _ => panic!("two prepares move the slot to commit"),
    }
    proto.process_consensus_message(header(3, 1, d), prepare(0, 0, d));
    let (st, _, done) = proto.process_consensus_message(header(2, 1, d), commit(0, 0, d));
    assert_eq!(st, ConsensusStatus::Deciding);
    assert!(done.is_empty());
    let (st, _, done) = proto.process_consensus_message(header(3, 1, d), commit(0, 0, d));
    assert_eq!(st, ConsensusStatus::Decided);
    assert_eq!(done.len(), 1);
    assert_eq!(done[0].seq, SeqNo::new(0));
    assert_eq!(done[0].batch_digest, d);
    assert_eq!(done[0].requests.len(), 2);
    assert_eq!(done[0].requests[0].message.operation, b"R1".to_vec());
    assert_eq!(done[0].requests[1].message.operation, b"R2".to_vec());
    assert_eq!(done[0].pre_prepare_digests_to_persist, vec![d]);
    assert_eq!(proto.sequence_number(), SeqNo::new(1));
    let c = proto.consensus();
    assert_eq!(c.decision_sequence_number(3), SeqNo::new(4));
    assert_eq!(c.decision_phase(3), DecisionPhase::PrePreparing);
}

#[test]
fn double_vote_is_refused() {
    let v = view(0);
    let mut c = Consensus::new_replica(1, &v, SeqNo::new(0), 4, false);
    let d = digest(42);
    c.process_message(header(0, 1, d), pre_prepare(0, 0, vec![request(9, 1, b"R1")]));
    let first = c.process_message(header(2, 1, d), prepare(0, 0, d));
    assert_eq!(first.0, ConsensusStatus::Deciding);
    assert_eq!(c.decision_phase(0), DecisionPhase::Commiting);
    let second = c.process_message(header(2, 1, digest(7)), prepare(0, 0, digest(7)));
    assert_eq!(second.0, ConsensusStatus::VotedTwice(2));
    assert!(second.1.is_none());
    assert_eq!(c.decision_phase(0), DecisionPhase::Commiting);
}

#[test]
fn double_vote_before_quorum_changes_nothing() {
    // with f = 2 the slot needs four prepares, so it stays in Preparing
    let v = ViewInfo::new(SeqNo::new(0), 2, vec![0]);
    let mut c = Consensus::new_replica(1, &v, SeqNo::new(0), 4, false);
    let d = digest(42);
    c.process_message(header(0, 1, d), pre_prepare(0, 0, vec![]));
    c.process_message(header(2, 1, d), prepare(0, 0, d));
    assert_eq!(c.decision_phase(0), DecisionPhase::Preparing);
    let again = c.process_message(header(2, 1, digest(9)), prepare(0, 0, digest(9)));
    assert_eq!(again.0, ConsensusStatus::VotedTwice(2));
    // two more distinct prepares reach 2f = 4 only if the duplicate was not counted
    c.process_message(header(3, 1, d), prepare(0, 0, d));
    assert_eq!(c.decision_phase(0), DecisionPhase::Preparing);
    c.process_message(header(4, 1, d), prepare(0, 0, d));
    assert_eq!(c.decision_phase(0), DecisionPhase::Commiting);
}

#[test]
fn out_of_window_message_is_dropped_then_accepted() {
    let v = view(0);
    let mut c = Consensus::new_replica(1, &v, SeqNo::new(0), 4, false);
    let mut g = ProposerConsensusGuard::new(view(0));
    let d = digest(5);
    let before = c.signalled_count();
    c.queue(header(0, 1, d), pre_prepare(5, 0, vec![]));
    assert_eq!(c.signalled_count(), before);
    let st = c.process_message(header(0, 1, d), pre_prepare(5, 0, vec![]));
    assert_eq!(st.0, ConsensusStatus::Deciding);
    assert!(st.1.is_none());
    for i in 0..4 {
        assert_eq!(c.decision_phase(i), DecisionPhase::PrePreparing);
    }
    c.install_sequence_number(SeqNo::new(2), &mut g);
    assert_eq!(c.sequence_number(), SeqNo::new(2));
    assert_eq!(c.decision_sequence_number(3), SeqNo::new(5));
    let st = c.process_message(header(0, 1, d), pre_prepare(5, 0, vec![]));
    assert_eq!(st.0, ConsensusStatus::Deciding);
    assert!(st.1.is_some());
    assert_eq!(c.decision_phase(3), DecisionPhase::Preparing);
}

#[test]
fn redelivered_message_is_not_counted_twice() {
    let v = view(0);
    let mut c = Consensus::new_replica(1, &v, SeqNo::new(0), 4, false);
    let d = digest(5);
    c.process_message(header(0, 1, d), pre_prepare(0, 0, vec![]));
    let again = c.process_message(header(0, 1, d), pre_prepare(0, 0, vec![]));
    assert_eq!(again.0, ConsensusStatus::VotedTwice(0));
    assert!(again.1.is_none());
    assert_eq!(c.decision_phase(0), DecisionPhase::Preparing);
}

#[test]
fn view_change_reinstalls_window() {
    let v0 = view(0);
    let mut c = Consensus::new_replica(1, &v0, SeqNo::new(2), 4, false);
    let mut g = ProposerConsensusGuard::new(view(0));
    g.make_seq_available(SeqNo::new(3));
    // replica 1 leads view 1
    let v1 = view(1);
    let reqs = vec![request(9, 4, b"carried")];
    let forged = c.forge_propose(reqs, SeqNo::new(1));
    assert_eq!(forged.seq, SeqNo::new(2));
    let d = digest(77);
    let r = c.finalize_view_change(header(1, 1, d), forged, &v1, &mut g);
    assert_eq!(r.0, ConsensusStatus::Deciding);
    assert_eq!(c.view_sequence_number(), SeqNo::new(1));
    assert_eq!(c.sequence_number(), SeqNo::new(2));
    for i in 0..4 {
        assert_eq!(c.decision_sequence_number(i), SeqNo::new(2 + i as u32));
    }
    assert_eq!(c.decision_phase(0), DecisionPhase::Preparing);
    assert_eq!(c.decision_phase(1), DecisionPhase::Init);
    assert!(g.can_propose());
    assert!(g.has_pending_view_change_reqs());
    assert_eq!(g.last_view_change(9, SeqNo::new(1)), Some(SeqNo::new(4)));
    assert_eq!(g.available_count(), 0);
}

#[test]
fn install_view_twice_is_install_view_once() {
    let mut c = Consensus::new_replica(1, &view(0), SeqNo::new(0), 4, false);
    let mut g = ProposerConsensusGuard::new(view(0));
    c.install_view(&view(2), &mut g);
    assert_eq!(c.view_sequence_number(), SeqNo::new(2));
    c.queue(header(2, 1, digest(1)), prepare(1, 2, digest(1)));
    let signalled = c.signalled_count();
    c.install_view(&view(2), &mut g);
    assert_eq!(c.view_sequence_number(), SeqNo::new(2));
    assert_eq!(c.signalled_count(), signalled);
    // an older view changes nothing either
    c.install_view(&view(1), &mut g);
    assert_eq!(c.view_sequence_number(), SeqNo::new(2));
}

#[test]
fn install_view_replays_messages_of_that_view() {
    let mut c = Consensus::new_replica(1, &view(0), SeqNo::new(0), 4, false);
    let mut g = ProposerConsensusGuard::new(view(0));
    let d = digest(3);
    // a pre-prepare of view 2 arrives early and is held
    c.queue(header(2, 1, d), pre_prepare(0, 2, vec![]));
    c.install_view(&view(2), &mut g);
    match c.poll(&mut g) {
        ConsensusPollStatus::NextMessage(h, m) => {
            assert_eq!(h.from, 2);
            assert_eq!(m.view, SeqNo::new(2));
        }
        _ => panic!("the held message is queued again"),
    }
}

#[test]
fn install_sequence_number_twice_is_once() {
    let mut c = Consensus::new_replica(1, &view(0), SeqNo::new(0), 4, false);
    let mut g = ProposerConsensusGuard::new(view(0));
    c.install_sequence_number(SeqNo::new(10), &mut g);
    assert_eq!(c.sequence_number(), SeqNo::new(10));
    assert_eq!(c.tbo_sequence_number(), SeqNo::new(10));
    c.install_sequence_number(SeqNo::new(10), &mut g);
    assert_eq!(c.sequence_number(), SeqNo::new(10));
    for i in 0..4 {
        assert_eq!(c.decision_sequence_number(i), SeqNo::new(10 + i as u32));
    }
    // and going back
    c.install_sequence_number(SeqNo::new(3), &mut g);
    assert_eq!(c.sequence_number(), SeqNo::new(3));
    assert_eq!(c.decision_sequence_number(0), SeqNo::new(3));
    assert_eq!(c.tbo_sequence_number(), SeqNo::new(3));
}

#[test]
fn install_sequence_number_within_window_keeps_decisions() {
    let mut c = Consensus::new_replica(1, &view(0), SeqNo::new(0), 4, false);
    let mut g = ProposerConsensusGuard::new(view(0));
    decide(&mut c, 2, digest(8));
    c.install_sequence_number(SeqNo::new(2), &mut g);
    assert_eq!(c.decision_phase(0), DecisionPhase::Decided);
    assert_eq!(c.decision_sequence_number(0), SeqNo::new(2));
    assert_eq!(c.decision_sequence_number(3), SeqNo::new(5));
    assert!(c.can_finalize());
}

#[test]
fn state_transfer_catch_up() {
    let mut c = Consensus::new_replica(1, &view(0), SeqNo::new(0), 4, false);
    let mut g = ProposerConsensusGuard::new(view(0));
    let mut proofs = Vec::new();
    for s in 7..=10u32 {
        let ops = vec![request(9, s * 10, &[s as u8]), request(9, s * 10 + 1, &[s as u8, 1])];
        proofs.push(Proof {
            seq: SeqNo::new(s),
            pre_prepares: vec![StoredMessage::new(header(0, 1, digest(s as u64)), pre_prepare(s, 0, ops))],
            prepares: vec![],
            commits: vec![],
        });
    }
    let log = DecisionLog { last_exec: Some(SeqNo::new(10)), proofs };
    let replay = c.install_state(&view(3), &log, &mut g);
    assert_eq!(c.sequence_number(), SeqNo::new(11));
    assert_eq!(c.view_sequence_number(), SeqNo::new(3));
    assert!(c.is_catching_up());
    let expected: Vec<Vec<u8>> = (7..=10u8).flat_map(|s| vec![vec![s], vec![s, 1]]).collect();
    assert_eq!(replay, expected);
    // the buffer is empty: the first slide ends the catch-up
    assert!(!c.take_timeout_cancellation());
    c.next_instance();
    assert!(!c.is_catching_up());
    assert!(c.take_timeout_cancellation());
    assert!(!c.take_timeout_cancellation());
}

#[test]
fn finalize_waits_for_the_first_slot() {
    let mut c = Consensus::new_replica(1, &view(0), SeqNo::new(0), 4, false);
    let mut g = ProposerConsensusGuard::new(view(0));
    decide(&mut c, 1, digest(11));
    decide(&mut c, 2, digest(12));
    assert!(!c.can_finalize());
    assert!(c.finalize().is_none());
    assert_eq!(c.finalizeable_count(), 0);
    decide(&mut c, 0, digest(10));
    assert!(c.can_finalize());
    assert_eq!(c.finalizeable_count(), 3);
    let b0 = c.finalize().unwrap();
    assert_eq!(b0.seq, SeqNo::new(0));
    assert!(c.can_finalize());
    let b1 = c.finalize().unwrap();
    assert_eq!(b1.seq, SeqNo::new(1));
    let b2 = c.finalize().unwrap();
    assert_eq!(b2.seq, SeqNo::new(2));
    assert_eq!(b2.batch_digest, digest(12));
    assert!(!c.can_finalize());
    assert!(c.finalize().is_none());
    assert_eq!(c.sequence_number(), SeqNo::new(3));
    match c.poll(&mut g) {
        ConsensusPollStatus::Recv => {}
        _ => panic!("nothing is left to do"),
    }
    assert_eq!(c.signalled_count(), 0);
}

#[test]
fn window_invariant_holds_after_each_step() {
    let mut c = Consensus::new_replica(1, &view(0), SeqNo::new(u32::MAX - 1), 4, false);
    let check = |c: &Consensus| {
        let s = c.sequence_number();
        assert_eq!(c.tbo_sequence_number(), s);
        for i in 0..c.watermark() {
            assert_eq!(c.decision_sequence_number(i as usize), s.advance(i));
        }
    };
    check(&c);
    decide(&mut c, u32::MAX - 1, digest(1));
    c.finalize().unwrap();
    check(&c);
    assert_eq!(c.sequence_number(), SeqNo::new(u32::MAX));
    assert_eq!(c.decision_sequence_number(3), SeqNo::new(2));
}

#[test]
fn leader_offers_its_slots_to_the_proposer() {
    let mut c = Consensus::new_replica(0, &view(0), SeqNo::new(0), 4, false);
    let mut g = ProposerConsensusGuard::new(view(0));
    assert_eq!(c.decision_phase(0), DecisionPhase::Init);
    match c.poll(&mut g) {
        ConsensusPollStatus::Recv => {}
        _ => panic!("no message is queued"),
    }
    assert_eq!(g.available_count(), 4);
    for i in 0..4 {
        let (s, v) = g.next_seq_no().unwrap();
        assert_eq!(s, SeqNo::new(i));
        assert_eq!(v.seq, SeqNo::new(0));
        assert_eq!(c.decision_phase(i as usize), DecisionPhase::PrePreparing);
    }
    assert!(g.next_seq_no().is_none());
}

#[test]
fn driver_switches_phase_and_guard() {
    let mut g = ProposerConsensusGuard::new(view(0));
    let mut p = PBFTOrderProtocol::initialize_protocol(1, &view(0), 4, false);
    p.handle_execution_changed(true, &mut g);
    assert!(g.can_propose());
    p.switch_phase(ConsensusPhase::SyncPhase, &mut g);
    assert!(!g.can_propose());
    p.handle_execution_changed(true, &mut g);
    assert!(!g.can_propose());
    // a consensus message in the sync phase waits in the engine
    let (st, b, done) = p.process_consensus_message(header(0, 1, digest(1)), pre_prepare(0, 0, vec![]));
    assert_eq!(st, ConsensusStatus::Deciding);
    assert!(b.is_none() && done.is_empty());
    p.switch_phase(ConsensusPhase::NormalPhase, &mut g);
    match p.poll_normal_phase(&mut g) {
        OrderProtocolPoll::Exec(h, m) => {
            assert_eq!(h.from, 0);
            assert_eq!(m.seq, SeqNo::new(0));
        }
        _ => panic!("the queued pre-prepare comes out"),
    }
}

#[test]
fn finalize_after_state_install_continues_at_next_seq() {
    let mut c = Consensus::new_replica(1, &view(0), SeqNo::new(0), 4, false);
    let mut g = ProposerConsensusGuard::new(view(0));
    let log = DecisionLog { last_exec: Some(SeqNo::new(10)), proofs: vec![] };
    let replay = c.install_state(&view(0), &log, &mut g);
    assert!(replay.is_empty());
    assert_eq!(c.sequence_number(), SeqNo::new(11));
    decide(&mut c, 11, digest(3));
    let b = c.finalize().unwrap();
    assert_eq!(b.seq, SeqNo::new(11));
    assert_eq!(c.sequence_number(), SeqNo::new(12));
}

#[test]
fn state_install_without_last_execution_keeps_position() {
    let mut c = Consensus::new_replica(1, &view(0), SeqNo::new(0), 4, false);
    let mut g = ProposerConsensusGuard::new(view(0));
    let log = DecisionLog { last_exec: None, proofs: vec![] };
    c.install_state(&view(0), &log, &mut g);
    assert_eq!(c.sequence_number(), SeqNo::new(1));
    assert!(!c.is_catching_up());
}

#[test]
fn driver_follows_synchronizer_answers() {
    let mut g = ProposerConsensusGuard::new(view(0));
    g.unlock_consensus();
    let mut p = PBFTOrderProtocol::initialize_protocol(1, &view(0), 4, false);
    assert_eq!(p.adv_sync(&SynchronizerStatus::Nil, &mut g), SyncPhaseRes::SyncProtocolNotNeeded);
    assert_eq!(p.adv_sync(&SynchronizerStatus::Running, &mut g), SyncPhaseRes::RunSyncProtocol);
    assert_eq!(p.phase(), ConsensusPhase::NormalPhase);
    assert_eq!(p.adv_sync(&SynchronizerStatus::RunCst, &mut g), SyncPhaseRes::RunCSTProtocol);
    assert_eq!(p.phase(), ConsensusPhase::SyncPhase);
    assert!(!g.can_propose());
    assert_eq!(p.adv_sync(&SynchronizerStatus::NewView, &mut g), SyncPhaseRes::SyncProtocolFinished);
    assert_eq!(p.phase(), ConsensusPhase::NormalPhase);
    let rq = ClientRqInfo { sender: 9, session: SeqNo::new(1), seq_no: SeqNo::new(2) };
    let t = p.handle_timeout(SynchronizerStatus::RequestsTimedOut { forwarded: vec![rq], stopped: vec![] }, &mut g);
    assert_eq!(t.forwarded.len(), 1);
    assert!(!t.begin_view_change);
    assert_eq!(p.phase(), ConsensusPhase::NormalPhase);
    let t = p.handle_timeout(SynchronizerStatus::RequestsTimedOut { forwarded: vec![], stopped: vec![rq] }, &mut g);
    assert!(t.begin_view_change);
    assert_eq!(t.stopped, vec![rq]);
    assert_eq!(p.phase(), ConsensusPhase::SyncPhase);
    p.switch_phase(ConsensusPhase::NormalPhase, &mut g);
    p.update_normal_phase_view_change(&SynchronizerStatus::Running, &mut g);
    assert_eq!(p.phase(), ConsensusPhase::SyncPhase);
}

#[test]
fn sync_phase_poll_resumes_normal_phase() {
    let mut g = ProposerConsensusGuard::new(view(0));
    let mut p = PBFTOrderProtocol::initialize_protocol(1, &view(0), 4, false);
    p.switch_phase(ConsensusPhase::SyncPhase, &mut g);
    assert!(matches!(p.poll_sync_phase(SynchronizerPollStatus::Recv, &mut g), OrderProtocolPoll::ReceiveFromReplicas));
    assert!(matches!(p.poll_sync_phase(SynchronizerPollStatus::NextMessage, &mut g), OrderProtocolPoll::ExecViewChange));
    assert_eq!(p.phase(), ConsensusPhase::SyncPhase);
    assert!(matches!(p.poll_sync_phase(SynchronizerPollStatus::ResumeViewChange, &mut g), OrderProtocolPoll::RePoll));
    assert_eq!(p.phase(), ConsensusPhase::NormalPhase);
}

#[test]
fn strict_persistence_waits_for_the_log() {
    let mut c = Consensus::new_replica(1, &view(0), SeqNo::new(0), 4, true);
    let d = digest(21);
    decide(&mut c, 0, d);
    assert_eq!(c.decision_phase(0), DecisionPhase::Decided);
    assert!(!c.can_finalize());
    assert!(c.finalize().is_none());
    // a write of another message, or for another slot, is not enough
    c.message_persisted(SeqNo::new(0), digest(99));
    c.message_persisted(SeqNo::new(1), d);
    assert!(!c.can_finalize());
    c.message_persisted(SeqNo::new(0), d);
    assert!(c.can_finalize());
    let b = c.finalize().unwrap();
    assert_eq!(b.seq, SeqNo::new(0));
    assert_eq!(b.pre_prepare_digests_to_persist, vec![d]);
}

#[test]
fn stops_in_normal_phase_decide_the_next_action() {
    let mut g = ProposerConsensusGuard::new(view(0));
    g.unlock_consensus();
    let mut p = PBFTOrderProtocol::initialize_protocol(1, &view(0), 4, false);
    assert!(p.process_stop(&SynchronizerStatus::Nil, &mut g).is_none());
    assert_eq!(p.phase(), ConsensusPhase::NormalPhase);
    assert!(matches!(p.process_stop(&SynchronizerStatus::Running, &mut g), Some(OrderProtocolPoll::RePoll)));
    assert_eq!(p.phase(), ConsensusPhase::SyncPhase);
    assert!(!g.can_propose());
    p.switch_phase(ConsensusPhase::NormalPhase, &mut g);
    assert!(matches!(p.process_stop(&SynchronizerStatus::RunCst, &mut g), Some(OrderProtocolPoll::RunCst)));
    assert_eq!(p.phase(), ConsensusPhase::SyncPhase);
}

#[test]
fn catch_up_slides_the_window() {
    let mut c = Consensus::new_replica(1, &view(0), SeqNo::new(5), 4, false);
    let first = c.catch_up_to_quorum();
    assert_eq!(first.sequence_number(), SeqNo::new(5));
    assert_eq!(c.sequence_number(), SeqNo::new(6));
    assert_eq!(c.decision_sequence_number(3), SeqNo::new(9));
}

#[test]
fn later_view_withdraws_guard_numbers() {
    let mut c = Consensus::new_replica(0, &view(0), SeqNo::new(0), 4, false);
    let mut g = ProposerConsensusGuard::new(view(0));
    c.poll(&mut g);
    assert_eq!(g.available_count(), 4);
    c.install_view(&view(1), &mut g);
    assert_eq!(g.available_count(), 0);
    // a backup of view 1 offers nothing
    c.poll(&mut g);
    assert_eq!(g.available_count(), 0);
}
