use febft::cst::{Checkpoint, CollabStTransfer, ProtoPhase};
use febft::system::{ForwardedRequestsMessage, Protocol, ReplyMessage, SystemMessage};
use febft::connection::{
    accept_inbound, choose_socket, connect_header, connection_security, should_retry, InboundDecision, InboundRejection,
    Security, SocketChoice, CONNECT_RETRIES,
};
use febft::backlog::{BatchExecutionInfo, ConsensusBacklog, ExecutorAction, Info};
use febft::decision::CompletedBatch;
use febft::guard::{ClientRqInfo, ProposerConsensusGuard};
use febft::message::{
    ConsensusMessage, ConsensusMessageKind, Digest, Header, RequestMessage, Signature, StoredRequestMessage, ViewInfo,
};
use febft::ordering::{SeqIndex, SeqNo};
use febft::signals::Signals;
use febft::tbo::TboQueue;
use febft::wire::{deserialize_consensus, serialize_consensus, WireError, HEADER_LENGTH};

fn digest(x: u64) -> Digest {
    Digest { w0: x, w1: x + 1, w2: x + 2, w3: x + 3 }
}

fn header(from: u32, to: u32) -> Header {
    Header {
        from,
        to,
        nonce: 0x0102_0304_0506_0708,
        digest: digest(0xAABB_CCDD_0000_0001),
        signature: Signature { lo: digest(11), hi: digest(u64::MAX - 3) },
        length: 99,
    }
}

fn batch_info(seq: u32, info: Info, persist: Vec<Digest>) -> BatchExecutionInfo {
    BatchExecutionInfo {
        info,
        batch: CompletedBatch {
            seq: SeqNo::new(seq),
            batch_digest: digest(seq as u64),
            requests: vec![],
            pre_prepare_digests_to_persist: vec![digest(seq as u64)],
        },
        messages_to_persist: persist,
    }
}

#[test]
fn seq_index_relative_order() {
    assert_eq!(SeqNo::new(5).index(SeqNo::new(5)), SeqIndex::Right(0));
    assert_eq!(SeqNo::new(7).index(SeqNo::new(5)), SeqIndex::Right(2));
    assert_eq!(SeqNo::new(5).index(SeqNo::new(7)), SeqIndex::Left(2));
    assert_eq!(SeqNo::new(1).index(SeqNo::new(u32::MAX)), SeqIndex::Right(2));
    assert_eq!(SeqNo::new(u32::MAX).index(SeqNo::new(1)), SeqIndex::Left(2));
    assert_eq!(SeqNo::new(u32::MAX).next(), SeqNo::new(0));
}

#[test]
fn signals_deduplicate_and_pop_smallest() {
    let mut s = Signals::new();
    s.push_signalled(SeqNo::new(3));
    s.push_signalled(SeqNo::new(1));
    s.push_signalled(SeqNo::new(3));
    s.push_signalled(SeqNo::new(2));
    assert_eq!(s.len(), 3);
    assert_eq!(s.pop_signalled(), Some(SeqNo::new(1)));
    assert_eq!(s.pop_signalled(), Some(SeqNo::new(2)));
    s.push_signalled(SeqNo::new(3));
    assert_eq!(s.len(), 1);
    assert_eq!(s.pop_signalled(), Some(SeqNo::new(3)));
    assert_eq!(s.pop_signalled(), None);
    s.push_signalled(SeqNo::new(8));
    s.clear();
    assert_eq!(s.len(), 0);
}

#[test]
fn tbo_queue_keeps_window_and_drops_rest() {
    let mut q = TboQueue::new(SeqNo::new(10), 4);
    assert_eq!(q.base_seq(), SeqNo::new(14));
    let m = |seq: u32| ConsensusMessage::new(SeqNo::new(seq), SeqNo::new(0), ConsensusMessageKind::Prepare(digest(1)));
    q.queue(header(1, 0), m(14));
    q.queue(header(1, 0), m(9));
    assert_eq!(q.len(), 0);
    q.queue(header(1, 0), m(12));
    assert_eq!(q.len(), 0);
    let first = q.advance_queue();
    assert!(!first.is_signalled());
    assert_eq!(q.sequence_number(), SeqNo::new(11));
    assert!(!q.advance_queue().is_signalled());
    let third = q.advance_queue();
    assert!(third.is_signalled());
    assert_eq!(third.prepares.len(), 1);
    assert_eq!(third.prepares[0].message.seq, SeqNo::new(12));
    q.queue(header(1, 0), m(13));
    q.next_instance_queue();
    assert!(!q.advance_queue().is_signalled());
    q.signal();
    q.clear();
    assert_eq!(q.len(), 0);
}

#[test]
fn guard_orders_and_prunes_sequence_numbers() {
    let v = ViewInfo::new(SeqNo::new(0), 1, vec![0]);
    let mut g = ProposerConsensusGuard::new(v);
    assert!(!g.can_propose());
    g.unlock_consensus();
    assert!(g.can_propose());
    g.lock_consensus();
    assert!(!g.can_propose());
    for s in [5u32, 2, 9, 2, 7] {
        g.make_seq_available(SeqNo::new(s));
    }
    assert_eq!(g.available_count(), 5);
    g.install_seq_no(SeqNo::new(5));
    assert_eq!(g.available_count(), 3);
    assert_eq!(g.next_seq_no().unwrap().0, SeqNo::new(5));
    assert_eq!(g.next_seq_no().unwrap().0, SeqNo::new(7));
    g.install_view(ViewInfo::new(SeqNo::new(1), 1, vec![1]));
    assert_eq!(g.available_count(), 0);
    g.make_seq_available(SeqNo::new(4));
    let (s, v) = g.next_seq_no().unwrap();
    assert_eq!(s, SeqNo::new(4));
    assert_eq!(v.seq, SeqNo::new(1));
    g.make_seq_available(SeqNo::new(4));
    g.clear();
    assert!(g.next_seq_no().is_none());
}

#[test]
fn guard_keeps_latest_sync_request_per_session() {
    let v = ViewInfo::new(SeqNo::new(0), 1, vec![0]);
    let mut g = ProposerConsensusGuard::new(v);
    assert!(!g.has_pending_view_change_reqs());
    let rq = |sender: u32, session: u32, seq: u32| ClientRqInfo {
        sender,
        session: SeqNo::new(session),
        seq_no: SeqNo::new(seq),
    };
    g.install_sync_message_requests(vec![rq(7, 1, 4), rq(7, 1, 9), rq(7, 1, 6), rq(7, 2, 1), rq(8, 1, 3)]);
    assert!(g.has_pending_view_change_reqs());
    assert_eq!(g.last_view_change(7, SeqNo::new(1)), Some(SeqNo::new(9)));
    assert_eq!(g.last_view_change(7, SeqNo::new(2)), Some(SeqNo::new(1)));
    assert_eq!(g.last_view_change(8, SeqNo::new(1)), Some(SeqNo::new(3)));
    assert_eq!(g.last_view_change(8, SeqNo::new(2)), None);
    g.sync_messages_clear();
    assert!(!g.has_pending_view_change_reqs());
    assert_eq!(g.last_view_change(7, SeqNo::new(1)), None);
}

#[test]
fn remove_from_vec_swaps_in_last() {
    let mut v = vec![digest(1), digest(2), digest(3), digest(2)];
    assert!(ConsensusBacklog::remove_from_vec(&mut v, &digest(2)));
    assert_eq!(v, vec![digest(1), digest(2), digest(3)]);
    assert!(!ConsensusBacklog::remove_from_vec(&mut v, &digest(9)));
    assert_eq!(v.len(), 3);
}

#[test]
fn backlog_releases_batches_when_persisted() {
    let mut b = ConsensusBacklog::init_backlog();
    assert!(!b.is_waiting());
    // nothing to persist: released at once
    let out = b.receive_batch(batch_info(0, Info::Nil, vec![]));
    assert_eq!(out.unwrap().batch.seq, SeqNo::new(0));
    // two messages to persist
    assert!(b.receive_batch(batch_info(1, Info::Nil, vec![digest(5), digest(6)])).is_none());
    assert!(b.is_waiting());
    // a confirmation for a later batch is kept aside
    assert!(b.message_persisted(SeqNo::new(2), digest(7)).is_none());
    assert!(b.message_persisted(SeqNo::new(1), digest(6)).is_none());
    // an unexpected confirmation changes nothing
    assert!(b.message_persisted(SeqNo::new(1), digest(9)).is_none());
    let out = b.message_persisted(SeqNo::new(1), digest(5)).unwrap();
    assert_eq!(out.batch.seq, SeqNo::new(1));
    assert!(!b.is_waiting());
    // the batch confirmed ahead needs nothing more
    let out = b.receive_batch(batch_info(2, Info::BeginCheckpoint, vec![digest(7)])).unwrap();
    assert_eq!(out.batch.seq, SeqNo::new(2));
    match ConsensusBacklog::dispatch_batch(out) {
        ExecutorAction::QueueUpdateAndGetAppstate(i) => assert_eq!(i.info, Info::BeginCheckpoint),
        _ => panic!("a checkpoint batch asks for the state"),
    }
    match ConsensusBacklog::dispatch_batch(batch_info(3, Info::Nil, vec![])) {
        ExecutorAction::QueueUpdate(i) => assert_eq!(i.batch.seq, SeqNo::new(3)),
        _ => panic!("a plain batch is queued"),
    }
}

#[test]
fn header_round_trip() {
    let h = header(3, 4);
    let mut buf = Vec::new();
    h.serialize_into(&mut buf);
    assert_eq!(buf.len(), HEADER_LENGTH);
    assert_eq!(&buf[0..4], &[3, 0, 0, 0]);
    assert_eq!(&buf[8..16], &[8, 7, 6, 5, 4, 3, 2, 1]);
    assert_eq!(Header::deserialize_from(&buf), Ok(h));
    assert_eq!(Header::deserialize_from(&buf[1..]), Err(WireError::MalformedHeader));
}

#[test]
fn consensus_message_round_trip() {
    let reqs = vec![
        StoredRequestMessage {
            header: header(9, 0),
            message: RequestMessage::new(SeqNo::new(2), SeqNo::new(3), b"hello".to_vec()),
        },
        StoredRequestMessage { header: header(10, 0), message: RequestMessage::new(SeqNo::new(1), SeqNo::new(1), vec![]) },
    ];
    let m = ConsensusMessage::new(SeqNo::new(17), SeqNo::new(2), ConsensusMessageKind::PrePrepare(reqs));
    let mut buf = Vec::new();
    assert_eq!(serialize_consensus(&mut buf, &m), Ok(()));
    assert_eq!(buf.len(), 8 + 1 + 4 + (128 + 5) + 128);
    let back = deserialize_consensus(&buf).unwrap();
    assert_eq!(back.seq, SeqNo::new(17));
    assert_eq!(back.view, SeqNo::new(2));
    match back.kind {
        ConsensusMessageKind::PrePrepare(rs) => {
            assert_eq!(rs.len(), 2);
            assert_eq!(rs[0].header, header(9, 0));
            assert_eq!(rs[0].message.operation, b"hello".to_vec());
            assert_eq!(rs[0].message.session_id, SeqNo::new(2));
            assert_eq!(rs[1].message.operation, Vec::<u8>::new());
        }
        _ => panic!("a pre-prepare comes back"),
    }
    let c = ConsensusMessage::new(SeqNo::new(1), SeqNo::new(0), ConsensusMessageKind::Commit(digest(4)));
    let mut buf = Vec::new();
    serialize_consensus(&mut buf, &c).unwrap();
    assert_eq!(buf.len(), 41);
    assert_eq!(buf[8], 2);
    match deserialize_consensus(&buf).unwrap().kind {
        ConsensusMessageKind::Commit(d) => assert_eq!(d, digest(4)),
        _ => panic!("a commit comes back"),
    }
    assert_eq!(deserialize_consensus(&buf[..40]).err(), Some(WireError::MalformedMessage));
    let mut bad = buf.clone();
    bad[8] = 7;
    assert_eq!(deserialize_consensus(&bad).err(), Some(WireError::MalformedMessage));
}

#[test]
fn connection_decisions() {
    let first_cli = 1000;
    assert_eq!(choose_socket(1, 2, first_cli), SocketChoice::ReplicaFacing);
    assert_eq!(choose_socket(1, 1000, first_cli), SocketChoice::ClientFacing);
    assert_eq!(choose_socket(1001, 2, first_cli), SocketChoice::ClientFacing);
    assert_eq!(connection_security(1, 2, first_cli), Security::Tls);
    assert_eq!(connection_security(1, 1005, first_cli), Security::Plain);
    let h = connect_header(1005, 2, 77);
    assert_eq!((h.from, h.to, h.nonce, h.length), (1005, 2, 77, 0));
    assert_eq!(accept_inbound(&h, 2, first_cli), InboundDecision::Accept { peer: 1005, security: Security::Plain });
    assert_eq!(accept_inbound(&h, 3, first_cli), InboundDecision::Reject(InboundRejection::WrongDestination));
    let from_replica = connect_header(1, 2, 5);
    assert_eq!(accept_inbound(&from_replica, 2, first_cli), InboundDecision::Accept { peer: 1, security: Security::Tls });
    let cli = connect_header(1001, 1002, 5);
    assert_eq!(accept_inbound(&cli, 1002, first_cli), InboundDecision::Reject(InboundRejection::ClientToClient));
    assert!(should_retry(0));
    assert!(should_retry(CONNECT_RETRIES - 2));
    assert!(!should_retry(CONNECT_RETRIES - 1));
}

#[test]
fn envelopes_keep_their_contents() {
    let r = ReplyMessage::new(SeqNo::new(1), SeqNo::new(2), 5u8);
    assert_eq!(r.session_id(), SeqNo::new(1));
    assert_eq!(r.sequence_number(), SeqNo::new(2));
    assert_eq!(*r.payload(), 5);
    assert_eq!(r.into_inner(), (SeqNo::new(1), SeqNo::new(2), 5));
    let m: SystemMessage<u8, u32, u64> = SystemMessage::from_protocol_message(9);
    assert_eq!(m.into_protocol_message(), 9);
    let m: SystemMessage<u8, u32, u64> = SystemMessage::from_state_transfer_message(11);
    assert_eq!(m.into_state_tranfer_message(), 11);
    assert_eq!(*Protocol::new(3u8).payload(), 3);
    let f = ForwardedRequestsMessage::new(vec![StoredRequestMessage {
        header: header(1, 2),
        message: RequestMessage::new(SeqNo::new(0), SeqNo::new(4), vec![1]),
    }]);
    assert_eq!(f.requests().len(), 1);
    let c = Checkpoint::new(SeqNo::new(10), vec![7u8], digest(3));
    assert_eq!(*c.last_seq(), SeqNo::new(10));
    assert_eq!(c.state(), &vec![7u8]);
    assert_eq!(*c.digest(), digest(3));
    assert_eq!(CollabStTransfer::new().phase(), ProtoPhase::Init);
}
