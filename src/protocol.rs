//! The ordering protocol driver: switches between the normal phase, where
//! the engine orders requests, and the synchronisation phase, where a view
//! change runs; finalizes what the engine decided.
//!
//! The synchronizer, the logs and the executor live outside; the driver
//! takes their answers as values and says what to do next.

use vstd::prelude::*;
use crate::ordering::{SeqNo, SEQ_HALF, seq_add, index_spec};
use crate::message::{NodeId, Header, ConsensusMessage, ViewInfo};
use crate::decision::CompletedBatch;
use crate::consensus::{Consensus, ConsensusPollStatus, ConsensusStatus, DecisionLog, needs_poll};
use crate::guard::{ProposerConsensusGuard, ClientRqInfo};

verus! {

/// Which phase of the protocol runs.
#[derive(Clone, Copy, PartialEq, Eq, Structural, Debug)]
pub enum ConsensusPhase {
    NormalPhase,
    SyncPhase,
}

/// The result of advancing the synchronisation phase.
#[derive(Clone, Copy, PartialEq, Eq, Structural, Debug)]
pub enum SyncPhaseRes {
    SyncProtocolNotNeeded,
    RunSyncProtocol,
    SyncProtocolFinished,
    RunCSTProtocol,
}

/// What the synchronizer answered to a message or a timeout.
pub enum SynchronizerStatus {
    /// Nothing to do.
    Nil,
    /// A view change is running.
    Running,
    /// The new view is installed.
    NewView,
    /// This replica is behind and must fetch state.
    RunCst,
    /// Client requests timed out: some to forward, some that stop the view.
    RequestsTimedOut { forwarded: Vec<ClientRqInfo>, stopped: Vec<ClientRqInfo> },
}

/// What polling the synchronizer gave.
#[derive(Clone, Copy, PartialEq, Eq, Structural, Debug)]
pub enum SynchronizerPollStatus {
    /// Nothing to do until more messages arrive.
    Recv,
    /// The synchronizer has a view change message to process next.
    NextMessage,
    /// The synchronizer resumed a view change and it completed.
    ResumeViewChange,
}

/// What the driver asks of its caller after a poll.
pub enum OrderProtocolPoll {
    /// Process the synchronizer's next message.
    ExecViewChange,
    /// Wait for messages from the replicas.
    ReceiveFromReplicas,
    /// Process this message next.
    Exec(Header, ConsensusMessage),
    /// These batches were finalized, in order: hand them to the log and the
    /// executor, then poll again.
    Finalized(Vec<CompletedBatch>),
    /// Poll again.
    RePoll,
    /// Run the state transfer protocol.
    RunCst,
}

/// What the driver asks of its caller after a timeout.
pub struct TimeoutActions {
    /// Requests to forward to the other replicas.
    pub forwarded: Vec<ClientRqInfo>,
    /// Requests that stop the view; a view change begins when any do.
    pub stopped: Vec<ClientRqInfo>,
    pub begin_view_change: bool,
}

/// What finalizing every decided slot at the front does: engine `c0`
/// becomes `c1` and hands out `r`, the batches of its leading finalizeable
/// slots, in order, up to the first slot that is not.
pub open spec fn all_finalized(c0: &Consensus, c1: &Consensus, r: Seq<CompletedBatch>) -> bool {
    let n = r.len() as int;
    let w = c0.watermark_spec() as int;
    &&& c1.wf()
    &&& c1.same_config(c0)
    &&& n <= w
    &&& c1.seq_no_spec() == seq_add(c0.seq_no_spec(), n)
    &&& c1.view_queue_spec() == c0.view_queue_spec()
    &&& forall|j: int| 0 <= j < n ==> {
        &&& #[trigger] r[j].seq.value == seq_add(c0.seq_no_spec(), j)
        &&& c0.decisions_spec()[j].finalizeable_spec()
        &&& Some(r[j].batch_digest) == c0.decisions_spec()[j].batch_digest_spec()
        &&& r[j].requests@ == c0.decisions_spec()[j].batch_spec()
    }
    &&& forall|i: int| 0 <= i < w - n ==> #[trigger] c1.decisions_spec()[i] == c0.decisions_spec()[i + n]
    &&& !c1.decisions_spec()[0].finalizeable_spec()
}

/// The driver.
pub struct PBFTOrderProtocol {
    phase: ConsensusPhase,
    consensus: Consensus,
}

impl PBFTOrderProtocol {
    pub closed spec fn phase_spec(&self) -> ConsensusPhase {
        self.phase
    }

    pub closed spec fn consensus_spec(&self) -> Consensus {
        self.consensus
    }

    pub open spec fn wf(&self) -> bool {
        self.consensus_spec().wf()
    }

    /// A driver in the normal phase, with an engine at sequence number zero.
    pub fn initialize_protocol(node_id: NodeId, view: &ViewInfo, watermark: u32, strict_persistence: bool) -> (r: PBFTOrderProtocol)
        requires
            view.wf(),
            1 <= watermark <= SEQ_HALF,
        ensures
            r.wf(),
            r.phase_spec() == ConsensusPhase::NormalPhase,
            r.consensus_spec().seq_no_spec() == 0,
            r.consensus_spec().view_seq_spec() == view.seq.value,
            r.consensus_spec().watermark_spec() == watermark,
            r.consensus_spec().strict_spec() == strict_persistence,
    {
        PBFTOrderProtocol {
            phase: ConsensusPhase::NormalPhase,
            consensus: Consensus::new_replica(node_id, view, SeqNo::new(0), watermark, strict_persistence),
        }
    }

    pub fn phase(&self) -> (r: ConsensusPhase)
        ensures
            r == self.phase_spec(),
    {
        self.phase
    }

    pub fn sequence_number(&self) -> (r: SeqNo)
        ensures
            r.value == self.consensus_spec().seq_no_spec(),
    {
        self.consensus.sequence_number()
    }

    pub fn consensus(&self) -> (r: &Consensus)
        ensures
            *r == self.consensus_spec(),
    {
        &self.consensus
    }

    /// Switches phase; leaving the normal phase closes the proposer guard.
    pub fn switch_phase(&mut self, new_phase: ConsensusPhase, guard: &mut ProposerConsensusGuard)
        ensures
            final(self).phase_spec() == new_phase,
            final(self).consensus_spec() == old(self).consensus_spec(),
            old(self).phase_spec() == ConsensusPhase::NormalPhase && new_phase != ConsensusPhase::NormalPhase
                ==> !final(guard).can_propose_spec() && final(guard).same_but_lock(old(guard)),
            !(old(self).phase_spec() == ConsensusPhase::NormalPhase && new_phase != ConsensusPhase::NormalPhase)
                ==> *final(guard) == *old(guard),
    {
        let old_phase = self.phase;
        self.phase = new_phase;
        if old_phase != new_phase && old_phase == ConsensusPhase::NormalPhase {
            guard.lock_consensus();
        }
    }

    /// The executor stopped or resumed: the guard closes when it stops, and
    /// opens when it resumes in the normal phase.
    pub fn handle_execution_changed(&mut self, is_executing: bool, guard: &mut ProposerConsensusGuard)
        ensures
            *final(self) == *old(self),
            !is_executing ==> !final(guard).can_propose_spec() && final(guard).same_but_lock(old(guard)),
            is_executing && old(self).phase_spec() == ConsensusPhase::NormalPhase
                ==> final(guard).can_propose_spec() && final(guard).same_but_lock(old(guard)),
            is_executing && old(self).phase_spec() == ConsensusPhase::SyncPhase ==> *final(guard) == *old(guard),
    {
        if !is_executing {
            guard.lock_consensus();
        } else if self.phase == ConsensusPhase::NormalPhase {
            guard.unlock_consensus();
        }
    }

    /// A consensus message that arrived out of context is queued in the engine.
    pub fn handle_off_ctx_message(&mut self, header: Header, message: ConsensusMessage)
        requires
            old(self).wf(),
        ensures
            final(self).wf(),
            final(self).phase_spec() == old(self).phase_spec(),
            old(self).consensus_spec().queued_by(header, message, &final(self).consensus_spec()),
    {
        self.consensus.queue(header, message);
    }

    /// Finalizes every decided slot at the front of the window, in order,
    /// and returns their batches.
    pub fn finalize_all_possible(&mut self) -> (r: Vec<CompletedBatch>)
        requires
            old(self).wf(),
        ensures
            final(self).wf(),
            final(self).phase_spec() == old(self).phase_spec(),
            all_finalized(&old(self).consensus_spec(), &final(self).consensus_spec(), r@),
    {
        let mut out: Vec<CompletedBatch> = Vec::new();
        let w = self.consensus.watermark();
        let ghost start = self.consensus;
        let ghost s0 = self.consensus.seq_no_spec();
        let mut n: u32 = 0;
        while n < w && self.consensus.can_finalize()
            invariant
                self.wf(),
                start.wf(),
                start == old(self).consensus,
                self.phase == old(self).phase,
                self.consensus.same_config(&old(self).consensus),
                w == self.consensus.watermark_spec(),
                n <= w,
                out@.len() == n,
                self.consensus.seq_no_spec() == seq_add(s0, n as int),
                s0 == old(self).consensus.seq_no_spec(),
                self.consensus.view_queue_spec() == start.view_queue_spec(),
                forall|j: int| 0 <= j < n ==> {
                    &&& #[trigger] out@[j].seq.value == seq_add(s0, j)
                    &&& start.decisions_spec()[j].finalizeable_spec()
                    &&& Some(out@[j].batch_digest) == start.decisions_spec()[j].batch_digest_spec()
                    &&& out@[j].requests@ == start.decisions_spec()[j].batch_spec()
                },
                forall|i: int| 0 <= i < w - n ==> #[trigger] self.consensus.decisions_spec()[i] == start.decisions_spec()[i + n],
                forall|i: int| w - n <= i < w ==> #[trigger] self.consensus.fresh_at(self.consensus.decisions_spec()[i], i),
            decreases w - n,
        {
            let ghost c0 = self.consensus;
            let b = self.consensus.finalize();
            proof {
                crate::ordering::lemma_add_add(s0, n as int, 1);
                assert(c0.decisions_spec()[0] == start.decisions_spec()[n as int]);
                assert forall|i: int| w - n - 1 <= i < w implies #[trigger] self.consensus.fresh_at(self.consensus.decisions_spec()[i], i) by {
                    if i < w - 1 {
                        assert(self.consensus.decisions_spec()[i] == c0.decisions_spec()[i + 1]);
                        assert(c0.fresh_at(c0.decisions_spec()[i + 1], i + 1));
                        crate::ordering::lemma_add_add(c0.seq_no_spec(), 1, i);
                    }
                }
                assert forall|i: int| 0 <= i < w - n - 1 implies #[trigger] self.consensus.decisions_spec()[i] == start.decisions_spec()[i + n + 1] by {
                    assert(self.consensus.decisions_spec()[i] == c0.decisions_spec()[i + 1]);
                    assert(c0.decisions_spec()[i + 1] == start.decisions_spec()[i + 1 + n]);
                }
            }
            let ghost before = out@;
            match b {
                Some(batch) => out.push(batch),
                None => {},
            }
            proof {
                assert forall|j: int| 0 <= j < n + 1 implies {
                    &&& #[trigger] out@[j].seq.value == seq_add(s0, j)
                    &&& start.decisions_spec()[j].finalizeable_spec()
                    &&& Some(out@[j].batch_digest) == start.decisions_spec()[j].batch_digest_spec()
                    &&& out@[j].requests@ == start.decisions_spec()[j].batch_spec()
                } by {
                    if j < n {
                        assert(out@[j] == before[j]);
                    }
                }
            }
            n += 1;
        }
        proof {
            if n == w {
                assert(self.consensus.fresh_at(self.consensus.decisions_spec()[0], 0));
            }
        }
        out
    }

    /// Polls in the normal phase: the engine's next message, or the batches
    /// it decided, or a wait for more messages.
    pub fn poll_normal_phase(&mut self, guard: &mut ProposerConsensusGuard) -> (r: OrderProtocolPoll)
        requires
            old(self).wf(),
            old(guard).wf(),
        ensures
            final(self).wf(),
            final(guard).wf(),
            final(self).phase_spec() == old(self).phase_spec(),
            r is ReceiveFromReplicas ==> old(self).consensus_spec().polled(
                old(guard), &final(self).consensus_spec(), final(guard), ConsensusPollStatus::Recv),
            r is Exec ==> old(self).consensus_spec().polled(
                old(guard), &final(self).consensus_spec(), final(guard), ConsensusPollStatus::NextMessage(r->Exec_0, r->Exec_1)),
            r is Finalized ==> (r->Finalized_0)@.len() >= 1 && exists|mid: Consensus| {
                &&& #[trigger] old(self).consensus_spec().polled(old(guard), &mid, final(guard), ConsensusPollStatus::Decided)
                &&& all_finalized(&mid, &final(self).consensus_spec(), (r->Finalized_0)@)
            },
            !(r is RePoll) && !(r is RunCst) && !(r is ExecViewChange),
    {
        match self.consensus.poll(guard) {
            ConsensusPollStatus::Recv => OrderProtocolPoll::ReceiveFromReplicas,
            ConsensusPollStatus::NextMessage(h, m) => OrderProtocolPoll::Exec(h, m),
            ConsensusPollStatus::Decided => {
                let ghost mid = self.consensus;
                let bs = self.finalize_all_possible();
                proof {
                    assert(old(self).consensus_spec().polled(old(guard), &mid, guard, ConsensusPollStatus::Decided));
                    assert(all_finalized(&mid, &self.consensus_spec(), bs@));
                    if bs@.len() == 0 {
                        assert(self.consensus_spec().decisions_spec()[0] == mid.decisions_spec()[0]);
                    }
                }
                OrderProtocolPoll::Finalized(bs)
            },
        }
    }

    /// Polls in the synchronisation phase, given what the synchronizer's own
    /// poll gave: once it has resumed the view change, the normal phase
    /// starts again.
    pub fn poll_sync_phase(&mut self, status: SynchronizerPollStatus, guard: &mut ProposerConsensusGuard) -> (r: OrderProtocolPoll)
        ensures
            final(self).consensus_spec() == old(self).consensus_spec(),
            status == SynchronizerPollStatus::Recv ==> r is ReceiveFromReplicas && final(self).phase_spec() == old(self).phase_spec(),
            status == SynchronizerPollStatus::NextMessage ==> r is ExecViewChange && final(self).phase_spec() == old(self).phase_spec(),
            status == SynchronizerPollStatus::ResumeViewChange ==> r is RePoll
                && final(self).phase_spec() == ConsensusPhase::NormalPhase,
    {
        match status {
            SynchronizerPollStatus::Recv => OrderProtocolPoll::ReceiveFromReplicas,
            SynchronizerPollStatus::NextMessage => OrderProtocolPoll::ExecViewChange,
            SynchronizerPollStatus::ResumeViewChange => {
                self.switch_phase(ConsensusPhase::NormalPhase, guard);
                OrderProtocolPoll::RePoll
            },
        }
    }

    /// Processes a consensus message: in the normal phase the engine takes
    /// it (and what it decides is finalized), in the synchronisation phase
    /// it is queued for later. Returns the engine's status, the message to
    /// broadcast and the finalized batches.
    pub fn process_consensus_message(&mut self, header: Header, message: ConsensusMessage)
        -> (r: (ConsensusStatus, Option<ConsensusMessage>, Vec<CompletedBatch>))
        requires
            old(self).wf(),
        ensures
            final(self).wf(),
            final(self).phase_spec() == old(self).phase_spec(),
            old(self).phase_spec() == ConsensusPhase::SyncPhase ==> r.0 == ConsensusStatus::Deciding && r.1.is_none()
                && r.2@.len() == 0 && old(self).consensus_spec().queued_by(header, message, &final(self).consensus_spec()),
            old(self).phase_spec() == ConsensusPhase::NormalPhase ==> exists|mid: Consensus| {
                &&& #[trigger] old(self).consensus_spec().processed_by(header, message, &mid, (r.0, r.1))
                &&& r.0 == ConsensusStatus::Decided ==> all_finalized(&mid, &final(self).consensus_spec(), r.2@)
                &&& r.0 != ConsensusStatus::Decided ==> final(self).consensus_spec() == mid && r.2@.len() == 0
            },
    {
        if self.phase == ConsensusPhase::SyncPhase {
            self.consensus.queue(header, message);
            return (ConsensusStatus::Deciding, None, Vec::new());
        }
        let (status, bcast) = self.consensus.process_message(header, message);
        let ghost mid = self.consensus;
        let batches = match status {
            ConsensusStatus::Decided => self.finalize_all_possible(),
            _ => Vec::new(),
        };
        proof {
            assert(old(self).consensus_spec().processed_by(header, message, &mid, (status, bcast)));
        }
        (status, bcast, batches)
    }

    /// Acts on the synchronizer's answer to a view change message.
    pub fn adv_sync(&mut self, status: &SynchronizerStatus, guard: &mut ProposerConsensusGuard) -> (r: SyncPhaseRes)
        ensures
            final(self).consensus_spec() == old(self).consensus_spec(),
            *status is Nil ==> r == SyncPhaseRes::SyncProtocolNotNeeded && final(self).phase_spec() == old(self).phase_spec(),
            *status is Running ==> r == SyncPhaseRes::RunSyncProtocol && final(self).phase_spec() == old(self).phase_spec(),
            *status is NewView ==> r == SyncPhaseRes::SyncProtocolFinished && final(self).phase_spec() == ConsensusPhase::NormalPhase,
            *status is RunCst ==> r == SyncPhaseRes::RunCSTProtocol && final(self).phase_spec() == ConsensusPhase::SyncPhase,
            *status is RequestsTimedOut ==> r == SyncPhaseRes::SyncProtocolNotNeeded && final(self).phase_spec() == old(self).phase_spec(),
    {
        match status {
            SynchronizerStatus::Nil => SyncPhaseRes::SyncProtocolNotNeeded,
            SynchronizerStatus::Running => SyncPhaseRes::RunSyncProtocol,
            SynchronizerStatus::NewView => {
                self.switch_phase(ConsensusPhase::NormalPhase, guard);
                SyncPhaseRes::SyncProtocolFinished
            },
            SynchronizerStatus::RunCst => {
                self.switch_phase(ConsensusPhase::SyncPhase, guard);
                SyncPhaseRes::RunCSTProtocol
            },
            // a timeout answer does not come from processing a message
            SynchronizerStatus::RequestsTimedOut { .. } => SyncPhaseRes::SyncProtocolNotNeeded,
        }
    }

    /// Acts on the synchronizer's answer to a stop message that the normal
    /// phase processes before it polls the engine: a view change that starts
    /// moves to the synchronisation phase and asks for a new poll, one that
    /// needs state asks for the state transfer; otherwise the normal poll
    /// goes on (`None`).
    pub fn process_stop(&mut self, status: &SynchronizerStatus, guard: &mut ProposerConsensusGuard) -> (r: Option<OrderProtocolPoll>)
        ensures
            final(self).consensus_spec() == old(self).consensus_spec(),
            *status is Running ==> final(self).phase_spec() == ConsensusPhase::SyncPhase
                && r is Some && r->Some_0 is RePoll,
            *status is RunCst ==> final(self).phase_spec() == ConsensusPhase::SyncPhase
                && r is Some && r->Some_0 is RunCst,
            *status is NewView ==> final(self).phase_spec() == ConsensusPhase::NormalPhase && r is None,
            *status is Nil || *status is RequestsTimedOut ==> final(self).phase_spec() == old(self).phase_spec() && r is None,
    {
        match self.adv_sync(status, guard) {
            SyncPhaseRes::RunSyncProtocol => {
                self.switch_phase(ConsensusPhase::SyncPhase, guard);
                Some(OrderProtocolPoll::RePoll)
            },
            SyncPhaseRes::RunCSTProtocol => Some(OrderProtocolPoll::RunCst),
            _ => None,
        }
    }

    /// Acts on the synchronizer's answer to a view change message that
    /// arrived in the normal phase: a running view change moves to the
    /// synchronisation phase.
    pub fn update_normal_phase_view_change(&mut self, status: &SynchronizerStatus, guard: &mut ProposerConsensusGuard)
        ensures
            final(self).consensus_spec() == old(self).consensus_spec(),
            *status is Running ==> final(self).phase_spec() == ConsensusPhase::SyncPhase,
            !(*status is Running) ==> final(self).phase_spec() == old(self).phase_spec() && *final(guard) == *old(guard),
    {
        if let SynchronizerStatus::Running = status {
            self.switch_phase(ConsensusPhase::SyncPhase, guard);
        }
    }

    /// Acts on the synchronizer's answer to timed-out client requests: the
    /// forwarded ones go to the other replicas; stopped ones begin a view
    /// change, which moves to the synchronisation phase.
    pub fn handle_timeout(&mut self, status: SynchronizerStatus, guard: &mut ProposerConsensusGuard) -> (r: TimeoutActions)
        ensures
            final(self).consensus_spec() == old(self).consensus_spec(),
            match status {
                SynchronizerStatus::RequestsTimedOut { forwarded, stopped } => {
                    &&& r.forwarded@ == forwarded@
                    &&& r.stopped@ == stopped@
                    &&& r.begin_view_change == (stopped@.len() > 0)
                    &&& stopped@.len() > 0 ==> final(self).phase_spec() == ConsensusPhase::SyncPhase
                    &&& stopped@.len() == 0 ==> final(self).phase_spec() == old(self).phase_spec()
                },
                _ => r.forwarded@.len() == 0 && r.stopped@.len() == 0 && !r.begin_view_change
                    && final(self).phase_spec() == old(self).phase_spec(),
            },
    {
        match status {
            SynchronizerStatus::RequestsTimedOut { forwarded, stopped } => {
                let begin = stopped.len() > 0;
                if begin {
                    self.switch_phase(ConsensusPhase::SyncPhase, guard);
                }
                TimeoutActions { forwarded, stopped, begin_view_change: begin }
            },
            _ => TimeoutActions { forwarded: Vec::new(), stopped: Vec::new(), begin_view_change: false },
        }
    }

    /// Installs a transferred state in the engine; returns the operations to
    /// replay.
    pub fn install_state(&mut self, view: &ViewInfo, dec_log: &DecisionLog, guard: &mut ProposerConsensusGuard) -> (r: Vec<Vec<u8>>)
        requires
            old(self).wf(),
            old(guard).wf(),
            view.wf(),
        ensures
            final(self).wf(),
            final(guard).wf(),
            final(self).phase_spec() == old(self).phase_spec(),
            r@.map_values(|v: Vec<u8>| v@) == crate::consensus::ops_of_proofs(dec_log.proofs@),
            ({
                let last = match dec_log.last_exec {
                    Some(s) => s.value,
                    None => old(self).consensus_spec().seq_no_spec(),
                };
                &&& final(self).consensus_spec().seq_no_spec() == seq_add(last, 1)
                &&& (last > 0 ==> final(self).consensus_spec().is_recovering_spec())
                &&& (last == 0 ==> final(self).consensus_spec().is_recovering_spec() == old(self).consensus_spec().is_recovering_spec())
            }),
            index_spec(view.seq.value, old(self).consensus_spec().view_seq_spec()) is Right
                ==> final(self).consensus_spec().view_seq_spec() == view.seq.value,
            index_spec(view.seq.value, old(self).consensus_spec().view_seq_spec()) is Left
                ==> final(self).consensus_spec().view_seq_spec() == old(self).consensus_spec().view_seq_spec(),
    {
        self.consensus.install_state(view, dec_log, guard)
    }

    /// Moves the engine's window to `seq_no`.
    pub fn install_seq_no(&mut self, seq_no: SeqNo, guard: &mut ProposerConsensusGuard)
        requires
            old(self).wf(),
            old(guard).wf(),
        ensures
            final(self).wf(),
            final(self).phase_spec() == old(self).phase_spec(),
            old(self).consensus_spec().seq_installed(old(guard), seq_no, &final(self).consensus_spec(), final(guard)),
    {
        self.consensus.install_sequence_number(seq_no, guard);
    }
}

} // verus!
