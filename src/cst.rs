//! The collaborative state transfer as the ordering core sees it: where a
//! transfer stands and what it reports.

use vstd::prelude::*;
use crate::ordering::SeqNo;
use crate::message::Digest;

verus! {

/// The phase of a state transfer: idle, or counting the replies received
/// for the last consensus id or for the application state.
#[derive(Clone, Copy, PartialEq, Eq, Structural, Debug)]
pub enum ProtoPhase {
    Init,
    ReceivingCid(usize),
    ReceivingAppState(usize),
}

/// An ongoing collaborative state transfer.
pub struct CollabStTransfer {
    phase: ProtoPhase,
}

impl CollabStTransfer {
    pub closed spec fn phase_spec(&self) -> ProtoPhase {
        self.phase
    }

    /// A transfer that has not started.
    pub fn new() -> (r: CollabStTransfer)
        ensures
            r.phase_spec() == ProtoPhase::Init,
    {
        CollabStTransfer { phase: ProtoPhase::Init }
    }

    pub fn phase(&self) -> (r: ProtoPhase)
        ensures
            r == self.phase_spec(),
    {
        self.phase
    }
}

/// A snapshot of the application state after sequence number `seq`, with
/// its digest.
pub struct Checkpoint<S> {
    pub seq: SeqNo,
    pub app_state: S,
    pub digest: Digest,
}

impl<S> Checkpoint<S> {
    pub fn new(seq: SeqNo, app_state: S, digest: Digest) -> (r: Checkpoint<S>)
        ensures
            r == (Checkpoint { seq, app_state, digest }),
    {
        Checkpoint { seq, app_state, digest }
    }

    pub fn sequence_number(&self) -> (r: SeqNo)
        ensures
            r == self.seq,
    {
        self.seq
    }

    pub fn last_seq(&self) -> (r: &SeqNo)
        ensures
            *r == self.seq,
    {
        &self.seq
    }

    pub fn state(&self) -> (r: &S)
        ensures
            *r == self.app_state,
    {
        &self.app_state
    }

    pub fn digest(&self) -> (r: &Digest)
        ensures
            *r == self.digest,
    {
        &self.digest
    }

    pub fn into_inner(self) -> (r: (SeqNo, S, Digest))
        ensures
            r == (self.seq, self.app_state, self.digest),
    {
        (self.seq, self.app_state, self.digest)
    }
}

/// What a state transfer step reports to its supervisor.
pub enum STResult {
    RunCst,
    CstNotNeeded,
    CstRunning,
    /// The transfer ended with this application state and these requests
    /// to replay.
    CstFinished(Vec<u8>, Vec<Vec<u8>>),
}

/// What a state transfer timeout reports to its supervisor.
#[derive(Clone, Copy, PartialEq, Eq, Structural, Debug)]
pub enum STTimeoutResult {
    RunCst,
    CstNotNeeded,
}

} // verus!
