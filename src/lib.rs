//! A pipelined PBFT ordering core: sequence numbers, reorder buffers,
//! single-slot agreement, the watermark window and the proposer guard.

pub mod ordering;
pub mod message;
pub mod signals;
pub mod tbo;
pub mod decision;
pub mod guard;
pub mod consensus;
pub mod backlog;
pub mod wire;
pub mod protocol;
pub mod cst;
pub mod connection;
pub mod system;
