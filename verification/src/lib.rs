//! Peer-connection core: multiplexes many logical requests over one byte
//! stream, correlates out-of-order responses to the callers that issued them,
//! and fails every outstanding and future request uniformly once the
//! connection reaches a terminal state.
//!
//! The transport itself (sockets, threads, blocking waits) lives outside this
//! crate; here stand the wire codec, the request correlator, the terminal
//! error state, the write-once future cell and the connection state machine,
//! each with its contract.

pub mod codec;
pub mod conn;
pub mod correlator;
pub mod errors;
pub mod future;
