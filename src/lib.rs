//! Test doubles for RPC services: length-prefixed message framing, a pollable
//! frame body, a predicate-driven outbound-call dispatcher and the decision
//! cores of the streaming-response processor and the bidirectional harness.

pub mod frame;
pub mod status;
pub mod message;
pub mod grpc_mock;
pub mod mock;
pub mod client_mock;
pub mod response;
pub mod harness;
pub mod proto;
pub mod test_utils;
