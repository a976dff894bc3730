//! Network layer: packet definitions, per-peer bookkeeping and the decisions of a
//! peer-to-peer rollback session (the socket I/O around them lives outside this crate).
pub mod packet;
pub mod peer;
pub mod session;
