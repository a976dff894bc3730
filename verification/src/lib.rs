//! Deterministic rollback netcode: a verified rollback engine with input
//! prediction, input delay, forced confirmation and desync detection, plus the
//! decision logic of its peer-to-peer network layer.
pub mod codec;
pub mod error;
pub mod laws;
pub mod network;
pub mod state;
pub mod sync;
