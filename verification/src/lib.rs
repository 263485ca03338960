//! Real-time state-synchronization core for a peer-to-peer shooter.
//!
//! The crate verifies the layer between an unreliable datagram transport and
//! a fixed-cadence simulation loop: the tagged wire protocol and its binary
//! codec, the death roster shared between peers, the outbound update
//! throttle, bullet lifetime bookkeeping, and the hit/death reconciliation
//! state machine.  Socket I/O itself lives outside the library; every
//! function here is a total, panic-free computation over plain values.

pub mod bullet;
pub mod reconcile;
pub mod roster;
pub mod session;
pub mod throttle;
pub mod wire;
