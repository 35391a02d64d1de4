//! A sharded MQTT v5 broker core: the packet codec, the bounded queues between
//! threads, the per-connection framing state machines and the session-level
//! sequencing rules, each with a machine-checked contract.

pub mod error;
pub mod frame;
pub mod ident;
pub mod wire;
pub mod v5;
pub mod broker;
pub mod cluster;
