//! Client core for a shared-memory display session: the global registry and
//! capability binding, the shared-memory pool, the presentation handshake and
//! the event dispatch context.

pub mod registry;
pub mod shm;
pub mod draw;
pub mod present;
pub mod client;
