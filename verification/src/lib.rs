//! Verified core of a serverless, end-to-end encrypted messenger for a local network.

pub mod app_state;
pub mod crypto;
pub mod files;
pub mod history;
pub mod identity;
pub mod manager;
pub mod primitives;
pub mod promises;
pub mod registry;
pub mod room;
pub mod swarm;
pub mod text;
pub mod types;
