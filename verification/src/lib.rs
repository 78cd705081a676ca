//! Verified core of a sensor-driven physics world: sensor routing, reading
//! bookkeeping, joint registries, contact lookup and the native engine table.

pub mod sensors;
pub mod android_bridge;
pub mod environment_world;
pub mod true_world_model;
pub mod subscribers;
