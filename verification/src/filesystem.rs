//! What the mounted filesystem decides without touching a disk or a provider.
pub mod arena;
pub mod cache;
pub mod capacity;
pub mod charge;
pub mod collection;
pub mod diagnostics;
pub mod directories;
pub mod following;
pub mod hydration;
pub mod invalidation;
pub mod lifecycle;
pub mod maintenance;
pub mod mounts;
pub mod payloads;
pub mod preservation;
pub mod projection;
pub mod reading;
pub mod residency;
pub mod trash;
pub mod views;
pub mod workload;
pub mod writeback;
