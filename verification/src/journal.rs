//! Durable local edits: queued uploads and namespace changes, the local
//! namespace they act on, and the working streams behind it.
//!
//! The journal is a value. A caller loads it from storage, applies one
//! operation, and stores what changed. An operation that refuses leaves the
//! journal as it was. An interrupted attempt requires remote verification,
//! never unconditional replay.
pub mod ancestry;
pub mod capture;
pub mod chains;
pub mod consistency;
pub mod directories;
pub mod entries;
pub mod generations;
pub mod guards;
pub mod handoff;
pub mod laws;
pub mod listing;
pub mod migration;
pub mod mutations;
pub mod namespace;
pub mod observation;
pub mod observed;
pub mod order;
pub mod outcomes;
pub mod overlay;
pub mod preparation;
pub mod publication;
pub mod queue;
pub mod receipts;
pub mod records;
pub mod recovery;
pub mod replacements;
pub mod saves;
pub mod sealing;
pub mod shown;
pub mod tables;
pub mod takeovers;
pub mod unlinked;
pub mod uploads;
pub mod waiting;
pub mod working;
