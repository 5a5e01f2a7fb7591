//! Linux user service and account coordination.
pub mod bytes;
pub mod control;
pub mod digest;
pub mod filesystem;
pub mod jobs;
pub mod journal;
pub mod manager;
pub mod model;
pub mod mutations;
pub mod outside;
pub mod recent;
pub mod refresh;
pub mod seqs;
pub mod stream;
pub mod text;
pub mod transfers;
pub mod words;
