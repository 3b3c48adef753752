//! Core of an online judge: admission checks, the judging pipeline's
//! verdict/score state machine, job/user/contest stores, and the
//! ranking engine.
//!
//! The surrounding program owns transport, process execution, and file
//! access; every decision — admission, verdict classification, output
//! comparison, scoring, short-circuiting, storage queries, and the
//! leaderboard — is made and proved here.

pub mod clock;
pub mod config;
pub mod contests;
pub mod errors;
pub mod jobs;
pub mod pipeline;
pub mod rank;
pub mod sorting;
pub mod text;
pub mod users;

pub use errors::ApiError;
