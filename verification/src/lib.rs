//! A content-addressed memoization cache for deterministic process
//! executions.

pub mod args;
pub mod blob;
pub mod cache;
pub mod canonical;
pub mod context;
pub mod discovery;
pub mod error;
pub mod execute;
pub mod fs;
pub mod identity;
pub mod laws;
pub mod matching;
pub mod memory;
pub mod path;
pub mod projection;
pub mod runner;
pub mod sorted;
pub mod text;
pub mod transport;
