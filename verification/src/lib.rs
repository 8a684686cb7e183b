use vstd::prelude::*;

pub mod clock;
pub mod counts;
pub mod directory;
pub mod handlers;
pub mod ids;
pub mod laws;
pub mod models;
pub mod monitor;
pub mod names;
pub mod presence;
pub mod seqs;
pub mod stats;
pub mod storage;
pub mod sync_client;
pub mod text;
pub mod ws;

verus! {
} // verus!
