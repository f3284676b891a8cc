//! A ranked-choice poll run as a single-writer instance: participants join,
//! nominate options and submit rankings, and the admin closes the poll to
//! obtain a deterministic Borda-style tally.

pub mod text;
pub mod types;
pub mod keyed;
pub mod tally;
pub mod state;
pub mod contract;
pub mod service;
