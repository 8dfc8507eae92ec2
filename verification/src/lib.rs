//! Decision logic of a prediction-market agent.
//!
//! The agent plays rounds: it fetches its status and a market, answers the
//! server's challenge, puts a prompt to a language model, and submits what the
//! model decides, if the rules let it pass. This crate holds what is decided
//! and computed in a round, with contracts that say what; `iteration`,
//! `loop_worker`, `preflight` and `stake` tell a host what to do next, and the
//! host does it.
pub mod challenge;
pub mod decision;
pub mod double;
pub mod iteration;
pub mod json;
pub mod llm;
pub mod loop_worker;
pub mod market;
pub mod numerals;
pub mod openclaw;
pub mod preflight;
pub mod prompt;
pub mod report;
pub mod stake;
pub mod strategy;
pub mod submission;
pub mod text;
pub mod verdict;
pub mod words;
