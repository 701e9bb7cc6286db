//! A Monte Carlo tree search engine for turn-based, perfect-information
//! games, together with the verified card game it was built to search.
//!
//! The search engine (`tree_search`) is generic over any domain that
//! implements the [`tree_search::SearchableState`] contract, and draws its
//! randomness from the deterministic generator in `rng`; `nim` provides a
//! small two-player example domain.  The card game lives in `cards` (the
//! catalog), `game` (the state, its invariant and its mutation primitives),
//! `game_flow` (the turn machinery), `game_scoring` (end and winners),
//! `deciders` (simple strategies) and `search_decider` (move enumeration
//! for searching decisions).

pub mod cards;
pub mod deciders;
pub mod fixed_point;
pub mod game;
pub mod game_flow;
pub mod game_scoring;
pub mod nim;
pub mod rng;
pub mod search_decider;
pub mod tree_search;
pub mod util;
