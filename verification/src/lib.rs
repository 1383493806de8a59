//! Watchlist screening engine: entity resolution against a mutable watchlist
//! of names, combining embedding-based retrieval with several string-distance
//! signals.
//!
//! Embedding vectors are held as fixed-point integers (a component `c` stands
//! for the real value `c / 10_000`); cosine similarity is likewise a scaled
//! integer, `SIM_SCALE` standing for `1.0`. All decision logic is verified;
//! calls into outside crates stand behind small trusted wrappers.

pub mod ann;
pub mod api;
pub mod checker;
pub mod checker_utils;
pub mod db;
pub mod embedding;
pub mod funcs;
pub mod interface;
pub mod loader;
pub mod model;
pub mod name_checker;
pub mod ner;
pub mod new_checker;
pub mod new_name_checker;
pub mod rv;
pub mod text;
