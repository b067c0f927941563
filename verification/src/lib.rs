//! A forced-win ("tinue") search engine for two-player, perfect-information
//! board games: game-theoretic value propagation, bounded alpha-beta search,
//! unique-forced-win detection, iterative deepening, forced-win tree
//! enumeration, and post-processing of the enumerated trees.
//!
//! The board itself is an external collaborator: it is reached only through
//! the [`position::GamePosition`] trait, which a concrete engine implements
//! outside this crate.

pub mod alpha_beta;
pub mod output;
pub mod position;
pub mod tinue_enumeration;
pub mod tinue_search;
pub mod tree_processing;

pub use position::{GameOutcome, GamePosition, Player};
pub use tinue_enumeration::{enumerate_tinue, iddf_tinue_search, SearchResult, TinueMove};
