//! Pairwise edit-distance matrices for batches of words, computed either by a
//! sequential engine or by a fixed-width data-parallel kernel over zero-padded
//! character codes.

pub mod cli;
pub mod codec;
pub mod cpu;
pub mod distance;
pub mod equivalence;
pub mod error;
pub mod export;
pub mod kernel;
pub mod session;
pub mod wire;

pub use cli::{Cli, Commands};
pub use codec::{encode_words, word_codes};
pub use cpu::{code_distance, levenshtein_distance_cpu};
pub use error::LevenshteinError;
pub use export::{upper_triangle, PairDistance};
pub use kernel::{levenshtein, main_cs, WORDS_PADDING, WORKGROUP_SIZE};
pub use session::{readback_matrix, DispatchPlan, SessionLayout};
pub use wire::{decode_words, words_to_bytes};
