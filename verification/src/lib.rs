//! Layered identification of the natural language of short and
//! multi-line text.
//!
//! The deterministic layers (normalization, script and orthography
//! signals, function words, lexicons, morphology, sentence context and
//! per-character segmentation) live here with their contracts. Score
//! weighting and calibration work in floating point and stand outside
//! this crate.

pub mod tally;
pub mod text;
pub mod tokenize;
pub mod aggregate;
pub mod bcp47;
pub mod cli;
pub mod layers;
pub mod lexicon;
pub mod openlid;
pub mod pipeline;
pub mod segments;
pub mod types;
pub mod wordset;
