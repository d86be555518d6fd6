//! A vocabulary-drill question corpus: flashcard facts parsed from
//! pipe-delimited record lines, generator blocks that assemble composite
//! questions from policy-tagged shards, and a weighted quiz selector.

pub mod files;
pub mod questions;
pub mod quiz;
pub mod rng;
pub mod utils;
