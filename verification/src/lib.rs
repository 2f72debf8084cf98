//! Reproducible benchmark datasets for automata-learning research:
//! parameter planning, rejection-sampled automaton generation, word-sample
//! generation and splitting, acceptance labelling, and export planning.

pub mod config;
pub mod csvio;
pub mod engine;
pub mod export;
pub mod generator;
pub mod labeler;
pub mod names;
pub mod params;
pub mod parse;
pub mod rows;
pub mod words;
