//! Core engine of an unattended image slideshow: a shuffled playlist with a
//! bounded undo history, incremental scan diffing against a previously
//! recorded file set, glob-based ignore rules, and the decision logic of a
//! derived-image cache for oversized pictures.

pub mod cache;
pub mod ignore;
pub mod playlist;
pub mod scanner;
pub mod seqs;
pub mod stats;
pub mod text;
