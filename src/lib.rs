//! Case-based retrieval of similar movies.
//!
//! Similarity scores are fixed-point integers: a score `s` stands for the
//! fraction `s / SCORE_ONE`, so `0` means "nothing in common" and
//! [`score::SCORE_ONE`] means "identical".
pub mod score;
pub mod cbr;
pub mod error;
pub mod movie;
pub mod ranking;
pub mod browser;
