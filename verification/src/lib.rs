//! Checking solutions of a degree-constrained multi-commodity network-flow
//! problem.
//!
//! An instance has `n` nodes, 5 to 24 of them, and a demand matrix: how much
//! of each commodity every node asks for. A solution selects arcs, sends flow
//! of each commodity over arcs, and claims an objective. It is valid where
//! every node has two selected arcs out and two in, every commodity is in
//! balance at every node but its own, and no flow uses an arc that was not
//! selected.
//!
//! - [`instance`] and [`solution`] hold the two sides, [`demand`] and
//!   [`directive`] read them from text, and [`text`] has the scanners that
//!   both readers use.
//! - [`checks`] makes the three checks and computes the implied objective,
//!   [`verdict`] puts them in order, and [`report`] finds the words.
//! - [`laws`], [`grammar`] and [`reading`] state and prove what holds of all
//!   of this; [`range`] has the sums and searches that the statements are
//!   made of.
//! - [`utils`] has helpers for rows of integers and for random vectors of
//!   choices.

pub mod checks;
pub mod demand;
pub mod directive;
pub mod grammar;
pub mod instance;
pub mod laws;
pub mod range;
pub mod reading;
pub mod report;
pub mod solution;
pub mod text;
pub mod utils;
pub mod verdict;
