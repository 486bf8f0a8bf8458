//! Correlation power analysis on quantised side-channel traces.
//!
//! A device that encrypts leaks, through the power it draws, the Hamming
//! weight of the bytes it handles. Given the plain blocks and the power
//! traces of a number of encryptions, the attack recovers the key byte by
//! byte: for each byte position it predicts the leakage under every value
//! of the key byte, and keeps the value whose prediction correlates best
//! with the measured power.
//!
//! Samples are signed 16-bit integers, as an acquisition front end delivers
//! them. All statistics are computed exactly over the integers, so every
//! score is a fraction and every comparison between scores is exact.
//!
//! - `tensor`: the arrays that hold traces, clocks and models;
//! - `sbox`, `leakage`: the leakage model of a clear text;
//! - `wide`, `score`, `correlation`: the Pearson correlation as an exact
//!   fraction, and the order of such fractions;
//! - `attack`: the search for the best key hypothesis;
//! - `edges`, `resample`: realignment of traces by the edges of their
//!   clocks, for captures that are not synchronous with the device;
//! - `parallel`: independent work items on a thread pool.

pub mod attack;
pub mod correlation;
pub mod edges;
pub mod leakage;
mod parallel;
pub mod resample;
pub mod sbox;
pub mod score;
pub mod tensor;
pub mod wide;
