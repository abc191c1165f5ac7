//! Verified core of a terminal stock chart.
//!
//! The library downsamples a daily price series to a terminal width,
//! fits an ordinary-least-squares trend line over the reduced series,
//! maps prices to discrete terminal rows, and composites bars, trend
//! markers and price labels into a character grid. All arithmetic is
//! exact (integer and rational); every stage carries a contract that
//! pins its result down. Reading input, probing the terminal and
//! writing colored output are left to the surrounding program.

pub mod chart;
pub mod errors;
pub mod rat;
pub mod regress;
pub mod scale;
pub mod series;
pub mod term;
