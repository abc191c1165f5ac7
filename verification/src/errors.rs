//! Error taxonomy of the chart pipeline. Every failure is terminal for the
//! current render: no partial chart is drawn.

use vstd::prelude::*;

verus! {

/// Why a render was abandoned.
#[derive(Clone, Copy, Debug, PartialEq, Eq, Structural)]
pub enum ChartError {
    /// Malformed or missing input records.
    DataSource,
    /// Terminal dimensions unavailable or unusable.
    Environment,
    /// Regression input has zero variance in the x-dimension.
    DegenerateInput,
    /// A divisor of the pipeline (height, step or the price maximum) is zero.
    Division,
}

} // verus!
