//! The pipeline's error taxonomy.

use vstd::prelude::*;

verus! {

/// Why a test case's computation was abandoned. `Input` covers a malformed
/// time window or element source; `Propagation` covers the propagator
/// rejecting the elements or the requested elapsed time. Either is fatal to
/// its own test case only, and a partially built series is discarded.
#[derive(Clone, Copy, PartialEq, Eq, Structural, Debug)]
pub enum PipelineError {
    Input,
    Propagation,
}

} // verus!
