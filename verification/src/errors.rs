use vstd::prelude::*;

verus! {

/// Why a pipeline run was refused before any computation started.
///
/// Both failures are structural: they depend only on the shape of the
/// request, never on the audio content, and carry enough detail to state
/// the violated precondition.
#[derive(Debug, Clone, Copy, PartialEq, Eq, Structural)]
pub enum SpekError {
    /// Fewer samples than one analysis window.
    InsufficientSamples { required: usize, actual: usize },
    /// A zero output width or height was requested.
    InvalidDimensions { width: u32, height: u32 },
}

} // verus!
