use vstd::prelude::*;

verus! {

/// The ways in which building or drawing a topology fails.
#[derive(Debug, Clone, Copy, PartialEq, Eq, Structural)]
pub enum SasError {
    /// An instance number is not valid hexadecimal text.
    Parse,
    /// A property group or property record is malformed.
    Format,
    /// An edge or an initiator names an identifier that has no vertex.
    Lookup,
    /// A path from an initiator is longer than the number of vertices,
    /// so the graph reachable from the initiators holds a cycle.
    Cycle,
    /// The diagram's coordinates do not fit in 32 bits.
    TooLarge,
}

impl SasError {
    /// A short description of the failure.
    pub fn message(&self) -> &'static str {
        match self {
            SasError::Parse => "instance number is not hexadecimal",
            SasError::Format => "malformed property group or property",
            SasError::Lookup => "failed to lookup vertex",
            SasError::Cycle => "topology holds a cycle",
            SasError::TooLarge => "topology too large to draw",
        }
    }
}

} // verus!
