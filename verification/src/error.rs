//! Validation failures reported before anything is drawn.

use vstd::prelude::*;

verus! {

/// Why a mesh or a chart could not be laid out.
#[derive(Clone, Copy, Debug, PartialEq, Eq, Structural)]
pub enum MeshError {
    /// The points span no triangle: they are all collinear, or fewer than
    /// three of them are distinct.
    DegenerateInput,
    /// There is no present sample from which to take a value range.
    EmptyRange,
    /// The axis range has no positive width or no positive height.
    DegenerateAxisRange,
}

impl MeshError {
    /// A short description of the failure.
    pub fn message(&self) -> (s: String)
        ensures
            s@ == match *self {
                MeshError::DegenerateInput => "degenerate input: the points span no triangle"@,
                MeshError::EmptyRange => "empty range: no present sample"@,
                MeshError::DegenerateAxisRange => "degenerate axis range: no positive extent"@,
            },
    {
        match self {
            MeshError::DegenerateInput => {
                "degenerate input: the points span no triangle".to_string()
            },
            MeshError::EmptyRange => "empty range: no present sample".to_string(),
            MeshError::DegenerateAxisRange => {
                "degenerate axis range: no positive extent".to_string()
            },
        }
    }
}

} // verus!
