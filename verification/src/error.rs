use vstd::prelude::*;

verus! {

/// Why a run stops. Each failure ends the run: nothing is tried again and
/// no partial picture is written.
#[derive(Debug, Clone, Copy, PartialEq, Eq, Structural)]
pub enum PipelineError {
    /// A folder that must be named by a number is named otherwise.
    MalformedHierarchy,
    /// A folder that must hold something holds nothing.
    EmptyDirectory,
    /// A line of a listing gives no name.
    MalformedListingLine,
    /// The samples of a band are not signed 16-bit integers.
    UnexpectedSampleType,
    /// A band is not a table of rows and columns.
    UnexpectedShape,
    /// The three channels of a picture differ in size.
    ChannelShapeMismatch,
}

} // verus!
