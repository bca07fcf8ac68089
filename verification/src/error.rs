use vstd::prelude::*;

verus! {

/// Why an operation of the renderer refused its input.
#[derive(Clone, Copy, Debug, PartialEq, Eq, Structural)]
pub enum RenderError {
    /// A colour channel lies outside `[0, 1]`.
    ChannelOutOfRange,
    /// The image is not wider than it is tall.
    InvalidDimensions,
    /// A vector of length zero was to be normalised.
    DegenerateVector,
}

} // verus!
