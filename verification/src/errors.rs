//! The ways in which encoding and decoding can be refused.
use vstd::prelude::*;

verus! {

/// An entropy-coded segment of the container.
#[derive(Clone, Copy, Debug, PartialEq, Eq, Structural)]
pub enum Segment {
    Grid,
    Norm,
    Abs,
}

/// Why an image was not encoded.
#[derive(Clone, Copy, Debug, PartialEq, Eq, Structural)]
pub enum EncodeError {
    /// The block size is zero, the cluster count is zero, or the cluster
    /// count does not stay below the code of a mixed block.
    Config,
    /// The bytes handed in are not an image that the image decoder reads.
    NotAnImage,
}

/// Why a container was not decoded.
#[derive(Clone, Copy, Debug, PartialEq, Eq, Structural)]
pub enum DecodeError {
    /// The block size is zero.
    Config,
    /// The image would have more pixels than fit in memory.
    TooLarge,
    /// A length prefix is incomplete or exceeds the bytes that follow it.
    Malformed,
    /// The entropy decoder rejected the bytes of this segment.
    Entropy(Segment),
    /// The grid segment does not hold one code per block.
    GridSize,
    /// The color table segment is not a whole number of three-byte colors.
    ColorTable,
    /// A block code names a cluster that the color table does not hold.
    UnknownCluster,
    /// The residual lists do not hold one whole entry per pixel of a mixed
    /// block.
    ResidualLength,
}

} // verus!
