//! Error values of the tensor, layer, network and extraction operations.

use vstd::prelude::*;

use crate::layer::{LayerError, LayerShape};

verus! {

/// The size argument that an error speaks of.
#[derive(Clone, Copy, Debug, PartialEq, Eq, Structural)]
pub enum Extent {
    Width,
    Height,
    Depth,
    Channels,
    TargetWidth,
    TargetHeight,
    Top,
    Bottom,
    Left,
    Right,
    Front,
    Behind,
}

/// Why a tensor operation was refused.
#[derive(Clone, Copy, Debug, PartialEq, Eq, Structural)]
pub enum MatError {
    /// The named size argument exceeds `MAX_DIMENSION`.
    InvalidSize(Extent),
    /// The dimensions asked for are more than four, a dimension that is not
    /// used has another size than 1, or an element has no bytes or no
    /// scalars.
    InvalidShape,
    /// The shape asked for has a channel step or a byte size that cannot be
    /// represented.
    SizeOverflow,
    /// A buffer holds fewer items than the operation reads.
    DataTooShort { expected: u64, provided: u64 },
    /// The margins to cut exceed the extent they are cut from.
    BorderTooLarge,
}

/// The kind of source that a phase of a build reads.
#[derive(Clone, Copy, Debug, PartialEq, Eq, Structural)]
pub enum SourceKind {
    Path,
    DataReader,
}

/// Why reading a source gave no description.
#[derive(Clone, Copy, Debug, PartialEq, Eq, Structural)]
pub enum ReadError {
    /// The source could not be opened or read.
    Unavailable,
    /// The source ended before the description did.
    Truncated,
    /// What the source holds is no description.
    Malformed,
}

/// Why a network could not be built.
#[derive(Clone, Copy, Debug, PartialEq, Eq, Structural)]
pub enum NetError {
    /// No source was chosen for the topology.
    NoParamSource,
    /// No source was chosen for the weights.
    NoModelSource,
    /// The path of the topology holds a zero byte.
    InvalidParamPath,
    /// The path of the weights holds a zero byte.
    InvalidModelPath,
    /// A phase was entered out of turn.
    OutOfTurn,
    /// The topology source could not be read.
    ParamRead { source: SourceKind, error: ReadError },
    /// The weight source could not be read.
    ModelRead { source: SourceKind, error: ReadError },
    /// The description has more blobs, layers, inputs or outputs than can be
    /// indexed.
    TooLarge,
    /// A layer of the topology could not be made.
    Layer { layer: u32, cause: LayerError },
    /// A layer names a blob that the topology does not have.
    BlobOutOfRange { layer: u32, blob: u32 },
    /// A layer writes a blob that is written already.
    DuplicateProducer { layer: u32, blob: u32 },
    /// The layers depend on each other in a cycle.
    CyclicDependency,
    /// The weights hold blocks for another number of layers than the
    /// topology declares.
    LayerCountMismatch { layers: u64, blocks: u64 },
    /// The weight block of a layer has another shape than the topology
    /// declares for it.
    ShapeMismatch { layer: u32, declared: LayerShape, found: LayerShape },
}

/// Why an extraction gave no tensor.
#[derive(Clone, Copy, Debug, PartialEq, Eq, Structural)]
pub enum ExtractError {
    /// The network has no blob of that index or name.
    UnknownBlob,
    /// No tensor was supplied for the blob asked for, and no layer writes it.
    Unreachable { blob: u32 },
    /// A blob that the blob asked for depends on was not supplied, and no
    /// layer writes it.
    Unsatisfied { blob: u32 },
    /// The network has no layer of that index.
    UnknownLayer,
    /// The outputs of a layer were handed in before its inputs were there.
    NotRunnable { layer: u32 },
    /// The outputs of a layer were handed in a second time.
    AlreadyComputed { layer: u32 },
    /// A layer was handed another number of outputs than it writes.
    OutputCount { layer: u32, outputs: u64, handed: u64 },
    /// The computation of a layer failed.
    ComputeFailed { layer: u32 },
}

} // verus!
