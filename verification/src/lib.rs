//! Runtime core of a neural-network inference engine: tensors, layers, the
//! staged construction of a network and the lazy evaluation of its outputs.

pub mod allocator;
pub mod border;
pub mod datareader;
pub mod error;
pub mod extractor;
pub mod graph;
pub mod layer;
pub mod mat;
pub mod net;
pub mod option;
pub mod pixel;

pub use allocator::Allocator;
pub use border::{copy_cut_border, copy_cut_border_3d, copy_make_border, copy_make_border_3d};
pub use datareader::DataReader;
pub use error::{ExtractError, Extent, MatError, NetError, ReadError, SourceKind};
pub use extractor::{Extractor, Step};
pub use graph::{Graph, LayerDesc, Topology};
pub use layer::{
    BlobSlot, Capabilities, Layer, LayerError, LayerId, LayerKind, LayerRegistry, LayerShape,
};
pub use mat::{cast_into_i32, Mat};
pub use net::{LoadMethod, Net, NetBuilder, Phase};
pub use option::Option;
pub use pixel::{BorderType, PixelLayout, PixelType};
