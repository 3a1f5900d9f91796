//! Layers, the nodes of a network, and the registry of layer kinds.

use vstd::prelude::*;
use vstd::string::StringSliceAdditionalSpecFns;
use vstd::utf8::encode_utf8;

use crate::mat::{Mat, MatView, MAX_DIMENSION};

verus! {

/// Why a layer could not be created.
#[derive(Clone, Copy, Debug, PartialEq, Eq, Structural)]
pub enum LayerError {
    /// The type name holds a zero byte.
    BadTypeName,
    /// The registry holds no kind of that name or index.
    UnknownType,
}

/// The index of a layer kind in the registry.
#[derive(Clone, Copy, Debug, PartialEq, Eq, Structural)]
pub struct LayerId(i32);

impl View for LayerId {
    type V = int;

    closed spec fn view(&self) -> int {
        self.0 as int
    }
}

impl LayerId {
    /// The identity of the kind at index `index`.
    pub fn new(index: i32) -> (id: Self)
        ensures
            id@ == index,
    {
        LayerId(index)
    }

    /// The index of the kind.
    pub fn index(&self) -> (index: i32)
        ensures
            index == self@,
    {
        self.0
    }
}

/// The shape that a topology declares for a blob or a weight block: a hint,
/// no promise about the tensor met at run time.
#[derive(Clone, Copy, Debug, PartialEq, Eq, Structural)]
pub struct LayerShape {
    pub dims: u32,
    pub width: u32,
    pub height: u32,
    pub channels: u32,
}

impl LayerShape {
    /// The shape without dimensions.
    pub open spec fn none() -> LayerShape {
        LayerShape { dims: 0, width: 0, height: 0, channels: 0 }
    }

    /// Whether a tensor has this shape.
    pub open spec fn fits(self, tensor: MatView) -> bool {
        &&& tensor.dims == self.dims
        &&& tensor.width == self.width
        &&& tensor.height == self.height
        &&& tensor.channels == self.channels
    }

    /// The shape of the given dimensions and sizes.
    pub fn new(dims: u32, width: u32, height: u32, channels: u32) -> (shape: Self)
        ensures
            shape == (LayerShape { dims, width, height, channels }),
    {
        LayerShape { dims, width, height, channels }
    }

    /// Whether `tensor` has this shape.
    pub fn matches(&self, tensor: &Mat) -> (ok: bool)
        ensures
            ok == self.fits(tensor@),
    {
        tensor.dimensions() == self.dims && tensor.width() == self.width && tensor.height()
            == self.height && tensor.channels() == self.channels
    }

    /// The shape of `tensor`.
    pub fn of(tensor: &Mat) -> (shape: Self)
        ensures
            shape.fits(tensor@),
    {
        LayerShape {
            dims: tensor.dimensions(),
            width: tensor.width(),
            height: tensor.height(),
            channels: tensor.channels(),
        }
    }
}

impl Default for LayerShape {
    fn default() -> (shape: Self)
        ensures
            shape == LayerShape::none(),
    {
        LayerShape { dims: 0, width: 0, height: 0, channels: 0 }
    }
}

/// What a layer declares it can do. The flags are declarations: nothing here
/// checks them against what the layer's computation supports.
#[derive(Clone, Copy, Debug, PartialEq, Eq, Structural)]
pub struct Capabilities {
    pub one_blob_only: bool,
    pub support_inplace: bool,
    pub support_vulkan: bool,
    pub support_packing: bool,
    pub support_bf16_storage: bool,
    pub support_fp16_storage: bool,
    pub support_image_storage: bool,
}

impl Capabilities {
    /// No capability declared.
    pub open spec fn none() -> Capabilities {
        Capabilities {
            one_blob_only: false,
            support_inplace: false,
            support_vulkan: false,
            support_packing: false,
            support_bf16_storage: false,
            support_fp16_storage: false,
            support_image_storage: false,
        }
    }
}

impl Default for Capabilities {
    fn default() -> (caps: Self)
        ensures
            caps == Capabilities::none(),
    {
        Capabilities {
            one_blob_only: false,
            support_inplace: false,
            support_vulkan: false,
            support_packing: false,
            support_bf16_storage: false,
            support_fp16_storage: false,
            support_image_storage: false,
        }
    }
}

/// One input or output of a layer: the blob it reads or writes and the shape
/// declared for it.
#[derive(Clone, Copy, Debug, PartialEq, Eq, Structural)]
pub struct BlobSlot {
    pub index: u32,
    pub shape: LayerShape,
}

/// The type index of a layer that no registry made.
pub const UNTYPED: i32 = -1;

/// What a layer is.
pub struct LayerView {
    pub type_index: int,
    pub kind_name: Seq<char>,
    pub name: Seq<char>,
    pub bottoms: Seq<BlobSlot>,
    pub tops: Seq<BlobSlot>,
    pub caps: Capabilities,
    pub weight_shape: LayerShape,
    pub weights: MatView,
}

impl LayerView {
    /// The untyped layer without inputs, outputs and capabilities.
    pub open spec fn shell() -> LayerView {
        LayerView {
            type_index: UNTYPED as int,
            kind_name: Seq::empty(),
            name: Seq::empty(),
            bottoms: Seq::empty(),
            tops: Seq::empty(),
            caps: Capabilities::none(),
            weight_shape: LayerShape::none(),
            weights: MatView::empty(),
        }
    }

    /// A layer as the registry makes it: typed, not yet connected.
    pub open spec fn typed(index: int, kind: LayerKindView) -> LayerView {
        LayerView {
            type_index: index,
            kind_name: kind.name,
            caps: kind.caps,
            ..LayerView::shell()
        }
    }

    /// The inputs and outputs can be counted in 31 bits, and the weights are
    /// a well-formed tensor.
    pub open spec fn wf(self) -> bool {
        &&& self.bottoms.len() <= MAX_DIMENSION
        &&& self.tops.len() <= MAX_DIMENSION
        &&& self.weights.wf()
    }

    /// The blob read at input `i`, where there is such an input.
    pub open spec fn bottom(self, i: int) -> Option<u32> {
        if 0 <= i < self.bottoms.len() {
            Some(self.bottoms[i].index)
        } else {
            None
        }
    }

    /// The blob written at output `i`, where there is such an output.
    pub open spec fn top(self, i: int) -> Option<u32> {
        if 0 <= i < self.tops.len() {
            Some(self.tops[i].index)
        } else {
            None
        }
    }

    /// The shape declared for input `i`, where there is such an input.
    pub open spec fn bottom_shape(self, i: int) -> Option<LayerShape> {
        if 0 <= i < self.bottoms.len() {
            Some(self.bottoms[i].shape)
        } else {
            None
        }
    }

    /// The shape declared for output `i`, where there is such an output.
    pub open spec fn top_shape(self, i: int) -> Option<LayerShape> {
        if 0 <= i < self.tops.len() {
            Some(self.tops[i].shape)
        } else {
            None
        }
    }

    /// Whether the layer writes blob `blob`.
    pub open spec fn produces(self, blob: int) -> bool {
        exists|i: int| 0 <= i < self.tops.len() && #[trigger] self.tops[i].index == blob
    }
}

/// One computation step of a network: its kind, its instance name, the blobs
/// it reads and writes, what it declares it can do, and its weights.
#[derive(Debug)]
pub struct Layer {
    type_index: i32,
    kind_name: String,
    name: String,
    bottoms: Vec<BlobSlot>,
    tops: Vec<BlobSlot>,
    caps: Capabilities,
    weight_shape: LayerShape,
    weights: Mat,
}

impl View for Layer {
    type V = LayerView;

    closed spec fn view(&self) -> LayerView {
        LayerView {
            type_index: self.type_index as int,
            kind_name: self.kind_name@,
            name: self.name@,
            bottoms: self.bottoms@,
            tops: self.tops@,
            caps: self.caps,
            weight_shape: self.weight_shape,
            weights: self.weights@,
        }
    }
}

/// Whether the bytes of a name, which are its UTF-8 encoding, hold a zero
/// byte. No registry key and no path can hold one.
pub open spec fn has_nul(name: Seq<char>) -> bool {
    exists|i: int| 0 <= i < encode_utf8(name).len() && encode_utf8(name)[i] == 0u8
}

/// Whether `name` holds a zero byte, computed.
pub fn contains_nul(name: &str) -> (found: bool)
    ensures
        found == has_nul(name@),
{
    let bytes: &[u8] = name.as_bytes();
    let mut i: usize = 0;
    while i < bytes.len()
        invariant
            i <= bytes@.len(),
            bytes@ == name.spec_bytes(),
            forall|j: int| 0 <= j < i ==> bytes@[j] != 0u8,
        decreases bytes@.len() - i,
    {
        if bytes[i] == 0u8 {
            return true;
        }
        i = i + 1;
    }
    false
}

/// What a layer kind is: the name it is registered under and the
/// capabilities that its layers declare when they are made.
pub struct LayerKindView {
    pub name: Seq<char>,
    pub caps: Capabilities,
}

/// A kind of layer that the registry can make.
#[derive(Debug)]
pub struct LayerKind {
    name: String,
    caps: Capabilities,
}

impl View for LayerKind {
    type V = LayerKindView;

    closed spec fn view(&self) -> LayerKindView {
        LayerKindView { name: self.name@, caps: self.caps }
    }
}

/// The index of the first kind of the given name, where there is one.
pub open spec fn index_of(kinds: Seq<LayerKindView>, name: Seq<char>) -> Option<int> {
    if exists|i: int| 0 <= i < kinds.len() && (#[trigger] kinds[i]).name == name {
        Some(choose|i: int| first_of(kinds, name, i))
    } else {
        None
    }
}

/// Whether `i` is the index of the first kind of the given name.
pub open spec fn first_of(kinds: Seq<LayerKindView>, name: Seq<char>, i: int) -> bool {
    &&& 0 <= i < kinds.len()
    &&& kinds[i].name == name
    &&& forall|j: int| 0 <= j < i ==> (#[trigger] kinds[j]).name != name
}

/// Where a first kind of the given name is found, it is the one that
/// `index_of` gives.
pub proof fn lemma_index_of(kinds: Seq<LayerKindView>, name: Seq<char>, i: int)
    requires
        first_of(kinds, name, i),
    ensures
        index_of(kinds, name) == Some(i),
{
    let j = choose|j: int| first_of(kinds, name, j);
    assert(first_of(kinds, name, j));
    if j < i {
        assert(kinds[j].name != name);
    }
    if i < j {
        assert(kinds[i].name != name);
    }
}

/// Where no kind has the given name, `index_of` gives none.
pub proof fn lemma_index_of_none(kinds: Seq<LayerKindView>, name: Seq<char>)
    requires
        forall|j: int| 0 <= j < kinds.len() ==> (#[trigger] kinds[j]).name != name,
    ensures
        index_of(kinds, name) is None,
{
}

/// What `Layer::create_by_type_name` returns.
pub open spec fn spec_create_by_type_name(kinds: Seq<LayerKindView>, name: Seq<char>) -> Result<
    LayerView,
    LayerError,
> {
    if has_nul(name) {
        Err(LayerError::BadTypeName)
    } else {
        match index_of(kinds, name) {
            Some(i) => Ok(LayerView::typed(i, kinds[i])),
            None => Err(LayerError::UnknownType),
        }
    }
}

/// What `Layer::create_by_type_id` returns.
pub open spec fn spec_create_by_type_id(kinds: Seq<LayerKindView>, id: int) -> Result<
    LayerView,
    LayerError,
> {
    if 0 <= id < kinds.len() {
        Ok(LayerView::typed(id, kinds[id]))
    } else {
        Err(LayerError::UnknownType)
    }
}

/// The view of a layer that was made, or the error in its place.
pub open spec fn made_layer(r: Result<Layer, LayerError>) -> Result<LayerView, LayerError> {
    match r {
        Ok(layer) => Ok(layer@),
        Err(e) => Err(e),
    }
}

/// The kinds of layer that can be made, each under a name and under the
/// index at which it was registered.
#[derive(Debug)]
pub struct LayerRegistry {
    kinds: Vec<LayerKind>,
}

impl View for LayerRegistry {
    type V = Seq<LayerKindView>;

    closed spec fn view(&self) -> Seq<LayerKindView> {
        Seq::new(self.kinds@.len(), |i: int| self.kinds@[i]@)
    }
}

impl LayerRegistry {
    /// Every kind has an index of 31 bits.
    pub open spec fn wf(&self) -> bool {
        self@.len() <= MAX_DIMENSION
    }

    /// The registry can hold one more kind.
    pub open spec fn has_room(&self) -> bool {
        self@.len() < MAX_DIMENSION
    }

    /// The registry without kinds.
    pub fn new() -> (registry: Self)
        ensures
            registry@ == Seq::<LayerKindView>::empty(),
            registry.wf(),
    {
        let registry = LayerRegistry { kinds: Vec::new() };
        assert(registry@ =~= Seq::<LayerKindView>::empty());
        registry
    }

    /// Kinds registered.
    pub fn len(&self) -> (n: usize)
        ensures
            n == self@.len(),
    {
        self.kinds.len()
    }

    /// Registers a kind under `kind_name` at the next index. A name that is
    /// registered already stays with the kind that has it: the new kind is
    /// made by its index alone.
    pub fn register(&mut self, kind_name: &str, caps: Capabilities) -> (r: Result<
        LayerId,
        LayerError,
    >)
        requires
            old(self).has_room(),
        ensures
            final(self).wf(),
            has_nul(kind_name@) ==> r == Err::<LayerId, LayerError>(
                LayerError::BadTypeName,
            ) && final(self)@ == old(self)@,
            !has_nul(kind_name@) ==> (r matches Ok(id) && id@ == old(self)@.len()
                && final(self)@ == old(self)@.push(LayerKindView { name: kind_name@, caps })),
    {
        if contains_nul(kind_name) {
            return Err(LayerError::BadTypeName);
        }
        let index: usize = self.kinds.len();
        self.kinds.push(LayerKind { name: kind_name.to_owned(), caps });
        assert(self@ =~= old(self)@.push(LayerKindView { name: kind_name@, caps }));
        Ok(LayerId(index as i32))
    }

    /// The index of the first kind registered under `kind_name`.
    pub fn find(&self, kind_name: &str) -> (r: Option<LayerId>)
        requires
            self.wf(),
        ensures
            match r {
                Some(id) => index_of(self@, kind_name@) == Some(id@) && first_of(
                    self@,
                    kind_name@,
                    id@,
                ),
                None => index_of(self@, kind_name@) is None,
            },
    {
        let wanted: String = kind_name.to_owned();
        let mut i: usize = 0;
        while i < self.kinds.len()
            invariant
                i <= self.kinds@.len(),
                wanted@ == kind_name@,
                self@.len() == self.kinds@.len(),
                self.wf(),
                forall|j: int| 0 <= j < i ==> (#[trigger] self@[j]).name != kind_name@,
            decreases self.kinds@.len() - i,
        {
            if self.kinds[i].name == wanted {
                proof {
                    assert(self@[i as int].name == kind_name@);
                    lemma_index_of(self@, kind_name@, i as int);
                }
                return Some(LayerId(i as i32));
            }
            i = i + 1;
        }
        proof {
            lemma_index_of_none(self@, kind_name@);
        }
        None
    }

    /// The kind at index `i`.
    pub(crate) fn kind(&self, i: usize) -> (kind: &LayerKind)
        requires
            i < self@.len(),
        ensures
            kind@ == self@[i as int],
    {
        &self.kinds[i]
    }
}

impl Layer {
    /// The invariant that every constructor establishes and every method keeps.
    pub open spec fn wf(&self) -> bool {
        self@.wf()
    }

    /// A layer of the given kind, not yet connected.
    fn of_kind(index: i32, kind: &LayerKind) -> (layer: Self)
        ensures
            layer@ == LayerView::typed(index as int, kind@),
            layer.wf(),
    {
        Layer {
            type_index: index,
            kind_name: kind.name.clone(),
            name: String::new(),
            bottoms: Vec::new(),
            tops: Vec::new(),
            caps: kind.caps,
            weight_shape: LayerShape::default(),
            weights: Mat::new(),
        }
    }

    /// Builds an empty, untyped layer.
    pub fn create() -> (layer: Self)
        ensures
            layer@ == LayerView::shell(),
            layer.wf(),
    {
        Layer {
            type_index: UNTYPED,
            kind_name: String::new(),
            name: String::new(),
            bottoms: Vec::new(),
            tops: Vec::new(),
            caps: Capabilities::default(),
            weight_shape: LayerShape::default(),
            weights: Mat::new(),
        }
    }

    /// Makes a layer of the first kind registered under `kind_name`.
    pub fn create_by_type_name(registry: &LayerRegistry, kind_name: &str) -> (r: Result<
        Self,
        LayerError,
    >)
        requires
            registry.wf(),
        ensures
            made_layer(r) == spec_create_by_type_name(registry@, kind_name@),
            r matches Ok(layer) ==> layer.wf(),
    {
        if contains_nul(kind_name) {
            return Err(LayerError::BadTypeName);
        }
        match registry.find(kind_name) {
            Some(id) => Ok(Layer::of_kind(id.0, registry.kind(id.0 as usize))),
            None => Err(LayerError::UnknownType),
        }
    }

    /// Makes a layer of the kind registered at index `id`.
    pub fn create_by_type_id(registry: &LayerRegistry, id: LayerId) -> (r: Result<
        Self,
        LayerError,
    >)
        ensures
            made_layer(r) == spec_create_by_type_id(registry@, id@),
            r matches Ok(layer) ==> layer.wf(),
    {
        if id.0 >= 0 && (id.0 as usize) < registry.len() {
            Ok(Layer::of_kind(id.0, registry.kind(id.0 as usize)))
        } else {
            Err(LayerError::UnknownType)
        }
    }

    /// Gives a layer its place in a network: its instance name, the blobs it
    /// reads and writes, and the shape of its weights.
    pub(crate) fn connect(
        self,
        name: String,
        bottoms: Vec<BlobSlot>,
        tops: Vec<BlobSlot>,
        weight_shape: LayerShape,
    ) -> (layer: Self)
        requires
            self.wf(),
            bottoms@.len() <= MAX_DIMENSION,
            tops@.len() <= MAX_DIMENSION,
        ensures
            layer@ == (LayerView {
                name: name@,
                bottoms: bottoms@,
                tops: tops@,
                weight_shape,
                ..self@
            }),
            layer.wf(),
    {
        let Layer { type_index, kind_name, name: _, bottoms: _, tops: _, caps, weight_shape: _, weights } =
            self;
        Layer { type_index, kind_name, name, bottoms, tops, caps, weight_shape, weights }
    }

    /// Puts the weights in place.
    pub(crate) fn load(self, weights: Mat) -> (layer: Self)
        requires
            self.wf(),
            weights.wf(),
        ensures
            layer@ == (LayerView { weights: weights@, ..self@ }),
            layer.wf(),
    {
        let Layer { type_index, kind_name, name, bottoms, tops, caps, weight_shape, weights: _ } =
            self;
        Layer { type_index, kind_name, name, bottoms, tops, caps, weight_shape, weights }
    }

    /// The instance name that the topology gave the layer.
    pub fn name(&self) -> (name: &str)
        ensures
            name@ == self@.name,
    {
        self.name.as_str()
    }

    /// The index of the layer's kind.
    pub fn id(&self) -> (id: LayerId)
        ensures
            id@ == self@.type_index,
    {
        LayerId(self.type_index)
    }

    /// The name of the layer's kind.
    pub fn kind_name(&self) -> (name: &str)
        ensures
            name@ == self@.kind_name,
    {
        self.kind_name.as_str()
    }

    /// The shape that the topology declares for the weights.
    pub fn weight_shape(&self) -> (shape: LayerShape)
        ensures
            shape == self@.weight_shape,
    {
        self.weight_shape
    }

    /// The weights: the tensor without dimensions until weights are loaded.
    pub fn weights(&self) -> (weights: &Mat)
        ensures
            weights@ == self@.weights,
    {
        &self.weights
    }

    /// Whether the layer declares that it reads one blob and writes one.
    pub fn one_blob_only(&self) -> (flag: bool)
        ensures
            flag == self@.caps.one_blob_only,
    {
        self.caps.one_blob_only
    }

    /// Whether the layer declares that it can write over its input.
    pub fn support_inplace(&self) -> (flag: bool)
        ensures
            flag == self@.caps.support_inplace,
    {
        self.caps.support_inplace
    }

    /// Whether the layer declares that it can compute on the GPU.
    pub fn support_vulkan(&self) -> (flag: bool)
        ensures
            flag == self@.caps.support_vulkan,
    {
        self.caps.support_vulkan
    }

    /// Whether the layer declares that it takes packed storage.
    pub fn support_packing(&self) -> (flag: bool)
        ensures
            flag == self@.caps.support_packing,
    {
        self.caps.support_packing
    }

    /// Whether the layer declares that it takes bf16 storage.
    pub fn support_bf16_storage(&self) -> (flag: bool)
        ensures
            flag == self@.caps.support_bf16_storage,
    {
        self.caps.support_bf16_storage
    }

    /// Whether the layer declares that it takes fp16 storage.
    pub fn support_fp16_storage(&self) -> (flag: bool)
        ensures
            flag == self@.caps.support_fp16_storage,
    {
        self.caps.support_fp16_storage
    }

    /// Whether the layer declares that it takes image storage.
    pub fn support_image_storage(&self) -> (flag: bool)
        ensures
            flag == self@.caps.support_image_storage,
    {
        self.caps.support_image_storage
    }

    /// Declares, or takes back, that the layer reads one blob and writes one.
    pub fn set_one_blob_only(&mut self, enable: bool)
        ensures
            final(self)@ == (LayerView {
                caps: Capabilities { one_blob_only: enable, ..old(self)@.caps },
                ..old(self)@
            }),
    {
        self.caps.one_blob_only = enable;
    }

    /// Declares, or takes back, that the layer can write over its input.
    pub fn set_support_inplace(&mut self, enable: bool)
        ensures
            final(self)@ == (LayerView {
                caps: Capabilities { support_inplace: enable, ..old(self)@.caps },
                ..old(self)@
            }),
    {
        self.caps.support_inplace = enable;
    }

    /// Declares, or takes back, that the layer can compute on the GPU.
    pub fn set_support_vulkan(&mut self, enable: bool)
        ensures
            final(self)@ == (LayerView {
                caps: Capabilities { support_vulkan: enable, ..old(self)@.caps },
                ..old(self)@
            }),
    {
        self.caps.support_vulkan = enable;
    }

    /// Declares, or takes back, that the layer takes packed storage.
    pub fn set_support_packing(&mut self, enable: bool)
        ensures
            final(self)@ == (LayerView {
                caps: Capabilities { support_packing: enable, ..old(self)@.caps },
                ..old(self)@
            }),
    {
        self.caps.support_packing = enable;
    }

    /// Declares, or takes back, that the layer takes bf16 storage.
    pub fn set_support_bf16_storage(&mut self, enable: bool)
        ensures
            final(self)@ == (LayerView {
                caps: Capabilities { support_bf16_storage: enable, ..old(self)@.caps },
                ..old(self)@
            }),
    {
        self.caps.support_bf16_storage = enable;
    }

    /// Declares, or takes back, that the layer takes fp16 storage.
    pub fn set_support_fp16_storage(&mut self, enable: bool)
        ensures
            final(self)@ == (LayerView {
                caps: Capabilities { support_fp16_storage: enable, ..old(self)@.caps },
                ..old(self)@
            }),
    {
        self.caps.support_fp16_storage = enable;
    }

    /// Declares, or takes back, that the layer takes image storage.
    pub fn set_support_image_storage(&mut self, enable: bool)
        ensures
            final(self)@ == (LayerView {
                caps: Capabilities { support_image_storage: enable, ..old(self)@.caps },
                ..old(self)@
            }),
    {
        self.caps.support_image_storage = enable;
    }

    /// Inputs of the layer.
    pub fn bottom_len(&self) -> (n: u32)
        requires
            self.wf(),
        ensures
            n == self@.bottoms.len(),
    {
        self.bottoms.len() as u32
    }

    /// Outputs of the layer.
    pub fn top_len(&self) -> (n: u32)
        requires
            self.wf(),
        ensures
            n == self@.tops.len(),
    {
        self.tops.len() as u32
    }

    /// The blob read at input `index`, or nothing where the layer has no
    /// such input.
    pub fn bottom(&self, index: u32) -> (blob: Option<u32>)
        ensures
            blob == self@.bottom(index as int),
    {
        if (index as usize) < self.bottoms.len() {
            Some(self.bottoms[index as usize].index)
        } else {
            None
        }
    }

    /// The blob written at output `index`, or nothing where the layer has no
    /// such output.
    pub fn top(&self, index: u32) -> (blob: Option<u32>)
        ensures
            blob == self@.top(index as int),
    {
        if (index as usize) < self.tops.len() {
            Some(self.tops[index as usize].index)
        } else {
            None
        }
    }

    /// The blob read at input `index`, for a caller that has checked the
    /// index.
    pub fn bottom_unchecked(&self, index: u32) -> (blob: u32)
        requires
            index < self@.bottoms.len(),
        ensures
            blob == self@.bottoms[index as int].index,
    {
        self.bottoms[index as usize].index
    }

    /// The blob written at output `index`, for a caller that has checked the
    /// index.
    pub fn top_unchecked(&self, index: u32) -> (blob: u32)
        requires
            index < self@.tops.len(),
        ensures
            blob == self@.tops[index as int].index,
    {
        self.tops[index as usize].index
    }

    /// The shape declared for input `index`, or nothing where the layer has
    /// no such input.
    pub fn blob_bottom_shape(&self, index: u32) -> (shape: Option<LayerShape>)
        ensures
            shape == self@.bottom_shape(index as int),
    {
        if (index as usize) < self.bottoms.len() {
            Some(self.blob_bottom_shape_unchecked(index))
        } else {
            None
        }
    }

    /// The shape declared for output `index`, or nothing where the layer has
    /// no such output.
    pub fn blob_top_shape(&self, index: u32) -> (shape: Option<LayerShape>)
        ensures
            shape == self@.top_shape(index as int),
    {
        if (index as usize) < self.tops.len() {
            Some(self.blob_top_shape_unchecked(index))
        } else {
            None
        }
    }

    /// The shape declared for input `index`, for a caller that has checked
    /// the index.
    pub fn blob_bottom_shape_unchecked(&self, index: u32) -> (shape: LayerShape)
        requires
            index < self@.bottoms.len(),
        ensures
            shape == self@.bottoms[index as int].shape,
    {
        self.bottoms[index as usize].shape
    }

    /// The shape declared for output `index`, for a caller that has checked
    /// the index.
    pub fn blob_top_shape_unchecked(&self, index: u32) -> (shape: LayerShape)
        requires
            index < self@.tops.len(),
        ensures
            shape == self@.tops[index as int].shape,
    {
        self.tops[index as usize].shape
    }
}

} // verus!
