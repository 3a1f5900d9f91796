//! The tensor: shape metadata over a flat byte buffer.

use vstd::arithmetic::div_mod::lemma_div_is_ordered;
use vstd::bytes::{lemma_auto_spec_u32_to_from_le_bytes, spec_u32_to_le_bytes, u32_to_le_bytes};
use vstd::prelude::*;

use crate::allocator::{fresh_block, max_block_bytes, Allocator};
use crate::error::{Extent, MatError};
use crate::pixel::PixelType;

verus! {

/// Largest value a size argument may take: sizes are held in 31 bits.
pub const MAX_DIMENSION: u32 = 0x7fff_ffff;

/// Bytes of one scalar of a tensor made by the shape constructors.
pub const DEFAULT_ELEMENT_SIZE: u32 = 4;

/// Byte boundary on which every channel plane of a tensor with three or four
/// dimensions starts.
pub const PLANE_ALIGNMENT: u32 = 16;

/// `n` rounded up to the next multiple of `PLANE_ALIGNMENT`.
pub open spec fn align_up(n: nat) -> nat {
    (((n + (PLANE_ALIGNMENT - 1)) / (PLANE_ALIGNMENT as int)) * PLANE_ALIGNMENT) as nat
}

/// Elements between the starts of two successive channel planes, for planes
/// of `plane` elements of `element_size` bytes each. Tensors of one or two
/// dimensions have a single plane and no padding.
pub open spec fn channel_step_of(dims: nat, plane: nat, element_size: nat) -> nat {
    if dims <= 2 || element_size == 0 {
        plane
    } else {
        align_up(plane * element_size) / element_size
    }
}

/// Whether a tensor of this shape has a channel step that fits 32 bits and a
/// buffer that fits one block.
pub open spec fn layout_fits(
    dims: nat,
    width: nat,
    height: nat,
    depth: nat,
    channels: nat,
    element_size: nat,
) -> bool {
    let step = channel_step_of(dims, width * height * depth, element_size);
    step <= u32::MAX && step * channels * element_size <= max_block_bytes()
}

/// What a tensor is: its shape, the layout of its elements, and its bytes.
pub struct MatView {
    pub dims: nat,
    pub width: nat,
    pub height: nat,
    pub depth: nat,
    pub channels: nat,
    pub element_size: nat,
    pub element_packing: nat,
    pub channel_step: nat,
    pub data: Seq<u8>,
    /// The buffer was supplied by the caller rather than allocated.
    pub external: bool,
    pub allocator: Option<Allocator>,
}

impl MatView {
    /// Elements of one channel plane.
    pub open spec fn plane(self) -> nat {
        self.width * self.height * self.depth
    }

    /// Bytes that the elements take, padding between planes included.
    pub open spec fn total_bytes(self) -> nat {
        self.channel_step * self.channels * self.element_size
    }

    /// The tensor without dimensions and without a buffer.
    pub open spec fn empty() -> MatView {
        MatView {
            dims: 0,
            width: 0,
            height: 0,
            depth: 0,
            channels: 0,
            element_size: 0,
            element_packing: 0,
            channel_step: 0,
            data: Seq::empty(),
            external: false,
            allocator: None,
        }
    }

    /// A newly allocated tensor of the given shape: its buffer holds exactly
    /// the bytes of its elements, every one zero.
    pub open spec fn fresh(
        dims: nat,
        width: nat,
        height: nat,
        depth: nat,
        channels: nat,
        element_size: nat,
        element_packing: nat,
        allocator: Option<Allocator>,
    ) -> MatView {
        let step = channel_step_of(dims, width * height * depth, element_size);
        MatView {
            dims,
            width,
            height,
            depth,
            channels,
            element_size,
            element_packing,
            channel_step: step,
            data: fresh_block(step * channels * element_size),
            external: false,
            allocator,
        }
    }

    /// The same shape over the caller's buffer.
    pub open spec fn over(self, data: Seq<u8>) -> MatView {
        MatView { data, external: true, ..self }
    }

    /// Unused dimensions are 1; the tensor without dimensions has all sizes 0.
    pub open spec fn shape_wf(self) -> bool {
        &&& self.dims <= 4
        &&& self.width <= MAX_DIMENSION
        &&& self.height <= MAX_DIMENSION
        &&& self.depth <= MAX_DIMENSION
        &&& self.channels <= MAX_DIMENSION
        &&& self.dims == 0 ==> self.width == 0 && self.height == 0 && self.depth == 0
            && self.channels == 0 && self.element_size == 0 && self.element_packing == 0
            && self.channel_step == 0
        &&& self.dims >= 1 ==> self.element_size >= 1 && self.element_packing >= 1
        &&& self.dims == 1 ==> self.height == 1
        &&& 1 <= self.dims <= 3 ==> self.depth == 1
        &&& 1 <= self.dims <= 2 ==> self.channels == 1
    }

    /// The invariant of every tensor: a valid shape, planes that do not
    /// overlap, and a buffer that holds all of them.
    pub open spec fn wf(self) -> bool {
        &&& self.shape_wf()
        &&& self.plane() <= self.channel_step <= u32::MAX
        &&& self.total_bytes() <= self.data.len()
        &&& self.element_size <= u32::MAX
        &&& self.element_packing <= u32::MAX
    }

    /// Whether the tensor has an element at column `x`, row `y`, slice `z` of
    /// channel `q`.
    pub open spec fn has(self, x: int, y: int, z: int, q: int) -> bool {
        &&& 0 <= x < self.width
        &&& 0 <= y < self.height
        &&& 0 <= z < self.depth
        &&& 0 <= q < self.channels
    }

    /// Where byte `k` of the element at column `x`, row `y`, slice `z` of
    /// channel `q` lies in the buffer.
    pub open spec fn offset(self, x: int, y: int, z: int, q: int, k: int) -> int {
        (q * self.channel_step + (z * self.height + y) * self.width + x) * self.element_size + k
    }

    /// Whether two tensors have the same shape and element layout.
    pub open spec fn same_shape(self, other: MatView) -> bool {
        &&& self.dims == other.dims
        &&& self.width == other.width
        &&& self.height == other.height
        &&& self.depth == other.depth
        &&& self.channels == other.channels
        &&& self.element_size == other.element_size
        &&& self.element_packing == other.element_packing
        &&& self.channel_step == other.channel_step
    }
}

/// The channel step never falls short of the plane it spaces.
pub proof fn lemma_channel_step_covers_plane(dims: nat, plane: nat, element_size: nat)
    ensures
        channel_step_of(dims, plane, element_size) >= plane,
{
    if dims > 2 && element_size != 0 {
        let bytes = plane * element_size;
        let aligned = align_up(bytes);
        assert(aligned >= bytes);
        assert(aligned / element_size >= plane) by (nonlinear_arith)
            requires
                aligned >= plane * element_size,
                element_size > 0,
        ;
    }
}

/// A newly allocated tensor whose shape is valid and whose layout fits is
/// well formed.
pub proof fn lemma_fresh_wf(
    dims: nat,
    width: nat,
    height: nat,
    depth: nat,
    channels: nat,
    element_size: nat,
    element_packing: nat,
    allocator: Option<Allocator>,
)
    requires
        MatView::fresh(
            dims,
            width,
            height,
            depth,
            channels,
            element_size,
            element_packing,
            allocator,
        ).shape_wf(),
        layout_fits(dims, width, height, depth, channels, element_size),
        element_size <= u32::MAX,
        element_packing <= u32::MAX,
    ensures
        MatView::fresh(
            dims,
            width,
            height,
            depth,
            channels,
            element_size,
            element_packing,
            allocator,
        ).wf(),
{
    lemma_channel_step_covers_plane(dims, width * height * depth, element_size);
}

/// Every byte of every element lies in the buffer.
pub proof fn lemma_offset_in_bounds(v: MatView, x: int, y: int, z: int, q: int, k: int)
    requires
        v.wf(),
        v.has(x, y, z, q),
        0 <= k < v.element_size,
    ensures
        0 <= v.offset(x, y, z, q, k) < v.total_bytes(),
        v.offset(x, y, z, q, k) < v.data.len(),
        0 <= (z * v.height + y) * v.width + x < v.plane(),
        0 <= q * v.channel_step + (z * v.height + y) * v.width + x < v.channel_step
            * v.channels,
{
    let w = v.width as int;
    let h = v.height as int;
    let d = v.depth as int;
    let c = v.channels as int;
    let step = v.channel_step as int;
    let es = v.element_size as int;
    let row = z * h + y;
    assert(0 <= row <= d * h - 1) by (nonlinear_arith)
        requires
            0 <= z <= d - 1,
            0 <= y <= h - 1,
            row == z * h + y,
    ;
    let inner = row * w + x;
    assert(0 <= inner <= d * h * w - 1) by (nonlinear_arith)
        requires
            0 <= row <= d * h - 1,
            0 <= x <= w - 1,
            inner == row * w + x,
    ;
    assert(d * h * w == w * h * d) by (nonlinear_arith);
    assert(inner < step);
    let element = q * step + inner;
    assert(0 <= element <= c * step - 1) by (nonlinear_arith)
        requires
            0 <= q <= c - 1,
            0 <= inner <= step - 1,
            element == q * step + inner,
    ;
    assert(0 <= element * es + k <= c * step * es - 1) by (nonlinear_arith)
        requires
            0 <= element <= c * step - 1,
            0 <= k <= es - 1,
    ;
    assert(c * step * es == step * c * es) by (nonlinear_arith);
    assert(c * step == step * c) by (nonlinear_arith);
}

/// The product of two bounded numbers.
pub(crate) proof fn lemma_product_bound(a: int, a_bound: int, b: int, b_bound: int)
    requires
        0 <= a <= a_bound,
        0 <= b <= b_bound,
    ensures
        0 <= a * b <= a_bound * b_bound,
{
    assert(0 <= a * b <= a_bound * b_bound) by (nonlinear_arith)
        requires
            0 <= a <= a_bound,
            0 <= b <= b_bound,
    ;
}

/// Channel step and byte size of a shape, where both can be represented.
pub(crate) fn layout(dims: u32, width: u32, height: u32, depth: u32, channels: u32, element_size: u32) -> (r:
    Option<(u32, usize)>)
    requires
        element_size >= 1,
    ensures
        match r {
            Some((step, bytes)) => {
                &&& layout_fits(
                    dims as nat,
                    width as nat,
                    height as nat,
                    depth as nat,
                    channels as nat,
                    element_size as nat,
                )
                &&& step == channel_step_of(
                    dims as nat,
                    (width as nat) * (height as nat) * (depth as nat),
                    element_size as nat,
                )
                &&& bytes == step * channels * element_size
            },
            None => !layout_fits(
                dims as nat,
                width as nat,
                height as nat,
                depth as nat,
                channels as nat,
                element_size as nat,
            ),
        },
{
    proof {
        lemma_product_bound(width as int, 0xffff_ffff, height as int, 0xffff_ffff);
        lemma_product_bound(
            width as int * height as int,
            0xffff_ffffint * 0xffff_ffffint,
            depth as int,
            0xffff_ffff,
        );
        lemma_product_bound(
            width as int * height as int * depth as int,
            0xffff_ffffint * 0xffff_ffffint * 0xffff_ffffint,
            element_size as int,
            0xffff_ffff,
        );
    }
    let plane: u128 = (width as u128) * (height as u128) * (depth as u128);
    let step: u128 = if dims <= 2 {
        plane
    } else {
        let plane_bytes: u128 = plane * (element_size as u128);
        let boundary: u128 = PLANE_ALIGNMENT as u128;
        (plane_bytes + (boundary - 1)) / boundary * boundary / (element_size as u128)
    };
    if step > u32::MAX as u128 {
        return None;
    }
    proof {
        lemma_product_bound(step as int, 0xffff_ffff, channels as int, 0xffff_ffff);
        lemma_product_bound(
            step as int * channels as int,
            0xffff_ffffint * 0xffff_ffffint,
            element_size as int,
            0xffff_ffff,
        );
    }
    let bytes: u128 = step * (channels as u128) * (element_size as u128);
    if bytes > isize::MAX as u128 {
        return None;
    }
    Some((step as u32, bytes as usize))
}

/// `val` as a 31-bit size, or the error that names `extent`.
pub fn cast_into_i32(val: u32, extent: Extent) -> (r: Result<i32, MatError>)
    ensures
        val <= MAX_DIMENSION ==> r == Ok::<i32, MatError>(val as i32),
        val > MAX_DIMENSION ==> r == Err::<i32, MatError>(MatError::InvalidSize(extent)),
{
    if val <= MAX_DIMENSION {
        Ok(val as i32)
    } else {
        Err(MatError::InvalidSize(extent))
    }
}

/// A tensor of up to four dimensions.
///
/// The elements of one channel lie row by row, and for four dimensions slice
/// by slice, in a plane of `width * height * depth` elements; successive
/// planes start `channel_step` elements apart.
#[derive(Debug)]
pub struct Mat {
    dims: u32,
    w: u32,
    h: u32,
    d: u32,
    c: u32,
    elemsize: u32,
    elempack: u32,
    cstep: u32,
    data: Vec<u8>,
    external: bool,
    allocator: Option<Allocator>,
}

impl View for Mat {
    type V = MatView;

    closed spec fn view(&self) -> MatView {
        MatView {
            dims: self.dims as nat,
            width: self.w as nat,
            height: self.h as nat,
            depth: self.d as nat,
            channels: self.c as nat,
            element_size: self.elemsize as nat,
            element_packing: self.elempack as nat,
            channel_step: self.cstep as nat,
            data: self.data@,
            external: self.external,
            allocator: self.allocator,
        }
    }
}

/// The view of a tensor that was made, or the error in its place.
pub open spec fn made(r: Result<Mat, MatError>) -> Result<MatView, MatError> {
    match r {
        Ok(m) => Ok(m@),
        Err(e) => Err(e),
    }
}

/// What the shape constructors return for sizes that are all valid.
pub open spec fn spec_create(
    dims: nat,
    width: nat,
    height: nat,
    depth: nat,
    channels: nat,
    allocator: Option<Allocator>,
) -> Result<MatView, MatError> {
    if layout_fits(dims, width, height, depth, channels, DEFAULT_ELEMENT_SIZE as nat) {
        Ok(
            MatView::fresh(
                dims,
                width,
                height,
                depth,
                channels,
                DEFAULT_ELEMENT_SIZE as nat,
                1,
                allocator,
            ),
        )
    } else {
        Err(MatError::SizeOverflow)
    }
}

/// What `Mat::new_1d` returns.
pub open spec fn spec_new_1d(width: u32, allocator: Option<Allocator>) -> Result<
    MatView,
    MatError,
> {
    if width > MAX_DIMENSION {
        Err(MatError::InvalidSize(Extent::Width))
    } else {
        spec_create(1, width as nat, 1, 1, 1, allocator)
    }
}

/// What `Mat::new_2d` returns.
pub open spec fn spec_new_2d(width: u32, height: u32, allocator: Option<Allocator>) -> Result<
    MatView,
    MatError,
> {
    if width > MAX_DIMENSION {
        Err(MatError::InvalidSize(Extent::Width))
    } else if height > MAX_DIMENSION {
        Err(MatError::InvalidSize(Extent::Height))
    } else {
        spec_create(2, width as nat, height as nat, 1, 1, allocator)
    }
}

/// What `Mat::new_3d` returns.
pub open spec fn spec_new_3d(
    width: u32,
    height: u32,
    channels: u32,
    allocator: Option<Allocator>,
) -> Result<MatView, MatError> {
    if width > MAX_DIMENSION {
        Err(MatError::InvalidSize(Extent::Width))
    } else if height > MAX_DIMENSION {
        Err(MatError::InvalidSize(Extent::Height))
    } else if channels > MAX_DIMENSION {
        Err(MatError::InvalidSize(Extent::Channels))
    } else {
        spec_create(3, width as nat, height as nat, 1, channels as nat, allocator)
    }
}

/// What `Mat::new_4d` returns.
pub open spec fn spec_new_4d(
    width: u32,
    height: u32,
    channels: u32,
    depth: u32,
    allocator: Option<Allocator>,
) -> Result<MatView, MatError> {
    if width > MAX_DIMENSION {
        Err(MatError::InvalidSize(Extent::Width))
    } else if height > MAX_DIMENSION {
        Err(MatError::InvalidSize(Extent::Height))
    } else if channels > MAX_DIMENSION {
        Err(MatError::InvalidSize(Extent::Channels))
    } else if depth > MAX_DIMENSION {
        Err(MatError::InvalidSize(Extent::Depth))
    } else {
        spec_create(4, width as nat, height as nat, depth as nat, channels as nat, allocator)
    }
}

/// What `Mat::with_layout` returns.
pub open spec fn spec_with_layout(
    dims: u32,
    width: u32,
    height: u32,
    depth: u32,
    channels: u32,
    element_size: u32,
    element_packing: u32,
    allocator: Option<Allocator>,
) -> Result<MatView, MatError> {
    let made = MatView::fresh(
        dims as nat,
        width as nat,
        height as nat,
        depth as nat,
        channels as nat,
        element_size as nat,
        element_packing as nat,
        allocator,
    );
    if width > MAX_DIMENSION {
        Err(MatError::InvalidSize(Extent::Width))
    } else if height > MAX_DIMENSION {
        Err(MatError::InvalidSize(Extent::Height))
    } else if depth > MAX_DIMENSION {
        Err(MatError::InvalidSize(Extent::Depth))
    } else if channels > MAX_DIMENSION {
        Err(MatError::InvalidSize(Extent::Channels))
    } else if !made.shape_wf() {
        Err(MatError::InvalidShape)
    } else if !layout_fits(
        dims as nat,
        width as nat,
        height as nat,
        depth as nat,
        channels as nat,
        element_size as nat,
    ) {
        Err(MatError::SizeOverflow)
    } else {
        Ok(made)
    }
}

/// The tensor that a shape constructor made, over the caller's buffer.
pub open spec fn spec_external(made: Result<MatView, MatError>, data: Seq<u8>) -> Result<
    MatView,
    MatError,
> {
    match made {
        Ok(v) => Ok(v.over(data)),
        Err(e) => Err(e),
    }
}

/// Whether `data` can hold the tensor that a shape constructor made.
pub open spec fn holds(made: Result<MatView, MatError>, data: Seq<u8>) -> bool {
    made matches Ok(v) ==> data.len() >= v.total_bytes()
}

/// The allocator that a constructor was handed, as a tensor records it.
pub open spec fn named(alloc: Option<&Allocator>) -> Option<Allocator> {
    match alloc {
        Some(a) => Some(*a),
        None => None,
    }
}

/// Bytes that an image of the given size takes under `pixel_type`.
pub open spec fn pixel_bytes(pixel_type: PixelType, width: u32, height: u32) -> nat {
    (width * height * pixel_type.spec_stride()) as nat
}

/// What `Mat::from_pixels` returns for a buffer of `len` bytes.
pub open spec fn spec_from_pixels(
    len: nat,
    pixel_type: PixelType,
    width: u32,
    height: u32,
    allocator: Option<Allocator>,
) -> Result<MatView, MatError> {
    if width > MAX_DIMENSION {
        Err(MatError::InvalidSize(Extent::Width))
    } else if height > MAX_DIMENSION {
        Err(MatError::InvalidSize(Extent::Height))
    } else if len < pixel_bytes(pixel_type, width, height) {
        Err(
            MatError::DataTooShort {
                expected: pixel_bytes(pixel_type, width, height) as u64,
                provided: len as u64,
            },
        )
    } else {
        spec_create(
            3,
            width as nat,
            height as nat,
            1,
            pixel_type.spec_channels() as nat,
            allocator,
        )
    }
}

/// What `Mat::from_pixels_resize` returns for a buffer of `len` bytes.
pub open spec fn spec_from_pixels_resize(
    len: nat,
    pixel_type: PixelType,
    width: u32,
    height: u32,
    target_width: u32,
    target_height: u32,
    allocator: Option<Allocator>,
) -> Result<MatView, MatError> {
    if width > MAX_DIMENSION {
        Err(MatError::InvalidSize(Extent::Width))
    } else if height > MAX_DIMENSION {
        Err(MatError::InvalidSize(Extent::Height))
    } else if target_width > MAX_DIMENSION {
        Err(MatError::InvalidSize(Extent::TargetWidth))
    } else if target_height > MAX_DIMENSION {
        Err(MatError::InvalidSize(Extent::TargetHeight))
    } else if len < pixel_bytes(pixel_type, width, height) {
        Err(
            MatError::DataTooShort {
                expected: pixel_bytes(pixel_type, width, height) as u64,
                provided: len as u64,
            },
        )
    } else {
        spec_create(
            3,
            target_width as nat,
            target_height as nat,
            1,
            pixel_type.spec_channels() as nat,
            allocator,
        )
    }
}

/// Whether a coefficient array of the given length, where there is one,
/// covers `channels` channels.
pub open spec fn covers(len: Option<usize>, channels: nat) -> bool {
    len matches Some(n) ==> n >= channels
}

/// What `Mat::check_coefficients` returns.
pub open spec fn spec_check_coefficients(
    channels: nat,
    mean_len: Option<usize>,
    norm_len: Option<usize>,
) -> Result<(), MatError> {
    if !covers(mean_len, channels) {
        Err(MatError::DataTooShort { expected: channels as u64, provided: mean_len->0 as u64 })
    } else if !covers(norm_len, channels) {
        Err(MatError::DataTooShort { expected: channels as u64, provided: norm_len->0 as u64 })
    } else {
        Ok(())
    }
}

/// The bytes of a tensor after every 32-bit scalar slot of its elements has
/// taken the pattern `bits`, least significant byte first. Bytes of the
/// buffer behind the elements stay.
pub open spec fn filled(v: MatView, bits: u32) -> Seq<u8> {
    Seq::new(
        v.data.len(),
        |i: int|
            if i < v.total_bytes() {
                spec_u32_to_le_bytes(bits)[i % 4]
            } else {
                v.data[i]
            },
    )
}

/// The bytes of a tensor after `bytes` has been stored over its elements.
pub open spec fn stored(v: MatView, bytes: Seq<u8>) -> Seq<u8> {
    Seq::new(
        v.data.len(),
        |i: int|
            if i < v.total_bytes() {
                bytes[i]
            } else {
                v.data[i]
            },
    )
}

impl Mat {
    /// The invariant that every constructor establishes and every method keeps.
    pub open spec fn wf(&self) -> bool {
        self@.wf()
    }

    /// Makes a tensor of a valid shape, over the caller's buffer where one is
    /// handed in and over a newly allocated one otherwise.
    fn create(
        dims: u32,
        width: u32,
        height: u32,
        depth: u32,
        channels: u32,
        alloc: Option<&Allocator>,
        buffer: Option<Vec<u8>>,
    ) -> (r: Result<Mat, MatError>)
        requires
            MatView::fresh(
                dims as nat,
                width as nat,
                height as nat,
                depth as nat,
                channels as nat,
                DEFAULT_ELEMENT_SIZE as nat,
                1,
                named(alloc),
            ).shape_wf(),
            buffer matches Some(data) ==> holds(
                spec_create(
                    dims as nat,
                    width as nat,
                    height as nat,
                    depth as nat,
                    channels as nat,
                    named(alloc),
                ),
                data@,
            ),
        ensures
            made(r) == (match buffer {
                Some(data) => spec_external(
                    spec_create(
                        dims as nat,
                        width as nat,
                        height as nat,
                        depth as nat,
                        channels as nat,
                        named(alloc),
                    ),
                    data@,
                ),
                None => spec_create(
                    dims as nat,
                    width as nat,
                    height as nat,
                    depth as nat,
                    channels as nat,
                    named(alloc),
                ),
            }),
            r matches Ok(m) ==> m.wf(),
    {
        let allocator: Option<Allocator> = match alloc {
            Some(a) => Some(*a),
            None => None,
        };
        match layout(dims, width, height, depth, channels, DEFAULT_ELEMENT_SIZE) {
            None => Err(MatError::SizeOverflow),
            Some((step, bytes)) => {
                proof {
                    lemma_fresh_wf(
                        dims as nat,
                        width as nat,
                        height as nat,
                        depth as nat,
                        channels as nat,
                        DEFAULT_ELEMENT_SIZE as nat,
                        1,
                        allocator,
                    );
                }
                let (data, external): (Vec<u8>, bool) = match buffer {
                    Some(data) => (data, true),
                    None => match allocator {
                        Some(a) => (a.allocate(bytes), false),
                        None => (Allocator::new().allocate(bytes), false),
                    },
                };
                Ok(
                    Mat {
                        dims,
                        w: width,
                        h: height,
                        d: depth,
                        c: channels,
                        elemsize: DEFAULT_ELEMENT_SIZE,
                        elempack: 1,
                        cstep: step,
                        data,
                        external,
                        allocator,
                    },
                )
            },
        }
    }

    /// Puts a well-formed tensor together from its parts.
    pub(crate) fn assemble(
        dims: u32,
        width: u32,
        height: u32,
        depth: u32,
        channels: u32,
        element_size: u32,
        element_packing: u32,
        channel_step: u32,
        data: Vec<u8>,
        allocator: Option<Allocator>,
    ) -> (m: Mat)
        requires
            (MatView {
                dims: dims as nat,
                width: width as nat,
                height: height as nat,
                depth: depth as nat,
                channels: channels as nat,
                element_size: element_size as nat,
                element_packing: element_packing as nat,
                channel_step: channel_step as nat,
                data: data@,
                external: false,
                allocator,
            }).wf(),
        ensures
            m@ == (MatView {
                dims: dims as nat,
                width: width as nat,
                height: height as nat,
                depth: depth as nat,
                channels: channels as nat,
                element_size: element_size as nat,
                element_packing: element_packing as nat,
                channel_step: channel_step as nat,
                data: data@,
                external: false,
                allocator,
            }),
            m.wf(),
    {
        Mat {
            dims,
            w: width,
            h: height,
            d: depth,
            c: channels,
            elemsize: element_size,
            elempack: element_packing,
            cstep: channel_step,
            data,
            external: false,
            allocator,
        }
    }

    /// Constructs a tensor of any element layout, every byte zero: `dims`
    /// dimensions, of which those not used have the size 1, and elements of
    /// `element_size` bytes that bundle `element_packing` scalars. This is
    /// how a computation makes an output whose scalars are not the 32-bit
    /// scalars of the shape constructors.
    pub fn with_layout(
        dims: u32,
        width: u32,
        height: u32,
        depth: u32,
        channels: u32,
        element_size: u32,
        element_packing: u32,
        alloc: Option<&Allocator>,
    ) -> (r: Result<Self, MatError>)
        ensures
            made(r) == spec_with_layout(
                dims,
                width,
                height,
                depth,
                channels,
                element_size,
                element_packing,
                named(alloc),
            ),
            r matches Ok(m) ==> m.wf(),
    {
        let _ = cast_into_i32(width, Extent::Width)?;
        let _ = cast_into_i32(height, Extent::Height)?;
        let _ = cast_into_i32(depth, Extent::Depth)?;
        let _ = cast_into_i32(channels, Extent::Channels)?;
        let allocator: Option<Allocator> = match alloc {
            Some(a) => Some(*a),
            None => None,
        };
        if dims == 0 {
            if width != 0 || height != 0 || depth != 0 || channels != 0 || element_size != 0
                || element_packing != 0 {
                return Err(MatError::InvalidShape);
            }
            return Ok(
                Mat::assemble(0, 0, 0, 0, 0, 0, 0, 0, Allocator::new().allocate(0), allocator),
            );
        }
        if dims > 4 || element_size == 0 || element_packing == 0 || (dims == 1 && height != 1) || (
        dims <= 3 && depth != 1) || (dims <= 2 && channels != 1) {
            return Err(MatError::InvalidShape);
        }
        match layout(dims, width, height, depth, channels, element_size) {
            None => Err(MatError::SizeOverflow),
            Some((step, bytes)) => {
                proof {
                    lemma_fresh_wf(
                        dims as nat,
                        width as nat,
                        height as nat,
                        depth as nat,
                        channels as nat,
                        element_size as nat,
                        element_packing as nat,
                        allocator,
                    );
                }
                let data: Vec<u8> = match allocator {
                    Some(a) => a.allocate(bytes),
                    None => Allocator::new().allocate(bytes),
                };
                Ok(
                    Mat::assemble(
                        dims,
                        width,
                        height,
                        depth,
                        channels,
                        element_size,
                        element_packing,
                        step,
                        data,
                        allocator,
                    ),
                )
            },
        }
    }

    /// Constructs the tensor without dimensions.
    pub fn new() -> (m: Self)
        ensures
            m@ == MatView::empty(),
            m.wf(),
    {
        Mat {
            dims: 0,
            w: 0,
            h: 0,
            d: 0,
            c: 0,
            elemsize: 0,
            elempack: 0,
            cstep: 0,
            data: Vec::new(),
            external: false,
            allocator: None,
        }
    }

    /// Constructs a tensor of one dimension, every byte zero.
    pub fn new_1d(width: u32, alloc: Option<&Allocator>) -> (r: Result<Self, MatError>)
        ensures
            made(r) == spec_new_1d(width, named(alloc)),
            r matches Ok(m) ==> m.wf(),
    {
        let _ = cast_into_i32(width, Extent::Width)?;
        Mat::create(1, width, 1, 1, 1, alloc, None)
    }

    /// Constructs a tensor of two dimensions, every byte zero.
    pub fn new_2d(width: u32, height: u32, alloc: Option<&Allocator>) -> (r: Result<
        Self,
        MatError,
    >)
        ensures
            made(r) == spec_new_2d(width, height, named(alloc)),
            r matches Ok(m) ==> m.wf(),
    {
        let _ = cast_into_i32(width, Extent::Width)?;
        let _ = cast_into_i32(height, Extent::Height)?;
        Mat::create(2, width, height, 1, 1, alloc, None)
    }

    /// Constructs a tensor of three dimensions, every byte zero.
    pub fn new_3d(width: u32, height: u32, channels: u32, alloc: Option<&Allocator>) -> (r: Result<
        Self,
        MatError,
    >)
        ensures
            made(r) == spec_new_3d(width, height, channels, named(alloc)),
            r matches Ok(m) ==> m.wf(),
    {
        let _ = cast_into_i32(width, Extent::Width)?;
        let _ = cast_into_i32(height, Extent::Height)?;
        let _ = cast_into_i32(channels, Extent::Channels)?;
        Mat::create(3, width, height, 1, channels, alloc, None)
    }

    /// Constructs a tensor of four dimensions, every byte zero.
    pub fn new_4d(
        width: u32,
        height: u32,
        channels: u32,
        depth: u32,
        alloc: Option<&Allocator>,
    ) -> (r: Result<Self, MatError>)
        ensures
            made(r) == spec_new_4d(width, height, channels, depth, named(alloc)),
            r matches Ok(m) ==> m.wf(),
    {
        let _ = cast_into_i32(width, Extent::Width)?;
        let _ = cast_into_i32(height, Extent::Height)?;
        let _ = cast_into_i32(channels, Extent::Channels)?;
        let _ = cast_into_i32(depth, Extent::Depth)?;
        Mat::create(4, width, height, depth, channels, alloc, None)
    }
    /// Constructs a tensor of one dimension over the caller's buffer.
    ///
    /// The caller sees to it that the buffer holds the tensor.
    pub fn new_external_1d(width: u32, data: Vec<u8>, alloc: Option<&Allocator>) -> (r: Result<
        Self,
        MatError,
    >)
        requires
            holds(spec_new_1d(width, named(alloc)), data@),
        ensures
            made(r) == spec_external(spec_new_1d(width, named(alloc)), data@),
            r matches Ok(m) ==> m.wf(),
    {
        let _ = cast_into_i32(width, Extent::Width)?;
        Mat::create(1, width, 1, 1, 1, alloc, Some(data))
    }

    /// Constructs a tensor of two dimensions over the caller's buffer.
    ///
    /// The caller sees to it that the buffer holds the tensor.
    pub fn new_external_2d(
        width: u32,
        height: u32,
        data: Vec<u8>,
        alloc: Option<&Allocator>,
    ) -> (r: Result<Self, MatError>)
        requires
            holds(spec_new_2d(width, height, named(alloc)), data@),
        ensures
            made(r) == spec_external(spec_new_2d(width, height, named(alloc)), data@),
            r matches Ok(m) ==> m.wf(),
    {
        let _ = cast_into_i32(width, Extent::Width)?;
        let _ = cast_into_i32(height, Extent::Height)?;
        Mat::create(2, width, height, 1, 1, alloc, Some(data))
    }

    /// Constructs a tensor of three dimensions over the caller's buffer.
    ///
    /// The caller sees to it that the buffer holds the tensor.
    pub fn new_external_3d(
        width: u32,
        height: u32,
        channels: u32,
        data: Vec<u8>,
        alloc: Option<&Allocator>,
    ) -> (r: Result<Self, MatError>)
        requires
            holds(spec_new_3d(width, height, channels, named(alloc)), data@),
        ensures
            made(r) == spec_external(spec_new_3d(width, height, channels, named(alloc)), data@),
            r matches Ok(m) ==> m.wf(),
    {
        let _ = cast_into_i32(width, Extent::Width)?;
        let _ = cast_into_i32(height, Extent::Height)?;
        let _ = cast_into_i32(channels, Extent::Channels)?;
        Mat::create(3, width, height, 1, channels, alloc, Some(data))
    }

    /// Constructs a tensor of four dimensions over the caller's buffer.
    ///
    /// The caller sees to it that the buffer holds the tensor.
    pub fn new_external_4d(
        width: u32,
        height: u32,
        depth: u32,
        channels: u32,
        data: Vec<u8>,
        alloc: Option<&Allocator>,
    ) -> (r: Result<Self, MatError>)
        requires
            holds(spec_new_4d(width, height, channels, depth, named(alloc)), data@),
        ensures
            made(r) == spec_external(
                spec_new_4d(width, height, channels, depth, named(alloc)),
                data@,
            ),
            r matches Ok(m) ==> m.wf(),
    {
        let _ = cast_into_i32(width, Extent::Width)?;
        let _ = cast_into_i32(height, Extent::Height)?;
        let _ = cast_into_i32(channels, Extent::Channels)?;
        let _ = cast_into_i32(depth, Extent::Depth)?;
        Mat::create(4, width, height, depth, channels, alloc, Some(data))
    }
    /// Checks an interleaved pixel buffer against the image size and makes
    /// the planar tensor that receives the decoded image: `width` by `height`
    /// elements in as many channels as the target layout has, every byte
    /// zero. Converting the samples is the pixel decoder's part; it stores
    /// them with `store`.
    pub fn from_pixels(
        data: &[u8],
        pixel_type: PixelType,
        width: u32,
        height: u32,
        alloc: Option<&Allocator>,
    ) -> (r: Result<Self, MatError>)
        ensures
            made(r) == spec_from_pixels(data@.len(), pixel_type, width, height, named(alloc)),
            r matches Ok(m) ==> m.wf(),
    {
        let _ = cast_into_i32(width, Extent::Width)?;
        let _ = cast_into_i32(height, Extent::Height)?;
        let len: u64 = Mat::pixel_len(pixel_type, width, height);
        if (data.len() as u64) < len {
            return Err(MatError::DataTooShort { expected: len, provided: data.len() as u64 });
        }
        Mat::create(3, width, height, 1, pixel_type.channels() as u32, alloc, None)
    }

    /// As `from_pixels`, for an image that the decoder resamples to
    /// `target_width` by `target_height` while it decodes.
    pub fn from_pixels_resize(
        data: &[u8],
        pixel_type: PixelType,
        width: u32,
        height: u32,
        target_width: u32,
        target_height: u32,
        alloc: Option<&Allocator>,
    ) -> (r: Result<Self, MatError>)
        ensures
            made(r) == spec_from_pixels_resize(
                data@.len(),
                pixel_type,
                width,
                height,
                target_width,
                target_height,
                named(alloc),
            ),
            r matches Ok(m) ==> m.wf(),
    {
        let _ = cast_into_i32(width, Extent::Width)?;
        let _ = cast_into_i32(height, Extent::Height)?;
        let _ = cast_into_i32(target_width, Extent::TargetWidth)?;
        let _ = cast_into_i32(target_height, Extent::TargetHeight)?;
        let len: u64 = Mat::pixel_len(pixel_type, width, height);
        if (data.len() as u64) < len {
            return Err(MatError::DataTooShort { expected: len, provided: data.len() as u64 });
        }
        Mat::create(3, target_width, target_height, 1, pixel_type.channels() as u32, alloc, None)
    }

    /// Bytes of an image of a valid size.
    fn pixel_len(pixel_type: PixelType, width: u32, height: u32) -> (len: u64)
        requires
            width <= MAX_DIMENSION,
            height <= MAX_DIMENSION,
        ensures
            len == pixel_bytes(pixel_type, width, height),
    {
        let stride: u64 = pixel_type.stride() as u64;
        proof {
            lemma_product_bound(width as int, 0x7fff_ffff, height as int, 0x7fff_ffff);
            lemma_product_bound(
                width as int * height as int,
                0x7fff_ffffint * 0x7fff_ffffint,
                stride as int,
                4,
            );
        }
        (width as u64) * (height as u64) * stride
    }

    /// Checks the per-channel coefficient arrays of a mean subtraction and
    /// normalization, given by their lengths, against the channel count. An
    /// array that is left out is not checked.
    pub fn check_coefficients(&self, mean_len: Option<usize>, norm_len: Option<usize>) -> (r:
        Result<(), MatError>)
        ensures
            r == spec_check_coefficients(self@.channels, mean_len, norm_len),
    {
        let channels: u64 = self.c as u64;
        if let Some(n) = mean_len {
            if (n as u64) < channels {
                return Err(MatError::DataTooShort { expected: channels, provided: n as u64 });
            }
        }
        if let Some(n) = norm_len {
            if (n as u64) < channels {
                return Err(MatError::DataTooShort { expected: channels, provided: n as u64 });
            }
        }
        Ok(())
    }

    /// Bytes that the elements take.
    fn byte_len(&self) -> (len: usize)
        requires
            self.wf(),
        ensures
            len == self@.total_bytes(),
    {
        proof {
            lemma_product_bound(self.cstep as int, 0xffff_ffff, self.c as int, 0xffff_ffff);
            lemma_product_bound(
                self.cstep as int * self.c as int,
                0xffff_ffffint * 0xffff_ffffint,
                self.elemsize as int,
                0xffff_ffff,
            );
        }
        let len: u128 = (self.cstep as u128) * (self.c as u128) * (self.elemsize as u128);
        let capacity: usize = self.data.len();
        assert(len == self@.total_bytes());
        assert(len <= capacity);
        len as usize
    }

    /// Overwrites every element: each 32-bit scalar slot takes the pattern
    /// `bits`, least significant byte first.
    pub fn fill(&mut self, bits: u32)
        requires
            old(self).wf(),
        ensures
            final(self)@ == (MatView { data: filled(old(self)@, bits), ..old(self)@ }),
            final(self).wf(),
    {
        let total: usize = self.byte_len();
        let pattern: Vec<u8> = u32_to_le_bytes(bits);
        proof {
            lemma_auto_spec_u32_to_from_le_bytes();
        }
        let mut i: usize = 0;
        while i < total
            invariant
                i <= total,
                total == old(self)@.total_bytes(),
                total <= self.data@.len(),
                pattern@ == spec_u32_to_le_bytes(bits),
                pattern@.len() == 4,
                self@.same_shape(old(self)@),
                self@.external == old(self)@.external,
                self@.allocator == old(self)@.allocator,
                self.data@.len() == old(self).data@.len(),
                forall|j: int| 0 <= j < i ==> self.data@[j] == pattern@[j % 4],
                forall|j: int| i <= j < self.data@.len() ==> self.data@[j] == old(self).data@[j],
            decreases total - i,
        {
            let byte: u8 = pattern[i % 4];
            self.data.set(i, byte);
            i = i + 1;
        }
        assert(self@.data =~= filled(old(self)@, bits));
    }

    /// Stores `bytes` over the elements. `bytes` holds at least as many bytes
    /// as the elements take; what it holds beyond them is not read.
    pub fn store(&mut self, bytes: &[u8]) -> (r: Result<(), MatError>)
        requires
            old(self).wf(),
        ensures
            bytes@.len() >= old(self)@.total_bytes() ==> r is Ok && final(self)@ == (MatView {
                data: stored(old(self)@, bytes@),
                ..old(self)@
            }),
            bytes@.len() < old(self)@.total_bytes() ==> r == Err::<(), MatError>(
                MatError::DataTooShort {
                    expected: old(self)@.total_bytes() as u64,
                    provided: bytes@.len() as u64,
                },
            ) && *final(self) == *old(self),
            final(self).wf(),
    {
        let total: usize = self.byte_len();
        if bytes.len() < total {
            return Err(MatError::DataTooShort { expected: total as u64, provided: bytes.len() as u64 });
        }
        let mut i: usize = 0;
        while i < total
            invariant
                i <= total,
                total == old(self)@.total_bytes(),
                total <= self.data@.len(),
                total <= bytes@.len(),
                self@.same_shape(old(self)@),
                self@.external == old(self)@.external,
                self@.allocator == old(self)@.allocator,
                self.data@.len() == old(self).data@.len(),
                forall|j: int| 0 <= j < i ==> self.data@[j] == bytes@[j],
                forall|j: int| i <= j < self.data@.len() ==> self.data@[j] == old(self).data@[j],
            decreases total - i,
        {
            let byte: u8 = bytes[i];
            self.data.set(i, byte);
            i = i + 1;
        }
        assert(self@.data =~= stored(old(self)@, bytes@));
        Ok(())
    }

    /// Number of dimensions, 0 to 4.
    pub fn dimensions(&self) -> (n: u32)
        ensures
            n == self@.dims,
    {
        self.dims
    }

    /// Elements in a row.
    pub fn width(&self) -> (n: u32)
        ensures
            n == self@.width,
    {
        self.w
    }

    /// Rows in a slice.
    pub fn height(&self) -> (n: u32)
        ensures
            n == self@.height,
    {
        self.h
    }

    /// Slices in a channel.
    pub fn depth(&self) -> (n: u32)
        ensures
            n == self@.depth,
    {
        self.d
    }

    /// Channel planes.
    pub fn channels(&self) -> (n: u32)
        ensures
            n == self@.channels,
    {
        self.c
    }

    /// Bytes of one element.
    pub fn element_size(&self) -> (n: u32)
        ensures
            n == self@.element_size,
    {
        self.elemsize
    }

    /// Scalars bundled in one element.
    pub fn element_packing(&self) -> (n: u32)
        ensures
            n == self@.element_packing,
    {
        self.elempack
    }

    /// Elements between the starts of two successive channel planes.
    pub fn channel_step(&self) -> (n: u32)
        ensures
            n == self@.channel_step,
    {
        self.cstep
    }

    /// The bytes of the buffer.
    pub fn data(&self) -> (bytes: &[u8])
        ensures
            bytes@ == self@.data,
    {
        self.data.as_slice()
    }

    /// Takes the tensor apart and hands out its buffer. This is how a caller
    /// gets back the buffer that it supplied.
    pub fn into_data(self) -> (data: Vec<u8>)
        ensures
            data@ == self@.data,
    {
        self.data
    }

    /// Gives the tensor up: a buffer that was allocated goes back to the
    /// allocator that the tensor names. A buffer that the caller supplied is
    /// not the tensor's to release; it is dropped with the tensor unless the
    /// caller took it back with `into_data` before.
    pub fn release(self) {
        let Mat { data, external, allocator, .. } = self;
        if !external {
            match allocator {
                Some(a) => a.release(data),
                None => Allocator::new().release(data),
            }
        }
    }

    /// Whether the buffer was supplied by the caller.
    pub fn is_external(&self) -> (external: bool)
        ensures
            external == self@.external,
    {
        self.external
    }

    /// The allocator that the tensor was made with, where one was named.
    pub fn allocator(&self) -> (allocator: Option<Allocator>)
        ensures
            allocator == self@.allocator,
    {
        self.allocator
    }
}

impl Default for Mat {
    fn default() -> (m: Self)
        ensures
            m@ == MatView::empty(),
            m.wf(),
    {
        Mat::new()
    }
}

impl Clone for Mat {
    /// A tensor of the same shape over a copy of the buffer.
    fn clone(&self) -> (m: Self)
        ensures
            m@ == self@,
    {
        let data: Vec<u8> = self.data.clone();
        assert(data@ =~= self.data@);
        Mat {
            dims: self.dims,
            w: self.w,
            h: self.h,
            d: self.d,
            c: self.c,
            elemsize: self.elemsize,
            elempack: self.elempack,
            cstep: self.cstep,
            data,
            external: self.external,
            allocator: self.allocator,
        }
    }
}

/// A larger plane never has a smaller channel step.
pub proof fn lemma_channel_step_monotone(dims: nat, plane: nat, larger: nat, element_size: nat)
    requires
        plane <= larger,
    ensures
        channel_step_of(dims, plane, element_size) <= channel_step_of(dims, larger, element_size),
{
    if dims > 2 && element_size != 0 {
        let es = element_size as int;
        assert(plane * es <= larger * es) by (nonlinear_arith)
            requires
                plane <= larger,
                es > 0,
        ;
        lemma_div_is_ordered(plane * es + 15, larger * es + 15, 16);
        lemma_div_is_ordered(
            (plane * es + 15) / 16 * 16,
            (larger * es + 15) / 16 * 16,
            es,
        );
    }
}

/// A shape that fits still fits when its extents shrink.
pub proof fn lemma_layout_fits_smaller(
    dims: nat,
    width: nat,
    height: nat,
    depth: nat,
    channels: nat,
    less_width: nat,
    less_height: nat,
    less_depth: nat,
    less_channels: nat,
    element_size: nat,
)
    requires
        layout_fits(dims, width, height, depth, channels, element_size),
        less_width <= width,
        less_height <= height,
        less_depth <= depth,
        less_channels <= channels,
    ensures
        layout_fits(dims, less_width, less_height, less_depth, less_channels, element_size),
{
    let plane = width * height * depth;
    let less_plane = less_width * less_height * less_depth;
    assert(less_plane <= plane) by (nonlinear_arith)
        requires
            less_width <= width,
            less_height <= height,
            less_depth <= depth,
            plane == width * height * depth,
            less_plane == less_width * less_height * less_depth,
    ;
    lemma_channel_step_monotone(dims, less_plane, plane, element_size);
    let step = channel_step_of(dims, plane, element_size);
    let less_step = channel_step_of(dims, less_plane, element_size);
    assert(less_step * less_channels * element_size <= step * channels * element_size)
        by (nonlinear_arith)
        requires
            less_step <= step,
            less_channels <= channels,
    ;
}

/// Every shape of three dimensions whose sizes are valid and whose layout
/// fits is made by `Mat::new_3d` with the width, height and channel count
/// asked for and with a channel step that covers a plane.
pub proof fn lemma_new_3d_shape(
    width: u32,
    height: u32,
    channels: u32,
    allocator: Option<Allocator>,
)
    requires
        width <= MAX_DIMENSION,
        height <= MAX_DIMENSION,
        channels <= MAX_DIMENSION,
        layout_fits(
            3,
            width as nat,
            height as nat,
            1,
            channels as nat,
            DEFAULT_ELEMENT_SIZE as nat,
        ),
    ensures
        spec_new_3d(width, height, channels, allocator) matches Ok(v) && v.wf() && v.dims == 3
            && v.width == width && v.height == height && v.depth == 1 && v.channels == channels
            && v.channel_step >= width * height,
{
    lemma_fresh_wf(
        3,
        width as nat,
        height as nat,
        1,
        channels as nat,
        DEFAULT_ELEMENT_SIZE as nat,
        1,
        allocator,
    );
}

/// A pixel buffer shorter than the image is refused whatever else is asked
/// for; a buffer of exactly the image's length is decoded into a tensor with
/// the channel count of the target layout, for every image whose sizes are
/// valid and whose tensor can be represented.
pub proof fn lemma_from_pixels_length(
    len: nat,
    pixel_type: PixelType,
    width: u32,
    height: u32,
    allocator: Option<Allocator>,
)
    ensures
        len < pixel_bytes(pixel_type, width, height) ==> spec_from_pixels(
            len,
            pixel_type,
            width,
            height,
            allocator,
        ) is Err,
        len == pixel_bytes(pixel_type, width, height) && width <= MAX_DIMENSION && height
            <= MAX_DIMENSION && layout_fits(
            3,
            width as nat,
            height as nat,
            1,
            pixel_type.spec_channels() as nat,
            DEFAULT_ELEMENT_SIZE as nat,
        ) ==> (spec_from_pixels(len, pixel_type, width, height, allocator) matches Ok(v) && v.wf()
            && v.channels == pixel_type.spec_channels() && v.width == width && v.height
            == height),
{
    if width <= MAX_DIMENSION && height <= MAX_DIMENSION && layout_fits(
        3,
        width as nat,
        height as nat,
        1,
        pixel_type.spec_channels() as nat,
        DEFAULT_ELEMENT_SIZE as nat,
    ) {
        lemma_fresh_wf(
            3,
            width as nat,
            height as nat,
            1,
            pixel_type.spec_channels() as nat,
            DEFAULT_ELEMENT_SIZE as nat,
            1,
            allocator,
        );
    }
}

} // verus!
