//! Padding a tensor with a border and cropping a border away.
//!
//! Both are one operation: the result is a window laid over the source. A
//! window that reaches beyond the source adds a border, whose elements the
//! edge policy chooses; a window inside the source crops.

use vstd::arithmetic::div_mod::lemma_fundamental_div_mod_converse;
use vstd::bytes::{lemma_auto_spec_u32_to_from_le_bytes, spec_u32_to_le_bytes, u32_to_le_bytes};
use vstd::prelude::*;

use crate::allocator::Allocator;
use crate::error::{Extent, MatError};
use crate::mat::{
    cast_into_i32, channel_step_of, layout, layout_fits, lemma_channel_step_covers_plane, lemma_layout_fits_smaller,
    lemma_offset_in_bounds, lemma_product_bound, made, Mat, MatView, MAX_DIMENSION,
};
use crate::pixel::BorderType;

verus! {

/// The place of a result over its source: for each axis the number of
/// elements by which the result starts before the source (negative where it
/// starts inside) and the extent of the result.
pub struct Window {
    pub left: int,
    pub top: int,
    pub front: int,
    pub first: int,
    pub width: nat,
    pub height: nat,
    pub depth: nat,
    pub channels: nat,
}

impl Window {
    /// Elements of one channel plane of the result.
    pub open spec fn plane(self) -> nat {
        self.width * self.height * self.depth
    }
}

/// The index in `0..n` that mirrors `s` about the ends of the range, the end
/// elements not repeated: the indices run 0, 1, .., n-1, n-2, .., 1, 0, 1, ..
/// in both directions.
pub open spec fn reflect(s: int, n: int) -> int {
    if n <= 1 {
        0
    } else {
        let period = 2 * (n - 1);
        let m = (if s < 0 {
            -s
        } else {
            s
        }) % period;
        if m < n {
            m
        } else {
            period - m
        }
    }
}

/// The source index along one axis from which index `t` of the result takes
/// its element, for a result that starts `lo` before a source of `n`
/// elements; `None` where the element is filled in.
pub open spec fn source_index(policy: BorderType, t: int, lo: int, n: int) -> Option<int> {
    let s = t - lo;
    if 0 <= s < n {
        Some(s)
    } else if n <= 0 {
        None
    } else {
        match policy {
            BorderType::Constant | BorderType::Transparent => None,
            BorderType::Replicate => Some(
                if s < 0 {
                    0
                } else {
                    n - 1
                },
            ),
            BorderType::Reflect => Some(reflect(s, n)),
        }
    }
}

/// Byte `k` of an element that no source element stands behind: the fill
/// pattern under the constant policy, zero otherwise.
pub open spec fn fill_byte(policy: BorderType, bits: u32, k: int) -> u8 {
    if policy == BorderType::Constant {
        spec_u32_to_le_bytes(bits)[k % 4]
    } else {
        0u8
    }
}

/// Byte `k` of element `j` of channel plane `q` of the result. Elements
/// behind the plane, which pad it to the channel step, are zero.
pub open spec fn element_byte(
    v: MatView,
    win: Window,
    policy: BorderType,
    bits: u32,
    q: int,
    j: int,
    k: int,
) -> u8 {
    if j >= win.plane() {
        0u8
    } else {
        let x = j % (win.width as int);
        let y = (j / (win.width as int)) % (win.height as int);
        let z = j / ((win.width * win.height) as int);
        match (
            source_index(policy, x, win.left, v.width as int),
            source_index(policy, y, win.top, v.height as int),
            source_index(policy, z, win.front, v.depth as int),
            source_index(policy, q, win.first, v.channels as int),
        ) {
            (Some(sx), Some(sy), Some(sz), Some(sq)) => v.data[v.offset(sx, sy, sz, sq, k)],
            _ => fill_byte(policy, bits, k),
        }
    }
}

/// Byte `i` of the result's buffer, whose planes start `step` elements apart.
pub open spec fn window_byte(
    v: MatView,
    win: Window,
    step: nat,
    policy: BorderType,
    bits: u32,
    i: int,
) -> u8 {
    let element = i / (v.element_size as int);
    element_byte(
        v,
        win,
        policy,
        bits,
        element / (step as int),
        element % (step as int),
        i % (v.element_size as int),
    )
}

/// The tensor that a window over `v` gives: newly allocated, with the
/// dimensions and element layout of `v` and the extents of the window.
pub open spec fn windowed(v: MatView, win: Window, policy: BorderType, bits: u32) -> MatView {
    let step = channel_step_of(v.dims, win.plane(), v.element_size);
    MatView {
        dims: v.dims,
        width: win.width,
        height: win.height,
        depth: win.depth,
        channels: win.channels,
        element_size: v.element_size,
        element_packing: v.element_packing,
        channel_step: step,
        data: Seq::new(
            step * win.channels * v.element_size,
            |i: int| window_byte(v, win, step, policy, bits, i),
        ),
        external: false,
        allocator: v.allocator,
    }
}

/// The window that adds margins to `v`. A margin applies to an axis that the
/// tensor has: left and right to the width, top and bottom to the height of
/// a tensor of two or more dimensions, front and behind to the channels of a
/// tensor of three dimensions and to the depth of one of four.
pub open spec fn grown(
    v: MatView,
    top: u32,
    bottom: u32,
    left: u32,
    right: u32,
    front: u32,
    behind: u32,
) -> Window {
    Window {
        left: left as int,
        top: if v.dims >= 2 {
            top as int
        } else {
            0
        },
        front: if v.dims == 4 {
            front as int
        } else {
            0
        },
        first: if v.dims == 3 {
            front as int
        } else {
            0
        },
        width: (v.width + left + right) as nat,
        height: if v.dims >= 2 {
            (v.height + top + bottom) as nat
        } else {
            v.height
        },
        depth: if v.dims == 4 {
            (v.depth + front + behind) as nat
        } else {
            v.depth
        },
        channels: if v.dims == 3 {
            (v.channels + front + behind) as nat
        } else {
            v.channels
        },
    }
}

/// Whether the margins can be cut from `v`: on no axis do they exceed the
/// extent.
pub open spec fn can_shrink(
    v: MatView,
    top: u32,
    bottom: u32,
    left: u32,
    right: u32,
    front: u32,
    behind: u32,
) -> bool {
    &&& left + right <= v.width
    &&& v.dims >= 2 ==> top + bottom <= v.height
    &&& v.dims == 3 ==> front + behind <= v.channels
    &&& v.dims == 4 ==> front + behind <= v.depth
}

/// The window that cuts margins from `v`, axis by axis as in `grown`.
pub open spec fn shrunk(
    v: MatView,
    top: u32,
    bottom: u32,
    left: u32,
    right: u32,
    front: u32,
    behind: u32,
) -> Window {
    Window {
        left: -(left as int),
        top: if v.dims >= 2 {
            -(top as int)
        } else {
            0
        },
        front: if v.dims == 4 {
            -(front as int)
        } else {
            0
        },
        first: if v.dims == 3 {
            -(front as int)
        } else {
            0
        },
        width: (v.width - left - right) as nat,
        height: if v.dims >= 2 {
            (v.height - top - bottom) as nat
        } else {
            v.height
        },
        depth: if v.dims == 4 {
            (v.depth - front - behind) as nat
        } else {
            v.depth
        },
        channels: if v.dims == 3 {
            (v.channels - front - behind) as nat
        } else {
            v.channels
        },
    }
}

/// The first margin that is not a valid size, in the order in which the
/// operations take them.
pub open spec fn invalid_margin(
    top: u32,
    bottom: u32,
    left: u32,
    right: u32,
    front: u32,
    behind: u32,
) -> Option<Extent> {
    if top > MAX_DIMENSION {
        Some(Extent::Top)
    } else if bottom > MAX_DIMENSION {
        Some(Extent::Bottom)
    } else if left > MAX_DIMENSION {
        Some(Extent::Left)
    } else if right > MAX_DIMENSION {
        Some(Extent::Right)
    } else if front > MAX_DIMENSION {
        Some(Extent::Front)
    } else if behind > MAX_DIMENSION {
        Some(Extent::Behind)
    } else {
        None
    }
}

/// Whether a window over `v` makes a tensor that can be represented.
pub open spec fn window_fits(v: MatView, win: Window) -> bool {
    &&& win.width <= MAX_DIMENSION
    &&& win.height <= MAX_DIMENSION
    &&& win.depth <= MAX_DIMENSION
    &&& win.channels <= MAX_DIMENSION
    &&& layout_fits(v.dims, win.width, win.height, win.depth, win.channels, v.element_size)
}

/// What adding a border to `v` gives. The tensor without dimensions stays
/// as it is.
pub open spec fn spec_make_border(
    v: MatView,
    top: u32,
    bottom: u32,
    left: u32,
    right: u32,
    front: u32,
    behind: u32,
    policy: BorderType,
    bits: u32,
) -> Result<MatView, MatError> {
    if let Some(extent) = invalid_margin(top, bottom, left, right, front, behind) {
        Err(MatError::InvalidSize(extent))
    } else if v.dims == 0 {
        Ok(MatView::empty())
    } else if !window_fits(v, grown(v, top, bottom, left, right, front, behind)) {
        Err(MatError::SizeOverflow)
    } else {
        Ok(windowed(v, grown(v, top, bottom, left, right, front, behind), policy, bits))
    }
}

/// What cutting a border from `v` gives. The tensor without dimensions stays
/// as it is.
pub open spec fn spec_cut_border(
    v: MatView,
    top: u32,
    bottom: u32,
    left: u32,
    right: u32,
    front: u32,
    behind: u32,
) -> Result<MatView, MatError> {
    if let Some(extent) = invalid_margin(top, bottom, left, right, front, behind) {
        Err(MatError::InvalidSize(extent))
    } else if v.dims == 0 {
        Ok(MatView::empty())
    } else if !can_shrink(v, top, bottom, left, right, front, behind) {
        Err(MatError::BorderTooLarge)
    } else if !window_fits(v, shrunk(v, top, bottom, left, right, front, behind)) {
        Err(MatError::SizeOverflow)
    } else {
        Ok(
            windowed(
                v,
                shrunk(v, top, bottom, left, right, front, behind),
                BorderType::Constant,
                0,
            ),
        )
    }
}

/// From where an element of the result is taken.
enum Pick {
    /// From the source element whose first byte lies at this offset.
    Copy(usize),
    /// From the fill pattern.
    Fill,
    /// From nowhere: the element pads a plane.
    Pad,
}

/// The source index along one axis, computed.
fn source_coord(policy: BorderType, t: u32, lo: i64, n: u32) -> (r: Option<u32>)
    requires
        t <= MAX_DIMENSION,
        n <= MAX_DIMENSION,
        -(MAX_DIMENSION as int) <= lo <= MAX_DIMENSION,
    ensures
        match r {
            Some(s) => source_index(policy, t as int, lo as int, n as int) == Some(s as int) && s
                < n,
            None => source_index(policy, t as int, lo as int, n as int) is None,
        },
{
    let s: i64 = t as i64 - lo;
    if 0 <= s && s < n as i64 {
        return Some(s as u32);
    }
    if n == 0 {
        return None;
    }
    match policy {
        BorderType::Constant | BorderType::Transparent => None,
        BorderType::Replicate => if s < 0 {
            Some(0)
        } else {
            Some(n - 1)
        },
        BorderType::Reflect => {
            if n == 1 {
                Some(0)
            } else {
                let period: i64 = 2 * (n as i64 - 1);
                let a: i64 = if s < 0 {
                    -s
                } else {
                    s
                };
                let m: i64 = a % period;
                if m < n as i64 {
                    Some(m as u32)
                } else {
                    Some((period - m) as u32)
                }
            }
        },
    }
}

/// The bytes of element `j` of plane `q` are the bytes `(q * step + j) *
/// element_size ..` of the buffer.
proof fn lemma_window_byte(
    v: MatView,
    win: Window,
    step: nat,
    policy: BorderType,
    bits: u32,
    q: int,
    j: int,
    k: int,
)
    requires
        v.element_size >= 1,
        0 <= q,
        0 <= j < step,
        0 <= k < v.element_size,
    ensures
        window_byte(v, win, step, policy, bits, (q * step + j) * v.element_size + k)
            == element_byte(v, win, policy, bits, q, j, k),
{
    let es = v.element_size as int;
    let element = q * step + j;
    let i = element * es + k;
    lemma_fundamental_div_mod_converse(i, es, element, k);
    lemma_fundamental_div_mod_converse(element, step as int, q, j);
}

/// Byte `k` of element `j` of plane `q` lies in a buffer of `channels`
/// planes.
proof fn lemma_index_in_buffer(q: int, channels: int, j: int, step: int, k: int, es: int)
    requires
        0 <= q < channels,
        0 <= j < step,
        0 <= k < es,
    ensures
        0 <= (q * step + j) * es + k < step * channels * es,
{
    let element = q * step + j;
    assert(0 <= element <= channels * step - 1) by (nonlinear_arith)
        requires
            0 <= q <= channels - 1,
            0 <= j <= step - 1,
            element == q * step + j,
    ;
    assert(0 <= element * es + k <= channels * step * es - 1) by (nonlinear_arith)
        requires
            0 <= element <= channels * step - 1,
            0 <= k <= es - 1,
    ;
    assert(channels * step * es == step * channels * es) by (nonlinear_arith);
}

/// Lays a window over `src`: allocates the result and fills it byte by byte.
fn gather(
    src: &Mat,
    left: i64,
    top: i64,
    front: i64,
    first: i64,
    width: u32,
    height: u32,
    depth: u32,
    channels: u32,
    policy: BorderType,
    bits: u32,
) -> (r: Result<Mat, MatError>)
    requires
        src.wf(),
        src@.dims >= 1,
        -(MAX_DIMENSION as int) <= left <= MAX_DIMENSION,
        -(MAX_DIMENSION as int) <= top <= MAX_DIMENSION,
        -(MAX_DIMENSION as int) <= front <= MAX_DIMENSION,
        -(MAX_DIMENSION as int) <= first <= MAX_DIMENSION,
        width <= MAX_DIMENSION,
        height <= MAX_DIMENSION,
        depth <= MAX_DIMENSION,
        channels <= MAX_DIMENSION,
        src@.dims == 1 ==> height == 1,
        src@.dims <= 3 ==> depth == 1,
        src@.dims <= 2 ==> channels == 1,
    ensures
        ({
            let win = Window {
                left: left as int,
                top: top as int,
                front: front as int,
                first: first as int,
                width: width as nat,
                height: height as nat,
                depth: depth as nat,
                channels: channels as nat,
            };
            made(r) == (if window_fits(src@, win) {
                Ok::<MatView, MatError>(windowed(src@, win, policy, bits))
            } else {
                Err::<MatView, MatError>(MatError::SizeOverflow)
            })
        }),
        r matches Ok(m) ==> m.wf(),
{
    let ghost v = src@;
    let ghost win = Window {
        left: left as int,
        top: top as int,
        front: front as int,
        first: first as int,
        width: width as nat,
        height: height as nat,
        depth: depth as nat,
        channels: channels as nat,
    };
    let dims: u32 = src.dimensions();
    let es: u32 = src.element_size();
    let (step, bytes): (u32, usize) = match layout(dims, width, height, depth, channels, es) {
        None => {
            return Err(MatError::SizeOverflow);
        },
        Some(pair) => pair,
    };
    proof {
        lemma_channel_step_covers_plane(dims as nat, win.plane(), es as nat);
        lemma_product_bound(width as int, 0x7fff_ffff, height as int, 0x7fff_ffff);
        lemma_auto_spec_u32_to_from_le_bytes();
    }
    let slice: u64 = (width as u64) * (height as u64);
    assert(win.plane() == slice * depth);
    assert(slice * depth <= u32::MAX);
    let plane: u64 = slice * (depth as u64);
    let pattern: Vec<u8> = u32_to_le_bytes(bits);
    let source: &[u8] = src.data();
    let source_len: usize = source.len();
    let src_w: u32 = src.width();
    let src_h: u32 = src.height();
    let src_d: u32 = src.depth();
    let src_c: u32 = src.channels();
    let src_step: u32 = src.channel_step();
    let allocator: Option<Allocator> = src.allocator();
    let mut out: Vec<u8> = match allocator {
        Some(a) => a.allocate(bytes),
        None => Allocator::new().allocate(bytes),
    };
    let mut at: usize = 0;
    let mut q: u32 = 0;
    while q < channels
        invariant
            q <= channels,
            v == src@,
            v.wf(),
            v.dims >= 1,
            source@ == v.data,
            source_len == source@.len(),
            src_w == v.width,
            src_h == v.height,
            src_d == v.depth,
            src_c == v.channels,
            src_step == v.channel_step,
            es == v.element_size,
            win == (Window {
                left: left as int,
                top: top as int,
                front: front as int,
                first: first as int,
                width: width as nat,
                height: height as nat,
                depth: depth as nat,
                channels: channels as nat,
            }),
            -(MAX_DIMENSION as int) <= left <= MAX_DIMENSION,
            -(MAX_DIMENSION as int) <= top <= MAX_DIMENSION,
            -(MAX_DIMENSION as int) <= front <= MAX_DIMENSION,
            -(MAX_DIMENSION as int) <= first <= MAX_DIMENSION,
            width <= MAX_DIMENSION,
            height <= MAX_DIMENSION,
            depth <= MAX_DIMENSION,
            channels <= MAX_DIMENSION,
            slice == width * height,
            plane == win.plane(),
            plane <= step,
            pattern@ == spec_u32_to_le_bytes(bits),
            pattern@.len() == 4,
            out@.len() == bytes,
            bytes == step * channels * es,
            at == q * step * es,
            forall|i: int|
                0 <= i < at ==> out@[i] == window_byte(v, win, step as nat, policy, bits, i),
        decreases channels - q,
    {
        let sq: Option<u32> = source_coord(policy, q, first, src_c);
        let mut j: u32 = 0;
        while j < step
            invariant
                q < channels,
                j <= step,
                v == src@,
                v.wf(),
                v.dims >= 1,
                source@ == v.data,
                source_len == source@.len(),
                src_w == v.width,
                src_h == v.height,
                src_d == v.depth,
                src_c == v.channels,
                src_step == v.channel_step,
                es == v.element_size,
                win == (Window {
                    left: left as int,
                    top: top as int,
                    front: front as int,
                    first: first as int,
                    width: width as nat,
                    height: height as nat,
                    depth: depth as nat,
                    channels: channels as nat,
                }),
                -(MAX_DIMENSION as int) <= left <= MAX_DIMENSION,
                -(MAX_DIMENSION as int) <= top <= MAX_DIMENSION,
                -(MAX_DIMENSION as int) <= front <= MAX_DIMENSION,
                width <= MAX_DIMENSION,
                height <= MAX_DIMENSION,
                depth <= MAX_DIMENSION,
                slice == width * height,
                plane == win.plane(),
                plane <= step,
                pattern@ == spec_u32_to_le_bytes(bits),
                pattern@.len() == 4,
                match sq {
                    Some(s) => source_index(policy, q as int, first as int, v.channels as int)
                        == Some(s as int) && s < v.channels,
                    None => source_index(policy, q as int, first as int, v.channels as int)
                        is None,
                },
                out@.len() == bytes,
                bytes == step * channels * es,
                at == (q * step + j) * es,
                forall|i: int|
                    0 <= i < at ==> out@[i] == window_byte(v, win, step as nat, policy, bits, i),
            decreases step - j,
        {
            let mut pick: Pick = Pick::Pad;
            if (j as u64) < plane {
                assert(width > 0 && height > 0 && depth > 0) by (nonlinear_arith)
                    requires
                        (j as int) < width * height * depth,
                        j >= 0,
                ;
                let x: u32 = (j as u64 % width as u64) as u32;
                let y: u32 = ((j as u64 / width as u64) % height as u64) as u32;
                assert(slice > 0) by (nonlinear_arith)
                    requires
                        slice == width * height,
                        width > 0,
                        height > 0,
                ;
                let z: u32 = (j as u64 / slice) as u32;
                pick = Pick::Fill;
                let sx: Option<u32> = source_coord(policy, x, left, src_w);
                let sy: Option<u32> = source_coord(policy, y, top, src_h);
                assert(z <= MAX_DIMENSION) by (nonlinear_arith)
                    requires
                        z == (j as int) / (slice as int),
                        slice > 0,
                        j <= 0xffff_ffff,
                        (j as int) < slice * depth,
                        depth <= MAX_DIMENSION,
                ;
                let sz: Option<u32> = source_coord(policy, z, front, src_d);
                if let (Some(sx), Some(sy), Some(sz), Some(sq)) = (sx, sy, sz, sq) {
                    proof {
                        lemma_offset_in_bounds(
                            v,
                            sx as int,
                            sy as int,
                            sz as int,
                            sq as int,
                            0,
                        );
                        lemma_product_bound(
                            sq as int,
                            0xffff_ffff,
                            src_step as int,
                            0xffff_ffff,
                        );
                        lemma_product_bound(sz as int, 0xffff_ffff, src_h as int, 0xffff_ffff);
                        lemma_product_bound(
                            sz as int * src_h as int + sy as int,
                            0xffff_ffffint * 0xffff_ffffint + 0xffff_ffffint,
                            src_w as int,
                            0xffff_ffff,
                        );
                    }
                    let row: u128 = (sz as u128) * (src_h as u128) + (sy as u128);
                    let element: u128 = (sq as u128) * (src_step as u128) + row * (src_w as u128)
                        + (sx as u128);
                    assert(element < v.channel_step * v.channels);
                    proof {
                        lemma_product_bound(
                            v.channel_step as int,
                            0xffff_ffff,
                            v.channels as int,
                            0xffff_ffff,
                        );
                        lemma_product_bound(
                            element as int,
                            0xffff_ffffint * 0xffff_ffffint,
                            es as int,
                            0xffff_ffff,
                        );
                    }
                    let base: u128 = element * (es as u128);
                    assert(base == v.offset(sx as int, sy as int, sz as int, sq as int, 0));
                    assert(base < source_len);
                    pick = Pick::Copy(base as usize);
                }
            }
            proof {
                assert forall|k: int| 0 <= k < es implies #[trigger] element_byte(
                    v,
                    win,
                    policy,
                    bits,
                    q as int,
                    j as int,
                    k,
                ) == (match pick {
                    Pick::Copy(base) => v.data[base + k],
                    Pick::Fill => fill_byte(policy, bits, k),
                    Pick::Pad => 0u8,
                }) by {}
                if let Pick::Copy(base) = pick {
                    assert(base + es <= v.data.len()) by {
                        let x = (j as int) % (width as int);
                        let y = ((j as int) / (width as int)) % (height as int);
                        let z = (j as int) / (slice as int);
                        let sx = source_index(policy, x, left as int, v.width as int)->0;
                        let sy = source_index(policy, y, top as int, v.height as int)->0;
                        let sz = source_index(policy, z, front as int, v.depth as int)->0;
                        let sq = source_index(policy, q as int, first as int, v.channels as int)->0;
                        lemma_offset_in_bounds(v, sx, sy, sz, sq, es - 1);
                    }
                }
            }
            let mut k: u32 = 0;
            while k < es
                invariant
                    k <= es,
                    j < step,
                    es == v.element_size,
                    es >= 1,
                    source@ == v.data,
                    source_len == source@.len(),
                    pattern@ == spec_u32_to_le_bytes(bits),
                    pattern@.len() == 4,
                    pick matches Pick::Copy(base) ==> base + es <= v.data.len(),
                    forall|k: int|
                        0 <= k < es ==> #[trigger] element_byte(
                            v,
                            win,
                            policy,
                            bits,
                            q as int,
                            j as int,
                            k,
                        ) == (match pick {
                            Pick::Copy(base) => v.data[base + k],
                            Pick::Fill => fill_byte(policy, bits, k),
                            Pick::Pad => 0u8,
                        }),
                    q < channels,
                    out@.len() == bytes,
                    bytes == step * channels * es,
                    at == (q * step + j) * es + k,
                    forall|i: int|
                        0 <= i < at ==> out@[i] == window_byte(
                            v,
                            win,
                            step as nat,
                            policy,
                            bits,
                            i,
                        ),
                decreases es - k,
            {
                let byte: u8 = match pick {
                    Pick::Copy(base) => source[base + k as usize],
                    Pick::Fill => match policy {
                        BorderType::Constant => pattern[(k % 4) as usize],
                        _ => 0u8,
                    },
                    Pick::Pad => 0u8,
                };
                proof {
                    lemma_window_byte(v, win, step as nat, policy, bits, q as int, j as int, k as int);
                    lemma_index_in_buffer(
                        q as int,
                        channels as int,
                        j as int,
                        step as int,
                        k as int,
                        es as int,
                    );
                }
                out.set(at, byte);
                at = at + 1;
                k = k + 1;
            }
            assert((q * step + j) * es + es == (q * step + (j + 1)) * es) by (nonlinear_arith);
            j = j + 1;
        }
        assert(q * step + step == (q + 1) * step) by (nonlinear_arith);
        q = q + 1;
    }
    assert(channels * step * es == step * channels * es) by (nonlinear_arith);
    assert(out@ =~= windowed(v, win, policy, bits).data);
    Ok(
        Mat::assemble(
            dims,
            width,
            height,
            depth,
            channels,
            es,
            src.element_packing(),
            step,
            out,
            allocator,
        ),
    )
}

/// Adds a border to `src`.
fn make_border(
    src: &Mat,
    top: u32,
    bottom: u32,
    left: u32,
    right: u32,
    front: u32,
    behind: u32,
    policy: BorderType,
    bits: u32,
) -> (r: Result<Mat, MatError>)
    requires
        src.wf(),
    ensures
        made(r) == spec_make_border(src@, top, bottom, left, right, front, behind, policy, bits),
        r matches Ok(m) ==> m.wf(),
{
    let _ = cast_into_i32(top, Extent::Top)?;
    let _ = cast_into_i32(bottom, Extent::Bottom)?;
    let _ = cast_into_i32(left, Extent::Left)?;
    let _ = cast_into_i32(right, Extent::Right)?;
    let _ = cast_into_i32(front, Extent::Front)?;
    let _ = cast_into_i32(behind, Extent::Behind)?;
    let dims: u32 = src.dimensions();
    if dims == 0 {
        return Ok(Mat::new());
    }
    let limit: u64 = MAX_DIMENSION as u64;
    let width: u64 = src.width() as u64 + left as u64 + right as u64;
    let height: u64 = if dims >= 2 {
        src.height() as u64 + top as u64 + bottom as u64
    } else {
        src.height() as u64
    };
    let depth: u64 = if dims == 4 {
        src.depth() as u64 + front as u64 + behind as u64
    } else {
        src.depth() as u64
    };
    let channels: u64 = if dims == 3 {
        src.channels() as u64 + front as u64 + behind as u64
    } else {
        src.channels() as u64
    };
    if width > limit || height > limit || depth > limit || channels > limit {
        return Err(MatError::SizeOverflow);
    }
    gather(
        src,
        left as i64,
        if dims >= 2 {
            top as i64
        } else {
            0
        },
        if dims == 4 {
            front as i64
        } else {
            0
        },
        if dims == 3 {
            front as i64
        } else {
            0
        },
        width as u32,
        height as u32,
        depth as u32,
        channels as u32,
        policy,
        bits,
    )
}

/// Cuts a border from `src`.
fn cut(src: &Mat, top: u32, bottom: u32, left: u32, right: u32, front: u32, behind: u32) -> (r:
    Result<Mat, MatError>)
    requires
        src.wf(),
    ensures
        made(r) == spec_cut_border(src@, top, bottom, left, right, front, behind),
        r matches Ok(m) ==> m.wf(),
{
    let _ = cast_into_i32(top, Extent::Top)?;
    let _ = cast_into_i32(bottom, Extent::Bottom)?;
    let _ = cast_into_i32(left, Extent::Left)?;
    let _ = cast_into_i32(right, Extent::Right)?;
    let _ = cast_into_i32(front, Extent::Front)?;
    let _ = cast_into_i32(behind, Extent::Behind)?;
    let dims: u32 = src.dimensions();
    if dims == 0 {
        return Ok(Mat::new());
    }
    let across: u64 = left as u64 + right as u64;
    let down: u64 = top as u64 + bottom as u64;
    let through: u64 = front as u64 + behind as u64;
    if across > src.width() as u64 || (dims >= 2 && down > src.height() as u64) || (dims == 3
        && through > src.channels() as u64) || (dims == 4 && through > src.depth() as u64) {
        return Err(MatError::BorderTooLarge);
    }
    let width: u32 = src.width() - left - right;
    let height: u32 = if dims >= 2 {
        src.height() - top - bottom
    } else {
        src.height()
    };
    let depth: u32 = if dims == 4 {
        src.depth() - front - behind
    } else {
        src.depth()
    };
    let channels: u32 = if dims == 3 {
        src.channels() - front - behind
    } else {
        src.channels()
    };
    gather(
        src,
        -(left as i64),
        if dims >= 2 {
            -(top as i64)
        } else {
            0
        },
        if dims == 4 {
            -(front as i64)
        } else {
            0
        },
        if dims == 3 {
            -(front as i64)
        } else {
            0
        },
        width,
        height,
        depth,
        channels,
        BorderType::Constant,
        0,
    )
}

/// Whether an operation that replaces a tensor by `expected` went as it
/// must: the tensor is replaced where a result is due and is left as it was
/// where an error is.
pub open spec fn replaced(
    r: Result<(), MatError>,
    before: Mat,
    after: Mat,
    expected: Result<MatView, MatError>,
) -> bool {
    match expected {
        Ok(v) => r is Ok && after@ == v && after.wf(),
        Err(e) => r == Err::<(), MatError>(e) && after == before,
    }
}

/// Copies `src` with a border added on the four sides of its rows and
/// columns into `dst`, whose former buffer is released. `value` is the fill
/// value of the constant policy, as the bit pattern of a 32-bit scalar. The
/// copy is made in the calling thread whatever `opt` asks for.
pub fn copy_make_border(
    src: &Mat,
    dst: &mut Mat,
    top: u32,
    bottom: u32,
    left: u32,
    right: u32,
    border_type: BorderType,
    value: u32,
    opt: &crate::option::Option,
) -> (r: Result<(), MatError>)
    requires
        src.wf(),
    ensures
        replaced(
            r,
            *old(dst),
            *final(dst),
            spec_make_border(src@, top, bottom, left, right, 0, 0, border_type, value),
        ),
{
    let _ = opt;
    let mut made: Mat = make_border(src, top, bottom, left, right, 0, 0, border_type, value)?;
    core::mem::swap(dst, &mut made);
    made.release();
    Ok(())
}

/// Copies `src` with a border added on the six sides of its rows, columns
/// and slices into `dst`; `front` and `behind` add channels to a tensor of
/// three dimensions and slices to one of four.
pub fn copy_make_border_3d(
    src: &Mat,
    dst: &mut Mat,
    top: u32,
    bottom: u32,
    left: u32,
    right: u32,
    front: u32,
    behind: u32,
    border_type: BorderType,
    value: u32,
    opt: &crate::option::Option,
) -> (r: Result<(), MatError>)
    requires
        src.wf(),
    ensures
        replaced(
            r,
            *old(dst),
            *final(dst),
            spec_make_border(src@, top, bottom, left, right, front, behind, border_type, value),
        ),
{
    let _ = opt;
    let mut made: Mat = make_border(
        src,
        top,
        bottom,
        left,
        right,
        front,
        behind,
        border_type,
        value,
    )?;
    core::mem::swap(dst, &mut made);
    made.release();
    Ok(())
}

/// Copies `src` without the given margins of its rows and columns into `dst`.
pub fn copy_cut_border(
    src: &Mat,
    dst: &mut Mat,
    top: u32,
    bottom: u32,
    left: u32,
    right: u32,
    opt: &crate::option::Option,
) -> (r: Result<(), MatError>)
    requires
        src.wf(),
    ensures
        replaced(r, *old(dst), *final(dst), spec_cut_border(src@, top, bottom, left, right, 0, 0)),
{
    let _ = opt;
    let mut made: Mat = cut(src, top, bottom, left, right, 0, 0)?;
    core::mem::swap(dst, &mut made);
    made.release();
    Ok(())
}

/// Copies `src` without the given margins of its rows, columns and slices
/// into `dst`.
pub fn copy_cut_border_3d(
    src: &Mat,
    dst: &mut Mat,
    top: u32,
    bottom: u32,
    left: u32,
    right: u32,
    front: u32,
    behind: u32,
    opt: &crate::option::Option,
) -> (r: Result<(), MatError>)
    requires
        src.wf(),
    ensures
        replaced(
            r,
            *old(dst),
            *final(dst),
            spec_cut_border(src@, top, bottom, left, right, front, behind),
        ),
{
    let _ = opt;
    let mut made: Mat = cut(src, top, bottom, left, right, front, behind)?;
    core::mem::swap(dst, &mut made);
    made.release();
    Ok(())
}

impl Mat {
    /// Replaces the tensor by itself with a border added, as
    /// `copy_make_border` makes it.
    pub fn add_border(
        &mut self,
        top: u32,
        bottom: u32,
        left: u32,
        right: u32,
        border_type: BorderType,
        value: u32,
        opt: &crate::option::Option,
    ) -> (r: Result<(), MatError>)
        requires
            old(self).wf(),
        ensures
            replaced(
                r,
                *old(self),
                *final(self),
                spec_make_border(old(self)@, top, bottom, left, right, 0, 0, border_type, value),
            ),
    {
        let _ = opt;
        let mut made: Mat = make_border(self, top, bottom, left, right, 0, 0, border_type, value)?;
        core::mem::swap(self, &mut made);
        made.release();
        Ok(())
    }

    /// Replaces the tensor by itself with a border added, as
    /// `copy_make_border_3d` makes it.
    pub fn add_border_3d(
        &mut self,
        top: u32,
        bottom: u32,
        left: u32,
        right: u32,
        front: u32,
        behind: u32,
        border_type: BorderType,
        value: u32,
        opt: &crate::option::Option,
    ) -> (r: Result<(), MatError>)
        requires
            old(self).wf(),
        ensures
            replaced(
                r,
                *old(self),
                *final(self),
                spec_make_border(
                    old(self)@,
                    top,
                    bottom,
                    left,
                    right,
                    front,
                    behind,
                    border_type,
                    value,
                ),
            ),
    {
        let _ = opt;
        let mut made: Mat = make_border(
            self,
            top,
            bottom,
            left,
            right,
            front,
            behind,
            border_type,
            value,
        )?;
        core::mem::swap(self, &mut made);
        made.release();
        Ok(())
    }

    /// Replaces the tensor by itself without the given margins, as
    /// `copy_cut_border` makes it.
    pub fn cut_border(
        &mut self,
        top: u32,
        bottom: u32,
        left: u32,
        right: u32,
        opt: &crate::option::Option,
    ) -> (r: Result<(), MatError>)
        requires
            old(self).wf(),
        ensures
            replaced(
                r,
                *old(self),
                *final(self),
                spec_cut_border(old(self)@, top, bottom, left, right, 0, 0),
            ),
    {
        let _ = opt;
        let mut made: Mat = cut(self, top, bottom, left, right, 0, 0)?;
        core::mem::swap(self, &mut made);
        made.release();
        Ok(())
    }

    /// Replaces the tensor by itself without the given margins, as
    /// `copy_cut_border_3d` makes it.
    pub fn cut_border_3d(
        &mut self,
        top: u32,
        bottom: u32,
        left: u32,
        right: u32,
        front: u32,
        behind: u32,
        opt: &crate::option::Option,
    ) -> (r: Result<(), MatError>)
        requires
            old(self).wf(),
        ensures
            replaced(
                r,
                *old(self),
                *final(self),
                spec_cut_border(old(self)@, top, bottom, left, right, front, behind),
            ),
    {
        let _ = opt;
        let mut made: Mat = cut(self, top, bottom, left, right, front, behind)?;
        core::mem::swap(self, &mut made);
        made.release();
        Ok(())
    }
}

/// Adding a border and cutting the same margins again gives a tensor of the
/// dimensions, extents and element layout that the tensor had before.
pub proof fn lemma_border_round_trip(
    v: MatView,
    top: u32,
    bottom: u32,
    left: u32,
    right: u32,
    front: u32,
    behind: u32,
    policy: BorderType,
    bits: u32,
)
    requires
        v.wf(),
        spec_make_border(v, top, bottom, left, right, front, behind, policy, bits) is Ok,
    ensures
        ({
            let padded = spec_make_border(
                v,
                top,
                bottom,
                left,
                right,
                front,
                behind,
                policy,
                bits,
            )->Ok_0;
            &&& spec_cut_border(padded, top, bottom, left, right, front, behind) matches Ok(back)
            &&& back.dims == v.dims
            &&& back.width == v.width
            &&& back.height == v.height
            &&& back.depth == v.depth
            &&& back.channels == v.channels
            &&& back.element_size == v.element_size
            &&& back.element_packing == v.element_packing
        }),
{
    if v.dims != 0 {
        let win = grown(v, top, bottom, left, right, front, behind);
        lemma_layout_fits_smaller(
            v.dims,
            win.width,
            win.height,
            win.depth,
            win.channels,
            v.width,
            v.height,
            v.depth,
            v.channels,
            v.element_size,
        );
    }
}

/// What a window puts at an element of the result, given by the element's
/// coordinates: the source element that the edge policy chooses along every
/// axis, or the fill where the policy chooses none.
pub open spec fn picked(
    v: MatView,
    win: Window,
    policy: BorderType,
    bits: u32,
    x: int,
    y: int,
    z: int,
    q: int,
    k: int,
) -> u8 {
    match (
        source_index(policy, x, win.left, v.width as int),
        source_index(policy, y, win.top, v.height as int),
        source_index(policy, z, win.front, v.depth as int),
        source_index(policy, q, win.first, v.channels as int),
    ) {
        (Some(sx), Some(sy), Some(sz), Some(sq)) => v.data[v.offset(sx, sy, sz, sq, k)],
        _ => fill_byte(policy, bits, k),
    }
}

/// Element `(z * height + y) * width + x` of a plane lies in column `x`, row
/// `y` and slice `z`.
proof fn lemma_plane_coordinates(width: int, height: int, depth: int, x: int, y: int, z: int)
    requires
        0 <= x < width,
        0 <= y < height,
        0 <= z < depth,
    ensures
        ({
            let j = (z * height + y) * width + x;
            &&& 0 <= j < width * height * depth
            &&& j % width == x
            &&& (j / width) % height == y
            &&& j / (width * height) == z
        }),
{
    let row = z * height + y;
    let j = row * width + x;
    assert(0 <= row <= depth * height - 1) by (nonlinear_arith)
        requires
            0 <= z <= depth - 1,
            0 <= y <= height - 1,
            row == z * height + y,
    ;
    assert(0 <= j <= depth * height * width - 1) by (nonlinear_arith)
        requires
            0 <= row <= depth * height - 1,
            0 <= x <= width - 1,
            j == row * width + x,
    ;
    assert(depth * height * width == width * height * depth) by (nonlinear_arith);
    lemma_fundamental_div_mod_converse(j, width, row, x);
    lemma_fundamental_div_mod_converse(row, height, z, y);
    let within = y * width + x;
    assert(0 <= within <= height * width - 1) by (nonlinear_arith)
        requires
            0 <= y <= height - 1,
            0 <= x <= width - 1,
            within == y * width + x,
    ;
    assert(j == z * (width * height) + within) by (nonlinear_arith)
        requires
            j == (z * height + y) * width + x,
            within == y * width + x,
    ;
    assert(width * height > 0) by (nonlinear_arith)
        requires
            width > 0,
            height > 0,
    ;
    assert(width * height == height * width) by (nonlinear_arith);
    lemma_fundamental_div_mod_converse(j, width * height, z, within);
}

/// Every element of the tensor that a window gives holds what the window
/// picks for its coordinates.
pub proof fn lemma_windowed_element(
    v: MatView,
    win: Window,
    policy: BorderType,
    bits: u32,
    x: int,
    y: int,
    z: int,
    q: int,
    k: int,
)
    requires
        windowed(v, win, policy, bits).wf(),
        windowed(v, win, policy, bits).has(x, y, z, q),
        0 <= k < v.element_size,
    ensures
        ({
            let r = windowed(v, win, policy, bits);
            &&& 0 <= r.offset(x, y, z, q, k) < r.data.len()
            &&& r.data[r.offset(x, y, z, q, k)] == picked(v, win, policy, bits, x, y, z, q, k)
        }),
{
    let r = windowed(v, win, policy, bits);
    lemma_offset_in_bounds(r, x, y, z, q, k);
    lemma_plane_coordinates(win.width as int, win.height as int, win.depth as int, x, y, z);
    let j = (z * win.height + y) * win.width + x;
    lemma_window_byte(v, win, r.channel_step, policy, bits, q, j, k);
    assert(r.offset(x, y, z, q, k) == (q * r.channel_step + j) * v.element_size + k);
    assert(r.data.len() == r.channel_step * win.channels * v.element_size);
    assert(r.total_bytes() == r.data.len());
}

/// The tensor that adding a border to a well-formed tensor gives is well
/// formed, and so is the tensor that cutting a border gives.
pub proof fn lemma_border_wf(
    v: MatView,
    top: u32,
    bottom: u32,
    left: u32,
    right: u32,
    front: u32,
    behind: u32,
    policy: BorderType,
    bits: u32,
)
    requires
        v.wf(),
    ensures
        spec_make_border(v, top, bottom, left, right, front, behind, policy, bits) matches Ok(r)
            ==> r.wf(),
        spec_cut_border(v, top, bottom, left, right, front, behind) matches Ok(r) ==> r.wf(),
{
    if v.dims >= 1 {
        let grow = grown(v, top, bottom, left, right, front, behind);
        lemma_channel_step_covers_plane(v.dims, grow.plane(), v.element_size);
        let shrink = shrunk(v, top, bottom, left, right, front, behind);
        lemma_channel_step_covers_plane(v.dims, shrink.plane(), v.element_size);
    }
}

/// Adding a border and cutting the same margins again gives back every
/// element of the tensor, whatever the edge policy put into the border.
pub proof fn lemma_border_round_trip_elements(
    v: MatView,
    top: u32,
    bottom: u32,
    left: u32,
    right: u32,
    front: u32,
    behind: u32,
    policy: BorderType,
    bits: u32,
    x: int,
    y: int,
    z: int,
    q: int,
    k: int,
)
    requires
        v.wf(),
        spec_make_border(v, top, bottom, left, right, front, behind, policy, bits) is Ok,
        v.has(x, y, z, q),
        0 <= k < v.element_size,
    ensures
        ({
            let padded = spec_make_border(
                v,
                top,
                bottom,
                left,
                right,
                front,
                behind,
                policy,
                bits,
            )->Ok_0;
            let back = spec_cut_border(padded, top, bottom, left, right, front, behind)->Ok_0;
            &&& back.has(x, y, z, q)
            &&& back.data[back.offset(x, y, z, q, k)] == v.data[v.offset(x, y, z, q, k)]
        }),
{
    lemma_border_round_trip(v, top, bottom, left, right, front, behind, policy, bits);
    lemma_border_wf(v, top, bottom, left, right, front, behind, policy, bits);
    let grow = grown(v, top, bottom, left, right, front, behind);
    let padded = windowed(v, grow, policy, bits);
    lemma_border_wf(padded, top, bottom, left, right, front, behind, policy, bits);
    let shrink = shrunk(padded, top, bottom, left, right, front, behind);
    let back = windowed(padded, shrink, BorderType::Constant, 0);
    lemma_windowed_element(padded, shrink, BorderType::Constant, 0, x, y, z, q, k);
    let px = x - shrink.left;
    let py = y - shrink.top;
    let pz = z - shrink.front;
    let pq = q - shrink.first;
    assert(padded.has(px, py, pz, pq));
    lemma_windowed_element(v, grow, policy, bits, px, py, pz, pq, k);
}

} // verus!
