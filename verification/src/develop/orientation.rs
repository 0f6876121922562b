//! EXIF orientation applied to an interleaved RGB buffer.
//!
//! The buffer holds `width * height` pixels of three channels each, row
//! by row. The pixel values are carried, never inspected, so the
//! transform is generic over the channel type.

use vstd::prelude::*;
use vstd::arithmetic::div_mod::lemma_fundamental_div_mod_converse;
use vstd::arithmetic::mul::lemma_mul_inequality;

verus! {

/// EXIF orientations 5 to 8 swap the two axes.
pub open spec fn swaps_axes(orientation: int) -> bool {
    5 <= orientation <= 8
}

/// The orientations that move pixels at all; every other value leaves
/// the buffer as it is.
pub open spec fn moves_pixels(orientation: int) -> bool {
    2 <= orientation <= 8
}

/// Width and height of the buffer after the transform.
pub open spec fn oriented_dims(width: int, height: int, orientation: int) -> (int, int) {
    if swaps_axes(orientation) { (height, width) } else { (width, height) }
}

/// Where the source pixel `(x, y)` lands:
/// 2 mirrors horizontally, 3 turns by 180 degrees, 4 mirrors vertically,
/// 5 transposes (mirrors, then turns 90 degrees counter-clockwise),
/// 6 turns 90 degrees clockwise, 7 mirrors then turns 90 degrees
/// clockwise, and 8 turns 90 degrees counter-clockwise.
pub open spec fn dest_pixel(width: int, height: int, orientation: int, x: int, y: int) -> (int, int) {
    if orientation == 2 {
        (width - 1 - x, y)
    } else if orientation == 3 {
        (width - 1 - x, height - 1 - y)
    } else if orientation == 4 {
        (x, height - 1 - y)
    } else if orientation == 5 {
        (y, x)
    } else if orientation == 8 {
        (y, width - 1 - x)
    } else if orientation == 6 {
        (height - 1 - y, x)
    } else if orientation == 7 {
        (height - 1 - y, width - 1 - x)
    } else {
        (x, y)
    }
}

/// The source pixel that lands on the output pixel `(ox, oy)`.
pub open spec fn source_pixel(width: int, height: int, orientation: int, ox: int, oy: int) -> (int, int) {
    if orientation == 2 {
        (width - 1 - ox, oy)
    } else if orientation == 3 {
        (width - 1 - ox, height - 1 - oy)
    } else if orientation == 4 {
        (ox, height - 1 - oy)
    } else if orientation == 5 {
        (oy, ox)
    } else if orientation == 8 {
        (width - 1 - oy, ox)
    } else if orientation == 6 {
        (oy, height - 1 - ox)
    } else if orientation == 7 {
        (width - 1 - oy, height - 1 - ox)
    } else {
        (ox, oy)
    }
}

/// Index in the source buffer of the value that lands at index `k` of
/// the output buffer.
pub open spec fn source_index(width: int, height: int, orientation: int, k: int) -> int {
    let nw = oriented_dims(width, height, orientation).0;
    let p = k / 3;
    let s = source_pixel(width, height, orientation, p % nw, p / nw);
    (s.1 * width + s.0) * 3 + k % 3
}

/// The buffer after the transform.
pub open spec fn oriented<T>(rgb: Seq<T>, width: int, height: int, orientation: int) -> Seq<T> {
    if moves_pixels(orientation) {
        Seq::new(rgb.len(), |k: int| rgb[source_index(width, height, orientation, k)])
    } else {
        rgb
    }
}

/// The source and output pixel maps undo each other, so the transform
/// moves every pixel to exactly one place and fills every place.
pub proof fn law_orientation_is_bijective(width: int, height: int, orientation: int, x: int, y: int)
    requires
        0 <= x < width,
        0 <= y < height,
    ensures
        ({
            let (nw, nh) = oriented_dims(width, height, orientation);
            let d = dest_pixel(width, height, orientation, x, y);
            &&& 0 <= d.0 < nw
            &&& 0 <= d.1 < nh
            &&& source_pixel(width, height, orientation, d.0, d.1) == (x, y)
        }),
{
}

/// The output pixel maps back to a source pixel inside the buffer.
pub proof fn lemma_source_in_range(width: int, height: int, orientation: int, ox: int, oy: int)
    requires
        0 <= ox < oriented_dims(width, height, orientation).0,
        0 <= oy < oriented_dims(width, height, orientation).1,
    ensures
        ({
            let s = source_pixel(width, height, orientation, ox, oy);
            &&& 0 <= s.0 < width
            &&& 0 <= s.1 < height
            &&& dest_pixel(width, height, orientation, s.0, s.1) == (ox, oy)
        }),
{
}

/// Row-major position arithmetic: `(q * d + r)` splits back into `q`, `r`.
pub(crate) proof fn lemma_split(q: int, d: int, r: int)
    requires
        d > 0,
        0 <= r < d,
    ensures
        (q * d + r) / d == q,
        (q * d + r) % d == r,
{
    lemma_fundamental_div_mod_converse(q * d + r, d, q, r);
}

/// A pixel inside a `w` by `h` grid has a row-major position below `w * h`.
pub(crate) proof fn lemma_position_bound(x: int, y: int, w: int, h: int)
    requires
        0 <= x < w,
        0 <= y < h,
    ensures
        0 <= y * w + x < w * h,
        (y * w + x) * 3 + 2 < w * h * 3,
{
    lemma_mul_inequality(y, h - 1, w);
    assert(y * w >= 0) by (nonlinear_arith)
        requires
            0 <= y,
            0 <= w,
    ;
    assert((h - 1) * w == h * w - w) by (nonlinear_arith);
    assert(w * h == h * w) by (nonlinear_arith);
    assert(w * h * 3 == (w * h) * 3) by (nonlinear_arith);
}

/// The source pixel that lands on `(ox, oy)`, computed.
fn source_of(width: u32, height: u32, orientation: i64, ox: u32, oy: u32) -> (s: (u32, u32))
    requires
        moves_pixels(orientation as int),
        0 <= ox < oriented_dims(width as int, height as int, orientation as int).0,
        0 <= oy < oriented_dims(width as int, height as int, orientation as int).1,
    ensures
        (s.0 as int, s.1 as int) == source_pixel(
            width as int,
            height as int,
            orientation as int,
            ox as int,
            oy as int,
        ),
{
    if orientation == 2 {
        (width - 1 - ox, oy)
    } else if orientation == 3 {
        (width - 1 - ox, height - 1 - oy)
    } else if orientation == 4 {
        (ox, height - 1 - oy)
    } else if orientation == 5 {
        (oy, ox)
    } else if orientation == 8 {
        (width - 1 - oy, ox)
    } else if orientation == 6 {
        (oy, height - 1 - ox)
    } else {
        (width - 1 - oy, height - 1 - ox)
    }
}

/// Apply EXIF orientation `orientation` to an interleaved RGB buffer of
/// `width` by `height` pixels; returns the new width, height and buffer.
/// Orientations other than 2 to 8 return the buffer unchanged.
pub fn apply_orientation_rgb<T: Copy>(rgb: Vec<T>, width: u32, height: u32, orientation: i64) -> (r: (
    u32,
    u32,
    Vec<T>,
))
    requires
        moves_pixels(orientation as int) ==> rgb@.len() == width * height * 3,
    ensures
        (r.0 as int, r.1 as int) == oriented_dims(width as int, height as int, orientation as int),
        r.2@ == oriented(rgb@, width as int, height as int, orientation as int),
        forall|x: int, y: int, c: int|
            #![trigger dest_pixel(width as int, height as int, orientation as int, x, y), rgb@[(y * width + x) * 3 + c]]
            moves_pixels(orientation as int) && 0 <= x < width && 0 <= y < height && 0 <= c < 3
                ==> {
                let d = dest_pixel(width as int, height as int, orientation as int, x, y);
                r.2@[(d.1 * r.0 + d.0) * 3 + c] == rgb@[(y * width + x) * 3 + c]
            },
{
    if !(2 <= orientation && orientation <= 8) {
        return (width, height, rgb);
    }
    let ghost w = width as int;
    let ghost h = height as int;
    let ghost o = orientation as int;
    let (nw, nh) = if 5 <= orientation && orientation <= 8 { (height, width) } else { (width, height) };
    let ghost target = oriented(rgb@, w, h, o);
    let len = rgb.len();
    let mut out: Vec<T> = Vec::new();
    let mut oy: u32 = 0;
    while oy < nh
        invariant
            moves_pixels(o),
            o == orientation as int,
            w == width as int,
            h == height as int,
            (nw as int, nh as int) == oriented_dims(w, h, o),
            rgb@.len() == w * h * 3,
            rgb@.len() == len,
            target == oriented(rgb@, w, h, o),
            oy <= nh,
            out@.len() == oy * nw * 3,
            forall|k: int| 0 <= k < out@.len() ==> out@[k] == target[k],
        decreases nh - oy,
    {
        let mut ox: u32 = 0;
        while ox < nw
            invariant
                moves_pixels(o),
                o == orientation as int,
                w == width as int,
                h == height as int,
                (nw as int, nh as int) == oriented_dims(w, h, o),
                rgb@.len() == w * h * 3,
                rgb@.len() == len,
                target == oriented(rgb@, w, h, o),
                oy < nh,
                ox <= nw,
                out@.len() == (oy * nw + ox) * 3,
                forall|k: int| 0 <= k < out@.len() ==> out@[k] == target[k],
            decreases nw - ox,
        {
            let (sx, sy) = source_of(width, height, orientation, ox, oy);
            proof {
                lemma_source_in_range(w, h, o, ox as int, oy as int);
                lemma_position_bound(sx as int, sy as int, w, h);
                lemma_position_bound(ox as int, oy as int, nw as int, nh as int);
                assert(nw as int * nh as int == w * h) by (nonlinear_arith)
                    requires
                        (nw as int == w && nh as int == h) || (nw as int == h && nh as int == w),
                ;
            }
            let row: usize = (sy as usize) * (width as usize);
            assert(row as int == sy * w);
            let i: usize = (row + (sx as usize)) * 3;
            let ghost p = oy * nw + ox;
            proof {
                lemma_split(oy as int, nw as int, ox as int);
                assert forall|c: int| 0 <= c < 3 implies #[trigger] target[p * 3 + c] == rgb@[i + c] by {
                    lemma_split(p, 3, c);
                }
            }
            out.push(rgb[i]);
            out.push(rgb[i + 1]);
            out.push(rgb[i + 2]);
            ox = ox + 1;
            proof {
                assert(out@.len() == (oy * nw + ox) * 3) by (nonlinear_arith)
                    requires
                        out@.len() == p * 3 + 3,
                        p == oy * nw + ox - 1,
                ;
            }
        }
        oy = oy + 1;
        proof {
            assert(out@.len() == oy * nw * 3) by (nonlinear_arith)
                requires
                    out@.len() == ((oy - 1) * nw + nw) * 3,
            ;
        }
    }
    proof {
        assert(out@.len() == rgb@.len()) by (nonlinear_arith)
            requires
                out@.len() == nh * nw * 3,
                rgb@.len() == w * h * 3,
                (nw as int == w && nh as int == h) || (nw as int == h && nh as int == w),
        ;
        assert(out@ =~= target);
        assert forall|x: int, y: int, c: int|
            #![trigger dest_pixel(w, h, o, x, y), rgb@[(y * width + x) * 3 + c]]
            0 <= x < width && 0 <= y < height && 0 <= c < 3 implies {
            let d = dest_pixel(w, h, o, x, y);
            out@[(d.1 * nw + d.0) * 3 + c] == rgb@[(y * width + x) * 3 + c]
        } by {
            law_orientation_is_bijective(w, h, o, x, y);
            let d = dest_pixel(w, h, o, x, y);
            lemma_position_bound(d.0, d.1, nw as int, nh as int);
            lemma_split(d.1, nw as int, d.0);
            lemma_split(d.1 * nw + d.0, 3, c);
            assert(nw as int * nh as int == w * h) by (nonlinear_arith)
                requires
                    (nw as int == w && nh as int == h) || (nw as int == h && nh as int == w),
            ;
        }
    }
    (nw, nh, out)
}

} // verus!
