//! Integer geometry of downsampling an interleaved RGB buffer.
//!
//! Choosing the target size is floating-point work done by the caller;
//! what is fixed here is which source pixels each target pixel reads.

use vstd::prelude::*;
use crate::develop::orientation::{lemma_position_bound, lemma_split};
use vstd::arithmetic::div_mod::{lemma_div_is_ordered, lemma_div_by_multiple, lemma_fundamental_div_mod};
use vstd::arithmetic::mul::lemma_mul_inequality;

verus! {

/// The source row (or column) that output row `i` of `n_out` starts at,
/// in a source of `n_in` rows: `i * n_in / n_out`, rounded down.
pub open spec fn span_start(i: int, n_out: int, n_in: int) -> int {
    i * n_in / n_out
}

/// The source rows `[start, end)` averaged into output row `i`: from
/// `span_start(i)` up to `span_start(i + 1)`, and never empty.
pub open spec fn span(i: int, n_out: int, n_in: int) -> (int, int) {
    let start = span_start(i, n_out, n_in);
    let next = span_start(i + 1, n_out, n_in);
    (start, if next > start + 1 { next } else { start + 1 })
}

/// The buffer of `nw` by `nh` pixels whose pixel `(x, y)` is the source
/// pixel at `(span_start(x, nw, w), span_start(y, nh, h))`.
pub open spec fn sampled<T>(rgb: Seq<T>, w: int, h: int, nw: int, nh: int) -> Seq<T> {
    Seq::new(
        (nw * nh * 3) as nat,
        |k: int|
            {
                let p = k / 3;
                let sx = span_start(p % nw, nw, w);
                let sy = span_start(p / nw, nh, h);
                rgb[(sy * w + sx) * 3 + k % 3]
            },
    )
}

/// A start position lies inside the source.
proof fn lemma_span_start_in_range(i: int, n_out: int, n_in: int)
    requires
        0 <= i < n_out,
        0 <= n_in,
    ensures
        0 <= span_start(i, n_out, n_in),
        n_in > 0 ==> span_start(i, n_out, n_in) < n_in,
        span_start(i, n_out, n_in) <= span_start(i + 1, n_out, n_in),
        span_start(i + 1, n_out, n_in) <= n_in,
{
    lemma_mul_inequality(i, n_out, n_in);
    lemma_mul_inequality(i, i + 1, n_in);
    lemma_mul_inequality(i + 1, n_out, n_in);
    assert(i * n_in >= 0) by (nonlinear_arith)
        requires
            0 <= i,
            0 <= n_in,
    ;
    lemma_div_is_ordered(0, i * n_in, n_out);
    lemma_div_is_ordered(i * n_in, (i + 1) * n_in, n_out);
    lemma_div_is_ordered((i + 1) * n_in, n_out * n_in, n_out);
    lemma_div_by_multiple(n_in, n_out);
    assert(n_in * n_out == n_out * n_in) by (nonlinear_arith);
    if n_in > 0 {
        assert(i * n_in <= n_out * n_in - n_in) by (nonlinear_arith)
            requires
                i < n_out,
                n_in > 0,
        ;
        lemma_fundamental_div_mod(i * n_in, n_out);
        assert(span_start(i, n_out, n_in) < n_in) by (nonlinear_arith)
            requires
                i * n_in == n_out * (i * n_in / n_out) + (i * n_in) % n_out,
                (i * n_in) % n_out >= 0,
                i * n_in <= n_out * n_in - n_in,
                n_out > 0,
                n_in > 0,
                span_start(i, n_out, n_in) == i * n_in / n_out,
        ;
    }
}

/// `i * n_in / n_out` computed without overflow.
fn span_start_of(i: u32, n_out: u32, n_in: u32) -> (r: u32)
    requires
        i < n_out,
    ensures
        r == span_start(i as int, n_out as int, n_in as int),
{
    proof {
        lemma_span_start_in_range(i as int, n_out as int, n_in as int);
    }
    assert((i as u64) * (n_in as u64) <= u64::MAX) by (nonlinear_arith)
        requires
            i <= u32::MAX,
            n_in <= u32::MAX,
    ;
    let prod: u64 = (i as u64) * (n_in as u64);
    (prod / (n_out as u64)) as u32
}

/// The source rows (or columns) averaged into output row `i` when `n_in`
/// rows are shrunk to `n_out`: `[i * n_in / n_out, (i + 1) * n_in / n_out)`,
/// widened to one row where that would be empty.
pub fn box_span(i: u32, n_out: u32, n_in: u32) -> (r: (u32, u32))
    requires
        i < n_out,
    ensures
        (r.0 as int, r.1 as int) == span(i as int, n_out as int, n_in as int),
        r.0 < r.1,
        r.1 <= n_in || n_in == 0,
{
    proof {
        lemma_span_start_in_range(i as int, n_out as int, n_in as int);
    }
    let start = span_start_of(i, n_out, n_in);
    assert(((i as u64) + 1) * (n_in as u64) <= u64::MAX) by (nonlinear_arith)
        requires
            i < n_out,
            n_out <= u32::MAX,
            n_in <= u32::MAX,
    ;
    let next: u32 = (((i as u64) + 1) * (n_in as u64) / (n_out as u64)) as u32;
    if next > start + 1 {
        (start, next)
    } else {
        (start, start + 1)
    }
}

/// Nearest-neighbour resampling of a `width` by `height` RGB buffer to
/// `nw` by `nh` pixels: output pixel `(x, y)` copies source pixel
/// `(x * width / nw, y * height / nh)`.
pub fn sample_nearest<T: Copy>(rgb: &[T], width: u32, height: u32, nw: u32, nh: u32) -> (out: Vec<T>)
    requires
        rgb@.len() == width * height * 3,
        width >= 1,
        height >= 1,
        nw >= 1,
        nh >= 1,
        nw * nh * 3 <= usize::MAX,
    ensures
        out@ == sampled(rgb@, width as int, height as int, nw as int, nh as int),
{
    let ghost w = width as int;
    let ghost h = height as int;
    let ghost target = sampled(rgb@, w, h, nw as int, nh as int);
    let len = rgb.len();
    let mut out: Vec<T> = Vec::new();
    let mut y: u32 = 0;
    while y < nh
        invariant
            rgb@.len() == w * h * 3,
            rgb@.len() == len,
            w == width as int,
            h == height as int,
            w >= 1,
            h >= 1,
            nw >= 1,
            nh >= 1,
            nw * nh * 3 <= usize::MAX,
            target == sampled(rgb@, w, h, nw as int, nh as int),
            y <= nh,
            out@.len() == y * nw * 3,
            forall|k: int| 0 <= k < out@.len() ==> out@[k] == target[k],
        decreases nh - y,
    {
        let sy = span_start_of(y, nh, height);
        let mut x: u32 = 0;
        while x < nw
            invariant
                rgb@.len() == w * h * 3,
                rgb@.len() == len,
                w == width as int,
                h == height as int,
                w >= 1,
                h >= 1,
                nw >= 1,
                nh >= 1,
                nw * nh * 3 <= usize::MAX,
                target == sampled(rgb@, w, h, nw as int, nh as int),
                y < nh,
                sy == span_start(y as int, nh as int, h),
                x <= nw,
                out@.len() == (y * nw + x) * 3,
                forall|k: int| 0 <= k < out@.len() ==> out@[k] == target[k],
            decreases nw - x,
        {
            let sx = span_start_of(x, nw, width);
            proof {
                lemma_span_start_in_range(x as int, nw as int, w);
                lemma_span_start_in_range(y as int, nh as int, h);
                lemma_position_bound(sx as int, sy as int, w, h);
                lemma_position_bound(x as int, y as int, nw as int, nh as int);
            }
            let row: usize = (sy as usize) * (width as usize);
            let i: usize = (row + (sx as usize)) * 3;
            let ghost p = y * nw + x;
            proof {
                lemma_split(y as int, nw as int, x as int);
                assert forall|c: int| 0 <= c < 3 implies #[trigger] target[p * 3 + c] == rgb@[i + c] by {
                    lemma_split(p, 3, c);
                }
            }
            out.push(rgb[i]);
            out.push(rgb[i + 1]);
            out.push(rgb[i + 2]);
            x = x + 1;
            proof {
                assert(out@.len() == (y * nw + x) * 3) by (nonlinear_arith)
                    requires
                        out@.len() == p * 3 + 3,
                        p == y * nw + x - 1,
                ;
            }
        }
        y = y + 1;
        proof {
            assert(out@.len() == y * nw * 3) by (nonlinear_arith)
                requires
                    out@.len() == ((y - 1) * nw + nw) * 3,
            ;
        }
    }
    proof {
        assert(out@.len() == nw * nh * 3) by (nonlinear_arith)
            requires
                out@.len() == nh * nw * 3,
        ;
        assert(out@ =~= target);
    }
    out
}

} // verus!
