//! Conversion of decoded JPEG pixel buffers to 8-bit RGBA.

use vstd::prelude::*;

verus! {

/// The RGBA quadruple for one opaque grey pixel of level `p`.
pub open spec fn grey_px(p: u8) -> Seq<u8> {
    seq![p, p, p, 255u8]
}

/// `rgba` holds, for every `i < n`, the four bytes `px(i)`.
pub open spec fn is_rgba_of(rgba: Seq<u8>, n: nat, px: spec_fn(int) -> Seq<u8>) -> bool {
    &&& rgba.len() == 4 * n
    &&& forall|i: int, c: int| #![trigger rgba[4 * i + c]]
        0 <= i < n && 0 <= c < 4 ==> rgba[4 * i + c] == px(i)[c]
}

/// The RGBA buffer of `n` pixels whose `i`-th pixel is `px(i)`.
pub open spec fn rgba_seq(n: nat, px: spec_fn(int) -> Seq<u8>) -> Seq<u8> {
    Seq::new(4 * n, |k: int| px(k / 4)[k % 4])
}

/// A buffer laid out as `is_rgba_of` says is exactly `rgba_seq`.
pub proof fn lemma_rgba_seq(rgba: Seq<u8>, n: nat, px: spec_fn(int) -> Seq<u8>)
    requires
        is_rgba_of(rgba, n, px),
    ensures
        rgba == rgba_seq(n, px),
{
    assert forall|k: int| 0 <= k < rgba.len() implies rgba[k] == rgba_seq(n, px)[k] by {
        let i = k / 4;
        let c = k % 4;
        assert(k == 4 * i + c);
        assert(rgba[4 * i + c] == px(i)[c]);
    }
    assert(rgba =~= rgba_seq(n, px));
}

/// One CMYK channel (inverted, as JPEG stores Adobe CMYK) combined with
/// the key channel into an 8-bit RGB channel.
pub open spec fn cmyk_channel(x: u8, k: u8) -> u8 {
    (255 - (x * (255 - k) / 255 + k)) as u8
}

/// Every complete RGB triple of `rgb`, with an opaque alpha added.
/// A trailing partial triple is dropped.
pub fn rgb_to_rgba(rgb: &[u8]) -> (out: Vec<u8>)
    ensures
        is_rgba_of(out@, rgb@.len() / 3,
            |i: int| seq![rgb@[3 * i], rgb@[3 * i + 1], rgb@[3 * i + 2], 255u8]),
{
    let n = rgb.len() / 3;
    let mut out: Vec<u8> = Vec::new();
    let mut i: usize = 0;
    while i < n
        invariant
            n == rgb@.len() / 3,
            rgb@.len() == rgb.len(),
            i <= n,
            out@.len() == 4 * i,
            forall|j: int, c: int| #![trigger out@[4 * j + c]]
                0 <= j < i && 0 <= c < 4 ==> out@[4 * j + c]
                    == seq![rgb@[3 * j], rgb@[3 * j + 1], rgb@[3 * j + 2], 255u8][c],
        decreases n - i,
    {
        let r = rgb[3 * i];
        let g = rgb[3 * i + 1];
        let b = rgb[3 * i + 2];
        out.push(r);
        out.push(g);
        out.push(b);
        out.push(255u8);
        i = i + 1;
    }
    out
}

/// Every grey byte of `l` expanded to an opaque RGBA pixel.
pub fn l_to_rgba(l: &[u8]) -> (out: Vec<u8>)
    ensures
        is_rgba_of(out@, l@.len(), |i: int| grey_px(l@[i])),
{
    let n = l.len();
    let mut out: Vec<u8> = Vec::new();
    let mut i: usize = 0;
    while i < n
        invariant
            n == l@.len(),
            i <= n,
            out@.len() == 4 * i,
            forall|j: int, c: int| #![trigger out@[4 * j + c]]
                0 <= j < i && 0 <= c < 4 ==> out@[4 * j + c] == grey_px(l@[j])[c],
        decreases n - i,
    {
        let p = l[i];
        out.push(p);
        out.push(p);
        out.push(p);
        out.push(255u8);
        i = i + 1;
    }
    out
}

/// Every complete big-endian 16-bit grey sample of `l` expanded to an
/// opaque RGBA pixel. The sample is narrowed to 8 bits by truncation,
/// which keeps its low (second) byte.
pub fn l16_to_rgba(l: &[u8]) -> (out: Vec<u8>)
    ensures
        is_rgba_of(out@, l@.len() / 2, |i: int| grey_px(l@[2 * i + 1])),
{
    let n = l.len() / 2;
    let mut out: Vec<u8> = Vec::new();
    let mut i: usize = 0;
    while i < n
        invariant
            n == l@.len() / 2,
            l@.len() == l.len(),
            i <= n,
            out@.len() == 4 * i,
            forall|j: int, c: int| #![trigger out@[4 * j + c]]
                0 <= j < i && 0 <= c < 4 ==> out@[4 * j + c] == grey_px(l@[2 * j + 1])[c],
        decreases n - i,
    {
        let hi = l[2 * i];
        let lo = l[2 * i + 1];
        let p = u16_be_low_byte(hi, lo);
        out.push(p);
        out.push(p);
        out.push(p);
        out.push(255u8);
        i = i + 1;
    }
    out
}

/// The big-endian 16-bit value `hi:lo` narrowed to `u8`.
fn u16_be_low_byte(hi: u8, lo: u8) -> (p: u8)
    ensures
        p == lo,
{
    let v: u16 = (hi as u16) * 256 + (lo as u16);
    let p = v as u8;
    assert(((hi as u16) * 256 + (lo as u16)) as u8 == lo) by (bit_vector);
    p
}

/// One inverted CMYK channel converted to RGB.
fn cmyk_to_channel(x: u8, k: u8) -> (r: u8)
    ensures
        r == cmyk_channel(x, k),
{
    let xx = x as u32;
    let kk = k as u32;
    assert(xx * (255 - kk) <= 255 * (255 - kk)) by (nonlinear_arith)
        requires xx <= 255, kk <= 255;
    let q = xx * (255 - kk) / 255;
    assert(q <= 255 - kk) by (nonlinear_arith)
        requires q == xx * (255 - kk) / 255, xx <= 255, kk <= 255;
    let s = q + kk;
    (255 - s) as u8
}

/// Every complete CMYK quadruple of `cmyk` converted to an opaque RGBA
/// pixel (`255 - (c * (255 - k) / 255 + k)` per channel).
pub fn cmyk_to_rgba(cmyk: &[u8]) -> (out: Vec<u8>)
    ensures
        is_rgba_of(out@, cmyk@.len() / 4, |i: int| seq![
            cmyk_channel(cmyk@[4 * i], cmyk@[4 * i + 3]),
            cmyk_channel(cmyk@[4 * i + 1], cmyk@[4 * i + 3]),
            cmyk_channel(cmyk@[4 * i + 2], cmyk@[4 * i + 3]),
            255u8,
        ]),
{
    let n = cmyk.len() / 4;
    let mut out: Vec<u8> = Vec::new();
    let mut i: usize = 0;
    while i < n
        invariant
            n == cmyk@.len() / 4,
            cmyk@.len() == cmyk.len(),
            i <= n,
            out@.len() == 4 * i,
            forall|j: int, c: int| #![trigger out@[4 * j + c]]
                0 <= j < i && 0 <= c < 4 ==> out@[4 * j + c] == seq![
                    cmyk_channel(cmyk@[4 * j], cmyk@[4 * j + 3]),
                    cmyk_channel(cmyk@[4 * j + 1], cmyk@[4 * j + 3]),
                    cmyk_channel(cmyk@[4 * j + 2], cmyk@[4 * j + 3]),
                    255u8,
                ][c],
        decreases n - i,
    {
        let k = cmyk[4 * i + 3];
        let r = cmyk_to_channel(cmyk[4 * i], k);
        let g = cmyk_to_channel(cmyk[4 * i + 1], k);
        let b = cmyk_to_channel(cmyk[4 * i + 2], k);
        out.push(r);
        out.push(g);
        out.push(b);
        out.push(255u8);
        i = i + 1;
    }
    out
}

} // verus!
