use realraw::develop::orientation::apply_orientation_rgb;
use realraw::develop::resample::{box_span, sample_nearest};

/// A 3x2 buffer whose pixel (x, y) holds the channels (10y + x, 100 + 10y + x, 200 + 10y + x).
fn grid() -> Vec<u32> {
    let mut v = Vec::new();
    for y in 0..2u32 {
        for x in 0..3u32 {
            let p = 10 * y + x;
            v.extend_from_slice(&[p, 100 + p, 200 + p]);
        }
    }
    v
}

/// The first channel of every pixel, row by row.
fn firsts(buf: &[u32]) -> Vec<u32> {
    buf.chunks(3).map(|c| c[0]).collect()
}

#[test]
fn orientation_one_and_unknown_leave_buffer() {
    assert_eq!(apply_orientation_rgb(grid(), 3, 2, 1), (3, 2, grid()));
    assert_eq!(apply_orientation_rgb(grid(), 3, 2, 0), (3, 2, grid()));
    assert_eq!(apply_orientation_rgb(grid(), 3, 2, 9), (3, 2, grid()));
    assert_eq!(apply_orientation_rgb(vec![1u32, 2], 3, 2, -4), (3, 2, vec![1, 2]));
}

#[test]
fn orientation_mirrors_and_half_turn() {
    let (w, h, out) = apply_orientation_rgb(grid(), 3, 2, 2);
    assert_eq!((w, h), (3, 2));
    assert_eq!(firsts(&out), vec![2, 1, 0, 12, 11, 10]);
    let (_, _, out) = apply_orientation_rgb(grid(), 3, 2, 3);
    assert_eq!(firsts(&out), vec![12, 11, 10, 2, 1, 0]);
    let (_, _, out) = apply_orientation_rgb(grid(), 3, 2, 4);
    assert_eq!(firsts(&out), vec![10, 11, 12, 0, 1, 2]);
    // Channels travel together.
    assert_eq!(&out[0..3], &[10, 110, 210]);
}

#[test]
fn orientation_quarter_turns_swap_axes() {
    // 6: rotate 90 degrees clockwise.
    let (w, h, out) = apply_orientation_rgb(grid(), 3, 2, 6);
    assert_eq!((w, h), (2, 3));
    assert_eq!(firsts(&out), vec![10, 0, 11, 1, 12, 2]);
    // 8: rotate 90 degrees counter-clockwise.
    let (w, h, out) = apply_orientation_rgb(grid(), 3, 2, 8);
    assert_eq!((w, h), (2, 3));
    assert_eq!(firsts(&out), vec![2, 12, 1, 11, 0, 10]);
    // 5: transpose.
    let (w, h, five) = apply_orientation_rgb(grid(), 3, 2, 5);
    assert_eq!((w, h), (2, 3));
    assert_eq!(firsts(&five), vec![0, 10, 1, 11, 2, 12]);
    assert_eq!(&five[2 * 3..3 * 3], &[1, 101, 201]);
    // 7: mirror, then rotate clockwise.
    let (w, h, out) = apply_orientation_rgb(grid(), 3, 2, 7);
    assert_eq!((w, h), (2, 3));
    assert_eq!(firsts(&out), vec![12, 2, 11, 1, 10, 0]);
}

#[test]
fn four_clockwise_quarter_turns_restore_the_image() {
    let (w, h, a) = apply_orientation_rgb(grid(), 3, 2, 6);
    let (w, h, b) = apply_orientation_rgb(a, w, h, 6);
    let (w, h, c) = apply_orientation_rgb(b, w, h, 6);
    let (w, h, d) = apply_orientation_rgb(c, w, h, 6);
    assert_eq!((w, h, d), (3, 2, grid()));
}

#[test]
fn box_spans_partition_the_source() {
    assert_eq!(box_span(0, 2, 5), (0, 2));
    assert_eq!(box_span(1, 2, 5), (2, 5));
    // Upsampling never yields an empty span.
    assert_eq!(box_span(0, 4, 2), (0, 1));
    assert_eq!(box_span(1, 4, 2), (0, 1));
    assert_eq!(box_span(3, 4, 2), (1, 2));
}

#[test]
fn nearest_sampling_picks_span_starts() {
    let out = sample_nearest(&grid(), 3, 2, 2, 1);
    // x: 0 * 3 / 2 = 0, 1 * 3 / 2 = 1; y: 0.
    assert_eq!(out, vec![0, 100, 200, 1, 101, 201]);
    let same = sample_nearest(&grid(), 3, 2, 3, 2);
    assert_eq!(same, grid());
}
