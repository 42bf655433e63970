use text_segments::{find_text_segments, grayscale, merge_rows, scan_row, thresholding, Interval};

fn rgba(pixels: &[[u8; 4]]) -> Vec<u8> {
    let mut out: Vec<u8> = Vec::new();
    for p in pixels {
        out.extend_from_slice(p);
    }
    out
}

#[test]
fn grayscale_zero_pixel() {
    let mut image = vec![0u8, 0, 0, 0];
    grayscale(&mut image, 1, 1);
    assert_eq!(image, vec![0u8, 0, 0, 0]);
}

#[test]
fn grayscale_exact_weights() {
    // 255*3/10 = 76, 255*9898557/2^24 = 150, 255*11/100 = 28; alpha untouched
    let mut image = vec![255u8, 255, 255, 200];
    grayscale(&mut image, 1, 1);
    assert_eq!(image, vec![76u8, 150, 28, 200]);
}

#[test]
fn grayscale_green_weight_is_binary32() {
    // red 100*3/10 = 30 and blue 100*11/100 = 11, but the green weight is
    // the binary32 constant 0.59 = 9898557/2^24, just below 59/100: green
    // 100 gives 58, not 59
    let mut image = vec![100u8, 100, 100, 7];
    grayscale(&mut image, 1, 1);
    assert_eq!(image, vec![30u8, 58, 11, 7]);

    // and green 200 gives 117, not 118; red 60 and blue 22 are unaffected
    let mut image = vec![200u8, 200, 200, 9];
    grayscale(&mut image, 1, 1);
    assert_eq!(image, vec![60u8, 117, 22, 9]);
}

#[test]
fn grayscale_two_by_two() {
    let mut image = rgba(&[[10, 20, 30, 1], [40, 50, 60, 2], [70, 80, 90, 3], [255, 0, 255, 4]]);
    grayscale(&mut image, 2, 2);
    assert_eq!(
        image,
        rgba(&[[3, 11, 3, 1], [12, 29, 6, 2], [21, 47, 9, 3], [76, 0, 28, 4]])
    );
}

#[test]
fn threshold_two_by_two_preserves_alpha() {
    // Grayscaled red channels are 15, 21, 27, 33, all below 95, so every
    // color channel becomes 255; the alphas 65, 85, 105, 125 pass through.
    let mut image = rgba(&[[50, 55, 60, 65], [70, 75, 80, 85], [90, 95, 100, 105], [
        110,
        115,
        120,
        125,
    ]]);
    thresholding(&mut image, 2, 2, 95);
    assert_eq!(
        image,
        rgba(&[[255, 255, 255, 65], [255, 255, 255, 85], [255, 255, 255, 105], [
            255,
            255,
            255,
            125,
        ]])
    );
}

#[test]
fn threshold_channels_equal_and_binary() {
    let mut image = rgba(&[[250, 13, 77, 9], [0, 200, 31, 8]]);
    thresholding(&mut image, 2, 1, 60);
    // pixel 0: gray 75 >= 60 -> 0; pixel 1: gray 0 < 60 -> 255
    assert_eq!(image, rgba(&[[0, 0, 0, 9], [255, 255, 255, 8]]));
}

#[test]
fn threshold_monotone_concrete() {
    // gray of red 250 is 75: below the threshold only once it is raised past
    // 75, so raising the threshold turns the pixel from black to white and
    // never the reverse.
    let mut low = vec![250u8, 0, 0, 9];
    thresholding(&mut low, 1, 1, 75);
    assert_eq!(low[0], 0);

    let mut high = vec![250u8, 0, 0, 9];
    thresholding(&mut high, 1, 1, 76);
    assert_eq!(high[0], 255);
}

#[test]
fn scan_row_gap_break_and_row_end() {
    // binarized colors 0, 255, 255, 0 with a gap tolerance of one column:
    // the second bright column breaks the run (tracker advanced to column 2),
    // the last column closes its own run at column 3
    let image = rgba(&[[0, 0, 0, 1], [255, 255, 255, 1], [255, 255, 255, 1], [0, 0, 0, 1]]);
    let out = scan_row(&image, 0, 4, 1, 10, 0);
    assert_eq!(out.len(), 2);
    assert_eq!(out[0], Interval { x1: 2, y1: 0, x2: 2, y2: 0 });
    assert_eq!(out[1], Interval { x1: 3, y1: 0, x2: 3, y2: 0 });
}

#[test]
fn scan_row_positive_min_width_emits_nothing() {
    // the accumulated run length the emission check compares never advances,
    // so any positive minimum width suppresses every emission
    let image = rgba(&[[0, 0, 0, 1], [0, 0, 0, 1], [0, 0, 0, 1], [0, 0, 0, 1]]);
    let out = scan_row(&image, 0, 4, 1, 10, 1);
    assert_eq!(out.len(), 0);
}

#[test]
fn scan_row_bright_row_emits_closed_tracker() {
    // a fully bright row still runs the end-of-row check; with no run ever
    // opened the tracker is still -1 when the zero-length interval is emitted
    let image = rgba(&[[255, 0, 0, 9], [255, 0, 0, 9]]);
    let out = scan_row(&image, 0, 2, 0, 0, 0);
    assert_eq!(out.len(), 1);
    assert_eq!(out[0], Interval { x1: -1, y1: 0, x2: -1, y2: 0 });
}

#[test]
fn merge_right_edge_rule() {
    // both horizontal edges take the minimum: the merged box keeps the
    // tighter right edge 10, not the bounding 20
    let a = vec![Interval { x1: 0, y1: 0, x2: 10, y2: 0 }];
    let b = vec![Interval { x1: 5, y1: 1, x2: 20, y2: 1 }];
    let out = merge_rows(&a, &b);
    assert_eq!(out.len(), 1);
    assert_eq!(out[0], Interval { x1: 0, y1: 0, x2: 10, y2: 1 });
}

#[test]
fn merge_right_edge_rule_reversed() {
    let a = vec![Interval { x1: 5, y1: 0, x2: 20, y2: 0 }];
    let b = vec![Interval { x1: 0, y1: 1, x2: 10, y2: 1 }];
    let out = merge_rows(&a, &b);
    assert_eq!(out.len(), 1);
    assert_eq!(out[0], Interval { x1: 0, y1: 0, x2: 10, y2: 1 });
}

#[test]
fn merge_without_partner_emits_nothing() {
    let a = vec![Interval { x1: 0, y1: 0, x2: 1, y2: 0 }];
    let b = vec![Interval { x1: 5, y1: 1, x2: 20, y2: 1 }];
    let out = merge_rows(&a, &b);
    assert_eq!(out.len(), 0);
}

#[test]
fn merge_interval_matches_itself() {
    let a = vec![Interval { x1: 2, y1: 3, x2: 7, y2: 3 }];
    let out = merge_rows(&a, &a);
    assert_eq!(out.len(), 1);
    assert_eq!(out[0], Interval { x1: 2, y1: 3, x2: 7, y2: 3 });
}

#[test]
fn empty_width_yields_no_segments() {
    let out = find_text_segments(Vec::new(), 0, 5, 1, 10, 0, 128);
    assert_eq!(out.len(), 0);
}

#[test]
fn empty_height_yields_no_segments() {
    let out = find_text_segments(Vec::new(), 5, 0, 1, 10, 0, 128);
    assert_eq!(out.len(), 0);
}

#[test]
fn end_to_end_all_dark_rows() {
    // every red channel grayscales to 76, at or above the threshold 50, so
    // every pixel binarizes to 0 and every row scans to the single interval
    // (3, y, 3, y); rows 0 and 1 then merge with themselves and the row below
    let mut pixels: Vec<[u8; 4]> = Vec::new();
    for _ in 0..16 {
        pixels.push([255, 1, 2, 7]);
    }
    let image = rgba(&pixels);
    let out = find_text_segments(image, 4, 4, 2, 10, 0, 50);
    assert_eq!(out.len(), 4);

    let expect = [(3, 0, 3, 0), (3, 0, 3, 1), (3, 1, 3, 1), (3, 1, 3, 2)];
    for (seg, (x1, y1, x2, y2)) in out.iter().zip(expect.iter()) {
        assert_eq!(seg.x1, *x1);
        assert_eq!(seg.y1, *y1);
        assert_eq!(seg.x2, *x2);
        assert_eq!(seg.y2, *y2);
        assert_eq!(seg.width, seg.x2 - seg.x1);
        assert_eq!(seg.height, seg.y2 - seg.y1);
        assert_eq!(seg.area, seg.width * seg.height);
    }
}
