//! The detection pipeline: scans every row of a binarized raster into
//! intervals, merges each row's intervals with the same row and the row
//! below, and flattens the merged table into output records.

#![verifier::loop_isolation(false)]
use vstd::prelude::*;

use crate::merge::merge_rows;
use crate::merge::merge_rows_spec;
use crate::pixels::thresh_spec;
use crate::pixels::thresholding;
use crate::scan::all_ok;
use crate::scan::iv_ok;
use crate::scan::lemma_scan_row_ok;
use crate::scan::scan_row;
use crate::scan::scan_row_spec;
use crate::scan::Interval;

verus! {

/// An output text region: a bounding box with its derived width, height and
/// area. The derived fields are computed once from the interval at
/// construction and never mutated; they may be negative, since the merge rule
/// narrows the right edge.
#[derive(Clone, Copy, PartialEq, Eq, Structural, Debug)]
pub struct Segment {
    pub x1: i32,
    pub y1: i32,
    pub x2: i32,
    pub y2: i32,
    pub width: i32,
    pub height: i32,
    pub area: i32,
}

/// The record an interval turns into: the corners carried over, width and
/// height the signed edge differences, area their product.
pub open spec fn segment_of(iv: Interval) -> Segment {
    Segment {
        x1: iv.x1,
        y1: iv.y1,
        x2: iv.x2,
        y2: iv.y2,
        width: (iv.x2 - iv.x1) as i32,
        height: (iv.y2 - iv.y1) as i32,
        area: ((iv.x2 - iv.x1) * (iv.y2 - iv.y1)) as i32,
    }
}

/// The per-row interval table a scan of the whole raster produces.
pub open spec fn rows_spec(
    s: Seq<u8>,
    height: int,
    width: int,
    max_white_space: int,
    max_font_line_width: int,
    min_text_width: int,
) -> Seq<Seq<Interval>> {
    Seq::new(
        height as nat,
        |y: int| scan_row_spec(s, y, width, max_white_space, max_font_line_width, min_text_width),
    )
}

/// The merged intervals of row `y`: the row's intervals merged against the
/// same row, then against the row below. The last two rows never produce
/// merged output — an edge-of-raster limitation of the pairing.
pub open spec fn merged_row(rows: Seq<Seq<Interval>>, y: int, height: int) -> Seq<Interval> {
    if y < height - 2 {
        merge_rows_spec(rows[y], rows[y]) + merge_rows_spec(rows[y], rows[y + 1])
    } else {
        Seq::empty()
    }
}

/// The whole merged table.
pub open spec fn merged_rows_spec(rows: Seq<Seq<Interval>>, height: int) -> Seq<Seq<Interval>> {
    Seq::new(height as nat, |y: int| merged_row(rows, y, height))
}

/// The records of the first `n` intervals of one merged row, in list order.
pub open spec fn row_records(list: Seq<Interval>, n: int) -> Seq<Segment>
    decreases n,
{
    if n <= 0 {
        Seq::empty()
    } else {
        row_records(list, n - 1).push(segment_of(list[n - 1]))
    }
}

/// The records of the first `n` rows of the merged table, row order first,
/// list order within a row.
pub open spec fn records_upto(merged: Seq<Seq<Interval>>, n: int) -> Seq<Segment>
    decreases n,
{
    if n <= 0 {
        Seq::empty()
    } else {
        records_upto(merged, n - 1) + row_records(merged[n - 1], merged[n - 1].len() as int)
    }
}

/// Everything detection returns for a binarized buffer: scan, merge, then
/// flatten into records.
pub open spec fn find_text_spec(
    s: Seq<u8>,
    height: int,
    width: int,
    max_white_space: int,
    max_font_line_width: int,
    min_text_width: int,
) -> Seq<Segment> {
    records_upto(
        merged_rows_spec(
            rows_spec(s, height, width, max_white_space, max_font_line_width, min_text_width),
            height,
        ),
        height,
    )
}

/// A merged box of in-raster intervals has edge differences and an area that
/// fit the output record's fields.
proof fn lemma_area_fits(x1: int, x2: int, y1: int, y2: int, w: int, h: int)
    by (nonlinear_arith)
    requires
        -1 <= x1 <= w,
        -1 <= x2 <= w,
        0 <= y1 < h,
        0 <= y2 < h,
        0 <= w,
        h <= i32::MAX,
        4 * w * h <= i32::MAX,
    ensures
        -(i32::MAX as int) <= x2 - x1 <= i32::MAX,
        -(i32::MAX as int) <= y2 - y1 <= i32::MAX,
        -(i32::MAX as int) <= (x2 - x1) * (y2 - y1) <= i32::MAX,
{
}

/// Detects text regions in an already binarized buffer: every row is scanned
/// into intervals, each row's intervals are merged against the same row and
/// the row below, and the merged table is flattened into records in row
/// order.
pub fn find_text(
    image: Vec<u8>,
    height: i32,
    width: i32,
    max_white_space: i32,
    max_font_line_width: i32,
    min_text_width: i32,
) -> (result: Vec<Segment>)
    requires
        0 <= width,
        0 <= height,
        image@.len() == 4 * (width as int) * (height as int),
        4 * (width as int) * (height as int) <= i32::MAX,
    ensures
        result@ == find_text_spec(
            image@,
            height as int,
            width as int,
            max_white_space as int,
            max_font_line_width as int,
            min_text_width as int,
        ),
{
    let ghost s = image@;
    let ghost rows = rows_spec(
        s,
        height as int,
        width as int,
        max_white_space as int,
        max_font_line_width as int,
        min_text_width as int,
    );
    let ghost merged = merged_rows_spec(rows, height as int);

    let mut segments: Vec<Vec<Interval>> = Vec::new();
    let mut y: i32 = 0;
    while y < height
        invariant
            0 <= y <= height,
            segments@.len() == y as int,
            forall|r: int| 0 <= r < y as int ==> #[trigger] segments@[r]@ == rows[r],
        decreases height - y,
    {
        proof {
            assert(4 * ((y as int) + 1) * (width as int) <= 4 * (width as int) * (
            height as int)) by (nonlinear_arith)
                requires
                    0 <= y as int,
                    (y as int) < (height as int),
                    0 <= width as int,
            ;
        }
        let row = scan_row(&image, y, width, max_white_space, max_font_line_width, min_text_width);
        segments.push(row);
        y = y + 1;
    }

    proof {
        assert forall|r: int| 0 <= r < height as int implies all_ok(
            rows[r],
            width as int,
            height as int,
        ) by {
            lemma_scan_row_ok(
                s,
                r,
                width as int,
                height as int,
                max_white_space as int,
                max_font_line_width as int,
                min_text_width as int,
                width as int,
            );
        }
        assert forall|r: int| 0 <= r < height as int implies all_ok(
            #[trigger] merged[r],
            width as int,
            height as int,
        ) by {
            if r < height as int - 2 {
                let m1 = merge_rows_spec(rows[r], rows[r]);
                let m2 = merge_rows_spec(rows[r], rows[r + 1]);
                crate::merge::lemma_merge_ok(
                    rows[r],
                    rows[r],
                    width as int,
                    height as int,
                    rows[r].len() as int,
                );
                crate::merge::lemma_merge_ok(
                    rows[r],
                    rows[r + 1],
                    width as int,
                    height as int,
                    rows[r].len() as int,
                );
                assert forall|i: int| 0 <= i < (m1 + m2).len() implies iv_ok(
                    #[trigger] (m1 + m2)[i],
                    width as int,
                    height as int,
                ) by {
                    if i < m1.len() {
                        assert((m1 + m2)[i] == m1[i]);
                    } else {
                        assert((m1 + m2)[i] == m2[i - m1.len()]);
                    }
                }
            }
        }
    }

    let mut raw_segments: Vec<Vec<Interval>> = Vec::new();
    let mut y: i32 = 0;
    while y < height
        invariant
            0 <= y <= height,
            segments@.len() == height as int,
            forall|r: int| 0 <= r < height as int ==> #[trigger] segments@[r]@ == rows[r],
            raw_segments@.len() == y as int,
            forall|r: int| 0 <= r < y as int ==> #[trigger] raw_segments@[r]@ == merged[r],
        decreases height - y,
    {
        if y < height - 2 {
            let mut m = merge_rows(&segments[y as usize], &segments[y as usize]);
            let mut m2 = merge_rows(&segments[y as usize], &segments[(y + 1) as usize]);
            m.append(&mut m2);
            raw_segments.push(m);
        } else {
            raw_segments.push(Vec::new());
        }
        y = y + 1;
    }

    let mut result: Vec<Segment> = Vec::new();
    let mut y: i32 = 0;
    while y < height
        invariant
            0 <= y <= height,
            raw_segments@.len() == height as int,
            forall|r: int| 0 <= r < height as int ==> #[trigger] raw_segments@[r]@ == merged[r],
            forall|r: int|
                0 <= r < height as int ==> all_ok(#[trigger] merged[r], width as int, height as int),
            result@ == records_upto(merged, y as int),
        decreases height - y,
    {
        let list_len = raw_segments[y as usize].len();
        let mut j: usize = 0;
        while j < list_len
            invariant
                0 <= y < height,
                j <= list_len,
                raw_segments@.len() == height as int,
                forall|r: int| 0 <= r < height as int ==> #[trigger] raw_segments@[r]@ == merged[r],
                forall|r: int|
                    0 <= r < height as int ==> all_ok(
                        #[trigger] merged[r],
                        width as int,
                        height as int,
                    ),
                list_len == merged[y as int].len(),
                result@ == records_upto(merged, y as int) + row_records(merged[y as int], j as int),
            decreases list_len - j,
        {
            let seg = raw_segments[y as usize][j];
            proof {
                assert(iv_ok(seg, width as int, height as int));
                lemma_area_fits(
                    seg.x1 as int,
                    seg.x2 as int,
                    seg.y1 as int,
                    seg.y2 as int,
                    width as int,
                    height as int,
                );
            }
            let seg_width = seg.x2 - seg.x1;
            let seg_height = seg.y2 - seg.y1;
            result.push(
                Segment {
                    x1: seg.x1,
                    y1: seg.y1,
                    x2: seg.x2,
                    y2: seg.y2,
                    width: seg_width,
                    height: seg_height,
                    area: seg_width * seg_height,
                },
            );
            j = j + 1;
        }
        proof {
            assert(result@ == records_upto(merged, y as int + 1));
        }
        y = y + 1;
    }
    result
}

/// The full pipeline: binarizes the buffer around the threshold (running the
/// grayscale pass first), then detects text regions in it.
pub fn find_text_segments(
    image_data: Vec<u8>,
    width: i32,
    height: i32,
    max_white_space: i32,
    max_font_line_width: i32,
    min_text_width: i32,
    gray_scale_threshold: u8,
) -> (result: Vec<Segment>)
    requires
        0 <= width,
        0 <= height,
        image_data@.len() == 4 * (width as int) * (height as int),
        4 * (width as int) * (height as int) <= i32::MAX,
    ensures
        result@ == find_text_spec(
            thresh_spec(image_data@, gray_scale_threshold),
            height as int,
            width as int,
            max_white_space as int,
            max_font_line_width as int,
            min_text_width as int,
        ),
{
    let mut image = image_data;
    thresholding(&mut image, width, height, gray_scale_threshold);
    find_text(image, height, width, max_white_space, max_font_line_width, min_text_width)
}

/// An empty raster yields no records: with zero width every row scans to an
/// empty interval list and merging empty rows produces nothing, and with
/// zero height there are no rows at all.
pub proof fn lemma_empty_input(
    s: Seq<u8>,
    height: int,
    width: int,
    max_white_space: int,
    max_font_line_width: int,
    min_text_width: int,
)
    requires
        0 <= width,
        0 <= height,
        width == 0 || height == 0,
    ensures
        find_text_spec(s, height, width, max_white_space, max_font_line_width, min_text_width)
            == Seq::<Segment>::empty(),
{
    let rows = rows_spec(s, height, width, max_white_space, max_font_line_width, min_text_width);
    let merged = merged_rows_spec(rows, height);
    assert forall|y: int| 0 <= y < height implies #[trigger] merged[y] =~= Seq::<Interval>::empty()
    by {
        if y < height - 2 {
            assert(rows[y] =~= Seq::<Interval>::empty());
            assert(rows[y + 1] =~= Seq::<Interval>::empty());
        }
    }
    lemma_records_empty(merged, height);
}

/// Flattening a table of empty rows yields no records.
proof fn lemma_records_empty(merged: Seq<Seq<Interval>>, n: int)
    requires
        forall|y: int| 0 <= y < n ==> #[trigger] merged[y] == Seq::<Interval>::empty(),
    ensures
        records_upto(merged, n) == Seq::<Segment>::empty(),
    decreases n,
{
    if n <= 0 {
    } else {
        lemma_records_empty(merged, n - 1);
        assert(records_upto(merged, n) =~= Seq::<Segment>::empty());
    }
}

} // verus!
