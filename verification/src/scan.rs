//! Scanline run detection: walks one row of a binarized raster left to right,
//! tracking runs of dark pixels tolerant of small bright gaps, and emits the
//! per-row horizontal intervals.

#![verifier::loop_isolation(false)]
use vstd::prelude::*;

use crate::pixels::pix;

verus! {

/// A candidate text region: a horizontal run `(x1, y1)`–`(x2, y2)` before
/// derived fields are computed. The scanner emits intervals with
/// `y1 == y2`; the merger may widen the row span.
#[derive(Clone, Copy, PartialEq, Eq, Structural, Debug)]
pub struct Interval {
    pub x1: i32,
    pub y1: i32,
    pub x2: i32,
    pub y2: i32,
}

/// The scanner's state between columns: the advancing position tracker of the
/// open run (`-1` when no run is open), the bright and dark pixels counted
/// since the last reset, and the accumulated run length the emission check
/// compares against the minimum width.
pub struct ScanState {
    pub start: int,
    pub white: int,
    pub black: int,
    pub len: int,
}

/// The scanner's state at the start of a row: no run open, all counters zero.
pub open spec fn scan_init() -> ScanState {
    ScanState { start: -1, white: 0, black: 0, len: 0 }
}

/// One column of the scan. First the transition on the pixel's color: a
/// bright pixel inside an open run counts as gap, a dark pixel extends the
/// run and opens one at this column if none is open. Then the termination
/// check, evaluated every column: too long a gap, too long a dark stretch, or
/// the last column of the row closes the run, emitting an interval when the
/// accumulated length reaches the minimum. Finally an open run's position
/// tracker advances by one column.
pub open spec fn scan_step(
    st: ScanState,
    color: u8,
    x: int,
    y: int,
    width: int,
    max_white_space: int,
    max_font_line_width: int,
    min_text_width: int,
) -> (ScanState, Option<Interval>) {
    let st1 = if color == 255 && st.start != -1 {
        ScanState { start: st.start, white: st.white + 1, black: 0, len: st.len }
    } else if color == 0 {
        ScanState {
            start: if st.start == -1 {
                x
            } else {
                st.start
            },
            white: 0,
            black: st.black + 1,
            len: st.len,
        }
    } else {
        st
    };
    if st1.white > max_white_space || st1.black > max_font_line_width || x == width - 1 {
        let emit = if st1.len >= min_text_width {
            Some(
                Interval {
                    x1: st1.start as i32,
                    y1: y as i32,
                    x2: (st1.start + st1.len) as i32,
                    y2: y as i32,
                },
            )
        } else {
            None
        };
        (scan_init(), emit)
    } else if st1.start != -1 {
        (ScanState { start: st1.start + 1, white: st1.white, black: st1.black, len: st1.len }, None)
    } else {
        (st1, None)
    }
}

/// The scanner's state and the intervals emitted so far after the first `n`
/// columns of row `y`.
pub open spec fn scan_row_upto(
    s: Seq<u8>,
    y: int,
    width: int,
    max_white_space: int,
    max_font_line_width: int,
    min_text_width: int,
    n: int,
) -> (ScanState, Seq<Interval>)
    decreases n,
{
    if n <= 0 {
        (scan_init(), Seq::empty())
    } else {
        let prev = scan_row_upto(
            s,
            y,
            width,
            max_white_space,
            max_font_line_width,
            min_text_width,
            n - 1,
        );
        let step = scan_step(
            prev.0,
            s[pix(n - 1, y, width, 0)],
            n - 1,
            y,
            width,
            max_white_space,
            max_font_line_width,
            min_text_width,
        );
        match step.1 {
            Some(iv) => (step.0, prev.1.push(iv)),
            None => (step.0, prev.1),
        }
    }
}

/// The intervals row `y` produces: a full scan of its `width` columns.
pub open spec fn scan_row_spec(
    s: Seq<u8>,
    y: int,
    width: int,
    max_white_space: int,
    max_font_line_width: int,
    min_text_width: int,
) -> Seq<Interval> {
    scan_row_upto(s, y, width, max_white_space, max_font_line_width, min_text_width, width).1
}

/// An interval's coordinates stay inside the raster, give or take the `-1`
/// that marks a closed run's tracker.
pub open spec fn iv_ok(iv: Interval, width: int, height: int) -> bool {
    &&& -1 <= iv.x1 <= width
    &&& -1 <= iv.x2 <= width
    &&& 0 <= iv.y1 < height
    &&& 0 <= iv.y2 < height
}

/// Every interval of a sequence stays inside the raster.
pub open spec fn all_ok(list: Seq<Interval>, width: int, height: int) -> bool {
    forall|i: int| 0 <= i < list.len() ==> iv_ok(#[trigger] list[i], width, height)
}

/// Mid-scan the state's tracker and counters stay bounded by the columns seen,
/// and the accumulated run length never advances.
pub open spec fn st_ok(st: ScanState, n: int) -> bool {
    &&& -1 <= st.start <= n
    &&& 0 <= st.white <= n
    &&& 0 <= st.black <= n
    &&& st.len == 0
}

/// Bounds for everything the scan of a row produces: the state after `n`
/// columns, and every emitted interval.
pub proof fn lemma_scan_row_ok(
    s: Seq<u8>,
    y: int,
    width: int,
    height: int,
    max_white_space: int,
    max_font_line_width: int,
    min_text_width: int,
    n: int,
)
    requires
        0 <= y < height,
        height <= i32::MAX,
        width <= i32::MAX,
        0 <= n <= width,
    ensures
        st_ok(
            scan_row_upto(s, y, width, max_white_space, max_font_line_width, min_text_width, n).0,
            n,
        ),
        all_ok(
            scan_row_upto(s, y, width, max_white_space, max_font_line_width, min_text_width, n).1,
            width,
            height,
        ),
    decreases n,
{
    if n <= 0 {
    } else {
        lemma_scan_row_ok(
            s,
            y,
            width,
            height,
            max_white_space,
            max_font_line_width,
            min_text_width,
            n - 1,
        );
    }
}

/// Scanning a row never leaves an open run past the last column: the
/// termination check fires unconditionally on the final column, so the state
/// after a full scan is the closed initial state. The scan itself is a fold
/// over exactly `width` columns, so it is bounded by `width` steps.
pub proof fn lemma_scan_row_closes(
    s: Seq<u8>,
    y: int,
    width: int,
    max_white_space: int,
    max_font_line_width: int,
    min_text_width: int,
)
    requires
        1 <= width,
    ensures
        scan_row_upto(s, y, width, max_white_space, max_font_line_width, min_text_width, width).0
            == scan_init(),
        scan_row_upto(
            s,
            y,
            width,
            max_white_space,
            max_font_line_width,
            min_text_width,
            width,
        ).0.start == -1,
{
}

/// Scans one row of a binarized raster and returns its intervals in
/// left-to-right emission order.
pub fn scan_row(
    image: &Vec<u8>,
    y: i32,
    width: i32,
    max_white_space: i32,
    max_font_line_width: i32,
    min_text_width: i32,
) -> (out: Vec<Interval>)
    requires
        0 <= y,
        0 <= width,
        4 * ((y as int) + 1) * (width as int) <= image@.len(),
        image@.len() <= i32::MAX,
    ensures
        out@ == scan_row_spec(
            image@,
            y as int,
            width as int,
            max_white_space as int,
            max_font_line_width as int,
            min_text_width as int,
        ),
{
    let mut out: Vec<Interval> = Vec::new();
    let mut pattern_start_x: i32 = -1;
    let mut pattern_length: i32 = 0;
    let mut white_pixels: i32 = 0;
    let mut black_pixels: i32 = 0;

    proof {
        assert(4 * (width as int) <= 4 * ((y as int) + 1) * (width as int)) by (nonlinear_arith)
            requires
                0 <= y as int,
                0 <= width as int,
        ;
    }
    let mut x: i32 = 0;
    while x < width
        invariant
            0 <= x <= width,
            -1 <= pattern_start_x <= x,
            0 <= white_pixels <= x,
            0 <= black_pixels <= x,
            pattern_length == 0,
            scan_row_upto(
                image@,
                y as int,
                width as int,
                max_white_space as int,
                max_font_line_width as int,
                min_text_width as int,
                x as int,
            ).0 == (ScanState {
                start: pattern_start_x as int,
                white: white_pixels as int,
                black: black_pixels as int,
                len: pattern_length as int,
            }),
            scan_row_upto(
                image@,
                y as int,
                width as int,
                max_white_space as int,
                max_font_line_width as int,
                min_text_width as int,
                x as int,
            ).1 == out@,
        decreases width - x,
    {
        proof {
            assert((((y as int) * (width as int)) + (x as int)) * 4 + 0 < 4 * ((y as int) + 1) * (
            width as int)) by (nonlinear_arith)
                requires
                    0 <= x as int,
                    (x as int) < (width as int),
                    0 <= y as int,
            ;
            assert(0 <= ((y as int) * (width as int) + (x as int)) * 4 + 0) by (nonlinear_arith)
                requires
                    0 <= x as int,
                    0 <= y as int,
                    0 <= width as int,
            ;
        }
        let idx = crate::pixels::get_index(x, y, width, 0);
        let color: u8 = image[idx];

        if color == 255 && pattern_start_x != -1 {
            white_pixels = white_pixels + 1;
            black_pixels = 0;
        } else if color == 0 {
            black_pixels = black_pixels + 1;
            if pattern_start_x == -1 {
                pattern_start_x = x;
            }
            white_pixels = 0;
        }
        if white_pixels > max_white_space || black_pixels > max_font_line_width || x == width - 1 {
            if pattern_length >= min_text_width {
                out.push(
                    Interval {
                        x1: pattern_start_x,
                        y1: y,
                        x2: pattern_start_x + pattern_length,
                        y2: y,
                    },
                );
            }
            white_pixels = 0;
            black_pixels = 0;
            pattern_length = 0;
            pattern_start_x = -1;
        }
        if pattern_start_x != -1 {
            pattern_start_x = pattern_start_x + 1;
        }
        x = x + 1;
    }
    out
}

} // verus!
