//! Row-pair interval merging: compares each interval of a row against the
//! intervals of the same row and of the row below, and merges the first
//! horizontally connected partner found into a wider box.

#![verifier::loop_isolation(false)]
use vstd::prelude::*;

use crate::scan::all_ok;
use crate::scan::iv_ok;
use crate::scan::Interval;

verus! {

/// Two intervals are horizontally connected when `a` contains `b`'s span or
/// either endpoint of `a` falls inside `b`'s span.
pub open spec fn overlaps(a: Interval, b: Interval) -> bool {
    ||| (a.x1 <= b.x1 && a.x2 >= b.x2)
    ||| (a.x1 >= b.x1 && a.x1 <= b.x2)
    ||| (a.x2 >= b.x1 && a.x2 <= b.x2)
}

/// The merged box: the smaller left edge, `a`'s top row, the smaller — not
/// the larger — right edge, and `b`'s bottom row. Taking the minimum on both
/// horizontal edges narrows the merged box to the tighter right edge rather
/// than bounding both spans.
pub open spec fn merge_pair(a: Interval, b: Interval) -> Interval {
    Interval {
        x1: if a.x1 <= b.x1 {
            a.x1
        } else {
            b.x1
        },
        y1: a.y1,
        x2: if a.x2 <= b.x2 {
            a.x2
        } else {
            b.x2
        },
        y2: b.y2,
    }
}

/// The first partner in `ws`, in table order, that `a` is connected to.
pub open spec fn first_match(a: Interval, ws: Seq<Interval>) -> Option<Interval>
    decreases ws.len(),
{
    if ws.len() == 0 {
        None
    } else if overlaps(a, ws[0]) {
        Some(ws[0])
    } else {
        first_match(a, ws.drop_first())
    }
}

/// The merged intervals produced by the first `n` entries of `ys`, each
/// merged with its first connected partner in `ws`, entries without a partner
/// contributing nothing.
pub open spec fn merge_upto(ys: Seq<Interval>, ws: Seq<Interval>, n: int) -> Seq<Interval>
    decreases n,
{
    if n <= 0 {
        Seq::empty()
    } else {
        let rest = merge_upto(ys, ws, n - 1);
        match first_match(ys[n - 1], ws) {
            Some(b) => rest.push(merge_pair(ys[n - 1], b)),
            None => rest,
        }
    }
}

/// The merged intervals of a whole row `ys` against a partner row `ws`.
pub open spec fn merge_rows_spec(ys: Seq<Interval>, ws: Seq<Interval>) -> Seq<Interval> {
    merge_upto(ys, ws, ys.len() as int)
}

/// A first match found in `ws` stays inside the raster when all of `ws` does.
proof fn lemma_first_match_ok(a: Interval, ws: Seq<Interval>, width: int, height: int)
    requires
        all_ok(ws, width, height),
    ensures
        match first_match(a, ws) {
            Some(b) => iv_ok(b, width, height),
            None => true,
        },
    decreases ws.len(),
{
    if ws.len() == 0 {
    } else if overlaps(a, ws[0]) {
    } else {
        assert(all_ok(ws.drop_first(), width, height));
        lemma_first_match_ok(a, ws.drop_first(), width, height);
    }
}

/// Merged intervals stay inside the raster when both rows do.
pub proof fn lemma_merge_ok(ys: Seq<Interval>, ws: Seq<Interval>, width: int, height: int, n: int)
    requires
        all_ok(ys, width, height),
        all_ok(ws, width, height),
        n <= ys.len(),
    ensures
        all_ok(merge_upto(ys, ws, n), width, height),
    decreases n,
{
    if n <= 0 {
    } else {
        lemma_merge_ok(ys, ws, width, height, n - 1);
        lemma_first_match_ok(ys[n - 1], ws, width, height);
    }
}

/// Skipping past an entry that is not connected does not change the first
/// match.
proof fn lemma_first_match_skip(a: Interval, ws: Seq<Interval>, j: int)
    requires
        0 <= j < ws.len(),
        !overlaps(a, ws[j]),
    ensures
        first_match(a, ws.skip(j)) == first_match(a, ws.skip(j + 1)),
{
    assert(ws.skip(j)[0] == ws[j]);
    assert(ws.skip(j).drop_first() =~= ws.skip(j + 1));
}

/// Finds the first interval of `ws` that `a` is horizontally connected to.
fn find_first_match(a: Interval, ws: &Vec<Interval>) -> (r: Option<usize>)
    ensures
        match r {
            Some(j) => {
                &&& (j as int) < ws@.len()
                &&& first_match(a, ws@) == Some(ws@[j as int])
            },
            None => first_match(a, ws@) is None,
        },
{
    let mut j: usize = 0;
    proof {
        assert(ws@.skip(0) =~= ws@);
    }
    while j < ws.len()
        invariant
            j <= ws@.len(),
            first_match(a, ws@) == first_match(a, ws@.skip(j as int)),
        decreases ws@.len() - j,
    {
        let b = ws[j];
        let hit = (a.x1 <= b.x1 && a.x2 >= b.x2) || (a.x1 >= b.x1 && a.x1 <= b.x2) || (a.x2 >= b.x1
            && a.x2 <= b.x2);
        proof {
            assert(ws@.skip(j as int)[0] == ws@[j as int]);
        }
        if hit {
            return Some(j);
        }
        proof {
            lemma_first_match_skip(a, ws@, j as int);
        }
        j = j + 1;
    }
    proof {
        assert(ws@.skip(j as int) =~= Seq::<Interval>::empty());
    }
    None
}

/// Merges each interval of `list_y` with the first connected partner in
/// `list_w`, in table order, and returns the merged intervals in the order of
/// `list_y`; intervals without a partner contribute nothing.
pub fn merge_rows(list_y: &Vec<Interval>, list_w: &Vec<Interval>) -> (out: Vec<Interval>)
    ensures
        out@ == merge_rows_spec(list_y@, list_w@),
{
    let mut out: Vec<Interval> = Vec::new();
    let mut i: usize = 0;
    while i < list_y.len()
        invariant
            i <= list_y@.len(),
            out@ == merge_upto(list_y@, list_w@, i as int),
        decreases list_y@.len() - i,
    {
        let a = list_y[i];
        match find_first_match(a, list_w) {
            Some(j) => {
                let b = list_w[j];
                let x1 = if a.x1 <= b.x1 {
                    a.x1
                } else {
                    b.x1
                };
                let x2 = if a.x2 <= b.x2 {
                    a.x2
                } else {
                    b.x2
                };
                out.push(Interval { x1, y1: a.y1, x2, y2: b.y2 });
            },
            None => {},
        }
        i = i + 1;
    }
    out
}

} // verus!
