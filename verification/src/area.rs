//! Counting arguments about merged rectangles: a list of pairwise
//! disjoint rectangles that covers exactly the visible cells of a mask
//! has total area equal to the number of visible cells. This is the
//! lossless-merge invariant of the surface extractor.

use vstd::prelude::*;
use vstd::set_lib::lemma_set_disjoint_lens;
use crate::extract::Rect;
use crate::extract::covered;
use crate::extract::lemma_covered_push;
use crate::extract::mask_at;
use crate::extract::merge_post;
use crate::extract::rect_contains;
use crate::extract::rect_wf;
use crate::extract::rects_disjoint;

verus! {

/// The set of cells one rectangle covers.
pub open spec fn rect_cells(r: Rect) -> Set<(int, int)> {
    Set::new(|p: (int, int)| rect_contains(r, p.0, p.1))
}

/// The cells one row of a rectangle covers: columns `[u0, u0 + w)` of
/// row `v`.
pub open spec fn row_cells(u0: int, w: int, v: int) -> Set<(int, int)> {
    Set::new(|p: (int, int)| u0 <= p.0 < u0 + w && p.1 == v)
}

/// All cells covered by a list of rectangles.
pub open spec fn rects_cells(rects: Seq<Rect>) -> Set<(int, int)>
    decreases rects.len(),
{
    if rects.len() == 0 {
        Set::empty()
    } else {
        rects_cells(rects.drop_last()) + rect_cells(rects.last())
    }
}

/// The total area of a list of rectangles.
pub open spec fn area_sum(rects: Seq<Rect>) -> int
    decreases rects.len(),
{
    if rects.len() == 0 {
        0
    } else {
        area_sum(rects.drop_last()) + rects.last().w * rects.last().h
    }
}

/// The visible cells of a `w` by `h` mask: those with a nonzero
/// material code.
pub open spec fn visible_cells(mask: Seq<u16>, w: int, h: int) -> Set<(int, int)> {
    Set::new(|p: (int, int)| 0 <= p.0 < w && 0 <= p.1 < h && mask_at(mask, w, p.0, p.1) != 0)
}

proof fn lemma_row_cells_card(u0: int, w: int, v: int)
    requires
        w >= 0,
    ensures
        row_cells(u0, w, v).finite(),
        row_cells(u0, w, v).len() == w,
    decreases w,
{
    if w == 0 {
        assert(row_cells(u0, w, v) =~= Set::empty());
    } else {
        lemma_row_cells_card(u0, w - 1, v);
        assert(row_cells(u0, w, v) =~= row_cells(u0, w - 1, v).insert((u0 + w - 1, v)));
        assert(!row_cells(u0, w - 1, v).contains((u0 + w - 1, v)));
    }
}

/// One rectangle covers exactly `w * h` cells.
pub proof fn lemma_rect_cells_card(r: Rect)
    ensures
        rect_cells(r).finite(),
        rect_cells(r).len() == r.w * r.h,
    decreases r.h,
{
    if r.h == 0 {
        assert(rect_cells(r) =~= Set::empty());
        assert(r.w * r.h == 0) by (nonlinear_arith)
            requires
                r.h == 0,
        ;
    } else {
        let r2 = Rect { h: (r.h - 1) as usize, ..r };
        lemma_rect_cells_card(r2);
        let row = row_cells(r.u0 as int, r.w as int, r.v0 + r.h - 1);
        lemma_row_cells_card(r.u0 as int, r.w as int, r.v0 + r.h - 1);
        assert(rect_cells(r) =~= rect_cells(r2) + row);
        assert(rect_cells(r2).disjoint(row));
        lemma_set_disjoint_lens(rect_cells(r2), row);
        assert(r.w * r.h == r.w * (r.h - 1) + r.w) by (nonlinear_arith);
    }
}

/// A cell is in the covered set exactly when some rectangle contains
/// it.
pub proof fn lemma_rects_cells_covered(rects: Seq<Rect>, u: int, v: int)
    ensures
        rects_cells(rects).contains((u, v)) <==> covered(rects, u, v),
    decreases rects.len(),
{
    if rects.len() == 0 {
        assert(!covered(rects, u, v));
    } else {
        let front = rects.drop_last();
        lemma_rects_cells_covered(front, u, v);
        assert(front.push(rects.last()) =~= rects);
        lemma_covered_push(front, rects.last(), u, v);
    }
}

/// Pairwise disjoint rectangles cover a cell count equal to their
/// total area.
pub proof fn lemma_area_disjoint(rects: Seq<Rect>)
    requires
        forall|i: int| 0 <= i < rects.len() ==> (#[trigger] rects[i]).w >= 1 && rects[i].h >= 1,
        forall|i: int, j: int|
            0 <= i < j < rects.len() ==> rects_disjoint(#[trigger] rects[i], #[trigger] rects[j]),
    ensures
        rects_cells(rects).finite(),
        rects_cells(rects).len() == area_sum(rects),
    decreases rects.len(),
{
    if rects.len() > 0 {
        let front = rects.drop_last();
        let last = rects.last();
        assert(forall|i: int| 0 <= i < front.len() ==> front[i] == rects[i]);
        lemma_area_disjoint(front);
        lemma_rect_cells_card(last);
        assert forall|p: (int, int)| rects_cells(front).contains(p) implies !rect_cells(
            last,
        ).contains(p) by {
            lemma_rects_cells_covered(front, p.0, p.1);
            let i = choose|i: int|
                0 <= i < front.len() && rect_contains(#[trigger] front[i], p.0, p.1);
            assert(front[i] == rects[i]);
            assert(rects_disjoint(rects[i], rects[rects.len() - 1]));
        }
        assert(rects_cells(front).disjoint(rect_cells(last)));
        lemma_set_disjoint_lens(rects_cells(front), rect_cells(last));
    }
}

/// The lossless-merge law for one slice: when a rectangle list
/// satisfies the merger's contract for a mask, the summed area of the
/// rectangles equals the number of visible cells of the mask.
pub proof fn lemma_area_lossless(rects: Seq<Rect>, mask: Seq<u16>, w: int, h: int)
    requires
        merge_post(rects, mask, w, h),
    ensures
        visible_cells(mask, w, h).finite(),
        area_sum(rects) == visible_cells(mask, w, h).len(),
{
    assert forall|p: (int, int)|
        rects_cells(rects).contains(p) == visible_cells(mask, w, h).contains(p) by {
        lemma_rects_cells_covered(rects, p.0, p.1);
        if covered(rects, p.0, p.1) {
            let i = choose|i: int|
                0 <= i < rects.len() && rect_contains(#[trigger] rects[i], p.0, p.1);
            assert(rect_wf(rects[i], w, h));
            assert(mask_at(mask, w, p.0, p.1) == rects[i].code);
        }
        if visible_cells(mask, w, h).contains(p) {
            assert(covered(rects, p.0, p.1));
        }
    }
    assert(rects_cells(rects) =~= visible_cells(mask, w, h));
    assert forall|i: int| 0 <= i < rects.len() implies (#[trigger] rects[i]).w >= 1 && rects[i].h
        >= 1 by {
        assert(rect_wf(rects[i], w, h));
    }
    lemma_area_disjoint(rects);
}

} // verus!
