//! Greedy merging of a 2D visibility mask into maximal axis-aligned
//! rectangles of uniform material.
//!
//! A mask is one slice of the volume, perpendicular to a face
//! direction: each cell holds the material code of a visible unit face
//! there, or 0. The merger scans the mask in raster order; from every
//! unvisited visible cell it grows a rectangle, first along the width
//! and then row by row along the height, while every new cell matches
//! the seed's material and is still unvisited. Every visible cell ends
//! up in exactly one emitted rectangle.

use vstd::prelude::*;

verus! {

/// A merged rectangle: cells `[u0, u0 + w) x [v0, v0 + h)` of one
/// slice, all carrying material code `code`.
#[derive(Clone, Copy, Debug, PartialEq, Eq, Structural)]
pub struct Rect {
    pub u0: usize,
    pub v0: usize,
    pub w: usize,
    pub h: usize,
    pub code: u16,
}

/// The mask value at cell `(u, v)` of a row-major `w`-wide mask.
pub open spec fn mask_at(mask: Seq<u16>, w: int, u: int, v: int) -> u16 {
    mask[v * w + u]
}

/// The visited flag at cell `(u, v)` of a row-major `w`-wide grid.
pub open spec fn vis_at(visited: Seq<bool>, w: int, u: int, v: int) -> bool {
    visited[v * w + u]
}

pub open spec fn rect_wf(r: Rect, w: int, h: int) -> bool {
    &&& r.u0 + r.w <= w
    &&& r.v0 + r.h <= h
    &&& r.w >= 1
    &&& r.h >= 1
    &&& r.code != 0
}

pub open spec fn rect_contains(r: Rect, u: int, v: int) -> bool {
    &&& r.u0 <= u < r.u0 + r.w
    &&& r.v0 <= v < r.v0 + r.h
}

/// Two rectangles share no cell: they are separated along at least one
/// axis.
pub open spec fn rects_disjoint(a: Rect, b: Rect) -> bool {
    ||| a.u0 + a.w <= b.u0
    ||| b.u0 + b.w <= a.u0
    ||| a.v0 + a.h <= b.v0
    ||| b.v0 + b.h <= a.v0
}

/// Overlapping non-empty rectangles share a concrete cell.
pub proof fn lemma_overlap_witness(a: Rect, b: Rect)
    requires
        !rects_disjoint(a, b),
        a.w >= 1 && a.h >= 1,
        b.w >= 1 && b.h >= 1,
    ensures
        exists|u: int, v: int| rect_contains(a, u, v) && #[trigger] rect_contains(b, u, v),
{
    let u = if a.u0 >= b.u0 {
        a.u0 as int
    } else {
        b.u0 as int
    };
    let v = if a.v0 >= b.v0 {
        a.v0 as int
    } else {
        b.v0 as int
    };
    assert(rect_contains(a, u, v) && rect_contains(b, u, v));
}

/// Some already-emitted rectangle covers cell `(u, v)`.
pub open spec fn covered(rects: Seq<Rect>, u: int, v: int) -> bool {
    exists|i: int| 0 <= i < rects.len() && rect_contains(#[trigger] rects[i], u, v)
}

/// Cell `(u, v)` comes strictly before `(u0, v0)` in the raster scan:
/// row by row, left to right within a row.
pub open spec fn raster_before(u: int, v: int, u0: int, v0: int) -> bool {
    v < v0 || (v == v0 && u < u0)
}

/// The rectangle's seed `(u0, v0)` is the raster-first visible cell
/// not yet covered: every visible cell scanned before it already lies
/// in an earlier rectangle. Together with disjointness and the
/// maximality clauses this pins the greedy decomposition, and with it
/// the emission order, uniquely.
pub open spec fn seed_first(rects: Seq<Rect>, i: int, mask: Seq<u16>, w: int, h: int) -> bool {
    let r = rects[i];
    forall|u: int, v: int|
        0 <= u < w && 0 <= v < h && raster_before(u, v, r.u0 as int, r.v0 as int) && #[trigger]
            mask_at(mask, w, u, v) != 0 ==> covered(rects.take(i), u, v)
}

/// The greedy width growth stopped for a reason: the mask edge, a
/// material or visibility change, or a cell claimed by an earlier
/// rectangle.
pub open spec fn width_maximal(rects: Seq<Rect>, i: int, mask: Seq<u16>, w: int) -> bool {
    let r = rects[i];
    ||| r.u0 + r.w == w
    ||| mask_at(mask, w, r.u0 + r.w, r.v0 as int) != r.code
    ||| covered(rects.take(i), r.u0 + r.w, r.v0 as int)
}

/// The greedy height growth stopped for a reason: the mask edge, or
/// some cell of the next row changed material or was claimed by an
/// earlier rectangle.
pub open spec fn height_maximal(rects: Seq<Rect>, i: int, mask: Seq<u16>, w: int, h: int) -> bool {
    let r = rects[i];
    ||| r.v0 + r.h == h
    ||| exists|uu: int|
        #![trigger mask_at(mask, w, uu, r.v0 + r.h)]
        r.u0 <= uu < r.u0 + r.w && (mask_at(mask, w, uu, r.v0 + r.h) != r.code || covered(
            rects.take(i),
            uu,
            r.v0 + r.h,
        ))
}

/// The merger's contract: rectangles lie inside the mask, cover only
/// cells of their own material, never overlap, cannot be grown
/// further, and together cover every visible cell.
pub open spec fn merge_post(rects: Seq<Rect>, mask: Seq<u16>, w: int, h: int) -> bool {
    &&& forall|i: int| 0 <= i < rects.len() ==> rect_wf(#[trigger] rects[i], w, h)
    &&& forall|i: int, u: int, v: int|
        0 <= i < rects.len() && #[trigger] rect_contains(rects[i], u, v) ==> mask_at(mask, w, u, v)
            == rects[i].code
    &&& forall|i: int, j: int|
        0 <= i < j < rects.len() ==> rects_disjoint(#[trigger] rects[i], #[trigger] rects[j])
    &&& forall|i: int| 0 <= i < rects.len() ==> width_maximal(rects, i, mask, w)
    &&& forall|i: int| 0 <= i < rects.len() ==> height_maximal(rects, i, mask, w, h)
    &&& forall|i: int| 0 <= i < rects.len() ==> seed_first(rects, i, mask, w, h)
    &&& forall|u: int, v: int|
        0 <= u < w && 0 <= v < h && #[trigger] mask_at(mask, w, u, v) != 0 ==> covered(rects, u, v)
}

pub proof fn lemma_grid_idx_bounds(w: int, h: int, u: int, v: int)
    requires
        0 <= u < w,
        0 <= v < h,
    ensures
        0 <= v * w + u < w * h,
        v * w <= v * w + u,
{
    assert(0 <= v * w && v * w + u < w * h) by (nonlinear_arith)
        requires
            0 <= u < w,
            0 <= v < h,
    ;
}

pub proof fn lemma_grid_idx_injective(w: int, u1: int, v1: int, u2: int, v2: int)
    requires
        0 <= u1 < w,
        0 <= u2 < w,
        v1 * w + u1 == v2 * w + u2,
    ensures
        u1 == u2,
        v1 == v2,
{
    assert(u1 == u2 && v1 == v2) by (nonlinear_arith)
        requires
            0 <= u1 < w,
            0 <= u2 < w,
            v1 * w + u1 == v2 * w + u2,
    ;
}

/// Row `vv`, columns `[u0, u0 + rw)`: all cells carry `code` and none
/// is visited.
pub open spec fn row_clear(
    mask: Seq<u16>,
    visited: Seq<bool>,
    w: int,
    u0: int,
    rw: int,
    vv: int,
    code: u16,
) -> bool {
    forall|uu: int|
        u0 <= uu < u0 + rw ==> #[trigger] mask_at(mask, w, uu, vv) == code && !vis_at(
            visited,
            w,
            uu,
            vv,
        )
}

/// The loop invariant of the merger: everything `merge_post` asks of
/// the rectangles emitted so far, plus "visited exactly where
/// covered".
pub open spec fn merge_inv(
    rects: Seq<Rect>,
    mask: Seq<u16>,
    visited: Seq<bool>,
    w: int,
    h: int,
) -> bool {
    &&& visited.len() == w * h
    &&& forall|i: int| 0 <= i < rects.len() ==> rect_wf(#[trigger] rects[i], w, h)
    &&& forall|i: int, u: int, v: int|
        0 <= i < rects.len() && #[trigger] rect_contains(rects[i], u, v) ==> mask_at(mask, w, u, v)
            == rects[i].code
    &&& forall|i: int, j: int|
        0 <= i < j < rects.len() ==> rects_disjoint(#[trigger] rects[i], #[trigger] rects[j])
    &&& forall|i: int| 0 <= i < rects.len() ==> width_maximal(rects, i, mask, w)
    &&& forall|i: int| 0 <= i < rects.len() ==> height_maximal(rects, i, mask, w, h)
    &&& forall|i: int| 0 <= i < rects.len() ==> seed_first(rects, i, mask, w, h)
    &&& forall|u: int, v: int|
        0 <= u < w && 0 <= v < h ==> (#[trigger] vis_at(visited, w, u, v) <==> covered(
            rects,
            u,
            v,
        ))
}

/// Pushing a rectangle extends coverage by exactly its own cells.
pub proof fn lemma_covered_push(rects: Seq<Rect>, r: Rect, u: int, v: int)
    ensures
        covered(rects.push(r), u, v) <==> (covered(rects, u, v) || rect_contains(r, u, v)),
{
    if covered(rects, u, v) {
        let i = choose|i: int| 0 <= i < rects.len() && rect_contains(#[trigger] rects[i], u, v);
        assert(rects.push(r)[i] == rects[i]);
        assert(rect_contains(rects.push(r)[i], u, v));
    }
    if rect_contains(r, u, v) {
        assert(rects.push(r)[rects.len() as int] == r);
        assert(rect_contains(rects.push(r)[rects.len() as int], u, v));
    }
    if covered(rects.push(r), u, v) {
        let i = choose|i: int|
            0 <= i < rects.push(r).len() && rect_contains(#[trigger] rects.push(r)[i], u, v);
        if i < rects.len() {
            assert(rects[i] == rects.push(r)[i]);
            assert(rect_contains(rects[i], u, v));
        } else {
            assert(rects.push(r)[i] == r);
        }
    }
}

/// The maximality and seed facts of already-emitted rectangles
/// survive a push: they only look at earlier indices.
proof fn lemma_maximal_push(rects: Seq<Rect>, r: Rect, mask: Seq<u16>, w: int, h: int)
    requires
        forall|i: int| 0 <= i < rects.len() ==> width_maximal(rects, i, mask, w),
        forall|i: int| 0 <= i < rects.len() ==> height_maximal(rects, i, mask, w, h),
        forall|i: int| 0 <= i < rects.len() ==> seed_first(rects, i, mask, w, h),
    ensures
        forall|i: int| 0 <= i < rects.len() ==> width_maximal(rects.push(r), i, mask, w),
        forall|i: int| 0 <= i < rects.len() ==> height_maximal(rects.push(r), i, mask, w, h),
        forall|i: int| 0 <= i < rects.len() ==> seed_first(rects.push(r), i, mask, w, h),
{
    assert forall|i: int| 0 <= i < rects.len() implies seed_first(rects.push(r), i, mask, w, h) by {
        assert(seed_first(rects, i, mask, w, h));
        assert(rects.push(r)[i] == rects[i]);
        assert(rects.push(r).take(i) =~= rects.take(i));
        let ri = rects[i];
        assert forall|u: int, v: int|
            0 <= u < w && 0 <= v < h && raster_before(u, v, ri.u0 as int, ri.v0 as int)
                && #[trigger] mask_at(mask, w, u, v) != 0 implies covered(
            rects.push(r).take(i),
            u,
            v,
        ) by {
            assert(covered(rects.take(i), u, v));
        }
    }
    assert forall|i: int| 0 <= i < rects.len() implies width_maximal(rects.push(r), i, mask, w) by {
        assert(width_maximal(rects, i, mask, w));
        assert(rects.push(r)[i] == rects[i]);
        assert(rects.push(r).take(i) =~= rects.take(i));
    }
    assert forall|i: int| 0 <= i < rects.len() implies height_maximal(
        rects.push(r),
        i,
        mask,
        w,
        h,
    ) by {
        assert(height_maximal(rects, i, mask, w, h));
        assert(rects.push(r)[i] == rects[i]);
        assert(rects.push(r).take(i) =~= rects.take(i));
        let ri = rects[i];
        if !(ri.v0 + ri.h == h) {
            let uu = choose|uu: int|
                #![trigger mask_at(mask, w, uu, ri.v0 + ri.h)]
                ri.u0 <= uu < ri.u0 + ri.w && (mask_at(mask, w, uu, ri.v0 + ri.h) != ri.code
                    || covered(rects.take(i), uu, ri.v0 + ri.h));
            assert(ri.u0 <= uu < ri.u0 + ri.w && (mask_at(mask, w, uu, ri.v0 + ri.h) != ri.code
                || covered(rects.push(r).take(i), uu, ri.v0 + ri.h)));
        }
    }
}

/// Greedy width growth from seed `(u, v)`.
fn grow_width(mask: &Vec<u16>, visited: &Vec<bool>, w: usize, h: usize, u: usize, v: usize, code: u16) -> (rw: usize)
    requires
        w * h <= usize::MAX,
        mask@.len() == w * h,
        visited@.len() == w * h,
        u < w,
        v < h,
        mask_at(mask@, w as int, u as int, v as int) == code,
        !visited@[v * w + u],
    ensures
        1 <= rw,
        u + rw <= w,
        row_clear(mask@, visited@, w as int, u as int, rw as int, v as int, code),
        u + rw < w ==> (mask_at(mask@, w as int, u + rw, v as int) != code || visited@[v * w + u
            + rw]),
{
    proof {
        lemma_grid_idx_bounds(w as int, h as int, u as int, v as int);
    }
    let mut rw: usize = 1;
    while u + rw < w
        invariant_except_break
            w * h <= usize::MAX,
            mask@.len() == w * h,
            visited@.len() == w * h,
            u < w,
            v < h,
            1 <= rw,
            u + rw <= w,
            row_clear(mask@, visited@, w as int, u as int, rw as int, v as int, code),
        ensures
            1 <= rw,
            u + rw <= w,
            row_clear(mask@, visited@, w as int, u as int, rw as int, v as int, code),
            u + rw < w ==> (mask_at(mask@, w as int, u + rw, v as int) != code || visited@[v * w
                + u + rw]),
        decreases w - u - rw,
    {
        proof {
            lemma_grid_idx_bounds(w as int, h as int, u + rw, v as int);
        }
        let p = v * w + u + rw;
        if visited[p] || mask[p] != code {
            break ;
        }
        rw += 1;
    }
    rw
}

/// Does row `vv` match the rectangle grown so far?
#[verifier::loop_isolation(false)]
fn row_check(mask: &Vec<u16>, visited: &Vec<bool>, w: usize, h: usize, u: usize, rw: usize, vv: usize, code: u16) -> (ok: bool)
    requires
        w * h <= usize::MAX,
        mask@.len() == w * h,
        visited@.len() == w * h,
        u + rw <= w,
        rw >= 1,
        vv < h,
    ensures
        ok == row_clear(mask@, visited@, w as int, u as int, rw as int, vv as int, code),
{
    let mut du: usize = 0;
    while du < rw
        invariant
            du <= rw,
            forall|uu: int|
                u <= uu < u + du ==> #[trigger] mask_at(mask@, w as int, uu, vv as int) == code
                    && !vis_at(visited@, w as int, uu, vv as int),
        decreases rw - du,
    {
        proof {
            lemma_grid_idx_bounds(w as int, h as int, u + du, vv as int);
        }
        let p = vv * w + u + du;
        if visited[p] || mask[p] != code {
            proof {
                assert(!(mask_at(mask@, w as int, u + du, vv as int) == code && !vis_at(
                    visited@,
                    w as int,
                    u + du,
                    vv as int,
                )));
                if row_clear(mask@, visited@, w as int, u as int, rw as int, vv as int, code) {
                    assert(u <= u + du < u + rw);
                    assert(mask_at(mask@, w as int, u + du, vv as int) == code);
                    assert(!vis_at(visited@, w as int, u + du, vv as int));
                }
            }
            return false;
        }
        du += 1;
    }
    true
}

/// Greedy height growth: add full rows below the seed row while they
/// match.
fn grow_height(mask: &Vec<u16>, visited: &Vec<bool>, w: usize, h: usize, u: usize, v: usize, rw: usize, code: u16) -> (rh: usize)
    requires
        w * h <= usize::MAX,
        mask@.len() == w * h,
        visited@.len() == w * h,
        u + rw <= w,
        rw >= 1,
        v < h,
        row_clear(mask@, visited@, w as int, u as int, rw as int, v as int, code),
    ensures
        1 <= rh,
        v + rh <= h,
        forall|vv: int|
            v <= vv < v + rh ==> #[trigger] row_clear(
                mask@,
                visited@,
                w as int,
                u as int,
                rw as int,
                vv,
                code,
            ),
        v + rh < h ==> !row_clear(mask@, visited@, w as int, u as int, rw as int, v + rh, code),
{
    let mut rh: usize = 1;
    while v + rh < h
        invariant_except_break
            w * h <= usize::MAX,
            mask@.len() == w * h,
            visited@.len() == w * h,
            u + rw <= w,
            rw >= 1,
            v < h,
            1 <= rh,
            v + rh <= h,
            forall|vv: int|
                v <= vv < v + rh ==> #[trigger] row_clear(
                    mask@,
                    visited@,
                    w as int,
                    u as int,
                    rw as int,
                    vv,
                    code,
                ),
        ensures
            1 <= rh,
            v + rh <= h,
            forall|vv: int|
                v <= vv < v + rh ==> #[trigger] row_clear(
                    mask@,
                    visited@,
                    w as int,
                    u as int,
                    rw as int,
                    vv,
                    code,
                ),
            v + rh < h ==> !row_clear(mask@, visited@, w as int, u as int, rw as int, v + rh, code),
        decreases h - v - rh,
    {
        if !row_check(mask, visited, w, h, u, rw, v + rh, code) {
            break ;
        }
        rh += 1;
    }
    rh
}

/// Mark every cell of the rectangle visited.
#[verifier::loop_isolation(false)]
fn mark_rect(visited: &mut Vec<bool>, w: usize, h: usize, u: usize, v: usize, rw: usize, rh: usize)
    requires
        w * h <= usize::MAX,
        old(visited)@.len() == w * h,
        u + rw <= w,
        v + rh <= h,
        rw >= 1,
        rh >= 1,
    ensures
        final(visited)@.len() == w * h,
        forall|uu: int, vv: int|
            0 <= uu < w && 0 <= vv < h ==> #[trigger] vis_at(final(visited)@, w as int, uu, vv) == (
            vis_at(old(visited)@, w as int, uu, vv) || (u <= uu < u + rw && v <= vv < v + rh)),
{
    let mut dv: usize = 0;
    while dv < rh
        invariant
            dv <= rh,
            visited@.len() == w * h,
            forall|uu: int, vv: int|
                0 <= uu < w && 0 <= vv < h ==> #[trigger] vis_at(visited@, w as int, uu, vv) == (
                vis_at(old(visited)@, w as int, uu, vv) || (u <= uu < u + rw && v <= vv < v + dv)),
        decreases rh - dv,
    {
        let mut du: usize = 0;
        while du < rw
            invariant
                du <= rw,
                dv < rh,
                visited@.len() == w * h,
                forall|uu: int, vv: int|
                    0 <= uu < w && 0 <= vv < h ==> #[trigger] vis_at(visited@, w as int, uu, vv)
                        == (vis_at(old(visited)@, w as int, uu, vv) || (u <= uu < u + rw && v <= vv
                        < v + dv) || (vv == v + dv && u <= uu < u + du)),
            decreases rw - du,
        {
            proof {
                lemma_grid_idx_bounds(w as int, h as int, u + du, v + dv);
            }
            let p = (v + dv) * w + (u + du);
            let ghost vis0 = visited@;
            visited.set(p, true);
            proof {
                assert forall|uu: int, vv: int| 0 <= uu < w && 0 <= vv < h implies #[trigger] vis_at(
                    visited@,
                    w as int,
                    uu,
                    vv,
                ) == (vis_at(old(visited)@, w as int, uu, vv) || (u <= uu < u + rw && v <= vv < v
                    + dv) || (vv == v + dv && u <= uu < u + du + 1)) by {
                    lemma_grid_idx_bounds(w as int, h as int, uu, vv);
                    assert(vis_at(vis0, w as int, uu, vv) == (vis_at(old(visited)@, w as int, uu, vv)
                        || (u <= uu < u + rw && v <= vv < v + dv) || (vv == v + dv && u <= uu < u
                        + du)));
                    if vv * w + uu == p {
                        lemma_grid_idx_injective(w as int, u + du, v + dv, uu, vv);
                    } else {
                        assert(visited@[vv * w + uu] == vis0[vv * w + uu]);
                    }
                }
            }
            du += 1;
        }
        dv += 1;
    }
}


/// Merge one slice's visibility mask into maximal same-material
/// rectangles by a greedy raster-order sweep: every visible cell of
/// the mask ends up in exactly one emitted rectangle.
pub fn merge_rects(w: usize, h: usize, mask: &Vec<u16>) -> (rects: Vec<Rect>)
    requires
        mask@.len() == w * h,
    ensures
        merge_post(rects@, mask@, w as int, h as int),
{
    let n = mask.len();
    let mut rects: Vec<Rect> = Vec::new();
    let mut visited: Vec<bool> = Vec::new();
    while visited.len() < n
        invariant
            visited@.len() <= n,
            forall|p: int| 0 <= p < visited@.len() ==> !visited@[p],
        decreases n - visited@.len(),
    {
        visited.push(false);
    }
    proof {
        assert forall|uu: int, vv: int| 0 <= uu < w && 0 <= vv < h implies (#[trigger] vis_at(
            visited@,
            w as int,
            uu,
            vv,
        ) <==> covered(rects@, uu, vv)) by {
            lemma_grid_idx_bounds(w as int, h as int, uu, vv);
        }
    }

    let mut v: usize = 0;
    while v < h
        invariant
            v <= h,
            n == w * h,
            mask@.len() == n,
            visited@.len() == n,
            merge_inv(rects@, mask@, visited@, w as int, h as int),
            forall|uu: int, vv: int|
                0 <= uu < w && 0 <= vv < v && #[trigger] mask_at(mask@, w as int, uu, vv) != 0
                    ==> vis_at(visited@, w as int, uu, vv),
        decreases h - v,
    {
        let mut u: usize = 0;
        while u < w
            invariant
                u <= w,
                v < h,
                n == w * h,
                mask@.len() == n,
                visited@.len() == n,
                merge_inv(rects@, mask@, visited@, w as int, h as int),
                forall|uu: int, vv: int|
                    0 <= uu < w && 0 <= vv < h && (vv < v || (vv == v && uu < u)) && #[trigger]
                        mask_at(mask@, w as int, uu, vv) != 0 ==> vis_at(
                        visited@,
                        w as int,
                        uu,
                        vv,
                    ),
            decreases w - u,
        {
            proof {
                lemma_grid_idx_bounds(w as int, h as int, u as int, v as int);
            }
            let p = v * w + u;
            if !visited[p] && mask[p] != 0 {
                let code = mask[p];
                let rw = grow_width(mask, &visited, w, h, u, v, code);
                let rh = grow_height(mask, &visited, w, h, u, v, rw, code);
                let r = Rect { u0: u, v0: v, w: rw, h: rh, code };
                let ghost rects0 = rects@;
                let ghost vis0 = visited@;
                proof {
                    assert forall|uu: int, vv2: int| #[trigger] rect_contains(r, uu, vv2) implies
                        mask_at(mask@, w as int, uu, vv2) == code && !vis_at(
                        vis0,
                        w as int,
                        uu,
                        vv2,
                    ) by {
                        assert(row_clear(mask@, vis0, w as int, u as int, rw as int, vv2, code));
                        assert(mask_at(mask@, w as int, uu, vv2) == code);
                        assert(!vis_at(vis0, w as int, uu, vv2));
                    }
                }
                mark_rect(&mut visited, w, h, u, v, rw, rh);
                rects.push(r);
                proof {
                    let ghost rects1 = rects@;
                    let ghost len0 = rects0.len() as int;
                    assert(rects1 == rects0.push(r));
                    assert(rects1.take(len0) =~= rects0);
                    assert(rect_wf(r, w as int, h as int));
                    assert(rects1[len0] == r);

                    // Shape of every rectangle.
                    assert forall|i: int| 0 <= i < rects1.len() implies rect_wf(
                        #[trigger] rects1[i],
                        w as int,
                        h as int,
                    ) by {
                        if i < len0 {
                            assert(rects1[i] == rects0[i]);
                        }
                    }

                    // Uniform material under every rectangle.
                    assert forall|i: int, uu: int, vv2: int|
                        0 <= i < rects1.len() && #[trigger] rect_contains(rects1[i], uu, vv2)
                        implies mask_at(mask@, w as int, uu, vv2) == rects1[i].code by {
                        if i < len0 {
                            assert(rects1[i] == rects0[i]);
                            assert(rect_contains(rects0[i], uu, vv2));
                        } else {
                            assert(rects1[i] == r);
                            assert(rect_contains(r, uu, vv2));
                        }
                    }

                    // Pairwise disjointness.
                    assert forall|i: int, j: int| 0 <= i < j < rects1.len() implies rects_disjoint(
                        #[trigger] rects1[i],
                        #[trigger] rects1[j],
                    ) by {
                        if j < len0 {
                            assert(rects1[i] == rects0[i] && rects1[j] == rects0[j]);
                        } else {
                            assert(rects1[i] == rects0[i] && rects1[j] == r);
                            if !rects_disjoint(rects0[i], r) {
                                assert(rect_wf(rects0[i], w as int, h as int));
                                lemma_overlap_witness(rects0[i], r);
                                let (cu, cv) = choose|cu: int, cv: int|
                                    rect_contains(rects0[i], cu, cv) && #[trigger] rect_contains(
                                        r,
                                        cu,
                                        cv,
                                    );
                                assert(covered(rects0, cu, cv));
                                assert(vis_at(vis0, w as int, cu, cv));
                                assert(!vis_at(vis0, w as int, cu, cv));
                            }
                        }
                    }

                    // Maximality of the old rectangles survives the push.
                    lemma_maximal_push(rects0, r, mask@, w as int, h as int);
                    assert forall|i: int| 0 <= i < rects1.len() implies width_maximal(
                        rects1,
                        i,
                        mask@,
                        w as int,
                    ) && height_maximal(rects1, i, mask@, w as int, h as int) by {
                        if i < len0 {
                        } else {
                            // Width stop of the new rectangle.
                            if u + rw < w && mask_at(mask@, w as int, u + rw, v as int) == code {
                                assert(vis_at(vis0, w as int, u + rw, v as int));
                                assert(covered(rects0, u + rw, v as int));
                                assert(covered(rects1.take(len0), r.u0 + r.w, r.v0 as int));
                            }
                            assert(width_maximal(rects1, len0, mask@, w as int));
                            // Height stop of the new rectangle.
                            if v + rh < h {
                                assert(!row_clear(
                                    mask@,
                                    vis0,
                                    w as int,
                                    u as int,
                                    rw as int,
                                    (v + rh) as int,
                                    code,
                                ));
                                let uu = choose|uu: int|
                                    u <= uu < u + rw && !(#[trigger] mask_at(
                                        mask@,
                                        w as int,
                                        uu,
                                        (v + rh) as int,
                                    ) == code && !vis_at(vis0, w as int, uu, (v + rh) as int));
                                if mask_at(mask@, w as int, uu, (v + rh) as int) == code {
                                    assert(vis_at(vis0, w as int, uu, (v + rh) as int));
                                    assert(covered(rects0, uu, (v + rh) as int));
                                }
                                assert(r.u0 <= uu < r.u0 + r.w);
                                assert(mask_at(mask@, w as int, uu, r.v0 + r.h) != r.code
                                    || covered(rects1.take(len0), uu, r.v0 + r.h));
                            }
                            assert(height_maximal(rects1, len0, mask@, w as int, h as int));
                        }
                    }

                    // The new rectangle's seed is the raster-first
                    // uncovered visible cell: everything scanned
                    // before it is already visited, hence covered.
                    assert forall|i: int| 0 <= i < rects1.len() implies seed_first(
                        rects1,
                        i,
                        mask@,
                        w as int,
                        h as int,
                    ) by {
                        if i < len0 {
                        } else {
                            assert(rects1[len0] == r);
                            assert forall|uu: int, vv2: int|
                                0 <= uu < w && 0 <= vv2 < h && raster_before(
                                    uu,
                                    vv2,
                                    r.u0 as int,
                                    r.v0 as int,
                                ) && #[trigger] mask_at(mask@, w as int, uu, vv2) != 0 implies
                                covered(rects1.take(len0), uu, vv2) by {
                                assert(vis_at(vis0, w as int, uu, vv2));
                                assert(covered(rects0, uu, vv2));
                            }
                            assert(seed_first(rects1, len0, mask@, w as int, h as int));
                        }
                    }

                    // Visited exactly where covered.
                    assert forall|uu: int, vv2: int| 0 <= uu < w && 0 <= vv2 < h implies (
                    #[trigger] vis_at(visited@, w as int, uu, vv2) <==> covered(
                        rects1,
                        uu,
                        vv2,
                    )) by {
                        lemma_covered_push(rects0, r, uu, vv2);
                        assert(vis_at(visited@, w as int, uu, vv2) == (vis_at(
                            vis0,
                            w as int,
                            uu,
                            vv2,
                        ) || (u <= uu < u + rw && v <= vv2 < v + rh)));
                        assert(vis_at(vis0, w as int, uu, vv2) <==> covered(rects0, uu, vv2));
                        assert((u <= uu < u + rw && v <= vv2 < v + rh) == rect_contains(
                            r,
                            uu,
                            vv2,
                        ));
                    }

                    // The raster prefix, including the seed cell, stays visited.
                    assert forall|uu: int, vv2: int|
                        0 <= uu < w && 0 <= vv2 < h && (vv2 < v || (vv2 == v && uu < u + 1))
                            && #[trigger] mask_at(mask@, w as int, uu, vv2) != 0 implies vis_at(
                        visited@,
                        w as int,
                        uu,
                        vv2,
                    ) by {
                        assert(vis_at(visited@, w as int, uu, vv2) == (vis_at(
                            vis0,
                            w as int,
                            uu,
                            vv2,
                        ) || (u <= uu < u + rw && v <= vv2 < v + rh)));
                        if vv2 < v || (vv2 == v && uu < u) {
                            assert(vis_at(vis0, w as int, uu, vv2));
                        } else {
                            assert(uu == u && vv2 == v);
                            assert(rect_contains(r, uu, vv2));
                        }
                    }
                }
            } else {
                proof {
                    assert forall|uu: int, vv2: int|
                        0 <= uu < w && 0 <= vv2 < h && (vv2 < v || (vv2 == v && uu < u + 1))
                            && #[trigger] mask_at(mask@, w as int, uu, vv2) != 0 implies vis_at(
                        visited@,
                        w as int,
                        uu,
                        vv2,
                    ) by {
                        if vv2 == v && uu == u {
                            assert(mask_at(mask@, w as int, u as int, v as int) == mask@[p as int]);
                            assert(vis_at(visited@, w as int, u as int, v as int) == visited@[
                                p as int]);
                        }
                    }
                }
            }
            u += 1;
        }
        v += 1;
    }
    proof {
        assert forall|uu: int, vv: int|
            0 <= uu < w && 0 <= vv < h && #[trigger] mask_at(mask@, w as int, uu, vv) != 0 implies
            covered(rects@, uu, vv) by {
            assert(vis_at(visited@, w as int, uu, vv));
        }
    }
    rects
}


/// A cell inside one rectangle is never covered by the rectangles
/// before it: they are all disjoint from it.
proof fn lemma_covered_disjoint(rects: Seq<Rect>, i: int, u: int, v: int)
    requires
        forall|i2: int, j2: int|
            0 <= i2 < j2 < rects.len() ==> rects_disjoint(
                #[trigger] rects[i2],
                #[trigger] rects[j2],
            ),
        0 <= i < rects.len(),
        rect_contains(rects[i], u, v),
    ensures
        !covered(rects.take(i), u, v),
{
    if covered(rects.take(i), u, v) {
        let j = choose|j: int|
            0 <= j < rects.take(i).len() && rect_contains(#[trigger] rects.take(i)[j], u, v);
        assert(rects.take(i)[j] == rects[j]);
        assert(rects_disjoint(rects[j], rects[i]));
        assert(rect_contains(rects[j], u, v));
    }
}

/// With equal prefixes, the next rectangles of two lists satisfying
/// the merge contract are equal: the seed clause forces a common
/// seed, and the maximality clauses force common extents.
proof fn lemma_merge_unique_at(r1: Seq<Rect>, r2: Seq<Rect>, mask: Seq<u16>, w: int, h: int, i: int)
    requires
        merge_post(r1, mask, w, h),
        merge_post(r2, mask, w, h),
        0 <= i < r1.len(),
        i < r2.len(),
        r1.take(i) == r2.take(i),
    ensures
        r1[i] == r2[i],
{
    let a = r1[i];
    let b = r2[i];
    assert(rect_wf(a, w, h));
    assert(rect_wf(b, w, h));
    assert(rect_contains(r1[i], a.u0 as int, a.v0 as int));
    assert(mask_at(mask, w, a.u0 as int, a.v0 as int) == a.code);
    assert(rect_contains(r2[i], b.u0 as int, b.v0 as int));
    assert(mask_at(mask, w, b.u0 as int, b.v0 as int) == b.code);

    // The two seeds coincide: were one scanned before the other, the
    // seed clause of one list would put it inside an earlier
    // rectangle shared by both, contradicting disjointness.
    assert(!raster_before(b.u0 as int, b.v0 as int, a.u0 as int, a.v0 as int)) by {
        if raster_before(b.u0 as int, b.v0 as int, a.u0 as int, a.v0 as int) {
            assert(seed_first(r1, i, mask, w, h));
            assert(covered(r1.take(i), b.u0 as int, b.v0 as int));
            assert(covered(r2.take(i), b.u0 as int, b.v0 as int));
            lemma_covered_disjoint(r2, i, b.u0 as int, b.v0 as int);
        }
    }
    assert(!raster_before(a.u0 as int, a.v0 as int, b.u0 as int, b.v0 as int)) by {
        if raster_before(a.u0 as int, a.v0 as int, b.u0 as int, b.v0 as int) {
            assert(seed_first(r2, i, mask, w, h));
            assert(covered(r2.take(i), a.u0 as int, a.v0 as int));
            assert(covered(r1.take(i), a.u0 as int, a.v0 as int));
            lemma_covered_disjoint(r1, i, a.u0 as int, a.v0 as int);
        }
    }
    assert(a.u0 == b.u0 && a.v0 == b.v0);
    assert(a.code == b.code);

    // Equal widths: the narrower rectangle's stop cell would lie
    // inside the wider one, so it matches the material and is not
    // claimed by an earlier rectangle.
    assert(!(a.u0 + a.w < b.u0 + b.w)) by {
        if a.u0 + a.w < b.u0 + b.w {
            let cu = a.u0 + a.w;
            let cv = a.v0 as int;
            assert(rect_contains(r2[i], cu, cv));
            assert(mask_at(mask, w, cu, cv) == b.code);
            assert(width_maximal(r1, i, mask, w));
            assert(covered(r1.take(i), cu, cv));
            assert(covered(r2.take(i), cu, cv));
            lemma_covered_disjoint(r2, i, cu, cv);
        }
    }
    assert(!(b.u0 + b.w < a.u0 + a.w)) by {
        if b.u0 + b.w < a.u0 + a.w {
            let cu = b.u0 + b.w;
            let cv = b.v0 as int;
            assert(rect_contains(r1[i], cu, cv));
            assert(mask_at(mask, w, cu, cv) == a.code);
            assert(width_maximal(r2, i, mask, w));
            assert(covered(r2.take(i), cu, cv));
            assert(covered(r1.take(i), cu, cv));
            lemma_covered_disjoint(r1, i, cu, cv);
        }
    }
    assert(a.w == b.w);

    // Equal heights: the shorter rectangle's stop row lies inside the
    // taller one, so every cell of it matches the material and none
    // is claimed earlier.
    assert(!(a.v0 + a.h < b.v0 + b.h)) by {
        if a.v0 + a.h < b.v0 + b.h {
            assert(height_maximal(r1, i, mask, w, h));
            assert(a.v0 + a.h != h);
            let uu = choose|uu: int|
                #![trigger mask_at(mask, w, uu, a.v0 + a.h)]
                a.u0 <= uu < a.u0 + a.w && (mask_at(mask, w, uu, a.v0 + a.h) != a.code || covered(
                    r1.take(i),
                    uu,
                    a.v0 + a.h,
                ));
            assert(rect_contains(r2[i], uu, a.v0 + a.h));
            assert(mask_at(mask, w, uu, a.v0 + a.h) == b.code);
            if covered(r1.take(i), uu, a.v0 + a.h) {
                assert(covered(r2.take(i), uu, a.v0 + a.h));
                lemma_covered_disjoint(r2, i, uu, a.v0 + a.h);
            }
        }
    }
    assert(!(b.v0 + b.h < a.v0 + a.h)) by {
        if b.v0 + b.h < a.v0 + a.h {
            assert(height_maximal(r2, i, mask, w, h));
            assert(b.v0 + b.h != h);
            let uu = choose|uu: int|
                #![trigger mask_at(mask, w, uu, b.v0 + b.h)]
                b.u0 <= uu < b.u0 + b.w && (mask_at(mask, w, uu, b.v0 + b.h) != b.code || covered(
                    r2.take(i),
                    uu,
                    b.v0 + b.h,
                ));
            assert(rect_contains(r1[i], uu, b.v0 + b.h));
            assert(mask_at(mask, w, uu, b.v0 + b.h) == a.code);
            if covered(r2.take(i), uu, b.v0 + b.h) {
                assert(covered(r1.take(i), uu, b.v0 + b.h));
                lemma_covered_disjoint(r1, i, uu, b.v0 + b.h);
            }
        }
    }
    assert(a.h == b.h);
}

proof fn lemma_merge_unique_prefix(
    r1: Seq<Rect>,
    r2: Seq<Rect>,
    mask: Seq<u16>,
    w: int,
    h: int,
    i: int,
)
    requires
        merge_post(r1, mask, w, h),
        merge_post(r2, mask, w, h),
        0 <= i <= r1.len(),
        i <= r2.len(),
    ensures
        r1.take(i) == r2.take(i),
    decreases i,
{
    if i == 0 {
        assert(r1.take(0) =~= r2.take(0));
    } else {
        lemma_merge_unique_prefix(r1, r2, mask, w, h, i - 1);
        lemma_merge_unique_at(r1, r2, mask, w, h, i - 1);
        assert forall|j: int| 0 <= j < i implies r1.take(i)[j] == r2.take(i)[j] by {
            if j < i - 1 {
                assert(r1.take(i - 1)[j] == r2.take(i - 1)[j]);
            }
        }
        assert(r1.take(i) =~= r2.take(i));
    }
}

/// The determinism law: the merge contract has exactly one model.
/// Any two rectangle lists that satisfy it for the same mask are
/// equal, so the greedy decomposition -- and everything derived from
/// it -- is a function of the mask alone.
pub proof fn lemma_merge_unique(r1: Seq<Rect>, r2: Seq<Rect>, mask: Seq<u16>, w: int, h: int)
    requires
        merge_post(r1, mask, w, h),
        merge_post(r2, mask, w, h),
    ensures
        r1 == r2,
{
    // Neither list can be longer: the extra rectangle's seed is a
    // visible cell, the shorter list covers it, and the shared prefix
    // would overlap the extra rectangle.
    assert(!(r1.len() < r2.len())) by {
        if r1.len() < r2.len() {
            let n = r1.len() as int;
            lemma_merge_unique_prefix(r1, r2, mask, w, h, n);
            let b = r2[n];
            assert(rect_wf(b, w, h));
            assert(rect_contains(r2[n], b.u0 as int, b.v0 as int));
            assert(mask_at(mask, w, b.u0 as int, b.v0 as int) == b.code);
            assert(covered(r1, b.u0 as int, b.v0 as int));
            assert(r1.take(n) =~= r1);
            assert(covered(r2.take(n), b.u0 as int, b.v0 as int));
            lemma_covered_disjoint(r2, n, b.u0 as int, b.v0 as int);
        }
    }
    assert(!(r2.len() < r1.len())) by {
        if r2.len() < r1.len() {
            let n = r2.len() as int;
            lemma_merge_unique_prefix(r1, r2, mask, w, h, n);
            let a = r1[n];
            assert(rect_wf(a, w, h));
            assert(rect_contains(r1[n], a.u0 as int, a.v0 as int));
            assert(mask_at(mask, w, a.u0 as int, a.v0 as int) == a.code);
            assert(covered(r2, a.u0 as int, a.v0 as int));
            assert(r2.take(n) =~= r2);
            assert(covered(r1.take(n), a.u0 as int, a.v0 as int));
            lemma_covered_disjoint(r1, n, a.u0 as int, a.v0 as int);
        }
    }
    lemma_merge_unique_prefix(r1, r2, mask, w, h, r1.len() as int);
    assert(r1.take(r1.len() as int) =~= r1);
    assert(r2.take(r2.len() as int) =~= r2);
}

} // verus!
