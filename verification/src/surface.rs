//! Surface extraction over the padded volume: for each of the six
//! axis-aligned face directions, every slice perpendicular to the
//! direction is turned into a visibility mask and greedily merged into
//! maximal rectangles. The extractor's contract states exact coverage
//! (every visible unit face lies in exactly one emitted rectangle),
//! and the lossless-merge law: per direction, the summed rectangle
//! area equals the number of visible unit faces.

use vstd::prelude::*;
use crate::volume::VoxelVolume;
use crate::extract::Rect;
use crate::extract::mask_at;
use crate::extract::merge_post;
use crate::extract::merge_rects;
use crate::extract::rect_contains;
use crate::extract::rect_wf;
use crate::extract::raster_before;
use crate::extract::rects_disjoint;
use crate::area::area_sum;
use crate::math::IVec3;
use crate::math::Vec3;
use crate::obj::Quad;
use crate::area::lemma_area_lossless;
use crate::area::visible_cells;

verus! {

/// Side length of the volume along one axis.
pub open spec fn vol_dim(vol: VoxelVolume, axis: int) -> int {
    if axis == 0 {
        vol.dx as int
    } else if axis == 1 {
        vol.dy as int
    } else {
        vol.dz as int
    }
}

/// The in-slice axis along which rectangle width grows.
pub open spec fn axis_u(axis: int) -> int {
    if axis == 0 {
        1
    } else if axis == 1 {
        2
    } else {
        0
    }
}

/// The in-slice axis along which rectangle height grows.
pub open spec fn axis_v(axis: int) -> int {
    if axis == 0 {
        2
    } else if axis == 1 {
        0
    } else {
        1
    }
}

/// Width of a slice mask: the real (non-padding) extent.
pub open spec fn mask_w(vol: VoxelVolume, axis: int) -> int {
    vol_dim(vol, axis_u(axis)) - 2
}

/// Height of a slice mask.
pub open spec fn mask_h(vol: VoxelVolume, axis: int) -> int {
    vol_dim(vol, axis_v(axis)) - 2
}

/// The volume cell addressed by slice coordinate `k` along `axis` and
/// in-slice coordinates `(uu, vv)`.
pub open spec fn cell_at(vol: VoxelVolume, axis: int, k: int, uu: int, vv: int) -> u16 {
    if axis == 0 {
        vol.cell(k, uu, vv)
    } else if axis == 1 {
        vol.cell(vv, k, uu)
    } else {
        vol.cell(uu, vv, k)
    }
}

/// A unit face at mask cell `(u, v)` of slice `k` is visible: the cell
/// is occupied and its neighbor one step in the face direction is
/// empty.
pub open spec fn face_visible(
    vol: VoxelVolume,
    axis: int,
    positive: bool,
    k: int,
    u: int,
    v: int,
) -> bool {
    &&& cell_at(vol, axis, k, u + 1, v + 1) != 0
    &&& cell_at(
        vol,
        axis,
        if positive {
            k + 1
        } else {
            k - 1
        },
        u + 1,
        v + 1,
    ) == 0
}

/// The mask value of one slice cell: the material code where a face is
/// visible, 0 elsewhere.
pub open spec fn slice_mask_at(
    vol: VoxelVolume,
    axis: int,
    positive: bool,
    k: int,
    u: int,
    v: int,
) -> u16 {
    if face_visible(vol, axis, positive, k, u, v) {
        cell_at(vol, axis, k, u + 1, v + 1)
    } else {
        0
    }
}

/// The set of visible unit faces of one slice.
pub open spec fn slice_set(vol: VoxelVolume, axis: int, positive: bool, k: int) -> Set<(int, int)> {
    Set::new(
        |p: (int, int)|
            0 <= p.0 < mask_w(vol, axis) && 0 <= p.1 < mask_h(vol, axis) && slice_mask_at(
                vol,
                axis,
                positive,
                k,
                p.0,
                p.1,
            ) != 0,
    )
}

/// The number of visible unit faces of a direction, over slices
/// `1 .. k` (exclusive): the brute-force per-voxel count that the
/// lossless-merge law compares against.
pub open spec fn dir_count_upto(vol: VoxelVolume, axis: int, positive: bool, k: int) -> int
    decreases k,
{
    if k <= 1 {
        0
    } else {
        dir_count_upto(vol, axis, positive, k - 1) + slice_set(vol, axis, positive, k - 1).len()
    }
}

/// The number of visible unit faces of a whole direction.
pub open spec fn dir_count(vol: VoxelVolume, axis: int, positive: bool) -> int {
    dir_count_upto(vol, axis, positive, vol_dim(vol, axis) - 1)
}

/// One merged surface rectangle: a face direction (`axis` and a sign),
/// the slice it lies in, and the merged rectangle within that slice.
#[derive(Clone, Copy, Debug, PartialEq, Eq, Structural)]
pub struct FaceRect {
    pub axis: u8,
    pub positive: bool,
    pub slice: usize,
    pub rect: Rect,
}

pub open spec fn fr_matches(f: FaceRect, axis: int, positive: bool) -> bool {
    f.axis == axis && f.positive == positive
}

pub open spec fn fr_wf(vol: VoxelVolume, f: FaceRect) -> bool {
    &&& f.axis < 3
    &&& 1 <= f.slice < vol_dim(vol, f.axis as int) - 1
    &&& rect_wf(f.rect, mask_w(vol, f.axis as int), mask_h(vol, f.axis as int))
}

/// Total rectangle area emitted for one direction.
pub open spec fn area_sum_dir(frs: Seq<FaceRect>, axis: int, positive: bool) -> int
    decreases frs.len(),
{
    if frs.len() == 0 {
        0
    } else {
        area_sum_dir(frs.drop_last(), axis, positive) + if fr_matches(frs.last(), axis, positive) {
            frs.last().rect.w * frs.last().rect.h
        } else {
            0
        }
    }
}

/// Some emitted rectangle of the given direction and slice covers the
/// face at `(u, v)`.
pub open spec fn fr_covered(
    frs: Seq<FaceRect>,
    axis: int,
    positive: bool,
    k: int,
    u: int,
    v: int,
) -> bool {
    exists|i: int|
        0 <= i < frs.len() && fr_matches(#[trigger] frs[i], axis, positive) && frs[i].slice == k
            && rect_contains(frs[i].rect, u, v)
}

/// Every visible face of one slice is covered by an emitted rectangle
/// of that slice.
pub open spec fn slice_covered(
    vol: VoxelVolume,
    frs: Seq<FaceRect>,
    axis: int,
    positive: bool,
    k: int,
) -> bool {
    forall|u: int, v: int|
        0 <= u < mask_w(vol, axis) && 0 <= v < mask_h(vol, axis) && #[trigger] slice_mask_at(
            vol,
            axis,
            positive,
            k,
            u,
            v,
        ) != 0 ==> fr_covered(frs, axis, positive, k, u, v)
}

/// The emitted rectangle cannot grow wider: it touches the mask
/// edge, the next cell changes material or visibility, or an earlier
/// rectangle of the same direction and slice claims that cell.
pub open spec fn fr_width_maximal(vol: VoxelVolume, frs: Seq<FaceRect>, i: int) -> bool {
    let f = frs[i];
    let r = f.rect;
    ||| r.u0 + r.w == mask_w(vol, f.axis as int)
    ||| slice_mask_at(vol, f.axis as int, f.positive, f.slice as int, r.u0 + r.w, r.v0 as int)
        != r.code
    ||| fr_covered(frs.take(i), f.axis as int, f.positive, f.slice as int, r.u0 + r.w, r.v0 as int)
}

/// The emitted rectangle cannot grow taller: it touches the mask
/// edge, or some cell of the next row changes material or was claimed
/// by an earlier rectangle of the same direction and slice.
pub open spec fn fr_height_maximal(vol: VoxelVolume, frs: Seq<FaceRect>, i: int) -> bool {
    let f = frs[i];
    let r = f.rect;
    ||| r.v0 + r.h == mask_h(vol, f.axis as int)
    ||| exists|uu: int|
        #![trigger slice_mask_at(vol, f.axis as int, f.positive, f.slice as int, uu, r.v0 + r.h)]
        r.u0 <= uu < r.u0 + r.w && (slice_mask_at(
            vol,
            f.axis as int,
            f.positive,
            f.slice as int,
            uu,
            r.v0 + r.h,
        ) != r.code || fr_covered(
            frs.take(i),
            f.axis as int,
            f.positive,
            f.slice as int,
            uu,
            r.v0 + r.h,
        ))
}

/// Within its slice, the rectangle's seed `(u0, v0)` is the
/// raster-first visible face not yet covered: every visible face of
/// the slice scanned before it already lies in an earlier rectangle
/// of the same direction and slice. Together with disjointness and
/// the maximality clauses this pins the greedy decomposition of every
/// slice uniquely.
pub open spec fn fr_seed_first(vol: VoxelVolume, frs: Seq<FaceRect>, i: int) -> bool {
    let f = frs[i];
    let r = f.rect;
    forall|u: int, v: int|
        0 <= u < mask_w(vol, f.axis as int) && 0 <= v < mask_h(vol, f.axis as int)
            && raster_before(u, v, r.u0 as int, r.v0 as int) && #[trigger] slice_mask_at(
            vol,
            f.axis as int,
            f.positive,
            f.slice as int,
            u,
            v,
        ) != 0 ==> fr_covered(frs.take(i), f.axis as int, f.positive, f.slice as int, u, v)
}

/// The direction-independent part of the extractor's contract:
/// well-formed rectangles that cover only visible faces of their own
/// material, never overlap within a direction and slice, and cannot
/// be grown any further (the greedy merge emits maximal rectangles,
/// seeded in raster order).
pub open spec fn extract_inv_basic(vol: VoxelVolume, frs: Seq<FaceRect>) -> bool {
    &&& forall|i: int| 0 <= i < frs.len() ==> fr_wf(vol, #[trigger] frs[i])
    &&& forall|i: int, u: int, v: int|
        0 <= i < frs.len() && #[trigger] rect_contains(frs[i].rect, u, v) ==> slice_mask_at(
            vol,
            frs[i].axis as int,
            frs[i].positive,
            frs[i].slice as int,
            u,
            v,
        ) == frs[i].rect.code
    &&& forall|i: int, j: int|
        0 <= i < j < frs.len() && frs[i].axis == frs[j].axis && frs[i].positive == frs[j].positive
            && frs[i].slice == frs[j].slice ==> rects_disjoint(
            (#[trigger] frs[i]).rect,
            (#[trigger] frs[j]).rect,
        )
    &&& forall|i: int| 0 <= i < frs.len() ==> fr_width_maximal(vol, frs, i)
    &&& forall|i: int| 0 <= i < frs.len() ==> fr_height_maximal(vol, frs, i)
    &&& forall|i: int| 0 <= i < frs.len() ==> fr_seed_first(vol, frs, i)
}

/// The extractor's full contract: the basic invariants, exact
/// coverage of every visible face, and the lossless-merge area law
/// for every direction.
pub open spec fn extract_post(vol: VoxelVolume, frs: Seq<FaceRect>) -> bool {
    &&& extract_inv_basic(vol, frs)
    &&& forall|i: int, j: int|
        0 <= i < j < frs.len() ==> fr_ordered(#[trigger] frs[i], #[trigger] frs[j])
    &&& forall|axis: int, positive: bool, k: int|
        0 <= axis < 3 && 1 <= k < vol_dim(vol, axis) - 1 ==> #[trigger] slice_covered(
            vol,
            frs,
            axis,
            positive,
            k,
        )
    &&& forall|axis: int, positive: bool|
        0 <= axis < 3 ==> #[trigger] area_sum_dir(frs, axis, positive) == dir_count(
            vol,
            axis,
            positive,
        )
}

/// Read one volume cell in slice coordinates.
fn cell_get(vol: &VoxelVolume, axis: u8, k: usize, uu: usize, vv: usize) -> (r: u16)
    requires
        vol.wf(),
        axis < 3,
        k < vol_dim(*vol, axis as int),
        uu < vol_dim(*vol, axis_u(axis as int)),
        vv < vol_dim(*vol, axis_v(axis as int)),
    ensures
        r == cell_at(*vol, axis as int, k as int, uu as int, vv as int),
{
    if axis == 0 {
        vol.get(k, uu, vv)
    } else if axis == 1 {
        vol.get(vv, k, uu)
    } else {
        vol.get(uu, vv, k)
    }
}

/// Build the visibility mask of one slice.
#[verifier::loop_isolation(false)]
fn build_mask(vol: &VoxelVolume, axis: u8, positive: bool, k: usize) -> (mask: Vec<u16>)
    requires
        vol.wf(),
        axis < 3,
        1 <= k,
        k + 1 < vol_dim(*vol, axis as int),
    ensures
        mask@.len() == mask_w(*vol, axis as int) * mask_h(*vol, axis as int),
        forall|u: int, v: int|
            0 <= u < mask_w(*vol, axis as int) && 0 <= v < mask_h(*vol, axis as int)
                ==> #[trigger] mask_at(mask@, mask_w(*vol, axis as int), u, v) == slice_mask_at(
                *vol,
                axis as int,
                positive,
                k as int,
                u,
                v,
            ),
{
    let ua: u8 = if axis == 0 {
        1
    } else if axis == 1 {
        2
    } else {
        0
    };
    let va: u8 = if axis == 0 {
        2
    } else if axis == 1 {
        0
    } else {
        1
    };
    let w = dim_of(vol, ua) - 2;
    let h = dim_of(vol, va) - 2;
    let mut mask: Vec<u16> = Vec::new();
    let mut v: usize = 0;
    while v < h
        invariant
            v <= h,
            mask@.len() == v * w,
            forall|u2: int, v2: int|
                0 <= u2 < w && 0 <= v2 < v ==> #[trigger] mask_at(mask@, w as int, u2, v2)
                    == slice_mask_at(*vol, axis as int, positive, k as int, u2, v2),
        decreases h - v,
    {
        let mut u: usize = 0;
        while u < w
            invariant
                u <= w,
                v < h,
                mask@.len() == v * w + u,
                forall|u2: int, v2: int|
                    0 <= u2 < w && 0 <= v2 < v ==> #[trigger] mask_at(mask@, w as int, u2, v2)
                        == slice_mask_at(*vol, axis as int, positive, k as int, u2, v2),
                forall|u2: int|
                    0 <= u2 < u ==> #[trigger] mask_at(mask@, w as int, u2, v as int)
                        == slice_mask_at(*vol, axis as int, positive, k as int, u2, v as int),
            decreases w - u,
        {
            let c = cell_get(vol, axis, k, u + 1, v + 1);
            let kn = if positive {
                k + 1
            } else {
                k - 1
            };
            let n = cell_get(vol, axis, kn, u + 1, v + 1);
            let val: u16 = if c != 0 && n == 0 {
                c
            } else {
                0
            };
            let ghost mask0 = mask@;
            mask.push(val);
            proof {
                crate::extract::lemma_grid_idx_bounds(w as int, h as int, u as int, v as int);
                assert(mask_at(mask@, w as int, u as int, v as int) == val);
                assert forall|u2: int, v2: int|
                    0 <= u2 < w && (0 <= v2 < v || (v2 == v && 0 <= u2 < u)) implies #[trigger]
                    mask_at(mask@, w as int, u2, v2) == mask_at(mask0, w as int, u2, v2) by {
                    crate::extract::lemma_grid_idx_bounds(w as int, h as int, u2, v2);
                    if v2 < v {
                        assert(v2 * w + u2 < v * w + u) by (nonlinear_arith)
                            requires
                                0 <= u2 < w,
                                0 <= v2 < v,
                                0 <= u,
                        ;
                    }
                }
            }
            u += 1;
        }
        proof {
            assert((v + 1) * w == v * w + w) by (nonlinear_arith);
        }
        v += 1;
    }
    proof {
        assert(w * h == h * w) by (nonlinear_arith);
    }
    mask
}

/// Side length of the volume along one axis.
fn dim_of(vol: &VoxelVolume, axis: u8) -> (r: usize)
    requires
        axis < 3,
    ensures
        r == vol_dim(*vol, axis as int),
{
    if axis == 0 {
        vol.dx
    } else if axis == 1 {
        vol.dy
    } else {
        vol.dz
    }
}


pub open spec fn dir_idx(axis: int, positive: bool) -> int {
    2 * axis + if positive {
        0int
    } else {
        1int
    }
}

/// List order follows the extractor's scan: rectangles of an earlier
/// direction come first, and within a direction those of an earlier
/// slice. Within one slice, the seed clause and disjointness order
/// the rectangles by their seeds.
pub open spec fn fr_ordered(f1: FaceRect, f2: FaceRect) -> bool {
    ||| dir_idx(f1.axis as int, f1.positive) < dir_idx(f2.axis as int, f2.positive)
    ||| (dir_idx(f1.axis as int, f1.positive) == dir_idx(f2.axis as int, f2.positive) && f1.slice
        <= f2.slice)
}

proof fn lemma_area_sum_dir_push(frs: Seq<FaceRect>, f: FaceRect, axis: int, positive: bool)
    ensures
        area_sum_dir(frs.push(f), axis, positive) == area_sum_dir(frs, axis, positive) + if fr_matches(
            f,
            axis,
            positive,
        ) {
            f.rect.w * f.rect.h
        } else {
            0
        },
{
    assert(frs.push(f).drop_last() =~= frs);
    assert(frs.push(f).last() == f);
}

proof fn lemma_area_sum_dir_zero(frs: Seq<FaceRect>, axis: int, positive: bool)
    requires
        forall|i: int| 0 <= i < frs.len() ==> !fr_matches(#[trigger] frs[i], axis, positive),
    ensures
        area_sum_dir(frs, axis, positive) == 0,
    decreases frs.len(),
{
    if frs.len() > 0 {
        assert(forall|i: int|
            0 <= i < frs.drop_last().len() ==> frs.drop_last()[i] == frs[i]);
        lemma_area_sum_dir_zero(frs.drop_last(), axis, positive);
    }
}

proof fn lemma_slice_covered_extend(
    frs0: Seq<FaceRect>,
    frs1: Seq<FaceRect>,
    vol: VoxelVolume,
    axis: int,
    positive: bool,
    k: int,
)
    requires
        frs0.len() <= frs1.len(),
        forall|i: int| 0 <= i < frs0.len() ==> frs1[i] == frs0[i],
        slice_covered(vol, frs0, axis, positive, k),
    ensures
        slice_covered(vol, frs1, axis, positive, k),
{
    assert forall|u: int, v: int|
        0 <= u < mask_w(vol, axis) && 0 <= v < mask_h(vol, axis) && #[trigger] slice_mask_at(
            vol,
            axis,
            positive,
            k,
            u,
            v,
        ) != 0 implies fr_covered(frs1, axis, positive, k, u, v) by {
        assert(fr_covered(frs0, axis, positive, k, u, v));
        let i = choose|i: int|
            0 <= i < frs0.len() && fr_matches(#[trigger] frs0[i], axis, positive) && frs0[i].slice
                == k && rect_contains(frs0[i].rect, u, v);
        assert(frs1[i] == frs0[i]);
        assert(fr_matches(frs1[i], axis, positive));
    }
}

/// Extract the visible surface of a padded volume: for each of the 6
/// face directions and each slice, merge the visible faces into
/// maximal same-material rectangles.
#[verifier::loop_isolation(false)]
#[verifier::rlimit(100)]
pub fn extract(vol: &VoxelVolume) -> (frs: Vec<FaceRect>)
    requires
        vol.wf(),
    ensures
        extract_post(*vol, frs@),
{
    let mut frs: Vec<FaceRect> = Vec::new();
    let mut d: u8 = 0;
    while d < 6
        invariant
            d <= 6,
            forall|i: int|
                0 <= i < frs@.len() ==> dir_idx(
                    (#[trigger] frs@[i]).axis as int,
                    frs@[i].positive,
                ) < d,
            forall|i: int, j: int|
                0 <= i < j < frs@.len() ==> fr_ordered(#[trigger] frs@[i], #[trigger] frs@[j]),
            extract_inv_basic(*vol, frs@),
            forall|a2: int, pos2: bool|
                0 <= a2 < 3 && dir_idx(a2, pos2) < d ==> #[trigger] area_sum_dir(frs@, a2, pos2)
                    == dir_count(*vol, a2, pos2),
            forall|a2: int, pos2: bool, kk: int|
                0 <= a2 < 3 && dir_idx(a2, pos2) < d && 1 <= kk < vol_dim(*vol, a2) - 1
                    ==> #[trigger] slice_covered(*vol, frs@, a2, pos2, kk),
        decreases 6 - d,
    {
        let axis: u8 = d / 2;
        let positive: bool = d % 2 == 0;
        let ghost a = axis as int;
        proof {
            assert(dir_idx(a, positive) == d as int);
        }
        let ua: u8 = if axis == 0 {
            1
        } else if axis == 1 {
            2
        } else {
            0
        };
        let va: u8 = if axis == 0 {
            2
        } else if axis == 1 {
            0
        } else {
            1
        };
        let w = dim_of(vol, ua) - 2;
        let h = dim_of(vol, va) - 2;
        let ad = dim_of(vol, axis);
        proof {
            assert(w as int == mask_w(*vol, a));
            assert(h as int == mask_h(*vol, a));
            assert(ad as int == vol_dim(*vol, a));
            assert forall|i: int| 0 <= i < frs@.len() implies !fr_matches(
                #[trigger] frs@[i],
                a,
                positive,
            ) by {
                assert(dir_idx(frs@[i].axis as int, frs@[i].positive) < d);
            }
            lemma_area_sum_dir_zero(frs@, a, positive);
        }
        let mut k: usize = 1;
        while k < ad - 1
            invariant
                1 <= k <= ad - 1 || (ad < 2 && k == 1),
                forall|i: int|
                    0 <= i < frs@.len() ==> dir_idx(
                        (#[trigger] frs@[i]).axis as int,
                        frs@[i].positive,
                    ) < d || (fr_matches(frs@[i], a, positive) && 1 <= frs@[i].slice < k),
                forall|i: int, j2: int|
                    0 <= i < j2 < frs@.len() ==> fr_ordered(
                        #[trigger] frs@[i],
                        #[trigger] frs@[j2],
                    ),
                extract_inv_basic(*vol, frs@),
                forall|a2: int, pos2: bool|
                    0 <= a2 < 3 && dir_idx(a2, pos2) < d ==> #[trigger] area_sum_dir(
                        frs@,
                        a2,
                        pos2,
                    ) == dir_count(*vol, a2, pos2),
                area_sum_dir(frs@, a, positive) == dir_count_upto(*vol, a, positive, k as int),
                forall|a2: int, pos2: bool, kk: int|
                    0 <= a2 < 3 && dir_idx(a2, pos2) < d && 1 <= kk < vol_dim(*vol, a2) - 1
                        ==> #[trigger] slice_covered(*vol, frs@, a2, pos2, kk),
                forall|kk: int|
                    1 <= kk < k ==> #[trigger] slice_covered(*vol, frs@, a, positive, kk),
            decreases ad - 1 - k,
        {
            let mask = build_mask(vol, axis, positive, k);
            let rects = merge_rects(w, h, &mask);
            let ghost frs_base = frs@;
            let ghost base = frs@.len() as int;
            let mut j: usize = 0;
            while j < rects.len()
                invariant
                    j <= rects@.len(),
                    frs@.len() == base + j,
                    forall|i: int| 0 <= i < base ==> frs@[i] == frs_base[i],
                    forall|jj: int|
                        0 <= jj < j ==> frs@[base + jj] == (FaceRect {
                            axis,
                            positive,
                            slice: k,
                            rect: rects@[jj],
                        }),
                    forall|i: int, j2: int|
                        0 <= i < j2 < frs@.len() ==> fr_ordered(
                            #[trigger] frs@[i],
                            #[trigger] frs@[j2],
                        ),
                    extract_inv_basic(*vol, frs@),
                    area_sum_dir(frs@, a, positive) == dir_count_upto(*vol, a, positive, k as int)
                        + area_sum(rects@.take(j as int)),
                    forall|a2: int, pos2: bool|
                        0 <= a2 < 3 && !(a2 == a && pos2 == positive) ==> #[trigger] area_sum_dir(
                            frs@,
                            a2,
                            pos2,
                        ) == area_sum_dir(frs_base, a2, pos2),
                decreases rects@.len() - j,
            {
                let rc = rects[j];
                let f = FaceRect { axis, positive, slice: k, rect: rc };
                let ghost frs0 = frs@;
                frs.push(f);
                proof {
                    assert(frs@ == frs0.push(f));
                    assert forall|i2b: int, j2b: int| 0 <= i2b < j2b < frs@.len() implies
                        fr_ordered(#[trigger] frs@[i2b], #[trigger] frs@[j2b]) by {
                        if j2b < frs0.len() {
                            assert(frs@[i2b] == frs0[i2b] && frs@[j2b] == frs0[j2b]);
                            assert(fr_ordered(frs0[i2b], frs0[j2b]));
                        } else {
                            assert(frs@[j2b] == f);
                            if i2b < base {
                                assert(frs@[i2b] == frs_base[i2b]);
                                assert(dir_idx(frs_base[i2b].axis as int, frs_base[i2b].positive)
                                    < d || (fr_matches(frs_base[i2b], a, positive) && 1 <= frs_base[
                                    i2b].slice < k));
                            } else {
                                assert(frs@[i2b] == (FaceRect {
                                    axis,
                                    positive,
                                    slice: k,
                                    rect: rects@[i2b - base],
                                }));
                            }
                        }
                    }
                    assert(rect_wf(rc, w as int, h as int));
                    lemma_area_sum_dir_push(frs0, f, a, positive);
                    assert(rects@.take(j + 1).drop_last() =~= rects@.take(j as int));
                    assert(rects@.take(j + 1).last() == rects@[j as int]);
                    assert forall|a2: int, pos2: bool|
                        0 <= a2 < 3 && !(a2 == a && pos2 == positive) implies #[trigger]
                        area_sum_dir(frs@, a2, pos2) == area_sum_dir(frs_base, a2, pos2) by {
                        lemma_area_sum_dir_push(frs0, f, a2, pos2);
                    }
                    assert forall|i: int| 0 <= i < frs@.len() implies fr_wf(
                        *vol,
                        #[trigger] frs@[i],
                    ) by {
                        if i < frs0.len() {
                            assert(frs@[i] == frs0[i]);
                        } else {
                            assert(frs@[i] == f);
                        }
                    }
                    assert forall|i: int, u2: int, v2: int|
                        0 <= i < frs@.len() && #[trigger] rect_contains(frs@[i].rect, u2, v2)
                        implies slice_mask_at(
                        *vol,
                        frs@[i].axis as int,
                        frs@[i].positive,
                        frs@[i].slice as int,
                        u2,
                        v2,
                    ) == frs@[i].rect.code by {
                        if i < frs0.len() {
                            assert(frs@[i] == frs0[i]);
                            assert(rect_contains(frs0[i].rect, u2, v2));
                        } else {
                            assert(frs@[i] == f);
                            assert(rect_contains(rc, u2, v2));
                            assert(0 <= u2 < w && 0 <= v2 < h);
                            assert(mask_at(mask@, w as int, u2, v2) == rc.code);
                        }
                    }
                    assert forall|i: int, i2: int|
                        0 <= i < i2 < frs@.len() && frs@[i].axis == frs@[i2].axis && frs@[
                            i
                        ].positive == frs@[i2].positive && frs@[i].slice == frs@[i2].slice implies
                        rects_disjoint((#[trigger] frs@[i]).rect, (#[trigger] frs@[i2]).rect) by {
                        if i2 < frs0.len() {
                            assert(frs@[i] == frs0[i] && frs@[i2] == frs0[i2]);
                        } else {
                            assert(frs@[i2] == f);
                            if i < base {
                                assert(frs@[i] == frs_base[i]);
                                assert(dir_idx(frs_base[i].axis as int, frs_base[i].positive) < d
                                    || (fr_matches(frs_base[i], a, positive) && 1 <= frs_base[
                                    i].slice < k));
                                assert(false);
                            } else {
                                let jj = i - base;
                                assert(frs@[i] == (FaceRect {
                                    axis,
                                    positive,
                                    slice: k,
                                    rect: rects@[jj],
                                }));
                                assert(rects_disjoint(rects@[jj], rects@[j as int]));
                            }
                        }
                    }
                    assert forall|i2: int| 0 <= i2 < frs@.len() implies fr_width_maximal(
                        *vol,
                        frs@,
                        i2,
                    ) && fr_height_maximal(*vol, frs@, i2) && fr_seed_first(*vol, frs@, i2) by {
                        if i2 < frs0.len() {
                            assert(frs@[i2] == frs0[i2]);
                            assert(frs@.take(i2) =~= frs0.take(i2));
                            assert(fr_width_maximal(*vol, frs0, i2));
                            assert(fr_height_maximal(*vol, frs0, i2));
                            assert(fr_seed_first(*vol, frs0, i2));
                        } else {
                            assert(frs@[i2] == f);
                            let rc2 = rects@[j as int];
                            assert(rect_wf(rc2, w as int, h as int));
                            assert(crate::extract::width_maximal(
                                rects@,
                                j as int,
                                mask@,
                                w as int,
                            ));
                            if rc2.u0 + rc2.w == w {
                            } else if mask_at(mask@, w as int, rc2.u0 + rc2.w, rc2.v0 as int)
                                != rc2.code {
                                assert(mask_at(mask@, w as int, rc2.u0 + rc2.w, rc2.v0 as int)
                                    == slice_mask_at(
                                    *vol,
                                    a,
                                    positive,
                                    k as int,
                                    rc2.u0 + rc2.w,
                                    rc2.v0 as int,
                                ));
                            } else {
                                assert(crate::extract::covered(
                                    rects@.take(j as int),
                                    rc2.u0 + rc2.w,
                                    rc2.v0 as int,
                                ));
                                let jj = choose|jj: int|
                                    0 <= jj < rects@.take(j as int).len() && rect_contains(
                                        #[trigger] rects@.take(j as int)[jj],
                                        rc2.u0 + rc2.w,
                                        rc2.v0 as int,
                                    );
                                assert(rects@.take(j as int)[jj] == rects@[jj]);
                                assert(frs@.take(i2)[base + jj] == frs@[base + jj]);
                                assert(frs@[base + jj] == (FaceRect {
                                    axis,
                                    positive,
                                    slice: k,
                                    rect: rects@[jj],
                                }));
                                assert(fr_matches(frs@.take(i2)[base + jj], a, positive) && frs@.take(
                                    i2,
                                )[base + jj].slice == k && rect_contains(
                                    frs@.take(i2)[base + jj].rect,
                                    rc2.u0 + rc2.w,
                                    rc2.v0 as int,
                                ));
                                assert(fr_covered(
                                    frs@.take(i2),
                                    a,
                                    positive,
                                    k as int,
                                    rc2.u0 + rc2.w,
                                    rc2.v0 as int,
                                ));
                            }
                            assert(fr_width_maximal(*vol, frs@, i2));
                            assert(crate::extract::height_maximal(
                                rects@,
                                j as int,
                                mask@,
                                w as int,
                                h as int,
                            ));
                            if rc2.v0 + rc2.h == h {
                            } else {
                                let uu = choose|uu: int|
                                    #![trigger mask_at(mask@, w as int, uu, rc2.v0 + rc2.h)]
                                    rc2.u0 <= uu < rc2.u0 + rc2.w && (mask_at(
                                        mask@,
                                        w as int,
                                        uu,
                                        rc2.v0 + rc2.h,
                                    ) != rc2.code || crate::extract::covered(
                                        rects@.take(j as int),
                                        uu,
                                        rc2.v0 + rc2.h,
                                    ));
                                assert(mask_at(mask@, w as int, uu, rc2.v0 + rc2.h)
                                    == slice_mask_at(
                                    *vol,
                                    a,
                                    positive,
                                    k as int,
                                    uu,
                                    rc2.v0 + rc2.h,
                                ));
                                if mask_at(mask@, w as int, uu, rc2.v0 + rc2.h) != rc2.code {
                                } else {
                                    let jj = choose|jj: int|
                                        0 <= jj < rects@.take(j as int).len() && rect_contains(
                                            #[trigger] rects@.take(j as int)[jj],
                                            uu,
                                            rc2.v0 + rc2.h,
                                        );
                                    assert(rects@.take(j as int)[jj] == rects@[jj]);
                                    assert(frs@.take(i2)[base + jj] == frs@[base + jj]);
                                    assert(frs@[base + jj] == (FaceRect {
                                        axis,
                                        positive,
                                        slice: k,
                                        rect: rects@[jj],
                                    }));
                                    assert(fr_matches(frs@.take(i2)[base + jj], a, positive)
                                        && frs@.take(i2)[base + jj].slice == k && rect_contains(
                                        frs@.take(i2)[base + jj].rect,
                                        uu,
                                        rc2.v0 + rc2.h,
                                    ));
                                    assert(fr_covered(
                                        frs@.take(i2),
                                        a,
                                        positive,
                                        k as int,
                                        uu,
                                        rc2.v0 + rc2.h,
                                    ));
                                }
                                assert(rc2.u0 <= uu < rc2.u0 + rc2.w && (slice_mask_at(
                                    *vol,
                                    a,
                                    positive,
                                    k as int,
                                    uu,
                                    rc2.v0 + rc2.h,
                                ) != rc2.code || fr_covered(
                                    frs@.take(i2),
                                    a,
                                    positive,
                                    k as int,
                                    uu,
                                    rc2.v0 + rc2.h,
                                )));
                            }
                            assert(fr_height_maximal(*vol, frs@, i2));
                            // The seed property carries over from the
                            // slice merger: faces before the seed are
                            // covered by earlier rectangles of this
                            // slice, which sit just below in the list.
                            assert(crate::extract::seed_first(
                                rects@,
                                j as int,
                                mask@,
                                w as int,
                                h as int,
                            ));
                            assert forall|uu3: int, vv3: int|
                                0 <= uu3 < w && 0 <= vv3 < h && crate::extract::raster_before(
                                    uu3,
                                    vv3,
                                    rc2.u0 as int,
                                    rc2.v0 as int,
                                ) && #[trigger] slice_mask_at(*vol, a, positive, k as int, uu3, vv3)
                                    != 0 implies fr_covered(
                                frs@.take(i2),
                                a,
                                positive,
                                k as int,
                                uu3,
                                vv3,
                            ) by {
                                assert(mask_at(mask@, w as int, uu3, vv3) == slice_mask_at(
                                    *vol,
                                    a,
                                    positive,
                                    k as int,
                                    uu3,
                                    vv3,
                                ));
                                assert(crate::extract::covered(rects@.take(j as int), uu3, vv3));
                                let jj = choose|jj: int|
                                    0 <= jj < rects@.take(j as int).len() && rect_contains(
                                        #[trigger] rects@.take(j as int)[jj],
                                        uu3,
                                        vv3,
                                    );
                                assert(rects@.take(j as int)[jj] == rects@[jj]);
                                assert(frs@.take(i2)[base + jj] == frs@[base + jj]);
                                assert(frs@[base + jj] == (FaceRect {
                                    axis,
                                    positive,
                                    slice: k,
                                    rect: rects@[jj],
                                }));
                                assert(fr_matches(frs@.take(i2)[base + jj], a, positive)
                                    && frs@.take(i2)[base + jj].slice == k && rect_contains(
                                    frs@.take(i2)[base + jj].rect,
                                    uu3,
                                    vv3,
                                ));
                                assert(fr_covered(frs@.take(i2), a, positive, k as int, uu3, vv3));
                            }
                            assert(fr_seed_first(*vol, frs@, i2));
                        }
                    }
                }
                j += 1;
            }
            proof {
                assert(rects@.take(rects@.len() as int) =~= rects@);
                lemma_area_lossless(rects@, mask@, w as int, h as int);
                assert forall|p: (int, int)|
                    visible_cells(mask@, w as int, h as int).contains(p) == slice_set(
                    *vol,
                    a,
                    positive,
                    k as int,
                ).contains(p) by {
                    if 0 <= p.0 < w && 0 <= p.1 < h {
                        assert(mask_at(mask@, w as int, p.0, p.1) == slice_mask_at(
                            *vol,
                            a,
                            positive,
                            k as int,
                            p.0,
                            p.1,
                        ));
                    }
                }
                assert(visible_cells(mask@, w as int, h as int) =~= slice_set(
                    *vol,
                    a,
                    positive,
                    k as int,
                ));
                assert(area_sum_dir(frs@, a, positive) == dir_count_upto(
                    *vol,
                    a,
                    positive,
                    k + 1,
                ));
                assert forall|u2: int, v2: int|
                    0 <= u2 < mask_w(*vol, a) && 0 <= v2 < mask_h(*vol, a) && #[trigger]
                        slice_mask_at(*vol, a, positive, k as int, u2, v2) != 0 implies fr_covered(
                    frs@,
                    a,
                    positive,
                    k as int,
                    u2,
                    v2,
                ) by {
                    assert(mask_at(mask@, w as int, u2, v2) != 0);
                    assert(crate::extract::covered(rects@, u2, v2));
                    let jj = choose|jj: int|
                        0 <= jj < rects@.len() && rect_contains(#[trigger] rects@[jj], u2, v2);
                    assert(frs@[base + jj] == (FaceRect {
                        axis,
                        positive,
                        slice: k,
                        rect: rects@[jj],
                    }));
                    assert(fr_matches(frs@[base + jj], a, positive) && frs@[base + jj].slice
                        == k && rect_contains(frs@[base + jj].rect, u2, v2));
                }
                assert(slice_covered(*vol, frs@, a, positive, k as int));
                assert forall|kk: int| 1 <= kk < k + 1 implies #[trigger] slice_covered(
                    *vol,
                    frs@,
                    a,
                    positive,
                    kk,
                ) by {
                    if kk < k {
                        assert(slice_covered(*vol, frs_base, a, positive, kk));
                        lemma_slice_covered_extend(frs_base, frs@, *vol, a, positive, kk);
                    }
                }
                assert forall|a2: int, pos2: bool, kk: int|
                    0 <= a2 < 3 && dir_idx(a2, pos2) < d && 1 <= kk < vol_dim(*vol, a2) - 1
                    implies #[trigger] slice_covered(*vol, frs@, a2, pos2, kk) by {
                    assert(slice_covered(*vol, frs_base, a2, pos2, kk));
                    lemma_slice_covered_extend(frs_base, frs@, *vol, a2, pos2, kk);
                }
                assert forall|i: int| 0 <= i < frs@.len() implies dir_idx(
                    (#[trigger] frs@[i]).axis as int,
                    frs@[i].positive,
                ) < d || (fr_matches(frs@[i], a, positive) && 1 <= frs@[i].slice < k + 1) by {
                    if i < base {
                        assert(frs@[i] == frs_base[i]);
                    } else {
                        assert(frs@[i] == (FaceRect {
                            axis,
                            positive,
                            slice: k,
                            rect: rects@[i - base],
                        }));
                    }
                }
            }
            k += 1;
        }
        proof {
            assert(area_sum_dir(frs@, a, positive) == dir_count(*vol, a, positive));
            assert forall|a2: int, pos2: bool|
                0 <= a2 < 3 && dir_idx(a2, pos2) < d + 1 implies #[trigger] area_sum_dir(
                frs@,
                a2,
                pos2,
            ) == dir_count(*vol, a2, pos2) by {
                if dir_idx(a2, pos2) == d as int {
                    if pos2 {
                        assert(a2 == a && pos2 == positive);
                    } else {
                        assert(a2 == a && pos2 == positive);
                    }
                }
            }
            assert forall|a2: int, pos2: bool, kk: int|
                0 <= a2 < 3 && dir_idx(a2, pos2) < d + 1 && 1 <= kk < vol_dim(*vol, a2) - 1
                implies #[trigger] slice_covered(*vol, frs@, a2, pos2, kk) by {
                if dir_idx(a2, pos2) == d as int {
                    if pos2 {
                        assert(a2 == a && pos2 == positive);
                    } else {
                        assert(a2 == a && pos2 == positive);
                    }
                    assert(slice_covered(*vol, frs@, a, positive, kk));
                }
            }
        }
        d += 1;
    }
    frs
}

/// The lossless-merge law: for every direction, the summed area of
/// the extracted rectangles equals the number of visible unit faces
/// found by per-face visibility testing.
pub proof fn lemma_lossless_area(
    vol: VoxelVolume,
    frs: Seq<FaceRect>,
    axis: int,
    positive: bool,
)
    requires
        extract_post(vol, frs),
        0 <= axis < 3,
    ensures
        area_sum_dir(frs, axis, positive) == dir_count(vol, axis, positive),
{
}

/// The no-overlap law: two distinct extracted rectangles that share a
/// direction and a slice never overlap.
pub proof fn lemma_no_overlap(vol: VoxelVolume, frs: Seq<FaceRect>, i: int, j: int)
    requires
        extract_post(vol, frs),
        0 <= i < j < frs.len(),
        frs[i].axis == frs[j].axis,
        frs[i].positive == frs[j].positive,
        frs[i].slice == frs[j].slice,
    ensures
        rects_disjoint(frs[i].rect, frs[j].rect),
        forall|u: int, v: int|
            !(#[trigger] rect_contains(frs[i].rect, u, v) && rect_contains(frs[j].rect, u, v)),
{
}


/// One corner of the rectangle's face in output space: the face lies
/// in the plane between the slice and its empty neighbor, shifted by
/// -1 on every axis to undo the padding.
pub open spec fn fr_corner(f: FaceRect, du: bool, dv: bool) -> Vec3 {
    let uc = f.rect.u0 + if du {
        f.rect.w as int
    } else {
        0int
    };
    let vc = f.rect.v0 + if dv {
        f.rect.h as int
    } else {
        0int
    };
    let ac = f.slice - 1 + if f.positive {
        1int
    } else {
        0int
    };
    if f.axis == 0 {
        Vec3 { x: ac as u32, y: uc as u32, z: vc as u32 }
    } else if f.axis == 1 {
        Vec3 { x: vc as u32, y: ac as u32, z: uc as u32 }
    } else {
        Vec3 { x: uc as u32, y: vc as u32, z: ac as u32 }
    }
}

/// The outward unit normal of the rectangle's face.
pub open spec fn fr_normal(f: FaceRect) -> IVec3 {
    let s = if f.positive {
        1i32
    } else {
        (-1) as i32
    };
    if f.axis == 0 {
        IVec3 { x: s, y: 0, z: 0 }
    } else if f.axis == 1 {
        IVec3 { x: 0, y: s, z: 0 }
    } else {
        IVec3 { x: 0, y: 0, z: s }
    }
}

/// How a face rectangle becomes a mesh quad: the four corners ordered
/// so that the fixed triangulation (0-1-2, 1-3-2) winds
/// counter-clockwise seen from outside, the material index decoded
/// from the cell code, and the outward normal.
pub open spec fn quad_rel(f: FaceRect, q: Quad) -> bool {
    &&& q.indices@ == seq![0u32, 1u32, 2u32, 1u32, 3u32, 2u32]
    &&& q.vertices@.len() == 4
    &&& (if f.positive {
        &&& q.vertices@[0] == fr_corner(f, false, false)
        &&& q.vertices@[1] == fr_corner(f, true, false)
        &&& q.vertices@[2] == fr_corner(f, false, true)
        &&& q.vertices@[3] == fr_corner(f, true, true)
    } else {
        &&& q.vertices@[0] == fr_corner(f, true, false)
        &&& q.vertices@[1] == fr_corner(f, false, false)
        &&& q.vertices@[2] == fr_corner(f, true, true)
        &&& q.vertices@[3] == fr_corner(f, false, true)
    })
    &&& q.palette_index == f.rect.code - 1
    &&& q.normal == fr_normal(f)
}

impl FaceRect {
    /// Turn the merged rectangle into a mesh quad.
    pub fn to_quad(&self) -> (q: Quad)
        requires
            self.axis < 3,
            1 <= self.slice <= u32::MAX,
            1 <= self.rect.code <= 256,
            self.rect.u0 + self.rect.w <= u32::MAX,
            self.rect.v0 + self.rect.h <= u32::MAX,
        ensures
            quad_rel(*self, q),
    {
        let u0 = self.rect.u0 as u32;
        let u1 = (self.rect.u0 + self.rect.w) as u32;
        let v0 = self.rect.v0 as u32;
        let v1 = (self.rect.v0 + self.rect.h) as u32;
        let a: u32 = if self.positive {
            self.slice as u32
        } else {
            (self.slice - 1) as u32
        };
        let c00 = self.corner(a, u0, v0);
        let c10 = self.corner(a, u1, v0);
        let c01 = self.corner(a, u0, v1);
        let c11 = self.corner(a, u1, v1);
        let vertices: [Vec3; 4] = if self.positive {
            [c00, c10, c01, c11]
        } else {
            [c10, c00, c11, c01]
        };
        let s: i32 = if self.positive {
            1
        } else {
            -1
        };
        let normal = if self.axis == 0 {
            IVec3 { x: s, y: 0, z: 0 }
        } else if self.axis == 1 {
            IVec3 { x: 0, y: s, z: 0 }
        } else {
            IVec3 { x: 0, y: 0, z: s }
        };
        let q = Quad {
            vertices,
            indices: [0, 1, 2, 1, 3, 2],
            palette_index: (self.rect.code - 1) as u8,
            normal,
        };
        proof {
            assert(q.indices@ =~= seq![0u32, 1u32, 2u32, 1u32, 3u32, 2u32]);
        }
        q
    }

    /// One corner at in-slice coordinates `(uc, vc)` on plane `a`.
    fn corner(&self, a: u32, uc: u32, vc: u32) -> (r: Vec3)
        requires
            self.axis < 3,
        ensures
            self.axis == 0 ==> r == (Vec3 { x: a, y: uc, z: vc }),
            self.axis == 1 ==> r == (Vec3 { x: vc, y: a, z: uc }),
            self.axis == 2 ==> r == (Vec3 { x: uc, y: vc, z: a }),
    {
        if self.axis == 0 {
            Vec3 { x: a, y: uc, z: vc }
        } else if self.axis == 1 {
            Vec3 { x: vc, y: a, z: uc }
        } else {
            Vec3 { x: uc, y: vc, z: a }
        }
    }
}


/// A face inside one rectangle is never covered by the earlier
/// rectangles of its direction and slice: they are all disjoint from
/// it.
proof fn lemma_fr_covered_disjoint(frs: Seq<FaceRect>, i: int, u: int, v: int)
    requires
        forall|i2: int, j2: int|
            0 <= i2 < j2 < frs.len() && frs[i2].axis == frs[j2].axis && frs[i2].positive
                == frs[j2].positive && frs[i2].slice == frs[j2].slice ==> rects_disjoint(
                (#[trigger] frs[i2]).rect,
                (#[trigger] frs[j2]).rect,
            ),
        0 <= i < frs.len(),
        rect_contains(frs[i].rect, u, v),
    ensures
        !fr_covered(frs.take(i), frs[i].axis as int, frs[i].positive, frs[i].slice as int, u, v),
{
    if fr_covered(frs.take(i), frs[i].axis as int, frs[i].positive, frs[i].slice as int, u, v) {
        let j = choose|j: int|
            0 <= j < frs.take(i).len() && fr_matches(
                #[trigger] frs.take(i)[j],
                frs[i].axis as int,
                frs[i].positive,
            ) && frs.take(i)[j].slice == frs[i].slice as int && rect_contains(
                frs.take(i)[j].rect,
                u,
                v,
            );
        assert(frs.take(i)[j] == frs[j]);
        assert(rects_disjoint(frs[j].rect, frs[i].rect));
        assert(rect_contains(frs[j].rect, u, v));
    }
}

/// With equal prefixes, the next rectangles of two extractions are
/// equal: the order clause forces a common direction and slice, the
/// seed clause a common seed, and the maximality clauses common
/// extents.
proof fn lemma_extract_unique_at(vol: VoxelVolume, f1: Seq<FaceRect>, f2: Seq<FaceRect>, i: int)
    requires
        extract_post(vol, f1),
        extract_post(vol, f2),
        0 <= i < f1.len(),
        i < f2.len(),
        f1.take(i) == f2.take(i),
    ensures
        f1[i] == f2[i],
{
    let a = f1[i];
    let b = f2[i];
    assert(fr_wf(vol, f1[i]));
    assert(fr_wf(vol, f2[i]));
    assert(rect_contains(f1[i].rect, a.rect.u0 as int, a.rect.v0 as int));
    assert(slice_mask_at(
        vol,
        a.axis as int,
        a.positive,
        a.slice as int,
        a.rect.u0 as int,
        a.rect.v0 as int,
    ) == a.rect.code);
    assert(rect_contains(f2[i].rect, b.rect.u0 as int, b.rect.v0 as int));
    assert(slice_mask_at(
        vol,
        b.axis as int,
        b.positive,
        b.slice as int,
        b.rect.u0 as int,
        b.rect.v0 as int,
    ) == b.rect.code);

    // The two rectangles belong to the same direction and slice: were
    // one scanned first, the other extraction covers its seed within
    // that earlier direction and slice, and by the order clause the
    // covering rectangle sits in the shared prefix -- overlapping it.
    assert(!(dir_idx(a.axis as int, a.positive) < dir_idx(b.axis as int, b.positive) || (dir_idx(
        a.axis as int,
        a.positive,
    ) == dir_idx(b.axis as int, b.positive) && a.slice < b.slice))) by {
        if dir_idx(a.axis as int, a.positive) < dir_idx(b.axis as int, b.positive) || (dir_idx(
            a.axis as int,
            a.positive,
        ) == dir_idx(b.axis as int, b.positive) && a.slice < b.slice) {
            assert(slice_covered(vol, f2, a.axis as int, a.positive, a.slice as int));
            assert(fr_covered(
                f2,
                a.axis as int,
                a.positive,
                a.slice as int,
                a.rect.u0 as int,
                a.rect.v0 as int,
            ));
            let e = choose|e: int|
                0 <= e < f2.len() && fr_matches(#[trigger] f2[e], a.axis as int, a.positive) && f2[
                    e
                ].slice == a.slice as int && rect_contains(
                    f2[e].rect,
                    a.rect.u0 as int,
                    a.rect.v0 as int,
                );
            if e > i {
                assert(fr_ordered(f2[i], f2[e]));
                assert(false);
            }
            if e == i {
                assert(false);
            }
            assert(f2.take(i)[e] == f2[e]);
            assert(fr_covered(
                f2.take(i),
                a.axis as int,
                a.positive,
                a.slice as int,
                a.rect.u0 as int,
                a.rect.v0 as int,
            ));
            assert(fr_covered(
                f1.take(i),
                a.axis as int,
                a.positive,
                a.slice as int,
                a.rect.u0 as int,
                a.rect.v0 as int,
            ));
            lemma_fr_covered_disjoint(f1, i, a.rect.u0 as int, a.rect.v0 as int);
        }
    }
    assert(!(dir_idx(b.axis as int, b.positive) < dir_idx(a.axis as int, a.positive) || (dir_idx(
        b.axis as int,
        b.positive,
    ) == dir_idx(a.axis as int, a.positive) && b.slice < a.slice))) by {
        if dir_idx(b.axis as int, b.positive) < dir_idx(a.axis as int, a.positive) || (dir_idx(
            b.axis as int,
            b.positive,
        ) == dir_idx(a.axis as int, a.positive) && b.slice < a.slice) {
            assert(slice_covered(vol, f1, b.axis as int, b.positive, b.slice as int));
            assert(fr_covered(
                f1,
                b.axis as int,
                b.positive,
                b.slice as int,
                b.rect.u0 as int,
                b.rect.v0 as int,
            ));
            let e = choose|e: int|
                0 <= e < f1.len() && fr_matches(#[trigger] f1[e], b.axis as int, b.positive) && f1[
                    e
                ].slice == b.slice as int && rect_contains(
                    f1[e].rect,
                    b.rect.u0 as int,
                    b.rect.v0 as int,
                );
            if e > i {
                assert(fr_ordered(f1[i], f1[e]));
                assert(false);
            }
            if e == i {
                assert(false);
            }
            assert(f1.take(i)[e] == f1[e]);
            assert(fr_covered(
                f1.take(i),
                b.axis as int,
                b.positive,
                b.slice as int,
                b.rect.u0 as int,
                b.rect.v0 as int,
            ));
            assert(fr_covered(
                f2.take(i),
                b.axis as int,
                b.positive,
                b.slice as int,
                b.rect.u0 as int,
                b.rect.v0 as int,
            ));
            lemma_fr_covered_disjoint(f2, i, b.rect.u0 as int, b.rect.v0 as int);
        }
    }
    assert(a.axis == b.axis && a.positive == b.positive && a.slice == b.slice) by {
        assert(dir_idx(a.axis as int, a.positive) == dir_idx(b.axis as int, b.positive));
        if a.positive != b.positive {
            assert(false);
        }
    }

    // Common seed, by the seed clauses of both extractions.
    assert(!raster_before(
        b.rect.u0 as int,
        b.rect.v0 as int,
        a.rect.u0 as int,
        a.rect.v0 as int,
    )) by {
        if raster_before(b.rect.u0 as int, b.rect.v0 as int, a.rect.u0 as int, a.rect.v0 as int) {
            assert(fr_seed_first(vol, f1, i));
            assert(fr_covered(
                f1.take(i),
                a.axis as int,
                a.positive,
                a.slice as int,
                b.rect.u0 as int,
                b.rect.v0 as int,
            ));
            assert(fr_covered(
                f2.take(i),
                b.axis as int,
                b.positive,
                b.slice as int,
                b.rect.u0 as int,
                b.rect.v0 as int,
            ));
            lemma_fr_covered_disjoint(f2, i, b.rect.u0 as int, b.rect.v0 as int);
        }
    }
    assert(!raster_before(
        a.rect.u0 as int,
        a.rect.v0 as int,
        b.rect.u0 as int,
        b.rect.v0 as int,
    )) by {
        if raster_before(a.rect.u0 as int, a.rect.v0 as int, b.rect.u0 as int, b.rect.v0 as int) {
            assert(fr_seed_first(vol, f2, i));
            assert(fr_covered(
                f2.take(i),
                b.axis as int,
                b.positive,
                b.slice as int,
                a.rect.u0 as int,
                a.rect.v0 as int,
            ));
            assert(fr_covered(
                f1.take(i),
                a.axis as int,
                a.positive,
                a.slice as int,
                a.rect.u0 as int,
                a.rect.v0 as int,
            ));
            lemma_fr_covered_disjoint(f1, i, a.rect.u0 as int, a.rect.v0 as int);
        }
    }
    assert(a.rect.u0 == b.rect.u0 && a.rect.v0 == b.rect.v0);
    assert(a.rect.code == b.rect.code);

    // Equal widths: the narrower rectangle's stop cell lies inside
    // the wider one, so it matches the material and is not claimed by
    // an earlier rectangle of the slice.
    assert(!(a.rect.u0 + a.rect.w < b.rect.u0 + b.rect.w)) by {
        if a.rect.u0 + a.rect.w < b.rect.u0 + b.rect.w {
            let cu = a.rect.u0 + a.rect.w;
            let cv = a.rect.v0 as int;
            assert(rect_contains(f2[i].rect, cu, cv));
            assert(slice_mask_at(vol, b.axis as int, b.positive, b.slice as int, cu, cv)
                == b.rect.code);
            assert(fr_width_maximal(vol, f1, i));
            assert(fr_covered(f1.take(i), a.axis as int, a.positive, a.slice as int, cu, cv));
            assert(fr_covered(f2.take(i), b.axis as int, b.positive, b.slice as int, cu, cv));
            lemma_fr_covered_disjoint(f2, i, cu, cv);
        }
    }
    assert(!(b.rect.u0 + b.rect.w < a.rect.u0 + a.rect.w)) by {
        if b.rect.u0 + b.rect.w < a.rect.u0 + a.rect.w {
            let cu = b.rect.u0 + b.rect.w;
            let cv = b.rect.v0 as int;
            assert(rect_contains(f1[i].rect, cu, cv));
            assert(slice_mask_at(vol, a.axis as int, a.positive, a.slice as int, cu, cv)
                == a.rect.code);
            assert(fr_width_maximal(vol, f2, i));
            assert(fr_covered(f2.take(i), b.axis as int, b.positive, b.slice as int, cu, cv));
            assert(fr_covered(f1.take(i), a.axis as int, a.positive, a.slice as int, cu, cv));
            lemma_fr_covered_disjoint(f1, i, cu, cv);
        }
    }
    assert(a.rect.w == b.rect.w);

    // Equal heights: the shorter rectangle's stop row lies inside the
    // taller one, so every cell of it matches the material and none
    // is claimed earlier.
    assert(!(a.rect.v0 + a.rect.h < b.rect.v0 + b.rect.h)) by {
        if a.rect.v0 + a.rect.h < b.rect.v0 + b.rect.h {
            assert(fr_height_maximal(vol, f1, i));
            assert(a.rect.v0 + a.rect.h != mask_h(vol, a.axis as int));
            let uu = choose|uu: int|
                #![trigger slice_mask_at(vol, a.axis as int, a.positive, a.slice as int, uu, a.rect.v0 + a.rect.h)]
                a.rect.u0 <= uu < a.rect.u0 + a.rect.w && (slice_mask_at(
                    vol,
                    a.axis as int,
                    a.positive,
                    a.slice as int,
                    uu,
                    a.rect.v0 + a.rect.h,
                ) != a.rect.code || fr_covered(
                    f1.take(i),
                    a.axis as int,
                    a.positive,
                    a.slice as int,
                    uu,
                    a.rect.v0 + a.rect.h,
                ));
            assert(rect_contains(f2[i].rect, uu, a.rect.v0 + a.rect.h));
            assert(slice_mask_at(
                vol,
                b.axis as int,
                b.positive,
                b.slice as int,
                uu,
                a.rect.v0 + a.rect.h,
            ) == b.rect.code);
            if fr_covered(
                f1.take(i),
                a.axis as int,
                a.positive,
                a.slice as int,
                uu,
                a.rect.v0 + a.rect.h,
            ) {
                assert(fr_covered(
                    f2.take(i),
                    b.axis as int,
                    b.positive,
                    b.slice as int,
                    uu,
                    a.rect.v0 + a.rect.h,
                ));
                lemma_fr_covered_disjoint(f2, i, uu, a.rect.v0 + a.rect.h);
            }
        }
    }
    assert(!(b.rect.v0 + b.rect.h < a.rect.v0 + a.rect.h)) by {
        if b.rect.v0 + b.rect.h < a.rect.v0 + a.rect.h {
            assert(fr_height_maximal(vol, f2, i));
            assert(b.rect.v0 + b.rect.h != mask_h(vol, b.axis as int));
            let uu = choose|uu: int|
                #![trigger slice_mask_at(vol, b.axis as int, b.positive, b.slice as int, uu, b.rect.v0 + b.rect.h)]
                b.rect.u0 <= uu < b.rect.u0 + b.rect.w && (slice_mask_at(
                    vol,
                    b.axis as int,
                    b.positive,
                    b.slice as int,
                    uu,
                    b.rect.v0 + b.rect.h,
                ) != b.rect.code || fr_covered(
                    f2.take(i),
                    b.axis as int,
                    b.positive,
                    b.slice as int,
                    uu,
                    b.rect.v0 + b.rect.h,
                ));
            assert(rect_contains(f1[i].rect, uu, b.rect.v0 + b.rect.h));
            assert(slice_mask_at(
                vol,
                a.axis as int,
                a.positive,
                a.slice as int,
                uu,
                b.rect.v0 + b.rect.h,
            ) == a.rect.code);
            if fr_covered(
                f2.take(i),
                b.axis as int,
                b.positive,
                b.slice as int,
                uu,
                b.rect.v0 + b.rect.h,
            ) {
                assert(fr_covered(
                    f1.take(i),
                    a.axis as int,
                    a.positive,
                    a.slice as int,
                    uu,
                    b.rect.v0 + b.rect.h,
                ));
                lemma_fr_covered_disjoint(f1, i, uu, b.rect.v0 + b.rect.h);
            }
        }
    }
    assert(a.rect.h == b.rect.h);
}

proof fn lemma_extract_unique_prefix(
    vol: VoxelVolume,
    f1: Seq<FaceRect>,
    f2: Seq<FaceRect>,
    i: int,
)
    requires
        extract_post(vol, f1),
        extract_post(vol, f2),
        0 <= i <= f1.len(),
        i <= f2.len(),
    ensures
        f1.take(i) == f2.take(i),
    decreases i,
{
    if i == 0 {
        assert(f1.take(0) =~= f2.take(0));
    } else {
        lemma_extract_unique_prefix(vol, f1, f2, i - 1);
        lemma_extract_unique_at(vol, f1, f2, i - 1);
        assert forall|j: int| 0 <= j < i implies f1.take(i)[j] == f2.take(i)[j] by {
            if j < i - 1 {
                assert(f1.take(i - 1)[j] == f2.take(i - 1)[j]);
            }
        }
        assert(f1.take(i) =~= f2.take(i));
    }
}

/// The determinism law for the extractor: its contract has exactly
/// one model. Any two rectangle lists that satisfy it for the same
/// volume are equal, so the extracted surface -- and the mesh
/// assembled from it -- is a function of the volume alone.
pub proof fn lemma_extract_unique(vol: VoxelVolume, f1: Seq<FaceRect>, f2: Seq<FaceRect>)
    requires
        extract_post(vol, f1),
        extract_post(vol, f2),
    ensures
        f1 == f2,
{
    assert(!(f1.len() < f2.len())) by {
        if f1.len() < f2.len() {
            let n = f1.len() as int;
            lemma_extract_unique_prefix(vol, f1, f2, n);
            let b = f2[n];
            assert(fr_wf(vol, f2[n]));
            assert(rect_contains(f2[n].rect, b.rect.u0 as int, b.rect.v0 as int));
            assert(slice_mask_at(
                vol,
                b.axis as int,
                b.positive,
                b.slice as int,
                b.rect.u0 as int,
                b.rect.v0 as int,
            ) == b.rect.code);
            assert(slice_covered(vol, f1, b.axis as int, b.positive, b.slice as int));
            assert(fr_covered(
                f1,
                b.axis as int,
                b.positive,
                b.slice as int,
                b.rect.u0 as int,
                b.rect.v0 as int,
            ));
            assert(f1.take(n) =~= f1);
            assert(fr_covered(
                f2.take(n),
                b.axis as int,
                b.positive,
                b.slice as int,
                b.rect.u0 as int,
                b.rect.v0 as int,
            ));
            lemma_fr_covered_disjoint(f2, n, b.rect.u0 as int, b.rect.v0 as int);
        }
    }
    assert(!(f2.len() < f1.len())) by {
        if f2.len() < f1.len() {
            let n = f2.len() as int;
            lemma_extract_unique_prefix(vol, f1, f2, n);
            let a = f1[n];
            assert(fr_wf(vol, f1[n]));
            assert(rect_contains(f1[n].rect, a.rect.u0 as int, a.rect.v0 as int));
            assert(slice_mask_at(
                vol,
                a.axis as int,
                a.positive,
                a.slice as int,
                a.rect.u0 as int,
                a.rect.v0 as int,
            ) == a.rect.code);
            assert(slice_covered(vol, f2, a.axis as int, a.positive, a.slice as int));
            assert(fr_covered(
                f2,
                a.axis as int,
                a.positive,
                a.slice as int,
                a.rect.u0 as int,
                a.rect.v0 as int,
            ));
            assert(f2.take(n) =~= f2);
            assert(fr_covered(
                f1.take(n),
                a.axis as int,
                a.positive,
                a.slice as int,
                a.rect.u0 as int,
                a.rect.v0 as int,
            ));
            lemma_fr_covered_disjoint(f1, n, a.rect.u0 as int, a.rect.v0 as int);
        }
    }
    lemma_extract_unique_prefix(vol, f1, f2, f1.len() as int);
    assert(f1.take(f1.len() as int) =~= f1);
    assert(f2.take(f2.len() as int) =~= f2);
}

} // verus!
