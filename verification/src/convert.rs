//! The conversion pipeline: sparse voxels into a padded dense volume,
//! the volume's visible surface into merged quads, and the quads into
//! a deduplicated mesh.

use vstd::prelude::*;
use crate::error::Error;
use crate::model::Color;
use crate::model::Material;
use crate::model::Model;
use crate::model::VoxData;
use crate::obj::MeshView;
use crate::obj::Obj;
use crate::obj::Quad;
use crate::obj::push_quad_rel;
use crate::obj::quad_corner;
use crate::palette::Palette;
use crate::palette::materials_wf;
use crate::surface::FaceRect;
use crate::surface::extract;
use crate::surface::extract_post;
use crate::surface::fr_wf;
use crate::surface::mask_h;
use crate::surface::mask_w;
use crate::surface::quad_rel;
use crate::extract::rect_contains;
use crate::volume::VoxelVolume;
use crate::volume::built_cell;

verus! {

/// `vol` is the padded dense volume of `m`: two extra cells per axis,
/// the source's up axis mapped to the output's second axis, and each
/// cell holding the material code the build writes.
pub open spec fn volume_matches(m: Model, vol: VoxelVolume) -> bool {
    &&& vol.wf()
    &&& vol.dx == m.size.x + 2
    &&& vol.dy == m.size.z + 2
    &&& vol.dz == m.size.y + 2
    &&& forall|x: int, y: int, z: int|
        vol.in_range(x, y, z) ==> #[trigger] vol.cell(x, y, z) == built_cell(m.voxels@, x, y, z)
}

/// The mesh is the result of pushing, in order, one quad per
/// extracted face rectangle onto an empty mesh.
pub open spec fn mesh_from(frs: Seq<FaceRect>, m: MeshView) -> bool
    decreases frs.len(),
{
    if frs.len() == 0 {
        m == MeshView::empty()
    } else {
        exists|m0: MeshView, q: Quad|
            #![trigger push_quad_rel(m0, q, m), quad_rel(frs.last(), q)]
            mesh_from(frs.drop_last(), m0) && quad_rel(frs.last(), q) && push_quad_rel(m0, q, m)
    }
}

/// The mesh is what the pipeline builds for this model: some volume
/// matching the model, whose extracted surface was assembled quad by
/// quad.
pub open spec fn model_mesh(model: Model, m: MeshView) -> bool {
    exists|vol: VoxelVolume, frs: Seq<FaceRect>|
        #![trigger volume_matches(model, vol), mesh_from(frs, m)]
        volume_matches(model, vol) && extract_post(vol, frs) && mesh_from(frs, m)
}

impl Obj {
    /// Convert one voxel model into its deduplicated surface mesh.
    #[verifier::loop_isolation(false)]
    pub fn new(vox: &Model) -> (r: Obj)
        requires
            vox.wf(),
        ensures
            r.wf(),
            r.size_x == vox.size.x,
            r.size_y == vox.size.y,
            model_mesh(*vox, r.mesh()),
    {
        let vol = VoxelVolume::build(vox.size, &vox.voxels);
        let frs = extract(&vol);
        let mut obj = Obj::empty(vox.size.x, vox.size.y);
        proof {
            assert(frs@.take(0) =~= Seq::<FaceRect>::empty());
        }
        let mut i: usize = 0;
        while i < frs.len()
            invariant
                i <= frs@.len(),
                obj.wf(),
                obj.size_x == vox.size.x,
                obj.size_y == vox.size.y,
                mesh_from(frs@.take(i as int), obj.mesh()),
            decreases frs@.len() - i,
        {
            let f = frs[i];
            proof {
                assert(fr_wf(vol, frs@[i as int]));
                assert(1 <= f.slice <= u32::MAX && f.rect.u0 + f.rect.w <= u32::MAX && f.rect.v0
                    + f.rect.h <= u32::MAX) by {
                    if f.axis == 0 {
                        assert(mask_w(vol, 0) == vol.dy - 2);
                        assert(mask_h(vol, 0) == vol.dz - 2);
                    } else if f.axis == 1 {
                        assert(mask_w(vol, 1) == vol.dz - 2);
                        assert(mask_h(vol, 1) == vol.dx - 2);
                    } else {
                        assert(mask_w(vol, 2) == vol.dx - 2);
                        assert(mask_h(vol, 2) == vol.dy - 2);
                    }
                }
                assert(1 <= f.rect.code <= 256) by {
                    assert(rect_contains(frs@[i as int].rect, f.rect.u0 as int, f.rect.v0 as int));
                    assert(crate::surface::slice_mask_at(
                        vol,
                        f.axis as int,
                        f.positive,
                        f.slice as int,
                        f.rect.u0 as int,
                        f.rect.v0 as int,
                    ) == f.rect.code);
                    if f.axis == 0 {
                        assert(mask_w(vol, 0) == vol.dy - 2 && mask_h(vol, 0) == vol.dz - 2);
                        assert(vol.cell(f.slice as int, f.rect.u0 + 1, f.rect.v0 + 1) <= 256);
                    } else if f.axis == 1 {
                        assert(mask_w(vol, 1) == vol.dz - 2 && mask_h(vol, 1) == vol.dx - 2);
                        assert(vol.cell(f.rect.v0 + 1, f.slice as int, f.rect.u0 + 1) <= 256);
                    } else {
                        assert(mask_w(vol, 2) == vol.dx - 2 && mask_h(vol, 2) == vol.dy - 2);
                        assert(vol.cell(f.rect.u0 + 1, f.rect.v0 + 1, f.slice as int) <= 256);
                    }
                }
            }
            let quad = f.to_quad();
            let ghost m0 = obj.mesh();
            proof {
                assert forall|k: int| 0 <= k < 6 implies (#[trigger] quad.indices[k]) < 4 by {
                    assert(quad.indices@ == seq![0u32, 1u32, 2u32, 1u32, 3u32, 2u32]);
                    if k == 0 {
                        assert(quad.indices@[0] == 0u32);
                    } else if k == 1 {
                        assert(quad.indices@[1] == 1u32);
                    } else if k == 2 {
                        assert(quad.indices@[2] == 2u32);
                    } else if k == 3 {
                        assert(quad.indices@[3] == 1u32);
                    } else if k == 4 {
                        assert(quad.indices@[4] == 3u32);
                    } else {
                        assert(quad.indices@[5] == 2u32);
                    }
                }
            }
            obj.push_quad(quad);
            proof {
                assert(frs@.take(i + 1).drop_last() =~= frs@.take(i as int));
                assert(frs@.take(i + 1).last() == frs@[i as int]);
                assert(quad_rel(frs@[i as int], quad));
                assert(push_quad_rel(m0, quad, obj.mesh()));
                assert(mesh_from(frs@.take(i + 1), obj.mesh()));
            }
            i += 1;
        }
        proof {
            assert(frs@.take(frs@.len() as int) =~= frs@);
            assert(volume_matches(*vox, vol));
            assert(mesh_from(frs@, obj.mesh()));
            assert(model_mesh(*vox, obj.mesh()));
        }
        obj
    }
}

/// Convert one voxel model into its deduplicated surface mesh.
pub fn convert_model(vox: &Model) -> (r: Obj)
    requires
        vox.wf(),
    ensures
        r.wf(),
        r.size_x == vox.size.x,
        r.size_y == vox.size.y,
        model_mesh(*vox, r.mesh()),
{
    Obj::new(vox)
}

/// Convert in single-model mode: exactly one model is converted; no
/// model or more than one is an error.
pub fn convert_single_model(vox: &VoxData) -> (r: Result<Obj, Error>)
    requires
        vox.wf(),
    ensures
        vox.models@.len() == 0 ==> r == Result::<Obj, Error>::Err(Error::EmptyModel),
        vox.models@.len() > 1 ==> r == Result::<Obj, Error>::Err(Error::TooManyModels),
        vox.models@.len() == 1 ==> {
            &&& r is Ok
            &&& r->Ok_0.wf()
            &&& r->Ok_0.size_x == vox.models@[0].size.x
            &&& r->Ok_0.size_y == vox.models@[0].size.y
            &&& model_mesh(vox.models@[0], r->Ok_0.mesh())
        },
{
    if vox.models.len() == 0 {
        Err(Error::EmptyModel)
    } else if vox.models.len() > 1 {
        Err(Error::TooManyModels)
    } else {
        Ok(Obj::new(&vox.models[0]))
    }
}

/// Build the palette images from the color and material tables: the
/// albedo always, and one grayscale image per material property that
/// some table entry defines.
pub fn convert_palette(colors: &Vec<Color>, materials: &Vec<Material>) -> (r: Palette)
    requires
        colors@.len() <= 256,
        materials_wf(materials@),
    ensures
        r.built_from(colors@, materials@),
{
    Palette::new(colors, materials)
}


/// A mesh assembled from a rectangle list has duplicate-free tables.
proof fn lemma_mesh_from_wf(frs: Seq<FaceRect>, m: MeshView)
    requires
        mesh_from(frs, m),
    ensures
        crate::obj::distinct_seq(m.v),
        crate::obj::distinct_seq(m.vt),
        crate::obj::distinct_seq(m.vn),
    decreases frs.len(),
{
    if frs.len() == 0 {
        assert(m == MeshView::empty());
    } else {
        let (m0, q): (MeshView, Quad) = choose|m0: MeshView, q: Quad|
            #![trigger push_quad_rel(m0, q, m), quad_rel(frs.last(), q)]
            mesh_from(frs.drop_last(), m0) && quad_rel(frs.last(), q) && push_quad_rel(m0, q, m);
        lemma_mesh_from_wf(frs.drop_last(), m0);
        crate::obj::lemma_intern_corners_distinct(m0.v, q, 6);
        crate::obj::lemma_intern_one_distinct(m0.vt, q.palette_index);
        crate::obj::lemma_intern_one_distinct(m0.vn, q.normal);
    }
}

/// Two quads read from the same face rectangle contribute the same
/// corner values, material and normal.
proof fn lemma_quad_rel_congruent(f: FaceRect, qa: Quad, qb: Quad)
    requires
        quad_rel(f, qa),
        quad_rel(f, qb),
    ensures
        forall|k: int| 0 <= k < 6 ==> quad_corner(qa, k) == quad_corner(qb, k),
        qa.palette_index == qb.palette_index,
        qa.normal == qb.normal,
{
    assert forall|k: int| 0 <= k < 6 implies quad_corner(qa, k) == quad_corner(qb, k) by {
        assert(qa.indices@ == seq![0u32, 1u32, 2u32, 1u32, 3u32, 2u32]);
        assert(qb.indices@ == seq![0u32, 1u32, 2u32, 1u32, 3u32, 2u32]);
        if k == 0 {
            assert(qa.indices@[0] == 0u32 && qb.indices@[0] == 0u32);
        } else if k == 1 {
            assert(qa.indices@[1] == 1u32 && qb.indices@[1] == 1u32);
        } else if k == 2 {
            assert(qa.indices@[2] == 2u32 && qb.indices@[2] == 2u32);
        } else if k == 3 {
            assert(qa.indices@[3] == 1u32 && qb.indices@[3] == 1u32);
        } else if k == 4 {
            assert(qa.indices@[4] == 3u32 && qb.indices@[4] == 3u32);
        } else {
            assert(qa.indices@[5] == 2u32 && qb.indices@[5] == 2u32);
        }
    }
}

/// Assembling the same rectangle list always yields the same mesh:
/// interning is a function of the corner values, and with
/// duplicate-free tables every face index is pinned.
proof fn lemma_mesh_from_unique(frs: Seq<FaceRect>, m1: MeshView, m2: MeshView)
    requires
        mesh_from(frs, m1),
        mesh_from(frs, m2),
    ensures
        m1 == m2,
    decreases frs.len(),
{
    if frs.len() == 0 {
        assert(m1 == MeshView::empty());
        assert(m2 == MeshView::empty());
    } else {
        let (m0a, qa): (MeshView, Quad) = choose|m0: MeshView, q: Quad|
            #![trigger push_quad_rel(m0, q, m1), quad_rel(frs.last(), q)]
            mesh_from(frs.drop_last(), m0) && quad_rel(frs.last(), q) && push_quad_rel(m0, q, m1);
        let (m0b, qb): (MeshView, Quad) = choose|m0: MeshView, q: Quad|
            #![trigger push_quad_rel(m0, q, m2), quad_rel(frs.last(), q)]
            mesh_from(frs.drop_last(), m0) && quad_rel(frs.last(), q) && push_quad_rel(m0, q, m2);
        lemma_mesh_from_unique(frs.drop_last(), m0a, m0b);
        lemma_quad_rel_congruent(frs.last(), qa, qb);
        crate::obj::lemma_intern_corners_congruent(m0a.v, qa, qb, 6);
        assert(m1.v == m2.v);
        assert(m1.vt == m2.vt);
        assert(m1.vn == m2.vn);
        lemma_mesh_from_wf(frs, m1);

        // The appended face record is pinned: with duplicate-free
        // tables there is one index per interned value.
        let la = m1.q.last();
        let lb = m2.q.last();
        assert forall|k: int| 0 <= k < 6 implies la.v@[k] == lb.v@[k] by {
            assert(1 <= la.v[k] <= m1.v.len() && m1.v[la.v[k] - 1] == quad_corner(qa, k));
            assert(1 <= lb.v[k] <= m2.v.len() && m2.v[lb.v[k] - 1] == quad_corner(qb, k));
            if la.v[k] < lb.v[k] {
                assert(m1.v[la.v[k] - 1] != m1.v[lb.v[k] - 1]);
            }
            if lb.v[k] < la.v[k] {
                assert(m1.v[lb.v[k] - 1] != m1.v[la.v[k] - 1]);
            }
        }
        assert(la.vt == lb.vt) by {
            assert(m1.vt[la.vt - 1] == qa.palette_index);
            assert(m2.vt[lb.vt - 1] == qb.palette_index);
            if la.vt < lb.vt {
                assert(m1.vt[la.vt - 1] != m1.vt[lb.vt - 1]);
            }
            if lb.vt < la.vt {
                assert(m1.vt[lb.vt - 1] != m1.vt[la.vt - 1]);
            }
        }
        assert(la.vn == lb.vn) by {
            assert(m1.vn[la.vn - 1] == qa.normal);
            assert(m2.vn[lb.vn - 1] == qb.normal);
            if la.vn < lb.vn {
                assert(m1.vn[la.vn - 1] != m1.vn[lb.vn - 1]);
            }
            if lb.vn < la.vn {
                assert(m1.vn[lb.vn - 1] != m1.vn[la.vn - 1]);
            }
        }
        crate::obj::lemma_quad_indices_eq(la, lb);
        assert forall|j: int| 0 <= j < m1.q.len() implies m1.q[j] == m2.q[j] by {
            if j < m1.q.len() - 1 {
                assert(m1.q.take(m1.q.len() - 1)[j] == m1.q[j]);
                assert(m2.q.take(m2.q.len() - 1)[j] == m2.q[j]);
                assert(m0a.q[j] == m0b.q[j]);
            }
        }
        assert(m1.q =~= m2.q);
    }
}

/// The determinism law for the pipeline: one volume admits exactly
/// one extraction, and one extraction assembles into exactly one
/// mesh. Mesh assembly is a pure function of the voxel volume.
pub proof fn lemma_pipeline_unique(
    vol: VoxelVolume,
    f1: Seq<FaceRect>,
    f2: Seq<FaceRect>,
    m1: MeshView,
    m2: MeshView,
)
    requires
        extract_post(vol, f1),
        mesh_from(f1, m1),
        extract_post(vol, f2),
        mesh_from(f2, m2),
    ensures
        m1 == m2,
{
    crate::surface::lemma_extract_unique(vol, f1, f2);
    lemma_mesh_from_unique(f1, m1, m2);
}


/// Two volumes built for the same model agree on every dimension and
/// every cell.
proof fn lemma_volumes_agree(m: Model, v1: VoxelVolume, v2: VoxelVolume)
    requires
        volume_matches(m, v1),
        volume_matches(m, v2),
    ensures
        v1.dx == v2.dx,
        v1.dy == v2.dy,
        v1.dz == v2.dz,
        forall|x: int, y: int, z: int|
            v1.in_range(x, y, z) ==> #[trigger] v1.cell(x, y, z) == v2.cell(x, y, z),
{
    assert forall|x: int, y: int, z: int| v1.in_range(x, y, z) implies #[trigger] v1.cell(x, y, z)
        == v2.cell(x, y, z) by {
        assert(v1.cell(x, y, z) == built_cell(m.voxels@, x, y, z));
        assert(v2.cell(x, y, z) == built_cell(m.voxels@, x, y, z));
    }
}

/// Volumes that agree on dimensions and cells agree on every slice
/// mask value within the mask.
proof fn lemma_smask_agree(v1: VoxelVolume, v2: VoxelVolume)
    requires
        v1.dx == v2.dx,
        v1.dy == v2.dy,
        v1.dz == v2.dz,
        forall|x: int, y: int, z: int|
            v1.in_range(x, y, z) ==> #[trigger] v1.cell(x, y, z) == v2.cell(x, y, z),
    ensures
        forall|a: int, p: bool, k: int, u: int, v: int|
            0 <= a < 3 && 1 <= k < crate::surface::vol_dim(v1, a) - 1 && 0 <= u < mask_w(v1, a)
                && 0 <= v < mask_h(v1, a) ==> #[trigger] crate::surface::slice_mask_at(
                v1,
                a,
                p,
                k,
                u,
                v,
            ) == crate::surface::slice_mask_at(v2, a, p, k, u, v),
{
    assert forall|a: int, p: bool, k: int, u: int, v: int|
        0 <= a < 3 && 1 <= k < crate::surface::vol_dim(v1, a) - 1 && 0 <= u < mask_w(v1, a) && 0
            <= v < mask_h(v1, a) implies #[trigger] crate::surface::slice_mask_at(v1, a, p, k, u, v)
        == crate::surface::slice_mask_at(v2, a, p, k, u, v) by {
        let kn = if p {
            k + 1
        } else {
            k - 1
        };
        if a == 0 {
            assert(v1.cell(k, u + 1, v + 1) == v2.cell(k, u + 1, v + 1));
            assert(v1.cell(kn, u + 1, v + 1) == v2.cell(kn, u + 1, v + 1));
        } else if a == 1 {
            assert(v1.cell(v + 1, k, u + 1) == v2.cell(v + 1, k, u + 1));
            assert(v1.cell(v + 1, kn, u + 1) == v2.cell(v + 1, kn, u + 1));
        } else {
            assert(v1.cell(u + 1, v + 1, k) == v2.cell(u + 1, v + 1, k));
            assert(v1.cell(u + 1, v + 1, kn) == v2.cell(u + 1, v + 1, kn));
        }
    }
}

/// Per-direction visible-face counts agree on agreeing volumes.
proof fn lemma_dir_count_agree(v1: VoxelVolume, v2: VoxelVolume, a: int, p: bool, k: int)
    requires
        v1.dx == v2.dx,
        v1.dy == v2.dy,
        v1.dz == v2.dz,
        forall|x: int, y: int, z: int|
            v1.in_range(x, y, z) ==> #[trigger] v1.cell(x, y, z) == v2.cell(x, y, z),
        0 <= a < 3,
        k <= crate::surface::vol_dim(v1, a) - 1,
    ensures
        crate::surface::dir_count_upto(v1, a, p, k) == crate::surface::dir_count_upto(v2, a, p, k),
    decreases k,
{
    if k > 1 {
        lemma_dir_count_agree(v1, v2, a, p, k - 1);
        lemma_smask_agree(v1, v2);
        assert(crate::surface::slice_set(v1, a, p, k - 1) =~= crate::surface::slice_set(
            v2,
            a,
            p,
            k - 1,
        )) by {
            assert forall|pt: (int, int)|
                #![trigger crate::surface::slice_set(v1, a, p, k - 1).contains(pt)]
                crate::surface::slice_set(v1, a, p, k - 1).contains(pt) == crate::surface::slice_set(
                v2,
                a,
                p,
                k - 1,
            ).contains(pt) by {
                if 0 <= pt.0 < mask_w(v1, a) && 0 <= pt.1 < mask_h(v1, a) {
                    assert(crate::surface::slice_mask_at(v1, a, p, k - 1, pt.0, pt.1)
                        == crate::surface::slice_mask_at(v2, a, p, k - 1, pt.0, pt.1));
                }
            }
        }
    }
}

/// An extraction of one volume is an extraction of any volume built
/// for the same model: the contract reads the volume only through its
/// dimensions and cells.
proof fn lemma_extract_post_agree(
    m: Model,
    v1: VoxelVolume,
    v2: VoxelVolume,
    frs: Seq<FaceRect>,
)
    requires
        volume_matches(m, v1),
        volume_matches(m, v2),
        extract_post(v1, frs),
    ensures
        extract_post(v2, frs),
{
    lemma_volumes_agree(m, v1, v2);
    lemma_smask_agree(v1, v2);

    assert forall|i: int| 0 <= i < frs.len() implies fr_wf(v2, #[trigger] frs[i]) by {
        assert(fr_wf(v1, frs[i]));
    }
    assert forall|i: int, u: int, v: int|
        0 <= i < frs.len() && #[trigger] rect_contains(frs[i].rect, u, v) implies
        crate::surface::slice_mask_at(
        v2,
        frs[i].axis as int,
        frs[i].positive,
        frs[i].slice as int,
        u,
        v,
    ) == frs[i].rect.code by {
        assert(fr_wf(v1, frs[i]));
        assert(crate::surface::slice_mask_at(
            v1,
            frs[i].axis as int,
            frs[i].positive,
            frs[i].slice as int,
            u,
            v,
        ) == frs[i].rect.code);
    }
    assert forall|i: int| 0 <= i < frs.len() implies crate::surface::fr_width_maximal(
        v2,
        frs,
        i,
    ) by {
        assert(crate::surface::fr_width_maximal(v1, frs, i));
        assert(fr_wf(v1, frs[i]));
        let f = frs[i];
        let r = f.rect;
        if r.u0 + r.w != mask_w(v1, f.axis as int) && !crate::surface::fr_covered(
            frs.take(i),
            f.axis as int,
            f.positive,
            f.slice as int,
            r.u0 + r.w,
            r.v0 as int,
        ) {
            assert(crate::surface::slice_mask_at(
                v1,
                f.axis as int,
                f.positive,
                f.slice as int,
                r.u0 + r.w,
                r.v0 as int,
            ) != r.code);
            assert(crate::surface::slice_mask_at(
                v2,
                f.axis as int,
                f.positive,
                f.slice as int,
                r.u0 + r.w,
                r.v0 as int,
            ) != r.code);
        }
    }
    assert forall|i: int| 0 <= i < frs.len() implies crate::surface::fr_height_maximal(
        v2,
        frs,
        i,
    ) by {
        assert(crate::surface::fr_height_maximal(v1, frs, i));
        assert(fr_wf(v1, frs[i]));
        let f = frs[i];
        let r = f.rect;
        if r.v0 + r.h != mask_h(v1, f.axis as int) {
            let uu = choose|uu: int|
                #![trigger crate::surface::slice_mask_at(v1, f.axis as int, f.positive, f.slice as int, uu, r.v0 + r.h)]
                r.u0 <= uu < r.u0 + r.w && (crate::surface::slice_mask_at(
                    v1,
                    f.axis as int,
                    f.positive,
                    f.slice as int,
                    uu,
                    r.v0 + r.h,
                ) != r.code || crate::surface::fr_covered(
                    frs.take(i),
                    f.axis as int,
                    f.positive,
                    f.slice as int,
                    uu,
                    r.v0 + r.h,
                ));
            assert(crate::surface::slice_mask_at(
                v1,
                f.axis as int,
                f.positive,
                f.slice as int,
                uu,
                r.v0 + r.h,
            ) == crate::surface::slice_mask_at(
                v2,
                f.axis as int,
                f.positive,
                f.slice as int,
                uu,
                r.v0 + r.h,
            ));
        }
    }
    assert forall|i: int| 0 <= i < frs.len() implies crate::surface::fr_seed_first(
        v2,
        frs,
        i,
    ) by {
        assert(crate::surface::fr_seed_first(v1, frs, i));
        let f = frs[i];
        let r = f.rect;
        assert forall|u: int, v: int|
            0 <= u < mask_w(v2, f.axis as int) && 0 <= v < mask_h(v2, f.axis as int)
                && crate::extract::raster_before(u, v, r.u0 as int, r.v0 as int) && #[trigger]
                crate::surface::slice_mask_at(v2, f.axis as int, f.positive, f.slice as int, u, v)
                != 0 implies crate::surface::fr_covered(
            frs.take(i),
            f.axis as int,
            f.positive,
            f.slice as int,
            u,
            v,
        ) by {
            assert(fr_wf(v1, frs[i]));
            assert(crate::surface::slice_mask_at(v1, f.axis as int, f.positive, f.slice as int, u, v)
                == crate::surface::slice_mask_at(
                v2,
                f.axis as int,
                f.positive,
                f.slice as int,
                u,
                v,
            ));
        }
    }
    assert forall|axis: int, positive: bool, k: int|
        0 <= axis < 3 && 1 <= k < crate::surface::vol_dim(v2, axis) - 1 implies #[trigger]
        crate::surface::slice_covered(v2, frs, axis, positive, k) by {
        assert(crate::surface::slice_covered(v1, frs, axis, positive, k));
        assert forall|u: int, v: int|
            0 <= u < mask_w(v2, axis) && 0 <= v < mask_h(v2, axis) && #[trigger]
                crate::surface::slice_mask_at(v2, axis, positive, k, u, v) != 0 implies
            crate::surface::fr_covered(frs, axis, positive, k, u, v) by {
            assert(crate::surface::slice_mask_at(v1, axis, positive, k, u, v)
                == crate::surface::slice_mask_at(v2, axis, positive, k, u, v));
        }
    }
    assert forall|axis: int, positive: bool| 0 <= axis < 3 implies #[trigger]
        crate::surface::area_sum_dir(frs, axis, positive) == crate::surface::dir_count(
        v2,
        axis,
        positive,
    ) by {
        lemma_dir_count_agree(v1, v2, axis, positive, crate::surface::vol_dim(v1, axis) - 1);
        assert(crate::surface::area_sum_dir(frs, axis, positive) == crate::surface::dir_count(
            v1,
            axis,
            positive,
        ));
    }
}

/// The determinism law for the whole conversion: a model admits
/// exactly one mesh. Mesh assembly is a pure function of the voxel
/// model, so two conversions of equal models serialize identically.
pub proof fn lemma_model_mesh_unique(m: Model, m1: MeshView, m2: MeshView)
    requires
        model_mesh(m, m1),
        model_mesh(m, m2),
    ensures
        m1 == m2,
{
    let (v1, f1): (VoxelVolume, Seq<FaceRect>) = choose|vol: VoxelVolume, frs: Seq<FaceRect>|
        #![trigger volume_matches(m, vol), mesh_from(frs, m1)]
        volume_matches(m, vol) && extract_post(vol, frs) && mesh_from(frs, m1);
    let (v2, f2): (VoxelVolume, Seq<FaceRect>) = choose|vol: VoxelVolume, frs: Seq<FaceRect>|
        #![trigger volume_matches(m, vol), mesh_from(frs, m2)]
        volume_matches(m, vol) && extract_post(vol, frs) && mesh_from(frs, m2);
    lemma_extract_post_agree(m, v2, v1, f2);
    lemma_pipeline_unique(v1, f1, f2, m1, m2);
}


/// Conversion is reproducible: any two meshes the conversion contract
/// admits for one model serialize to the same bytes. With
/// `convert_model`'s postcondition this makes the whole conversion,
/// output text included, a pure function of the model.
pub proof fn lemma_convert_deterministic(m: Model, o1: Obj, o2: Obj)
    requires
        model_mesh(m, o1.mesh()),
        model_mesh(m, o2.mesh()),
        o1.size_x == m.size.x && o1.size_y == m.size.y,
        o2.size_x == m.size.x && o2.size_y == m.size.y,
    ensures
        crate::obj::spec_serialize(o1.size_x, o1.size_y, o1.mesh()) == crate::obj::spec_serialize(
            o2.size_x,
            o2.size_y,
            o2.mesh(),
        ),
{
    lemma_model_mesh_unique(m, o1.mesh(), o2.mesh());
}

} // verus!
