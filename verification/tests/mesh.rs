use voxmesh::convert::convert_model;
use voxmesh::extract::merge_rects;
use voxmesh::math::Vec3;
use voxmesh::model::{Model, SparseVoxel};
use voxmesh::obj::Obj;
use voxmesh::surface::{extract, FaceRect};
use voxmesh::volume::VoxelVolume;

fn model(size: (u32, u32, u32), voxels: &[(u8, u8, u8, u8)]) -> Model {
    Model {
        size: Vec3::new(size.0, size.1, size.2),
        voxels: voxels
            .iter()
            .map(|&(x, y, z, i)| SparseVoxel { x, y, z, i })
            .collect(),
    }
}

/// Per-voxel visibility testing, independent of the extractor: counts
/// the unit faces of one direction whose neighbor cell is empty.
fn brute_force_faces(vol: &VoxelVolume, axis: u8, positive: bool) -> u64 {
    let (da, du, dv) = match axis {
        0 => (vol.dx, vol.dy, vol.dz),
        1 => (vol.dy, vol.dz, vol.dx),
        _ => (vol.dz, vol.dx, vol.dy),
    };
    let get = |k: usize, u: usize, v: usize| -> u16 {
        match axis {
            0 => vol.get(k, u, v),
            1 => vol.get(v, k, u),
            _ => vol.get(u, v, k),
        }
    };
    let mut n: u64 = 0;
    for k in 1..da - 1 {
        for u in 1..du - 1 {
            for v in 1..dv - 1 {
                let kn = if positive { k + 1 } else { k - 1 };
                if get(k, u, v) != 0 && get(kn, u, v) == 0 {
                    n += 1;
                }
            }
        }
    }
    n
}

fn area_of_direction(frs: &[FaceRect], axis: u8, positive: bool) -> u64 {
    frs.iter()
        .filter(|f| f.axis == axis && f.positive == positive)
        .map(|f| (f.rect.w as u64) * (f.rect.h as u64))
        .sum()
}

fn assert_lossless_area(m: &Model) {
    let vol = VoxelVolume::build(m.size, &m.voxels);
    let frs = extract(&vol);
    for axis in 0..3u8 {
        for &positive in &[true, false] {
            assert_eq!(
                area_of_direction(&frs, axis, positive),
                brute_force_faces(&vol, axis, positive),
                "direction {axis} {positive}"
            );
        }
    }
}

fn assert_no_overlap(frs: &[FaceRect]) {
    for i in 0..frs.len() {
        for j in i + 1..frs.len() {
            let (a, b) = (&frs[i], &frs[j]);
            if a.axis == b.axis && a.positive == b.positive && a.slice == b.slice {
                let separated = a.rect.u0 + a.rect.w <= b.rect.u0
                    || b.rect.u0 + b.rect.w <= a.rect.u0
                    || a.rect.v0 + a.rect.h <= b.rect.v0
                    || b.rect.v0 + b.rect.h <= a.rect.v0;
                assert!(separated, "quads {i} and {j} overlap");
            }
        }
    }
}

fn assert_dedup(obj: &Obj) {
    for i in 0..obj.v.len() {
        for j in i + 1..obj.v.len() {
            let (a, b) = (obj.v[i], obj.v[j]);
            assert!((a.x, a.y, a.z) != (b.x, b.y, b.z));
        }
    }
    for i in 0..obj.vt.len() {
        for j in i + 1..obj.vt.len() {
            assert_ne!(obj.vt[i], obj.vt[j]);
        }
    }
    for i in 0..obj.vn.len() {
        for j in i + 1..obj.vn.len() {
            let (a, b) = (obj.vn[i], obj.vn[j]);
            assert!((a.x, a.y, a.z) != (b.x, b.y, b.z));
        }
    }
    for q in &obj.q {
        for k in 0..6 {
            assert!(1 <= q.v[k] && q.v[k] <= obj.v.len());
        }
        assert!(1 <= q.vt && q.vt <= obj.vt.len());
        assert!(1 <= q.vn && q.vn <= obj.vn.len());
    }
}

fn lines(bytes: &[u8]) -> Vec<String> {
    String::from_utf8(bytes.to_vec())
        .unwrap()
        .lines()
        .map(|l| l.to_string())
        .collect()
}

#[test]
fn single_voxel_counts() {
    let m = model((1, 1, 1), &[(0, 0, 0, 0)]);
    let vol = VoxelVolume::build(m.size, &m.voxels);
    let frs = extract(&vol);
    assert_eq!(frs.len(), 6);
    let obj = convert_model(&m);
    assert_eq!(obj.v.len(), 8);
    assert_eq!(obj.vn.len(), 6);
    assert_eq!(obj.vt.len(), 1);
    assert_eq!(obj.q.len(), 6);
    let text = lines(&obj.serialize());
    assert_eq!(text.iter().filter(|l| l.starts_with("f ")).count(), 12);
    assert_eq!(text.iter().filter(|l| l.starts_with("v ")).count(), 8);
    assert_eq!(text.iter().filter(|l| l.starts_with("vn ")).count(), 6);
    assert_eq!(text.iter().filter(|l| l.starts_with("vt ")).count(), 1);
}

#[test]
fn single_voxel_exact_lines() {
    let m = model((1, 1, 1), &[(0, 0, 0, 0)]);
    let obj = convert_model(&m);
    let text = lines(&obj.serialize());
    // Positions are centered on XZ: the unit cube's corners become
    // half-integers there, rendered with one decimal digit.
    for want in [
        "v -0.5 0.0 -0.5",
        "v 0.5 0.0 -0.5",
        "v -0.5 1.0 -0.5",
        "v 0.5 1.0 -0.5",
        "v -0.5 0.0 0.5",
        "v 0.5 0.0 0.5",
        "v -0.5 1.0 0.5",
        "v 0.5 1.0 0.5",
    ] {
        assert!(text.iter().any(|l| l == want), "missing {want}");
    }
    // Material 0 sits at the center of the first palette texel.
    assert!(text.iter().any(|l| l == "vt 0.001953 0.5"));
    for want in ["vn 1 0 0", "vn -1 0 0", "vn 0 1 0", "vn 0 -1 0", "vn 0 0 1", "vn 0 0 -1"] {
        assert!(text.iter().any(|l| l == want), "missing {want}");
    }
    // Sections come in order: positions, texcoords, normals, faces.
    let first_vt = text.iter().position(|l| l.starts_with("vt ")).unwrap();
    let first_vn = text.iter().position(|l| l.starts_with("vn ")).unwrap();
    let first_f = text.iter().position(|l| l.starts_with("f ")).unwrap();
    let last_v = text.iter().rposition(|l| l.starts_with("v ")).unwrap();
    assert!(last_v < first_vt && first_vt < first_vn && first_vn < first_f);
}

#[test]
fn highest_material_index_texcoord() {
    let m = model((1, 1, 1), &[(0, 0, 0, 255)]);
    let obj = convert_model(&m);
    assert_eq!(obj.vt, vec![255]);
    let text = lines(&obj.serialize());
    assert!(text.iter().any(|l| l == "vt 0.998047 0.5"));
}

#[test]
fn two_adjacent_voxels_merge() {
    let m = model((2, 1, 1), &[(0, 0, 0, 3), (1, 0, 0, 3)]);
    let vol = VoxelVolume::build(m.size, &m.voxels);
    let frs = extract(&vol);
    // The two end caps perpendicular to the adjacency axis stay
    // unmerged (one unit quad each); the four side faces merge into
    // one 2x1 quad each: 6 quads in all, against 10 unit faces.
    assert_eq!(frs.len(), 6);
    let caps: Vec<&FaceRect> = frs.iter().filter(|f| f.axis == 0).collect();
    assert_eq!(caps.len(), 2);
    for f in &caps {
        assert_eq!((f.rect.w, f.rect.h), (1, 1));
    }
    let sides: Vec<&FaceRect> = frs.iter().filter(|f| f.axis != 0).collect();
    assert_eq!(sides.len(), 4);
    for f in &sides {
        assert_eq!(f.rect.w * f.rect.h, 2);
    }
    let total_faces: u64 = (0..3u8)
        .flat_map(|a| [true, false].map(|p| brute_force_faces(&vol, a, p)))
        .sum();
    assert_eq!(total_faces, 10);
}

#[test]
fn different_materials_do_not_merge() {
    let m = model((2, 1, 1), &[(0, 0, 0, 1), (1, 0, 0, 2)]);
    let vol = VoxelVolume::build(m.size, &m.voxels);
    let frs = extract(&vol);
    // No two faces share a material, so nothing merges: 10 unit quads.
    assert_eq!(frs.len(), 10);
    assert_lossless_area(&m);
    assert_no_overlap(&frs);
}

#[test]
fn lossless_area_various_models() {
    let shapes: Vec<Model> = vec![
        model((1, 1, 1), &[(0, 0, 0, 0)]),
        model((3, 3, 3), &[(0, 0, 0, 1), (1, 0, 0, 1), (1, 1, 0, 1), (2, 2, 2, 5)]),
        model(
            (4, 2, 3),
            &[
                (0, 0, 0, 7),
                (1, 0, 0, 7),
                (2, 0, 0, 7),
                (3, 0, 0, 7),
                (0, 1, 0, 7),
                (1, 1, 0, 7),
                (2, 1, 0, 2),
                (0, 0, 1, 7),
                (1, 0, 2, 9),
            ],
        ),
        model((2, 2, 2), &[]),
    ];
    for m in &shapes {
        assert_lossless_area(m);
        let vol = VoxelVolume::build(m.size, &m.voxels);
        let frs = extract(&vol);
        assert_no_overlap(&frs);
        let obj = convert_model(m);
        assert_dedup(&obj);
    }
}

#[test]
fn empty_model_empty_mesh() {
    let m = model((2, 2, 2), &[]);
    let obj = convert_model(&m);
    assert_eq!(obj.v.len(), 0);
    assert_eq!(obj.q.len(), 0);
    assert!(obj.serialize().is_empty());
}

#[test]
fn duplicate_voxel_last_write_wins() {
    let m = model((1, 1, 1), &[(0, 0, 0, 1), (0, 0, 0, 8)]);
    let obj = convert_model(&m);
    assert_eq!(obj.vt, vec![8]);
}

#[test]
fn hollow_box_interior_faces() {
    // A 3x3x3 shell with an empty center: the interior faces of the
    // cavity are visible too.
    let mut voxels = Vec::new();
    for x in 0..3u8 {
        for y in 0..3u8 {
            for z in 0..3u8 {
                if (x, y, z) != (1, 1, 1) {
                    voxels.push((x, y, z, 0));
                }
            }
        }
    }
    let m = model((3, 3, 3), &voxels);
    let vol = VoxelVolume::build(m.size, &m.voxels);
    for axis in 0..3u8 {
        for positive in [true, false] {
            // 9 outer faces plus the 1 cavity wall per direction.
            assert_eq!(brute_force_faces(&vol, axis, positive), 10);
        }
    }
    assert_lossless_area(&m);
    let frs = extract(&vol);
    assert_no_overlap(&frs);
    assert_dedup(&convert_model(&m));
}

#[test]
fn greedy_merge_prefers_width() {
    // An L of three visible cells in a 2x2 mask: the sweep starts at
    // the top-left, grows the full 2-wide row first, and the leftover
    // cell becomes its own unit rectangle.
    let mask: Vec<u16> = vec![5, 5, 5, 0];
    let rects = merge_rects(2, 2, &mask);
    assert_eq!(rects.len(), 2);
    assert_eq!(
        (rects[0].u0, rects[0].v0, rects[0].w, rects[0].h, rects[0].code),
        (0, 0, 2, 1, 5)
    );
    assert_eq!(
        (rects[1].u0, rects[1].v0, rects[1].w, rects[1].h, rects[1].code),
        (0, 1, 1, 1, 5)
    );
}

#[test]
fn greedy_merge_grows_height() {
    // A full left column merges vertically once the width is pinned
    // to one cell.
    let mask: Vec<u16> = vec![5, 0, 5, 5];
    let rects = merge_rects(2, 2, &mask);
    assert_eq!(rects.len(), 2);
    assert_eq!(
        (rects[0].u0, rects[0].v0, rects[0].w, rects[0].h, rects[0].code),
        (0, 0, 1, 2, 5)
    );
    assert_eq!(
        (rects[1].u0, rects[1].v0, rects[1].w, rects[1].h, rects[1].code),
        (1, 1, 1, 1, 5)
    );
}

#[test]
fn merge_covers_mixed_materials_exactly() {
    let mask: Vec<u16> = vec![1, 1, 2, 2, 1, 1, 2, 2, 3, 3, 3, 3];
    let rects = merge_rects(4, 3, &mask);
    let area: usize = rects.iter().map(|r| r.w * r.h).sum();
    assert_eq!(area, 12);
    // Same-material blocks merge into one rectangle each.
    assert_eq!(rects.len(), 3);
    let mut covered = vec![false; 12];
    for r in &rects {
        for dv in 0..r.h {
            for du in 0..r.w {
                let p = (r.v0 + dv) * 4 + r.u0 + du;
                assert!(!covered[p], "cell covered twice");
                covered[p] = true;
                assert_eq!(mask[p], r.code);
            }
        }
    }
    assert!(covered.iter().all(|&c| c));
}

#[test]
fn face_lines_reference_valid_indices() {
    let m = model((3, 2, 2), &[(0, 0, 0, 1), (1, 0, 0, 1), (2, 0, 0, 2), (0, 1, 1, 1)]);
    let obj = convert_model(&m);
    let text = lines(&obj.serialize());
    let mut face_count = 0;
    for l in text.iter().filter(|l| l.starts_with("f ")) {
        face_count += 1;
        let refs: Vec<&str> = l[2..].split(' ').collect();
        assert_eq!(refs.len(), 3, "three corners per triangle: {l}");
        for r in refs {
            let parts: Vec<usize> = r.split('/').map(|p| p.parse().unwrap()).collect();
            assert_eq!(parts.len(), 3, "pos/tex/normal triple: {r}");
            assert!(1 <= parts[0] && parts[0] <= obj.v.len());
            assert!(1 <= parts[1] && parts[1] <= obj.vt.len());
            assert!(1 <= parts[2] && parts[2] <= obj.vn.len());
        }
    }
    assert_eq!(face_count, 2 * obj.q.len());
}

#[test]
fn conversion_is_reproducible() {
    // Mesh assembly is a pure function of the model: two conversions
    // of equal models serialize to byte-identical text.
    let m = model((3, 3, 3), &[(0, 0, 0, 1), (1, 0, 0, 1), (1, 1, 0, 2), (2, 2, 2, 5)]);
    let m2 = model((3, 3, 3), &[(0, 0, 0, 1), (1, 0, 0, 1), (1, 1, 0, 2), (2, 2, 2, 5)]);
    let o1 = convert_model(&m);
    let o2 = convert_model(&m2);
    assert_eq!(o1.serialize(), o2.serialize());
}
