use voxmesh::convert::convert_palette;
use voxmesh::math::{FaceVertex, Vec3};
use voxmesh::model::{Color, Material};
use voxmesh::palette::Palette;

fn material(id: u32) -> Material {
    Material { id, metalness: None, roughness: None, emission: None }
}

#[test]
fn albedo_round_trip() {
    // Distinct all-opaque colors: pixel i equals color-table entry i.
    let colors: Vec<Color> = (0..=255u8)
        .map(|i| Color { r: i, g: i.wrapping_add(1), b: i.wrapping_mul(3), a: 255 })
        .collect();
    let p = Palette::new(&colors, &Vec::new());
    assert_eq!(p.albedo.len(), 1024);
    for (i, c) in colors.iter().enumerate() {
        assert_eq!(p.albedo[4 * i], c.r);
        assert_eq!(p.albedo[4 * i + 1], c.g);
        assert_eq!(p.albedo[4 * i + 2], c.b);
        assert_eq!(p.albedo[4 * i + 3], c.a);
    }
    assert!(!p.properties.metallic && !p.properties.roughness && !p.properties.emission);
}

#[test]
fn short_color_table_pads_with_zeros() {
    let colors = vec![Color { r: 10, g: 20, b: 30, a: 255 }];
    let p = Palette::new(&colors, &Vec::new());
    assert_eq!(&p.albedo[0..4], &[10, 20, 30, 255]);
    assert!(p.albedo[4..].iter().all(|&b| b == 0));
}

#[test]
fn roughness_only_on_two_entries() {
    // Table entries 3 and 9 (0-indexed) carry a roughness value;
    // material ids are 1-based.
    let colors: Vec<Color> = (0..256).map(|_| Color { r: 0, g: 0, b: 0, a: 255 }).collect();
    let materials = vec![
        Material { roughness: Some(128), ..material(4) },
        Material { roughness: Some(200), ..material(10) },
    ];
    let p = Palette::new(&colors, &materials);
    assert!(p.properties.roughness);
    assert!(!p.properties.metallic);
    assert!(!p.properties.emission);
    for c in 0..3 {
        assert_eq!(p.roughness[3 * 3 + c], 128);
        assert_eq!(p.roughness[3 * 9 + c], 200);
    }
    for slot in 0..256 {
        if slot != 3 && slot != 9 {
            assert_eq!(p.roughness[3 * slot], 0);
        }
    }
    assert!(p.metallic.iter().all(|&b| b == 0));
    assert!(p.emission.iter().all(|&b| b == 0));
}

#[test]
fn later_material_entry_overwrites_earlier() {
    let colors: Vec<Color> = Vec::new();
    let materials = vec![
        Material { metalness: Some(50), ..material(1) },
        Material { metalness: Some(99), ..material(1) },
    ];
    let p = Palette::new(&colors, &materials);
    assert_eq!(p.metallic[0], 99);
}

#[test]
fn all_three_properties() {
    let colors: Vec<Color> = Vec::new();
    let materials = vec![Material {
        id: 5,
        metalness: Some(1),
        roughness: Some(2),
        emission: Some(3),
    }];
    let p = Palette::new(&colors, &materials);
    assert!(p.properties.metallic && p.properties.roughness && p.properties.emission);
    assert_eq!(p.metallic[3 * 4], 1);
    assert_eq!(p.roughness[3 * 4], 2);
    assert_eq!(p.emission[3 * 4], 3);
}

#[test]
fn convert_palette_consults_materials() {
    let colors = vec![Color { r: 1, g: 2, b: 3, a: 4 }];
    let materials = vec![Material { roughness: Some(9), ..material(1) }];
    let p = convert_palette(&colors, &materials);
    assert_eq!(&p.albedo[0..4], &[1, 2, 3, 4]);
    // The material table feeds the property images: roughness is set
    // for the first table slot, the other properties stay absent.
    assert!(!p.properties.metallic && p.properties.roughness && !p.properties.emission);
    assert_eq!(p.roughness[0], 9);
    assert!(p.metallic.iter().all(|&b| b == 0));
}

#[test]
fn vector_and_face_vertex_constructors() {
    let v = Vec3::new(1, 2, 3);
    assert_eq!((v.x, v.y, v.z), (1, 2, 3));
    let fv = FaceVertex::new(4, 5, 6);
    assert_eq!((fv.v, fv.vt, fv.vn), (4, 5, 6));
}
