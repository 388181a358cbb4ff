//! The palette lookup images: a 256-by-1 RGBA albedo image built from
//! the color table, and up to three 256-by-1 grayscale images for
//! material properties, present only when some material defines the
//! property.

use vstd::prelude::*;
use crate::model::Color;
use crate::model::Material;

verus! {

/// Which optional property images the material table filled.
#[derive(Clone, Copy, Debug, PartialEq, Eq, Structural)]
pub struct Property {
    pub metallic: bool,
    pub roughness: bool,
    pub emission: bool,
}

/// The value of the metalness texel for table slot `slot`: the last
/// material entry that addresses the slot and defines the property
/// wins; 0 where none does.
pub open spec fn metal_at(ms: Seq<Material>, slot: int) -> u8
    decreases ms.len(),
{
    if ms.len() == 0 {
        0
    } else if ms.last().metalness is Some && ms.last().id - 1 == slot {
        ms.last().metalness->0
    } else {
        metal_at(ms.drop_last(), slot)
    }
}

pub open spec fn rough_at(ms: Seq<Material>, slot: int) -> u8
    decreases ms.len(),
{
    if ms.len() == 0 {
        0
    } else if ms.last().roughness is Some && ms.last().id - 1 == slot {
        ms.last().roughness->0
    } else {
        rough_at(ms.drop_last(), slot)
    }
}

pub open spec fn emit_at(ms: Seq<Material>, slot: int) -> u8
    decreases ms.len(),
{
    if ms.len() == 0 {
        0
    } else if ms.last().emission is Some && ms.last().id - 1 == slot {
        ms.last().emission->0
    } else {
        emit_at(ms.drop_last(), slot)
    }
}

pub open spec fn has_metal(ms: Seq<Material>) -> bool {
    exists|k: int| 0 <= k < ms.len() && (#[trigger] ms[k]).metalness is Some
}

pub open spec fn has_rough(ms: Seq<Material>) -> bool {
    exists|k: int| 0 <= k < ms.len() && (#[trigger] ms[k]).roughness is Some
}

pub open spec fn has_emit(ms: Seq<Material>) -> bool {
    exists|k: int| 0 <= k < ms.len() && (#[trigger] ms[k]).emission is Some
}

/// Each material entry that defines a property addresses a real table
/// slot (ids are 1-based).
pub open spec fn materials_wf(ms: Seq<Material>) -> bool {
    forall|k: int|
        0 <= k < ms.len() && ((#[trigger] ms[k]).metalness is Some || ms[k].roughness is Some
            || ms[k].emission is Some) ==> 1 <= ms[k].id <= 256
}

/// Byte at channel `c` of texel `slot` in an image whose texels hold
/// `stride` bytes.
pub open spec fn texel(s: Seq<u8>, stride: int, slot: int, c: int) -> u8 {
    s[stride * slot + c]
}

/// The albedo byte expected at channel `c` of texel `slot`.
pub open spec fn albedo_at(colors: Seq<Color>, slot: int, c: int) -> u8 {
    if 0 <= slot < colors.len() {
        if c == 0 {
            colors[slot].r
        } else if c == 1 {
            colors[slot].g
        } else if c == 2 {
            colors[slot].b
        } else {
            colors[slot].a
        }
    } else {
        0
    }
}

/// The palette images: `albedo` is 256 RGBA texels, the property
/// images 256 RGB texels each (all three channels of a texel carry
/// the same scalar). A property image is meaningful only when its
/// flag in `properties` is set.
pub struct Palette {
    pub albedo: Vec<u8>,
    pub properties: Property,
    pub metallic: Vec<u8>,
    pub roughness: Vec<u8>,
    pub emission: Vec<u8>,
}

impl Palette {
    /// Everything `new` guarantees about a palette built from the
    /// given tables.
    pub open spec fn built_from(self, colors: Seq<Color>, ms: Seq<Material>) -> bool {
        &&& self.albedo@.len() == 1024
        &&& self.metallic@.len() == 768
        &&& self.roughness@.len() == 768
        &&& self.emission@.len() == 768
        &&& forall|slot: int, c: int|
            0 <= slot < 256 && 0 <= c < 4 ==> #[trigger] texel(self.albedo@, 4, slot, c) == albedo_at(
                colors,
                slot,
                c,
            )
        &&& self.properties.metallic == has_metal(ms)
        &&& self.properties.roughness == has_rough(ms)
        &&& self.properties.emission == has_emit(ms)
        &&& forall|slot: int, c: int|
            0 <= slot < 256 && 0 <= c < 3 ==> #[trigger] texel(self.metallic@, 3, slot, c) == metal_at(ms, slot)
        &&& forall|slot: int, c: int|
            0 <= slot < 256 && 0 <= c < 3 ==> #[trigger] texel(self.roughness@, 3, slot, c) == rough_at(ms, slot)
        &&& forall|slot: int, c: int|
            0 <= slot < 256 && 0 <= c < 3 ==> #[trigger] texel(self.emission@, 3, slot, c) == emit_at(ms, slot)
    }

    /// Build the palette images: one albedo texel per color-table
    /// entry in table order, and one grayscale texel per material
    /// entry that defines the matching property, at the slot its
    /// 1-based id addresses. A later entry for the same slot
    /// overwrites an earlier one.
    #[verifier::loop_isolation(false)]
    pub fn new(colors: &Vec<Color>, materials: &Vec<Material>) -> (r: Palette)
        requires
            colors@.len() <= 256,
            materials_wf(materials@),
        ensures
            r.built_from(colors@, materials@),
    {
        let mut albedo: Vec<u8> = Vec::new();
        let mut i: usize = 0;
        while i < 256
            invariant
                i <= 256,
                albedo@.len() == 4 * i,
                forall|slot: int, c: int|
                    0 <= slot < i && 0 <= c < 4 ==> #[trigger] texel(albedo@, 4, slot, c)
                        == albedo_at(colors@, slot, c),
            decreases 256 - i,
        {
            let ghost a0 = albedo@;
            if i < colors.len() {
                let col = colors[i];
                albedo.push(col.r);
                albedo.push(col.g);
                albedo.push(col.b);
                albedo.push(col.a);
            } else {
                albedo.push(0);
                albedo.push(0);
                albedo.push(0);
                albedo.push(0);
            }
            proof {
                assert forall|slot: int, c: int| 0 <= slot < i + 1 && 0 <= c < 4 implies #[trigger]
                    texel(albedo@, 4, slot, c) == albedo_at(colors@, slot, c) by {
                    assert(0 <= 4 * slot + c && 4 * slot + c < 4 * (i as int) + 4)
                        by (nonlinear_arith)
                        requires
                            0 <= slot < i + 1,
                            0 <= c < 4,
                    ;
                    if slot < i {
                        assert(4 * slot + c < 4 * (i as int)) by (nonlinear_arith)
                            requires
                                0 <= slot < i,
                                0 <= c < 4,
                        ;
                        assert(texel(a0, 4, slot, c) == albedo_at(colors@, slot, c));
                        assert(albedo@[4 * slot + c] == a0[4 * slot + c]);
                    } else {
                        assert(slot == i);
                        assert(albedo@[4 * (i as int)] == albedo_at(colors@, i as int, 0));
                        assert(albedo@[4 * (i as int) + 1] == albedo_at(colors@, i as int, 1));
                        assert(albedo@[4 * (i as int) + 2] == albedo_at(colors@, i as int, 2));
                        assert(albedo@[4 * (i as int) + 3] == albedo_at(colors@, i as int, 3));
                    }
                }
            }
            i += 1;
        }
        let mut metallic: Vec<u8> = Vec::new();
        let mut roughness: Vec<u8> = Vec::new();
        let mut emission: Vec<u8> = Vec::new();
        let mut i: usize = 0;
        while i < 768
            invariant
                i <= 768,
                metallic@.len() == i,
                roughness@.len() == i,
                emission@.len() == i,
                forall|p: int| 0 <= p < i ==> metallic@[p] == 0,
                forall|p: int| 0 <= p < i ==> roughness@[p] == 0,
                forall|p: int| 0 <= p < i ==> emission@[p] == 0,
            decreases 768 - i,
        {
            metallic.push(0);
            roughness.push(0);
            emission.push(0);
            i += 1;
        }
        let mut properties = Property { metallic: false, roughness: false, emission: false };
        proof {
            assert forall|slot: int, c: int| 0 <= slot < 256 && 0 <= c < 3 implies #[trigger] texel(
                metallic@,
                3,
                slot,
                c,
            ) == metal_at(materials@.take(0), slot) && texel(roughness@, 3, slot, c) == rough_at(
                materials@.take(0),
                slot,
            ) && texel(emission@, 3, slot, c) == emit_at(materials@.take(0), slot) by {
                assert(0 <= 3 * slot + c < 768) by (nonlinear_arith)
                    requires
                        0 <= slot < 256,
                        0 <= c < 3,
                ;
            }
        }
        let mut k: usize = 0;
        while k < materials.len()
            invariant
                k <= materials@.len(),
                metallic@.len() == 768,
                roughness@.len() == 768,
                emission@.len() == 768,
                properties.metallic == has_metal(materials@.take(k as int)),
                properties.roughness == has_rough(materials@.take(k as int)),
                properties.emission == has_emit(materials@.take(k as int)),
                forall|slot: int, c: int|
                    0 <= slot < 256 && 0 <= c < 3 ==> #[trigger] texel(metallic@, 3, slot, c)
                        == metal_at(materials@.take(k as int), slot),
                forall|slot: int, c: int|
                    0 <= slot < 256 && 0 <= c < 3 ==> #[trigger] texel(roughness@, 3, slot, c)
                        == rough_at(materials@.take(k as int), slot),
                forall|slot: int, c: int|
                    0 <= slot < 256 && 0 <= c < 3 ==> #[trigger] texel(emission@, 3, slot, c)
                        == emit_at(materials@.take(k as int), slot),
            decreases materials@.len() - k,
        {
            let m = materials[k];
            proof {
                assert(materials@.take(k + 1).drop_last() =~= materials@.take(k as int));
                assert(materials@.take(k + 1).last() == materials@[k as int]);
            }
            let ghost prev = materials@.take(k as int);
            match m.metalness {
                Option::Some(value) => {
                    properties.metallic = true;
                    let slot = (m.id - 1) as usize;
                    let ghost met0 = metallic@;
                    metallic.set(3 * slot, value);
                    metallic.set(3 * slot + 1, value);
                    metallic.set(3 * slot + 2, value);
                    proof {
                        assert(has_metal(materials@.take(k + 1))) by {
                            assert(materials@.take(k + 1)[k as int].metalness is Some);
                        }
                        assert forall|s2: int, c: int| 0 <= s2 < 256 && 0 <= c < 3 implies
                            #[trigger] texel(metallic@, 3, s2, c) == metal_at(materials@.take(k + 1), s2) by {
                            assert(0 <= 3 * s2 + c < 768) by (nonlinear_arith)
                                requires
                                    0 <= s2 < 256,
                                    0 <= c < 3,
                            ;
                            if s2 != m.id - 1 {
                                assert(texel(metallic@, 3, s2, c) == texel(met0, 3, s2, c));
                                assert(metal_at(materials@.take(k + 1), s2) == metal_at(prev, s2));
                            }
                        }
                    }
                },
                Option::None => {
                    proof {
                        assert(has_metal(materials@.take(k + 1)) == has_metal(prev)) by {
                            if has_metal(prev) {
                                let j = choose|j: int|
                                    0 <= j < prev.len() && (#[trigger] prev[j]).metalness is Some;
                                assert(materials@.take(k + 1)[j].metalness is Some);
                            }
                            if has_metal(materials@.take(k + 1)) {
                                let j = choose|j: int|
                                    0 <= j < materials@.take(k + 1).len() && (#[trigger] materials@.take(
                                        k + 1,
                                    )[j]).metalness is Some;
                                assert(j < prev.len());
                                assert(prev[j].metalness is Some);
                            }
                        }
                        assert forall|s2: int, c: int| 0 <= s2 < 256 && 0 <= c < 3 implies
                            #[trigger] texel(metallic@, 3, s2, c) == metal_at(materials@.take(k + 1), s2) by {
                            assert(0 <= 3 * s2 + c < 768) by (nonlinear_arith)
                                requires
                                    0 <= s2 < 256,
                                    0 <= c < 3,
                            ;
                            assert(metal_at(materials@.take(k + 1), s2) == metal_at(prev, s2));
                        }
                    }
                },
            }
            match m.roughness {
                Option::Some(value) => {
                    properties.roughness = true;
                    let slot = (m.id - 1) as usize;
                    let ghost rg0 = roughness@;
                    roughness.set(3 * slot, value);
                    roughness.set(3 * slot + 1, value);
                    roughness.set(3 * slot + 2, value);
                    proof {
                        assert(has_rough(materials@.take(k + 1))) by {
                            assert(materials@.take(k + 1)[k as int].roughness is Some);
                        }
                        assert forall|s2: int, c: int| 0 <= s2 < 256 && 0 <= c < 3 implies
                            #[trigger] texel(roughness@, 3, s2, c) == rough_at(materials@.take(k + 1), s2) by {
                            assert(0 <= 3 * s2 + c < 768) by (nonlinear_arith)
                                requires
                                    0 <= s2 < 256,
                                    0 <= c < 3,
                            ;
                            if s2 != m.id - 1 {
                                assert(texel(roughness@, 3, s2, c) == texel(rg0, 3, s2, c));
                                assert(rough_at(materials@.take(k + 1), s2) == rough_at(prev, s2));
                            }
                        }
                    }
                },
                Option::None => {
                    proof {
                        assert(has_rough(materials@.take(k + 1)) == has_rough(prev)) by {
                            if has_rough(prev) {
                                let j = choose|j: int|
                                    0 <= j < prev.len() && (#[trigger] prev[j]).roughness is Some;
                                assert(materials@.take(k + 1)[j].roughness is Some);
                            }
                            if has_rough(materials@.take(k + 1)) {
                                let j = choose|j: int|
                                    0 <= j < materials@.take(k + 1).len() && (#[trigger] materials@.take(
                                        k + 1,
                                    )[j]).roughness is Some;
                                assert(j < prev.len());
                                assert(prev[j].roughness is Some);
                            }
                        }
                        assert forall|s2: int, c: int| 0 <= s2 < 256 && 0 <= c < 3 implies
                            #[trigger] texel(roughness@, 3, s2, c) == rough_at(materials@.take(k + 1), s2) by {
                            assert(0 <= 3 * s2 + c < 768) by (nonlinear_arith)
                                requires
                                    0 <= s2 < 256,
                                    0 <= c < 3,
                            ;
                            assert(rough_at(materials@.take(k + 1), s2) == rough_at(prev, s2));
                        }
                    }
                },
            }
            match m.emission {
                Option::Some(value) => {
                    properties.emission = true;
                    let slot = (m.id - 1) as usize;
                    let ghost em0 = emission@;
                    emission.set(3 * slot, value);
                    emission.set(3 * slot + 1, value);
                    emission.set(3 * slot + 2, value);
                    proof {
                        assert(has_emit(materials@.take(k + 1))) by {
                            assert(materials@.take(k + 1)[k as int].emission is Some);
                        }
                        assert forall|s2: int, c: int| 0 <= s2 < 256 && 0 <= c < 3 implies
                            #[trigger] texel(emission@, 3, s2, c) == emit_at(materials@.take(k + 1), s2) by {
                            assert(0 <= 3 * s2 + c < 768) by (nonlinear_arith)
                                requires
                                    0 <= s2 < 256,
                                    0 <= c < 3,
                            ;
                            if s2 != m.id - 1 {
                                assert(texel(emission@, 3, s2, c) == texel(em0, 3, s2, c));
                                assert(emit_at(materials@.take(k + 1), s2) == emit_at(prev, s2));
                            }
                        }
                    }
                },
                Option::None => {
                    proof {
                        assert(has_emit(materials@.take(k + 1)) == has_emit(prev)) by {
                            if has_emit(prev) {
                                let j = choose|j: int|
                                    0 <= j < prev.len() && (#[trigger] prev[j]).emission is Some;
                                assert(materials@.take(k + 1)[j].emission is Some);
                            }
                            if has_emit(materials@.take(k + 1)) {
                                let j = choose|j: int|
                                    0 <= j < materials@.take(k + 1).len() && (#[trigger] materials@.take(
                                        k + 1,
                                    )[j]).emission is Some;
                                assert(j < prev.len());
                                assert(prev[j].emission is Some);
                            }
                        }
                        assert forall|s2: int, c: int| 0 <= s2 < 256 && 0 <= c < 3 implies
                            #[trigger] texel(emission@, 3, s2, c) == emit_at(materials@.take(k + 1), s2) by {
                            assert(0 <= 3 * s2 + c < 768) by (nonlinear_arith)
                                requires
                                    0 <= s2 < 256,
                                    0 <= c < 3,
                            ;
                            assert(emit_at(materials@.take(k + 1), s2) == emit_at(prev, s2));
                        }
                    }
                },
            }
            k += 1;
        }
        proof {
            assert(materials@.take(materials@.len() as int) =~= materials@);
        }
        Palette { albedo, properties, metallic, roughness, emission }
    }
}

} // verus!
