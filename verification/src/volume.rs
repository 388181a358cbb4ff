//! The padded dense voxel volume: a flat occupancy-and-material grid
//! with a one-cell empty border on every side, built from a sparse
//! voxel list.

use vstd::prelude::*;
use crate::math::Vec3;
use crate::model::SparseVoxel;

verus! {

/// Linear index of cell `(x, y, z)` in a volume with side lengths
/// `dx` and `dy` on the two fastest-varying axes.
pub open spec fn lin(dx: int, dy: int, x: int, y: int, z: int) -> int {
    (z * dy + y) * dx + x
}

pub proof fn lemma_lin_bounds(dx: int, dy: int, dz: int, x: int, y: int, z: int)
    requires
        0 <= x < dx,
        0 <= y < dy,
        0 <= z < dz,
    ensures
        0 <= z * dy + y < dy * dz,
        0 <= lin(dx, dy, x, y, z) < dx * dy * dz,
        z * dy + y <= lin(dx, dy, x, y, z),
        (z * dy + y) * dx <= lin(dx, dy, x, y, z),
        dx * dy <= dx * dy * dz,
{
    assert(0 <= z * dy + y < dy * dz) by (nonlinear_arith)
        requires
            0 <= y < dy,
            0 <= z < dz,
    ;
    assert(0 <= (z * dy + y) * dx + x < dx * dy * dz && z * dy + y <= (z * dy + y) * dx + x)
        by (nonlinear_arith)
        requires
            0 <= x < dx,
            0 <= z * dy + y < dy * dz,
    ;
    assert(dx * dy <= dx * dy * dz) by (nonlinear_arith)
        requires
            0 < dx,
            0 < dy,
            1 <= dz,
    ;
}

pub proof fn lemma_lin_injective(dx: int, dy: int, x1: int, y1: int, z1: int, x2: int, y2: int, z2: int)
    requires
        0 <= x1 < dx,
        0 <= y1 < dy,
        0 <= x2 < dx,
        0 <= y2 < dy,
        lin(dx, dy, x1, y1, z1) == lin(dx, dy, x2, y2, z2),
    ensures
        x1 == x2,
        y1 == y2,
        z1 == z2,
{
    let q1 = z1 * dy + y1;
    let q2 = z2 * dy + y2;
    assert(q1 == q2 && x1 == x2) by (nonlinear_arith)
        requires
            0 <= x1 < dx,
            0 <= x2 < dx,
            q1 * dx + x1 == q2 * dx + x2,
    ;
    assert(z1 == z2 && y1 == y2) by (nonlinear_arith)
        requires
            0 <= y1 < dy,
            0 <= y2 < dy,
            z1 * dy + y1 == z2 * dy + y2,
    ;
}

/// The material code a cell of the built volume holds: 0 while no
/// voxel maps to it, else `i + 1` for the last voxel written there.
/// A voxel at `(x, y, z)` in source coordinates occupies the volume
/// cell `(x + 1, z + 1, y + 1)`: the source's up axis (`z`) becomes
/// the volume's second axis, and the padding shifts every coordinate
/// by one.
pub open spec fn built_cell(voxels: Seq<SparseVoxel>, x: int, y: int, z: int) -> u16
    decreases voxels.len(),
{
    if voxels.len() == 0 {
        0
    } else {
        let v = voxels.last();
        if v.x + 1 == x && v.z + 1 == y && v.y + 1 == z {
            (v.i + 1) as u16
        } else {
            built_cell(voxels.drop_last(), x, y, z)
        }
    }
}

pub proof fn lemma_built_cell_bound(voxels: Seq<SparseVoxel>, x: int, y: int, z: int)
    ensures
        built_cell(voxels, x, y, z) <= 256,
    decreases voxels.len(),
{
    if voxels.len() > 0 {
        lemma_built_cell_bound(voxels.drop_last(), x, y, z);
    }
}

/// Cells never reached by a voxel (in particular the whole padding
/// border) stay empty.
pub proof fn lemma_built_cell_border(voxels: Seq<SparseVoxel>, size: Vec3, x: int, y: int, z: int)
    requires
        forall|k: int|
            0 <= k < voxels.len() ==> {
                &&& (#[trigger] voxels[k]).x < size.x
                &&& voxels[k].y < size.y
                &&& voxels[k].z < size.z
            },
        x < 1 || y < 1 || z < 1 || x > size.x || y > size.z || z > size.y,
    ensures
        built_cell(voxels, x, y, z) == 0,
    decreases voxels.len(),
{
    if voxels.len() > 0 {
        assert(voxels.drop_last() =~= voxels.subrange(0, voxels.len() - 1));
        lemma_built_cell_border(voxels.drop_last(), size, x, y, z);
    }
}

/// The padded dense volume. `cells` holds one material code per cell:
/// 0 for empty, `colorIndex + 1` (1..=256) for an occupied cell.
pub struct VoxelVolume {
    pub dx: usize,
    pub dy: usize,
    pub dz: usize,
    pub cells: Vec<u16>,
}

impl VoxelVolume {
    /// The material code of cell `(x, y, z)`.
    pub open spec fn cell(self, x: int, y: int, z: int) -> u16 {
        self.cells@[lin(self.dx as int, self.dy as int, x, y, z)]
    }

    pub open spec fn in_range(self, x: int, y: int, z: int) -> bool {
        0 <= x < self.dx && 0 <= y < self.dy && 0 <= z < self.dz
    }

    /// Cell `(x, y, z)` lies on the padding border.
    pub open spec fn on_border(self, x: int, y: int, z: int) -> bool {
        x == 0 || y == 0 || z == 0 || x == self.dx - 1 || y == self.dy - 1 || z == self.dz - 1
    }

    /// Shape, range and border invariants of a built volume.
    pub open spec fn wf(self) -> bool {
        &&& self.dx >= 2 && self.dy >= 2 && self.dz >= 2
        &&& self.cells@.len() == self.dx * self.dy * self.dz
        &&& forall|x: int, y: int, z: int|
            self.in_range(x, y, z) ==> #[trigger] self.cell(x, y, z) <= 256
        &&& forall|x: int, y: int, z: int|
            self.in_range(x, y, z) && self.on_border(x, y, z) ==> #[trigger] self.cell(x, y, z)
                == 0
    }

    /// Linear index of an in-range cell.
    pub fn index(&self, x: usize, y: usize, z: usize) -> (r: usize)
        requires
            self.wf(),
            self.in_range(x as int, y as int, z as int),
        ensures
            r == lin(self.dx as int, self.dy as int, x as int, y as int, z as int),
            r < self.cells@.len(),
    {
        let n = self.cells.len();
        proof {
            lemma_lin_bounds(
                self.dx as int,
                self.dy as int,
                self.dz as int,
                x as int,
                y as int,
                z as int,
            );
        }
        (z * self.dy + y) * self.dx + x
    }

    /// Read one cell.
    pub fn get(&self, x: usize, y: usize, z: usize) -> (r: u16)
        requires
            self.wf(),
            self.in_range(x as int, y as int, z as int),
        ensures
            r == self.cell(x as int, y as int, z as int),
    {
        let p = self.index(x, y, z);
        self.cells[p]
    }

    /// Build the padded volume for a model of the given bounding-box
    /// size: all cells empty, then one write per input voxel, in
    /// order, at the padded, axis-remapped position. A later voxel
    /// mapping to the same cell overwrites an earlier one.
    pub fn build(size: Vec3, voxels: &Vec<SparseVoxel>) -> (r: Self)
        requires
            forall|k: int|
                0 <= k < voxels@.len() ==> {
                    &&& (#[trigger] voxels@[k]).x < size.x
                    &&& voxels@[k].y < size.y
                    &&& voxels@[k].z < size.z
                },
            (size.x + 2) * (size.z + 2) * (size.y + 2) <= usize::MAX,
        ensures
            r.wf(),
            r.dx == size.x + 2,
            r.dy == size.z + 2,
            r.dz == size.y + 2,
            forall|x: int, y: int, z: int|
                r.in_range(x, y, z) ==> #[trigger] r.cell(x, y, z) == built_cell(
                    voxels@,
                    x,
                    y,
                    z,
                ),
    {
        proof {
            lemma_dims_factor_bound(
                size.x as int + 2,
                size.z as int + 2,
                size.y as int + 2,
                usize::MAX as int,
            );
        }
        let dx: usize = size.x as usize + 2;
        let dy: usize = size.z as usize + 2;
        let dz: usize = size.y as usize + 2;
        proof {
            lemma_lin_bounds(dx as int, dy as int, dz as int, 0, 0, dz as int - 1);
        }
        let n: usize = dx * dy * dz;

        let mut cells: Vec<u16> = Vec::new();
        while cells.len() < n
            invariant
                cells@.len() <= n,
                forall|p: int| 0 <= p < cells@.len() ==> cells@[p] == 0,
            decreases n - cells@.len(),
        {
            cells.push(0);
        }

        let mut vol = VoxelVolume { dx, dy, dz, cells };
        proof {
            assert forall|x: int, y: int, z: int| vol.in_range(x, y, z) implies #[trigger] vol.cell(
                x,
                y,
                z,
            ) == built_cell(voxels@.take(0), x, y, z) by {
                lemma_lin_bounds(dx as int, dy as int, dz as int, x, y, z);
            }
        }

        let mut k: usize = 0;
        while k < voxels.len()
            invariant
                k <= voxels@.len(),
                vol.dx == dx && vol.dy == dy && vol.dz == dz,
                vol.cells@.len() == n,
                n == dx * dy * dz,
                dx >= 2 && dy >= 2 && dz >= 2,
                dx == size.x + 2 && dy == size.z + 2 && dz == size.y + 2,
                forall|j: int|
                    0 <= j < voxels@.len() ==> {
                        &&& (#[trigger] voxels@[j]).x < size.x
                        &&& voxels@[j].y < size.y
                        &&& voxels@[j].z < size.z
                    },
                forall|x: int, y: int, z: int|
                    vol.in_range(x, y, z) ==> #[trigger] vol.cell(x, y, z) == built_cell(
                        voxels@.take(k as int),
                        x,
                        y,
                        z,
                    ),
            decreases voxels@.len() - k,
        {
            let v = voxels[k];
            let x: usize = v.x as usize + 1;
            let y: usize = v.z as usize + 1;
            let z: usize = v.y as usize + 1;
            let p = vol.index_for_build(x, y, z);
            let ghost vol0 = vol;
            vol.cells.set(p, v.i as u16 + 1);
            proof {
                let tk = voxels@.take(k + 1);
                assert(tk.last() == voxels@[k as int]);
                assert(tk.drop_last() =~= voxels@.take(k as int));
                assert forall|xx: int, yy: int, zz: int| vol.in_range(xx, yy, zz)
                    implies #[trigger] vol.cell(xx, yy, zz) == built_cell(tk, xx, yy, zz) by {
                    lemma_lin_bounds(dx as int, dy as int, dz as int, xx, yy, zz);
                    assert(vol0.cell(xx, yy, zz) == built_cell(
                        voxels@.take(k as int),
                        xx,
                        yy,
                        zz,
                    ));
                    if lin(dx as int, dy as int, xx, yy, zz) == p {
                        lemma_lin_injective(
                            dx as int,
                            dy as int,
                            x as int,
                            y as int,
                            z as int,
                            xx,
                            yy,
                            zz,
                        );
                    }
                }
            }
            k += 1;
        }

        proof {
            assert(voxels@.take(voxels@.len() as int) =~= voxels@);
            assert forall|x: int, y: int, z: int| vol.in_range(x, y, z) implies #[trigger] vol.cell(
                x,
                y,
                z,
            ) <= 256 by {
                lemma_built_cell_bound(voxels@, x, y, z);
            }
            assert forall|x: int, y: int, z: int|
                vol.in_range(x, y, z) && vol.on_border(x, y, z) implies #[trigger] vol.cell(
                x,
                y,
                z,
            ) == 0 by {
                lemma_built_cell_border(voxels@, size, x, y, z);
            }
        }
        vol
    }

    /// `index` without the border part of `wf`, for use while the
    /// volume is still being filled.
    fn index_for_build(&self, x: usize, y: usize, z: usize) -> (r: usize)
        requires
            self.cells@.len() == self.dx * self.dy * self.dz,
            self.in_range(x as int, y as int, z as int),
        ensures
            r == lin(self.dx as int, self.dy as int, x as int, y as int, z as int),
            r < self.cells@.len(),
    {
        let n = self.cells.len();
        proof {
            lemma_lin_bounds(
                self.dx as int,
                self.dy as int,
                self.dz as int,
                x as int,
                y as int,
                z as int,
            );
        }
        (z * self.dy + y) * self.dx + x
    }
}

/// Each padded side length, and the product of the first two, are
/// bounded by the bound on the product of all three.
proof fn lemma_dims_factor_bound(a: int, b: int, c: int, m: int)
    requires
        2 <= a,
        2 <= b,
        2 <= c,
        a * b * c <= m,
    ensures
        a <= m,
        b <= m,
        c <= m,
        a * b <= m,
{
    assert(a <= m && b <= m && c <= m && a * b <= m) by (nonlinear_arith)
        requires
            2 <= a,
            2 <= b,
            2 <= c,
            a * b * c <= m,
    ;
}

} // verus!
