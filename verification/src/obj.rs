//! The deduplicated mesh: positions, per-material texture coordinates
//! and normals are interned into append-only tables (a value already
//! seen is never assigned a second index), and each pushed quad adds
//! two triangles of 1-based indices into those tables.

use vstd::prelude::*;
use crate::math::IVec3;
use crate::math::Vec3;

verus! {

broadcast use vstd::array::lemma_array_index;

/// One merged quad ready for mesh assembly: four corner positions, a
/// fixed triangulation (six corner indices forming two triangles), the
/// 0-based material index, and the outward unit normal.
#[derive(Clone, Copy, Debug)]
pub struct Quad {
    pub vertices: [Vec3; 4],
    pub indices: [u32; 6],
    pub palette_index: u8,
    pub normal: IVec3,
}

/// The `k`-th triangle corner a quad contributes, following its
/// triangulation order.
pub open spec fn quad_corner(quad: Quad, k: int) -> Vec3 {
    quad.vertices@[quad.indices@[k] as int]
}

/// The two triangles of one pushed quad: six position indices, one
/// texture-coordinate index and one normal index, all 1-based.
#[derive(Clone, Copy, Debug)]
pub struct QuadIndices {
    pub v: [usize; 6],
    pub vt: usize,
    pub vn: usize,
}

/// Interning: the table unchanged if it already holds the value, else
/// the value appended.
pub open spec fn intern_one<T>(s: Seq<T>, x: T) -> Seq<T> {
    if s.contains(x) {
        s
    } else {
        s.push(x)
    }
}

/// The position table after interning the first `n` triangle corners
/// of a quad.
pub open spec fn intern_corners(s: Seq<Vec3>, quad: Quad, n: int) -> Seq<Vec3>
    decreases n,
{
    if n <= 0 {
        s
    } else {
        intern_one(intern_corners(s, quad, n - 1), quad_corner(quad, n - 1))
    }
}

/// The mathematical content of a mesh: its three value tables and its
/// triangle list.
pub struct MeshView {
    pub v: Seq<Vec3>,
    pub vt: Seq<u8>,
    pub vn: Seq<IVec3>,
    pub q: Seq<QuadIndices>,
}

impl MeshView {
    pub open spec fn empty() -> MeshView {
        MeshView { v: Seq::empty(), vt: Seq::empty(), vn: Seq::empty(), q: Seq::empty() }
    }

    /// The dedup invariant: no two distinct indices of a table map to
    /// equal values, and every face index is in `1 ..= tableSize`.
    pub open spec fn wf(self) -> bool {
        &&& distinct_seq(self.v)
        &&& distinct_seq(self.vt)
        &&& distinct_seq(self.vn)
        &&& q_in_range(self.q, self.v.len() as int, self.vt.len() as int, self.vn.len() as int)
    }
}

/// No value appears at two distinct positions.
pub open spec fn distinct_seq<T>(s: Seq<T>) -> bool {
    forall|i: int, j: int| 0 <= i < j < s.len() ==> s[i] != s[j]
}

/// Every index of every face record is 1-based and within its table.
pub open spec fn q_in_range(q: Seq<QuadIndices>, nv: int, nvt: int, nvn: int) -> bool {
    &&& forall|f: int, k: int|
        0 <= f < q.len() && 0 <= k < 6 ==> 1 <= (#[trigger] q[f].v[k]) <= nv
    &&& forall|f: int|
        0 <= f < q.len() ==> 1 <= (#[trigger] q[f]).vt <= nvt && 1 <= q[f].vn <= nvn
}

/// Appending a fresh value keeps a table duplicate-free.
pub proof fn lemma_distinct_push<T>(s: Seq<T>, x: T)
    requires
        distinct_seq(s),
        forall|i: int| 0 <= i < s.len() ==> s[i] != x,
    ensures
        distinct_seq(s.push(x)),
{
    assert forall|i: int, j: int| 0 <= i < j < s.push(x).len() implies s.push(x)[i] != s.push(
        x,
    )[j] by {
        if j < s.len() {
            assert(s.push(x)[i] == s[i] && s.push(x)[j] == s[j]);
            assert(s[i] != s[j]);
        } else {
            assert(s.push(x)[j] == x);
            assert(s.push(x)[i] == s[i]);
            assert(s[i] != x);
        }
    }
}

/// Face indices stay in range when the tables only grow.
pub proof fn lemma_q_in_range_widen(
    q: Seq<QuadIndices>,
    nv: int,
    nvt: int,
    nvn: int,
    nv2: int,
    nvt2: int,
    nvn2: int,
)
    requires
        q_in_range(q, nv, nvt, nvn),
        nv <= nv2,
        nvt <= nvt2,
        nvn <= nvn2,
    ensures
        q_in_range(q, nv2, nvt2, nvn2),
{
    assert forall|f: int, k: int| 0 <= f < q.len() && 0 <= k < 6 implies 1 <= (#[trigger] q[f].v[
        k]) <= nv2 by {
        assert(1 <= q[f].v[k] <= nv);
    }
    assert forall|f: int| 0 <= f < q.len() implies 1 <= (#[trigger] q[f]).vt <= nvt2 && 1 <= q[
        f].vn <= nvn2 by {
        assert(1 <= q[f].vt <= nvt && 1 <= q[f].vn <= nvn);
    }
}

/// How one `push_quad` call relates the mesh before to the mesh
/// after: corners, material and normal are interned in order, and one
/// index record referencing them is appended.
pub open spec fn push_quad_rel(m0: MeshView, quad: Quad, m1: MeshView) -> bool {
    &&& m1.v == intern_corners(m0.v, quad, 6)
    &&& m1.vt == intern_one(m0.vt, quad.palette_index)
    &&& m1.vn == intern_one(m0.vn, quad.normal)
    &&& m1.q.len() == m0.q.len() + 1
    &&& m1.q.take(m0.q.len() as int) == m0.q
    &&& forall|k: int|
        0 <= k < 6 ==> 1 <= (#[trigger] m1.q.last().v[k]) <= m1.v.len() && m1.v[m1.q.last().v[k]
            - 1] == quad_corner(quad, k)
    &&& 1 <= m1.q.last().vt <= m1.vt.len() && m1.vt[m1.q.last().vt - 1] == quad.palette_index
    &&& 1 <= m1.q.last().vn <= m1.vn.len() && m1.vn[m1.q.last().vn - 1] == quad.normal
}

/// The deduplicated mesh under assembly. `size_x` and `size_y` are
/// the model's source bounding-box extents used for the XZ centering
/// offset at serialization time.
#[derive(Debug)]
pub struct Obj {
    pub size_x: u32,
    pub size_y: u32,
    pub v: Vec<Vec3>,
    pub vt: Vec<u8>,
    pub vn: Vec<IVec3>,
    pub q: Vec<QuadIndices>,
}

impl Obj {
    pub open spec fn mesh(self) -> MeshView {
        MeshView { v: self.v@, vt: self.vt@, vn: self.vn@, q: self.q@ }
    }

    pub open spec fn wf(self) -> bool {
        self.mesh().wf()
    }

    /// An empty mesh for a model with the given source bounding-box
    /// extents.
    pub fn empty(size_x: u32, size_y: u32) -> (r: Obj)
        ensures
            r.mesh() == MeshView::empty(),
            r.wf(),
            r.size_x == size_x,
            r.size_y == size_y,
    {
        let r = Obj { size_x, size_y, v: Vec::new(), vt: Vec::new(), vn: Vec::new(), q: Vec::new() };
        proof {
            assert(r.mesh().v =~= MeshView::empty().v);
            assert(r.mesh().vt =~= MeshView::empty().vt);
            assert(r.mesh().vn =~= MeshView::empty().vn);
            assert(r.mesh().q =~= MeshView::empty().q);
        }
        r
    }

    /// Look up a position, appending it if new; returns its 1-based
    /// index.
    #[verifier::loop_isolation(false)]
    fn v_idx(&mut self, x: Vec3) -> (r: usize)
        requires
            old(self).wf(),
        ensures
            final(self).wf(),
            final(self).v@ == intern_one(old(self).v@, x),
            1 <= r <= final(self).v@.len(),
            final(self).v@[r - 1] == x,
            final(self).vt@ == old(self).vt@,
            final(self).vn@ == old(self).vn@,
            final(self).q@ == old(self).q@,
            final(self).size_x == old(self).size_x,
            final(self).size_y == old(self).size_y,
    {
        let mut i: usize = 0;
        while i < self.v.len()
            invariant
                i <= self.v@.len(),
                forall|j: int| 0 <= j < i ==> self.v@[j] != x,
            decreases self.v@.len() - i,
        {
            let c = self.v[i];
            if c.x == x.x && c.y == x.y && c.z == x.z {
                proof {
                    assert(self.v@[i as int] == x);
                    assert(self.v@.contains(x));
                }
                return i + 1;
            }
            i += 1;
        }
        proof {
            assert(!self.v@.contains(x)) by {
                if self.v@.contains(x) {
                    let j = choose|j: int| 0 <= j < self.v@.len() && self.v@[j] == x;
                }
            }
            lemma_distinct_push(self.v@, x);
            lemma_q_in_range_widen(
                self.q@,
                self.v@.len() as int,
                self.vt@.len() as int,
                self.vn@.len() as int,
                self.v@.len() as int + 1,
                self.vt@.len() as int,
                self.vn@.len() as int,
            );
        }
        self.v.push(x);
        self.v.len()
    }

    /// Look up a material index, appending it if new; returns its
    /// 1-based index.
    #[verifier::loop_isolation(false)]
    fn vt_idx(&mut self, x: u8) -> (r: usize)
        requires
            old(self).wf(),
        ensures
            final(self).wf(),
            final(self).vt@ == intern_one(old(self).vt@, x),
            1 <= r <= final(self).vt@.len(),
            final(self).vt@[r - 1] == x,
            final(self).v@ == old(self).v@,
            final(self).vn@ == old(self).vn@,
            final(self).q@ == old(self).q@,
            final(self).size_x == old(self).size_x,
            final(self).size_y == old(self).size_y,
    {
        let mut i: usize = 0;
        while i < self.vt.len()
            invariant
                i <= self.vt@.len(),
                forall|j: int| 0 <= j < i ==> self.vt@[j] != x,
            decreases self.vt@.len() - i,
        {
            if self.vt[i] == x {
                proof {
                    assert(self.vt@[i as int] == x);
                    assert(self.vt@.contains(x));
                }
                return i + 1;
            }
            i += 1;
        }
        proof {
            assert(!self.vt@.contains(x)) by {
                if self.vt@.contains(x) {
                    let j = choose|j: int| 0 <= j < self.vt@.len() && self.vt@[j] == x;
                }
            }
            lemma_distinct_push(self.vt@, x);
            lemma_q_in_range_widen(
                self.q@,
                self.v@.len() as int,
                self.vt@.len() as int,
                self.vn@.len() as int,
                self.v@.len() as int,
                self.vt@.len() as int + 1,
                self.vn@.len() as int,
            );
        }
        self.vt.push(x);
        self.vt.len()
    }

    /// Look up a normal, appending it if new; returns its 1-based
    /// index.
    #[verifier::loop_isolation(false)]
    fn vn_idx(&mut self, x: IVec3) -> (r: usize)
        requires
            old(self).wf(),
        ensures
            final(self).wf(),
            final(self).vn@ == intern_one(old(self).vn@, x),
            1 <= r <= final(self).vn@.len(),
            final(self).vn@[r - 1] == x,
            final(self).v@ == old(self).v@,
            final(self).vt@ == old(self).vt@,
            final(self).q@ == old(self).q@,
            final(self).size_x == old(self).size_x,
            final(self).size_y == old(self).size_y,
    {
        let mut i: usize = 0;
        while i < self.vn.len()
            invariant
                i <= self.vn@.len(),
                forall|j: int| 0 <= j < i ==> self.vn@[j] != x,
            decreases self.vn@.len() - i,
        {
            let c = self.vn[i];
            if c.x == x.x && c.y == x.y && c.z == x.z {
                proof {
                    assert(self.vn@[i as int] == x);
                    assert(self.vn@.contains(x));
                }
                return i + 1;
            }
            i += 1;
        }
        proof {
            assert(!self.vn@.contains(x)) by {
                if self.vn@.contains(x) {
                    let j = choose|j: int| 0 <= j < self.vn@.len() && self.vn@[j] == x;
                }
            }
            lemma_distinct_push(self.vn@, x);
            lemma_q_in_range_widen(
                self.q@,
                self.v@.len() as int,
                self.vt@.len() as int,
                self.vn@.len() as int,
                self.v@.len() as int,
                self.vt@.len() as int,
                self.vn@.len() as int + 1,
            );
        }
        self.vn.push(x);
        self.vn.len()
    }

    /// Append a quad's two triangles, interning shared positions,
    /// material and normal.
    pub fn push_quad(&mut self, quad: Quad)
        requires
            old(self).wf(),
            forall|k: int| 0 <= k < 6 ==> (#[trigger] quad.indices[k]) < 4,
        ensures
            final(self).wf(),
            push_quad_rel(old(self).mesh(), quad, final(self).mesh()),
            final(self).size_x == old(self).size_x,
            final(self).size_y == old(self).size_y,
    {
        let ghost m0 = self.mesh();
        let c0 = quad.vertices[quad.indices[0] as usize];
        proof {
            assert(c0 == quad.vertices@[quad.indices@[0] as int]);
            assert(c0 == quad_corner(quad, 0));
        }
        let i0 = self.v_idx(c0);
        proof {
            assert(intern_corners(m0.v, quad, 0) == m0.v);
            assert(self.v@ == intern_one(m0.v, quad_corner(quad, 0)));
            assert(self.v@ == intern_corners(m0.v, quad, 1));
        }
        let i1 = self.v_idx(quad.vertices[quad.indices[1] as usize]);
        proof {
            assert(self.v@ == intern_corners(m0.v, quad, 2));
        }
        let i2 = self.v_idx(quad.vertices[quad.indices[2] as usize]);
        proof {
            assert(self.v@ == intern_corners(m0.v, quad, 3));
        }
        let i3 = self.v_idx(quad.vertices[quad.indices[3] as usize]);
        proof {
            assert(self.v@ == intern_corners(m0.v, quad, 4));
        }
        let i4 = self.v_idx(quad.vertices[quad.indices[4] as usize]);
        proof {
            assert(self.v@ == intern_corners(m0.v, quad, 5));
        }
        let i5 = self.v_idx(quad.vertices[quad.indices[5] as usize]);
        proof {
            assert(self.v@ == intern_corners(m0.v, quad, 6));
        }
        let vt = self.vt_idx(quad.palette_index);
        let vn = self.vn_idx(quad.normal);
        let qi = QuadIndices { v: [i0, i1, i2, i3, i4, i5], vt, vn };
        let ghost q0 = self.q@;
        self.q.push(qi);
        proof {
            assert(self.q@.take(q0.len() as int) =~= q0);
            assert(self.q@.last() == qi);
            assert forall|k: int| 0 <= k < 6 implies 1 <= (#[trigger] self.q@.last().v[k])
                <= self.v@.len() && self.v@[self.q@.last().v[k] - 1] == quad_corner(quad, k) by {
                lemma_intern_prefix_stable(m0.v, quad);
                if k == 0 {
                    assert(qi.v[0] == i0);
                } else if k == 1 {
                    assert(qi.v[1] == i1);
                } else if k == 2 {
                    assert(qi.v[2] == i2);
                } else if k == 3 {
                    assert(qi.v[3] == i3);
                } else if k == 4 {
                    assert(qi.v[4] == i4);
                } else {
                    assert(qi.v[5] == i5);
                }
            }
            assert forall|f: int, k: int| 0 <= f < self.q@.len() && 0 <= k < 6 implies 1 <= (
            #[trigger] self.q@[f].v[k]) <= self.v@.len() by {
                if f < q0.len() {
                    assert(self.q@[f] == q0[f]);
                    lemma_intern_prefix_stable(m0.v, quad);
                }
            }
            assert forall|f: int| 0 <= f < self.q@.len() implies 1 <= (#[trigger] self.q@[f]).vt
                <= self.vt@.len() && 1 <= self.q@[f].vn <= self.vn@.len() by {
                if f < q0.len() {
                    assert(self.q@[f] == q0[f]);
                }
            }
        }
    }
}

/// Interning grows a table monotonically: old entries keep their
/// places, and the length never shrinks.
proof fn lemma_intern_prefix_stable(s: Seq<Vec3>, quad: Quad)
    ensures
        forall|n: int|
            0 <= n <= 6 ==> s.len() <= (#[trigger] intern_corners(s, quad, n)).len() && forall|
                j: int,
            |
                0 <= j < s.len() ==> intern_corners(s, quad, n)[j] == s[j],
        forall|n: int, n2: int|
            0 <= n <= n2 <= 6 ==> (#[trigger] intern_corners(s, quad, n)).len() <= (
            #[trigger] intern_corners(s, quad, n2)).len() && forall|j: int|
                0 <= j < intern_corners(s, quad, n).len() ==> intern_corners(s, quad, n2)[j]
                    == intern_corners(s, quad, n)[j],
{
    assert forall|n: int, n2: int| 0 <= n <= n2 <= 6 implies (#[trigger] intern_corners(
        s,
        quad,
        n,
    )).len() <= (#[trigger] intern_corners(s, quad, n2)).len() && forall|j: int|
        0 <= j < intern_corners(s, quad, n).len() ==> intern_corners(s, quad, n2)[j]
            == intern_corners(s, quad, n)[j] by {
        lemma_intern_step(s, quad, n, n2);
    }
    assert forall|n: int| 0 <= n <= 6 implies s.len() <= (#[trigger] intern_corners(
        s,
        quad,
        n,
    )).len() && forall|j: int| 0 <= j < s.len() ==> intern_corners(s, quad, n)[j] == s[j] by {
        assert(intern_corners(s, quad, 0) == s);
        lemma_intern_step(s, quad, 0, n);
    }
}

proof fn lemma_intern_step(s: Seq<Vec3>, quad: Quad, n: int, n2: int)
    requires
        0 <= n <= n2,
    ensures
        intern_corners(s, quad, n).len() <= intern_corners(s, quad, n2).len(),
        forall|j: int|
            0 <= j < intern_corners(s, quad, n).len() ==> #[trigger] intern_corners(s, quad, n2)[j]
                == intern_corners(s, quad, n)[j],
    decreases n2 - n,
{
    if n2 > n {
        lemma_intern_step(s, quad, n, n2 - 1);
    }
}

/// The dedup-correctness law: in a well-formed mesh no two distinct
/// table indices map to equal values, and every face index lies in
/// `1 ..= tableSize`.
pub proof fn lemma_dedup_correct(m: MeshView)
    requires
        m.wf(),
    ensures
        forall|i: int, j: int| 0 <= i < j < m.v.len() ==> m.v[i] != m.v[j],
        forall|i: int, j: int| 0 <= i < j < m.vt.len() ==> m.vt[i] != m.vt[j],
        forall|i: int, j: int| 0 <= i < j < m.vn.len() ==> m.vn[i] != m.vn[j],
        forall|f: int, k: int|
            0 <= f < m.q.len() && 0 <= k < 6 ==> 1 <= (#[trigger] m.q[f].v[k]) <= m.v.len(),
        forall|f: int|
            0 <= f < m.q.len() ==> 1 <= (#[trigger] m.q[f]).vt <= m.vt.len() && 1 <= m.q[f].vn
                <= m.vn.len(),
{
}


/// Decimal digits of a nonnegative integer, most significant first.
pub open spec fn dec_u(n: nat) -> Seq<u8>
    decreases n,
{
    if n < 10 {
        seq![(48 + n) as u8]
    } else {
        dec_u(n / 10).push((48 + n % 10) as u8)
    }
}

/// Decimal rendering of a signed integer.
pub open spec fn dec_i(n: int) -> Seq<u8> {
    if n < 0 {
        seq![45u8] + dec_u((-n) as nat)
    } else {
        dec_u(n as nat)
    }
}

/// `d` halved, rendered with exactly one decimal digit: the format of
/// the centered position coordinates, which are integers or
/// half-integers.
pub open spec fn half_dec(d: int) -> Seq<u8> {
    let m = if d < 0 {
        (-d) as nat
    } else {
        d as nat
    };
    let sign: Seq<u8> = if d < 0 {
        seq![45u8]
    } else {
        Seq::empty()
    };
    sign + dec_u(m / 2) + seq![46u8, if m % 2 == 1 {
        53u8
    } else {
        48u8
    }]
}

/// The texture coordinate of material `i` is `(i + 0.5) / 256`,
/// placing each material at the center of its palette texel. This is
/// its value rounded to six decimal digits, scaled to an integer:
/// `(2 i + 1) / 512 * 10^6`, rounded to nearest (never a tie).
pub open spec fn texcoord_scaled(i: u8) -> int {
    ((2 * i + 1) * 15625 + 4) / 8
}

/// The six zero-padded decimal digits of the texture coordinate's
/// fractional part.
pub open spec fn texcoord_digits(i: u8) -> Seq<u8> {
    let q = texcoord_scaled(i);
    seq![
        (48 + q / 100000 % 10) as u8,
        (48 + q / 10000 % 10) as u8,
        (48 + q / 1000 % 10) as u8,
        (48 + q / 100 % 10) as u8,
        (48 + q / 10 % 10) as u8,
        (48 + q % 10) as u8,
    ]
}

/// One `v` line: the position with the model's XZ centering offset
/// subtracted, each coordinate with one decimal digit.
pub open spec fn v_line(size_x: u32, size_y: u32, p: Vec3) -> Seq<u8> {
    seq![118u8, 32u8] + half_dec(2 * p.x - size_x) + seq![32u8] + half_dec(2 * p.y) + seq![32u8]
        + half_dec(2 * p.z - size_y) + seq![10u8]
}

/// One `vt` line: the material's texture coordinate and the fixed
/// second coordinate of the one-dimensional palette atlas.
pub open spec fn vt_line(i: u8) -> Seq<u8> {
    seq![118u8, 116u8, 32u8, 48u8, 46u8] + texcoord_digits(i) + seq![
        32u8,
        48u8,
        46u8,
        53u8,
        10u8,
    ]
}

/// One `vn` line: an axis-aligned unit normal with integer
/// components.
pub open spec fn vn_line(n: IVec3) -> Seq<u8> {
    seq![118u8, 110u8, 32u8] + dec_i(n.x as int) + seq![32u8] + dec_i(n.y as int) + seq![32u8]
        + dec_i(n.z as int) + seq![10u8]
}

/// One triangle reference `idx/tex/nrm`.
pub open spec fn face_ref(v: int, vt: int, vn: int) -> Seq<u8> {
    dec_i(v) + seq![47u8] + dec_i(vt) + seq![47u8] + dec_i(vn)
}

/// The two `f` lines of one pushed quad.
pub open spec fn face_lines(qi: QuadIndices) -> Seq<u8> {
    seq![102u8, 32u8] + face_ref(qi.v@[0] as int, qi.vt as int, qi.vn as int) + seq![32u8]
        + face_ref(qi.v@[1] as int, qi.vt as int, qi.vn as int) + seq![32u8] + face_ref(
        qi.v@[2] as int,
        qi.vt as int,
        qi.vn as int,
    ) + seq![10u8, 102u8, 32u8] + face_ref(qi.v@[3] as int, qi.vt as int, qi.vn as int) + seq![
        32u8,
    ] + face_ref(qi.v@[4] as int, qi.vt as int, qi.vn as int) + seq![32u8] + face_ref(
        qi.v@[5] as int,
        qi.vt as int,
        qi.vn as int,
    ) + seq![10u8]
}

pub open spec fn cat_v_lines(size_x: u32, size_y: u32, vs: Seq<Vec3>) -> Seq<u8>
    decreases vs.len(),
{
    if vs.len() == 0 {
        Seq::empty()
    } else {
        cat_v_lines(size_x, size_y, vs.drop_last()) + v_line(size_x, size_y, vs.last())
    }
}

pub open spec fn cat_vt_lines(vts: Seq<u8>) -> Seq<u8>
    decreases vts.len(),
{
    if vts.len() == 0 {
        Seq::empty()
    } else {
        cat_vt_lines(vts.drop_last()) + vt_line(vts.last())
    }
}

pub open spec fn cat_vn_lines(vns: Seq<IVec3>) -> Seq<u8>
    decreases vns.len(),
{
    if vns.len() == 0 {
        Seq::empty()
    } else {
        cat_vn_lines(vns.drop_last()) + vn_line(vns.last())
    }
}

pub open spec fn cat_face_lines(qs: Seq<QuadIndices>) -> Seq<u8>
    decreases qs.len(),
{
    if qs.len() == 0 {
        Seq::empty()
    } else {
        cat_face_lines(qs.drop_last()) + face_lines(qs.last())
    }
}

/// The full text form of a mesh: all position lines, then all
/// texture-coordinate lines, then all normal lines, then one `f` line
/// per triangle, referencing 1-based table indices.
pub open spec fn spec_serialize(size_x: u32, size_y: u32, m: MeshView) -> Seq<u8> {
    cat_v_lines(size_x, size_y, m.v) + cat_vt_lines(m.vt) + cat_vn_lines(m.vn) + cat_face_lines(
        m.q,
    )
}

/// Append the decimal digits of `n`.
fn push_dec_u(out: &mut Vec<u8>, n: u64)
    ensures
        final(out)@ == old(out)@ + dec_u(n as nat),
    decreases n,
{
    if n < 10 {
        out.push(48 + n as u8);
        proof {
            assert(out@ =~= old(out)@ + dec_u(n as nat));
        }
    } else {
        push_dec_u(out, n / 10);
        out.push(48 + (n % 10) as u8);
        proof {
            assert(out@ =~= old(out)@ + dec_u(n as nat));
        }
    }
}

/// Append the decimal rendering of `n`.
fn push_dec_i(out: &mut Vec<u8>, n: i64)
    requires
        n > i64::MIN,
    ensures
        final(out)@ == old(out)@ + dec_i(n as int),
{
    if n < 0 {
        out.push(45);
        push_dec_u(out, (-n) as u64);
        proof {
            assert(out@ =~= old(out)@ + dec_i(n as int));
        }
    } else {
        push_dec_u(out, n as u64);
    }
}

/// Append `d` halved, with one decimal digit.
fn push_half(out: &mut Vec<u8>, d: i64)
    requires
        i64::MIN < d,
    ensures
        final(out)@ == old(out)@ + half_dec(d as int),
{
    if d < 0 {
        out.push(45);
    }
    let m: u64 = if d < 0 {
        (-d) as u64
    } else {
        d as u64
    };
    push_dec_u(out, m / 2);
    out.push(46);
    if m % 2 == 1 {
        out.push(53);
    } else {
        out.push(48);
    }
    proof {
        assert(out@ =~= old(out)@ + half_dec(d as int));
    }
}

/// Append the `vt` fraction digits of material `i`.
fn push_texcoord_digits(out: &mut Vec<u8>, i: u8)
    ensures
        final(out)@ == old(out)@ + texcoord_digits(i),
{
    let q: u32 = ((2 * (i as u32) + 1) * 15625 + 4) / 8;
    proof {
        assert(q == texcoord_scaled(i));
    }
    out.push(48 + (q / 100000 % 10) as u8);
    out.push(48 + (q / 10000 % 10) as u8);
    out.push(48 + (q / 1000 % 10) as u8);
    out.push(48 + (q / 100 % 10) as u8);
    out.push(48 + (q / 10 % 10) as u8);
    out.push(48 + (q % 10) as u8);
    proof {
        assert(out@ =~= old(out)@ + texcoord_digits(i));
    }
}

/// Append one triangle reference.
fn push_face_ref(out: &mut Vec<u8>, v: usize, vt: usize, vn: usize)
    ensures
        final(out)@ == old(out)@ + face_ref(v as int, vt as int, vn as int),
{
    push_dec_u(out, v as u64);
    out.push(47);
    push_dec_u(out, vt as u64);
    out.push(47);
    push_dec_u(out, vn as u64);
    proof {
        assert(out@ =~= old(out)@ + face_ref(v as int, vt as int, vn as int));
    }
}

/// Append the two `f` lines of one face record.
#[verifier::rlimit(60)]
fn push_face_lines(out: &mut Vec<u8>, qi: QuadIndices)
    ensures
        final(out)@ == old(out)@ + face_lines(qi),
{
    out.push(102);
    out.push(32);
    push_face_ref(out, qi.v[0], qi.vt, qi.vn);
    out.push(32);
    push_face_ref(out, qi.v[1], qi.vt, qi.vn);
    out.push(32);
    push_face_ref(out, qi.v[2], qi.vt, qi.vn);
    out.push(10);
    out.push(102);
    out.push(32);
    push_face_ref(out, qi.v[3], qi.vt, qi.vn);
    out.push(32);
    push_face_ref(out, qi.v[4], qi.vt, qi.vn);
    out.push(32);
    push_face_ref(out, qi.v[5], qi.vt, qi.vn);
    out.push(10);
    proof {
        assert(final(out)@ =~= old(out)@ + face_lines(qi));
    }
}

impl Obj {
    /// Serialize the mesh to its text form.
    #[verifier::rlimit(60)]
    pub fn serialize(&self) -> (out: Vec<u8>)
        ensures
            out@ == spec_serialize(self.size_x, self.size_y, self.mesh()),
    {
        let mut out: Vec<u8> = Vec::new();
        let mut i: usize = 0;
        while i < self.v.len()
            invariant
                i <= self.v@.len(),
                out@ == cat_v_lines(self.size_x, self.size_y, self.v@.take(i as int)),
            decreases self.v@.len() - i,
        {
            let ghost out0 = out@;
            let p = self.v[i];
            out.push(118);
            out.push(32);
            push_half(&mut out, 2 * (p.x as i64) - (self.size_x as i64));
            out.push(32);
            push_half(&mut out, 2 * (p.y as i64));
            out.push(32);
            push_half(&mut out, 2 * (p.z as i64) - (self.size_y as i64));
            out.push(10);
            proof {
                assert(out@ =~= out0 + v_line(self.size_x, self.size_y, self.v@[i as int]));
                assert(self.v@.take(i + 1).drop_last() =~= self.v@.take(i as int));
                assert(self.v@.take(i + 1).last() == self.v@[i as int]);
            }
            i += 1;
        }
        proof {
            assert(self.v@.take(self.v@.len() as int) =~= self.v@);
        }
        let ghost done_v = out@;
        let mut i: usize = 0;
        while i < self.vt.len()
            invariant
                i <= self.vt@.len(),
                out@ == done_v + cat_vt_lines(self.vt@.take(i as int)),
            decreases self.vt@.len() - i,
        {
            let ghost out0 = out@;
            let t = self.vt[i];
            out.push(118);
            out.push(116);
            out.push(32);
            out.push(48);
            out.push(46);
            push_texcoord_digits(&mut out, t);
            out.push(32);
            out.push(48);
            out.push(46);
            out.push(53);
            out.push(10);
            proof {
                assert(out@ =~= out0 + vt_line(self.vt@[i as int]));
                assert(self.vt@.take(i + 1).drop_last() =~= self.vt@.take(i as int));
                assert(self.vt@.take(i + 1).last() == self.vt@[i as int]);
                assert(out@ =~= done_v + cat_vt_lines(self.vt@.take(i + 1)));
            }
            i += 1;
        }
        proof {
            assert(self.vt@.take(self.vt@.len() as int) =~= self.vt@);
        }
        let ghost done_vt = out@;
        let mut i: usize = 0;
        while i < self.vn.len()
            invariant
                i <= self.vn@.len(),
                out@ == done_vt + cat_vn_lines(self.vn@.take(i as int)),
            decreases self.vn@.len() - i,
        {
            let ghost out0 = out@;
            let n = self.vn[i];
            out.push(118);
            out.push(110);
            out.push(32);
            push_dec_i(&mut out, n.x as i64);
            out.push(32);
            push_dec_i(&mut out, n.y as i64);
            out.push(32);
            push_dec_i(&mut out, n.z as i64);
            out.push(10);
            proof {
                assert(out@ =~= out0 + vn_line(self.vn@[i as int]));
                assert(self.vn@.take(i + 1).drop_last() =~= self.vn@.take(i as int));
                assert(self.vn@.take(i + 1).last() == self.vn@[i as int]);
                assert(out@ =~= done_vt + cat_vn_lines(self.vn@.take(i + 1)));
            }
            i += 1;
        }
        proof {
            assert(self.vn@.take(self.vn@.len() as int) =~= self.vn@);
        }
        let ghost done_vn = out@;
        let mut i: usize = 0;
        while i < self.q.len()
            invariant
                i <= self.q@.len(),
                out@ == done_vn + cat_face_lines(self.q@.take(i as int)),
            decreases self.q@.len() - i,
        {
            let ghost out0 = out@;
            let qi = self.q[i];
            push_face_lines(&mut out, qi);
            proof {
                assert(out@ =~= out0 + face_lines(self.q@[i as int]));
                assert(self.q@.take(i + 1).drop_last() =~= self.q@.take(i as int));
                assert(self.q@.take(i + 1).last() == self.q@[i as int]);
                assert(out@ =~= done_vn + cat_face_lines(self.q@.take(i + 1)));
            }
            i += 1;
        }
        proof {
            assert(self.q@.take(self.q@.len() as int) =~= self.q@);
        }
        out
    }
}


/// Two face records with the same indices are the same value.
pub proof fn lemma_quad_indices_eq(a: QuadIndices, b: QuadIndices)
    requires
        forall|k: int| 0 <= k < 6 ==> a.v@[k] == b.v@[k],
        a.vt == b.vt,
        a.vn == b.vn,
    ensures
        a == b,
{
    assert(a.v@ =~= b.v@);
    assert(a.v == b.v);
}

/// Interning keeps a table duplicate-free.
pub proof fn lemma_intern_one_distinct<T>(s: Seq<T>, x: T)
    requires
        distinct_seq(s),
    ensures
        distinct_seq(intern_one(s, x)),
{
    if !s.contains(x) {
        assert forall|i: int| 0 <= i < s.len() implies s[i] != x by {
            if s[i] == x {
                assert(s.contains(x));
            }
        }
        lemma_distinct_push(s, x);
    }
}

/// Interning a quad's corners keeps the position table
/// duplicate-free.
pub proof fn lemma_intern_corners_distinct(s: Seq<Vec3>, quad: Quad, n: int)
    requires
        distinct_seq(s),
        n <= 6,
    ensures
        distinct_seq(intern_corners(s, quad, n)),
    decreases n,
{
    if n > 0 {
        lemma_intern_corners_distinct(s, quad, n - 1);
        lemma_intern_one_distinct(intern_corners(s, quad, n - 1), quad_corner(quad, n - 1));
    }
}

/// Interning the corners of two quads with equal corner values yields
/// the same table.
pub proof fn lemma_intern_corners_congruent(s: Seq<Vec3>, qa: Quad, qb: Quad, n: int)
    requires
        forall|k: int| 0 <= k < 6 ==> quad_corner(qa, k) == quad_corner(qb, k),
        n <= 6,
    ensures
        intern_corners(s, qa, n) == intern_corners(s, qb, n),
    decreases n,
{
    if n > 0 {
        lemma_intern_corners_congruent(s, qa, qb, n - 1);
        assert(quad_corner(qa, n - 1) == quad_corner(qb, n - 1));
    }
}

} // verus!
