//! The per-frame batch of primitives: a vertex list and a 16-bit index list
//! describing triangles over it. Quads (rectangles, thick lines) add four
//! vertices and two triangles; circles add a centre vertex and a fan of
//! triangles around it.

use vstd::prelude::*;

verus! {

/// Number of vertices a 16-bit index can address.
pub const MAX_VERTICES: usize = 65536;

/// Indices of the two triangles of a quad whose first vertex is `s`:
/// `(s, s+1, s+2)` and `(s, s+2, s+3)`.
pub open spec fn quad_indices(s: int) -> Seq<u16> {
    seq![s as u16, (s + 1) as u16, (s + 2) as u16, s as u16, (s + 2) as u16, (s + 3) as u16]
}

/// Index `k` of a fan of `n` triangles whose centre vertex is `s`, the rim
/// vertices following it: triangle `i` is `(s, s+1+i, s+1+(i+1) mod n)`.
pub open spec fn fan_index(s: int, n: int, k: int) -> u16 {
    let i = k / 3;
    if k % 3 == 0 {
        s as u16
    } else if k % 3 == 1 {
        (s + 1 + i) as u16
    } else {
        (s + 1 + (i + 1) % n) as u16
    }
}

/// The indices of a fan of `n` triangles whose centre vertex is `s`.
pub open spec fn fan_indices(s: int, n: int) -> Seq<u16> {
    Seq::new((3 * n) as nat, |k: int| fan_index(s, n, k))
}

/// The two triangles of a quad starting at vertex `s` are `(s, s+1, s+2)` and
/// `(s, s+2, s+3)`: every index names one of the quad's own four vertices,
/// and each of the four is used.
pub proof fn lemma_quad_indices(s: int)
    requires
        0 <= s,
        s + 4 <= MAX_VERTICES,
    ensures
        quad_indices(s).len() == 6,
        forall|k: int| 0 <= k < 6 ==> s <= #[trigger] quad_indices(s)[k] < s + 4,
        quad_indices(s)[0] == s,
        quad_indices(s)[1] == s + 1,
        quad_indices(s)[2] == s + 2,
        quad_indices(s)[3] == s,
        quad_indices(s)[4] == s + 2,
        quad_indices(s)[5] == s + 3,
{
}

/// A fan of `n` triangles around centre vertex `s` has `3n` indices;
/// triangle `i` is the centre, rim vertex `i` and rim vertex `i + 1` (the
/// last wrapping to rim vertex 0), so every index names the centre or one of
/// the fan's own rim vertices and every rim vertex is the second corner of
/// exactly one triangle.
pub proof fn lemma_fan_indices(s: int, n: int)
    requires
        0 <= s,
        0 <= n,
        s + 1 + n <= MAX_VERTICES,
    ensures
        fan_indices(s, n).len() == 3 * n,
        forall|i: int| 0 <= i < n ==> #[trigger] fan_indices(s, n)[3 * i] == s,
        forall|i: int| 0 <= i < n ==> #[trigger] fan_indices(s, n)[3 * i + 1] == s + 1 + i,
        forall|i: int| 0 <= i < n - 1 ==> #[trigger] fan_indices(s, n)[3 * i + 2] == s + 2 + i,
        n > 0 ==> fan_indices(s, n)[3 * n - 1] == s + 1,
        forall|k: int| 0 <= k < 3 * n ==> s <= #[trigger] fan_indices(s, n)[k] <= s + n,
{
    assert forall|i: int| 0 <= i < n implies #[trigger] fan_indices(s, n)[3 * i] == s by {
        assert((3 * i) % 3 == 0) by (nonlinear_arith);
    }
    assert forall|i: int| 0 <= i < n implies #[trigger] fan_indices(s, n)[3 * i + 1] == s + 1 + i by {
        assert((3 * i + 1) / 3 == i && (3 * i + 1) % 3 == 1) by (nonlinear_arith);
    }
    assert forall|i: int| 0 <= i < n - 1 implies #[trigger] fan_indices(s, n)[3 * i + 2] == s + 2 + i by {
        assert((3 * i + 2) / 3 == i && (3 * i + 2) % 3 == 2) by (nonlinear_arith);
        vstd::arithmetic::div_mod::lemma_small_mod((i + 1) as nat, n as nat);
    }
    if n > 0 {
        assert((3 * n - 1) / 3 == n - 1 && (3 * n - 1) % 3 == 2) by (nonlinear_arith)
            requires n > 0;
        vstd::arithmetic::div_mod::lemma_mod_self_0(n);
    }
    assert forall|k: int| 0 <= k < 3 * n implies s <= #[trigger] fan_indices(s, n)[k] <= s + n by {
        assert(0 <= k / 3 < n && 0 <= k % 3 < 3) by (nonlinear_arith)
            requires 0 <= k < 3 * n;
        vstd::arithmetic::div_mod::lemma_mod_bound(k / 3 + 1, n);
    }
}

/// The index list describes whole triangles over existing vertices.
pub open spec fn mesh_valid<V>(vertices: Seq<V>, indices: Seq<u16>) -> bool {
    &&& indices.len() % 3 == 0
    &&& forall|k: int| 0 <= k < indices.len() ==> (#[trigger] indices[k] as int) < vertices.len()
}

/// Vertices and triangle indices collected during one frame.
pub struct MeshBatch<V> {
    vertices: Vec<V>,
    indices: Vec<u16>,
}

impl<V> MeshBatch<V> {
    /// The vertices collected so far.
    pub closed spec fn vertices_spec(&self) -> Seq<V> {
        self.vertices@
    }

    /// The indices collected so far.
    pub closed spec fn indices_spec(&self) -> Seq<u16> {
        self.indices@
    }

    /// An empty batch.
    pub fn new() -> (b: Self)
        ensures
            b.vertices_spec() == Seq::<V>::empty(),
            b.indices_spec() == Seq::<u16>::empty(),
    {
        MeshBatch { vertices: Vec::new(), indices: Vec::new() }
    }

    /// Empties the batch at the start of a frame.
    pub fn begin_frame(&mut self)
        ensures
            final(self).vertices_spec() == Seq::<V>::empty(),
            final(self).indices_spec() == Seq::<u16>::empty(),
    {
        self.vertices.clear();
        self.indices.clear();
    }

    /// The vertices collected so far.
    pub fn vertices(&self) -> (v: &[V])
        ensures
            v@ == self.vertices_spec(),
    {
        self.vertices.as_slice()
    }

    /// The indices collected so far.
    pub fn indices(&self) -> (i: &[u16])
        ensures
            i@ == self.indices_spec(),
    {
        self.indices.as_slice()
    }

    /// Adds a quad with corners `a, b, c, d` in order, as the triangles
    /// `(a, b, c)` and `(a, c, d)`.
    pub fn push_quad(&mut self, a: V, b: V, c: V, d: V)
        requires
            old(self).vertices_spec().len() + 4 <= MAX_VERTICES,
        ensures
            final(self).vertices_spec() == old(self).vertices_spec() + seq![a, b, c, d],
            final(self).indices_spec() == old(self).indices_spec() + quad_indices(
                old(self).vertices_spec().len() as int,
            ),
            final(self).indices_spec().len() == old(self).indices_spec().len() + 6,
            ({
                let v = old(self).vertices_spec().len() as int;
                let i = old(self).indices_spec().len() as int;
                let ix = final(self).indices_spec();
                &&& ix[i] == v
                &&& ix[i + 1] == v + 1
                &&& ix[i + 2] == v + 2
                &&& ix[i + 3] == v
                &&& ix[i + 4] == v + 2
                &&& ix[i + 5] == v + 3
            }),
            mesh_valid(old(self).vertices_spec(), old(self).indices_spec()) ==> mesh_valid(
                final(self).vertices_spec(),
                final(self).indices_spec(),
            ),
    {
        let start = self.vertices.len() as u16;
        let ghost old_v = self.vertices@;
        let ghost old_i = self.indices@;
        self.vertices.push(a);
        self.vertices.push(b);
        self.vertices.push(c);
        self.vertices.push(d);
        self.indices.push(start);
        self.indices.push(start + 1);
        self.indices.push(start + 2);
        self.indices.push(start);
        self.indices.push(start + 2);
        self.indices.push(start + 3);
        proof {
            lemma_quad_indices(old_v.len() as int);
            assert(self.vertices@ =~= old_v + seq![a, b, c, d]);
            assert(self.indices@ =~= old_i + quad_indices(old_v.len() as int));
        }
    }

    /// Adds a fan around `center`: the centre vertex, then the rim vertices,
    /// and one triangle `(centre, rim[i], rim[(i + 1) mod n])` for each rim
    /// vertex `i`.
    pub fn push_fan(&mut self, center: V, rim: Vec<V>)
        requires
            old(self).vertices_spec().len() + 1 + rim@.len() <= MAX_VERTICES,
        ensures
            final(self).vertices_spec() == old(self).vertices_spec().push(center) + rim@,
            final(self).indices_spec() == old(self).indices_spec() + fan_indices(
                old(self).vertices_spec().len() as int,
                rim@.len() as int,
            ),
            final(self).indices_spec().len() == old(self).indices_spec().len() + 3 * rim@.len(),
            ({
                let s = old(self).vertices_spec().len() as int;
                let n = rim@.len() as int;
                let base = old(self).indices_spec().len() as int;
                let ix = final(self).indices_spec();
                &&& forall|i: int| 0 <= i < n ==> #[trigger] ix[base + 3 * i] == s
                &&& forall|i: int| 0 <= i < n ==> #[trigger] ix[base + 3 * i + 1] == s + 1 + i
                &&& forall|i: int| 0 <= i < n ==> #[trigger] ix[base + 3 * i + 2] == s + 1 + (i + 1) % n
            }),
            mesh_valid(old(self).vertices_spec(), old(self).indices_spec()) ==> mesh_valid(
                final(self).vertices_spec(),
                final(self).indices_spec(),
            ),
    {
        let ghost old_v = self.vertices@;
        let ghost old_i = self.indices@;
        let ghost s = old_v.len() as int;
        let ghost rim0 = rim@;
        let start = self.vertices.len() as u16;
        let n = rim.len();
        let mut rim = rim;
        self.vertices.push(center);
        self.vertices.append(&mut rim);
        let mut i: usize = 0;
        while i < n
            invariant
                i <= n,
                s == start,
                s + 1 + n <= MAX_VERTICES,
                self.indices@ == old_i + fan_indices(s, n as int).take(3 * i),
                n == rim0.len(),
                self.vertices@ == old_v.push(center) + rim0,
                self.indices@.len() == old_i.len() + 3 * i,
            decreases n - i,
        {
            let next_i = (i + 1) % n;
            let ghost before = self.indices@;
            self.indices.push(start);
            self.indices.push(start + 1 + i as u16);
            self.indices.push(start + 1 + next_i as u16);
            proof {
                assert(fan_index(s, n as int, 3 * i) == start) by {
                    assert((3 * i) / 3 == i && (3 * i) % 3 == 0) by (nonlinear_arith);
                }
                assert(fan_index(s, n as int, 3 * i + 1) == start + 1 + i) by {
                    assert((3 * i + 1) / 3 == i && (3 * i + 1) % 3 == 1) by (nonlinear_arith);
                }
                assert(fan_index(s, n as int, 3 * i + 2) == start + 1 + next_i) by {
                    assert((3 * i + 2) / 3 == i && (3 * i + 2) % 3 == 2) by (nonlinear_arith);
                }
                assert(fan_indices(s, n as int).take(3 * (i + 1)) =~= fan_indices(s, n as int).take(3 * i)
                    + seq![fan_index(s, n as int, 3 * i), fan_index(s, n as int, 3 * i + 1), fan_index(s, n as int, 3 * i + 2)]);
            }
            i += 1;
        }
        proof {
            lemma_fan_indices(s, n as int);
            assert(self.vertices@ =~= old_v.push(center) + rim0);
            assert forall|k: int| 0 <= k < 3 * n implies #[trigger] self.indices@[old_i.len() + k]
                == fan_indices(s, n as int)[k] by {}
            assert forall|i: int| 0 <= i < n implies #[trigger] self.indices@[old_i.len() + 3 * i + 2]
                == s + 1 + (i + 1) % (n as int) by {
                assert(self.indices@[old_i.len() + (3 * i + 2)] == fan_indices(s, n as int)[3 * i + 2]);
                if i < n - 1 {
                    vstd::arithmetic::div_mod::lemma_small_mod((i + 1) as nat, n as nat);
                } else {
                    vstd::arithmetic::div_mod::lemma_mod_self_0(n as int);
                }
            }
            assert forall|i: int| 0 <= i < n implies #[trigger] self.indices@[old_i.len() + 3 * i + 1]
                == s + 1 + i by {
                assert(self.indices@[old_i.len() + (3 * i + 1)] == fan_indices(s, n as int)[3 * i + 1]);
            }
            assert forall|i: int| 0 <= i < n implies #[trigger] self.indices@[old_i.len() + 3 * i]
                == s by {
                assert(self.indices@[old_i.len() + (3 * i)] == fan_indices(s, n as int)[3 * i]);
            }
            assert(fan_indices(s, n as int).take(3 * n) =~= fan_indices(s, n as int));
            if mesh_valid(old_v, old_i) {
                assert forall|k: int| 0 <= k < self.indices@.len() implies (#[trigger] self.indices@[k] as int)
                    < self.vertices@.len() by {
                    if k >= old_i.len() {
                        let j = k - old_i.len();
                        assert(self.indices@[k] == fan_index(s, n as int, j));
                        assert(j / 3 < n) by (nonlinear_arith)
                            requires 0 <= j < 3 * n;
                    }
                }
            }
        }
    }
}

} // verus!
