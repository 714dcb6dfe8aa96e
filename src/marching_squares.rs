//! Vertex welding: every triangle corner, given by the bit patterns of its
//! coordinates, is looked up by exact equality; a hit reuses the vertex, a
//! miss appends a new one.

use std::collections::HashMap;
use vstd::prelude::*;

verus! {

broadcast use vstd::std_specs::hash::group_hash_axioms;

/// The bit patterns of the `f32` coordinates (x, y, z) of a point.
pub type Coords = (u32, u32, u32);

/// The vertices that welding `points` onto the vertex list `vs` gives:
/// each point not yet present is appended, in order.
pub open spec fn weld_onto(vs: Seq<Coords>, points: Seq<Coords>) -> Seq<Coords>
    decreases points.len(),
{
    if points.len() == 0 {
        vs
    } else {
        let before = weld_onto(vs, points.drop_last());
        if before.contains(points.last()) {
            before
        } else {
            before.push(points.last())
        }
    }
}

/// The distinct points of `points`, in order of first occurrence.
pub open spec fn dedup(points: Seq<Coords>) -> Seq<Coords> {
    weld_onto(Seq::empty(), points)
}

/// The index of each point in the vertex list `vs`.
pub open spec fn indices_in(vs: Seq<Coords>, points: Seq<Coords>) -> Seq<u32> {
    points.map_values(|p: Coords| vs.index_of(p) as u32)
}

/// The corners of the triangles, three per triangle, in order.
pub open spec fn corners_of(triangles: Seq<[Coords; 3]>) -> Seq<Coords>
    decreases triangles.len(),
{
    if triangles.len() == 0 {
        Seq::empty()
    } else {
        corners_of(triangles.drop_last()) + triangles.last()@
    }
}

/// The 96 bits of a point as one key.
pub open spec fn pack(p: Coords) -> int {
    p.0 as int * 0x1_0000_0000_0000_0000 + p.1 as int * 0x1_0000_0000 + p.2 as int
}

proof fn lemma_pack_injective(p: Coords, q: Coords)
    requires
        pack(p) == pack(q),
    ensures
        p == q,
{
    assert(p.0 == q.0);
    assert(p.1 == q.1);
}

fn key_of(p: Coords) -> (r: u128)
    ensures
        r as int == pack(p),
{
    (p.0 as u128) * 0x1_0000_0000_0000_0000u128 + (p.1 as u128) * 0x1_0000_0000u128 + (p.2 as u128)
}

/// The weld table of one build with the mesh it has produced so far: the
/// vertices (coordinate bit patterns) and, per inserted point, its vertex
/// index.
pub struct MarchingSquares {
    vertex_index: HashMap<u128, u32>,
    vertices: Vec<Coords>,
    indices: Vec<u32>,
}

impl MarchingSquares {
    pub closed spec fn vertices_view(&self) -> Seq<Coords> {
        self.vertices@
    }

    pub closed spec fn indices_view(&self) -> Seq<u32> {
        self.indices@
    }

    /// Vertices are distinct, every index names a vertex, and the lookup
    /// table maps each vertex's key to its index and holds nothing else.
    pub closed spec fn wf(&self) -> bool {
        &&& self.vertices@.len() <= u32::MAX
        &&& self.vertices@.no_duplicates()
        &&& forall|k: int| 0 <= k < self.indices@.len() ==> self.indices@[k] < self.vertices@.len()
        &&& forall|k: int|
            0 <= k < self.vertices@.len() ==> {
                let key = pack(#[trigger] self.vertices@[k]) as u128;
                &&& self.vertex_index@.contains_key(key)
                &&& self.vertex_index@[key] == k
            }
        &&& forall|key: u128|
            #[trigger] self.vertex_index@.contains_key(key) ==> {
                let k = self.vertex_index@[key] as int;
                &&& 0 <= k < self.vertices@.len()
                &&& pack(self.vertices@[k]) == key
            }
    }

    /// An empty table.
    pub fn new() -> (r: MarchingSquares)
        ensures
            r.wf(),
            r.vertices_view() == Seq::<Coords>::empty(),
            r.indices_view() == Seq::<u32>::empty(),
    {
        MarchingSquares { vertex_index: HashMap::new(), vertices: Vec::new(), indices: Vec::new() }
    }

    /// Welds one point: reuses the vertex with the same coordinates, or
    /// appends a new one, and records its index.
    fn insert_vertex(&mut self, p: Coords)
        requires
            old(self).wf(),
            old(self).vertices_view().len() < u32::MAX,
        ensures
            final(self).wf(),
            final(self).vertices_view() == weld_onto(old(self).vertices_view(), seq![p]),
            final(self).indices_view() == old(self).indices_view().push(
                final(self).vertices_view().index_of(p) as u32,
            ),
    {
        let key = key_of(p);
        let found = self.vertex_index.get(&key);
        proof {
            lemma_weld_one(self.vertices@, p);
        }
        match found {
            Some(i) => {
                let i: u32 = *i;
                proof {
                    lemma_pack_injective(self.vertices@[i as int], p);
                    assert(self.vertices@.contains(p));
                    lemma_index_of_unique(self.vertices@, i as int);
                }
                self.indices.push(i);
            },
            None => {
                proof {
                    if self.vertices@.contains(p) {
                        let k = choose|k: int| 0 <= k < self.vertices@.len() && self.vertices@[k] == p;
                        assert(self.vertex_index@.contains_key(pack(self.vertices@[k]) as u128));
                    }
                }
                let ghost old_vs = self.vertices@;
                self.vertices.push(p);
                let i: u32 = (self.vertices.len() - 1) as u32;
                self.indices.push(i);
                self.vertex_index.insert(key, i);
                proof {
                    assert(self.vertices@.no_duplicates()) by {
                        assert forall|a: int, b: int|
                            0 <= a < self.vertices@.len() && 0 <= b < self.vertices@.len() && a != b
                            implies self.vertices@[a] != self.vertices@[b] by {
                            if b == old_vs.len() {
                                assert(old_vs.contains(old_vs[a]));
                            } else if a == old_vs.len() {
                                assert(old_vs.contains(old_vs[b]));
                            }
                        }
                    }
                    lemma_index_of_unique(self.vertices@, i as int);
                    assert forall|k: int| 0 <= k < self.vertices@.len() implies {
                        let key = pack(#[trigger] self.vertices@[k]) as u128;
                        &&& self.vertex_index@.contains_key(key)
                        &&& self.vertex_index@[key] == k
                    } by {
                        if k < old_vs.len() {
                            if pack(old_vs[k]) as u128 == key {
                                lemma_pack_injective(old_vs[k], p);
                                assert(old_vs.contains(p));
                            }
                        }
                    }
                }
            },
        }
    }

    /// Welds the three corners of a triangle, in order.
    pub fn insert_vertices(&mut self, to_insert: [Coords; 3])
        requires
            old(self).wf(),
            old(self).vertices_view().len() + 3 <= u32::MAX,
        ensures
            final(self).wf(),
            final(self).vertices_view() == weld_onto(old(self).vertices_view(), to_insert@),
            final(self).indices_view() == old(self).indices_view() + indices_in(
                final(self).vertices_view(),
                to_insert@,
            ),
    {
        let ghost vs0 = self.vertices@;
        let ghost is0 = self.indices@;
        let mut k: usize = 0;
        while k < 3
            invariant
                k <= 3,
                self.wf(),
                vs0.len() + 3 <= u32::MAX,
                vs0.no_duplicates(),
                self.vertices@ == weld_onto(vs0, to_insert@.take(k as int)),
                self.vertices@.len() <= vs0.len() + k,
                self.indices@ == is0 + indices_in(self.vertices@, to_insert@.take(k as int)),
            decreases 3 - k,
        {
            let ghost vs1 = self.vertices@;
            let ghost x = to_insert@[k as int];
            self.insert_vertex(to_insert[k]);
            proof {
                let done = to_insert@.take(k as int);
                assert(to_insert@.take(k + 1) =~= done.push(x));
                lemma_weld_step(vs0, done, x);
                lemma_weld_one(vs1, x);
                lemma_weld_keeps_indices(vs0, done);
                lemma_weld_keeps_indices(vs1, seq![x]);
                let vs2 = self.vertices@;
                assert forall|n: int| 0 <= n < done.len() implies #[trigger] vs1.index_of(done[n])
                    == vs2.index_of(done[n]) by {
                    let i0 = choose|i: int| 0 <= i < vs1.len() && vs1[i] == done[n];
                    lemma_index_of_unique(vs1, i0);
                }
                assert(indices_in(vs1, done) =~= indices_in(vs2, done));
                assert(self.indices@ =~= is0 + indices_in(self.vertices@, to_insert@.take(k + 1)));
            }
            k = k + 1;
        }
        assert(to_insert@.take(3) =~= to_insert@);
    }

    /// Welds the corners of each triangle in turn into one indexed mesh: the
    /// vertices are the distinct corners in order of first occurrence, and
    /// each corner's index names the vertex with its exact coordinates.
    pub fn weld(triangles: &Vec<[Coords; 3]>) -> (r: MarchingSquares)
        requires
            3 * triangles@.len() < u32::MAX,
        ensures
            r.wf(),
            r.vertices_view() == dedup(corners_of(triangles@)),
            r.indices_view() == indices_in(r.vertices_view(), corners_of(triangles@)),
            r.indices_view().len() == 3 * triangles@.len(),
            forall|k: int|
                0 <= k < r.indices_view().len() ==> {
                    &&& #[trigger] r.indices_view()[k] < r.vertices_view().len()
                    &&& r.vertices_view()[r.indices_view()[k] as int] == corners_of(triangles@)[k]
                },
    {
        let mut table = MarchingSquares::new();
        let mut k: usize = 0;
        while k < triangles.len()
            invariant
                k <= triangles@.len(),
                3 * triangles@.len() < u32::MAX,
                table.wf(),
                table.vertices@ == dedup(corners_of(triangles@.take(k as int))),
                table.indices@ == indices_in(table.vertices@, corners_of(triangles@.take(k as int))),
                corners_of(triangles@.take(k as int)).len() == 3 * k,
            decreases triangles@.len() - k,
        {
            let ghost done = corners_of(triangles@.take(k as int));
            let ghost t = triangles@[k as int];
            let ghost vs1 = table.vertices@;
            proof {
                lemma_weld_keeps_indices(Seq::empty(), done);
            }
            table.insert_vertices(triangles[k]);
            proof {
                assert(triangles@.take(k + 1).drop_last() =~= triangles@.take(k as int));
                assert(corners_of(triangles@.take(k + 1)) == done + t@);
                lemma_weld_concat(Seq::empty(), done, t@);
                lemma_weld_keeps_indices(vs1, t@);
                let vs2 = table.vertices@;
                assert forall|n: int| 0 <= n < done.len() implies #[trigger] vs1.index_of(done[n])
                    == vs2.index_of(done[n]) by {
                    let i0 = choose|i: int| 0 <= i < vs1.len() && vs1[i] == done[n];
                    lemma_index_of_unique(vs1, i0);
                }
                assert(indices_in(vs1, done) =~= indices_in(vs2, done));
                assert(table.indices@ =~= indices_in(vs2, done + t@));
            }
            k = k + 1;
        }
        proof {
            assert(triangles@.take(k as int) =~= triangles@);
            lemma_welded_points(corners_of(triangles@));
        }
        table
    }

    /// The vertices, as coordinate bit patterns.
    pub fn vertices(&self) -> (r: &Vec<Coords>)
        ensures
            r@ == self.vertices_view(),
    {
        &self.vertices
    }

    /// The vertex index of each inserted point, three per triangle.
    pub fn indices(&self) -> (r: &Vec<u32>)
        ensures
            r@ == self.indices_view(),
    {
        &self.indices
    }
}

/// Welding one point onto `vs`: `vs` itself if the point is there, else `vs`
/// with the point appended.
proof fn lemma_weld_one(vs: Seq<Coords>, p: Coords)
    ensures
        weld_onto(vs, seq![p]) == if vs.contains(p) {
            vs
        } else {
            vs.push(p)
        },
{
    assert(seq![p].drop_last() =~= Seq::<Coords>::empty());
    assert(weld_onto(vs, Seq::<Coords>::empty()) == vs);
}

/// Welding a sequence one point further is welding that point onto the
/// result so far.
proof fn lemma_weld_step(vs: Seq<Coords>, points: Seq<Coords>, p: Coords)
    ensures
        weld_onto(vs, points.push(p)) == weld_onto(weld_onto(vs, points), seq![p]),
{
    assert(points.push(p).drop_last() =~= points);
    lemma_weld_one(weld_onto(vs, points), p);
}

/// Points with bit-identical coordinates get the same vertex index, and
/// points that differ in any bit get different ones: no vertex is
/// duplicated.
pub proof fn lemma_weld_shares_equal_points(points: Seq<Coords>, k1: int, k2: int)
    requires
        points.len() <= u32::MAX,
        0 <= k1 < points.len(),
        0 <= k2 < points.len(),
    ensures
        dedup(points).no_duplicates(),
        indices_in(dedup(points), points)[k1] == indices_in(dedup(points), points)[k2] <==> points[k1]
            == points[k2],
{
    lemma_welded_points(points);
    let vs = dedup(points);
    assert(points[k1] == vs[vs.index_of(points[k1])]);
    assert(points[k2] == vs[vs.index_of(points[k2])]);
}

/// Welding two sequences one after the other is welding their
/// concatenation.
proof fn lemma_weld_concat(vs: Seq<Coords>, a: Seq<Coords>, b: Seq<Coords>)
    ensures
        weld_onto(vs, a + b) == weld_onto(weld_onto(vs, a), b),
    decreases b.len(),
{
    if b.len() == 0 {
        assert(a + b =~= a);
    } else {
        lemma_weld_concat(vs, a, b.drop_last());
        assert((a + b).drop_last() =~= a + b.drop_last());
        assert((a + b).last() == b.last());
    }
}

/// Every index that welding `points` gives names the vertex with the
/// point's coordinates, and the vertices are distinct.
proof fn lemma_welded_points(points: Seq<Coords>)
    ensures
        dedup(points).no_duplicates(),
        dedup(points).len() <= points.len(),
        forall|k: int|
            0 <= k < points.len() ==> {
                let i = dedup(points).index_of(#[trigger] points[k]);
                &&& 0 <= i < dedup(points).len()
                &&& dedup(points)[i] == points[k]
            },
{
    lemma_weld_keeps_indices(Seq::empty(), points);
    assert forall|k: int| 0 <= k < points.len() implies {
        let i = dedup(points).index_of(#[trigger] points[k]);
        &&& 0 <= i < dedup(points).len()
        &&& dedup(points)[i] == points[k]
    } by {
        assert(dedup(points).contains(points[k]));
    }
}

/// In a list without duplicates, `index_of` finds the one position.
proof fn lemma_index_of_unique(vs: Seq<Coords>, k: int)
    requires
        vs.no_duplicates(),
        0 <= k < vs.len(),
    ensures
        vs.index_of(vs[k]) == k,
{
    assert(vs.contains(vs[k]));
}

/// Welding more points keeps the vertices already there in place, adds no
/// duplicate, and leaves every welded point present.
proof fn lemma_weld_keeps_indices(vs: Seq<Coords>, points: Seq<Coords>)
    requires
        vs.no_duplicates(),
    ensures
        vs.len() <= weld_onto(vs, points).len() <= vs.len() + points.len(),
        forall|k: int| 0 <= k < vs.len() ==> #[trigger] weld_onto(vs, points)[k] == vs[k],
        weld_onto(vs, points).no_duplicates(),
        forall|k: int| 0 <= k < vs.len() ==> #[trigger] weld_onto(vs, points).index_of(vs[k]) == k,
        forall|k: int| 0 <= k < points.len() ==> weld_onto(vs, points).contains(#[trigger] points[k]),
    decreases points.len(),
{
    let w = weld_onto(vs, points);
    if points.len() > 0 {
        let before = weld_onto(vs, points.drop_last());
        lemma_weld_keeps_indices(vs, points.drop_last());
        if !before.contains(points.last()) {
            assert forall|a: int, b: int| 0 <= a < w.len() && 0 <= b < w.len() && a != b implies w[a]
                != w[b] by {
                if b == before.len() {
                    assert(before.contains(before[a]));
                } else if a == before.len() {
                    assert(before.contains(before[b]));
                }
            }
        }
        assert forall|k: int| 0 <= k < points.len() implies w.contains(#[trigger] points[k]) by {
            if k < points.len() - 1 {
                assert(before.contains(points.drop_last()[k]));
                let i = choose|i: int| 0 <= i < before.len() && before[i] == points.drop_last()[k];
                assert(w[i] == points[k]);
            } else if !before.contains(points.last()) {
                assert(w[before.len() as int] == points[k]);
            }
        }
    }
    assert forall|k: int| 0 <= k < vs.len() implies #[trigger] w.index_of(vs[k]) == k by {
        lemma_index_of_unique(w, k);
    }
}

} // verus!
