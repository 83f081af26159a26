//! Mesh assembly: deduplicates the corners of the selected triangles into a
//! dense vertex buffer and emits one index triple per triangle.  A flat
//! slot array over the vertex grid maps each grid position to its assigned
//! vertex, so every distinct corner gets exactly one vertex.
//!
//! Vertex positions are integer grid and sample units: `x` is the grid x,
//! `z` the grid y, and `height` the raw elevation sample at the corner.

use crate::error::{get_index, spec_index};
use crate::heightmap::{get_height, HeightGrid};
use crate::rtin::{tri_in_grid, Triangle, Vector2u32};
use vstd::prelude::*;
use vstd::pervasive::VecAdditionalExecFns;
use vstd::seq_lib::*;
use vstd::set_lib::{lemma_int_range, lemma_len_subset, set_int_range};

verus! {

/// One mesh vertex: the elevation sample becomes the vertical axis and the
/// grid y coordinate becomes the depth axis.
#[derive(Clone, Copy, PartialEq, Eq, Structural, Debug)]
pub struct MeshVertex {
    pub x: u32,
    pub height: u16,
    pub z: u32,
}

/// The three vertex-buffer slots of one triangle, in corner order
/// `a`, `b`, `c`.
#[derive(Clone, Copy, PartialEq, Eq, Structural, Debug)]
pub struct IndexTriple {
    pub a: u32,
    pub b: u32,
    pub c: u32,
}

/// The grid position a vertex was generated from.
pub open spec fn grid_of(v: MeshVertex) -> Vector2u32 {
    Vector2u32 { x: v.x, y: v.z }
}

/// The vertex belonging to a grid position: its coordinates and the sampled
/// elevation there.
pub open spec fn vertex_at(hm: HeightGrid, v: Vector2u32) -> MeshVertex {
    MeshVertex { x: v.x, height: hm.spec_sample(v.x as int, v.y as int), z: v.y }
}

/// All corners of the listed triangles, three per triangle in corner order.
pub open spec fn corner_stream(ts: Seq<Triangle>) -> Seq<Vector2u32>
    decreases ts.len(),
{
    if ts.len() == 0 {
        Seq::empty()
    } else {
        corner_stream(ts.drop_last()) + seq![ts.last().a, ts.last().b, ts.last().c]
    }
}

/// The sequence with every repeated element removed, keeping first
/// occurrences in order: the order in which dedup assigns vertex slots.
pub open spec fn first_occurrences(s: Seq<Vector2u32>) -> Seq<Vector2u32>
    decreases s.len(),
{
    if s.len() == 0 {
        Seq::empty()
    } else if s.drop_last().contains(s.last()) {
        first_occurrences(s.drop_last())
    } else {
        first_occurrences(s.drop_last()) + seq![s.last()]
    }
}

/// Removing repetitions keeps exactly the elements of the sequence.
pub proof fn lemma_first_occurrences_contains(s: Seq<Vector2u32>, x: Vector2u32)
    ensures
        first_occurrences(s).contains(x) <==> s.contains(x),
    decreases s.len(),
{
    if s.len() > 0 {
        lemma_first_occurrences_contains(s.drop_last(), x);
        assert(s.contains(x) <==> (s.drop_last().contains(x) || s.last() == x)) by {
            if s.contains(x) {
                let i = choose|i: int| 0 <= i < s.len() && s[i] == x;
                if i < s.len() - 1 {
                    assert(s.drop_last()[i] == x);
                }
            }
            if s.drop_last().contains(x) {
                let i = choose|i: int| 0 <= i < s.drop_last().len() && s.drop_last()[i] == x;
                assert(s[i] == x);
            }
            if s.last() == x {
                assert(s[s.len() - 1] == x);
            }
        }
        if !s.drop_last().contains(s.last()) && first_occurrences(s).contains(x) {
            let fo = first_occurrences(s);
            let i = choose|i: int| 0 <= i < fo.len() && fo[i] == x;
            if i < fo.len() - 1 {
                assert(first_occurrences(s.drop_last())[i] == x);
            }
        }
        if !s.drop_last().contains(s.last()) && first_occurrences(s.drop_last()).contains(x) {
            let fp = first_occurrences(s.drop_last());
            let i = choose|i: int| 0 <= i < fp.len() && fp[i] == x;
            assert(first_occurrences(s)[i] == x);
        }
        if !s.drop_last().contains(s.last()) && s.last() == x {
            let fo = first_occurrences(s);
            assert(fo[fo.len() - 1] == x);
        }
    }
}

/// Appending one corner to the stream extends the deduplicated vertex
/// positions by that corner exactly when no vertex for it exists yet.
proof fn lemma_dedup_step(
    hm: HeightGrid,
    old_vs: Seq<MeshVertex>,
    new_vs: Seq<MeshVertex>,
    cs: Seq<Vector2u32>,
    corner: Vector2u32,
)
    requires
        grid_positions(old_vs) == first_occurrences(cs),
        old_vs.len() <= new_vs.len() <= old_vs.len() + 1,
        forall|j: int| 0 <= j < old_vs.len() ==> new_vs[j] == old_vs[j],
        forall|j: int|
            old_vs.len() <= j < new_vs.len() ==> new_vs[j] == vertex_at(hm, corner),
        (new_vs.len() == old_vs.len()) <==> (exists|j: int|
            0 <= j < old_vs.len() && grid_of(#[trigger] old_vs[j]) == corner),
    ensures
        grid_positions(new_vs) == first_occurrences(cs.push(corner)),
{
    lemma_first_occurrences_contains(cs, corner);
    assert(cs.push(corner).drop_last() =~= cs);
    assert(cs.push(corner).last() == corner);
    let m0 = grid_positions(old_vs);
    let m1 = grid_positions(new_vs);
    if cs.contains(corner) {
        // a vertex for this position exists already, so nothing was added
        assert(first_occurrences(cs).contains(corner));
        let i = choose|i: int| 0 <= i < m0.len() && m0[i] == corner;
        assert(grid_of(old_vs[i]) == corner);
        assert(new_vs =~= old_vs);
        assert(first_occurrences(cs.push(corner)) == first_occurrences(cs));
    } else {
        if exists|j: int| 0 <= j < old_vs.len() && grid_of(#[trigger] old_vs[j]) == corner {
            let j = choose|j: int|
                0 <= j < old_vs.len() && grid_of(#[trigger] old_vs[j]) == corner;
            assert(m0[j] == corner);
            assert(m0.contains(corner));
            assert(false);
        }
        assert(new_vs.len() == old_vs.len() + 1);
        assert(grid_of(new_vs[old_vs.len() as int]) == corner);
        assert(m1 =~= m0.push(corner));
        assert(first_occurrences(cs.push(corner)) =~= first_occurrences(cs).push(corner));
    }
}

/// What mesh assembly guarantees: one index triple per triangle, every
/// index in range, each triple resolving to its triangle's three corners,
/// no two vertices for the same grid position, and no vertex that is not
/// some triangle's corner.
pub open spec fn mesh_ok(
    hm: HeightGrid,
    ts: Seq<Triangle>,
    vs: Seq<MeshVertex>,
    ix: Seq<IndexTriple>,
) -> bool {
    &&& ix.len() == ts.len()
    &&& forall|k: int|
        0 <= k < ix.len() ==> (#[trigger] ix[k]).a < vs.len() && ix[k].b < vs.len() && ix[k].c
            < vs.len()
    &&& forall|k: int|
        0 <= k < ix.len() ==> vs[(#[trigger] ix[k]).a as int] == vertex_at(hm, ts[k].a)
            && vs[ix[k].b as int] == vertex_at(hm, ts[k].b) && vs[ix[k].c as int] == vertex_at(
            hm,
            ts[k].c,
        )
    &&& forall|j1: int, j2: int|
        0 <= j1 < j2 < vs.len() ==> grid_of(#[trigger] vs[j1]) != grid_of(#[trigger] vs[j2])
    &&& forall|j: int| 0 <= j < vs.len() ==> vertex_from_corners(hm, ts, #[trigger] vs[j])
    &&& grid_positions(vs) == first_occurrences(corner_stream(ts))
    &&& forall|j: int|
        0 <= j < vs.len() ==> (#[trigger] vs[j]) == vertex_at(hm, grid_of(vs[j]))
}

/// The grid positions of a vertex buffer, in buffer order.
pub open spec fn grid_positions(vs: Seq<MeshVertex>) -> Seq<Vector2u32> {
    vs.map_values(|v: MeshVertex| grid_of(v))
}

/// The vertex is one of the listed triangles' corners.
pub open spec fn vertex_from_corners(hm: HeightGrid, ts: Seq<Triangle>, v: MeshVertex) -> bool {
    exists|k: int|
        0 <= k < ts.len() && (v == vertex_at(hm, (#[trigger] ts[k]).a) || v == vertex_at(
            hm,
            ts[k].b,
        ) || v == vertex_at(hm, ts[k].c))
}

/// The dedup state: each occupied slot points at the unique vertex built
/// for that grid position, and each vertex's position points back at its
/// slot.
pub open spec fn slots_inv(hm: HeightGrid, vs: Seq<MeshVertex>, sl: Seq<usize>, g: int) -> bool {
    &&& sl.len() == g * g
    &&& forall|p: int|
        0 <= p < sl.len() ==> ((#[trigger] sl[p]) != usize::MAX ==> sl[p] < vs.len() && spec_index(
            g,
            grid_of(vs[sl[p] as int]),
        ) == p)
    &&& forall|j: int|
        0 <= j < vs.len() ==> grid_of(#[trigger] vs[j]).x < g && grid_of(vs[j]).y < g
            && 0 <= spec_index(g, grid_of(vs[j])) < sl.len() && sl[spec_index(g, grid_of(vs[j]))]
            == j && vs[j] == vertex_at(hm, grid_of(vs[j]))
}

/// Two grid positions with the same row-major index are the same position.
pub proof fn lemma_index_injective(g: int, v1: Vector2u32, v2: Vector2u32)
    requires
        g >= 1,
        v1.x < g,
        v1.y < g,
        v2.x < g,
        v2.y < g,
        spec_index(g, v1) == spec_index(g, v2),
    ensures
        v1 == v2,
{
    assert(v1.x == v2.x && v1.y == v2.y) by (nonlinear_arith)
        requires
            g >= 1,
            v1.x < g,
            v1.y < g,
            v2.x < g,
            v2.y < g,
            v1.y * g + v1.x == v2.y * g + v2.x,
    ;
}

/// Dedup can never produce more vertices than there are grid positions.
pub proof fn lemma_vertex_count_bound(hm: HeightGrid, vs: Seq<MeshVertex>, sl: Seq<usize>, g: int)
    requires
        g >= 1,
        slots_inv(hm, vs, sl, g),
    ensures
        vs.len() <= g * g,
{
    let ps = Seq::new(vs.len(), |j: int| spec_index(g, grid_of(vs[j])));
    assert(ps.no_duplicates()) by {
        assert forall|j1: int, j2: int|
            0 <= j1 < ps.len() && 0 <= j2 < ps.len() && j1 != j2 implies ps[j1] != ps[j2] by {
            if ps[j1] == ps[j2] {
                assert(sl[ps[j1]] == j1);
                assert(sl[ps[j2]] == j2);
            }
        }
    }
    ps.unique_seq_to_set();
    assert(ps.to_set().subset_of(set_int_range(0, g * g))) by {
        assert forall|x: int| ps.to_set().contains(x) implies set_int_range(0, g * g).contains(
            x,
        ) by {
            let j = choose|j: int| 0 <= j < ps.len() && ps[j] == x;
            assert(0 <= ps[j] < g * g);
        }
    }
    lemma_int_range(0, g * g);
    lemma_len_subset(ps.to_set(), set_int_range(0, g * g));
}

/// Finds or creates the vertex of one triangle corner and returns its slot
/// in the vertex buffer.
fn resolve_vertex(
    height_map: &HeightGrid,
    vertices: &mut Vec<MeshVertex>,
    slots: &mut Vec<usize>,
    corner: Vector2u32,
    grid_size: u32,
) -> (r: u32)
    requires
        height_map.wf(),
        grid_size == height_map.spec_side_length() + 1,
        corner.x < grid_size,
        corner.y < grid_size,
        slots_inv(*height_map, old(vertices)@, old(slots)@, grid_size as int),
    ensures
        slots_inv(*height_map, final(vertices)@, final(slots)@, grid_size as int),
        old(vertices)@.len() <= final(vertices)@.len() <= old(vertices)@.len() + 1,
        forall|j: int|
            0 <= j < old(vertices)@.len() ==> final(vertices)@[j] == old(vertices)@[j],
        forall|j: int|
            old(vertices)@.len() <= j < final(vertices)@.len() ==> final(vertices)@[j]
                == vertex_at(*height_map, corner),
        r < final(vertices)@.len(),
        final(vertices)@[r as int] == vertex_at(*height_map, corner),
        (final(vertices)@.len() == old(vertices)@.len()) <==> (exists|j: int|
            0 <= j < old(vertices)@.len() && grid_of(#[trigger] old(vertices)@[j]) == corner),
{
    proof {
        lemma_vertex_count_bound(*height_map, vertices@, slots@, grid_size as int);
        assert(grid_size * grid_size <= 0x4100_0000) by (nonlinear_arith)
            requires
                grid_size <= 32769,
        ;
    }
    let vertex_errors_index = get_index(grid_size, corner);
    let slot = slots[vertex_errors_index];
    if slot != usize::MAX {
        proof {
            lemma_index_injective(grid_size as int, grid_of(vertices@[slot as int]), corner);
            assert(grid_of(vertices@[slot as int]) == corner);
        }
        slot as u32
    } else {
        proof {
            if exists|j: int|
                0 <= j < vertices@.len() && grid_of(#[trigger] vertices@[j]) == corner {
                let j = choose|j: int|
                    0 <= j < vertices@.len() && grid_of(#[trigger] vertices@[j]) == corner;
                assert(slots@[spec_index(grid_size as int, grid_of(vertices@[j]))] == j);
                assert(false);
            }
        }
        let vertex_index = vertices.len();
        slots.set(vertex_errors_index, vertex_index);
        let height = get_height(height_map, corner);
        vertices.push(MeshVertex { x: corner.x, height, z: corner.y });
        proof {
            let gi = grid_size as int;
            assert forall|j: int| 0 <= j < vertices@.len() implies grid_of(
                #[trigger] vertices@[j],
            ).x < gi && grid_of(vertices@[j]).y < gi && 0 <= spec_index(gi, grid_of(vertices@[j]))
                < slots@.len() && slots@[spec_index(gi, grid_of(vertices@[j]))] == j
                && vertices@[j] == vertex_at(*height_map, grid_of(vertices@[j])) by {
                if j < vertex_index {
                    assert(grid_of(vertices@[j]) == grid_of(old(vertices)@[j]));
                    if spec_index(gi, grid_of(vertices@[j])) == vertex_errors_index {
                        assert(old(slots)@[vertex_errors_index as int] == j);
                    }
                } else {
                    assert(grid_of(vertices@[j]) == corner);
                }
            }
        }
        vertex_index as u32
    }
}

/// Assembles the output mesh from the selected triangles: a deduplicated
/// vertex buffer and one index triple per triangle, in triangle order.
pub fn generate_mesh_data(height_map: &HeightGrid, triangles: &Vec<Triangle>) -> (r: (
    Vec<MeshVertex>,
    Vec<IndexTriple>,
))
    requires
        height_map.wf(),
        forall|k: int|
            0 <= k < triangles@.len() ==> tri_in_grid(
                #[trigger] triangles@[k],
                (height_map.spec_side_length() + 1) as nat,
            ),
    ensures
        mesh_ok(*height_map, triangles@, r.0@, r.1@),
        r.0@.len() <= (height_map.spec_side_length() + 1) * (height_map.spec_side_length() + 1),
{
    let side_length = height_map.width();
    let grid_size = side_length + 1;

    let mut vertices: Vec<MeshVertex> = Vec::new();
    let mut indices: Vec<IndexTriple> = Vec::new();

    proof {
        assert(grid_size * grid_size <= 0x4100_0000) by (nonlinear_arith)
            requires
                grid_size <= 32769,
        ;
    }
    let total = (grid_size as usize) * (grid_size as usize);
    let mut added_vertex_by_errors_index: Vec<usize> = Vec::new();
    while added_vertex_by_errors_index.len() < total
        invariant
            added_vertex_by_errors_index@.len() <= total,
            forall|p: int|
                0 <= p < added_vertex_by_errors_index@.len()
                    ==> added_vertex_by_errors_index@[p] == usize::MAX,
        decreases total - added_vertex_by_errors_index@.len(),
    {
        added_vertex_by_errors_index.push(usize::MAX);
    }

    let mut k: usize = 0;
    while k < triangles.len()
        invariant
            height_map.wf(),
            grid_size == height_map.spec_side_length() + 1,
            k <= triangles@.len(),
            forall|kk: int|
                0 <= kk < triangles@.len() ==> tri_in_grid(
                    #[trigger] triangles@[kk],
                    grid_size as nat,
                ),
            slots_inv(*height_map, vertices@, added_vertex_by_errors_index@, grid_size as int),
            indices@.len() == k,
            forall|kk: int|
                0 <= kk < indices@.len() ==> (#[trigger] indices@[kk]).a < vertices@.len()
                    && indices@[kk].b < vertices@.len() && indices@[kk].c < vertices@.len(),
            forall|kk: int|
                0 <= kk < indices@.len() ==> vertices@[(#[trigger] indices@[kk]).a as int]
                    == vertex_at(*height_map, triangles@[kk].a) && vertices@[indices@[kk].b as int]
                    == vertex_at(*height_map, triangles@[kk].b) && vertices@[indices@[kk].c as int]
                    == vertex_at(*height_map, triangles@[kk].c),
            forall|j: int|
                0 <= j < vertices@.len() ==> vertex_from_corners(
                    *height_map,
                    triangles@,
                    #[trigger] vertices@[j],
                ),
            grid_positions(vertices@) == first_occurrences(
                corner_stream(triangles@.take(k as int)),
            ),
        decreases triangles@.len() - k,
    {
        let triangle = triangles[k];
        let ghost cs0 = corner_stream(triangles@.take(k as int));
        let ghost vs0 = vertices@;

        let ia = resolve_vertex(
            height_map,
            &mut vertices,
            &mut added_vertex_by_errors_index,
            triangle.a,
            grid_size,
        );
        proof {
            lemma_dedup_step(*height_map, vs0, vertices@, cs0, triangle.a);
        }
        let ghost vs1 = vertices@;
        let ib = resolve_vertex(
            height_map,
            &mut vertices,
            &mut added_vertex_by_errors_index,
            triangle.b,
            grid_size,
        );
        proof {
            lemma_dedup_step(*height_map, vs1, vertices@, cs0.push(triangle.a), triangle.b);
        }
        let ghost vs2 = vertices@;
        let ic = resolve_vertex(
            height_map,
            &mut vertices,
            &mut added_vertex_by_errors_index,
            triangle.c,
            grid_size,
        );
        proof {
            lemma_dedup_step(
                *height_map,
                vs2,
                vertices@,
                cs0.push(triangle.a).push(triangle.b),
                triangle.c,
            );
            assert(triangles@.take(k + 1 as int).drop_last() =~= triangles@.take(k as int));
            assert(triangles@.take(k + 1 as int).last() == triangle);
            assert(corner_stream(triangles@.take(k + 1 as int)) =~= cs0.push(triangle.a).push(
                triangle.b,
            ).push(triangle.c));
        }

        indices.push(IndexTriple { a: ia, b: ib, c: ic });
        k = k + 1;
    }

    proof {
        lemma_vertex_count_bound(
            *height_map,
            vertices@,
            added_vertex_by_errors_index@,
            grid_size as int,
        );
        assert(triangles@.take(triangles@.len() as int) =~= triangles@);
        assert forall|j1: int, j2: int| 0 <= j1 < j2 < vertices@.len() implies grid_of(
            #[trigger] vertices@[j1],
        ) != grid_of(#[trigger] vertices@[j2]) by {
            if grid_of(vertices@[j1]) == grid_of(vertices@[j2]) {
                assert(added_vertex_by_errors_index@[spec_index(
                    grid_size as int,
                    grid_of(vertices@[j1]),
                )] == j1);
            }
        }
    }
    (vertices, indices)
}

} // verus!
