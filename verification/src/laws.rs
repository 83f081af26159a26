//! Crate-level properties, each stated and proved over the spec functions
//! the executable contracts use: uniform terrain collapses to the two root
//! triangles, and a zero threshold with positive recorded errors forces the
//! fully refined mesh.

use crate::error::{
    spec_error_grid, spec_index, spec_pyramid_state, spec_pyramid_step,
    spec_triangle_count, spec_triangle_error,
};
use crate::geometry::{spec_leg, spec_measure, spec_size, tri_axis, tri_diag, tri_shape};
use crate::heightmap::HeightGrid;
use crate::mesh::{grid_of, mesh_ok, vertex_at, IndexTriple, MeshVertex};
use crate::rtin::{
    lemma_walk_in_grid, spec_bisect_left, spec_bisect_right, spec_left_child_index,
    spec_midpoint, spec_right_child_index, spec_root_bottom_left, spec_root_top_right,
    spec_triangle_by_id, spec_walk, tri_in_grid, Triangle, Vector2u32,
};
use crate::u32_extensions::{lemma_msb_of_range, spec_msb};
use vstd::arithmetic::div_mod::{
    lemma_breakdown, lemma_fundamental_div_mod_converse, lemma_mod_mod,
    lemma_mod_multiples_vanish,
};
use vstd::arithmetic::power2::{
    pow2, lemma2_to64, lemma_pow2_pos, lemma_pow2_strictly_increases, lemma_pow2_unfold,
};
use vstd::bits::lemma_u32_shr_is_div;
use crate::{lemma_roots_wf, spec_extract, spec_triangles};
use crate::geometry::lemma_bisect_shape;
use vstd::prelude::*;

verus! {

/// Every elevation sample of the grid has the same value.
pub open spec fn flat_grid(hm: HeightGrid) -> bool {
    forall|p: int|
        0 <= p < hm.spec_samples().len() ==> (#[trigger] hm.spec_samples()[p])
            == hm.spec_samples()[0]
}

/// On a flat grid every sample lookup gives the common value.
proof fn lemma_flat_sample(hm: HeightGrid, x: int, y: int)
    requires
        hm.wf(),
        flat_grid(hm),
        0 <= x,
        0 <= y,
    ensures
        hm.spec_sample(x, y) == hm.spec_samples()[0],
{
    let side = hm.spec_side_length() as int;
    let cx = if x >= side {
        side - 1
    } else {
        x
    };
    let cy = if y >= side {
        side - 1
    } else {
        y
    };
    assert(0 <= cy * side + cx < side * side) by (nonlinear_arith)
        requires
            0 <= cx < side,
            0 <= cy < side,
    ;
}

/// On a flat grid every triangle's interpolation error is zero.
proof fn lemma_flat_triangle_error(hm: HeightGrid, t: Triangle)
    requires
        hm.wf(),
        flat_grid(hm),
    ensures
        spec_triangle_error(hm, t) == 0,
{
    lemma_flat_sample(hm, t.a.x as int, t.a.y as int);
    lemma_flat_sample(hm, t.b.x as int, t.b.y as int);
    let m = spec_midpoint(t);
    lemma_flat_sample(hm, m.x as int, m.y as int);
}

/// Every intermediate pyramid state of a flat grid is all zero.
proof fn lemma_flat_pyramid_state(hm: HeightGrid, k: nat)
    requires
        hm.wf(),
        flat_grid(hm),
    ensures
        spec_pyramid_state(hm, k).len() == (hm.spec_side_length() + 1) * (hm.spec_side_length()
            + 1),
        forall|j: int|
            0 <= j < spec_pyramid_state(hm, k).len() ==> (#[trigger] spec_pyramid_state(hm, k)[j])
                == 0,
    decreases k,
{
    if k > 0 {
        lemma_flat_pyramid_state(hm, (k - 1) as nat);
        let side = hm.spec_side_length() as nat;
        let index = spec_triangle_count(side) - k;
        let st = spec_pyramid_state(hm, (k - 1) as nat);
        let g = ((side + 1) as u32);
        let t = spec_triangle_by_id(((index + 2) as u32), g);
        lemma_flat_triangle_error(hm, t);
        lemma_walk_in_grid(((index + 2) as u32), g, (crate::u32_extensions::spec_msb(
            (((index + 2) as u32)) as nat,
        ) - 2) as nat);
        let m = spec_midpoint(t);
        lemma_midpoint_index_bounded(t, side, g);
        let lt = spec_triangle_by_id(
            (crate::rtin::spec_left_child_index(index + 2) as u32),
            g,
        );
        let rt = spec_triangle_by_id(
            (crate::rtin::spec_right_child_index(index + 2) as u32),
            g,
        );
        lemma_midpoint_index_bounded(lt, side, g);
        lemma_midpoint_index_bounded(rt, side, g);
        assert(spec_pyramid_state(hm, k) == spec_pyramid_step(hm, st, index));
    }
}

/// Any triangle addressed by an id has its midpoint index inside the flat
/// error grid.
proof fn lemma_midpoint_index_bounded(t: Triangle, side: nat, g: u32)
    requires
        g == side + 1,
        side >= 1,
        exists|id: u32| t == spec_triangle_by_id(id, g),
    ensures
        0 <= spec_index(g as int, spec_midpoint(t)) < (side + 1) * (side + 1),
{
    let id = choose|id: u32| t == spec_triangle_by_id(id, g);
    lemma_walk_in_grid(id, g, (crate::u32_extensions::spec_msb(id as nat) - 2) as nat);
    let m = spec_midpoint(t);
    assert(m.x < side + 1 && m.y < side + 1);
    assert(0 <= m.y * ((side + 1) as int) + m.x < (side + 1) * (side + 1)) by (nonlinear_arith)
        requires
            m.x < side + 1,
            m.y < side + 1,
    ;
    assert(spec_index(g as int, m) == m.y * ((side + 1) as int) + m.x);
}

/// Flat terrain, part one: on a flat grid the whole error pyramid is zero.
pub proof fn lemma_flat_error_grid(hm: HeightGrid)
    requires
        hm.wf(),
        flat_grid(hm),
    ensures
        forall|j: int|
            0 <= j < spec_error_grid(hm).len() ==> (#[trigger] spec_error_grid(hm)[j]) == 0,
{
    let side = hm.spec_side_length() as nat;
    lemma_flat_pyramid_state(hm, spec_triangle_count(side) as nat);
}

/// Flat terrain, part two: with an all-zero error grid, extraction at any
/// threshold emits exactly the two root triangles, bottom-left first.
pub proof fn lemma_zero_errors_extract_roots(errors: Seq<u32>, grid_size: u32, threshold: u32)
    requires
        3 <= grid_size <= 0x8001,
        crate::u32_extensions::spec_is_pow2((grid_size - 1) as nat),
        errors.len() == grid_size * grid_size,
        forall|j: int| 0 <= j < errors.len() ==> (#[trigger] errors[j]) == 0,
    ensures
        spec_triangles(errors, grid_size, threshold) == seq![
            spec_root_bottom_left(grid_size),
            spec_root_top_right(grid_size),
        ],
{
    lemma_roots_wf(grid_size);
    let bl = spec_root_bottom_left(grid_size);
    let tr = spec_root_top_right(grid_size);
    lemma_extract_stops(bl, errors, grid_size, threshold);
    lemma_extract_stops(tr, errors, grid_size, threshold);
    assert(spec_triangles(errors, grid_size, threshold) =~= seq![bl, tr]);
}

/// A triangle whose recorded midpoint error is zero is emitted unchanged.
proof fn lemma_extract_stops(t: Triangle, errors: Seq<u32>, grid_size: u32, threshold: u32)
    requires
        tri_shape(t),
        tri_in_grid(t, grid_size as nat),
        grid_size >= 1,
        errors.len() == grid_size * grid_size,
        forall|j: int| 0 <= j < errors.len() ==> (#[trigger] errors[j]) == 0,
    ensures
        spec_extract(t, errors, grid_size, threshold) == seq![t],
{
    let m = spec_midpoint(t);
    assert(0 <= m.y * (grid_size as int) + m.x < grid_size * grid_size) by (nonlinear_arith)
        requires
            m.x < grid_size,
            m.y < grid_size,
            grid_size >= 1,
    ;
    assert(errors[spec_index(grid_size as int, m)] == 0);
}

/// Flat terrain, part three: a mesh assembled from the two root triangles
/// has exactly four vertices and two index triples.
pub proof fn lemma_two_roots_mesh_counts(
    hm: HeightGrid,
    vs: Seq<MeshVertex>,
    ix: Seq<IndexTriple>,
    grid_size: u32,
)
    requires
        hm.wf(),
        grid_size == hm.spec_side_length() + 1,
        mesh_ok(
            hm,
            seq![spec_root_bottom_left(grid_size), spec_root_top_right(grid_size)],
            vs,
            ix,
        ),
    ensures
        ix.len() == 2,
        vs.len() == 4,
{
    let ts = seq![spec_root_bottom_left(grid_size), spec_root_top_right(grid_size)];
    let s = (grid_size - 1) as u32;
    let p1 = Vector2u32 { x: s, y: s };
    let p2 = Vector2u32 { x: 0, y: 0 };
    let p3 = Vector2u32 { x: 0, y: s };
    let p4 = Vector2u32 { x: s, y: 0 };
    assert(ts[0].a == p1 && ts[0].b == p2 && ts[0].c == p3);
    assert(ts[1].a == p2 && ts[1].b == p1 && ts[1].c == p4);

    // the four corner vertices are present and pairwise distinct
    assert(vs[ix[0].a as int] == vertex_at(hm, p1));
    assert(vs[ix[0].b as int] == vertex_at(hm, p2));
    assert(vs[ix[0].c as int] == vertex_at(hm, p3));
    assert(vs[ix[1].c as int] == vertex_at(hm, p4));
    assert(grid_of(vertex_at(hm, p1)) == p1);
    assert(grid_of(vertex_at(hm, p2)) == p2);
    assert(grid_of(vertex_at(hm, p3)) == p3);
    assert(grid_of(vertex_at(hm, p4)) == p4);
    assert(vs.len() >= 4);

    // and no fifth vertex can exist: each vertex is one of those four
    if vs.len() >= 5 {
        assert(crate::mesh::vertex_from_corners(hm, ts, vs[0]));
        assert(crate::mesh::vertex_from_corners(hm, ts, vs[1]));
        assert(crate::mesh::vertex_from_corners(hm, ts, vs[2]));
        assert(crate::mesh::vertex_from_corners(hm, ts, vs[3]));
        assert(crate::mesh::vertex_from_corners(hm, ts, vs[4]));
        assert(false);
    }
}

/// Along the subtree of `t`, the recorded error at the midpoint of every
/// subdividable triangle is positive.
pub open spec fn errors_positive_below(t: Triangle, errors: Seq<u32>, grid_size: u32) -> bool
    decreases spec_measure(t)
        when tri_shape(t)
        via errors_positive_below_decreases
{
    if spec_size(t) > 1 {
        &&& errors[spec_index(grid_size as int, spec_midpoint(t))] > 0
        &&& errors_positive_below(spec_bisect_left(t), errors, grid_size)
        &&& errors_positive_below(spec_bisect_right(t), errors, grid_size)
    } else {
        true
    }
}

#[via_fn]
proof fn errors_positive_below_decreases(t: Triangle, errors: Seq<u32>, grid_size: u32) {
    if spec_size(t) > 1 {
        lemma_bisect_shape(t);
    }
}

/// Zero threshold: wherever the recorded errors are positive, extraction at
/// threshold zero subdivides down to minimal triangles, yielding the square
/// of the leg extent many triangles below an axis-aligned triangle and half
/// the squared size below a diagonal one.
pub proof fn lemma_zero_threshold_count(t: Triangle, errors: Seq<u32>, grid_size: u32)
    requires
        tri_shape(t),
        errors_positive_below(t, errors, grid_size),
    ensures
        tri_axis(t) ==> spec_extract(t, errors, grid_size, 0).len() == spec_size(t) * spec_size(
            t,
        ),
        tri_diag(t) ==> 2 * spec_extract(t, errors, grid_size, 0).len() == spec_size(t)
            * spec_size(t),
    decreases spec_measure(t),
{
    let e = errors[spec_index(grid_size as int, spec_midpoint(t))];
    if spec_size(t) > 1 {
        assert(e > 0);
        lemma_bisect_shape(t);
        let l = spec_bisect_left(t);
        let r = spec_bisect_right(t);
        lemma_zero_threshold_count(l, errors, grid_size);
        lemma_zero_threshold_count(r, errors, grid_size);
        let n = spec_extract(t, errors, grid_size, 0).len();
        let nl = spec_extract(l, errors, grid_size, 0).len();
        let nr = spec_extract(r, errors, grid_size, 0).len();
        assert(n == nl + nr);
        if tri_axis(t) {
            // two diagonal children whose size equals this triangle's size
            let d = spec_size(t);
            assert(2 * nl == d * d && 2 * nr == d * d);
        } else {
            // two axis-aligned children of half this size
            let d = spec_size(t);
            let h = spec_size(l);
            assert(d == 2 * h);
            assert(nl == h * h && nr == h * h);
            assert(2 * (h * h + h * h) == (2 * h) * (2 * h)) by (nonlinear_arith);
        }
    } else {
        // only an axis-aligned triangle can reach the minimal size
        assert(tri_axis(t));
        assert(spec_size(t) == 1) by {
            crate::u32_extensions::lemma_is_pow2_as_pow2(spec_leg(t) as nat);
        }
    }
}

/// Zero threshold for the whole grid: with positive errors below both
/// roots, the refinement at threshold zero emits the fully refined mesh of
/// `2 * sideLength * sideLength` triangles.
pub proof fn lemma_zero_threshold_full(errors: Seq<u32>, grid_size: u32)
    requires
        3 <= grid_size <= 0x8001,
        crate::u32_extensions::spec_is_pow2((grid_size - 1) as nat),
        errors_positive_below(spec_root_bottom_left(grid_size), errors, grid_size),
        errors_positive_below(spec_root_top_right(grid_size), errors, grid_size),
    ensures
        spec_triangles(errors, grid_size, 0).len() == 2 * ((grid_size - 1) * (grid_size - 1)),
{
    lemma_roots_wf(grid_size);
    lemma_zero_threshold_count(spec_root_bottom_left(grid_size), errors, grid_size);
    lemma_zero_threshold_count(spec_root_top_right(grid_size), errors, grid_size);
}

/// The triangle reached from `t` by a sequence of bisections, `true`
/// stepping left.
pub open spec fn spec_descend(t: Triangle, path: Seq<bool>) -> Triangle
    decreases path.len(),
{
    if path.len() == 0 {
        t
    } else if path.last() {
        spec_bisect_left(spec_descend(t, path.drop_last()))
    } else {
        spec_bisect_right(spec_descend(t, path.drop_last()))
    }
}

/// The bit pattern a descent path contributes to its triangle's lookup id:
/// bit `i` set exactly when step `i` went left.
pub open spec fn spec_path_bits(path: Seq<bool>) -> nat
    decreases path.len(),
{
    if path.len() == 0 {
        0
    } else {
        spec_path_bits(path.drop_last()) + if path.last() {
            pow2(path.len())
        } else {
            0
        }
    }
}

/// Path bits occupy bit positions 1 through the path length.
proof fn lemma_path_bits_bound(path: Seq<bool>)
    ensures
        spec_path_bits(path) <= pow2(path.len() + 1) - 2,
    decreases path.len(),
{
    lemma_pow2_unfold(path.len() + 1);
    if path.len() == 0 {
        lemma2_to64();
    } else {
        lemma_path_bits_bound(path.drop_last());
    }
}

/// Reading one bit of a value from its arithmetic decomposition.
proof fn lemma_bit_select(x: u32, i: u32, a: nat, b: bool, c: nat)
    requires
        i <= 31,
        x as nat == a * pow2((i + 1) as nat) + (if b {
            pow2(i as nat)
        } else {
            0
        }) + c,
        c < pow2(i as nat),
    ensures
        (x & (1u32 << i) > 0) == b,
{
    lemma_pow2_pos(i as nat);
    lemma_pow2_unfold((i + 1) as nat);
    let d = pow2(i as nat) as int;
    let bbit: int = if b {
        1
    } else {
        0
    };
    let q = 2 * (a as int) + bbit;
    assert(x as int == q * d + c) by (nonlinear_arith)
        requires
            x as nat == a * pow2((i + 1) as nat) + (if b {
                pow2(i as nat)
            } else {
                0
            }) + c,
            pow2((i + 1) as nat) == 2 * pow2(i as nat),
            d == pow2(i as nat) as int,
            q == 2 * (a as int) + bbit,
            bbit == (if b {
                1int
            } else {
                0
            }),
    ;
    lemma_fundamental_div_mod_converse(x as int, d, q, c as int);
    lemma_u32_shr_is_div(x, i);
    assert(x as nat / pow2(i as nat) < 0x1_0000_0000);
    assert((x >> i) as int == q);
    lemma_mod_multiples_vanish(a as int, bbit, 2);
    assert(q % 2 == bbit);
    assert((x >> i) & 1u32 == (x >> i) % 2u32) by (bit_vector);
    assert((x & (1u32 << i) != 0) == ((x >> i) & 1u32 == 1u32)) by (bit_vector)
        requires
            i <= 31u32,
    ;
}

/// The bit walk only looks at the bits up to its depth: two ids that agree
/// there resolve identically to that depth.
proof fn lemma_walk_low_bits(x1: u32, x2: u32, grid_size: u32, i: nat)
    requires
        i <= 30,
        (x1 as nat) % pow2(i + 1) == (x2 as nat) % pow2(i + 1),
    ensures
        spec_walk(x1, grid_size, i) == spec_walk(x2, grid_size, i),
    decreases i,
{
    if i == 0 {
        lemma2_to64();
        assert(x1 & 1u32 == x1 % 2u32) by (bit_vector);
        assert(x2 & 1u32 == x2 % 2u32) by (bit_vector);
    } else {
        lemma_pow2_pos(i);
        lemma_pow2_unfold(i + 1);
        let d = pow2(i) as int;
        assert(d * 2 == pow2(i + 1) as int);
        let q1 = ((x1 as int) / d) % 2;
        let q2 = ((x2 as int) / d) % 2;
        let r1 = (x1 as int) % d;
        let r2 = (x2 as int) % d;
        assert((x1 as int) % (d * 2) == d * q1 + r1) by {
            lemma_breakdown(x1 as int, d, 2);
        }
        assert((x2 as int) % (d * 2) == d * q2 + r2) by {
            lemma_breakdown(x2 as int, d, 2);
        }
        assert(0 <= q1 < 2 && 0 <= q2 < 2) by {
            vstd::arithmetic::div_mod::lemma_mod_division_less_than_divisor(
                (x1 as int) / d,
                2,
            );
            vstd::arithmetic::div_mod::lemma_mod_division_less_than_divisor(
                (x2 as int) / d,
                2,
            );
        }
        assert(0 <= r1 < d && 0 <= r2 < d) by {
            vstd::arithmetic::div_mod::lemma_mod_division_less_than_divisor(x1 as int, d);
            vstd::arithmetic::div_mod::lemma_mod_division_less_than_divisor(x2 as int, d);
        }
        assert(d * q1 + r1 == d * q2 + r2);
        assert(q1 == q2 && r1 == r2) by (nonlinear_arith)
            requires
                d * q1 + r1 == d * q2 + r2,
                0 <= q1 < 2,
                0 <= q2 < 2,
                0 <= r1 < d,
                0 <= r2 < d,
        ;
        assert((x1 as nat) % pow2(i) == (x2 as nat) % pow2(i));
        lemma_walk_low_bits(x1, x2, grid_size, (i - 1) as nat);
        let iu: u32 = i as u32;
        lemma_u32_shr_is_div(x1, iu);
        lemma_u32_shr_is_div(x2, iu);
        assert((x1 >> iu) % 2u32 == (x1 >> iu) & 1u32) by (bit_vector);
        assert((x2 >> iu) % 2u32 == (x2 >> iu) & 1u32) by (bit_vector);
        assert((x1 & (1u32 << iu) != 0) == ((x1 >> iu) & 1u32 == 1u32)) by (bit_vector)
            requires
                iu <= 31u32,
        ;
        assert((x2 & (1u32 << iu) != 0) == ((x2 >> iu) & 1u32 == 1u32)) by (bit_vector)
            requires
                iu <= 31u32,
        ;
        assert((x1 & (1u32 << iu) > 0) == (x2 & (1u32 << iu) > 0));
    }
}

/// Addressing round-trip: the triangle reached from a root by any sequence
/// of bisections is recovered, corners and id alike, by the id lookup on
/// its encoded id; a left step sets the bit at its level.  Looking up
/// `id + 1` below the bottom-left root and `id + 3` below the top-right
/// root undoes the constant offset between the two id spaces.
pub proof fn lemma_addressing_round_trip(grid_size: u32, top_right: bool, path: Seq<bool>)
    requires
        path.len() <= 28,
    ensures
        ({
            let r = if top_right {
                spec_root_top_right(grid_size)
            } else {
                spec_root_bottom_left(grid_size)
            };
            let t = spec_descend(r, path);
            &&& t.id + 2 == pow2(path.len() + 1) + spec_path_bits(path) + (if top_right {
                0nat
            } else {
                1nat
            })
            &&& spec_triangle_by_id(
                ((t.id + (if top_right {
                    3nat
                } else {
                    1nat
                })) as u32),
                grid_size,
            ) == t
        }),
    decreases path.len(),
{
    let r = if top_right {
        spec_root_top_right(grid_size)
    } else {
        spec_root_bottom_left(grid_size)
    };
    let t = spec_descend(r, path);
    let l = path.len();
    let par: nat = if top_right {
        1
    } else {
        0
    };
    lemma_path_bits_bound(path);
    assert(pow2(0) == 1 && pow2(1) == 2 && pow2(2) == 4 && pow2(29) == 0x2000_0000 && pow2(30)
        == 0x4000_0000) by {
        lemma2_to64();
    }
    if l + 2 < 30 {
        lemma_pow2_strictly_increases(l + 2, 30);
    }
    lemma_pow2_unfold(l + 1);
    lemma_pow2_unfold(l + 2);

    if l == 0 {
        assert(t == r);
        assert(t.id + 2 == pow2(1) + spec_path_bits(path) + (1 - par));
        let x = ((t.id + (if top_right {
            3nat
        } else {
            1nat
        })) as u32);
        assert(x as nat == 2 + par);
        assert(spec_msb(0nat) == 0);
        assert(spec_msb(1nat) == 1);
        assert(spec_msb(x as nat) == 2);
        lemma_bit_select(x, 0, 1, top_right, 0);
        assert(1u32 << 0u32 == 1u32) by (bit_vector);
        assert((x & 1u32 > 0) == top_right);
        assert(spec_triangle_by_id(x, grid_size) == spec_walk(x, grid_size, 0));
    } else {
        let prefix = path.drop_last();
        lemma_addressing_round_trip(grid_size, top_right, prefix);
        lemma_path_bits_bound(prefix);
        let tp = spec_descend(r, prefix);
        let np = (tp.id + 2) as nat;
        assert(np == pow2(l) + spec_path_bits(prefix) + (1 - par));
        // the parent id sits exactly at level l - 1
        lemma_pow2_unfold(l);
        assert(pow2(l) <= np < pow2(l + 1));
        lemma_msb_of_range(np, l);
        assert(spec_msb(np) == l + 1);
        lemma_pow2_pos(l);

        // the child id adds the top-bit weight, plus the level weight on
        // the left side
        let pl = path.last();
        assert(t == if pl {
            spec_bisect_left(tp)
        } else {
            spec_bisect_right(tp)
        });
        assert(spec_left_child_index(tp.id as int) == tp.id + pow2(l + 1));
        assert(spec_right_child_index(tp.id as int) == tp.id + pow2(l + 1) - pow2(l));
        assert(t.id + 2 == pow2(l + 1) + spec_path_bits(path) + (1 - par));

        // the lookup id of the child agrees with the parent's on the low
        // bits and carries the step at bit l
        let x = ((t.id + (if top_right {
            3nat
        } else {
            1nat
        })) as u32);
        let xp = ((tp.id + (if top_right {
            3nat
        } else {
            1nat
        })) as u32);
        assert(x as nat == pow2(l + 1) + spec_path_bits(path) + par);
        assert(xp as nat == pow2(l) + spec_path_bits(prefix) + par);
        assert(x as nat == xp as nat + (if pl {
            2nat
        } else {
            1nat
        }) * pow2(l)) by (nonlinear_arith)
            requires
                x as nat == pow2(l + 1) + spec_path_bits(path) + par,
                xp as nat == pow2(l) + spec_path_bits(prefix) + par,
                pow2(l + 1) == 2 * pow2(l),
                spec_path_bits(path) == spec_path_bits(prefix) + (if pl {
                    pow2(l)
                } else {
                    0nat
                }),
        ;
        lemma_mod_multiples_vanish(
            if pl {
                2int
            } else {
                1int
            },
            xp as int,
            pow2(l) as int,
        );
        assert((x as nat) % pow2(l) == (xp as nat) % pow2(l));
        lemma_walk_low_bits(x, xp, grid_size, (l - 1) as nat);

        // bit l of the lookup id is the final step's direction
        lemma_bit_select(
            x,
            l as u32,
            1,
            pl,
            spec_path_bits(prefix) + par,
        );

        // both lookups resolve at their own levels
        assert(pow2(l + 1) <= (x as nat) && (x as nat) < pow2(l + 2));
        lemma_msb_of_range(x as nat, l + 1);
        assert(spec_msb(x as nat) == l + 2);
        assert(spec_msb(xp as nat) == l + 1) by {
            lemma_msb_of_range(xp as nat, l);
        }
        assert(spec_triangle_by_id(x, grid_size) == spec_walk(x, grid_size, l));
        assert(spec_triangle_by_id(xp, grid_size) == spec_walk(xp, grid_size, (l - 1) as nat));
        assert(spec_walk(x, grid_size, (l - 1) as nat) == spec_walk(
            xp,
            grid_size,
            (l - 1) as nat,
        ));
        assert(spec_walk(x, grid_size, l) == t);
    }
}

} // verus!
