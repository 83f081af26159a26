//! Right-triangulated irregular network (RTIN) terrain simplification.
//!
//! The crate turns a square, power-of-two-sized grid of elevation samples
//! into an adaptive triangle mesh: an implicit binary tree addresses right
//! isoceles triangles by integer ids, an error pyramid propagates
//! interpolation errors from the finest triangles towards the roots, and an
//! adaptive refinement pass emits the triangles whose error is acceptable,
//! which are then assembled into a deduplicated vertex/index mesh.
//!
//! Elevations are unsigned 16-bit samples; all error values are kept in
//! doubled sample units (`|h(a) + h(b) - 2 * h(mid)|`), so the whole
//! pipeline is exact integer arithmetic.

use vstd::arithmetic::power2::pow2;
use vstd::prelude::*;

pub mod error;
pub mod geometry;
pub mod heightmap;
pub mod laws;
pub mod mesh;
pub mod rtin;
pub mod u32_extensions;

use error::{get_index, spec_index};
use geometry::{lemma_bisect_shape, spec_leg, spec_measure, spec_size, tri_axis, tri_shape};
use heightmap::HeightGrid;
use rtin::{
    generate_bottom_left_triangle, generate_left_triangle, generate_right_triangle,
    generate_top_right_triangle, spec_bisect_left, spec_bisect_right, spec_midpoint,
    spec_root_bottom_left, spec_root_top_right, tri_in_grid, Triangle, Vector2u32,
};
use u32_extensions::{lemma_msb_bounds, spec_is_pow2, spec_msb, subtract_abs};

verus! {

/// Ties a triangle's id to its geometry: the power of two at the id's top
/// bit, weighted by the squared leg extent, is constant over each family.
/// This bounds every id met during refinement within 32-bit range.
pub open spec fn tri_id_inv(t: Triangle, side: nat) -> bool {
    let n = (t.id + 2) as nat;
    if tri_axis(t) {
        pow2(spec_msb(n)) * spec_leg(t) * spec_leg(t) == 4 * (side * side)
    } else {
        pow2(spec_msb(n)) * spec_leg(t) * spec_leg(t) == 2 * (side * side)
    }
}

/// The triangles the refinement emits below `t`: where the triangle is
/// larger than minimal and the recorded error at its hypotenuse midpoint
/// exceeds the threshold, it is replaced by its two bisection children,
/// left first; otherwise it is emitted as it stands.
pub open spec fn spec_extract(t: Triangle, errors: Seq<u32>, grid_size: u32, threshold: u32)
    -> Seq<Triangle>
    decreases spec_measure(t)
        when tri_shape(t)
        via spec_extract_decreases
{
    let e = errors[spec_index(grid_size as int, spec_midpoint(t))];
    if spec_size(t) > 1 && e > threshold {
        spec_extract(spec_bisect_left(t), errors, grid_size, threshold) + spec_extract(
            spec_bisect_right(t),
            errors,
            grid_size,
            threshold,
        )
    } else {
        seq![t]
    }
}

#[via_fn]
proof fn spec_extract_decreases(t: Triangle, errors: Seq<u32>, grid_size: u32, threshold: u32) {
    let e = errors[spec_index(grid_size as int, spec_midpoint(t))];
    if spec_size(t) > 1 && e > threshold {
        lemma_bisect_shape(t);
    }
}

/// Bisection preserves the id/geometry invariant, and under it every id met
/// while a triangle can still be bisected stays in 32-bit range.
pub proof fn lemma_id_inv_child(t: Triangle, side: nat)
    requires
        tri_shape(t),
        spec_size(t) > 1,
        tri_id_inv(t, side),
        2 <= side <= 32768,
    ensures
        t.id < 0x7fff_fffe,
        tri_id_inv(spec_bisect_left(t), side),
        tri_id_inv(spec_bisect_right(t), side),
{
    lemma_bisect_shape(t);
    let n = (t.id + 2) as nat;
    let m = spec_msb(n);
    let leg = spec_leg(t);
    assert(side * side <= 0x4000_0000) by (nonlinear_arith)
        requires
            side <= 32768,
    ;
    assert(leg >= 1) by {
        u32_extensions::lemma_is_pow2_as_pow2(leg as nat);
    }
    // the id stays below the 32-bit child-arithmetic bound
    if tri_axis(t) {
        assert(leg >= 2);
        assert(pow2(m) <= side * side) by (nonlinear_arith)
            requires
                pow2(m) * leg * leg == 4 * (side * side),
                leg >= 2,
                side >= 2,
        ;
    } else {
        assert(pow2(m) <= 2 * (side * side)) by (nonlinear_arith)
            requires
                pow2(m) * leg * leg == 2 * (side * side),
                leg >= 1,
                side >= 2,
        ;
    }
    assert(pow2(31) == 0x8000_0000) by {
        vstd::arithmetic::power2::lemma2_to64();
    }
    lemma_msb_bounds(n);
    assert(m <= 31) by {
        if m > 31 {
            vstd::arithmetic::power2::lemma_pow2_strictly_increases(31, m);
        }
    }
    assert(n < 0x8000_0000) by {
        if m < 31 {
            vstd::arithmetic::power2::lemma_pow2_strictly_increases(m, 31);
        }
    }

    // the children satisfy the invariant one level down
    rtin::lemma_child_msb(t.id as int);
    let l = spec_bisect_left(t);
    let r = spec_bisect_right(t);
    assert(l.id == rtin::spec_left_child_index(t.id as int));
    assert(r.id == rtin::spec_right_child_index(t.id as int));
    assert(spec_msb((l.id + 2) as nat) == m + 1);
    assert(spec_msb((r.id + 2) as nat) == m + 1);
    vstd::arithmetic::power2::lemma_pow2_unfold((m + 1) as nat);
    if tri_axis(t) {
        let h = spec_leg(t) / 2;
        assert(2 * h == leg);
        assert(pow2((m + 1) as nat) * h * h == 2 * (side * side)) by (nonlinear_arith)
            requires
                pow2(m) * leg * leg == 4 * (side * side),
                pow2((m + 1) as nat) == 2 * pow2(m),
                leg == 2 * h,
        ;
    } else {
        assert(pow2((m + 1) as nat) * leg * leg == 4 * (side * side)) by (nonlinear_arith)
            requires
                pow2(m) * leg * leg == 2 * (side * side),
                pow2((m + 1) as nat) == 2 * pow2(m),
        ;
    }
}

/// Every triangle of the refinement output keeps its corners in the grid
/// and its shape in the bisection scheme.
pub proof fn lemma_extract_elements(t: Triangle, errors: Seq<u32>, grid_size: u32, threshold: u32)
    requires
        tri_shape(t),
        tri_in_grid(t, grid_size as nat),
        grid_size >= 1,
    ensures
        forall|k: int|
            0 <= k < spec_extract(t, errors, grid_size, threshold).len() ==> tri_in_grid(
                #[trigger] spec_extract(t, errors, grid_size, threshold)[k],
                grid_size as nat,
            ) && tri_shape(spec_extract(t, errors, grid_size, threshold)[k]),
        spec_extract(t, errors, grid_size, threshold).len() >= 1,
    decreases spec_measure(t),
{
    let e = errors[spec_index(grid_size as int, spec_midpoint(t))];
    if spec_size(t) > 1 && e > threshold {
        lemma_bisect_shape(t);
        lemma_extract_elements(spec_bisect_left(t), errors, grid_size, threshold);
        lemma_extract_elements(spec_bisect_right(t), errors, grid_size, threshold);
    }
}

/// Adaptive refinement below one triangle: appends `spec_extract` of the
/// triangle to the output list.
pub fn populate_triangle_ids(
    error_threshold: u32,
    errors: &Vec<u32>,
    triangles: &mut Vec<Triangle>,
    grid_size: u32,
    triangle: Triangle,
)
    requires
        2 <= grid_size <= 0x8001,
        tri_shape(triangle),
        tri_in_grid(triangle, grid_size as nat),
        tri_id_inv(triangle, (grid_size - 1) as nat),
        errors@.len() == grid_size * grid_size,
    ensures
        final(triangles)@ == old(triangles)@ + spec_extract(
            triangle,
            errors@,
            grid_size,
            error_threshold,
        ),
    decreases spec_measure(triangle),
{
    let midpoint = Vector2u32 {
        x: (triangle.a.x + triangle.b.x) / 2,
        y: (triangle.a.y + triangle.b.y) / 2,
    };

    let a_side_length = subtract_abs(triangle.a.x, triangle.c.x);
    let b_side_length = subtract_abs(triangle.a.y, triangle.c.y);
    let triangle_size = a_side_length + b_side_length;

    let error_vector_index = get_index(grid_size, midpoint);
    let error = errors[error_vector_index];

    if triangle_size > 1 && error > error_threshold {
        proof {
            lemma_bisect_shape(triangle);
            lemma_id_inv_child(triangle, (grid_size - 1) as nat);
        }
        let ghost before = triangles@;
        let left = generate_left_triangle(triangle);
        populate_triangle_ids(error_threshold, errors, triangles, grid_size, left);

        let right = generate_right_triangle(triangle);
        populate_triangle_ids(error_threshold, errors, triangles, grid_size, right);

        proof {
            let ls = spec_extract(spec_bisect_left(triangle), errors@, grid_size, error_threshold);
            let rs = spec_extract(
                spec_bisect_right(triangle),
                errors@,
                grid_size,
                error_threshold,
            );
            assert(triangles@ =~= before + (ls + rs));
        }
    } else {
        triangles.push(triangle);
        proof {
            assert(triangles@ =~= old(triangles)@ + seq![triangle]);
        }
    }
}

/// The refinement output for a whole error grid: the triangles extracted
/// below the bottom-left root followed by those below the top-right root.
pub open spec fn spec_triangles(errors: Seq<u32>, grid_size: u32, threshold: u32) -> Seq<
    Triangle,
> {
    spec_extract(spec_root_bottom_left(grid_size), errors, grid_size, threshold) + spec_extract(
        spec_root_top_right(grid_size),
        errors,
        grid_size,
        threshold,
    )
}

/// The two root triangles satisfy the shape and id invariants.
pub proof fn lemma_roots_wf(grid_size: u32)
    requires
        3 <= grid_size <= 0x8001,
        spec_is_pow2((grid_size - 1) as nat),
    ensures
        tri_shape(spec_root_bottom_left(grid_size)),
        tri_shape(spec_root_top_right(grid_size)),
        tri_axis(spec_root_bottom_left(grid_size)),
        tri_axis(spec_root_top_right(grid_size)),
        tri_in_grid(spec_root_bottom_left(grid_size), grid_size as nat),
        tri_in_grid(spec_root_top_right(grid_size), grid_size as nat),
        tri_id_inv(spec_root_bottom_left(grid_size), (grid_size - 1) as nat),
        tri_id_inv(spec_root_top_right(grid_size), (grid_size - 1) as nat),
        spec_size(spec_root_bottom_left(grid_size)) == grid_size - 1,
        spec_size(spec_root_top_right(grid_size)) == grid_size - 1,
{
    let side = (grid_size - 1) as nat;
    let bl = spec_root_bottom_left(grid_size);
    let tr = spec_root_top_right(grid_size);
    assert(spec_msb(0nat) == 0);
    assert(spec_msb(1nat) == 1);
    assert(spec_msb(2nat) == 2);
    assert(spec_msb(3nat) == 2);
    assert(spec_leg(bl) == side && spec_leg(tr) == side);
    assert(pow2(2) == 4) by {
        vstd::arithmetic::power2::lemma2_to64();
    }
    assert(pow2(2) * (side as int) * (side as int) == 4 * (side * side)) by (nonlinear_arith)
        requires
            pow2(2) == 4,
    ;
}

/// Adaptive mesh extraction: walks both root triangles and collects every
/// triangle whose error is at or below the threshold, or which is already
/// minimal.
pub fn get_triangles(error_threshold: u32, errors: &Vec<u32>, grid_size: u32) -> (r: Vec<
    Triangle,
>)
    requires
        3 <= grid_size <= 0x8001,
        spec_is_pow2((grid_size - 1) as nat),
        errors@.len() == grid_size * grid_size,
    ensures
        r@ == spec_triangles(errors@, grid_size, error_threshold),
{
    let mut triangles = Vec::<Triangle>::new();

    proof {
        lemma_roots_wf(grid_size);
    }

    populate_triangle_ids(
        error_threshold,
        errors,
        &mut triangles,
        grid_size,
        generate_bottom_left_triangle(grid_size),
    );

    populate_triangle_ids(
        error_threshold,
        errors,
        &mut triangles,
        grid_size,
        generate_top_right_triangle(grid_size),
    );

    proof {
        assert(triangles@ =~= spec_triangles(errors@, grid_size, error_threshold));
    }
    triangles
}

/// Every triangle the extraction emits has its corners inside the vertex
/// grid, as mesh assembly requires.
pub proof fn lemma_triangles_in_grid(errors: Seq<u32>, grid_size: u32, threshold: u32)
    requires
        3 <= grid_size <= 0x8001,
        spec_is_pow2((grid_size - 1) as nat),
    ensures
        forall|k: int|
            0 <= k < spec_triangles(errors, grid_size, threshold).len() ==> tri_in_grid(
                #[trigger] spec_triangles(errors, grid_size, threshold)[k],
                grid_size as nat,
            ),
{
    lemma_roots_wf(grid_size);
    lemma_extract_elements(spec_root_bottom_left(grid_size), errors, grid_size, threshold);
    lemma_extract_elements(spec_root_top_right(grid_size), errors, grid_size, threshold);
}

/// Builds the error pyramid of a height grid; the grid's validity is the
/// only precondition of the whole pipeline.
pub fn get_errors(height_map: &HeightGrid) -> (r: Vec<u32>)
    requires
        height_map.wf(),
    ensures
        r@ == error::spec_error_grid(*height_map),
        r@.len() == (height_map.spec_side_length() + 1) * (height_map.spec_side_length() + 1),
{
    error::generate(height_map)
}

/// The whole pipeline: error pyramid, adaptive refinement at the given
/// threshold, and mesh assembly with vertex deduplication.
pub fn generate_mesh_with_rtin(height_map: &HeightGrid, error_threshold: u32) -> (r: (
    Vec<mesh::MeshVertex>,
    Vec<mesh::IndexTriple>,
))
    requires
        height_map.wf(),
    ensures
        ({
            let g = ((height_map.spec_side_length() + 1) as u32);
            let ts = spec_triangles(error::spec_error_grid(*height_map), g, error_threshold);
            mesh::mesh_ok(*height_map, ts, r.0@, r.1@) && r.0@.len() <= g * g
        }),
{
    let grid_size = height_map.width() + 1;
    let errors = get_errors(height_map);
    let triangles = get_triangles(error_threshold, &errors, grid_size);
    proof {
        lemma_triangles_in_grid(errors@, grid_size, error_threshold);
    }
    mesh::generate_mesh_data(height_map, &triangles)
}

} // verus!
