//! The error pyramid: one pass over all triangle ids, finest level first,
//! that stores at every hypotenuse midpoint the max-combined interpolation
//! error of the triangles resolving there.  Errors are kept in doubled
//! sample units: the error of a triangle is `|h(a) + h(b) - 2 * h(mid)|`
//! over the raw samples, which is the exact interpolation deviation scaled
//! by twice the sample range.

use crate::heightmap::{get_height, HeightGrid};
use crate::rtin::{
    get_left_child_triangle_index, get_right_child_triangle_index, get_first_triangle_index,
    get_triangle_and_midpoint_vector, spec_left_child_index, spec_midpoint,
    spec_right_child_index, spec_triangle_by_id, Triangle, Vector2u32,
};
use crate::u32_extensions::{
    lemma_is_pow2_as_pow2, lemma_msb_bounds, lemma_msb_le, log_2, spec_is_pow2, spec_msb,
};
use vstd::arithmetic::power2::{pow2, lemma2_to64, lemma_pow2_strictly_increases};
use vstd::pervasive::VecAdditionalExecFns;
use vstd::prelude::*;

verus! {

/// Row-major position of a grid vector in a flat `grid_size x grid_size`
/// array.
pub open spec fn spec_index(grid_size: int, v: Vector2u32) -> int {
    v.y * grid_size + v.x
}

/// The larger of two values.
pub open spec fn spec_max_u32(a: u32, b: u32) -> u32 {
    if a >= b {
        a
    } else {
        b
    }
}

/// Interpolation error of a triangle, in doubled sample units: how far the
/// average of the two hypotenuse endpoint elevations is from the sampled
/// elevation at the hypotenuse midpoint.
pub open spec fn spec_triangle_error(hm: HeightGrid, t: Triangle) -> u32 {
    let ha = hm.spec_sample(t.a.x as int, t.a.y as int) as int;
    let hb = hm.spec_sample(t.b.x as int, t.b.y as int) as int;
    let m = spec_midpoint(t);
    let hmid = hm.spec_sample(m.x as int, m.y as int) as int;
    vstd::math::abs(ha + hb - 2 * hmid) as u32
}

/// Number of levels of the triangle tree below a root, for a given side
/// length.
pub open spec fn spec_level_count(side: nat) -> nat {
    2 * ((spec_msb(side) - 1) as nat)
}

/// First triangle id of the finest level.
pub open spec fn spec_last_level_index(side: nat) -> int {
    pow2(spec_level_count(side)) - 2
}

/// Number of triangle ids processed by the pyramid pass.
pub open spec fn spec_triangle_count(side: nat) -> int {
    2 * side * side - 2
}

/// One pyramid update: the triangle with id `index + 2` writes its midpoint
/// slot.  A finest-level triangle stores its own error; any other triangle
/// max-combines its error with the slot's previous value and with the values
/// at its two children's midpoints.
pub open spec fn spec_pyramid_step(hm: HeightGrid, st: Seq<u32>, index: int) -> Seq<u32> {
    let side = hm.spec_side_length() as nat;
    let g = ((side + 1) as u32);
    let t = spec_triangle_by_id(((index + 2) as u32), g);
    let m = spec_midpoint(t);
    let mi = spec_index(g as int, m);
    let te = spec_triangle_error(hm, t);
    if index >= spec_last_level_index(side) {
        st.update(mi, te)
    } else {
        let lt = spec_triangle_by_id((spec_left_child_index(index + 2) as u32), g);
        let rt = spec_triangle_by_id((spec_right_child_index(index + 2) as u32), g);
        let li = spec_index(g as int, spec_midpoint(lt));
        let ri = spec_index(g as int, spec_midpoint(rt));
        let v = spec_max_u32(spec_max_u32(spec_max_u32(te, st[mi]), st[li]), st[ri]);
        st.update(mi, v)
    }
}

/// The error grid after the `k` highest triangle indices have been
/// processed, starting from the all-zero grid.
pub open spec fn spec_pyramid_state(hm: HeightGrid, k: nat) -> Seq<u32>
    decreases k,
{
    let side = hm.spec_side_length() as nat;
    if k == 0 {
        Seq::new(((side + 1) * (side + 1)) as nat, |i: int| 0u32)
    } else {
        spec_pyramid_step(hm, spec_pyramid_state(hm, (k - 1) as nat), spec_triangle_count(side) - k)
    }
}

/// The finished error grid: every triangle index processed, in descending
/// order.
pub open spec fn spec_error_grid(hm: HeightGrid) -> Seq<u32> {
    spec_pyramid_state(hm, spec_triangle_count(hm.spec_side_length() as nat) as nat)
}

/// Row-major position of a grid vector.
pub fn get_index(grid_size: u32, vector: Vector2u32) -> (r: usize)
    requires
        vector.x < grid_size,
        vector.y < grid_size,
        grid_size <= 0x1_0000,
    ensures
        r == spec_index(grid_size as int, vector),
        r < grid_size * grid_size,
{
    proof {
        assert(vector.y * grid_size + vector.x < grid_size * grid_size) by (nonlinear_arith)
            requires
                vector.x < grid_size,
                vector.y < grid_size,
        ;
        assert(grid_size * grid_size <= 0x1_0000_0000) by (nonlinear_arith)
            requires
                grid_size <= 0x1_0000,
        ;
    }
    ((vector.y * grid_size + vector.x) as usize)
}

/// The larger of two values.
fn max_u32(a: u32, b: u32) -> (r: u32)
    ensures
        r == spec_max_u32(a, b),
{
    if a >= b {
        a
    } else {
        b
    }
}

/// Interpolation error of one triangle against the height grid.
pub fn get_triangle_error(
    height_map: &HeightGrid,
    triangle: Triangle,
    midpoint_vector: Vector2u32,
) -> (r: u32)
    requires
        height_map.wf(),
        midpoint_vector == spec_midpoint(triangle),
    ensures
        r == spec_triangle_error(*height_map, triangle),
{
    let vector0_height = get_height(height_map, triangle.a) as u32;
    let vector1_height = get_height(height_map, triangle.b) as u32;

    let midpoint_interpolated = vector0_height + vector1_height;
    let midpoint_doubled = 2 * (get_height(height_map, midpoint_vector) as u32);

    if midpoint_interpolated > midpoint_doubled {
        midpoint_interpolated - midpoint_doubled
    } else {
        midpoint_doubled - midpoint_interpolated
    }
}

/// Builds the error pyramid: walks every triangle id from the finest level
/// up to the children of the roots, strictly in descending index order, so
/// that both children of a triangle are settled before the triangle itself
/// is combined.
#[verifier::loop_isolation(false)]
pub fn generate(height_map: &HeightGrid) -> (r: Vec<u32>)
    requires
        height_map.wf(),
    ensures
        r@ == spec_error_grid(*height_map),
        r@.len() == (height_map.spec_side_length() + 1) * (height_map.spec_side_length() + 1),
{
    let side_length = height_map.width();
    let grid_size = side_length + 1;

    proof {
        assert(4 <= side_length * side_length <= 0x4000_0000 && grid_size * grid_size
            <= 0x4100_0000) by (nonlinear_arith)
            requires
                2 <= side_length <= 32768,
                grid_size == side_length + 1,
        ;
        assert(pow2(16) == 0x1_0000) by {
            lemma2_to64();
        }
        lemma_msb_le(side_length as nat, 16);
        assert(side_length * side_length * 2 == 2 * (side_length as int) * (side_length as int))
            by (nonlinear_arith);
        assert(spec_msb(side_length as nat) >= 2) by {
            lemma_msb_bounds(side_length as nat);
            if spec_msb(side_length as nat) < 2 {
                lemma2_to64();
                lemma_pow2_strictly_increases((spec_msb(side_length as nat) - 1) as nat, 1);
            }
        }
    }
    let triangle_count = side_length * side_length * 2 - 2;

    let mut errors: Vec<u32> = Vec::new();
    let total = (grid_size as usize) * (grid_size as usize);
    while errors.len() < total
        invariant
            errors@.len() <= total,
            forall|j: int| 0 <= j < errors@.len() ==> errors@[j] == 0u32,
        decreases total - errors@.len(),
    {
        errors.push(0u32);
    }
    proof {
        assert(errors@ =~= spec_pyramid_state(*height_map, 0));
    }

    let level_count = log_2(side_length) * 2;
    let last_level_index = get_first_triangle_index(level_count - 1);
    proof {
        assert(level_count == spec_level_count(side_length as nat));
        assert(last_level_index == spec_last_level_index(side_length as nat));
        // the finest level starts strictly inside the processed id range
        lemma_last_level_in_range(side_length as nat);
    }

    let mut triangle_index = triangle_count;
    while triangle_index > 0
        invariant
            triangle_index <= triangle_count,
            errors@.len() == total,
            errors@ == spec_pyramid_state(
                *height_map,
                (triangle_count - triangle_index) as nat,
            ),
        decreases triangle_index,
    {
        triangle_index = triangle_index - 1;
        let ghost prev_state = errors@;
        let id = triangle_index + 2;

        let (triangle, midpoint_vector) = get_triangle_and_midpoint_vector(id, grid_size);

        let triangle_error = get_triangle_error(height_map, triangle, midpoint_vector);
        let error_vector_index = get_index(grid_size, midpoint_vector);

        if triangle_index >= last_level_index {
            errors.set(error_vector_index, triangle_error);
        } else {
            proof {
                assert(id < pow2(spec_level_count(side_length as nat)));
                lemma_pow2_le_30(side_length as nat);
                lemma_child_in_id_range(id as int);
            }
            let left_child_triangle_index = get_left_child_triangle_index(id);
            let (_left_triangle, left_child_midpoint_vector) =
                get_triangle_and_midpoint_vector(left_child_triangle_index, grid_size);

            let right_child_triangle_index = get_right_child_triangle_index(id);
            let (_right_triangle, right_child_midpoint_vector) =
                get_triangle_and_midpoint_vector(right_child_triangle_index, grid_size);

            let previous_error = errors[error_vector_index];
            let left_error = errors[get_index(grid_size, left_child_midpoint_vector)];
            let right_error = errors[get_index(grid_size, right_child_midpoint_vector)];

            let combined = max_u32(
                max_u32(max_u32(triangle_error, previous_error), left_error),
                right_error,
            );
            errors.set(error_vector_index, combined);
        }
        proof {
            let k = (triangle_count - triangle_index) as nat;
            assert(spec_pyramid_state(*height_map, k) == spec_pyramid_step(
                *height_map,
                prev_state,
                triangle_index as int,
            ));
            assert(errors@ == spec_pyramid_step(*height_map, prev_state, triangle_index as int));
        }
    }

    errors
}

/// For a valid side length the finest level's first id is below the number
/// of processed triangles.
proof fn lemma_last_level_in_range(side: nat)
    requires
        spec_is_pow2(side),
        2 <= side <= 32768,
    ensures
        spec_last_level_index(side) < spec_triangle_count(side),
        pow2(spec_level_count(side)) == side * side,
{
    lemma_is_pow2_as_pow2(side);
    let k = (spec_msb(side) - 1) as nat;
    vstd::arithmetic::power2::lemma_pow2_adds(k, k);
    assert(side * side >= 2 && 2 * side * side == 2 * (side * side)) by (nonlinear_arith)
        requires
            side >= 2,
    ;
}

/// The level count of a valid side length is at most 30, so every non-leaf
/// id is well below the 32-bit addressing bound.
proof fn lemma_pow2_le_30(side: nat)
    requires
        spec_is_pow2(side),
        2 <= side <= 32768,
    ensures
        pow2(spec_level_count(side)) <= 0x4000_0000,
{
    assert(pow2(16) == 0x1_0000 && pow2(30) == 0x4000_0000) by {
        lemma2_to64();
    }
    lemma_msb_le(side, 16);
    lemma_msb_bounds(side);
    let lc = spec_level_count(side);
    if lc < 30 {
        lemma_pow2_strictly_increases(lc, 30);
    }
}

/// Bounds on the two child ids of a non-leaf id, as needed for the 32-bit
/// child-id arithmetic and the subsequent triangle lookups.
proof fn lemma_child_in_id_range(id: int)
    requires
        2 <= id <= 0x4000_0001,
    ensures
        6 <= spec_left_child_index(id) <= 0xffff_fffd,
        4 <= spec_right_child_index(id) <= 0xffff_fffd,
{
    crate::rtin::lemma_child_msb(id);
    let m = spec_msb((id + 2) as nat);
    assert(pow2(31) == 0x8000_0000) by {
        lemma2_to64();
    }
    lemma_msb_le((id + 2) as nat, 31);
    lemma_msb_bounds((id + 2) as nat);
    if m < 31 {
        lemma_pow2_strictly_increases(m, 31);
    }
    vstd::arithmetic::power2::lemma_pow2_pos((m - 1) as nat);
}

} // verus!
