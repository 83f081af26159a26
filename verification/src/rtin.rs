//! Triangle addressing: the implicit binary tree over the two root right
//! triangles of the grid square.  A triangle id encodes the descent path from
//! a root; child ids are computed by pure bit arithmetic, and a triangle's
//! corners are recovered by walking the id's bits from the root down.

use crate::u32_extensions::{
    get_most_significant_bit, lemma_msb_bounds, lemma_msb_le, lemma_msb_le_32, lemma_msb_of_range,
    spec_msb,
};
use vstd::arithmetic::power2::{
    pow2, lemma2_to64, lemma_pow2_pos, lemma_pow2_strictly_increases, lemma_pow2_unfold,
};
use vstd::bits::lemma_u32_shl_is_mul;
use vstd::prelude::*;

verus! {

/// A vertex position in the `(sideLength + 1) x (sideLength + 1)` grid.
#[derive(Clone, Copy, PartialEq, Eq, Structural, Debug)]
pub struct Vector2u32 {
    pub x: u32,
    pub y: u32,
}

/// A triangle of the implicit tree: its id, the two hypotenuse endpoints
/// `a` and `b`, and the right-angle apex `c`.
#[derive(Clone, Copy, PartialEq, Eq, Structural, Debug)]
pub struct Triangle {
    pub id: u32,
    pub a: Vector2u32,
    pub b: Vector2u32,
    pub c: Vector2u32,
}

/// All six corner coordinates lie strictly inside the vertex grid.
pub open spec fn tri_in_grid(t: Triangle, g: nat) -> bool {
    t.a.x < g && t.a.y < g && t.b.x < g && t.b.y < g && t.c.x < g && t.c.y < g
}

/// Midpoint of the hypotenuse, by the same truncating division the
/// executable code performs.
pub open spec fn spec_midpoint(t: Triangle) -> Vector2u32 {
    Vector2u32 { x: (((t.a.x + t.b.x) / 2) as u32), y: (((t.a.y + t.b.y) / 2) as u32) }
}

/// Id of the left child of the triangle with the given id.
pub open spec fn spec_left_child_index(index: int) -> int {
    index + pow2(spec_msb((index + 2) as nat))
}

/// Id of the right child of the triangle with the given id.
pub open spec fn spec_right_child_index(index: int) -> int {
    let m = spec_msb((index + 2) as nat);
    index + pow2(m) - pow2((m - 1) as nat)
}

/// Left bisection: the apex becomes a hypotenuse endpoint and the hypotenuse
/// midpoint becomes the new apex.
pub open spec fn spec_bisect_left(t: Triangle) -> Triangle {
    Triangle {
        id: spec_left_child_index(t.id as int) as u32,
        a: t.c,
        b: t.a,
        c: spec_midpoint(t),
    }
}

/// Right bisection, the mirror image of the left one.
pub open spec fn spec_bisect_right(t: Triangle) -> Triangle {
    Triangle {
        id: spec_right_child_index(t.id as int) as u32,
        a: t.b,
        b: t.c,
        c: spec_midpoint(t),
    }
}

/// The root triangle covering the bottom-left half of the square.
pub open spec fn spec_root_bottom_left(grid_size: u32) -> Triangle {
    let corner = ((grid_size - 1) as u32);
    Triangle {
        id: 1,
        a: Vector2u32 { x: corner, y: corner },
        b: Vector2u32 { x: 0, y: 0 },
        c: Vector2u32 { x: 0, y: corner },
    }
}

/// The root triangle covering the top-right half of the square.
pub open spec fn spec_root_top_right(grid_size: u32) -> Triangle {
    let corner = ((grid_size - 1) as u32);
    Triangle {
        id: 0,
        a: Vector2u32 { x: 0, y: 0 },
        b: Vector2u32 { x: corner, y: corner },
        c: Vector2u32 { x: corner, y: 0 },
    }
}

/// The triangle reached after following bits `1..=i` of `id` down from the
/// root selected by the id's parity: a set bit descends left, a clear one
/// right.
pub open spec fn spec_walk(id: u32, grid_size: u32, i: nat) -> Triangle
    decreases i,
{
    if i == 0 {
        if id & 1 > 0 {
            spec_root_top_right(grid_size)
        } else {
            spec_root_bottom_left(grid_size)
        }
    } else if id & (1u32 << (i as u32)) > 0 {
        spec_bisect_left(spec_walk(id, grid_size, (i - 1) as nat))
    } else {
        spec_bisect_right(spec_walk(id, grid_size, (i - 1) as nat))
    }
}

/// The triangle addressed by an id: the full walk down to the id's level.
pub open spec fn spec_triangle_by_id(id: u32, grid_size: u32) -> Triangle {
    spec_walk(id, grid_size, (spec_msb(id as nat) - 2) as nat)
}

/// Both child ids sit exactly one level below their parent.
pub proof fn lemma_child_msb(index: int)
    requires
        index >= 0,
    ensures
        spec_msb((spec_left_child_index(index) + 2) as nat) == spec_msb((index + 2) as nat) + 1,
        spec_msb((spec_right_child_index(index) + 2) as nat) == spec_msb((index + 2) as nat) + 1,
        spec_left_child_index(index) >= index + 4,
        spec_right_child_index(index) >= index + 2,
{
    let n = (index + 2) as nat;
    let m = spec_msb(n);
    lemma_msb_bounds(n);
    assert(m >= 2) by {
        if m < 2 {
            lemma2_to64();
            lemma_pow2_strictly_increases((m - 1) as nat, 1);
        }
    }
    lemma_pow2_unfold(m);
    lemma_pow2_unfold((m + 1) as nat);
    lemma_pow2_pos((m - 1) as nat);
    let nl = (spec_left_child_index(index) + 2) as nat;
    let nr = (spec_right_child_index(index) + 2) as nat;
    assert(nl == n + pow2(m));
    assert(nr == n + pow2(m) - pow2((m - 1) as nat));
    lemma_msb_of_range(nl, m);
    lemma_msb_of_range(nr, m);
    assert(pow2(m) >= 4) by {
        lemma2_to64();
        if m > 2 {
            lemma_pow2_strictly_increases(2, m);
        }
    }
}

/// Corners of a walked triangle stay inside the vertex grid.
pub proof fn lemma_walk_in_grid(id: u32, grid_size: u32, i: nat)
    requires
        grid_size >= 1,
    ensures
        tri_in_grid(spec_walk(id, grid_size, i), grid_size as nat),
    decreases i,
{
    if i > 0 {
        lemma_walk_in_grid(id, grid_size, (i - 1) as nat);
    }
}

/// Level of a triangle id: 0 for the two roots.
pub fn get_level_by_id(id: u32) -> (r: u32)
    requires
        id >= 2,
    ensures
        r == spec_msb(id as nat) - 2,
        r <= 30,
{
    proof {
        assert(spec_msb((id / 2) as nat) >= 1);
        assert(spec_msb(id as nat) == 1 + spec_msb((id / 2) as nat));
        lemma_msb_le_32(id as nat);
    }
    get_most_significant_bit(id) - 2
}

/// First id of a level: ids at level `L` are `pow2(L + 1) - 2 ..< pow2(L + 2) - 2`.
pub fn get_first_triangle_index(level: u32) -> (r: u32)
    requires
        level <= 30,
    ensures
        r == pow2((level + 1) as nat) - 2,
{
    proof {
        assert(pow2(31) == 0x8000_0000 && pow2(30) == 0x4000_0000) by {
            lemma2_to64();
        }
        if level < 30 {
            lemma_pow2_strictly_increases(level as nat, 30);
        }
        lemma_u32_shl_is_mul(2u32, level);
        lemma_pow2_unfold((level + 1) as nat);
        lemma_pow2_pos(level as nat);
        let y = 2u32 << level;
        assert(y % 2 == 0 && y >= 2 ==> ((y - 1) as u32) & !1u32 == (y - 2) as u32) by (bit_vector);
        assert(pow2((level + 1) as nat) % 2 == 0);
    }
    ((2u32 << level) - 1) & (!1u32)
}

/// Id of the left child triangle.
pub fn get_left_child_triangle_index(index: u32) -> (r: u32)
    requires
        index < 0x7fff_fffe,
    ensures
        r == spec_left_child_index(index as int),
{
    let id = index + 2;
    let level = get_level_by_id(id);
    proof {
        child_shift_bounds(id);
    }
    (id + (1u32 << (level + 2))) - 2
}

/// Id of the right child triangle.
pub fn get_right_child_triangle_index(index: u32) -> (r: u32)
    requires
        index < 0x7fff_fffe,
    ensures
        r == spec_right_child_index(index as int),
{
    let id = index + 2;
    let level = get_level_by_id(id);
    proof {
        child_shift_bounds(id);
        lemma_pow2_unfold(spec_msb(id as nat));
    }
    (id + (1u32 << (level + 2)) - (1u32 << (level + 1))) - 2
}

/// The shifts in the child-id formulas stay in 32-bit range.
proof fn child_shift_bounds(id: u32)
    requires
        2 <= id < 0x8000_0000,
    ensures
        spec_msb(id as nat) >= 2,
        spec_msb(id as nat) <= 31,
        1u32 << ((spec_msb(id as nat) - 2) as u32 + 2) == pow2(spec_msb(id as nat)),
        1u32 << ((spec_msb(id as nat) - 2) as u32 + 1) == pow2((spec_msb(id as nat) - 1) as nat),
        pow2(spec_msb(id as nat)) <= 0x8000_0000,
        id < pow2(spec_msb(id as nat)),
        pow2((spec_msb(id as nat) - 1) as nat) <= id,
{
    assert(spec_msb((id / 2) as nat) >= 1);
    lemma_msb_bounds(id as nat);
    assert(pow2(31) == 0x8000_0000) by {
        lemma2_to64();
    }
    lemma_msb_le(id as nat, 31);
    let m = spec_msb(id as nat);
    if m < 31 {
        lemma_pow2_strictly_increases(m, 31);
    }
    if ((m - 1) as nat) < 31 {
        lemma_pow2_strictly_increases((m - 1) as nat, 31);
    }
    lemma_u32_shl_is_mul(1u32, m as u32);
    lemma_u32_shl_is_mul(1u32, (m - 1) as u32);
}

/// The bottom-left root triangle.
pub fn generate_bottom_left_triangle(grid_size: u32) -> (r: Triangle)
    requires
        grid_size >= 1,
    ensures
        r == spec_root_bottom_left(grid_size),
{
    let corner = grid_size - 1;
    Triangle {
        id: 1,
        a: Vector2u32 { x: corner, y: corner },
        b: Vector2u32 { x: 0, y: 0 },
        c: Vector2u32 { x: 0, y: corner },
    }
}

/// The top-right root triangle.
pub fn generate_top_right_triangle(grid_size: u32) -> (r: Triangle)
    requires
        grid_size >= 1,
    ensures
        r == spec_root_top_right(grid_size),
{
    let corner = grid_size - 1;
    Triangle {
        id: 0,
        a: Vector2u32 { x: 0, y: 0 },
        b: Vector2u32 { x: corner, y: corner },
        c: Vector2u32 { x: corner, y: 0 },
    }
}

/// Left bisection of a triangle.
pub fn generate_left_triangle(triangle: Triangle) -> (r: Triangle)
    requires
        triangle.id < 0x7fff_fffe,
        triangle.a.x + triangle.b.x <= u32::MAX,
        triangle.a.y + triangle.b.y <= u32::MAX,
    ensures
        r == spec_bisect_left(triangle),
{
    Triangle {
        id: get_left_child_triangle_index(triangle.id),
        a: triangle.c,
        b: triangle.a,
        c: Vector2u32 {
            x: (triangle.a.x + triangle.b.x) / 2,
            y: (triangle.a.y + triangle.b.y) / 2,
        },
    }
}

/// Right bisection of a triangle.
pub fn generate_right_triangle(triangle: Triangle) -> (r: Triangle)
    requires
        triangle.id < 0x7fff_fffe,
        triangle.a.x + triangle.b.x <= u32::MAX,
        triangle.a.y + triangle.b.y <= u32::MAX,
    ensures
        r == spec_bisect_right(triangle),
{
    Triangle {
        id: get_right_child_triangle_index(triangle.id),
        a: triangle.b,
        b: triangle.c,
        c: Vector2u32 {
            x: (triangle.a.x + triangle.b.x) / 2,
            y: (triangle.a.y + triangle.b.y) / 2,
        },
    }
}

/// The triangle addressed by an id, resolved by walking the id's bits.
pub fn get_triangle_by_id(id: u32, grid_size: u32) -> (r: Triangle)
    requires
        2 <= id <= 0xffff_fffd,
        1 <= grid_size <= 0x1_0000,
    ensures
        r == spec_triangle_by_id(id, grid_size),
        tri_in_grid(r, grid_size as nat),
{
    let mut triangle: Triangle;

    if id & 1 > 0 {
        triangle = generate_top_right_triangle(grid_size);
    } else {
        triangle = generate_bottom_left_triangle(grid_size);
    }

    let level = get_level_by_id(id);
    proof {
        lemma_walk_in_grid(id, grid_size, 0);
        assert(spec_msb(0nat) == 0);
        assert(spec_msb(1nat) == 1);
        assert(spec_msb(2nat) == 2);
        assert(spec_msb(3nat) == 2);
        assert(id & 1 > 0 ==> triangle.id == 0);
        assert(id & 1 == 0 ==> triangle.id == 1);
    }
    let mut i: u32 = 1;
    while i < level + 1
        invariant
            1 <= i <= level + 1,
            level == spec_msb(id as nat) - 2,
            level <= 30,
            1 <= grid_size <= 0x1_0000,
            triangle == spec_walk(id, grid_size, (i - 1) as nat),
            spec_msb((triangle.id + 2) as nat) == i + 1,
            tri_in_grid(triangle, grid_size as nat),
        decreases level + 1 - i,
    {
        proof {
            lemma_msb_bounds((triangle.id + 2) as nat);
            assert(pow2(31) == 0x8000_0000) by {
                lemma2_to64();
            }
            if ((i + 1) as nat) < 31 {
                lemma_pow2_strictly_increases((i + 1) as nat, 31);
            }
            lemma_child_msb(triangle.id as int);
            lemma_walk_in_grid(id, grid_size, i as nat);
            lemma_u32_shl_is_mul(1u32, i);
            lemma_pow2_pos(i as nat);
        }
        if id & (1u32 << i) > 0 {
            triangle = generate_left_triangle(triangle);
        } else {
            triangle = generate_right_triangle(triangle);
        }
        i = i + 1;
    }
    proof {
        assert(spec_msb(id as nat) >= 2);
    }
    triangle
}

/// A triangle together with its hypotenuse midpoint.
pub fn get_triangle_and_midpoint_vector(id: u32, grid_size: u32) -> (r: (Triangle, Vector2u32))
    requires
        2 <= id <= 0xffff_fffd,
        1 <= grid_size <= 0x1_0000,
    ensures
        r.0 == spec_triangle_by_id(id, grid_size),
        r.1 == spec_midpoint(spec_triangle_by_id(id, grid_size)),
        tri_in_grid(r.0, grid_size as nat),
        r.1.x < grid_size,
        r.1.y < grid_size,
{
    let triangle = get_triangle_by_id(id, grid_size);
    let midpoint = Vector2u32 {
        x: (triangle.a.x + triangle.b.x) / 2,
        y: (triangle.a.y + triangle.b.y) / 2,
    };
    (triangle, midpoint)
}

} // verus!
