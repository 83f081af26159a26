//! Shape of the triangles the bisection scheme produces: right isoceles
//! triangles whose apex legs are either axis-aligned or diagonal, with a
//! power-of-two leg length.  Bisection alternates between the two families
//! and halves the leg every second level, which yields the termination
//! measure of the refinement descent.

use crate::rtin::{spec_bisect_left, spec_bisect_right, spec_midpoint, Triangle};
use crate::u32_extensions::spec_is_pow2;
use vstd::math::abs;
use vstd::prelude::*;

verus! {

/// Leg vector from the apex `c` to the hypotenuse endpoint `a`, x component.
pub open spec fn leg_ux(t: Triangle) -> int {
    t.a.x - t.c.x
}

/// Leg vector from the apex `c` to the hypotenuse endpoint `a`, y component.
pub open spec fn leg_uy(t: Triangle) -> int {
    t.a.y - t.c.y
}

/// Leg vector from the apex `c` to the hypotenuse endpoint `b`, x component.
pub open spec fn leg_vx(t: Triangle) -> int {
    t.b.x - t.c.x
}

/// Leg vector from the apex `c` to the hypotenuse endpoint `b`, y component.
pub open spec fn leg_vy(t: Triangle) -> int {
    t.b.y - t.c.y
}

/// Per-axis extent of an apex leg: its larger absolute coordinate.
pub open spec fn spec_leg(t: Triangle) -> int {
    if abs(leg_ux(t)) >= abs(leg_uy(t)) {
        abs(leg_ux(t)) as int
    } else {
        abs(leg_uy(t)) as int
    }
}

/// Manhattan distance from the apex to a hypotenuse endpoint, the size proxy
/// the refinement uses.
pub open spec fn spec_size(t: Triangle) -> int {
    abs(leg_ux(t)) + abs(leg_uy(t)) as int
}

/// A triangle of the bisection scheme: the second apex leg is the first one
/// rotated by a quarter turn (in either direction), the first leg is
/// axis-aligned or diagonal, and its extent is a power of two.
pub open spec fn tri_shape(t: Triangle) -> bool {
    &&& ((leg_vx(t) == leg_uy(t) && leg_vy(t) == -leg_ux(t)) || (leg_vx(t) == -leg_uy(t)
        && leg_vy(t) == leg_ux(t)))
    &&& (leg_ux(t) == 0 || leg_uy(t) == 0 || abs(leg_ux(t)) == abs(leg_uy(t)))
    &&& spec_is_pow2(spec_leg(t) as nat)
}

/// The axis-aligned family: one leg coordinate vanishes.
pub open spec fn tri_axis(t: Triangle) -> bool {
    tri_shape(t) && (leg_ux(t) == 0 || leg_uy(t) == 0)
}

/// The diagonal family: both leg coordinates have the same magnitude.
pub open spec fn tri_diag(t: Triangle) -> bool {
    tri_shape(t) && abs(leg_ux(t)) == abs(leg_uy(t))
}

/// Termination measure of the refinement descent: hypotenuse extent plus
/// size.  Each bisection strictly decreases it.
pub open spec fn spec_measure(t: Triangle) -> int {
    abs(t.a.x - t.b.x) as int + abs(t.a.y - t.b.y) + spec_size(t)
}

/// A power of two of at least 2 is even, and its half is a power of two.
proof fn lemma_pow2_half(n: nat)
    requires
        spec_is_pow2(n),
        n >= 2,
    ensures
        n % 2 == 0,
        spec_is_pow2(n / 2),
{
}

/// What one bisection does to a triangle of the scheme: the hypotenuse
/// midpoint is exact, both children are again triangles of the scheme in
/// the opposite family, the leg halves when leaving the axis-aligned family,
/// and the termination measure strictly decreases.
pub proof fn lemma_bisect_shape(t: Triangle)
    requires
        tri_shape(t),
        spec_size(t) > 1,
    ensures
        (t.a.x + t.b.x) % 2 == 0,
        (t.a.y + t.b.y) % 2 == 0,
        tri_shape(spec_bisect_left(t)),
        tri_shape(spec_bisect_right(t)),
        spec_measure(spec_bisect_left(t)) < spec_measure(t),
        spec_measure(spec_bisect_right(t)) < spec_measure(t),
        tri_axis(t) ==> tri_diag(spec_bisect_left(t)) && tri_diag(spec_bisect_right(t))
            && spec_leg(spec_bisect_left(t)) == spec_leg(t) / 2 && spec_leg(spec_bisect_right(t))
            == spec_leg(t) / 2,
        tri_diag(t) ==> tri_axis(spec_bisect_left(t)) && tri_axis(spec_bisect_right(t))
            && spec_leg(spec_bisect_left(t)) == spec_leg(t) && spec_leg(spec_bisect_right(t))
            == spec_leg(t),
        tri_axis(t) || tri_diag(t),
        spec_size(spec_bisect_left(t)) == if tri_axis(t) {
            spec_size(t)
        } else {
            spec_size(t) / 2
        },
        spec_size(spec_bisect_right(t)) == spec_size(spec_bisect_left(t)),
{
    let ux = leg_ux(t);
    let uy = leg_uy(t);
    let vx = leg_vx(t);
    let vy = leg_vy(t);

    if ux == 0 || uy == 0 {
        // axis-aligned: the leg extent is the size, greater than 1, so even
        lemma_pow2_half(spec_leg(t) as nat);
    } else {
        // diagonal: the two coordinates of a.x - b.x cancel or double
        assert(abs(ux) == abs(uy));
    }
    assert((t.a.x + t.b.x) % 2 == 0 && (t.a.y + t.b.y) % 2 == 0);

    let l = spec_bisect_left(t);
    let r = spec_bisect_right(t);
    // the midpoint divisions are exact
    assert(2 * (spec_midpoint(t).x as int) == t.a.x + t.b.x);
    assert(2 * (spec_midpoint(t).y as int) == t.a.y + t.b.y);

    if ux == 0 || uy == 0 {
        lemma_pow2_half(spec_leg(t) as nat);
        assert(tri_shape(l) && tri_diag(l));
        assert(tri_shape(r) && tri_diag(r));
    } else {
        assert(tri_shape(l) && tri_axis(l));
        assert(tri_shape(r) && tri_axis(r));
    }
}

} // verus!
