//! Analytic ray–circle intersection and cylindrical unwrapping.
//!
//! The cylinder stands on the `y` axis.  A ray or point is mapped to a
//! normalized surface coordinate by intersecting its projection onto the
//! `x`/`z` cross-section plane with the cylinder's circle, then unwrapping
//! the hit angularly (`u`) and vertically (`v`).  All arithmetic is exact
//! fixed-point integer arithmetic; each function's contract states the
//! computed value in full.

use vstd::prelude::*;
use vstd::arithmetic::div_mod::{lemma_div_pos_is_pos, lemma_fundamental_div_mod};
use crate::fixed::{
    SCALE, COORD_MAX, POINT_MAX, isqrt_spec, lemma_isqrt_spec, lemma_isqrt_unique, isqrt,
    tdiv, div_nn, div_t, lemma_div_below, lemma_div_at_least, lemma_abs_mul_le,
    lemma_tdiv_le, lemma_tdiv_mag_ge,
};
use crate::input::{Vec3Fx, SurfaceCoord, position_wf, direction_wf};

verus! {

/// One half turn, in fixed-point steps.
pub const PI_FX: i64 = 3_141_593;

/// Largest vertical resolution a surface may be configured with.
pub const PIXEL_MAX: i64 = 100_000;

/// Least squared length accepted for the projected ray direction handed to
/// the intersection routine: the square of half a unit.
pub const PROJ_MIN_SQ: i64 = 250_000_000_000;

/// Largest parametric distance the intersection routine can return.
pub const T_RAY_MAX: i64 = 21_000_000_000;

/// Largest derived pixel width a well-formed surface can carry.
pub const WIDTH_MAX: i64 = 1_000_000_000_000_000;

// ---------------------------------------------------------------------------
// Surface geometry
// ---------------------------------------------------------------------------

/// The immutable shape of the interactive surface.
#[derive(Clone, Copy, PartialEq, Eq, Structural, Debug)]
pub struct SurfaceGeometry {
    /// Cylinder radius, fixed-point world units; always positive.
    pub radius: i64,
    /// Vertical extent, fixed-point world units; always positive.
    pub height: i64,
    /// Portion of the cylinder covered, in whole degrees, at most 360.
    pub span_degrees: i64,
    /// Horizontal resolution, derived from the other fields at construction.
    pub pixel_width: i64,
    /// Vertical resolution, chosen at construction.
    pub pixel_height: i64,
}

/// The pixel width a surface derives: the covered arc length over the height
/// gives the aspect ratio, which scales the chosen vertical resolution.
pub open spec fn derived_width(radius: int, height: int, span_degrees: int, pixel_height: int) -> int {
    let arc = span_degrees * (PI_FX as int) * radius / (180 * (SCALE as int));
    arc * pixel_height / height
}

impl SurfaceGeometry {
    /// Configured within the accepted ranges, with the width correctly derived.
    pub open spec fn wf(self) -> bool {
        &&& 0 < self.radius <= COORD_MAX
        &&& 0 < self.height <= COORD_MAX
        &&& 0 < self.span_degrees <= 360
        &&& 0 < self.pixel_height <= PIXEL_MAX
        &&& self.pixel_width == derived_width(
            self.radius as int, self.height as int,
            self.span_degrees as int, self.pixel_height as int)
        &&& 0 <= self.pixel_width <= WIDTH_MAX
    }

    /// Builds a surface configuration, deriving the horizontal resolution
    /// from the covered arc length and the chosen vertical resolution.
    pub fn new(radius: i64, height: i64, span_degrees: i64, pixel_height: i64) -> (g: Self)
        requires
            0 < radius <= COORD_MAX,
            0 < height <= COORD_MAX,
            0 < span_degrees <= 360,
            0 < pixel_height <= PIXEL_MAX,
        ensures
            g.wf(),
            g.radius == radius,
            g.height == height,
            g.span_degrees == span_degrees,
            g.pixel_height == pixel_height,
    {
        proof {
            lemma_abs_mul_le(span_degrees as int * (PI_FX as int), radius as int,
                360 * (PI_FX as int), COORD_MAX as int);
        }
        let arc_num: i128 = (span_degrees as i128) * (PI_FX as i128) * (radius as i128);
        proof {
            lemma_div_below(arc_num as int, 180 * (SCALE as int), 7_000_000_000);
        }
        let arc: i128 = div_nn(arc_num, 180 * (SCALE as i128));
        proof {
            lemma_abs_mul_le(arc as int, pixel_height as int, 7_000_000_000, PIXEL_MAX as int);
        }
        let width_num: i128 = arc * (pixel_height as i128);
        let width: i128 = div_nn(width_num, height as i128);
        SurfaceGeometry {
            radius,
            height,
            span_degrees,
            pixel_width: width as i64,
            pixel_height,
        }
    }
}

// ---------------------------------------------------------------------------
// Ray–circle intersection
// ---------------------------------------------------------------------------

/// Squared length of the projected direction.
pub open spec fn quad_a(dx: int, dz: int) -> int {
    dx * dx + dz * dz
}

/// Linear coefficient of the crossing quadratic.
pub open spec fn quad_b(ox: int, oz: int, dx: int, dz: int) -> int {
    2 * (dx * ox + dz * oz)
}

/// Constant coefficient: squared distance of the origin from the circle.
pub open spec fn quad_c(ox: int, oz: int, radius: int) -> int {
    ox * ox + oz * oz - radius * radius
}

/// Discriminant of the crossing quadratic; negative means the carrier line
/// misses the circle.
pub open spec fn quad_disc(ox: int, oz: int, dx: int, dz: int, radius: int) -> int {
    quad_b(ox, oz, dx, dz) * quad_b(ox, oz, dx, dz)
        - 4 * quad_a(dx, dz) * quad_c(ox, oz, radius)
}

/// The parametric distance, in fixed-point steps, of the first circle
/// crossing at or ahead of the ray origin: the smaller root of the quadratic
/// when it is non-negative, else the larger root when that one is, else
/// nothing.
pub open spec fn ray_circle_spec(ox: int, oz: int, dx: int, dz: int, radius: int) -> Option<int> {
    let a = quad_a(dx, dz);
    let b = quad_b(ox, oz, dx, dz);
    let disc = quad_disc(ox, oz, dx, dz, radius);
    if disc < 0 {
        None
    } else {
        let s = isqrt_spec(disc as nat) as int;
        if -b - s >= 0 {
            Some((-b - s) * (SCALE as int) / (2 * a))
        } else if -b + s >= 0 {
            Some((-b + s) * (SCALE as int) / (2 * a))
        } else {
            None
        }
    }
}

/// Solves `|origin + t * direction|^2 == radius^2` in the cross-section plane
/// and returns the smallest non-negative root, scaled by `SCALE`.  This is a
/// one-sided ray test: crossings behind the origin are never returned.
pub fn ray_circle_closest_intersection(ox: i64, oz: i64, dx: i64, dz: i64, radius: i64)
    -> (t: Option<i64>)
    requires
        -COORD_MAX <= ox <= COORD_MAX,
        -COORD_MAX <= oz <= COORD_MAX,
        -SCALE <= dx <= SCALE,
        -SCALE <= dz <= SCALE,
        quad_a(dx as int, dz as int) >= PROJ_MIN_SQ,
        0 < radius <= COORD_MAX,
    ensures
        match t {
            Some(v) => ray_circle_spec(ox as int, oz as int, dx as int, dz as int, radius as int)
                == Some(v as int) && 0 <= v <= T_RAY_MAX,
            None => ray_circle_spec(ox as int, oz as int, dx as int, dz as int, radius as int)
                is None,
        },
        quad_disc(ox as int, oz as int, dx as int, dz as int, radius as int) < 0 ==> t is None,
{
    let oxw = ox as i128;
    let ozw = oz as i128;
    let dxw = dx as i128;
    let dzw = dz as i128;
    let rw = radius as i128;
    proof {
        lemma_abs_mul_le(dx as int, dx as int, SCALE as int, SCALE as int);
        lemma_abs_mul_le(dz as int, dz as int, SCALE as int, SCALE as int);
        lemma_abs_mul_le(dx as int, ox as int, SCALE as int, COORD_MAX as int);
        lemma_abs_mul_le(dz as int, oz as int, SCALE as int, COORD_MAX as int);
        lemma_abs_mul_le(ox as int, ox as int, COORD_MAX as int, COORD_MAX as int);
        lemma_abs_mul_le(oz as int, oz as int, COORD_MAX as int, COORD_MAX as int);
        lemma_abs_mul_le(radius as int, radius as int, COORD_MAX as int, COORD_MAX as int);
        assert(ox as int * ox as int >= 0 && oz as int * oz as int >= 0
            && radius as int * radius as int >= 0 && dx as int * dx as int >= 0
            && dz as int * dz as int >= 0) by (nonlinear_arith);
    }
    let a: i128 = dxw * dxw + dzw * dzw;
    let b: i128 = 2 * (dxw * oxw + dzw * ozw);
    let c: i128 = oxw * oxw + ozw * ozw - rw * rw;
    proof {
        lemma_abs_mul_le(b as int, b as int,
            4_000_000_000_000_000, 4_000_000_000_000_000);
        lemma_abs_mul_le(4 * (a as int), c as int,
            8_000_000_000_000, 2_000_000_000_000_000_000);
    }
    let disc: i128 = b * b - 4 * a * c;
    if disc < 0 {
        return None;
    }
    let sq: u128 = isqrt(disc as u128);
    proof {
        if sq as int > 6_000_000_000_000_000 {
            assert((sq as int) * (sq as int) > 32_000_000_000_000_000_000_000_000_000_000int)
                by (nonlinear_arith)
                requires sq as int > 6_000_000_000_000_000;
            assert(false);
        }
    }
    let s: i128 = sq as i128;
    let num1: i128 = -b - s;
    if num1 >= 0 {
        let t = div_nn(num1 * (SCALE as i128), 2 * a);
        proof {
            lemma_div_below(num1 as int * (SCALE as int), 2 * (a as int), T_RAY_MAX as int);
        }
        return Some(t as i64);
    }
    let num2: i128 = -b + s;
    if num2 >= 0 {
        let t = div_nn(num2 * (SCALE as i128), 2 * a);
        proof {
            lemma_div_below(num2 as int * (SCALE as int), 2 * (a as int), T_RAY_MAX as int);
        }
        return Some(t as i64);
    }
    None
}

/// A ray aimed straight at the cylinder's center from outside crosses the
/// circle exactly at its distance to the rim: with origin `(p, 0)` and
/// direction `(-d, 0)`, the parametric distance is `(p - radius) * SCALE / d`
/// -- for the unit direction, exactly `p - radius`, with no rounding at all.
pub proof fn lemma_ray_aimed_at_center(p: int, d: int, radius: int)
    requires
        0 < radius < p <= COORD_MAX as int,
        (SCALE as int) / 2 <= d <= SCALE as int,
    ensures
        ray_circle_spec(p, 0, -d, 0, radius) == Some((p - radius) * (SCALE as int) / d),
        d == SCALE as int ==> ray_circle_spec(p, 0, -d, 0, radius) == Some(p - radius),
{
    let a = quad_a(-d, 0);
    let b = quad_b(p, 0, -d, 0);
    let c = quad_c(p, 0, radius);
    let disc = quad_disc(p, 0, -d, 0, radius);
    assert(a == d * d && a >= 1) by (nonlinear_arith)
        requires a == (-d) * (-d) + 0 * 0, d >= 500_000;
    assert(b == -2 * (d * p)) by (nonlinear_arith)
        requires b == 2 * ((-d) * p + 0 * 0);
    assert(c == p * p + 0 * 0 - radius * radius);
    let s = 2 * (d * radius);
    assert(disc == s * s && s > 0) by (nonlinear_arith)
        requires
            disc == b * b - 4 * a * c,
            b == -2 * (d * p),
            a == d * d,
            c == p * p + 0 * 0 - radius * radius,
            s == 2 * (d * radius),
            d > 0,
            radius > 0;
    assert(disc >= 0 && s * s <= disc && disc < (s + 1) * (s + 1)) by (nonlinear_arith)
        requires disc == s * s, s > 0;
    lemma_isqrt_unique(disc as nat, s as nat);
    let num = -b - s;
    assert(num == 2 * (d * p) - 2 * (d * radius));
    assert(num >= 0) by (nonlinear_arith)
        requires num == 2 * (d * p) - 2 * (d * radius), radius < p, d > 0;

    // Scaling dividend and divisor by the same factor keeps the quotient.
    let q = (p - radius) * (SCALE as int) / d;
    lemma_fundamental_div_mod((p - radius) * (SCALE as int), d);
    assert(d * q <= (p - radius) * (SCALE as int)
        && (p - radius) * (SCALE as int) < d * (q + 1)) by (nonlinear_arith)
        requires
            (p - radius) * (SCALE as int)
                == d * q + (p - radius) * (SCALE as int) % d,
            0 <= (p - radius) * (SCALE as int) % d < d;
    assert((2 * a) * q <= num * (SCALE as int)
        && num * (SCALE as int) < (2 * a) * (q + 1)) by (nonlinear_arith)
        requires
            a == d * d,
            num == 2 * (d * p) - 2 * (d * radius),
            d * q <= (p - radius) * (SCALE as int),
            (p - radius) * (SCALE as int) < d * (q + 1),
            d > 0;
    assert(num * (SCALE as int) >= 0) by (nonlinear_arith)
        requires num >= 0;
    lemma_div_at_least(num * (SCALE as int), 2 * a, q);
    lemma_div_below(num * (SCALE as int), 2 * a, q + 1);

    if d == SCALE as int {
        assert((SCALE as int) * (p - radius) <= (p - radius) * (SCALE as int)
            && (p - radius) * (SCALE as int) < (SCALE as int) * (p - radius + 1))
            by (nonlinear_arith)
            requires p - radius >= 1;
        lemma_div_at_least((p - radius) * (SCALE as int), SCALE as int, p - radius);
        lemma_div_below((p - radius) * (SCALE as int), SCALE as int, p - radius + 1);
    }
}

// ---------------------------------------------------------------------------
// Angular unwrap
// ---------------------------------------------------------------------------

/// Bow of the octant arctangent below, in turn steps.
pub const ATAN_K: i64 = 43_450;

/// Largest value the octant arctangent can take.
pub const ATAN_MAX: i64 = 168_450;

/// Arctangent of `ratio / SCALE`, in turn steps: an eighth of a turn scaled
/// linearly, plus a bowed correction that vanishes at both octant ends.
pub open spec fn atan_octant_spec(ratio: int) -> int {
    ratio / 8 + ratio * ((SCALE as int) - ratio) / (SCALE as int) * (ATAN_K as int)
        / (SCALE as int)
}

fn atan_octant(ratio: i64) -> (t: i64)
    requires
        0 <= ratio <= SCALE,
    ensures
        t == atan_octant_spec(ratio as int),
        0 <= t <= ATAN_MAX,
{
    let r = ratio as i128;
    proof {
        lemma_div_below(ratio as int, 8, 125_001);
        lemma_abs_mul_le(ratio as int, (SCALE as int) - ratio as int,
            SCALE as int, SCALE as int);
        assert(ratio as int * ((SCALE as int) - ratio as int) >= 0) by (nonlinear_arith)
            requires 0 <= ratio as int <= SCALE as int;
    }
    let lin = div_nn(r, 8);
    proof {
        lemma_div_below(r as int * ((SCALE as int) - r as int), SCALE as int,
            (SCALE as int) + 1);
    }
    let bow0 = div_nn(r * ((SCALE as i128) - r), SCALE as i128);
    proof {
        lemma_abs_mul_le(bow0 as int, ATAN_K as int, (SCALE as int) + 1, ATAN_K as int);
        lemma_div_below(bow0 as int * (ATAN_K as int), SCALE as int, 43_451);
        assert(bow0 as int * (ATAN_K as int) >= 0) by (nonlinear_arith)
            requires bow0 as int >= 0;
    }
    let bow = div_nn(bow0 * (ATAN_K as i128), SCALE as i128);
    (lin + bow) as i64
}

/// Angle of the direction `(ax, ay)` within the first quadrant, in turn
/// steps, folded octant-wise around the diagonal.
pub open spec fn quadrant_spec(ay: int, ax: int) -> int {
    if ax >= ay {
        atan_octant_spec(ay * (SCALE as int) / ax)
    } else {
        (SCALE as int) / 4 - atan_octant_spec(ax * (SCALE as int) / ay)
    }
}

fn quadrant(ay: i128, ax: i128) -> (t: i64)
    requires
        0 <= ay <= POINT_MAX,
        0 <= ax <= POINT_MAX,
        ay + ax > 0,
    ensures
        t == quadrant_spec(ay as int, ax as int),
        0 <= t <= (SCALE as int) / 4,
{
    if ax >= ay {
        proof {
            assert(ay as int * (SCALE as int) < ax as int * ((SCALE as int) + 1))
                by (nonlinear_arith)
                requires 0 <= ay as int <= ax as int, 1 <= ax as int;
            lemma_div_below(ay as int * (SCALE as int), ax as int, (SCALE as int) + 1);
            lemma_div_pos_is_pos(ay as int * (SCALE as int), ax as int);
        }
        let ratio = div_nn(ay * (SCALE as i128), ax);
        atan_octant(ratio as i64)
    } else {
        proof {
            assert(ax as int * (SCALE as int) < ay as int * ((SCALE as int) + 1))
                by (nonlinear_arith)
                requires 0 <= ax as int <= ay as int, 1 <= ay as int;
            lemma_div_below(ax as int * (SCALE as int), ay as int, (SCALE as int) + 1);
            lemma_div_pos_is_pos(ax as int * (SCALE as int), ay as int);
        }
        let ratio = div_nn(ax * (SCALE as i128), ay);
        250_000 - atan_octant(ratio as i64)
    }
}

/// Counterclockwise angle of `(x, y)` from the positive `x` half-axis, as a
/// fraction of a full turn in `[0, SCALE)`; zero when both arguments are
/// zero.
pub open spec fn angle_turns_spec(y: int, x: int) -> int {
    if y == 0 && x == 0 {
        0
    } else if y >= 0 && x >= 0 {
        quadrant_spec(y, x)
    } else if y >= 0 {
        (SCALE as int) / 2 - quadrant_spec(y, -x)
    } else if x < 0 {
        (SCALE as int) / 2 + quadrant_spec(-y, -x)
    } else {
        let w = (SCALE as int) - quadrant_spec(-y, x);
        if w == SCALE as int {
            0
        } else {
            w
        }
    }
}

fn angle_turns(y: i128, x: i128) -> (t: i64)
    requires
        -POINT_MAX <= y <= POINT_MAX,
        -POINT_MAX <= x <= POINT_MAX,
    ensures
        t == angle_turns_spec(y as int, x as int),
        0 <= t < SCALE,
{
    if y == 0 && x == 0 {
        0
    } else if y >= 0 && x >= 0 {
        quadrant(y, x)
    } else if y >= 0 {
        500_000 - quadrant(y, -x)
    } else if x < 0 {
        500_000 + quadrant(-y, -x)
    } else {
        let w = (SCALE) - quadrant(-y, x);
        if w == SCALE {
            0
        } else {
            w
        }
    }
}

// ---------------------------------------------------------------------------
// Point mapping
// ---------------------------------------------------------------------------

/// Where a 3D point lands on the unwrapped surface: nothing when the point
/// leaves the cylinder's vertical extent, else the angular coordinate `u`
/// from the unwrap of the cross-section — a half turn offset so the seam
/// faces forward — and the vertical coordinate `v`, top mapped to zero.
pub open spec fn map_point_spec(x: int, y: int, z: int, g: SurfaceGeometry) -> Option<(int, int)> {
    if 2 * y > g.height || 2 * y < -(g.height as int) {
        None
    } else {
        let w = angle_turns_spec(x, -z) + (SCALE as int) / 2;
        let u = if w >= SCALE as int {
            w - SCALE as int
        } else {
            w
        };
        let v = ((g.height as int) - 2 * y) * (SCALE as int) / (2 * (g.height as int));
        Some((u, v))
    }
}

/// The executable result carries exactly the coordinate the model names.
pub open spec fn coord_matches(r: Option<SurfaceCoord>, s: Option<(int, int)>) -> bool {
    match r {
        Some(c) => s == Some((c.u as int, c.v as int)),
        None => s is None,
    }
}

fn map_point_wide(x: i128, y: i128, z: i128, g: SurfaceGeometry) -> (r: Option<SurfaceCoord>)
    requires
        -POINT_MAX <= x <= POINT_MAX,
        -POINT_MAX <= y <= POINT_MAX,
        -POINT_MAX <= z <= POINT_MAX,
        g.wf(),
    ensures
        coord_matches(r, map_point_spec(x as int, y as int, z as int, g)),
        r is None <==> (2 * y > g.height || 2 * y < -(g.height as int)),
        r matches Some(c) ==> 0 <= c.u < SCALE && 0 <= c.v <= SCALE,
{
    let h = g.height as i128;
    if 2 * y > h || 2 * y < -h {
        return None;
    }
    let ang = angle_turns(x, -z);
    let w = ang + 500_000;
    let u = if w >= SCALE {
        w - SCALE
    } else {
        w
    };
    proof {
        assert((h as int - 2 * (y as int)) * (SCALE as int)
            < (2 * (h as int)) * ((SCALE as int) + 1)) by (nonlinear_arith)
            requires
                h as int - 2 * (y as int) <= 2 * (h as int),
                h as int >= 1;
        lemma_div_below((h as int - 2 * (y as int)) * (SCALE as int), 2 * (h as int),
            (SCALE as int) + 1);
    }
    let v = div_nn((h - 2 * y) * (SCALE as i128), 2 * h);
    Some(SurfaceCoord { u, v: v as i64 })
}

// ---------------------------------------------------------------------------
// Ray mapping
// ---------------------------------------------------------------------------

/// Where a ray lands on the surface: its origin and direction are projected
/// onto the cross-section plane, the projected direction is normalized, the
/// circle crossing is found, the parametric distance is corrected for the
/// foreshortening of the projection, and the 3D point the ray reaches is
/// unwrapped.  A ray parallel to the cylinder's axis projects to nothing.
pub open spec fn map_ray_spec(o: Vec3Fx, d: Vec3Fx, g: SurfaceGeometry) -> Option<(int, int)> {
    let len2 = isqrt_spec(quad_a(d.x as int, d.z as int) as nat) as int;
    if len2 == 0 {
        None
    } else {
        let dxn = tdiv(d.x * (SCALE as int), len2);
        let dzn = tdiv(d.z * (SCALE as int), len2);
        match ray_circle_spec(o.x as int, o.z as int, dxn, dzn, g.radius as int) {
            None => None,
            Some(t2d) => {
                let t = t2d * (SCALE as int) / len2;
                let px = o.x + tdiv(d.x * t, SCALE as int);
                let py = o.y + tdiv(d.y * t, SCALE as int);
                let pz = o.z + tdiv(d.z * t, SCALE as int);
                map_point_spec(px, py, pz, g)
            },
        }
    }
}

/// Normalizing a non-degenerate projected direction yields components of at
/// most one unit whose squared length reaches the intersection routine's
/// floor.
proof fn lemma_normalize(dx: int, dz: int, len2: int)
    requires
        -(SCALE as int) <= dx <= SCALE as int,
        -(SCALE as int) <= dz <= SCALE as int,
        len2 == isqrt_spec(quad_a(dx, dz) as nat) as int,
        1 <= len2,
    ensures
        -(SCALE as int) <= tdiv(dx * (SCALE as int), len2) <= SCALE as int,
        -(SCALE as int) <= tdiv(dz * (SCALE as int), len2) <= SCALE as int,
        quad_a(tdiv(dx * (SCALE as int), len2), tdiv(dz * (SCALE as int), len2))
            >= PROJ_MIN_SQ as int,
{
    let n = quad_a(dx, dz);
    assert(n == dx * dx + dz * dz);
    assert(dx * dx >= 0 && dz * dz >= 0) by (nonlinear_arith);
    lemma_isqrt_spec(n as nat);
    assert(len2 * len2 <= n);
    assert(n < (len2 + 1) * (len2 + 1));
    let ax = if dx >= 0 { dx } else { -dx };
    let az = if dz >= 0 { dz } else { -dz };
    assert(ax * ax == dx * dx && az * az == dz * dz) by (nonlinear_arith)
        requires ax == dx || ax == -dx, az == dz || az == -dz;
    if ax > len2 {
        assert(ax * ax >= (len2 + 1) * (len2 + 1)) by (nonlinear_arith)
            requires ax >= len2 + 1, len2 >= 0;
        assert(false);
    }
    if az > len2 {
        assert(az * az >= (len2 + 1) * (len2 + 1)) by (nonlinear_arith)
            requires az >= len2 + 1, len2 >= 0;
        assert(false);
    }
    let m = if ax >= az { ax } else { az };
    if m == 0 {
        assert(n == 0);
        assert(isqrt_spec(0nat) == 0);
        assert(false);
    }
    assert(n <= 2 * (m * m)) by (nonlinear_arith)
        requires
            0 <= ax <= m,
            0 <= az <= m,
            n == ax * ax + az * az;
    if len2 > 2 * m {
        assert(len2 * len2 > 4 * (m * m)) by (nonlinear_arith)
            requires len2 >= 2 * m + 1, m >= 0;
        assert(false);
    }
    assert(-(len2 * 1_000_000) <= dx * (SCALE as int) <= len2 * 1_000_000);
    assert(-(len2 * 1_000_000) <= dz * (SCALE as int) <= len2 * 1_000_000);
    lemma_tdiv_le(dx * (SCALE as int), len2, SCALE as int, len2 * 1_000_000);
    lemma_tdiv_le(dz * (SCALE as int), len2, SCALE as int, len2 * 1_000_000);
    assert(len2 * 500_000 <= m * 1_000_000);
    let e = if ax >= az { dx } else { dz };
    assert(len2 * 500_000 <= e * (SCALE as int) || e * (SCALE as int) <= -(len2 * 500_000));
    lemma_tdiv_mag_ge(e * (SCALE as int), len2, 500_000);
    let en = tdiv(e * (SCALE as int), len2);
    assert(en * en >= PROJ_MIN_SQ as int) by (nonlinear_arith)
        requires en >= 500_000 || en <= -500_000;
    let dxn = tdiv(dx * (SCALE as int), len2);
    let dzn = tdiv(dz * (SCALE as int), len2);
    assert(dxn * dxn >= 0 && dzn * dzn >= 0) by (nonlinear_arith);
    assert(quad_a(dxn, dzn) >= PROJ_MIN_SQ as int);
}

/// Maps a ray to its normalized surface coordinate: nothing when the ray's
/// projection misses or leaves the circle behind it, or when the crossing
/// lies beyond the cylinder's vertical extent.
pub fn map_pointer_screen_coords(origin: Vec3Fx, direction: Vec3Fx, g: SurfaceGeometry)
    -> (r: Option<SurfaceCoord>)
    requires
        position_wf(origin),
        direction_wf(direction),
        g.wf(),
    ensures
        coord_matches(r, map_ray_spec(origin, direction, g)),
        r matches Some(c) ==> 0 <= c.u < SCALE && 0 <= c.v <= SCALE,
{
    let dxw = direction.x as i128;
    let dzw = direction.z as i128;
    proof {
        lemma_abs_mul_le(direction.x as int, direction.x as int, SCALE as int, SCALE as int);
        lemma_abs_mul_le(direction.z as int, direction.z as int, SCALE as int, SCALE as int);
        assert(direction.x as int * direction.x as int >= 0
            && direction.z as int * direction.z as int >= 0) by (nonlinear_arith);
    }
    let n2: i128 = dxw * dxw + dzw * dzw;
    let len2w: u128 = isqrt(n2 as u128);
    proof {
        if len2w as int > 2_000_000 {
            assert((len2w as int) * (len2w as int) > 4_000_000_000_000int) by (nonlinear_arith)
                requires len2w as int > 2_000_000;
            assert(false);
        }
    }
    let len2: i128 = len2w as i128;
    if len2 == 0 {
        return None;
    }
    proof {
        lemma_normalize(direction.x as int, direction.z as int, len2 as int);
    }
    let dxn = div_t(dxw * (SCALE as i128), len2);
    let dzn = div_t(dzw * (SCALE as i128), len2);
    let hit = ray_circle_closest_intersection(
        origin.x, origin.z, dxn as i64, dzn as i64, g.radius);
    match hit {
        None => None,
        Some(t2d) => {
            let t: i128 = div_nn((t2d as i128) * (SCALE as i128), len2);
            proof {
                lemma_abs_mul_le(direction.x as int, t as int,
                    SCALE as int, 30_000_000_000_000_000);
                lemma_abs_mul_le(direction.y as int, t as int,
                    SCALE as int, 30_000_000_000_000_000);
                lemma_abs_mul_le(direction.z as int, t as int,
                    SCALE as int, 30_000_000_000_000_000);
                lemma_tdiv_le(direction.x as int * (t as int), SCALE as int,
                    30_000_000_000_000_000, 30_000_000_000_000_000_000_000);
                lemma_tdiv_le(direction.y as int * (t as int), SCALE as int,
                    30_000_000_000_000_000, 30_000_000_000_000_000_000_000);
                lemma_tdiv_le(direction.z as int * (t as int), SCALE as int,
                    30_000_000_000_000_000, 30_000_000_000_000_000_000_000);
            }
            let px: i128 = (origin.x as i128) + div_t((direction.x as i128) * t, SCALE as i128);
            let py: i128 = (origin.y as i128) + div_t((direction.y as i128) * t, SCALE as i128);
            let pz: i128 = (origin.z as i128) + div_t((direction.z as i128) * t, SCALE as i128);
            map_point_wide(px, py, pz, g)
        },
    }
}

/// Maps a 3D point to its normalized surface coordinate; points beyond half
/// the height above or below the cylinder's middle map to nothing.
pub fn map_point_screen_coords(point: Vec3Fx, g: SurfaceGeometry) -> (r: Option<SurfaceCoord>)
    requires
        position_wf(point),
        g.wf(),
    ensures
        coord_matches(r, map_point_spec(point.x as int, point.y as int, point.z as int, g)),
        r is None <==> (2 * point.y > g.height || 2 * point.y < -(g.height as int)),
        r matches Some(c) ==> 0 <= c.u < SCALE && 0 <= c.v <= SCALE,
{
    map_point_wide(point.x as i128, point.y as i128, point.z as i128, g)
}


/// Vertical round trip: take any normalized vertical coordinate, reconstruct
/// the height it names on the cylinder, and map that height back; the
/// coordinate returns, within the granularity the surface's height resolves
/// (one reconstruction step is `SCALE / height`, and one flooring is lost).
pub proof fn lemma_vertical_round_trip(v: int, g: SurfaceGeometry)
    requires
        g.wf(),
        0 <= v <= SCALE as int,
    ensures
        ({
            let y = tdiv(g.height * ((SCALE as int) - 2 * v), 2 * (SCALE as int));
            let err = (SCALE as int) / (g.height as int) + 1;
            &&& -(g.height as int) <= 2 * y <= g.height as int
            &&& (map_point_spec(0, y, -(g.radius as int), g) matches Some(uv)
                && v - err <= uv.1 <= v + err)
        }),
{
    let h = g.height as int;
    let n = h * ((SCALE as int) - 2 * v);
    let y = tdiv(n, 2 * (SCALE as int));
    let err = (SCALE as int) / h + 1;
    assert(-(h * 1_000_000) <= n <= h * 1_000_000) by (nonlinear_arith)
        requires
            n == h * (1_000_000 - 2 * v),
            0 <= v <= 1_000_000,
            h >= 1;

    // Truncating division leaves a remainder below one divisor, of the
    // dividend's sign.
    let rho = n - 2_000_000 * y;
    if n >= 0 {
        lemma_fundamental_div_mod(n, 2_000_000);
        assert(y == n / 2_000_000);
        assert(0 <= rho < 2_000_000);
    } else {
        lemma_fundamental_div_mod(-n, 2_000_000);
        assert(y == -((-n) / 2_000_000));
        assert(-2_000_000 < rho <= 0);
    }

    // The reconstruction stays within the cylinder's vertical extent.
    assert(2 * y <= h && -h <= 2 * y) by (nonlinear_arith)
        requires
            n == 2_000_000 * y + rho,
            -(h * 1_000_000) <= n <= h * 1_000_000,
            -2_000_000 < rho < 2_000_000,
            (n >= 0 ==> rho >= 0 && y >= 0) && (n < 0 ==> rho <= 0 && y <= 0),
            h >= 1;

    // Mapping back divides `2 * h * v + rho` by `2 * h`.
    assert((h - 2 * y) * (SCALE as int) == 2 * (h * v) + rho) by (nonlinear_arith)
        requires
            n == 2_000_000 * y + rho,
            n == h * (1_000_000 - 2 * v);
    assert((h - 2 * y) * (SCALE as int) >= 0) by (nonlinear_arith)
        requires h - 2 * y >= 0;

    // The height resolves SCALE into at least `SCALE / h`-sized steps.
    lemma_fundamental_div_mod(1_000_000int, h);
    assert(h * (1_000_000int / h) > 1_000_000 - h);
    assert(rho < (2 * h) * (err + 1) && -((2 * h) * err) < rho) by (nonlinear_arith)
        requires
            err == 1_000_000int / h + 1,
            h * (1_000_000int / h) > 1_000_000 - h,
            h >= 1,
            -2_000_000 < rho < 2_000_000;
    assert((2 * h) * (v - err) <= 2 * (h * v) + rho
        && 2 * (h * v) + rho < (2 * h) * (v + err + 1)) by (nonlinear_arith)
        requires
            rho < (2 * h) * (err + 1),
            -((2 * h) * err) < rho;
    lemma_div_at_least(2 * (h * v) + rho, 2 * h, v - err);
    lemma_div_below(2 * (h * v) + rho, 2 * h, v + err + 1);
    assert(((h - 2 * y) * (SCALE as int)) / (2 * h) == (2 * (h * v) + rho) / (2 * h));
}

} // verus!
