//! Fixed-point world coordinates and straight-line motion.

use vstd::prelude::*;
use crate::roots::ceil_sqrt;
use crate::roots::ceil_sqrt_u128;
use crate::roots::lemma_square_monotone;

verus! {

/// One world unit, in the fixed-point steps that coordinates count.
pub const UNIT: i64 = 1_000_000_000;

/// Largest magnitude of a coordinate: a million world units.
pub const WORLD_LIMIT: i64 = 1_000_000_000_000_000;

/// Largest magnitude of a difference between two coordinates.
pub const SPAN_LIMIT: i64 = 2_000_000_000_000_000;

/// The nearest value to `v` that is a coordinate of the world.
pub open spec fn clamp_coord(v: int) -> int {
    if v < -WORLD_LIMIT {
        -WORLD_LIMIT
    } else if v > WORLD_LIMIT {
        WORLD_LIMIT as int
    } else {
        v
    }
}

/// The nearest value to `v` that is a difference of two coordinates.
pub open spec fn clamp_span(v: int) -> int {
    if v < -SPAN_LIMIT {
        -SPAN_LIMIT
    } else if v > SPAN_LIMIT {
        SPAN_LIMIT as int
    } else {
        v
    }
}

/// Squared length of the vector `v`.
pub open spec fn norm_sq(v: (int, int)) -> int {
    v.0 * v.0 + v.1 * v.1
}

/// Squared distance between `a` and `b`.
pub open spec fn dist_sq(a: (int, int), b: (int, int)) -> int {
    norm_sq((b.0 - a.0, b.1 - a.1))
}

/// One component of a step of length `reach` along a vector of length `len`
/// whose matching component is `d`: `d * reach / len`, rounded toward zero.
pub open spec fn step_component(d: int, reach: nat, len: nat) -> int {
    if d >= 0 {
        (d * reach) / (len as int)
    } else {
        -(((-d) * reach) / (len as int))
    }
}

/// The step of length `reach` in the direction of `heading`. The zero heading
/// has no direction and gives the zero step. The length of `heading` is
/// rounded up, so the step is never longer than `reach`.
pub open spec fn step_along(heading: (int, int), reach: nat) -> (int, int) {
    if heading.0 == 0 && heading.1 == 0 {
        (0int, 0int)
    } else {
        let len = ceil_sqrt(norm_sq(heading) as nat);
        (step_component(heading.0, reach, len), step_component(heading.1, reach, len))
    }
}

/// Where a move by `step` from `from` ends: at the world's edge where the
/// step would leave the world.
pub open spec fn translate(from: (int, int), step: (int, int)) -> (int, int) {
    (clamp_coord(from.0 + step.0), clamp_coord(from.1 + step.1))
}

/// Where a move of length `reach` from `from` in the direction of `heading` ends.
pub open spec fn advance(from: (int, int), heading: (int, int), reach: nat) -> (int, int) {
    translate(from, step_along(heading, reach))
}

/// A step is never longer than its reach, and no component of it points
/// against the heading.
pub proof fn lemma_step_bounded(heading: (int, int), reach: nat)
    ensures
        norm_sq(step_along(heading, reach)) <= reach * reach,
        heading.0 >= 0 ==> step_along(heading, reach).0 >= 0,
        heading.0 <= 0 ==> step_along(heading, reach).0 <= 0,
        heading.1 >= 0 ==> step_along(heading, reach).1 >= 0,
        heading.1 <= 0 ==> step_along(heading, reach).1 <= 0,
{
    let step = step_along(heading, reach);
    if heading.0 == 0 && heading.1 == 0 {
        assert(reach * reach >= 0) by (nonlinear_arith);
    } else {
        let n = norm_sq(heading);
        assert(n >= 1) by (nonlinear_arith)
            requires
                n == heading.0 * heading.0 + heading.1 * heading.1,
                heading.0 != 0 || heading.1 != 0,
        ;
        let len = ceil_sqrt(n as nat);
        crate::roots::lemma_ceil_sqrt_exists(n as nat);
        assert(len >= 1) by {
            if len == 0 {
                assert(len * len == 0);
            }
        }
        let ax: int = if heading.0 >= 0 { heading.0 } else { -heading.0 };
        let ay: int = if heading.1 >= 0 { heading.1 } else { -heading.1 };
        let a: int = (ax * reach) / (len as int);
        let b: int = (ay * reach) / (len as int);
        lemma_quotient_square(ax, reach as int, len as int);
        lemma_quotient_square(ay, reach as int, len as int);
        assert(step.0 == a || step.0 == -a);
        assert(step.1 == b || step.1 == -b);
        assert(step.0 * step.0 == a * a) by (nonlinear_arith)
            requires
                step.0 == a || step.0 == -a,
        ;
        assert(step.1 * step.1 == b * b) by (nonlinear_arith)
            requires
                step.1 == b || step.1 == -b,
        ;
        assert(ax * ax + ay * ay == n) by (nonlinear_arith)
            requires
                ax == heading.0 || ax == -heading.0,
                ay == heading.1 || ay == -heading.1,
                n == heading.0 * heading.0 + heading.1 * heading.1,
        ;
        let l2: int = (len * len) as int;
        let r2: int = (reach * reach) as int;
        assert((a * a + b * b) * l2 <= r2 * l2) by (nonlinear_arith)
            requires
                a * a * l2 <= ax * ax * r2,
                b * b * l2 <= ay * ay * r2,
                ax * ax + ay * ay == n,
                n <= l2,
                r2 >= 0,
        ;
        assert(a * a + b * b <= r2) by (nonlinear_arith)
            requires
                (a * a + b * b) * l2 <= r2 * l2,
                l2 >= 1,
        ;
    }
}

/// For `q = (a * r) / l` rounded down, `q * q * l * l <= a * a * r * r`, and
/// `q` is not negative.
proof fn lemma_quotient_square(a: int, r: int, l: int)
    requires
        a >= 0,
        r >= 0,
        l >= 1,
    ensures
        0 <= (a * r) / l,
        ((a * r) / l) * ((a * r) / l) * (l * l) <= a * a * (r * r),
{
    let p: int = a * r;
    assert(p >= 0) by (nonlinear_arith)
        requires
            p == a * r,
            a >= 0,
            r >= 0,
    ;
    let q: int = p / l;
    vstd::arithmetic::div_mod::lemma_fundamental_div_mod(p, l);
    vstd::arithmetic::div_mod::lemma_mod_bound(p, l);
    vstd::arithmetic::div_mod::lemma_div_pos_is_pos(p, l);
    assert(q * l <= p) by (nonlinear_arith)
        requires
            p == l * q + p % l,
            0 <= p % l,
    ;
    assert((q * l) * (q * l) <= p * p) by (nonlinear_arith)
        requires
            0 <= q * l <= p,
    ;
    assert((q * l) * (q * l) == q * q * (l * l)) by (nonlinear_arith);
    assert(p * p == a * a * (r * r)) by (nonlinear_arith)
        requires
            p == a * r,
    ;
}

/// A move inside the world covers, on each axis, no more than its step and
/// goes the step's way.
pub proof fn lemma_translate_bounded(from: (int, int), step: (int, int))
    requires
        -WORLD_LIMIT <= from.0 <= WORLD_LIMIT,
        -WORLD_LIMIT <= from.1 <= WORLD_LIMIT,
    ensures
        dist_sq(from, translate(from, step)) <= norm_sq(step),
        step.0 >= 0 ==> 0 <= translate(from, step).0 - from.0 <= step.0,
        step.0 <= 0 ==> step.0 <= translate(from, step).0 - from.0 <= 0,
        step.1 >= 0 ==> 0 <= translate(from, step).1 - from.1 <= step.1,
        step.1 <= 0 ==> step.1 <= translate(from, step).1 - from.1 <= 0,
{
    let to = translate(from, step);
    let mx: int = to.0 - from.0;
    let my: int = to.1 - from.1;
    assert(mx * mx <= step.0 * step.0) by (nonlinear_arith)
        requires
            (0 <= mx <= step.0) || (step.0 <= mx <= 0),
    ;
    assert(my * my <= step.1 * step.1) by (nonlinear_arith)
        requires
            (0 <= my <= step.1) || (step.1 <= my <= 0),
    ;
}

/// A position in the world.
#[derive(Clone, Copy, Debug, PartialEq, Eq, Structural)]
pub struct Point {
    x: i64,
    y: i64,
}

/// The difference between two positions; also a direction of travel.
#[derive(Clone, Copy, Debug, PartialEq, Eq, Structural)]
pub struct Offset {
    dx: i64,
    dy: i64,
}

impl Offset {
    /// The offset as a pair of integers.
    pub closed spec fn view(self) -> (int, int) {
        (self.dx as int, self.dy as int)
    }

    /// Both components are differences of coordinates of the world.
    #[verifier::type_invariant]
    pub open spec fn in_span(self) -> bool {
        &&& -SPAN_LIMIT <= self@.0 <= SPAN_LIMIT
        &&& -SPAN_LIMIT <= self@.1 <= SPAN_LIMIT
    }

    /// The offset `(dx, dy)`, each component brought into range.
    pub fn new(dx: i64, dy: i64) -> (o: Offset)
        ensures
            o@ == (clamp_span(dx as int), clamp_span(dy as int)),
            o.in_span(),
    {
        let cx: i64 = if dx < -SPAN_LIMIT {
            -SPAN_LIMIT
        } else if dx > SPAN_LIMIT {
            SPAN_LIMIT
        } else {
            dx
        };
        let cy: i64 = if dy < -SPAN_LIMIT {
            -SPAN_LIMIT
        } else if dy > SPAN_LIMIT {
            SPAN_LIMIT
        } else {
            dy
        };
        Offset { dx: cx, dy: cy }
    }

    /// The horizontal component.
    pub fn dx(&self) -> (r: i64)
        ensures
            r == self@.0,
            self.in_span(),
    {
        proof {
            use_type_invariant(self);
        }
        self.dx
    }

    /// The vertical component.
    pub fn dy(&self) -> (r: i64)
        ensures
            r == self@.1,
            self.in_span(),
    {
        proof {
            use_type_invariant(self);
        }
        self.dy
    }

    /// Two offsets with the same components are the same offset.
    pub proof fn lemma_view_injective(a: Offset, b: Offset)
        requires
            a@ == b@,
        ensures
            a == b,
    {
    }
}

impl Point {
    /// The position as a pair of integers.
    pub closed spec fn view(self) -> (int, int) {
        (self.x as int, self.y as int)
    }

    /// Both coordinates lie in the world.
    #[verifier::type_invariant]
    pub open spec fn in_world(self) -> bool {
        &&& -WORLD_LIMIT <= self@.0 <= WORLD_LIMIT
        &&& -WORLD_LIMIT <= self@.1 <= WORLD_LIMIT
    }

    /// The position `(x, y)`, each coordinate brought into the world.
    pub fn new(x: i64, y: i64) -> (p: Point)
        ensures
            p@ == (clamp_coord(x as int), clamp_coord(y as int)),
            p.in_world(),
    {
        let cx: i64 = if x < -WORLD_LIMIT {
            -WORLD_LIMIT
        } else if x > WORLD_LIMIT {
            WORLD_LIMIT
        } else {
            x
        };
        let cy: i64 = if y < -WORLD_LIMIT {
            -WORLD_LIMIT
        } else if y > WORLD_LIMIT {
            WORLD_LIMIT
        } else {
            y
        };
        Point { x: cx, y: cy }
    }

    /// The centre of the world.
    pub fn origin() -> (p: Point)
        ensures
            p@ == (0int, 0int),
    {
        Point { x: 0, y: 0 }
    }

    /// The horizontal coordinate.
    pub fn x(&self) -> (r: i64)
        ensures
            r == self@.0,
            self.in_world(),
    {
        proof {
            use_type_invariant(self);
        }
        self.x
    }

    /// The vertical coordinate.
    pub fn y(&self) -> (r: i64)
        ensures
            r == self@.1,
            self.in_world(),
    {
        proof {
            use_type_invariant(self);
        }
        self.y
    }

    /// Two positions with the same coordinates are the same position.
    pub proof fn lemma_view_injective(a: Point, b: Point)
        requires
            a@ == b@,
        ensures
            a == b,
    {
    }

    /// The offset that leads from here to `target`.
    pub fn offset_to(&self, target: &Point) -> (o: Offset)
        ensures
            o@ == (target@.0 - self@.0, target@.1 - self@.1),
    {
        proof {
            use_type_invariant(self);
            use_type_invariant(target);
        }
        Offset { dx: target.x - self.x, dy: target.y - self.y }
    }

    /// The square of the distance to `other`.
    pub fn distance_squared(&self, other: &Point) -> (d: u128)
        ensures
            d == dist_sq(self@, other@),
    {
        proof {
            use_type_invariant(self);
            use_type_invariant(other);
        }
        let dx: i128 = other.x as i128 - self.x as i128;
        let dy: i128 = other.y as i128 - self.y as i128;
        assert(0 <= dx * dx <= 4_000_000_000_000_000_000_000_000_000_000) by (nonlinear_arith)
            requires
                -2_000_000_000_000_000 <= dx <= 2_000_000_000_000_000,
        ;
        assert(0 <= dy * dy <= 4_000_000_000_000_000_000_000_000_000_000) by (nonlinear_arith)
            requires
                -2_000_000_000_000_000 <= dy <= 2_000_000_000_000_000,
        ;
        (dx * dx + dy * dy) as u128
    }

    /// The position reached by the step `(dx, dy)`, stopped at the world's edge.
    pub fn translated(&self, dx: i128, dy: i128) -> (p: Point)
        ensures
            p@ == translate(self@, (dx as int, dy as int)),
    {
        proof {
            use_type_invariant(self);
        }
        Point { x: shift_coord(self.x, dx), y: shift_coord(self.y, dy) }
    }

    /// The position reached by going `reach` in the direction of `heading`,
    /// stopped at the world's edge. A zero heading leaves the position as it is.
    pub fn advanced(&self, heading: &Offset, reach: u128) -> (p: Point)
        ensures
            p@ == advance(self@, heading@, reach as nat),
    {
        proof {
            use_type_invariant(self);
            use_type_invariant(heading);
        }
        if heading.dx == 0 && heading.dy == 0 {
            return *self;
        }
        let ax: u128 = magnitude(heading.dx);
        let ay: u128 = magnitude(heading.dy);
        assert(ax * ax <= 4_000_000_000_000_000_000_000_000_000_000) by (nonlinear_arith)
            requires
                ax <= 2_000_000_000_000_000,
        ;
        assert(ay * ay <= 4_000_000_000_000_000_000_000_000_000_000) by (nonlinear_arith)
            requires
                ay <= 2_000_000_000_000_000,
        ;
        assert(ax * ax + ay * ay >= 1) by (nonlinear_arith)
            requires
                ax >= 1 || ay >= 1,
        ;
        assert(ax * ax == heading@.0 * heading@.0) by (nonlinear_arith)
            requires
                ax == heading@.0 || ax == -heading@.0,
        ;
        assert(ay * ay == heading@.1 * heading@.1) by (nonlinear_arith)
            requires
                ay == heading@.1 || ay == -heading@.1,
        ;
        let len: u128 = ceil_sqrt_u128(ax * ax + ay * ay);
        proof {
            lemma_len_bounds((ax * ax + ay * ay) as nat, len as nat);
        }
        let sx: u128 = capped_step(ax, reach, len);
        let sy: u128 = capped_step(ay, reach, len);
        let nx: i64 = if heading.dx >= 0 {
            shift_coord(self.x, sx as i128)
        } else {
            shift_coord(self.x, -(sx as i128))
        };
        let ny: i64 = if heading.dy >= 0 {
            shift_coord(self.y, sy as i128)
        } else {
            shift_coord(self.y, -(sy as i128))
        };
        Point { x: nx, y: ny }
    }
}

/// The rounded-up root of a squared length between 1 and the square of the
/// longest offset is at least 1 and fits the arithmetic of a step.
proof fn lemma_len_bounds(v: nat, len: nat)
    requires
        1 <= v <= 8_000_000_000_000_000_000_000_000_000_000,
        crate::roots::is_ceil_sqrt(v, len),
    ensures
        1 <= len <= 4_000_000_000_000_000,
{
    if len > 4_000_000_000_000_000 {
        lemma_square_monotone(4_000_000_000_000_000, (len - 1) as nat);
        assert(4_000_000_000_000_000nat * 4_000_000_000_000_000nat
            == 16_000_000_000_000_000_000_000_000_000_000nat) by (nonlinear_arith);
    }
    if len == 0 {
        assert(len * len == 0);
    }
}

/// The magnitude of `d`.
fn magnitude(d: i64) -> (m: u128)
    requires
        -SPAN_LIMIT <= d <= SPAN_LIMIT,
    ensures
        m == if d >= 0 { d as int } else { -d },
{
    if d >= 0 {
        d as u128
    } else {
        (-d) as u128
    }
}

/// The coordinate reached from `c` by the signed step `step`, stopped at the
/// world's edge.
fn shift_coord(c: i64, step: i128) -> (r: i64)
    requires
        -WORLD_LIMIT <= c <= WORLD_LIMIT,
    ensures
        r == clamp_coord(c + step),
        -WORLD_LIMIT <= r <= WORLD_LIMIT,
{
    let room_up: i128 = WORLD_LIMIT as i128 - c as i128;
    let room_down: i128 = -(WORLD_LIMIT as i128) - c as i128;
    if step > room_up {
        WORLD_LIMIT
    } else if step < room_down {
        -WORLD_LIMIT
    } else {
        (c as i128 + step) as i64
    }
}

/// `a * reach / len`, or any value from the widest span upward where the
/// quotient is at least that: from there on the world's edge stops the step
/// all the same.
fn capped_step(a: u128, reach: u128, len: u128) -> (s: u128)
    requires
        a <= SPAN_LIMIT,
        1 <= len <= 4_000_000_000_000_000,
    ensures
        s <= SPAN_LIMIT,
        s == (a * reach) / (len as int) || (s == SPAN_LIMIT && (a * reach) / (len as int)
            >= SPAN_LIMIT),
{
    if a == 0 {
        assert(a * reach == 0) by (nonlinear_arith)
            requires
                a == 0,
        ;
        return 0;
    }
    let most: u128 = u128::MAX / a;
    proof {
        vstd::arithmetic::div_mod::lemma_fundamental_div_mod(u128::MAX as int, a as int);
        vstd::arithmetic::div_mod::lemma_mod_bound(u128::MAX as int, a as int);
        assert(a * most == most * a) by (nonlinear_arith);
    }
    if reach > most {
        proof {
            let product: int = a * reach;
            assert(product >= u128::MAX + 1) by (nonlinear_arith)
                requires
                    product == a * reach,
                    a >= 1,
                    reach >= most + 1,
                    most == u128::MAX / a,
                    most * a + (u128::MAX % a) == u128::MAX,
                    (u128::MAX % a) < a,
            ;
            vstd::arithmetic::div_mod::lemma_div_is_ordered(
                u128::MAX + 1,
                product,
                len as int,
            );
            vstd::arithmetic::div_mod::lemma_div_is_ordered_by_denominator(
                u128::MAX + 1,
                len as int,
                4_000_000_000_000_000,
            );
        }
        return SPAN_LIMIT as u128;
    }
    assert(a * reach <= u128::MAX) by (nonlinear_arith)
        requires
            a >= 1,
            reach <= most,
            most == u128::MAX / a,
            most * a + (u128::MAX % a) == u128::MAX,
            0 <= (u128::MAX % a),
    ;
    let quotient: u128 = (a * reach) / len;
    if quotient > SPAN_LIMIT as u128 {
        SPAN_LIMIT as u128
    } else {
        quotient
    }
}

} // verus!
