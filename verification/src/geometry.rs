//! Positions in metres and the vector arithmetic on them.

use crate::arith::floor_div;
use vstd::arithmetic::div_mod::{lemma_div_is_ordered, lemma_div_multiples_vanish};
use vstd::prelude::*;

verus! {

/// Largest magnitude of a coordinate, in metres: a million kilometres.
pub const MAX_COORDINATE: i64 = 1_000_000_000;

/// A vector of three integers.
pub struct Vector {
    pub x: int,
    pub y: int,
    pub z: int,
}

impl Vector {
    pub open spec fn minus(self, other: Vector) -> Vector {
        Vector { x: self.x - other.x, y: self.y - other.y, z: self.z - other.z }
    }

    pub open spec fn dot(self, other: Vector) -> int {
        self.x * other.x + self.y * other.y + self.z * other.z
    }

    /// Square of the length.
    pub open spec fn norm_sq(self) -> int {
        self.dot(self)
    }

    /// Every coordinate is at most `bound` in magnitude.
    pub open spec fn within(self, bound: int) -> bool {
        &&& -bound <= self.x <= bound
        &&& -bound <= self.y <= bound
        &&& -bound <= self.z <= bound
    }
}

/// A point in space, in metres from the planet's centre, no farther than
/// `MAX_COORDINATE` along any axis.
#[derive(Clone, Copy, Debug, PartialEq, Eq, Structural)]
pub struct Position {
    x: i64,
    y: i64,
    z: i64,
}

impl View for Position {
    type V = Vector;

    closed spec fn view(&self) -> Vector {
        Vector { x: self.x as int, y: self.y as int, z: self.z as int }
    }
}

impl Position {
    #[verifier::type_invariant]
    spec fn in_range(self) -> bool {
        self@.within(MAX_COORDINATE as int)
    }

    /// The point with the given coordinates, if it is in range.
    pub fn new(x: i64, y: i64, z: i64) -> (r: Option<Position>)
        ensures
            r is Some == (Vector { x: x as int, y: y as int, z: z as int }).within(
                MAX_COORDINATE as int,
            ),
            r matches Some(p) ==> p@ == (Vector { x: x as int, y: y as int, z: z as int }),
    {
        if -MAX_COORDINATE <= x && x <= MAX_COORDINATE && -MAX_COORDINATE <= y && y
            <= MAX_COORDINATE && -MAX_COORDINATE <= z && z <= MAX_COORDINATE {
            Some(Position { x, y, z })
        } else {
            None
        }
    }

    /// The planet's centre.
    pub fn origin() -> (r: Position)
        ensures
            r@ == (Vector { x: 0, y: 0, z: 0 }),
    {
        Position { x: 0, y: 0, z: 0 }
    }

    /// The three coordinates, in metres.
    pub fn coordinates(&self) -> (r: (i64, i64, i64))
        ensures
            r.0 == self@.x,
            r.1 == self@.y,
            r.2 == self@.z,
            self@.within(MAX_COORDINATE as int),
    {
        proof {
            use_type_invariant(self);
        }
        (self.x, self.y, self.z)
    }

    pub fn x(&self) -> (r: i64)
        ensures
            r == self@.x,
    {
        self.x
    }

    pub fn y(&self) -> (r: i64)
        ensures
            r == self@.y,
    {
        self.y
    }

    pub fn z(&self) -> (r: i64)
        ensures
            r == self@.z,
    {
        self.z
    }
}


/// The coordinate that lies `part / whole` of the way from `a` to `b`,
/// rounded down.
pub open spec fn lerp_coordinate(a: int, b: int, part: int, whole: int) -> int {
    a + ((b - a) * part) / whole
}

/// The point that lies `part / whole` of the way from `a` to `b`.
pub open spec fn lerp_vector(a: Vector, b: Vector, part: int, whole: int) -> Vector {
    Vector {
        x: lerp_coordinate(a.x, b.x, part, whole),
        y: lerp_coordinate(a.y, b.y, part, whole),
        z: lerp_coordinate(a.z, b.z, part, whole),
    }
}

/// A coordinate between two others lies no farther out than they do.
pub proof fn lemma_lerp_between(a: int, b: int, part: int, whole: int)
    requires
        0 <= part <= whole,
        whole > 0,
    ensures
        a <= b ==> a <= lerp_coordinate(a, b, part, whole) <= b,
        b <= a ==> b <= lerp_coordinate(a, b, part, whole) <= a,
        part == 0 ==> lerp_coordinate(a, b, part, whole) == a,
{
    let d = b - a;
    lemma_div_multiples_vanish(d, whole);
    assert((d * whole) / whole == d) by {
        assert(d * whole == whole * d) by (nonlinear_arith);
    }
    if d >= 0 {
        assert(0 <= d * part <= d * whole) by (nonlinear_arith)
            requires
                d >= 0,
                0 <= part <= whole,
        ;
        lemma_div_is_ordered(0, d * part, whole);
        lemma_div_is_ordered(d * part, d * whole, whole);
    } else {
        assert(d * whole <= d * part <= 0) by (nonlinear_arith)
            requires
                d < 0,
                0 <= part <= whole,
        ;
        lemma_div_is_ordered(d * whole, d * part, whole);
        lemma_div_is_ordered(d * part, 0, whole);
    }
    if part == 0 {
        assert(d * part == 0) by (nonlinear_arith)
            requires
                part == 0,
        ;
    }
}

fn lerp_i64(a: i64, b: i64, part: u64, whole: u64) -> (r: i64)
    requires
        0 <= part <= whole,
        whole > 0,
        -MAX_COORDINATE <= a <= MAX_COORDINATE,
        -MAX_COORDINATE <= b <= MAX_COORDINATE,
    ensures
        r == lerp_coordinate(a as int, b as int, part as int, whole as int),
        -MAX_COORDINATE <= r <= MAX_COORDINATE,
{
    let d: i128 = b as i128 - a as i128;
    proof {
        lemma_lerp_between(a as int, b as int, part as int, whole as int);
        assert(-2_000_000_000 * 0x1_0000_0000_0000_0000 <= d * part <= 2_000_000_000
            * 0x1_0000_0000_0000_0000) by (nonlinear_arith)
            requires
                -2_000_000_000 <= d <= 2_000_000_000,
                0 <= part < 0x1_0000_0000_0000_0000,
        ;
    }
    let step = floor_div(d * (part as i128), whole as i128);
    (a as i128 + step) as i64
}

impl Position {
    /// The point that lies `part / whole` of the way from `self` to `other`,
    /// each coordinate rounded down.
    pub fn lerp(&self, other: &Position, part: u64, whole: u64) -> (r: Position)
        requires
            part <= whole,
            whole > 0,
        ensures
            r@ == lerp_vector(self@, other@, part as int, whole as int),
    {
        proof {
            use_type_invariant(self);
            use_type_invariant(other);
        }
        Position {
            x: lerp_i64(self.x, other.x, part, whole),
            y: lerp_i64(self.y, other.y, part, whole),
            z: lerp_i64(self.z, other.z, part, whole),
        }
    }
}


/// `root` is the square root of `n`, rounded down.
pub open spec fn is_floor_sqrt(n: int, root: int) -> bool {
    0 <= root && root * root <= n < (root + 1) * (root + 1)
}

/// A number has one square root rounded down.
pub proof fn lemma_floor_sqrt_unique(n: int, a: int, b: int)
    requires
        is_floor_sqrt(n, a),
        is_floor_sqrt(n, b),
    ensures
        a == b,
{
    if a < b {
        assert((a + 1) * (a + 1) <= b * b) by (nonlinear_arith)
            requires
                0 <= a,
                a + 1 <= b,
        ;
    } else if b < a {
        assert((b + 1) * (b + 1) <= a * a) by (nonlinear_arith)
            requires
                0 <= b,
                b + 1 <= a,
        ;
    }
}

/// The square root of `n`, rounded down.
pub fn floor_sqrt(n: u64) -> (root: u64)
    ensures
        is_floor_sqrt(n as int, root as int),
        root < 0x1_0000_0000,
{
    let mut low: u64 = 0;
    let mut high: u64 = 0x1_0000_0000;
    assert(0x1_0000_0000int * 0x1_0000_0000int > n) by (nonlinear_arith)
        requires
            n <= 0xffff_ffff_ffff_ffff,
    ;
    while high - low > 1
        invariant
            low < high <= 0x1_0000_0000,
            low * low <= n < high * high,
        decreases high - low,
    {
        let middle = low + (high - low) / 2;
        assert(middle * middle <= 0xffff_ffff * 0xffff_ffff) by (nonlinear_arith)
            requires
                0 <= middle <= 0xffff_ffff,
        ;
        if middle * middle <= n {
            low = middle;
        } else {
            high = middle;
        }
    }
    low
}

impl Position {
    /// The distance from the planet's centre in metres, rounded down.
    pub fn distance_from_centre(&self) -> (r: u64)
        ensures
            is_floor_sqrt(self@.norm_sq(), r as int),
            r < 0x1_0000_0000,
    {
        proof {
            use_type_invariant(self);
            let (x, y, z) = (self.x as int, self.y as int, self.z as int);
            assert(0 <= x * x <= 1_000_000_000_000_000_000) by (nonlinear_arith)
                requires
                    -1_000_000_000 <= x <= 1_000_000_000,
            ;
            assert(0 <= y * y <= 1_000_000_000_000_000_000) by (nonlinear_arith)
                requires
                    -1_000_000_000 <= y <= 1_000_000_000,
            ;
            assert(0 <= z * z <= 1_000_000_000_000_000_000) by (nonlinear_arith)
                requires
                    -1_000_000_000 <= z <= 1_000_000_000,
            ;
        }
        let sum: i64 = self.x * self.x + self.y * self.y + self.z * self.z;
        floor_sqrt(sum as u64)
    }

    /// The height in metres above a planet of the given radius round the
    /// origin: the distance from the centre, rounded down, less the radius.
    /// It is negative below the surface.
    pub fn altitude(&self, planet_radius: u32) -> (r: i64)
        ensures
            is_floor_sqrt(self@.norm_sq(), r + planet_radius),
    {
        self.distance_from_centre() as i64 - planet_radius as i64
    }
}

} // verus!
