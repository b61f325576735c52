//! Whether the planet hides a point from the camera, and where on the screen
//! a point appears.

use crate::geometry::{Position, Vector};
use vstd::prelude::*;

verus! {

/// Square of the distance from the planet's centre to the line of sight, times
/// the square of the distance from the camera to the object.
pub open spec fn clearance(object: Vector, camera: Vector, centre: Vector) -> int {
    let sight = object.minus(camera);
    let to_centre = centre.minus(camera);
    to_centre.norm_sq() * sight.norm_sq() - to_centre.dot(sight) * to_centre.dot(sight)
}

/// The point of the line of sight that is nearest to the planet's centre lies
/// between the camera and the object.
pub open spec fn planet_between(object: Vector, camera: Vector, centre: Vector) -> bool {
    let sight = object.minus(camera);
    let to_centre = centre.minus(camera);
    sight.norm_sq() > 0 && 0 <= to_centre.dot(sight) <= sight.norm_sq()
}

/// Whether the camera sees the object past a planet of the given radius.
///
/// Where the planet does not stand between the two, it hides nothing. Where
/// it does, the object is seen if the line of sight passes the centre at more
/// than the radius; a line that touches the surface is not enough. An object
/// at the camera's own place is not seen.
pub open spec fn visible(object: Vector, camera: Vector, centre: Vector, radius: int) -> bool {
    let sight = object.minus(camera);
    if sight.norm_sq() == 0 {
        false
    } else if !planet_between(object, camera, centre) {
        true
    } else {
        clearance(object, camera, centre) > radius * radius * sight.norm_sq()
    }
}

/// With the planet between camera and object, the object is seen exactly if
/// the square of the distance at which the line of sight passes the centre,
/// `clearance / |sight|^2`, is more than the square of the radius.
pub proof fn lemma_visibility_threshold(
    object: Vector,
    camera: Vector,
    centre: Vector,
    radius: int,
)
    requires
        planet_between(object, camera, centre),
    ensures
        visible(object, camera, centre, radius) == (clearance(object, camera, centre) > radius
            * radius * object.minus(camera).norm_sq()),
{
}

/// Of two objects behind the planet as seen from one camera, the one whose
/// line of sight passes the centre nearer is hidden whenever the other is:
/// bringing the line of sight closer to the centre can hide an object and
/// never reveals it.
pub proof fn lemma_visibility_monotone(
    nearer: Vector,
    farther: Vector,
    camera: Vector,
    centre: Vector,
    radius: int,
)
    requires
        planet_between(nearer, camera, centre),
        planet_between(farther, camera, centre),
        clearance(nearer, camera, centre) * farther.minus(camera).norm_sq() <= clearance(
            farther,
            camera,
            centre,
        ) * nearer.minus(camera).norm_sq(),
    ensures
        visible(nearer, camera, centre, radius) ==> visible(farther, camera, centre, radius),
        !visible(farther, camera, centre, radius) ==> !visible(nearer, camera, centre, radius),
{
    let cn = clearance(nearer, camera, centre);
    let cf = clearance(farther, camera, centre);
    let ln = nearer.minus(camera).norm_sq();
    let lf = farther.minus(camera).norm_sq();
    let rr = radius * radius;
    if cn > rr * ln {
        assert(cf > rr * lf) by (nonlinear_arith)
            requires
                cn > rr * ln,
                cn * lf <= cf * ln,
                ln > 0,
                lf > 0,
        ;
    }
}

/// A larger planet hides whatever a smaller one in its place hides.
pub proof fn lemma_visibility_shrinks_with_radius(
    object: Vector,
    camera: Vector,
    centre: Vector,
    smaller: int,
    larger: int,
)
    requires
        0 <= smaller <= larger,
    ensures
        visible(object, camera, centre, larger) ==> visible(object, camera, centre, smaller),
{
    let l = object.minus(camera).norm_sq();
    if l > 0 && planet_between(object, camera, centre) {
        assert(smaller * smaller * l <= larger * larger * l) by (nonlinear_arith)
            requires
                0 <= smaller <= larger,
                l > 0,
        ;
    }
}

fn dot_i128(ax: i64, ay: i64, az: i64, bx: i64, by: i64, bz: i64) -> (r: i128)
    requires
        -2_000_000_000 <= ax <= 2_000_000_000,
        -2_000_000_000 <= ay <= 2_000_000_000,
        -2_000_000_000 <= az <= 2_000_000_000,
        -2_000_000_000 <= bx <= 2_000_000_000,
        -2_000_000_000 <= by <= 2_000_000_000,
        -2_000_000_000 <= bz <= 2_000_000_000,
    ensures
        r == ax * bx + ay * by + az * bz,
        -12_000_000_000_000_000_000 <= r <= 12_000_000_000_000_000_000,
{
    assert(-4_000_000_000_000_000_000 <= ax * bx <= 4_000_000_000_000_000_000)
        by (nonlinear_arith)
        requires
            -2_000_000_000 <= ax <= 2_000_000_000,
            -2_000_000_000 <= bx <= 2_000_000_000,
    ;
    assert(-4_000_000_000_000_000_000 <= ay * by <= 4_000_000_000_000_000_000)
        by (nonlinear_arith)
        requires
            -2_000_000_000 <= ay <= 2_000_000_000,
            -2_000_000_000 <= by <= 2_000_000_000,
    ;
    assert(-4_000_000_000_000_000_000 <= az * bz <= 4_000_000_000_000_000_000)
        by (nonlinear_arith)
        requires
            -2_000_000_000 <= az <= 2_000_000_000,
            -2_000_000_000 <= bz <= 2_000_000_000,
    ;
    (ax as i128) * (bx as i128) + (ay as i128) * (by as i128) + (az as i128) * (bz as i128)
}

/// Whether the camera at `camera` sees the object at `object` past a planet of
/// `planet_radius` metres round `planet_centre`.
pub fn is_visible(
    object: &Position,
    camera: &Position,
    planet_centre: &Position,
    planet_radius: u32,
) -> (r: bool)
    ensures
        r == visible(object@, camera@, planet_centre@, planet_radius as int),
{
    let (ox, oy, oz) = object.coordinates();
    let (cx, cy, cz) = camera.coordinates();
    let (px, py, pz) = planet_centre.coordinates();
    let (sx, sy, sz) = (ox - cx, oy - cy, oz - cz);
    let (ex, ey, ez) = (px - cx, py - cy, pz - cz);
    let length_sq = dot_i128(sx, sy, sz, sx, sy, sz);
    let along = dot_i128(ex, ey, ez, sx, sy, sz);
    let centre_sq = dot_i128(ex, ey, ez, ex, ey, ez);
    if length_sq == 0 {
        return false;
    }
    if along < 0 || along > length_sq {
        return true;
    }
    proof {
        assert(ex * ex >= 0 && ey * ey >= 0 && ez * ez >= 0) by (nonlinear_arith);
        assert(0 <= centre_sq * length_sq <= 12_000_000_000_000_000_000
            * 12_000_000_000_000_000_000) by (nonlinear_arith)
            requires
                0 <= centre_sq <= 12_000_000_000_000_000_000,
                0 <= length_sq <= 12_000_000_000_000_000_000,
        ;
        assert(0 <= along * along <= 12_000_000_000_000_000_000 * 12_000_000_000_000_000_000)
            by (nonlinear_arith)
            requires
                0 <= along <= 12_000_000_000_000_000_000,
        ;
        assert(0 <= planet_radius * planet_radius <= 0xffff_ffff * 0xffff_ffff)
            by (nonlinear_arith)
            requires
                0 <= planet_radius <= 0xffff_ffff,
        ;
        assert(0 <= (planet_radius * planet_radius) * length_sq <= (0xffff_ffff * 0xffff_ffff)
            * 12_000_000_000_000_000_000) by (nonlinear_arith)
            requires
                0 <= planet_radius * planet_radius <= 0xffff_ffff * 0xffff_ffff,
                0 <= length_sq <= 12_000_000_000_000_000_000,
        ;
    }
    let spread: u128 = (centre_sq as u128) * (length_sq as u128);
    let along_sq: u128 = (along as u128) * (along as u128);
    let radius_sq: u128 = (planet_radius as u128) * (planet_radius as u128);
    let needed: u128 = radius_sq * (length_sq as u128);
    if spread <= along_sq {
        false
    } else {
        spread - along_sq > needed
    }
}


/// The camera's view and projection as one matrix of integers, row by row. A
/// point `(x, y, z)` in metres is taken to clip space by multiplying the
/// matrix with `(x, y, z, 1)`. The scale of the matrix is free: only ratios of
/// clip coordinates are used.
#[derive(Clone, Copy, Debug)]
pub struct ViewProjection {
    pub rows: [[i64; 4]; 4],
}

/// A place on the screen in pixels, from the top left corner.
#[derive(Clone, Copy, Debug, PartialEq, Eq, Structural)]
pub struct ScreenPoint {
    pub x: u32,
    pub y: u32,
}

/// One clip-space coordinate of a point: the row times `(x, y, z, 1)`.
pub open spec fn clip_coordinate(row: [i64; 4], point: Vector) -> int {
    row[0] * point.x + row[1] * point.y + row[2] * point.z + row[3]
}

/// Where a point appears on a screen of `width` by `height` pixels.
///
/// A point whose clip-space `w` is not positive lies behind the camera and
/// appears nowhere, and so does one whose `x` or `y` is beyond `w` either way:
/// it is off the screen. Otherwise `x / w` runs from -1 at the left edge to 1
/// at the right one, and `y / w` from -1 at the bottom to 1 at the top; the
/// pixel coordinates are rounded down.
pub open spec fn projected(m: ViewProjection, point: Vector, width: int, height: int) -> Option<
    (int, int),
> {
    let x = clip_coordinate(m.rows[0], point);
    let y = clip_coordinate(m.rows[1], point);
    let w = clip_coordinate(m.rows[3], point);
    if w <= 0 {
        None
    } else if x < -w || x > w || y < -w || y > w {
        None
    } else {
        Some((((x + w) * width) / (2 * w), ((w - y) * height) / (2 * w)))
    }
}

/// A point behind the camera appears nowhere on the screen.
pub proof fn lemma_behind_camera_is_rejected(
    m: ViewProjection,
    point: Vector,
    width: int,
    height: int,
)
    requires
        clip_coordinate(m.rows[3], point) <= 0,
    ensures
        projected(m, point, width, height) is None,
{
}

fn clip(row: &[i64; 4], x: i64, y: i64, z: i64) -> (r: i128)
    requires
        -1_000_000_000 <= x <= 1_000_000_000,
        -1_000_000_000 <= y <= 1_000_000_000,
        -1_000_000_000 <= z <= 1_000_000_000,
    ensures
        r == clip_coordinate(*row, Vector { x: x as int, y: y as int, z: z as int }),
        -0x8000_0000_0000_0000 * 3_000_000_001 <= r <= 0x8000_0000_0000_0000 * 3_000_000_001,
{
    let (a, b, c, d) = (row[0], row[1], row[2], row[3]);
    assert(-0x8000_0000_0000_0000 * 1_000_000_000 <= a * x <= 0x8000_0000_0000_0000
        * 1_000_000_000) by (nonlinear_arith)
        requires
            -0x8000_0000_0000_0000 <= a <= 0x8000_0000_0000_0000,
            -1_000_000_000 <= x <= 1_000_000_000,
    ;
    assert(-0x8000_0000_0000_0000 * 1_000_000_000 <= b * y <= 0x8000_0000_0000_0000
        * 1_000_000_000) by (nonlinear_arith)
        requires
            -0x8000_0000_0000_0000 <= b <= 0x8000_0000_0000_0000,
            -1_000_000_000 <= y <= 1_000_000_000,
    ;
    assert(-0x8000_0000_0000_0000 * 1_000_000_000 <= c * z <= 0x8000_0000_0000_0000
        * 1_000_000_000) by (nonlinear_arith)
        requires
            -0x8000_0000_0000_0000 <= c <= 0x8000_0000_0000_0000,
            -1_000_000_000 <= z <= 1_000_000_000,
    ;
    (a as i128) * (x as i128) + (b as i128) * (y as i128) + (c as i128) * (z as i128) + (d as i128)
}

/// The pixel at the share `part / (2 * half)` of an extent of `extent` pixels.
fn pixel(part: u128, half: u128, extent: u32) -> (r: u32)
    requires
        0 < half <= 0x8000_0000_0000_0000 * 3_000_000_001,
        part <= 2 * half,
    ensures
        r == (part * extent) / (2 * half),
        r <= extent,
{
    proof {
        assert(part * extent <= (2 * half) * extent) by (nonlinear_arith)
            requires
                part <= 2 * half,
                extent >= 0,
        ;
        assert((2 * half) * extent <= (0x8000_0000_0000_0000 * 6_000_000_002) * 0xffff_ffff)
            by (nonlinear_arith)
            requires
                0 < half <= 0x8000_0000_0000_0000 * 3_000_000_001,
                0 <= extent <= 0xffff_ffff,
        ;
        vstd::arithmetic::div_mod::lemma_div_is_ordered(
            (part * extent) as int,
            ((2 * half) * extent) as int,
            (2 * half) as int,
        );
        vstd::arithmetic::div_mod::lemma_div_multiples_vanish(extent as int, (2 * half) as int);
        assert((2 * half) * extent == extent * (2 * half)) by (nonlinear_arith);
        vstd::arithmetic::div_mod::lemma_div_pos_is_pos((part * extent) as int, (2 * half) as int);
    }
    ((part * (extent as u128)) / (2 * half)) as u32
}

/// Where `world` appears on a screen of `viewport_width` by `viewport_height`
/// pixels, seen through `view_projection`; `None` for a point behind the
/// camera or off the screen.
pub fn project_to_screen(
    world: &Position,
    view_projection: &ViewProjection,
    viewport_width: u32,
    viewport_height: u32,
) -> (r: Option<ScreenPoint>)
    ensures
        r is Some == projected(
            *view_projection,
            world@,
            viewport_width as int,
            viewport_height as int,
        ) is Some,
        r matches Some(p) ==> projected(
            *view_projection,
            world@,
            viewport_width as int,
            viewport_height as int,
        ) == Some((p.x as int, p.y as int)),
{
    let (x, y, z) = world.coordinates();
    let cx = clip(&view_projection.rows[0], x, y, z);
    let cy = clip(&view_projection.rows[1], x, y, z);
    let cw = clip(&view_projection.rows[3], x, y, z);
    if cw <= 0 {
        return None;
    }
    if cx < -cw || cx > cw || cy < -cw || cy > cw {
        return None;
    }
    let half = cw as u128;
    Some(
        ScreenPoint {
            x: pixel((cx + cw) as u128, half, viewport_width),
            y: pixel((cw - cy) as u128, half, viewport_height),
        },
    )
}

} // verus!
