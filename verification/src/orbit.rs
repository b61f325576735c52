//! One orbit of sampled positions, and the position at any instant read from
//! it.

use crate::arith::{floor_mod, lemma_floor_div_bounds};
use crate::geometry::{lemma_lerp_between, lerp_vector, Position, Vector};
use crate::propagation::{
    line_checkable, propagate_raw, propagated, propagator_accepts, sample_of, sample_position,
};
use vstd::arithmetic::div_mod::{
    lemma_div_basics, lemma_div_is_ordered, lemma_fundamental_div_mod, lemma_mod_bound,
    lemma_mod_multiples_vanish, lemma_small_mod,
};
use vstd::prelude::*;

verus! {

/// A day in milliseconds, times the `10^8` units of a mean motion.
pub const DAY_MS_FINE: u64 = 8_640_000_000_000_000;

/// The period taken where the mean motion gives none: ninety minutes.
pub const FALLBACK_PERIOD_MS: u64 = 5_400_000;

/// The orbital period in milliseconds for a mean motion in units of `10^-8`
/// revolutions per day: a day divided by the mean motion, rounded down, but a
/// millisecond at least. Where the mean motion is not positive, the period is
/// ninety minutes.
pub open spec fn orbital_period(mean_motion: int) -> int {
    if mean_motion <= 0 {
        5_400_000
    } else if 8_640_000_000_000_000int / mean_motion < 1 {
        1
    } else {
        8_640_000_000_000_000int / mean_motion
    }
}

/// A period is at least a millisecond and at most a day times `10^8`.
pub proof fn lemma_orbital_period_bounds(mean_motion: int)
    ensures
        1 <= orbital_period(mean_motion) <= 8_640_000_000_000_000,
{
    if mean_motion > 0 {
        lemma_floor_div_bounds(8_640_000_000_000_000, mean_motion);
    }
}

/// The orbital period for a mean motion.
pub fn orbital_period_ms(mean_motion: i64) -> (r: u64)
    ensures
        r == orbital_period(mean_motion as int),
        1 <= r <= 8_640_000_000_000_000,
{
    proof {
        lemma_orbital_period_bounds(mean_motion as int);
    }
    if mean_motion <= 0 {
        FALLBACK_PERIOD_MS
    } else {
        let period = DAY_MS_FINE / (mean_motion as u64);
        if period < 1 {
            1
        } else {
            period
        }
    }
}

/// A sample of an orbit: where the satellite is at an instant.
#[derive(Clone, Copy, Debug, PartialEq, Eq, Structural)]
pub struct OrbitPoint {
    /// Milliseconds since 1970-01-01T00:00:00Z.
    pub time: i64,
    pub position: Position,
}

/// A sample as plain values.
pub struct PointModel {
    pub time: int,
    pub position: Vector,
}

impl View for OrbitPoint {
    type V = PointModel;

    open spec fn view(&self) -> PointModel {
        PointModel { time: self.time as int, position: self.position@ }
    }
}

/// A sampled orbit as plain values.
pub struct PathModel {
    pub points: Seq<PointModel>,
    pub base_time: int,
    pub period: int,
}

/// The samples of a path as plain values.
pub open spec fn models(points: Seq<OrbitPoint>) -> Seq<PointModel> {
    points.map_values(|p: OrbitPoint| p@)
}

/// The instant of sample `i` of `resolution` samples spread evenly over one
/// period from `base`.
pub open spec fn sample_time(base: int, period: int, resolution: int, i: int) -> int {
    base + (i * period) / resolution
}

/// Sample `i` of the orbit of the record `line1`, `line2`: the instant and
/// where the satellite is then. There is none where the instant does not fit
/// the clock or is out of the propagator's range.
pub open spec fn sample_at(
    line1: Seq<u8>,
    line2: Seq<u8>,
    base: int,
    period: int,
    resolution: int,
    i: int,
) -> Option<PointModel> {
    let time = sample_time(base, period, resolution, i);
    if time <= i64::MAX && sample_of(propagated(line1, line2, time)) is Some {
        Some(PointModel { time, position: sample_of(propagated(line1, line2, time))->0 })
    } else {
        None
    }
}

/// Whether the orbit can be sampled whole: at least two samples are asked for
/// and there is every one of them.
pub open spec fn path_complete(
    line1: Seq<u8>,
    line2: Seq<u8>,
    base: int,
    period: int,
    resolution: int,
) -> bool {
    resolution >= 2 && forall|i: int|
        0 <= i < resolution ==> (#[trigger] sample_at(line1, line2, base, period, resolution, i))
            is Some
}

/// The sampled orbit of the record `line1`, `line2`: `resolution` samples
/// spread evenly over one period from `base`, or no path at all where the
/// orbit cannot be sampled whole.
pub open spec fn sampled_path(
    line1: Seq<u8>,
    line2: Seq<u8>,
    base: int,
    period: int,
    resolution: int,
) -> Option<PathModel> {
    if path_complete(line1, line2, base, period, resolution) {
        Some(
            PathModel {
                points: Seq::new(
                    resolution as nat,
                    |i: int| sample_at(line1, line2, base, period, resolution, i)->0,
                ),
                base_time: base,
                period,
            },
        )
    } else {
        None
    }
}

/// The position read from a path at the instant `target`.
///
/// An empty path gives the planet's centre and a path of one sample gives that
/// sample. Otherwise the time since the first sample is taken modulo the
/// period, so that instants before the first sample count too; the period is
/// divided evenly among the segments between samples, and the position lies
/// on the segment that the instant falls in, as far along as the instant.
pub open spec fn interpolated(points: Seq<PointModel>, period: int, target: int) -> Vector {
    if points.len() == 0 {
        Vector { x: 0, y: 0, z: 0 }
    } else if points.len() == 1 {
        points[0].position
    } else {
        let cycle = (target - points[0].time) % period;
        let scaled = cycle * (points.len() - 1);
        lerp_vector(
            points[scaled / period].position,
            points[scaled / period + 1].position,
            scaled % period,
            period,
        )
    }
}

/// Where in the path an instant of the cycle falls: on a segment that exists.
pub proof fn lemma_segment_in_path(cycle: int, segments: int, period: int)
    requires
        0 <= cycle < period,
        segments >= 1,
    ensures
        0 <= (cycle * segments) / period < segments,
        0 <= (cycle * segments) % period < period,
        0 <= cycle * segments <= period * segments,
{
    let scaled = cycle * segments;
    assert(0 <= scaled < period * segments) by (nonlinear_arith)
        requires
            0 <= cycle < period,
            segments >= 1,
            scaled == cycle * segments,
    ;
    lemma_fundamental_div_mod(scaled, period);
    lemma_mod_bound(scaled, period);
    let q = scaled / period;
    let r = scaled % period;
    assert(q >= 0 && q < segments) by (nonlinear_arith)
        requires
            scaled == period * q + r,
            0 <= r < period,
            0 <= scaled < period * segments,
    ;
}

/// A path read one or more whole periods later or earlier gives the same
/// position.
pub proof fn lemma_cyclical_invariance(
    points: Seq<PointModel>,
    period: int,
    target: int,
    cycles: int,
)
    requires
        period > 0,
    ensures
        interpolated(points, period, target + cycles * period) == interpolated(
            points,
            period,
            target,
        ),
{
    if points.len() >= 2 {
        let elapsed = target - points[0].time;
        lemma_mod_multiples_vanish(cycles, elapsed, period);
        assert(target + cycles * period - points[0].time == period * cycles + elapsed)
            by (nonlinear_arith)
            requires
                elapsed == target - points[0].time,
        ;
    }
}

/// A path read at the instant of its first sample gives that sample's
/// position.
pub proof fn lemma_boundary_exactness(points: Seq<PointModel>, period: int)
    requires
        period > 0,
        points.len() > 0,
    ensures
        interpolated(points, period, points[0].time) == points[0].position,
{
    if points.len() >= 2 {
        // no time has passed: the instant falls on the start of the first segment
        assert(0 * (points.len() - 1) == 0);
        assert(0int / period == 0 && 0int % period == 0) by {
            lemma_div_basics(period);
            lemma_small_mod(0, period as nat);
        }
        lemma_lerp_between(points[0].position.x, points[1].position.x, 0, period);
        lemma_lerp_between(points[0].position.y, points[1].position.y, 0, period);
        lemma_lerp_between(points[0].position.z, points[1].position.z, 0, period);
    }
}

/// Later samples are taken at later instants, or at the same.
pub proof fn lemma_sample_time_ordered(base: int, period: int, resolution: int, i: int, j: int)
    requires
        0 <= i <= j,
        period >= 0,
        resolution > 0,
    ensures
        base <= sample_time(base, period, resolution, i) <= sample_time(
            base,
            period,
            resolution,
            j,
        ),
        j < resolution ==> sample_time(base, period, resolution, j) < base + period || period
            == 0,
{
    assert(0 <= i * period <= j * period) by (nonlinear_arith)
        requires
            0 <= i <= j,
            period >= 0,
    ;
    lemma_div_is_ordered(0, i * period, resolution);
    lemma_div_is_ordered(i * period, j * period, resolution);
    lemma_div_basics(resolution);
    if j < resolution && period > 0 {
        lemma_fundamental_div_mod(j * period, resolution);
        lemma_mod_bound(j * period, resolution);
        let q = (j * period) / resolution;
        let r = (j * period) % resolution;
        assert(q < period) by (nonlinear_arith)
            requires
                j * period == resolution * q + r,
                0 <= r < resolution,
                0 <= j < resolution,
                period > 0,
        ;
    }
}

/// A sampled path has as many samples as were asked for, at least two, the
/// first of them at the base time; read at its base time it gives its first
/// sample's position.
pub proof fn lemma_path_begins_at_base(
    line1: Seq<u8>,
    line2: Seq<u8>,
    base: int,
    period: int,
    resolution: int,
)
    requires
        period > 0,
        sampled_path(line1, line2, base, period, resolution) is Some,
    ensures
        ({
            let path = sampled_path(line1, line2, base, period, resolution)->0;
            &&& path.points.len() == resolution >= 2
            &&& path.points[0].time == base
            &&& interpolated(path.points, period, base) == path.points[0].position
        }),
{
    let path = sampled_path(line1, line2, base, period, resolution)->0;
    assert(sample_at(line1, line2, base, period, resolution, 0) is Some);
    assert(sample_time(base, period, resolution, 0) == base) by {
        assert(0 * period == 0);
        lemma_div_basics(resolution);
    }
    lemma_boundary_exactness(path.points, period);
}

/// One orbit of a satellite as samples in the order of their instants, with
/// the instant the sampling began at and the period it covers. A path is
/// whole: it holds every sample that was asked for, two at least, the first
/// of them at the base time.
#[derive(Debug)]
pub struct OrbitPath {
    points: Vec<OrbitPoint>,
    base_time: i64,
    period_ms: u64,
}

impl View for OrbitPath {
    type V = PathModel;

    closed spec fn view(&self) -> PathModel {
        PathModel {
            points: models(self.points@),
            base_time: self.base_time as int,
            period: self.period_ms as int,
        }
    }
}

/// The samples stand in the order of their instants.
pub open spec fn time_ascending(points: Seq<PointModel>) -> bool {
    forall|i: int, j: int| 0 <= i <= j < points.len() ==> points[i].time <= points[j].time
}

impl OrbitPath {
    #[verifier::type_invariant]
    spec fn well_formed(self) -> bool {
        &&& 1 <= self.period_ms <= 8_640_000_000_000_000
        &&& self.points@.len() >= 2
        &&& self.points@[0].time == self.base_time
        &&& time_ascending(models(self.points@))
    }

    /// Samples the orbit of the record `line1`, `line2`: `resolution` instants
    /// spread evenly over one period, the first of them `base_time`. There is
    /// no path where fewer than two samples are asked for or a sample cannot
    /// be had.
    pub(crate) fn sample(
        line1: &[u8],
        line2: &[u8],
        mean_motion: i64,
        resolution: usize,
        base_time: i64,
    ) -> (r: Option<OrbitPath>)
        requires
            line_checkable(line1@),
            line_checkable(line2@),
            propagator_accepts(line1@, line2@),
        ensures
            r is Some == sampled_path(
                line1@,
                line2@,
                base_time as int,
                orbital_period(mean_motion as int),
                resolution as int,
            ) is Some,
            r matches Some(path) ==> Some(path@) == sampled_path(
                line1@,
                line2@,
                base_time as int,
                orbital_period(mean_motion as int),
                resolution as int,
            ),
    {
        if resolution < 2 {
            return None;
        }
        let period_ms = orbital_period_ms(mean_motion);
        let mut points: Vec<OrbitPoint> = Vec::new();
        let mut i: usize = 0;
        while i < resolution
            invariant
                i <= resolution,
                resolution >= 2,
                line_checkable(line1@),
                line_checkable(line2@),
                propagator_accepts(line1@, line2@),
                period_ms == orbital_period(mean_motion as int),
                1 <= period_ms <= 8_640_000_000_000_000,
                points@.len() == i,
                forall|k: int|
                    0 <= k < i ==> (#[trigger] sample_at(
                        line1@,
                        line2@,
                        base_time as int,
                        period_ms as int,
                        resolution as int,
                        k,
                    )) == Some(points@[k]@),
            decreases resolution - i,
        {
            proof {
                lemma_sample_time_ordered(
                    base_time as int,
                    period_ms as int,
                    resolution as int,
                    i as int,
                    i as int,
                );
                assert(0 <= i * period_ms <= 0xffff_ffff_ffff_ffff * 8_640_000_000_000_000)
                    by (nonlinear_arith)
                    requires
                        0 <= i <= 0xffff_ffff_ffff_ffff,
                        0 <= period_ms <= 8_640_000_000_000_000,
                ;
            }
            let offset: u128 = (i as u128 * period_ms as u128) / (resolution as u128);
            let ghost wanted = sample_at(
                line1@,
                line2@,
                base_time as int,
                period_ms as int,
                resolution as int,
                i as int,
            );
            let time = match base_time.checked_add(offset as i64) {
                Some(time) => time,
                None => {
                    assert(wanted is None);
                    return None;
                },
            };
            let position = match sample_position(propagate_raw(line1, line2, time)) {
                Some(position) => position,
                None => {
                    assert(wanted is None);
                    return None;
                },
            };
            points.push(OrbitPoint { time, position });
            i = i + 1;
        }
        proof {
            let wanted = sampled_path(
                line1@,
                line2@,
                base_time as int,
                period_ms as int,
                resolution as int,
            );
            assert(wanted is Some);
            assert(models(points@) =~= wanted->0.points);
            // the samples stand in the order of their instants
            assert(sample_time(base_time as int, period_ms as int, resolution as int, 0)
                == base_time) by {
                assert(0 * period_ms == 0);
                lemma_div_basics(resolution as int);
            }
            assert forall|a: int, b: int| 0 <= a <= b < points@.len() implies models(
                points@,
            )[a].time <= models(points@)[b].time by {
                lemma_sample_time_ordered(
                    base_time as int,
                    period_ms as int,
                    resolution as int,
                    a,
                    b,
                );
                assert(sample_at(
                    line1@,
                    line2@,
                    base_time as int,
                    period_ms as int,
                    resolution as int,
                    a,
                ) == Some(points@[a]@));
                assert(sample_at(
                    line1@,
                    line2@,
                    base_time as int,
                    period_ms as int,
                    resolution as int,
                    b,
                ) == Some(points@[b]@));
            }
            assert(sample_at(
                line1@,
                line2@,
                base_time as int,
                period_ms as int,
                resolution as int,
                0,
            ) == Some(points@[0]@));
        }
        Some(OrbitPath { points, base_time, period_ms })
    }

    /// The position at the instant `target`, read from the samples.
    pub fn position_at(&self, target: i64) -> (r: Position)
        ensures
            r@ == interpolated(self@.points, self@.period, target as int),
    {
        proof {
            use_type_invariant(self);
        }
        let n = self.points.len();
        let period: i128 = self.period_ms as i128;
        let elapsed: i128 = target as i128 - self.points[0].time as i128;
        let cycle = floor_mod(elapsed, period);
        let segments: i128 = (n - 1) as i128;
        proof {
            lemma_segment_in_path(cycle as int, segments as int, period as int);
            assert(period * segments <= 8_640_000_000_000_000 * 0xffff_ffff_ffff_ffff)
                by (nonlinear_arith)
                requires
                    0 < period <= 8_640_000_000_000_000,
                    0 < segments <= 0xffff_ffff_ffff_ffff,
            ;
        }
        let scaled: i128 = cycle * segments;
        let index = (scaled / period) as usize;
        let part = (scaled % period) as u64;
        let from = &self.points[index];
        let to = &self.points[index + 1];
        assert(models(self.points@)[index as int] == from@);
        assert(models(self.points@)[index + 1] == to@);
        assert(models(self.points@)[0] == self.points@[0]@);
        from.position.lerp(&to.position, part, self.period_ms)
    }

    /// The samples, in the order of their instants.
    pub fn points(&self) -> (r: &Vec<OrbitPoint>)
        ensures
            models(r@) == self@.points,
            r@.len() == self@.points.len() >= 2,
            r@[0].time == self@.base_time,
            time_ascending(self@.points),
    {
        proof {
            use_type_invariant(self);
        }
        &self.points
    }

    /// The instant the sampling began at.
    pub fn base_time(&self) -> (r: i64)
        ensures
            r == self@.base_time,
    {
        self.base_time
    }

    /// The period the samples cover, in milliseconds.
    pub fn period_ms(&self) -> (r: u64)
        ensures
            r == self@.period,
            1 <= r <= 8_640_000_000_000_000,
    {
        proof {
            use_type_invariant(self);
        }
        self.period_ms
    }
}


impl Clone for OrbitPath {
    fn clone(&self) -> (r: OrbitPath)
        ensures
            r@ == self@,
    {
        proof {
            use_type_invariant(self);
        }
        let mut points: Vec<OrbitPoint> = Vec::new();
        let mut i: usize = 0;
        while i < self.points.len()
            invariant
                i <= self.points@.len(),
                points@ == self.points@.take(i as int),
            decreases self.points@.len() - i,
        {
            points.push(self.points[i]);
            assert(points@ =~= self.points@.take(i + 1));
            i = i + 1;
        }
        assert(points@ =~= self.points@);
        OrbitPath { points, base_time: self.base_time, period_ms: self.period_ms }
    }
}

} // verus!
