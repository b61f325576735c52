//! Tracked satellites: an element set that the propagator takes, and the path
//! sampled from it.

use crate::elements::{record_elements, ElementsModel, OrbitalElementSet};
use crate::epoch::{epoch_instant, MinuteSpan};
use crate::geometry::{is_floor_sqrt, Position, Vector};
use crate::orbit::{
    interpolated, lemma_orbital_period_bounds, lemma_path_begins_at_base, orbital_period,
    sampled_path, OrbitPath, PathModel,
};
use crate::propagation::{accepts_record, line_checkable, propagator_accepts};
use vstd::prelude::*;
use vstd::string::StringSliceAdditionalSpecFns;

verus! {

/// A satellite as plain values.
pub struct SatelliteModel {
    pub elements: ElementsModel,
    pub orbit_path: Option<PathModel>,
}

/// The element set of the satellite that a record describes, if it describes
/// one: the record holds an element set, both of its data lines are exactly 69
/// bytes long and end in a digit, and the propagator takes them.
pub open spec fn record_satellite(name: Seq<u8>, line1: Seq<u8>, line2: Seq<u8>) -> Option<
    ElementsModel,
> {
    if record_elements(name, line1, line2) is Some && line_checkable(line1) && line_checkable(
        line2,
    ) && propagator_accepts(line1, line2) {
        record_elements(name, line1, line2)
    } else {
        None
    }
}

/// A record with a data line that is not 69 bytes long describes no
/// satellite, and one with a data line of fewer bytes holds no element set.
pub proof fn lemma_width_rejects(name: Seq<u8>, line1: Seq<u8>, line2: Seq<u8>)
    ensures
        line1.len() != 69 || line2.len() != 69 ==> record_satellite(name, line1, line2) is None,
        line1.len() < 69 || line2.len() < 69 ==> record_elements(name, line1, line2) is None,
{
}

/// A tracked satellite.
pub struct Satellite {
    elements: OrbitalElementSet,
    orbit_path: Option<OrbitPath>,
}

impl View for Satellite {
    type V = SatelliteModel;

    closed spec fn view(&self) -> SatelliteModel {
        SatelliteModel {
            elements: self.elements@,
            orbit_path: match self.orbit_path {
                Some(path) => Some(path@),
                None => None,
            },
        }
    }
}

impl Satellite {
    #[verifier::type_invariant]
    spec fn well_formed(self) -> bool {
        &&& line_checkable(self.elements@.line1)
        &&& line_checkable(self.elements@.line2)
        &&& propagator_accepts(self.elements@.line1, self.elements@.line2)
    }

    /// Reads one record: the name line and the two data lines. A record that
    /// is malformed, or that the propagator refuses, gives `None`. The new
    /// satellite has no path yet.
    pub fn parse(name: &str, line1: &str, line2: &str) -> (r: Option<Satellite>)
        ensures
            r is Some == record_satellite(
                name.spec_bytes(),
                line1.spec_bytes(),
                line2.spec_bytes(),
            ) is Some,
            r matches Some(satellite) ==> Some(satellite@.elements) == record_satellite(
                name.spec_bytes(),
                line1.spec_bytes(),
                line2.spec_bytes(),
            ) && satellite@.orbit_path is None,
    {
        let elements = match OrbitalElementSet::from_record(name, line1, line2) {
            Some(elements) => elements,
            None => {
                return None;
            },
        };
        if !accepts_record(line1.as_bytes(), line2.as_bytes()) {
            return None;
        }
        Some(Satellite { elements, orbit_path: None })
    }

    /// The object's name.
    pub fn name(&self) -> (r: &str)
        ensures
            r@ == self@.elements.name,
    {
        self.elements.name()
    }

    /// The element set.
    pub fn elements(&self) -> (r: &OrbitalElementSet)
        ensures
            r@ == self@.elements,
    {
        &self.elements
    }

    /// The sampled path, if one was generated.
    pub fn orbit_path(&self) -> (r: Option<&OrbitPath>)
        ensures
            r is Some == self@.orbit_path is Some,
            r matches Some(path) ==> Some(path@) == self@.orbit_path,
    {
        self.orbit_path.as_ref()
    }

    /// The period that the path covers, in milliseconds; zero while there is
    /// no path.
    pub fn orbit_duration_ms(&self) -> (r: u64)
        ensures
            r == (match self@.orbit_path {
                Some(path) => path.period,
                None => 0,
            }),
    {
        match &self.orbit_path {
            Some(path) => path.period_ms(),
            None => 0,
        }
    }

    /// Samples one orbital period from `base_time` on at `resolution` evenly
    /// spread instants and keeps the samples as the satellite's path, in place
    /// of any earlier one. The path is whole or absent: where fewer than two
    /// samples are asked for, or the propagator cannot be asked for one of the
    /// instants, the satellite has no path afterwards.
    pub fn generate_orbit_path(&mut self, resolution: usize, base_time: i64)
        ensures
            final(self)@.elements == old(self)@.elements,
            final(self)@.orbit_path == sampled_path(
                old(self)@.elements.line1,
                old(self)@.elements.line2,
                base_time as int,
                orbital_period(old(self)@.elements.mean_motion),
                resolution as int,
            ),
            final(self)@.orbit_path matches Some(path) ==> path.points.len() == resolution >= 2
                && path.points[0].time == base_time && path.base_time == base_time
                && path.period == orbital_period(old(self)@.elements.mean_motion),
    {
        proof {
            use_type_invariant(&*self);
        }
        let path = OrbitPath::sample(
            self.elements.line1().as_slice(),
            self.elements.line2().as_slice(),
            self.elements.mean_motion(),
            resolution,
            base_time,
        );
        proof {
            if path is Some {
                lemma_orbital_period_bounds(self@.elements.mean_motion);
                lemma_path_begins_at_base(
                    self@.elements.line1,
                    self@.elements.line2,
                    base_time as int,
                    orbital_period(self@.elements.mean_motion),
                    resolution as int,
                );
            }
        }
        self.orbit_path = path;
    }

    /// Where the satellite is at the instant `target_time`, read from its
    /// path; the planet's centre while there is no path.
    pub fn get_position(&self, target_time: i64) -> (r: Position)
        ensures
            r@ == (match self@.orbit_path {
                Some(path) => interpolated(path.points, path.period, target_time as int),
                None => Vector { x: 0, y: 0, z: 0 },
            }),
    {
        match &self.orbit_path {
            Some(path) => path.position_at(target_time),
            None => Position::origin(),
        }
    }
}

impl Satellite {
    /// The time from the epoch of the elements to the instant `target_time`,
    /// in minutes and the milliseconds beyond them; negative for every instant
    /// before the epoch.
    pub fn minutes_since_epoch(&self, target_time: i64) -> (r: Option<MinuteSpan>)
        ensures
            r matches Some(span) && span.minutes == (target_time - epoch_instant(
                self@.elements.epoch_year,
                self@.elements.epoch_day,
            )) / 60_000 && span.millis == (target_time - epoch_instant(
                self@.elements.epoch_year,
                self@.elements.epoch_day,
            )) % 60_000,
            r matches Some(span) && span.millis < 60_000 && span.total_millis() == target_time
                - epoch_instant(self@.elements.epoch_year, self@.elements.epoch_day),
            r matches Some(span) && (span.minutes < 0 <==> target_time < epoch_instant(
                self@.elements.epoch_year,
                self@.elements.epoch_day,
            )),
    {
        self.elements.minutes_since_epoch(target_time)
    }

    /// The satellite's height in metres above a planet of the given radius at
    /// the instant `time`, read from its path.
    pub fn altitude_at(&self, time: i64, planet_radius: u32) -> (r: i64)
        ensures
            is_floor_sqrt(
                (match self@.orbit_path {
                    Some(path) => interpolated(path.points, path.period, time as int),
                    None => Vector { x: 0, y: 0, z: 0 },
                }).norm_sq(),
                r + planet_radius,
            ),
    {
        self.get_position(time).altitude(planet_radius)
    }
}

impl Clone for Satellite {
    fn clone(&self) -> (r: Satellite)
        ensures
            r@ == self@,
    {
        proof {
            use_type_invariant(self);
        }
        Satellite {
            elements: self.elements.clone(),
            orbit_path: match &self.orbit_path {
                Some(path) => Some(path.clone()),
                None => None,
            },
        }
    }
}

} // verus!
