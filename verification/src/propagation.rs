//! The orbit propagator: which records it takes, and where it puts a satellite
//! at a given instant.
//!
//! The propagator works in double-precision kilometres. Its numbers cross into
//! this library as bit patterns and are turned into whole metres here.

use crate::geometry::{Position, Vector, MAX_COORDINATE};
use crate::text::{all_ascii, is_ascii_text, is_digit, is_digit_byte};
use vstd::arithmetic::div_mod::{
    lemma_basic_div, lemma_div_is_ordered, lemma_div_is_ordered_by_denominator,
};
use vstd::arithmetic::power2::{
    lemma2_to64, lemma_pow2_pos, lemma_pow2_strictly_increases, pow2,
};
use vstd::bits::lemma_u64_shr_is_div;
use vstd::prelude::*;

verus! {

/// A predicted position in kilometres and velocity in kilometres per second,
/// each coordinate as the bit pattern of a double-precision number, in the
/// propagator's own frame.
#[derive(Clone, Copy, Debug, PartialEq, Eq)]
pub struct Prediction {
    pub position: [u64; 3],
    pub velocity: [u64; 3],
}

/// What the propagator answers for one record and one instant.
#[derive(Clone, Copy, Debug, PartialEq, Eq)]
pub enum Propagation {
    /// The instant cannot be measured from the record's epoch.
    OutOfRange,
    /// The orbit cannot be followed to that instant.
    Diverged,
    /// The satellite is there.
    At(Prediction),
}

/// Whether the propagator can be set up from the two data lines of a record.
pub uninterp spec fn propagator_accepts(line1: Seq<u8>, line2: Seq<u8>) -> bool;

/// What the propagator, set up from the two data lines, answers for the
/// instant `unix_ms` (milliseconds since 1970-01-01T00:00:00Z).
pub uninterp spec fn propagated(line1: Seq<u8>, line2: Seq<u8>, unix_ms: int) -> Propagation;

/// A data line as the propagator can be handed it: 69 single-byte characters,
/// the last of them a digit.
pub open spec fn line_checkable(line: Seq<u8>) -> bool {
    line.len() == 69 && all_ascii(line) && is_digit(line[68])
}

/// Calls `sgp4::Elements::from_tle` on the two lines and, where that gives
/// elements, `sgp4::Constants::from_elements` on them; the result says whether
/// both succeeded. The contract names that outcome `propagator_accepts` of the
/// two lines and claims nothing further: the same lines are taken to be judged
/// the same way every time.
#[verifier::external_body]
fn build_accepts(line1: &[u8], line2: &[u8]) -> (ok: bool)
    requires
        line_checkable(line1@),
        line_checkable(line2@),
    ensures
        ok == propagator_accepts(line1@, line2@),
{
    match sgp4::Elements::from_tle(None, line1, line2) {
        Ok(elements) => sgp4::Constants::from_elements(&elements).is_ok(),
        Err(_) => false,
    }
}

/// Sets the propagator up as `build_accepts` does, turns `unix_ms` into a date
/// with `chrono::DateTime::from_timestamp_millis`, measures it from the epoch
/// with `sgp4::Elements::datetime_to_minutes_since_epoch` and calls
/// `sgp4::Constants::propagate`. An instant that chrono or the epoch
/// difference cannot hold gives `OutOfRange`, a refusal by the propagator
/// `Diverged`, and a prediction gives the bit patterns of its position and
/// velocity coordinates. The contract names the outcome `propagated` of the lines and
/// the instant: the same record and instant are taken to give the same
/// outcome every time.
#[verifier::external_body]
pub(crate) fn propagate_raw(line1: &[u8], line2: &[u8], unix_ms: i64) -> (r: Propagation)
    requires
        line_checkable(line1@),
        line_checkable(line2@),
        propagator_accepts(line1@, line2@),
    ensures
        r == propagated(line1@, line2@, unix_ms as int),
{
    let Ok(elements) = sgp4::Elements::from_tle(None, line1, line2) else { return Propagation::Diverged };
    let Ok(constants) = sgp4::Constants::from_elements(&elements) else { return Propagation::Diverged };
    let Some(instant) = chrono::DateTime::from_timestamp_millis(unix_ms) else { return Propagation::OutOfRange };
    let Ok(minutes) = elements.datetime_to_minutes_since_epoch(&instant.naive_utc()) else { return Propagation::OutOfRange };
    let Ok(p) = constants.propagate(minutes) else { return Propagation::Diverged };
    Propagation::At(Prediction { position: p.position.map(|c| c.to_bits()), velocity: p.velocity.map(|c| c.to_bits()) })
}

/// Whether the propagator takes the record. A line that is not 69 single-byte
/// characters long or does not end in a digit is refused without asking it.
pub fn accepts_record(line1: &[u8], line2: &[u8]) -> (ok: bool)
    ensures
        ok == (line_checkable(line1@) && line_checkable(line2@) && propagator_accepts(
            line1@,
            line2@,
        )),
{
    if line1.len() != 69 || line2.len() != 69 {
        return false;
    }
    if !is_ascii_text(line1) || !is_ascii_text(line2) {
        return false;
    }
    if !is_digit_byte(line1[68]) || !is_digit_byte(line2[68]) {
        return false;
    }
    build_accepts(line1, line2)
}

/// Two to the power 52: the weight of a double's hidden bit.
pub const HIDDEN_BIT: u64 = 0x10_0000_0000_0000;

/// The exponent field of a double.
pub open spec fn double_exponent(bits: u64) -> int {
    (bits as int / 0x10_0000_0000_0000) % 2048
}

/// The fraction field of a double.
pub open spec fn double_fraction(bits: u64) -> int {
    bits as int % 0x10_0000_0000_0000
}

/// The sign bit of a double.
pub open spec fn double_negative(bits: u64) -> bool {
    bits >= 0x8000_0000_0000_0000
}

/// Whole metres in the magnitude of a double that counts kilometres, the rest
/// cut off; `None` for an infinity and for what is no number.
///
/// A double with exponent field `e` between 1 and 2046 and fraction field `f`
/// has the magnitude `(2^52 + f) * 2^(e - 1075)`. One with exponent field 0 is
/// less than a metre.
pub open spec fn metres_magnitude(bits: u64) -> Option<int> {
    let e = double_exponent(bits);
    let thousandths = (0x10_0000_0000_0000 + double_fraction(bits)) * 1000;
    if e == 2047 {
        None
    } else if e == 0 {
        Some(0)
    } else if e >= 1075 {
        Some(thousandths * pow2((e - 1075) as nat))
    } else {
        Some(thousandths / (pow2((1075 - e) as nat) as int))
    }
}

/// The coordinate in whole metres that a double counting kilometres stands
/// for, if it is a number of at most `MAX_COORDINATE` metres in magnitude.
pub open spec fn metres_of(bits: u64) -> Option<int> {
    match metres_magnitude(bits) {
        Some(m) => if m <= MAX_COORDINATE {
            Some(
                if double_negative(bits) {
                    -m
                } else {
                    m
                },
            )
        } else {
            None
        },
        None => None,
    }
}

proof fn lemma_large_exponent(bits: u64)
    requires
        1044 <= double_exponent(bits) < 2047,
    ensures
        metres_magnitude(bits) matches Some(m) && m > MAX_COORDINATE,
{
    let e = double_exponent(bits);
    let t = (0x10_0000_0000_0000 + double_fraction(bits)) * 1000;
    lemma2_to64();
    if e >= 1075 {
        lemma_pow2_pos((e - 1075) as nat);
        assert(t * pow2((e - 1075) as nat) >= t) by (nonlinear_arith)
            requires
                t >= 0,
                pow2((e - 1075) as nat) >= 1,
        ;
    } else {
        let s = (1075 - e) as nat;
        lemma_pow2_pos(s);
        if s < 31 {
            lemma_pow2_strictly_increases(s, 31);
        }
        lemma_div_is_ordered_by_denominator(t, pow2(s) as int, pow2(31) as int);
        lemma_div_is_ordered(4_503_599_627_370_496_000int, t, pow2(31) as int);
    }
}

proof fn lemma_small_exponent(bits: u64)
    requires
        1 <= double_exponent(bits) <= 1011,
    ensures
        metres_magnitude(bits) == Some(0int),
{
    let e = double_exponent(bits);
    let t = (0x10_0000_0000_0000 + double_fraction(bits)) * 1000;
    let s = (1075 - e) as nat;
    lemma2_to64();
    if s > 64 {
        lemma_pow2_strictly_increases(64, s);
    }
    lemma_basic_div(t, pow2(s) as int);
}

/// Turns a double-precision count of kilometres, given as its bit pattern,
/// into whole metres, cutting off the rest. The result is `None` for what is
/// no number and for more than `MAX_COORDINATE` metres either way.
pub fn metres_from_km_bits(bits: u64) -> (r: Option<i64>)
    ensures
        r is Some == metres_of(bits) is Some,
        r matches Some(m) ==> metres_of(bits) == Some(m as int) && -MAX_COORDINATE <= m
            <= MAX_COORDINATE,
{
    let exponent = (bits / HIDDEN_BIT) % 2048;
    let fraction = bits % HIDDEN_BIT;
    let negative = bits >= 0x8000_0000_0000_0000;
    if exponent == 2047 {
        return None;
    }
    if exponent == 0 {
        return Some(0);
    }
    if exponent >= 1044 {
        proof {
            lemma_large_exponent(bits);
        }
        return None;
    }
    if exponent <= 1011 {
        proof {
            lemma_small_exponent(bits);
        }
        return Some(0);
    }
    let thousandths: u64 = (HIDDEN_BIT + fraction) * 1000;
    let shift: u64 = 1075 - exponent;
    let magnitude: u64 = thousandths >> shift;
    proof {
        lemma_u64_shr_is_div(thousandths, shift);
    }
    if magnitude > MAX_COORDINATE as u64 {
        return None;
    }
    if negative {
        Some(-(magnitude as i64))
    } else {
        Some(magnitude as i64)
    }
}

/// Three coordinates of the propagator, given in thousands of a unit as bit
/// patterns, in whole units in the rendering frame, which has its second and
/// third axes the other way round; `None` where a coordinate is no number or
/// out of range.
pub open spec fn remapped(bits: [u64; 3]) -> Option<Vector> {
    if metres_of(bits[0]) is Some && metres_of(bits[1]) is Some && metres_of(bits[2]) is Some {
        Some(
            Vector { x: metres_of(bits[0])->0, y: metres_of(bits[2])->0, z: metres_of(bits[1])->0 },
        )
    } else {
        None
    }
}

fn remap(bits: &[u64; 3]) -> (r: Option<(i64, i64, i64)>)
    ensures
        r is Some == remapped(*bits) is Some,
        r matches Some(v) ==> remapped(*bits) == Some(
            Vector { x: v.0 as int, y: v.1 as int, z: v.2 as int },
        ) && -MAX_COORDINATE <= v.0 <= MAX_COORDINATE && -MAX_COORDINATE <= v.1
            <= MAX_COORDINATE && -MAX_COORDINATE <= v.2 <= MAX_COORDINATE,
{
    let x = match metres_from_km_bits(bits[0]) {
        Some(v) => v,
        None => {
            return None;
        },
    };
    let y = match metres_from_km_bits(bits[1]) {
        Some(v) => v,
        None => {
            return None;
        },
    };
    let z = match metres_from_km_bits(bits[2]) {
        Some(v) => v,
        None => {
            return None;
        },
    };
    Some((x, z, y))
}

/// Moves a predicted position from the propagator's frame into the rendering
/// frame and from kilometres into metres. The result is `None` where a
/// coordinate is no number or out of range.
pub fn sgp4_to_cartesian(prediction: &Prediction) -> (r: Option<Position>)
    ensures
        r is Some == remapped(prediction.position) is Some,
        r matches Some(p) ==> Some(p@) == remapped(prediction.position),
{
    match remap(&prediction.position) {
        Some((x, y, z)) => Position::new(x, y, z),
        None => None,
    }
}

/// The predicted velocity in the rendering frame, in metres per second, the
/// rest cut off. The result is `None` where a coordinate is no number or more
/// than `MAX_COORDINATE` metres per second.
pub fn sgp4_to_velocity(prediction: &Prediction) -> (r: Option<(i64, i64, i64)>)
    ensures
        r is Some == remapped(prediction.velocity) is Some,
        r matches Some(v) ==> remapped(prediction.velocity) == Some(
            Vector { x: v.0 as int, y: v.1 as int, z: v.2 as int },
        ),
{
    remap(&prediction.velocity)
}

/// Where a path sample lies, given the propagator's answer: nowhere if the
/// instant is out of range; at the planet's centre, as a stand-in, if the orbit
/// diverged or the prediction cannot be held; else at the predicted position.
pub open spec fn sample_of(outcome: Propagation) -> Option<Vector> {
    match outcome {
        Propagation::OutOfRange => None,
        Propagation::Diverged => Some(Vector { x: 0, y: 0, z: 0 }),
        Propagation::At(p) => if remapped(p.position) is Some {
            remapped(p.position)
        } else {
            Some(Vector { x: 0, y: 0, z: 0 })
        },
    }
}

/// The position of a path sample for the propagator's answer.
pub fn sample_position(outcome: Propagation) -> (r: Option<Position>)
    ensures
        r is Some == sample_of(outcome) is Some,
        r matches Some(p) ==> Some(p@) == sample_of(outcome),
{
    match outcome {
        Propagation::OutOfRange => None,
        Propagation::Diverged => Some(Position::origin()),
        Propagation::At(p) => match sgp4_to_cartesian(&p) {
            Some(position) => Some(position),
            None => Some(Position::origin()),
        },
    }
}

} // verus!
