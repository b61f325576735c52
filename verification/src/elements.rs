//! Orbital element sets read from fixed-column records.

use crate::text::{
    all_ascii, fixed_point, is_ascii_text, lemma_boundary_after_ascii, lemma_boundary_at_ascii,
    parse_fixed, parse_unsigned, slice_str, trim_bounds, trimmed, unsigned_decimal,
};
use vstd::prelude::*;
use vstd::slice::slice_subrange;
use vstd::slice::slice_to_vec;
use vstd::string::StringSliceAdditionalSpecFns;
use vstd::utf8::{
    decode_utf8, encode_utf8_decode_utf8, encode_utf8_valid_utf8,
    is_char_boundary_start_end_of_seq,
};

verus! {

/// Least number of columns in a data line.
pub const RECORD_WIDTH: usize = 69;

/// First two-digit year that belongs to the twentieth century.
pub const YEAR_PIVOT: u8 = 57;

/// Units of an epoch day and of a mean motion: `10^-8`.
pub const FINE_PLACES: u32 = 8;

/// Units of an inclination: `10^-4` degrees.
pub const ANGLE_PLACES: u32 = 4;

/// One day, in units of `10^-8` days.
pub const FINE_UNIT: i64 = 100_000_000;

/// The year that a two-digit year stands for.
pub open spec fn resolved_year(two_digits: int) -> int {
    if two_digits < 57 {
        2000 + two_digits
    } else {
        1900 + two_digits
    }
}

/// Resolves a two-digit year: below 57 it lies in the 2000s, else in the 1900s.
pub fn resolve_year(two_digits: u8) -> (year: u16)
    ensures
        year == resolved_year(two_digits as int),
{
    if two_digits < YEAR_PIVOT {
        2000 + two_digits as u16
    } else {
        1900 + two_digits as u16
    }
}

/// An element set as plain values.
pub struct ElementsModel {
    pub name: Seq<char>,
    pub catalog_id: nat,
    pub intl_designator: Seq<char>,
    pub launch_year: int,
    pub launch_number: nat,
    pub epoch_year: int,
    /// Day of the year with its fraction, in units of `10^-8` days.
    pub epoch_day: int,
    /// Degrees, in units of `10^-4`.
    pub inclination: int,
    /// Revolutions per day, in units of `10^-8`.
    pub mean_motion: int,
    pub line1: Seq<u8>,
    pub line2: Seq<u8>,
}

/// `v` is at most `i64::MAX` in magnitude.
pub open spec fn fits_i64(v: int) -> bool {
    i64::MIN < v <= i64::MAX
}

/// The element set that a record holds, if it holds one. `name`, `line1` and
/// `line2` are the UTF-8 bytes of the three lines.
///
/// Both data lines have at least 69 single-byte characters. The columns are,
/// counting from zero: catalog number 2..7, international designator 9..17
/// (launch year 9..11, launch number 11..14), epoch year 18..20 and epoch day
/// 20..32 on the first line; inclination 8..16 and mean motion 52..63 on the
/// second. The two year columns are read as they stand, the others without the
/// blanks around them. The epoch day lies in `[1, 367)`, and inclination and
/// mean motion are at most `i64::MAX` of their units in magnitude.
pub open spec fn record_elements(name: Seq<u8>, line1: Seq<u8>, line2: Seq<u8>) -> Option<
    ElementsModel,
> {
    if line1.len() >= 69 && line2.len() >= 69 && all_ascii(line1) && all_ascii(line2) {
        let catalog_id = unsigned_decimal(trimmed(line1.subrange(2, 7)), u32::MAX as nat);
        let launch_year = unsigned_decimal(line1.subrange(9, 11), 99);
        let launch_number = unsigned_decimal(trimmed(line1.subrange(11, 14)), u16::MAX as nat);
        let epoch_year = unsigned_decimal(line1.subrange(18, 20), 99);
        let epoch_day = fixed_point(trimmed(line1.subrange(20, 32)), 8);
        let inclination = fixed_point(trimmed(line2.subrange(8, 16)), 4);
        let mean_motion = fixed_point(trimmed(line2.subrange(52, 63)), 8);
        if catalog_id is Some && launch_year is Some && launch_number is Some && epoch_year is Some
            && epoch_day is Some && inclination is Some && mean_motion is Some
            && 100_000_000 <= epoch_day->0 < 36_700_000_000 && fits_i64(inclination->0)
            && fits_i64(mean_motion->0) {
            Some(
                ElementsModel {
                    name: decode_utf8(trimmed(name)),
                    catalog_id: catalog_id->0,
                    intl_designator: decode_utf8(trimmed(line1.subrange(9, 17))),
                    launch_year: resolved_year(launch_year->0 as int),
                    launch_number: launch_number->0,
                    epoch_year: resolved_year(epoch_year->0 as int),
                    epoch_day: epoch_day->0,
                    inclination: inclination->0,
                    mean_motion: mean_motion->0,
                    line1,
                    line2,
                },
            )
        } else {
            None
        }
    } else {
        None
    }
}

/// One satellite's orbital elements at their epoch, with the record they were
/// read from.
pub struct OrbitalElementSet {
    name: String,
    catalog_id: u32,
    intl_designator: String,
    launch_year: u16,
    launch_number: u16,
    epoch_year: u16,
    epoch_day: i64,
    inclination: i64,
    mean_motion: i64,
    line1: Vec<u8>,
    line2: Vec<u8>,
}

impl View for OrbitalElementSet {
    type V = ElementsModel;

    closed spec fn view(&self) -> ElementsModel {
        ElementsModel {
            name: self.name@,
            catalog_id: self.catalog_id as nat,
            intl_designator: self.intl_designator@,
            launch_year: self.launch_year as int,
            launch_number: self.launch_number as nat,
            epoch_year: self.epoch_year as int,
            epoch_day: self.epoch_day as int,
            inclination: self.inclination as int,
            mean_motion: self.mean_motion as int,
            line1: self.line1@,
            line2: self.line2@,
        }
    }
}

/// What holds of every element set: the years are resolved, the epoch day is
/// a day of a year, the data lines are whole.
pub open spec fn elements_valid(m: ElementsModel) -> bool {
    &&& 1957 <= m.launch_year <= 2056
    &&& 1957 <= m.epoch_year <= 2056
    &&& 100_000_000 <= m.epoch_day < 36_700_000_000
    &&& m.line1.len() >= 69
    &&& m.line2.len() >= 69
}

/// The element set of a record has resolved years and an epoch day that is a
/// day of a year.
pub proof fn lemma_record_elements_valid(name: Seq<u8>, line1: Seq<u8>, line2: Seq<u8>)
    requires
        record_elements(name, line1, line2) is Some,
    ensures
        elements_valid(record_elements(name, line1, line2)->0),
{
}

/// The column `line[from..to]` without the blanks around it.
fn trimmed_column<'a>(line: &'a [u8], from: usize, to: usize) -> (r: &'a [u8])
    requires
        from <= to <= line@.len(),
    ensures
        r@ == trimmed(line@.subrange(from as int, to as int)),
{
    let column = slice_subrange(line, from, to);
    let (a, b) = trim_bounds(column);
    slice_subrange(column, a, b)
}

/// The text `s` without the blanks around it, where every blank is a single
/// byte.
fn trimmed_text<'a>(s: &'a str, from: usize, to: usize) -> (r: &'a str)
    requires
        from <= to <= s.spec_bytes().len(),
        from == 0 || s.spec_bytes()[from - 1] < 128,
        to == s.spec_bytes().len() || s.spec_bytes()[to as int] < 128,
    ensures
        r.spec_bytes() == trimmed(s.spec_bytes().subrange(from as int, to as int)),
        r@ == decode_utf8(trimmed(s.spec_bytes().subrange(from as int, to as int))),
{
    let bytes = s.as_bytes();
    let column = slice_subrange(bytes, from, to);
    let (a, b) = trim_bounds(column);
    proof {
        let all = s.spec_bytes();
        let col = all.subrange(from as int, to as int);
        encode_utf8_valid_utf8(s@);
        crate::text::lemma_trim_bounds_blank(col, a as int, b as int);
        // the start of what is kept
        if from + a == 0 {
            is_char_boundary_start_end_of_seq(all);
        } else {
            if a > 0 {
                assert(col[a - 1] == all[from + a - 1]);
            }
            lemma_boundary_after_ascii(all, from + a);
        }
        // its end
        if b < col.len() {
            assert(col[b as int] == all[from + b]);
        }
        lemma_boundary_at_ascii(all, from + b);
        assert(all.subrange(from + a, from + b) =~= col.subrange(a as int, b as int));
    }
    let r = slice_str(s, from + a, from + b);
    proof {
        encode_utf8_decode_utf8(r@);
    }
    r
}

impl OrbitalElementSet {
    #[verifier::type_invariant]
    spec fn well_formed(self) -> bool {
        elements_valid(self@)
    }

    /// Reads the element set of one record: its name line and its two data
    /// lines.
    pub fn from_record(name: &str, line1: &str, line2: &str) -> (r: Option<OrbitalElementSet>)
        ensures
            r is Some == record_elements(name.spec_bytes(), line1.spec_bytes(), line2.spec_bytes())
                is Some,
            r matches Some(set) ==> Some(set@) == record_elements(
                name.spec_bytes(),
                line1.spec_bytes(),
                line2.spec_bytes(),
            ),
    {
        let b1 = line1.as_bytes();
        let b2 = line2.as_bytes();
        if b1.len() < RECORD_WIDTH || b2.len() < RECORD_WIDTH {
            return None;
        }
        if !is_ascii_text(b1) || !is_ascii_text(b2) {
            return None;
        }
        let catalog_id = match parse_unsigned(trimmed_column(b1, 2, 7), u32::MAX as u64) {
            Some(v) => v as u32,
            None => {
                return None;
            },
        };
        let launch_yy = match parse_unsigned(slice_subrange(b1, 9, 11), 99) {
            Some(v) => v as u8,
            None => {
                return None;
            },
        };
        let launch_number = match parse_unsigned(trimmed_column(b1, 11, 14), u16::MAX as u64) {
            Some(v) => v as u16,
            None => {
                return None;
            },
        };
        let epoch_yy = match parse_unsigned(slice_subrange(b1, 18, 20), 99) {
            Some(v) => v as u8,
            None => {
                return None;
            },
        };
        let epoch_day = match parse_fixed(trimmed_column(b1, 20, 32), FINE_PLACES) {
            Some(v) => v,
            None => {
                return None;
            },
        };
        if epoch_day < FINE_UNIT || epoch_day >= 367 * FINE_UNIT {
            return None;
        }
        let inclination = match parse_fixed(trimmed_column(b2, 8, 16), ANGLE_PLACES) {
            Some(v) => v,
            None => {
                return None;
            },
        };
        let mean_motion = match parse_fixed(trimmed_column(b2, 52, 63), FINE_PLACES) {
            Some(v) => v,
            None => {
                return None;
            },
        };
        let name_len = name.as_bytes().len();
        let set = OrbitalElementSet {
            name: trimmed_text(name, 0, name_len).to_owned(),
            catalog_id,
            intl_designator: trimmed_text(line1, 9, 17).to_owned(),
            launch_year: resolve_year(launch_yy),
            launch_number,
            epoch_year: resolve_year(epoch_yy),
            epoch_day,
            inclination,
            mean_motion,
            line1: slice_to_vec(b1),
            line2: slice_to_vec(b2),
        };
        proof {
            assert(name.spec_bytes().subrange(0, name_len as int) =~= name.spec_bytes());
        }
        Some(set)
    }
}


impl OrbitalElementSet {
    /// The object's name, without the blanks around it.
    pub fn name(&self) -> (r: &str)
        ensures
            r@ == self@.name,
    {
        self.name.as_str()
    }

    /// The catalog number.
    pub fn catalog_id(&self) -> (r: u32)
        ensures
            r == self@.catalog_id,
    {
        self.catalog_id
    }

    /// The international designator, without the blanks around it.
    pub fn intl_designator(&self) -> (r: &str)
        ensures
            r@ == self@.intl_designator,
    {
        self.intl_designator.as_str()
    }

    /// The year of the launch.
    pub fn launch_year(&self) -> (r: u16)
        ensures
            r == self@.launch_year,
            1957 <= r <= 2056,
    {
        proof {
            use_type_invariant(self);
        }
        self.launch_year
    }

    /// The number of the launch in its year.
    pub fn launch_number(&self) -> (r: u16)
        ensures
            r == self@.launch_number,
    {
        self.launch_number
    }

    /// The year of the epoch.
    pub fn epoch_year(&self) -> (r: u16)
        ensures
            r == self@.epoch_year,
            1957 <= r <= 2056,
    {
        proof {
            use_type_invariant(self);
        }
        self.epoch_year
    }

    /// The day of the year of the epoch, with its fraction, in units of
    /// `10^-8` days; the first of January is day one.
    pub fn epoch_day(&self) -> (r: i64)
        ensures
            r == self@.epoch_day,
            100_000_000 <= r < 36_700_000_000,
    {
        proof {
            use_type_invariant(self);
        }
        self.epoch_day
    }

    /// The inclination in units of `10^-4` degrees.
    pub fn inclination(&self) -> (r: i64)
        ensures
            r == self@.inclination,
    {
        self.inclination
    }

    /// The mean motion in units of `10^-8` revolutions per day.
    pub fn mean_motion(&self) -> (r: i64)
        ensures
            r == self@.mean_motion,
    {
        self.mean_motion
    }

    /// The first data line of the record.
    pub fn line1(&self) -> (r: &Vec<u8>)
        ensures
            r@ == self@.line1,
            r@.len() >= 69,
    {
        proof {
            use_type_invariant(self);
        }
        &self.line1
    }

    /// The second data line of the record.
    pub fn line2(&self) -> (r: &Vec<u8>)
        ensures
            r@ == self@.line2,
            r@.len() >= 69,
    {
        proof {
            use_type_invariant(self);
        }
        &self.line2
    }
}

impl Clone for OrbitalElementSet {
    fn clone(&self) -> (r: OrbitalElementSet)
        ensures
            r@ == self@,
    {
        proof {
            use_type_invariant(self);
        }
        OrbitalElementSet {
            name: self.name.clone(),
            catalog_id: self.catalog_id,
            intl_designator: self.intl_designator.clone(),
            launch_year: self.launch_year,
            launch_number: self.launch_number,
            epoch_year: self.epoch_year,
            epoch_day: self.epoch_day,
            inclination: self.inclination,
            mean_motion: self.mean_motion,
            line1: slice_to_vec(self.line1.as_slice()),
            line2: slice_to_vec(self.line2.as_slice()),
        }
    }
}

} // verus!
