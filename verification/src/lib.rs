//! Satellite tracking core: parses orbital element records, caches one orbit of
//! sampled positions per satellite, and answers where a satellite is at a given
//! instant and whether a camera can see it.
//!
//! All quantities are exact integers: instants are Unix milliseconds, positions
//! are metres, and record columns are fixed-point decimals.

pub mod arith;
pub mod batch;
pub mod clock;
pub mod elements;
pub mod epoch;
pub mod geometry;
pub mod labels;
pub mod orbit;
pub mod propagation;
pub mod satellite;
pub mod text;
pub mod visibility;
