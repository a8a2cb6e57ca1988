//! Locations and the distance by which drivers are ranked.

use crate::amount::pow2_128;
use crate::codec::{to_fixed, Fixed128};
use vstd::prelude::*;

verus! {

/// A point on the map: latitude and longitude in degrees, as fixed-point
/// numbers.
#[derive(Clone, Copy, Debug, PartialEq, Eq, Structural)]
pub struct Location {
    pub lat: Fixed128,
    pub lon: Fixed128,
}

/// The absolute value of `x`.
pub open spec fn abs(x: int) -> int {
    if x >= 0 {
        x
    } else {
        -x
    }
}

/// A Manhattan distance in units of 2^-64 degrees, wide enough for any two
/// locations: the number is `low`, plus two to the power 128 where `carry`
/// is set.
#[derive(Clone, Copy, Debug, PartialEq, Eq, Structural)]
pub struct Distance {
    pub carry: bool,
    pub low: u128,
}

impl View for Distance {
    type V = int;

    open spec fn view(&self) -> int {
        if self.carry {
            pow2_128() + self.low
        } else {
            self.low as int
        }
    }
}

impl Distance {
    /// Whether `self` is strictly shorter than `other`.
    pub fn shorter_than(&self, other: &Distance) -> (shorter: bool)
        ensures
            shorter == (self@ < other@),
    {
        if self.carry == other.carry {
            self.low < other.low
        } else {
            other.carry
        }
    }
}

/// `upper - lower` for `upper >= lower`, which always fits in 128 bits.
fn gap(upper: i128, lower: i128) -> (d: u128)
    requires
        upper >= lower,
    ensures
        d == upper - lower,
{
    if lower >= 0 || upper < 0 {
        (upper - lower) as u128
    } else {
        (upper as u128) + ((-(lower + 1)) as u128) + 1
    }
}

/// The absolute difference of two bit patterns.
fn abs_difference(a: i128, b: i128) -> (d: u128)
    ensures
        d == abs(a - b),
{
    if a >= b {
        gap(a, b)
    } else {
        gap(b, a)
    }
}

impl Location {
    /// The Manhattan distance between two locations, in units of 2^-64
    /// degrees: the absolute difference of the latitudes plus that of the
    /// longitudes.
    pub open spec fn distance(self, other: Location) -> int {
        abs(self.lat.bits - other.lat.bits) + abs(self.lon.bits - other.lon.bits)
    }

    /// The location with the given raw latitude and longitude: each becomes
    /// the fixed-point number with its bit pattern.
    pub open spec fn spec_from_i128_tuple(t: (i128, i128)) -> Location {
        Location { lat: Fixed128 { bits: t.0 }, lon: Fixed128 { bits: t.1 } }
    }

    /// The location with the given raw latitude and longitude, each encoded
    /// by `to_fixed`.
    #[verifier::when_used_as_spec(spec_from_i128_tuple)]
    pub fn from_i128_tuple(t: (i128, i128)) -> (location: Location)
        ensures
            location == Location::spec_from_i128_tuple(t),
    {
        Location { lat: to_fixed(t.0), lon: to_fixed(t.1) }
    }

    /// The Manhattan distance to `other`, exact for every pair of locations.
    pub fn wide_distance(&self, other: &Location) -> (d: Distance)
        ensures
            d@ == self.distance(*other),
    {
        let lat_diff: u128 = abs_difference(self.lat.bits, other.lat.bits);
        let lon_diff: u128 = abs_difference(self.lon.bits, other.lon.bits);
        if lat_diff > u128::MAX - lon_diff {
            Distance { carry: true, low: lat_diff - (u128::MAX - lon_diff) - 1 }
        } else {
            Distance { carry: false, low: lat_diff + lon_diff }
        }
    }

    /// The Manhattan distance to `other` as a fixed-point number of degrees,
    /// for locations whose distance such a number can hold.
    pub fn distance_indication(&self, other: &Location) -> (d: Fixed128)
        requires
            self.distance(*other) <= i128::MAX,
        ensures
            d.bits == self.distance(*other),
    {
        let wide = self.wide_distance(other);
        Fixed128 { bits: wide.low as i128 }
    }
}

} // verus!
