//! Choosing the nearest driver among the candidates of a neighbourhood.

use crate::address::Address;
use crate::codec::{to_fixed, Fixed128};
use crate::location::Location;
use vstd::prelude::*;

verus! {

/// A driver's published position as the grid stores it: the address and the
/// raw coordinates.
#[derive(Clone, Copy, Debug, PartialEq, Eq)]
pub struct DriverLocationStorage {
    pub address: Address,
    pub lat: i128,
    pub lon: i128,
}

/// A candidate for a trip: a driver's address and location.
#[derive(Clone, Copy, Debug, PartialEq, Eq)]
pub struct Driver {
    pub address: Address,
    pub location: Location,
}

impl DriverLocationStorage {
    /// The location that the raw coordinates encode.
    pub open spec fn spec_location(&self) -> Location {
        Location { lat: Fixed128 { bits: self.lat }, lon: Fixed128 { bits: self.lon } }
    }

    /// The candidate that this entry stands for.
    pub open spec fn driver(&self) -> Driver {
        Driver { address: self.address, location: self.spec_location() }
    }

    /// The location that the raw coordinates encode.
    #[verifier::when_used_as_spec(spec_location)]
    pub fn location(&self) -> (location: Location)
        ensures
            location == self.spec_location(),
    {
        let lat = to_fixed(self.lat);
        let lon = to_fixed(self.lon);
        Location { lat, lon }
    }
}

impl<'a> From<&'a DriverLocationStorage> for Driver {
    fn from(value: &'a DriverLocationStorage) -> (driver: Driver) {
        Driver { address: value.address, location: value.location() }
    }
}

impl<'a> vstd::std_specs::convert::FromSpecImpl<&'a DriverLocationStorage> for Driver {
    open spec fn obeys_from_spec() -> bool {
        true
    }

    open spec fn from_spec(value: &'a DriverLocationStorage) -> Driver {
        value.driver()
    }
}

/// The candidates that a bucket of stored entries stands for, in its order.
pub open spec fn drivers_of(stored: Seq<DriverLocationStorage>) -> Seq<Driver> {
    stored.map_values(|entry: DriverLocationStorage| entry.driver())
}

/// The candidates that a bucket of stored entries stands for, in its order.
pub fn get_locations(stored_drivers: &Vec<DriverLocationStorage>) -> (drivers: Vec<Driver>)
    ensures
        drivers@ == drivers_of(stored_drivers@),
{
    let mut result: Vec<Driver> = Vec::new();
    let mut i: usize = 0;
    while i < stored_drivers.len()
        invariant
            i <= stored_drivers.len(),
            result@ == drivers_of(stored_drivers@.take(i as int)),
        decreases stored_drivers.len() - i,
    {
        result.push(Driver::from(&stored_drivers[i]));
        assert(stored_drivers@.take(i + 1) == stored_drivers@.take(i as int).push(
            stored_drivers@[i as int],
        ));
        i += 1;
    }
    assert(stored_drivers@.take(i as int) == stored_drivers@);
    result
}

/// Whether candidate `i` is the one to match with `passenger`: no candidate
/// is nearer, and every candidate before it is farther.
pub open spec fn is_nearest(drivers: Seq<Driver>, passenger: Location, i: int) -> bool {
    &&& 0 <= i < drivers.len()
    &&& forall|j: int|
        0 <= j < drivers.len() ==> drivers[i].location.distance(passenger) <= (
        #[trigger] drivers[j]).location.distance(passenger)
    &&& forall|j: int|
        0 <= j < i ==> drivers[i].location.distance(passenger) < (
        #[trigger] drivers[j]).location.distance(passenger)
}

/// The position of the candidate to match with `passenger`.
pub open spec fn nearest_index(drivers: Seq<Driver>, passenger: Location) -> int {
    choose|i: int| is_nearest(drivers, passenger, i)
}

/// The candidate to match with `passenger`, if there is any candidate.
pub open spec fn nearest(drivers: Seq<Driver>, passenger: Location) -> Option<Driver> {
    if drivers.len() == 0 {
        None
    } else {
        Some(drivers[nearest_index(drivers, passenger)])
    }
}

/// At most one candidate is the one to match.
pub proof fn lemma_nearest_is_unique(drivers: Seq<Driver>, passenger: Location, i: int, k: int)
    requires
        is_nearest(drivers, passenger, i),
        is_nearest(drivers, passenger, k),
    ensures
        i == k,
{
    if i < k {
        assert(drivers[k].location.distance(passenger) < drivers[i].location.distance(passenger));
        assert(drivers[i].location.distance(passenger) <= drivers[k].location.distance(passenger));
    } else if k < i {
        assert(drivers[i].location.distance(passenger) < drivers[k].location.distance(passenger));
        assert(drivers[k].location.distance(passenger) <= drivers[i].location.distance(passenger));
    }
}

/// The first nearest candidate among the first `n`.
spec fn first_nearest(drivers: Seq<Driver>, passenger: Location, n: int) -> int
    decreases n,
{
    if n <= 1 {
        0
    } else {
        let best = first_nearest(drivers, passenger, n - 1);
        if drivers[n - 1].location.distance(passenger) < drivers[best].location.distance(
            passenger,
        ) {
            n - 1
        } else {
            best
        }
    }
}

proof fn lemma_first_nearest(drivers: Seq<Driver>, passenger: Location, n: int)
    requires
        1 <= n <= drivers.len(),
    ensures
        is_nearest(drivers.take(n), passenger, first_nearest(drivers, passenger, n)),
    decreases n,
{
    if n > 1 {
        lemma_first_nearest(drivers, passenger, n - 1);
        let best = first_nearest(drivers, passenger, n - 1);
        let now = first_nearest(drivers, passenger, n);
        let shorter = drivers.take(n - 1);
        let longer = drivers.take(n);
        assert forall|j: int| 0 <= j < n implies longer[now].location.distance(passenger) <= (
        #[trigger] longer[j]).location.distance(passenger) by {
            if j < n - 1 {
                assert(shorter[j] == longer[j]);
            }
        }
        assert forall|j: int| 0 <= j < now implies longer[now].location.distance(passenger) < (
        #[trigger] longer[j]).location.distance(passenger) by {
            assert(shorter[j] == longer[j]);
        }
    }
}

/// Among any candidates there is one to match, and `nearest_index` is it:
/// no candidate is nearer to the passenger, and each candidate that comes
/// before it in the list is strictly farther.
pub proof fn lemma_nearest_exists(drivers: Seq<Driver>, passenger: Location)
    requires
        drivers.len() > 0,
    ensures
        is_nearest(drivers, passenger, nearest_index(drivers, passenger)),
{
    lemma_first_nearest(drivers, passenger, drivers.len() as int);
    assert(drivers.take(drivers.len() as int) == drivers);
}

/// Of two candidates the strictly nearer one wins, and of two at the same
/// distance the one that comes first in the list: a candidate is not matched
/// while another is nearer, or as near and earlier.
pub proof fn lemma_nearer_or_earlier_wins(
    drivers: Seq<Driver>,
    passenger: Location,
    winner: int,
    loser: int,
)
    requires
        0 <= winner < drivers.len(),
        0 <= loser < drivers.len(),
        drivers[winner].location.distance(passenger) < drivers[loser].location.distance(passenger)
            || (drivers[winner].location.distance(passenger) == drivers[loser].location.distance(
            passenger,
        ) && winner < loser),
    ensures
        nearest_index(drivers, passenger) != loser,
        nearest(drivers, passenger) == Some(drivers[nearest_index(drivers, passenger)]),
        drivers[nearest_index(drivers, passenger)].location.distance(passenger)
            <= drivers[winner].location.distance(passenger),
{
    lemma_nearest_exists(drivers, passenger);
    let k = nearest_index(drivers, passenger);
    assert(drivers[k].location.distance(passenger) <= drivers[winner].location.distance(
        passenger,
    ));
    if k == loser {
        assert(drivers[k].location.distance(passenger) <= drivers[winner].location.distance(
            passenger,
        ));
        if winner < loser {
            assert(drivers[k].location.distance(passenger) < drivers[winner].location.distance(
                passenger,
            ));
        }
    }
}

/// The candidate nearest to the passenger by Manhattan distance; among
/// candidates at the same distance, the first in the list. `None` only for an
/// empty list.
pub fn closest_driver<'a>(drivers: &'a [Driver], passenger: &Location) -> (closest: Option<
    &'a Driver,
>)
    ensures
        drivers@.len() == 0 <==> closest is None,
        closest matches Some(driver) ==> *driver == drivers@[nearest_index(drivers@, *passenger)]
            && is_nearest(drivers@, *passenger, nearest_index(drivers@, *passenger)),
        closest matches Some(driver) ==> nearest(drivers@, *passenger) == Some(*driver),
{
    if drivers.len() == 0 {
        return None;
    }
    let mut best: usize = 0;
    let mut min = drivers[0].location.wide_distance(passenger);
    let mut i: usize = 1;
    while i < drivers.len()
        invariant
            0 <= best < i <= drivers.len(),
            min@ == drivers@[best as int].location.distance(*passenger),
            forall|j: int|
                0 <= j < i ==> min@ <= (#[trigger] drivers@[j]).location.distance(*passenger),
            forall|j: int|
                0 <= j < best ==> min@ < (#[trigger] drivers@[j]).location.distance(*passenger),
        decreases drivers.len() - i,
    {
        let distance = drivers[i].location.wide_distance(passenger);
        if distance.shorter_than(&min) {
            min = distance;
            best = i;
        }
        i += 1;
    }
    proof {
        assert(is_nearest(drivers@, *passenger, best as int));
        lemma_nearest_exists(drivers@, *passenger);
        lemma_nearest_is_unique(
            drivers@,
            *passenger,
            best as int,
            nearest_index(drivers@, *passenger),
        );
    }
    Some(&drivers[best])
}

} // verus!
