//! The marketplace: publications, bookings, completions and the fee.

use crate::address::Address;
use crate::amount::U256;
use crate::directory::DriverDirectory;
use crate::error::GeocabError;
use crate::geo_index::GeoIndex;
use crate::geohash::{cell_views, cells_to_search, coordinates_in_range, encode_geohash};
use crate::ledger::{check_owner, settle, ActiveTrips, Payout, Trip};
use crate::location::Location;
use crate::matching::{
    closest_driver, drivers_of, get_locations, Driver, DriverLocationStorage,
};
use crate::model::{
    all_in_range, cell_of, entry_of, lemma_batch_keeps_consistency,
    lemma_booking_keeps_consistency, lemma_initial_state_is_consistent,
    lemma_publish_all_keeps_the_rest, GeocabState, TripBooked,
};
use vstd::prelude::*;

verus! {

/// The marketplace with all that it remembers.
pub struct Geocab {
    owner: Address,
    number: U256,
    drivers_on_grid: GeoIndex,
    driver_grid: DriverDirectory,
    active_trips: ActiveTrips,
    per_trip_fee: U256,
}

impl View for Geocab {
    type V = GeocabState;

    closed spec fn view(&self) -> GeocabState {
        GeocabState {
            owner: self.owner,
            number: self.number,
            drivers_on_grid: self.drivers_on_grid@,
            driver_grid: self.driver_grid@,
            active_trips: self.active_trips@,
            per_trip_fee: self.per_trip_fee,
        }
    }
}

impl Geocab {
    /// Each of the three maps holds every key once, and what they hold is
    /// consistent.
    pub closed spec fn wf(&self) -> bool {
        &&& self.drivers_on_grid.wf()
        &&& self.driver_grid.wf()
        &&& self.active_trips.wf()
        &&& self@.consistent()
    }

    /// A well-formed marketplace is in a consistent state.
    pub proof fn lemma_wf_is_consistent(&self)
        requires
            self.wf(),
        ensures
            self@.consistent(),
    {
    }

    /// A marketplace that has seen nothing yet, with the given owner and no
    /// fee.
    pub fn new(owner: Address) -> (geocab: Geocab)
        ensures
            geocab.wf(),
            geocab@ == GeocabState::initial(owner),
    {
        proof {
            lemma_initial_state_is_consistent(owner);
        }
        Geocab {
            owner,
            number: U256::zero(),
            drivers_on_grid: GeoIndex::new(),
            driver_grid: DriverDirectory::new(),
            active_trips: ActiveTrips::new(),
            per_trip_fee: U256::zero(),
        }
    }

    /// The cells of a batch of publications, or an error where one of them
    /// lies off the map.
    fn cells_of(drivers: &Vec<(Address, i128, i128)>) -> (cells: Result<Vec<String>, GeocabError>)
        ensures
            cells is Ok <==> all_in_range(drivers@),
            cells matches Ok(v) ==> v@.len() == drivers@.len() && forall|i: int|
                0 <= i < drivers@.len() ==> (#[trigger] v@[i])@ == cell_of(drivers@[i]),
            cells matches Err(e) ==> e == GeocabError::GenericError,
    {
        let mut cells: Vec<String> = Vec::new();
        let mut i: usize = 0;
        while i < drivers.len()
            invariant
                i <= drivers.len(),
                cells@.len() == i,
                forall|j: int|
                    0 <= j < i ==> coordinates_in_range((#[trigger] drivers@[j]).1, drivers@[j].2),
                forall|j: int| 0 <= j < i ==> (#[trigger] cells@[j])@ == cell_of(drivers@[j]),
            decreases drivers.len() - i,
        {
            let location = Location::from_i128_tuple((drivers[i].1, drivers[i].2));
            match encode_geohash(&location) {
                Ok(cell) => {
                    cells.push(cell);
                },
                Err(e) => {
                    assert(!coordinates_in_range(drivers@[i as int].1, drivers@[i as int].2));
                    return Err(e);
                },
            }
            i += 1;
        }
        Ok(cells)
    }

    /// Publishes a batch of driver locations, one after the other: each entry
    /// is appended to the bucket of its cell, and its cell becomes the
    /// driver's last known one. The counter advances by the size of the
    /// batch. A batch with a location off the map changes nothing.
    pub fn publish_driver_locations(&mut self, drivers: Vec<(Address, i128, i128)>) -> (done:
        Result<(), GeocabError>)
        requires
            old(self).wf(),
        ensures
            final(self).wf(),
            match old(self)@.publish_batch(drivers@) {
                Ok(state) => done is Ok && final(self)@ == state,
                Err(e) => done == Err::<(), GeocabError>(e) && final(self)@ == old(self)@,
            },
    {
        let cells = match Geocab::cells_of(&drivers) {
            Ok(cells) => cells,
            Err(e) => {
                return Err(e);
            },
        };
        let ghost before = self@;
        let mut i: usize = 0;
        while i < drivers.len()
            invariant
                i <= drivers.len(),
                cells@.len() == drivers@.len(),
                forall|j: int|
                    0 <= j < drivers@.len() ==> (#[trigger] cells@[j])@ == cell_of(drivers@[j]),
                self.drivers_on_grid.wf(),
                self.driver_grid.wf(),
                self.active_trips.wf(),
                self@ == before.publish_all(drivers@.take(i as int)),
            decreases drivers.len() - i,
        {
            let (address, lat, lon) = drivers[i];
            let cell = cells[i].clone();
            self.driver_grid.set(address, cell.clone());
            self.drivers_on_grid.append(cell, DriverLocationStorage { address, lat, lon });
            proof {
                let upto = drivers@.take(i + 1);
                assert(upto.drop_last() == drivers@.take(i as int));
                assert(upto.last() == drivers@[i as int]);
                assert(entry_of(drivers@[i as int]) == DriverLocationStorage { address, lat, lon });
                assert(self@ =~= before.publish_all(upto));
            }
            i += 1;
        }
        proof {
            assert(drivers@.take(i as int) == drivers@);
            lemma_publish_all_keeps_the_rest(before, drivers@);
            lemma_batch_keeps_consistency(before, drivers@);
        }
        self.number = self.number.wrapping_add(&U256::from_usize(drivers.len()));
        assert(self@ =~= before.publish_batch(drivers@)->Ok_0);
        Ok(())
    }

    /// The addresses published into `geohash`, oldest first. A driver that
    /// published there more than once is listed as often.
    pub fn drivers_at_geohash(&self, geohash: String) -> (addresses: Result<Vec<Address>, Vec<u8>>)
        requires
            self.wf(),
        ensures
            addresses matches Ok(v) && v@ == self@.addresses_at(geohash@),
    {
        let mut result: Vec<Address> = Vec::new();
        match self.drivers_on_grid.drivers_at(&geohash) {
            Some(drivers) => {
                let mut i: usize = 0;
                while i < drivers.len()
                    invariant
                        i <= drivers.len(),
                        result@ == drivers@.take(i as int).map_values(
                            |entry: DriverLocationStorage| entry.address,
                        ),
                    decreases drivers.len() - i,
                {
                    result.push(drivers[i].address);
                    assert(drivers@.take(i + 1) == drivers@.take(i as int).push(drivers@[i as int]));
                    i += 1;
                }
                assert(drivers@.take(i as int) == drivers@);
            },
            None => {
                assert(result@ =~= self@.addresses_at(geohash@));
            },
        }
        Ok(result)
    }

    /// The candidates for a passenger at `location`: the entries of the
    /// passenger's cell, then those of the eight cells around it clockwise
    /// from the north, each bucket oldest first.
    pub fn all_nearby_drivers(&self, location: &Location) -> (drivers: Result<
        Vec<Driver>,
        GeocabError,
    >)
        requires
            self.wf(),
        ensures
            match self@.nearby_drivers(*location) {
                Ok(expected) => drivers matches Ok(v) && v@ == expected,
                Err(e) => drivers matches Err(f) && f == e,
            },
    {
        let all_position_hashes = match cells_to_search(location) {
            Ok(cells) => cells,
            Err(e) => {
                return Err(e);
            },
        };
        let ghost cells = cell_views(all_position_hashes@);
        let mut result: Vec<Driver> = Vec::new();
        let mut i: usize = 0;
        while i < all_position_hashes.len()
            invariant
                i <= all_position_hashes.len(),
                self.wf(),
                cells == cell_views(all_position_hashes@),
                result@ == self@.candidates(cells.take(i as int)),
            decreases all_position_hashes.len() - i,
        {
            proof {
                let upto = cells.take(i + 1);
                assert(upto.drop_last() == cells.take(i as int));
                assert(upto.last() == all_position_hashes@[i as int]@);
            }
            match self.drivers_on_grid.drivers_at(&all_position_hashes[i]) {
                Some(nearby_drivers) => {
                    let mut driver_locations = get_locations(nearby_drivers);
                    result.append(&mut driver_locations);
                },
                None => {
                    assert(drivers_of(Seq::empty()) =~= Seq::<Driver>::empty());
                    assert(result@ + Seq::<Driver>::empty() =~= result@);
                },
            }
            i += 1;
        }
        assert(cells.take(i as int) == cells);
        Ok(result)
    }

    /// Books a trip for `passenger` from `origin` with `payment` in escrow:
    /// the nearest driver of the neighbourhood is matched, the trip replaces
    /// any record of the passenger, and the notification of the booking is
    /// returned. A booking that finds no driver changes nothing.
    pub fn book_trip(
        &mut self,
        passenger: Address,
        payment: U256,
        origin: (i128, i128),
        destination: (i128, i128),
    ) -> (booked: Result<TripBooked, GeocabError>)
        requires
            old(self).wf(),
        ensures
            final(self).wf(),
            match old(self)@.book(passenger, payment, Location::spec_from_i128_tuple(origin)) {
                Ok(state) => booked matches Ok(event) && event == (TripBooked {
                    passenger,
                    driver: state.trip(passenger).driver,
                    dest_lat: destination.0,
                    dest_lon: destination.1,
                }) && final(self)@ == state,
                Err(e) => booked matches Err(f) && f == e && final(self)@ == old(self)@,
            },
    {
        let origin_location = Location::from_i128_tuple(origin);
        let nearby_drivers = match self.all_nearby_drivers(&origin_location) {
            Ok(drivers) => drivers,
            Err(e) => {
                return Err(e);
            },
        };
        let driver = match closest_driver(nearby_drivers.as_slice(), &origin_location) {
            Some(closest) => closest.address,
            None => {
                return Err(GeocabError::NoDriversAvailable);
            },
        };
        proof {
            lemma_booking_keeps_consistency(self@, passenger, payment, origin_location);
        }
        self.active_trips.record(Trip { passenger, driver, value: payment });
        Ok(TripBooked { passenger, driver, dest_lat: destination.0, dest_lon: destination.1 })
    }

    /// What completing the trip of `caller` pays out. A trip that did not
    /// succeed pays nothing. One that did pays its escrow less the current
    /// fee to the driver and the fee to the owner; where the fee exceeds the
    /// escrow nothing is paid and the completion fails. The record stays.
    pub fn complete_trip(&self, caller: Address, success: bool) -> (payout: Result<
        Option<Payout>,
        GeocabError,
    >)
        requires
            self.wf(),
        ensures
            payout == self@.settlement(caller, success),
    {
        if success {
            let trip = self.active_trips.get(&caller);
            match settle(&trip, &self.per_trip_fee, self.owner) {
                Ok(payout) => Ok(Some(payout)),
                Err(e) => Err(e),
            }
        } else {
            Ok(None)
        }
    }

    /// Sets the fee for the completions to come. Only the owner may; for
    /// anyone else the fee stays as it was.
    pub fn set_fee(&mut self, caller: Address, new_per_trip_fee: U256) -> (done: Result<
        (),
        GeocabError,
    >)
        requires
            old(self).wf(),
        ensures
            final(self).wf(),
            match old(self)@.with_fee(caller, new_per_trip_fee) {
                Ok(state) => done is Ok && final(self)@ == state,
                Err(e) => done == Err::<(), GeocabError>(e) && final(self)@ == old(self)@,
            },
    {
        match check_owner(&caller, &self.owner) {
            Ok(()) => {
                self.per_trip_fee = new_per_trip_fee;
                Ok(())
            },
            Err(e) => Err(e),
        }
    }

    /// The driver of the trip on record for `caller`; the zero address for a
    /// caller who never booked.
    pub fn active_trip_driver(&self, caller: Address) -> (driver: Result<Address, Vec<u8>>)
        requires
            self.wf(),
        ensures
            driver matches Ok(address) && address == self@.trip(caller).driver,
    {
        let result = self.active_trips.get(&caller);
        Ok(result.driver)
    }

    /// The cell into which `driver` last published, if the driver ever did.
    pub fn driver_geohash(&self, driver: Address) -> (cell: Option<String>)
        requires
            self.wf(),
        ensures
            cell is Some <==> self@.driver_grid.dom().contains(driver),
            cell matches Some(s) ==> s@ == self@.driver_grid[driver],
    {
        match self.driver_grid.get(&driver) {
            Some(cell) => Some(cell.clone()),
            None => None,
        }
    }

    /// The current fee.
    pub fn per_trip_fee(&self) -> (fee: U256)
        ensures
            fee == self@.per_trip_fee,
    {
        self.per_trip_fee
    }

    /// The owner of the platform.
    pub fn owner(&self) -> (owner: Address)
        ensures
            owner == self@.owner,
    {
        self.owner
    }

    /// The counter.
    pub fn number(&self) -> (number: Result<U256, Vec<u8>>)
        ensures
            number matches Ok(n) && n == self@.number,
    {
        Ok(self.number)
    }

    /// Sets the counter.
    pub fn set_number(&mut self, new_number: U256)
        requires
            old(self).wf(),
        ensures
            final(self).wf(),
            final(self)@ == (GeocabState { number: new_number, ..old(self)@ }),
    {
        self.number = new_number;
    }

    /// Advances the counter by one; from its largest value it returns to
    /// zero.
    pub fn increment(&mut self)
        requires
            old(self).wf(),
        ensures
            final(self).wf(),
            final(self)@ == (GeocabState {
                number: old(self)@.number.spec_wrapping_add(U256::of_nat(1)),
                ..old(self)@
            }),
    {
        let number = self.number;
        self.set_number(number.wrapping_add(&U256::from_u128(1)));
    }
}

} // verus!
