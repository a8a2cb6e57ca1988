//! The marketplace as a mathematical state with its transitions. The
//! operations of `Geocab` are stated over this model.

use crate::address::Address;
use crate::amount::U256;
use crate::error::GeocabError;
use crate::geo_index::bucket;
use crate::geohash::{coordinates_in_range, geohash_cell, search_cells};
use crate::ledger::{split, trip_of, Payout, Trip};
use crate::location::Location;
use crate::matching::{
    drivers_of, lemma_nearer_or_earlier_wins, nearest, nearest_index, Driver, DriverLocationStorage,
};
use vstd::prelude::*;

verus! {

/// The notification of a booking: who rides, who drives, and where to.
#[derive(Clone, Copy, Debug, PartialEq, Eq)]
pub struct TripBooked {
    pub passenger: Address,
    pub driver: Address,
    pub dest_lat: i128,
    pub dest_lon: i128,
}

/// Everything the marketplace remembers.
#[verifier::ext_equal]
pub struct GeocabState {
    /// Who may set the fee, and who receives it.
    pub owner: Address,
    /// A counter that publications advance.
    pub number: U256,
    /// The entries published into each cell, oldest first.
    pub drivers_on_grid: Map<Seq<char>, Seq<DriverLocationStorage>>,
    /// The cell into which each driver last published.
    pub driver_grid: Map<Address, Seq<char>>,
    /// The trip on record for each passenger.
    pub active_trips: Map<Address, Trip>,
    /// What the platform takes from each completed trip.
    pub per_trip_fee: U256,
}

/// The entry that a publication files.
pub open spec fn entry_of(driver: (Address, i128, i128)) -> DriverLocationStorage {
    DriverLocationStorage { address: driver.0, lat: driver.1, lon: driver.2 }
}

/// The cell in which a publication is filed.
pub open spec fn cell_of(driver: (Address, i128, i128)) -> Seq<char> {
    geohash_cell(driver.1, driver.2)
}

/// Whether every publication of a batch lies on the map.
pub open spec fn all_in_range(drivers: Seq<(Address, i128, i128)>) -> bool {
    forall|i: int|
        0 <= i < drivers.len() ==> coordinates_in_range(
            (#[trigger] drivers[i]).1,
            drivers[i].2,
        )
}

impl GeocabState {
    /// The state of a marketplace that has seen nothing yet.
    pub open spec fn initial(owner: Address) -> GeocabState {
        GeocabState {
            owner,
            number: U256 { hi: 0, lo: 0 },
            drivers_on_grid: Map::empty(),
            driver_grid: Map::empty(),
            active_trips: Map::empty(),
            per_trip_fee: U256 { hi: 0, lo: 0 },
        }
    }

    /// The entries published into `cell`, oldest first.
    pub open spec fn drivers_at(self, cell: Seq<char>) -> Seq<DriverLocationStorage> {
        bucket(self.drivers_on_grid, cell)
    }

    /// The addresses published into `cell`, oldest first.
    pub open spec fn addresses_at(self, cell: Seq<char>) -> Seq<Address> {
        self.drivers_at(cell).map_values(|entry: DriverLocationStorage| entry.address)
    }

    /// The state after one publication: the entry is appended to the bucket
    /// of its cell, and the cell replaces what the directory held for the
    /// driver.
    pub open spec fn publish(self, driver: (Address, i128, i128)) -> GeocabState {
        GeocabState {
            drivers_on_grid: self.drivers_on_grid.insert(
                cell_of(driver),
                self.drivers_at(cell_of(driver)).push(entry_of(driver)),
            ),
            driver_grid: self.driver_grid.insert(driver.0, cell_of(driver)),
            ..self
        }
    }

    /// The state after the publications of `drivers`, one after the other.
    pub open spec fn publish_all(self, drivers: Seq<(Address, i128, i128)>) -> GeocabState
        decreases drivers.len(),
    {
        if drivers.len() == 0 {
            self
        } else {
            self.publish_all(drivers.drop_last()).publish(drivers.last())
        }
    }

    /// The state after a batch of publications, which also advances the
    /// counter by the size of the batch. A batch with a publication off the
    /// map is refused as a whole.
    pub open spec fn publish_batch(self, drivers: Seq<(Address, i128, i128)>) -> Result<
        GeocabState,
        GeocabError,
    > {
        if all_in_range(drivers) {
            Ok(
                GeocabState {
                    number: self.number.spec_wrapping_add(U256::of_nat(drivers.len())),
                    ..self.publish_all(drivers)
                },
            )
        } else {
            Err(GeocabError::GenericError)
        }
    }

    /// The candidates found in `cells`: bucket after bucket in the order of
    /// `cells`, each bucket oldest first.
    pub open spec fn candidates(self, cells: Seq<Seq<char>>) -> Seq<Driver>
        decreases cells.len(),
    {
        if cells.len() == 0 {
            Seq::empty()
        } else {
            self.candidates(cells.drop_last()) + drivers_of(self.drivers_at(cells.last()))
        }
    }

    /// The candidates for a passenger at `origin`.
    pub open spec fn nearby_drivers(self, origin: Location) -> Result<Seq<Driver>, GeocabError> {
        match search_cells(origin) {
            Ok(cells) => Ok(self.candidates(cells)),
            Err(e) => Err(e),
        }
    }

    /// The driver matched with a passenger at `origin`: the nearest of the
    /// candidates, the first of them among equals.
    pub open spec fn find_nearest(self, origin: Location) -> Result<Driver, GeocabError> {
        match self.nearby_drivers(origin) {
            Ok(drivers) => match nearest(drivers, origin) {
                Some(driver) => Ok(driver),
                None => Err(GeocabError::NoDriversAvailable),
            },
            Err(e) => Err(e),
        }
    }

    /// The state after `passenger` books a trip from `origin` with `payment`
    /// in escrow: the new trip replaces any record of the passenger.
    pub open spec fn book(self, passenger: Address, payment: U256, origin: Location) -> Result<
        GeocabState,
        GeocabError,
    > {
        match self.find_nearest(origin) {
            Ok(driver) => Ok(
                GeocabState {
                    active_trips: self.active_trips.insert(
                        passenger,
                        Trip { passenger, driver: driver.address, value: payment },
                    ),
                    ..self
                },
            ),
            Err(e) => Err(e),
        }
    }

    /// The trip on record for `passenger`.
    pub open spec fn trip(self, passenger: Address) -> Trip {
        trip_of(self.active_trips, passenger)
    }

    /// What completing the trip of `caller` pays out: nothing for a trip
    /// that did not succeed, else the split of its escrow at the current fee.
    pub open spec fn settlement(self, caller: Address, success: bool) -> Result<
        Option<Payout>,
        GeocabError,
    > {
        if !success {
            Ok(None)
        } else {
            match split(self.trip(caller), self.per_trip_fee, self.owner) {
                Ok(payout) => Ok(Some(payout)),
                Err(e) => Err(e),
            }
        }
    }

    /// The state after `caller` sets the fee, which only the owner may do.
    pub open spec fn with_fee(self, caller: Address, fee: U256) -> Result<
        GeocabState,
        GeocabError,
    > {
        if caller == self.owner {
            Ok(GeocabState { per_trip_fee: fee, ..self })
        } else {
            Err(GeocabError::NotOwner)
        }
    }
}

/// Publications touch the grid and the directory only.
pub proof fn lemma_publish_all_keeps_the_rest(state: GeocabState, drivers: Seq<(Address, i128, i128)>)
    ensures
        state.publish_all(drivers).owner == state.owner,
        state.publish_all(drivers).number == state.number,
        state.publish_all(drivers).active_trips == state.active_trips,
        state.publish_all(drivers).per_trip_fee == state.per_trip_fee,
    decreases drivers.len(),
{
    if drivers.len() > 0 {
        lemma_publish_all_keeps_the_rest(state, drivers.drop_last());
    }
}

impl GeocabState {
    /// Every entry lies on the map and is filed under the cell of its
    /// coordinates.
    pub open spec fn entries_are_filed_by_cell(self) -> bool {
        forall|cell: Seq<char>, i: int|
            self.drivers_on_grid.dom().contains(cell) && 0 <= i < self.drivers_on_grid[cell].len()
                ==> coordinates_in_range(
                (#[trigger] self.drivers_on_grid[cell][i]).lat,
                self.drivers_on_grid[cell][i].lon,
            ) && geohash_cell(self.drivers_on_grid[cell][i].lat, self.drivers_on_grid[cell][i].lon)
                == cell
    }

    /// The directory sends each driver to a cell that lists the driver.
    pub open spec fn directory_points_into_the_grid(self) -> bool {
        forall|driver: Address|
            self.driver_grid.dom().contains(driver) ==> self.addresses_at(
                #[trigger] self.driver_grid[driver],
            ).contains(driver)
    }

    /// Each trip is on record under its own passenger.
    pub open spec fn trips_are_kept_by_passenger(self) -> bool {
        forall|passenger: Address|
            self.active_trips.dom().contains(passenger) ==> (
            #[trigger] self.active_trips[passenger]).passenger == passenger
    }

    /// What holds of every state that the operations can reach.
    pub open spec fn consistent(self) -> bool {
        &&& self.entries_are_filed_by_cell()
        &&& self.directory_points_into_the_grid()
        &&& self.trips_are_kept_by_passenger()
    }
}

/// A marketplace that has seen nothing is consistent.
pub proof fn lemma_initial_state_is_consistent(owner: Address)
    ensures
        GeocabState::initial(owner).consistent(),
{
}

/// A publication on the map keeps the state consistent.
pub proof fn lemma_publication_keeps_consistency(
    state: GeocabState,
    driver: (Address, i128, i128),
)
    requires
        state.consistent(),
        coordinates_in_range(driver.1, driver.2),
    ensures
        state.publish(driver).consistent(),
{
    let after = state.publish(driver);
    assert forall|cell: Seq<char>, i: int|
        after.drivers_on_grid.dom().contains(cell) && 0 <= i < after.drivers_on_grid[cell].len()
        implies coordinates_in_range(
        (#[trigger] after.drivers_on_grid[cell][i]).lat,
        after.drivers_on_grid[cell][i].lon,
    ) && geohash_cell(after.drivers_on_grid[cell][i].lat, after.drivers_on_grid[cell][i].lon)
        == cell by {
        if cell == cell_of(driver) && i < state.drivers_at(cell).len() {
            assert(after.drivers_on_grid[cell][i] == state.drivers_on_grid[cell][i]);
        } else if cell != cell_of(driver) {
            assert(after.drivers_on_grid[cell][i] == state.drivers_on_grid[cell][i]);
        }
    }
    assert forall|a: Address| after.driver_grid.dom().contains(a) implies after.addresses_at(
        #[trigger] after.driver_grid[a],
    ).contains(a) by {
        if a == driver.0 {
            lemma_published_driver_is_listed(state, driver);
        } else {
            let cell = state.driver_grid[a];
            lemma_publication_keeps_entries(state, driver, cell);
            let before = state.addresses_at(cell);
            let k = before.index_of(a);
            assert(before[k] == a);
            assert(after.addresses_at(cell)[k] == a);
        }
    }
}

/// A batch of publications on the map keeps the state consistent.
pub proof fn lemma_batch_keeps_consistency(state: GeocabState, drivers: Seq<(Address, i128, i128)>)
    requires
        state.consistent(),
        all_in_range(drivers),
    ensures
        state.publish_all(drivers).consistent(),
        state.publish_batch(drivers) matches Ok(after) && after.consistent(),
    decreases drivers.len(),
{
    if drivers.len() > 0 {
        let earlier = drivers.drop_last();
        assert forall|i: int| 0 <= i < earlier.len() implies coordinates_in_range(
            (#[trigger] earlier[i]).1,
            earlier[i].2,
        ) by {
            assert(earlier[i] == drivers[i]);
        }
        lemma_batch_keeps_consistency(state, earlier);
        lemma_publication_keeps_consistency(state.publish_all(earlier), drivers.last());
    }
    let after = state.publish_batch(drivers)->Ok_0;
    let published = state.publish_all(drivers);
    assert(after.drivers_on_grid == published.drivers_on_grid);
    assert(after.driver_grid == published.driver_grid);
    assert(after.active_trips == published.active_trips);
}

/// A booking keeps the state consistent.
pub proof fn lemma_booking_keeps_consistency(
    state: GeocabState,
    passenger: Address,
    payment: U256,
    origin: Location,
)
    requires
        state.consistent(),
    ensures
        state.book(passenger, payment, origin) matches Ok(after) ==> after.consistent(),
{
}

/// A published driver is listed in the cell of the publication, as the
/// newest entry there.
pub proof fn lemma_published_driver_is_listed(state: GeocabState, driver: (Address, i128, i128))
    ensures
        state.publish(driver).drivers_at(cell_of(driver)).last() == entry_of(driver),
        state.publish(driver).addresses_at(cell_of(driver)).contains(driver.0),
        state.publish(driver).driver_grid[driver.0] == cell_of(driver),
{
    let listed = state.publish(driver).addresses_at(cell_of(driver));
    assert(listed[listed.len() - 1] == driver.0);
}

/// A publication removes no entry: whoever was listed in a cell stays listed
/// there, at the same place.
pub proof fn lemma_publication_keeps_entries(
    state: GeocabState,
    driver: (Address, i128, i128),
    cell: Seq<char>,
)
    ensures
        state.drivers_at(cell).is_prefix_of(state.publish(driver).drivers_at(cell)),
{
}

/// After a batch of publications every driver of the batch is listed in the
/// cell of its publication.
pub proof fn lemma_batch_lists_every_driver(
    state: GeocabState,
    drivers: Seq<(Address, i128, i128)>,
    i: int,
)
    requires
        0 <= i < drivers.len(),
    ensures
        state.publish_all(drivers).addresses_at(cell_of(drivers[i])).contains(drivers[i].0),
        state.publish_batch(drivers) matches Ok(after) ==> after.addresses_at(
            cell_of(drivers[i]),
        ).contains(drivers[i].0),
    decreases drivers.len(),
{
    let earlier = state.publish_all(drivers.drop_last());
    let cell = cell_of(drivers[i]);
    if i == drivers.len() - 1 {
        lemma_published_driver_is_listed(earlier, drivers.last());
    } else {
        lemma_batch_lists_every_driver(state, drivers.drop_last(), i);
        lemma_publication_keeps_entries(earlier, drivers.last(), cell);
        let before = earlier.addresses_at(cell);
        let k = before.index_of(drivers[i].0);
        assert(before[k] == drivers[i].0);
        assert(earlier.publish(drivers.last()).addresses_at(cell)[k] == drivers[i].0);
    }
}

/// The candidates depend on the grid alone.
pub proof fn lemma_candidates_depend_on_the_grid_only(
    a: GeocabState,
    b: GeocabState,
    cells: Seq<Seq<char>>,
)
    requires
        a.drivers_on_grid == b.drivers_on_grid,
    ensures
        a.candidates(cells) == b.candidates(cells),
    decreases cells.len(),
{
    if cells.len() > 0 {
        lemma_candidates_depend_on_the_grid_only(a, b, cells.drop_last());
    }
}

/// Matching is a function of the grid and the passenger's location: two
/// states with the same grid match the same driver, whatever else they hold.
pub proof fn lemma_find_nearest_is_deterministic(a: GeocabState, b: GeocabState, origin: Location)
    requires
        a.drivers_on_grid == b.drivers_on_grid,
    ensures
        a.find_nearest(origin) == b.find_nearest(origin),
{
    if let Ok(cells) = search_cells(origin) {
        lemma_candidates_depend_on_the_grid_only(a, b, cells);
    }
}

impl GeocabState {
    /// Where the entry at place `i` of the bucket of `cells[c]` stands among
    /// the candidates found in `cells`.
    pub open spec fn candidate_position(self, cells: Seq<Seq<char>>, c: int, i: int) -> int {
        self.candidates(cells.take(c)).len() + i
    }
}

/// Each entry of a searched cell is a candidate, at its position.
pub proof fn lemma_candidate_at(state: GeocabState, cells: Seq<Seq<char>>, c: int, i: int)
    requires
        0 <= c < cells.len(),
        0 <= i < state.drivers_at(cells[c]).len(),
    ensures
        0 <= state.candidate_position(cells, c, i) < state.candidates(cells).len(),
        state.candidates(cells)[state.candidate_position(cells, c, i)] == state.drivers_at(
            cells[c],
        )[i].driver(),
    decreases cells.len(),
{
    let shorter = cells.drop_last();
    if c < cells.len() - 1 {
        lemma_candidate_at(state, shorter, c, i);
        assert(shorter.take(c) == cells.take(c));
    } else {
        assert(cells.take(c) == shorter);
    }
}

/// Positions among the candidates follow the order of the search: an entry
/// of an earlier cell, or an earlier entry of the same cell, stands first.
pub proof fn lemma_candidate_positions_are_ordered(
    state: GeocabState,
    cells: Seq<Seq<char>>,
    c1: int,
    i1: int,
    c2: int,
    i2: int,
)
    requires
        0 <= c1 <= c2 < cells.len(),
        0 <= i1 < state.drivers_at(cells[c1]).len(),
        0 <= i2 < state.drivers_at(cells[c2]).len(),
        c1 < c2 || i1 < i2,
    ensures
        state.candidate_position(cells, c1, i1) < state.candidate_position(cells, c2, i2),
{
    if c1 < c2 {
        let upto = cells.take(c2);
        assert(upto.take(c1) == cells.take(c1));
        assert(upto[c1] == cells[c1]);
        lemma_candidate_at(state, upto, c1, i1);
    }
}

/// Of two published drivers in the searched neighbourhood the strictly
/// nearer one is preferred. Between two at the same distance the one in the
/// cell searched first is preferred, and within one cell the one published
/// first. The matched driver is never the one not preferred, and is at least
/// as near as the preferred one.
pub proof fn lemma_nearer_or_earlier_published_wins(
    state: GeocabState,
    origin: Location,
    c1: int,
    i1: int,
    c2: int,
    i2: int,
)
    requires
        search_cells(origin) is Ok,
        0 <= c1 < search_cells(origin)->Ok_0.len(),
        0 <= c2 < search_cells(origin)->Ok_0.len(),
        0 <= i1 < state.drivers_at(search_cells(origin)->Ok_0[c1]).len(),
        0 <= i2 < state.drivers_at(search_cells(origin)->Ok_0[c2]).len(),
        ({
            let cells = search_cells(origin)->Ok_0;
            let preferred = state.drivers_at(cells[c1])[i1].location().distance(origin);
            let other = state.drivers_at(cells[c2])[i2].location().distance(origin);
            preferred < other || (preferred == other && (c1 < c2 || (c1 == c2 && i1 < i2)))
        }),
    ensures
        ({
            let cells = search_cells(origin)->Ok_0;
            let candidates = state.candidates(cells);
            &&& state.find_nearest(origin) matches Ok(matched)
            &&& matched == candidates[nearest_index(candidates, origin)]
            &&& nearest_index(candidates, origin) != state.candidate_position(cells, c2, i2)
            &&& matched.location.distance(origin) <= state.drivers_at(
                cells[c1],
            )[i1].location().distance(origin)
        }),
{
    let cells = search_cells(origin)->Ok_0;
    let candidates = state.candidates(cells);
    let winner = state.candidate_position(cells, c1, i1);
    let loser = state.candidate_position(cells, c2, i2);
    lemma_candidate_at(state, cells, c1, i1);
    lemma_candidate_at(state, cells, c2, i2);
    let preferred = state.drivers_at(cells[c1])[i1].location().distance(origin);
    let other = state.drivers_at(cells[c2])[i2].location().distance(origin);
    if preferred == other {
        lemma_candidate_positions_are_ordered(state, cells, c1, i1, c2, i2);
    }
    lemma_nearer_or_earlier_wins(candidates, origin, winner, loser);
}

/// Completing a successful trip whose escrow covers the fee pays the driver
/// the escrow less the fee and the owner the fee: together the escrow, no
/// more and no less.
pub proof fn lemma_completion_pays_the_escrow_exactly(state: GeocabState, caller: Address)
    requires
        state.per_trip_fee@ <= state.trip(caller).value@,
    ensures
        state.settlement(caller, true) matches Ok(Some(payout)) && payout.driver == state.trip(
            caller,
        ).driver && payout.owner == state.owner && payout.fee@ == state.per_trip_fee@
            && payout.driver_payment@ == state.trip(caller).value@ - state.per_trip_fee@
            && payout.driver_payment@ + payout.fee@ == state.trip(caller).value@,
{
    crate::ledger::lemma_split_conserves_value(state.trip(caller), state.per_trip_fee, state.owner);
}

/// Completing a successful trip whose escrow is below the fee fails, and a
/// trip that did not succeed pays nothing.
pub proof fn lemma_completion_never_overdraws(state: GeocabState, caller: Address)
    ensures
        state.per_trip_fee@ > state.trip(caller).value@ ==> state.settlement(caller, true) == Err::<
            Option<Payout>,
            GeocabError,
        >(GeocabError::TransferFailure),
        state.settlement(caller, false) == Ok::<Option<Payout>, GeocabError>(None),
{
}

/// Nobody but the owner sets the fee, and the owner always can.
pub proof fn lemma_only_the_owner_sets_the_fee(state: GeocabState, caller: Address, fee: U256)
    ensures
        caller != state.owner ==> state.with_fee(caller, fee) == Err::<GeocabState, GeocabError>(
            GeocabError::NotOwner,
        ),
        caller == state.owner ==> state.with_fee(caller, fee) == Ok::<GeocabState, GeocabError>(
            GeocabState { per_trip_fee: fee, ..state },
        ),
{
}

} // verus!
