//! The trip ledger: each passenger's trip record and the split of its escrow
//! between the driver and the platform.

use crate::address::Address;
use crate::amount::U256;
use crate::assoc::{assoc, lemma_assoc_at, lemma_assoc_push, lemma_assoc_update};
use crate::error::GeocabError;
use vstd::prelude::*;

verus! {

/// A booked trip: who rides, who drives, and the value held in escrow.
#[derive(Clone, Copy, Debug, PartialEq, Eq)]
pub struct Trip {
    pub passenger: Address,
    pub driver: Address,
    pub value: U256,
}

impl Trip {
    /// The record of a passenger who never booked: zero addresses and no
    /// value.
    pub open spec fn spec_unset() -> Trip {
        Trip {
            passenger: Address::spec_zero(),
            driver: Address::spec_zero(),
            value: U256 { hi: 0, lo: 0 },
        }
    }

    /// The record of a passenger who never booked.
    #[verifier::when_used_as_spec(spec_unset)]
    pub fn unset() -> (trip: Trip)
        ensures
            trip == Trip::spec_unset(),
    {
        Trip { passenger: Address::zero(), driver: Address::zero(), value: U256::zero() }
    }
}

/// The record of `passenger` in a set of trips: the one kept for the
/// passenger, or the unset record.
pub open spec fn trip_of(trips: Map<Address, Trip>, passenger: Address) -> Trip {
    if trips.dom().contains(passenger) {
        trips[passenger]
    } else {
        Trip::spec_unset()
    }
}

/// The trips on record, at most one for each passenger.
pub struct ActiveTrips {
    trips: Vec<Trip>,
}

impl ActiveTrips {
    /// The passengers that have a record.
    pub closed spec fn keys(&self) -> Seq<Address> {
        self.trips@.map_values(|t: Trip| t.passenger)
    }

    /// No passenger has two records.
    pub closed spec fn wf(&self) -> bool {
        self.keys().no_duplicates()
    }

    /// The position of the record of `passenger`.
    fn find(&self, passenger: &Address) -> (position: Option<usize>)
        ensures
            position matches Some(i) ==> i < self.keys().len() && self.keys()[i as int]
                == *passenger,
            position is None ==> !self.keys().contains(*passenger),
    {
        let mut i: usize = 0;
        while i < self.trips.len()
            invariant
                i <= self.trips.len(),
                forall|j: int| 0 <= j < i ==> self.keys()[j] != *passenger,
            decreases self.trips.len() - i,
        {
            if self.trips[i].passenger == *passenger {
                return Some(i);
            }
            i += 1;
        }
        None
    }
}

impl View for ActiveTrips {
    type V = Map<Address, Trip>;

    closed spec fn view(&self) -> Map<Address, Trip> {
        assoc(self.keys(), self.trips@)
    }
}

impl ActiveTrips {
    /// No trip on record.
    pub fn new() -> (trips: ActiveTrips)
        ensures
            trips.wf(),
            trips@ == Map::<Address, Trip>::empty(),
    {
        let trips = ActiveTrips { trips: Vec::new() };
        assert(trips@ =~= Map::<Address, Trip>::empty());
        trips
    }

    /// The record of `passenger`; the unset record for one who never booked.
    pub fn get(&self, passenger: &Address) -> (trip: Trip)
        requires
            self.wf(),
        ensures
            trip == trip_of(self@, *passenger),
    {
        match self.find(passenger) {
            Some(i) => {
                proof {
                    lemma_assoc_at(self.keys(), self.trips@, i as int);
                }
                self.trips[i]
            },
            None => Trip::unset(),
        }
    }

    /// Puts `trip` on record for its passenger, in place of any earlier
    /// record.
    pub fn record(&mut self, trip: Trip)
        requires
            old(self).wf(),
        ensures
            final(self).wf(),
            final(self)@ == old(self)@.insert(trip.passenger, trip),
    {
        let ghost before = *self;
        match self.find(&trip.passenger) {
            Some(i) => {
                self.trips.set(i, trip);
                proof {
                    assert(self.keys() =~= before.keys());
                    lemma_assoc_update(before.keys(), before.trips@, i as int, trip);
                }
            },
            None => {
                self.trips.push(trip);
                proof {
                    assert(self.keys() =~= before.keys().push(trip.passenger));
                    lemma_assoc_push(before.keys(), before.trips@, trip.passenger, trip);
                }
            },
        }
    }
}

/// Whether `caller` may act as the owner: only the owner may.
pub fn check_owner(caller: &Address, owner: &Address) -> (allowed: Result<(), GeocabError>)
    ensures
        *caller == *owner ==> allowed is Ok,
        *caller != *owner ==> allowed == Err::<(), GeocabError>(GeocabError::NotOwner),
{
    if *caller != *owner {
        Err(GeocabError::NotOwner)
    } else {
        Ok(())
    }
}

/// What a completed trip pays out: first `driver_payment` to `driver`, then
/// `fee` to `owner`.
#[derive(Clone, Copy, Debug, PartialEq, Eq)]
pub struct Payout {
    pub driver: Address,
    pub driver_payment: U256,
    pub owner: Address,
    pub fee: U256,
}

/// The split of a trip's escrow at the given fee: the fee goes to the owner
/// and the rest to the driver. An escrow below the fee cannot be split.
pub open spec fn split(trip: Trip, fee: U256, owner: Address) -> Result<Payout, GeocabError> {
    match trip.value.spec_checked_sub(fee) {
        Some(driver_payment) => Ok(Payout { driver: trip.driver, driver_payment, owner, fee }),
        None => Err(GeocabError::TransferFailure),
    }
}

/// Splits the escrow of `trip` between its driver and the owner.
pub fn settle(trip: &Trip, fee: &U256, owner: Address) -> (payout: Result<Payout, GeocabError>)
    ensures
        payout == split(*trip, *fee, owner),
{
    match trip.value.checked_sub(fee) {
        Some(driver_payment) => Ok(
            Payout { driver: trip.driver, driver_payment, owner, fee: *fee },
        ),
        None => Err(GeocabError::TransferFailure),
    }
}

/// A split pays the driver the escrow less the fee and the owner the fee:
/// together exactly the escrow, whenever the escrow covers the fee.
pub proof fn lemma_split_conserves_value(trip: Trip, fee: U256, owner: Address)
    requires
        fee@ <= trip.value@,
    ensures
        split(trip, fee, owner) matches Ok(payout) && payout.driver == trip.driver && payout.owner
            == owner && payout.driver_payment@ == trip.value@ - fee@ && payout.fee == fee
            && payout.driver_payment@ + payout.fee@ == trip.value@,
{
    U256::lemma_view_of_nat((trip.value@ - fee@) as nat);
}

/// A fee above the escrow is refused: nothing is paid, and no payment wraps
/// around.
pub proof fn lemma_split_refuses_a_fee_above_the_escrow(trip: Trip, fee: U256, owner: Address)
    requires
        fee@ > trip.value@,
    ensures
        split(trip, fee, owner) == Err::<Payout, GeocabError>(GeocabError::TransferFailure),
{
}

} // verus!
