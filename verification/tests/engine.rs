use geocab::address::Address;
use geocab::amount::U256;
use geocab::engine::Geocab;
use geocab::error::GeocabError;
use geocab::ledger::Payout;
use geocab::location::Location;
use geocab::model::TripBooked;

const DEGREE: i128 = 1 << 64;

fn address(last: u8) -> Address {
    let mut bytes = [0u8; 20];
    bytes[19] = last;
    Address::new(bytes)
}

fn owner() -> Address {
    Address::new([
        0x80, 0x31, 0x0f, 0xA9, 0xcE, 0x4C, 0x31, 0x80, 0x38, 0x12, 0x1C, 0x10, 0x71, 0x62, 0xb8,
        0x8F, 0x1E, 0xC1, 0x4A, 0xF6,
    ])
}

#[test]
fn a_published_driver_is_listed_in_its_cell() {
    let mut geocab = Geocab::new(owner());
    let d = address(1);
    assert_eq!(geocab.publish_driver_locations(vec![(d, 51 * DEGREE, 0)]), Ok(()));
    assert_eq!(geocab.drivers_at_geohash("gcpfp".to_string()), Ok(vec![d]));
    assert_eq!(geocab.driver_geohash(d), Some("gcpfp".to_string()));
    assert_eq!(geocab.drivers_at_geohash("gcpfr".to_string()), Ok(vec![]));
    assert_eq!(geocab.drivers_at_geohash("nonsense".to_string()), Ok(vec![]));
}

#[test]
fn a_driver_that_moves_leaves_the_old_entry_behind() {
    let mut geocab = Geocab::new(owner());
    let d = address(1);
    let e = address(2);
    assert_eq!(
        geocab.publish_driver_locations(vec![
            (d, 51 * DEGREE, 0),
            (e, 51 * DEGREE, 0),
            (d, 51 * DEGREE, 0),
        ]),
        Ok(())
    );
    assert_eq!(geocab.drivers_at_geohash("gcpfp".to_string()), Ok(vec![d, e, d]));
    // one cell to the east
    assert_eq!(geocab.publish_driver_locations(vec![(d, 51 * DEGREE, DEGREE / 20)]), Ok(()));
    assert_eq!(geocab.drivers_at_geohash("gcpfp".to_string()), Ok(vec![d, e, d]));
    let moved_to = geocab.driver_geohash(d).unwrap();
    assert_ne!(moved_to, "gcpfp");
    assert_eq!(geocab.drivers_at_geohash(moved_to), Ok(vec![d]));
    assert_eq!(geocab.driver_geohash(e), Some("gcpfp".to_string()));
    assert_eq!(geocab.driver_geohash(address(3)), None);
}

#[test]
fn a_batch_with_a_location_off_the_map_changes_nothing() {
    let mut geocab = Geocab::new(owner());
    let d = address(1);
    assert_eq!(
        geocab.publish_driver_locations(vec![(d, 51 * DEGREE, 0), (address(2), 91 * DEGREE, 0)]),
        Err(GeocabError::GenericError)
    );
    assert_eq!(geocab.drivers_at_geohash("gcpfp".to_string()), Ok(vec![]));
    assert_eq!(geocab.driver_geohash(d), None);
    assert_eq!(geocab.number(), Ok(U256::zero()));
}

#[test]
fn publications_advance_the_counter() {
    let mut geocab = Geocab::new(owner());
    assert_eq!(
        geocab.publish_driver_locations(vec![(address(1), 0, 0), (address(2), DEGREE, DEGREE)]),
        Ok(())
    );
    assert_eq!(geocab.number(), Ok(U256::from_u128(2)));
    geocab.increment();
    assert_eq!(geocab.number(), Ok(U256::from_u128(3)));
    geocab.set_number(U256::new(u128::MAX, u128::MAX));
    geocab.increment();
    assert_eq!(geocab.number(), Ok(U256::zero()));
    geocab.set_number(U256::new(7, u128::MAX));
    assert_eq!(geocab.publish_driver_locations(vec![(address(1), 0, 0)]), Ok(()));
    assert_eq!(geocab.number(), Ok(U256::new(8, 0)));
}

#[test]
fn booking_matches_the_published_driver_and_completion_pays_both() {
    let mut geocab = Geocab::new(owner());
    let d = address(1);
    let passenger = address(9);
    assert_eq!(geocab.publish_driver_locations(vec![(d, 51 * DEGREE, 0)]), Ok(()));
    assert_eq!(geocab.set_fee(owner(), U256::from_u128(10)), Ok(()));
    let booked = geocab.book_trip(passenger, U256::from_u128(100), (51 * DEGREE, 0), (52 * DEGREE, DEGREE));
    assert_eq!(
        booked,
        Ok(TripBooked { passenger, driver: d, dest_lat: 52 * DEGREE, dest_lon: DEGREE })
    );
    assert_eq!(geocab.active_trip_driver(passenger), Ok(d));
    assert_eq!(
        geocab.complete_trip(passenger, true),
        Ok(Some(Payout {
            driver: d,
            driver_payment: U256::from_u128(90),
            owner: owner(),
            fee: U256::from_u128(10),
        }))
    );
    // the record stays
    assert_eq!(geocab.active_trip_driver(passenger), Ok(d));
    assert_eq!(geocab.complete_trip(passenger, false), Ok(None));
}

#[test]
fn the_nearer_driver_wins_and_ties_go_to_the_first_candidate() {
    let mut geocab = Geocab::new(owner());
    let (far, near, also_near) = (address(1), address(2), address(3));
    let step = DEGREE / 1000;
    let west = -10 * step;
    assert_eq!(
        geocab.publish_driver_locations(vec![
            (far, 51 * DEGREE + 3 * step, west),
            (near, 51 * DEGREE + step, west - step),
            (also_near, 51 * DEGREE + 2 * step, west),
        ]),
        Ok(())
    );
    assert_eq!(geocab.drivers_at_geohash("gcpfp".to_string()), Ok(vec![far, near, also_near]));
    let booked = geocab.book_trip(address(9), U256::zero(), (51 * DEGREE, west), (0, 0)).unwrap();
    assert_eq!(booked.driver, near);
    // nearer to the driver published last
    let booked =
        geocab.book_trip(address(9), U256::zero(), (51 * DEGREE + 2 * step, west + 1), (0, 0)).unwrap();
    assert_eq!(booked.driver, also_near);
}

#[test]
fn candidates_of_the_own_cell_come_before_those_of_the_neighbors() {
    let mut geocab = Geocab::new(owner());
    let (north, home) = (address(1), address(2));
    // the cell gcpfr lies north of gcpfp, whose northern edge is at 51 + 21/1024 degrees
    let edge = 51 * DEGREE + (DEGREE / 1024) * 21;
    let gap = DEGREE / 1000;
    assert_eq!(
        geocab.publish_driver_locations(vec![(north, edge + gap, 0), (home, edge - 3 * gap, 0)]),
        Ok(())
    );
    assert_eq!(geocab.driver_geohash(north), Some("gcpfr".to_string()));
    assert_eq!(geocab.driver_geohash(home), Some("gcpfp".to_string()));
    let passenger_at = Location::from_i128_tuple((edge - gap, 0));
    let candidates = geocab.all_nearby_drivers(&passenger_at).unwrap();
    assert_eq!(candidates.len(), 2);
    assert_eq!(candidates[0].address, home);
    assert_eq!(candidates[1].address, north);
    // both are two gaps away: the tie goes to the candidate listed first
    let booked = geocab.book_trip(address(9), U256::zero(), (edge - gap, 0), (0, 0)).unwrap();
    assert_eq!(booked.driver, home);
    // a passenger nearer to the northern driver is matched across the cell border
    let booked = geocab.book_trip(address(9), U256::zero(), (edge, 0), (0, 0)).unwrap();
    assert_eq!(booked.driver, north);
}

#[test]
fn booking_without_drivers_fails_and_keeps_the_old_trip() {
    let mut geocab = Geocab::new(owner());
    let passenger = address(9);
    assert_eq!(
        geocab.book_trip(passenger, U256::from_u128(5), (51 * DEGREE, 0), (0, 0)),
        Err(GeocabError::NoDriversAvailable)
    );
    assert_eq!(geocab.active_trip_driver(passenger), Ok(Address::zero()));
    assert_eq!(geocab.publish_driver_locations(vec![(address(1), 51 * DEGREE, 0)]), Ok(()));
    assert!(geocab.book_trip(passenger, U256::from_u128(5), (51 * DEGREE, 0), (0, 0)).is_ok());
    // far away from every driver
    assert_eq!(
        geocab.book_trip(passenger, U256::from_u128(6), (10 * DEGREE, 10 * DEGREE), (0, 0)),
        Err(GeocabError::NoDriversAvailable)
    );
    // off the map
    assert_eq!(
        geocab.book_trip(passenger, U256::from_u128(6), (91 * DEGREE, 0), (0, 0)),
        Err(GeocabError::GenericError)
    );
    // in a cell at the edge of the map
    assert_eq!(
        geocab.book_trip(passenger, U256::from_u128(6), (90 * DEGREE, 0), (0, 0)),
        Err(GeocabError::GenericError)
    );
    assert_eq!(geocab.active_trip_driver(passenger), Ok(address(1)));
    assert_eq!(
        geocab.complete_trip(passenger, true),
        Ok(Some(Payout {
            driver: address(1),
            driver_payment: U256::from_u128(5),
            owner: owner(),
            fee: U256::zero(),
        }))
    );
}

#[test]
fn a_new_booking_replaces_the_old_trip() {
    let mut geocab = Geocab::new(owner());
    let passenger = address(9);
    assert_eq!(
        geocab.publish_driver_locations(vec![(address(1), 51 * DEGREE, 0), (address(2), 10 * DEGREE, 10 * DEGREE)]),
        Ok(())
    );
    assert!(geocab.book_trip(passenger, U256::from_u128(5), (51 * DEGREE, 0), (0, 0)).is_ok());
    assert!(geocab.book_trip(passenger, U256::from_u128(7), (10 * DEGREE, 10 * DEGREE), (0, 0)).is_ok());
    assert_eq!(geocab.active_trip_driver(passenger), Ok(address(2)));
    assert_eq!(
        geocab.complete_trip(passenger, true).unwrap().unwrap().driver_payment,
        U256::from_u128(7)
    );
}

#[test]
fn a_fee_above_the_escrow_fails_the_completion() {
    let mut geocab = Geocab::new(owner());
    let passenger = address(9);
    assert_eq!(geocab.publish_driver_locations(vec![(address(1), 51 * DEGREE, 0)]), Ok(()));
    assert!(geocab.book_trip(passenger, U256::from_u128(100), (51 * DEGREE, 0), (0, 0)).is_ok());
    assert_eq!(geocab.set_fee(owner(), U256::from_u128(101)), Ok(()));
    assert_eq!(geocab.complete_trip(passenger, true), Err(GeocabError::TransferFailure));
    assert_eq!(geocab.complete_trip(passenger, false), Ok(None));
    // the fee is read at completion, not at booking
    assert_eq!(geocab.set_fee(owner(), U256::from_u128(100)), Ok(()));
    assert_eq!(
        geocab.complete_trip(passenger, true),
        Ok(Some(Payout {
            driver: address(1),
            driver_payment: U256::zero(),
            owner: owner(),
            fee: U256::from_u128(100),
        }))
    );
    // a caller without a trip has no escrow
    assert_eq!(geocab.complete_trip(address(8), true), Err(GeocabError::TransferFailure));
}

#[test]
fn only_the_owner_sets_the_fee() {
    let mut geocab = Geocab::new(owner());
    assert_eq!(geocab.owner(), owner());
    assert_eq!(geocab.set_fee(owner(), U256::from_u128(10)), Ok(()));
    assert_eq!(geocab.set_fee(address(1), U256::from_u128(1)), Err(GeocabError::NotOwner));
    assert_eq!(geocab.set_fee(Address::zero(), U256::from_u128(1)), Err(GeocabError::NotOwner));
    assert_eq!(geocab.per_trip_fee(), U256::from_u128(10));
}

#[test]
fn escrow_of_more_than_128_bits_is_split_exactly() {
    let mut geocab = Geocab::new(owner());
    let passenger = address(9);
    assert_eq!(geocab.publish_driver_locations(vec![(address(1), 51 * DEGREE, 0)]), Ok(()));
    assert!(geocab.book_trip(passenger, U256::new(1, 0), (51 * DEGREE, 0), (0, 0)).is_ok());
    assert_eq!(geocab.set_fee(owner(), U256::from_u128(1)), Ok(()));
    assert_eq!(
        geocab.complete_trip(passenger, true).unwrap().unwrap().driver_payment,
        U256::new(0, u128::MAX)
    );
}

#[test]
fn the_same_grid_and_passenger_give_the_same_match() {
    let batch = vec![
        (address(1), 51 * DEGREE + 5, -7),
        (address(2), 51 * DEGREE + 3, -9),
        (address(3), 51 * DEGREE + 4, -8),
    ];
    let mut first = Geocab::new(owner());
    let mut second = Geocab::new(address(5));
    assert_eq!(first.publish_driver_locations(batch.clone()), Ok(()));
    assert_eq!(second.publish_driver_locations(batch), Ok(()));
    assert_eq!(second.set_fee(address(5), U256::from_u128(3)), Ok(()));
    let passenger_at = Location::from_i128_tuple((51 * DEGREE, -8));
    assert_eq!(first.all_nearby_drivers(&passenger_at), second.all_nearby_drivers(&passenger_at));
    let once = first.book_trip(address(9), U256::zero(), (51 * DEGREE, -8), (0, 0)).unwrap();
    let again = first.book_trip(address(8), U256::from_u128(1), (51 * DEGREE, -8), (1, 1)).unwrap();
    let elsewhere = second.book_trip(address(9), U256::zero(), (51 * DEGREE, -8), (0, 0)).unwrap();
    assert_eq!(once.driver, address(2));
    assert_eq!(again.driver, once.driver);
    assert_eq!(elsewhere.driver, once.driver);
}
