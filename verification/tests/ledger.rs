use geocab::address::Address;
use geocab::amount::U256;
use geocab::directory::DriverDirectory;
use geocab::error::GeocabError;
use geocab::geo_index::GeoIndex;
use geocab::ledger::{check_owner, settle, ActiveTrips, Payout, Trip};
use geocab::matching::DriverLocationStorage;

fn address(last: u8) -> Address {
    let mut bytes = [0u8; 20];
    bytes[19] = last;
    Address::new(bytes)
}

fn trip(value: U256) -> Trip {
    Trip { passenger: address(9), driver: address(1), value }
}

#[test]
fn the_split_pays_the_driver_the_escrow_less_the_fee() {
    let payout = settle(&trip(U256::from_u128(100)), &U256::from_u128(10), address(7));
    assert_eq!(
        payout,
        Ok(Payout {
            driver: address(1),
            driver_payment: U256::from_u128(90),
            owner: address(7),
            fee: U256::from_u128(10),
        })
    );
    let payout = payout.unwrap();
    assert_eq!(payout.driver_payment.wrapping_add(&payout.fee), U256::from_u128(100));
}

#[test]
fn a_fee_equal_to_the_escrow_leaves_the_driver_nothing() {
    let payout = settle(&trip(U256::from_u128(10)), &U256::from_u128(10), address(7)).unwrap();
    assert_eq!(payout.driver_payment, U256::zero());
    assert_eq!(payout.fee, U256::from_u128(10));
}

#[test]
fn a_fee_above_the_escrow_is_refused() {
    assert_eq!(
        settle(&trip(U256::from_u128(10)), &U256::from_u128(11), address(7)),
        Err(GeocabError::TransferFailure)
    );
    assert_eq!(
        settle(&trip(U256::new(0, u128::MAX)), &U256::new(1, 0), address(7)),
        Err(GeocabError::TransferFailure)
    );
    assert_eq!(settle(&Trip::unset(), &U256::from_u128(1), address(7)), Err(GeocabError::TransferFailure));
}

#[test]
fn only_the_owner_passes_the_owner_check() {
    assert_eq!(check_owner(&address(7), &address(7)), Ok(()));
    assert_eq!(check_owner(&address(8), &address(7)), Err(GeocabError::NotOwner));
}

#[test]
fn errors_have_names() {
    assert_eq!(GeocabError::InvalidGeohash.name(), "InvalidGeohash");
    assert_eq!(GeocabError::GenericError.name(), "GenericError");
    assert_eq!(GeocabError::NoDriversAvailable.name(), "NoDriversAvailable");
    assert_eq!(GeocabError::NotOwner.name(), "NotOwner");
    assert_eq!(GeocabError::TransferFailure.name(), "TransferFailure");
}

#[test]
fn trips_are_kept_one_for_each_passenger() {
    let mut trips = ActiveTrips::new();
    assert_eq!(trips.get(&address(9)), Trip::unset());
    assert_eq!(Trip::unset().driver, Address::zero());
    assert_eq!(Trip::unset().value, U256::zero());
    trips.record(trip(U256::from_u128(5)));
    trips.record(Trip { passenger: address(8), driver: address(2), value: U256::from_u128(6) });
    assert_eq!(trips.get(&address(9)), trip(U256::from_u128(5)));
    trips.record(Trip { passenger: address(9), driver: address(3), value: U256::from_u128(7) });
    assert_eq!(trips.get(&address(9)).driver, address(3));
    assert_eq!(trips.get(&address(8)).driver, address(2));
    assert_eq!(trips.get(&address(7)), Trip::unset());
}

#[test]
fn the_directory_keeps_the_last_cell_of_each_driver() {
    let mut directory = DriverDirectory::new();
    assert_eq!(directory.get(&address(1)), None);
    directory.set(address(1), "gcpfp".to_string());
    directory.set(address(2), "gcpfr".to_string());
    directory.set(address(1), "u1042".to_string());
    assert_eq!(directory.get(&address(1)), Some(&"u1042".to_string()));
    assert_eq!(directory.get(&address(2)), Some(&"gcpfr".to_string()));
    assert_eq!(directory.get(&address(3)), None);
}

#[test]
fn the_grid_appends_to_the_bucket_of_each_cell() {
    let entry = |last: u8| DriverLocationStorage { address: address(last), lat: 0, lon: 0 };
    let mut grid = GeoIndex::new();
    assert_eq!(grid.drivers_at(&"gcpfp".to_string()), None);
    grid.append("gcpfp".to_string(), entry(1));
    grid.append("gcpfr".to_string(), entry(2));
    grid.append("gcpfp".to_string(), entry(3));
    grid.append("gcpfp".to_string(), entry(1));
    assert_eq!(grid.drivers_at(&"gcpfp".to_string()), Some(&vec![entry(1), entry(3), entry(1)]));
    assert_eq!(grid.drivers_at(&"gcpfr".to_string()), Some(&vec![entry(2)]));
    assert_eq!(grid.drivers_at(&"gcpf".to_string()), None);
}
