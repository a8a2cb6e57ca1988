use geocab::codec::Fixed128;
use geocab::location::{Distance, Location};
use substrate_fixed::types::I64F64;

const DEGREE: i128 = 1 << 64;

fn at(lat: i128, lon: i128) -> Location {
    Location::from_i128_tuple((lat, lon))
}

#[test]
fn a_location_holds_both_coordinates_bit_for_bit() {
    let location = at(51 * DEGREE, -3);
    assert_eq!(location.lat, Fixed128 { bits: 51 * DEGREE });
    assert_eq!(location.lon, Fixed128 { bits: -3 });
}

#[test]
fn the_distance_is_the_sum_of_the_absolute_differences() {
    assert_eq!(at(7, -2).distance_indication(&at(-1, 4)).bits, 14);
    assert_eq!(at(-1, 4).distance_indication(&at(7, -2)).bits, 14);
    assert_eq!(at(5, 5).distance_indication(&at(5, 5)).bits, 0);
    assert_eq!(
        at(51 * DEGREE, 0).distance_indication(&at(52 * DEGREE, -DEGREE / 2)).bits,
        DEGREE + DEGREE / 2
    );
    assert_eq!(
        at(90 * DEGREE, 180 * DEGREE).distance_indication(&at(-90 * DEGREE, -180 * DEGREE)).bits,
        540 * DEGREE
    );
    assert_eq!(at(i128::MAX, 0).distance_indication(&at(0, 0)).bits, i128::MAX);
    assert_eq!(at(0, 0).distance_indication(&at(0, -i128::MAX)).bits, i128::MAX);
}

#[test]
fn the_distance_agrees_with_fixed_point_arithmetic() {
    let (a_lat, a_lon) = (I64F64::from_num(51) / I64F64::from_num(7), I64F64::from_num(-3));
    let (b_lat, b_lon) = (I64F64::from_num(-2), I64F64::from_num(11) / I64F64::from_num(3));
    let expected = (a_lat - b_lat).abs() + (a_lon - b_lon).abs();
    let a = at(a_lat.to_bits(), a_lon.to_bits());
    let b = at(b_lat.to_bits(), b_lon.to_bits());
    assert_eq!(a.distance_indication(&b).bits, expected.to_bits());
}

#[test]
fn the_wide_distance_holds_what_a_fixed_point_number_cannot() {
    assert_eq!(at(7, -2).wide_distance(&at(-1, 4)), Distance { carry: false, low: 14 });
    assert_eq!(
        at(i128::MAX, 0).wide_distance(&at(i128::MIN, 0)),
        Distance { carry: false, low: u128::MAX }
    );
    assert_eq!(
        at(i128::MAX, 1).wide_distance(&at(i128::MIN, 0)),
        Distance { carry: true, low: 0 }
    );
    assert_eq!(
        at(i128::MIN, i128::MAX).wide_distance(&at(i128::MAX, i128::MIN)),
        Distance { carry: true, low: u128::MAX - 1 }
    );
    assert_eq!(at(-5, -9).wide_distance(&at(-7, -3)), Distance { carry: false, low: 8 });
}

#[test]
fn distances_are_ordered_by_their_number() {
    let short = Distance { carry: false, low: 5 };
    let long = Distance { carry: false, low: 6 };
    let wide = Distance { carry: true, low: 0 };
    assert!(short.shorter_than(&long));
    assert!(!long.shorter_than(&short));
    assert!(!short.shorter_than(&short));
    assert!(long.shorter_than(&wide));
    assert!(!wide.shorter_than(&long));
    assert!(wide.shorter_than(&Distance { carry: true, low: 1 }));
}
