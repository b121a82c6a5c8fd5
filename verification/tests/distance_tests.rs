use cvrp::model::distance::{compute_distance_euc, euclid_distance, integer_sqrt, Rounding};
use cvrp::tsplib_parser::custom_types::Coord;

const ONE: i64 = 1_000_000;

#[test]
fn integer_sqrt_is_the_whole_part_of_the_root() {
    assert_eq!(integer_sqrt(0), 0);
    assert_eq!(integer_sqrt(1), 1);
    assert_eq!(integer_sqrt(3), 1);
    assert_eq!(integer_sqrt(4), 2);
    assert_eq!(integer_sqrt(24), 4);
    assert_eq!(integer_sqrt(25), 5);
    assert_eq!(integer_sqrt(1_000_000_000_000), 1_000_000);
    assert_eq!(integer_sqrt(999_999_999_999), 999_999);
    let big: u128 = (1u128 << 126) - 1;
    let r = integer_sqrt(big) as u128;
    assert!(r * r <= big && big < (r + 1) * (r + 1));
}

#[test]
fn a_three_four_five_triangle() {
    assert_eq!(euclid_distance(0, 0, 3 * ONE, 4 * ONE, Rounding::Nearest), 5);
    assert_eq!(euclid_distance(0, 0, 3 * ONE, 4 * ONE, Rounding::Ceiling), 5);
}

#[test]
fn the_two_roundings_differ() {
    // sqrt(2) = 1.41..
    assert_eq!(euclid_distance(0, 0, ONE, ONE, Rounding::Nearest), 1);
    assert_eq!(euclid_distance(0, 0, ONE, ONE, Rounding::Ceiling), 2);
    // sqrt(8) = 2.82..
    assert_eq!(euclid_distance(0, 0, 2 * ONE, 2 * ONE, Rounding::Nearest), 3);
    assert_eq!(euclid_distance(0, 0, 2 * ONE, 2 * ONE, Rounding::Ceiling), 3);
}

#[test]
fn halves_are_rounded_upwards() {
    assert_eq!(euclid_distance(0, 0, 2_500_000, 0, Rounding::Nearest), 3);
    assert_eq!(euclid_distance(0, 0, 2_499_999, 0, Rounding::Nearest), 2);
    assert_eq!(euclid_distance(0, 0, 500_000, 0, Rounding::Nearest), 1);
    assert_eq!(euclid_distance(0, 0, 499_999, 0, Rounding::Nearest), 0);
    assert_eq!(euclid_distance(0, 0, 1, 0, Rounding::Ceiling), 1);
    assert_eq!(euclid_distance(0, 0, 2_000_000, 0, Rounding::Ceiling), 2);
    assert_eq!(euclid_distance(0, 0, 2_000_001, 0, Rounding::Ceiling), 3);
}

#[test]
fn a_point_is_at_distance_zero_from_itself() {
    assert_eq!(euclid_distance(7 * ONE, -3 * ONE, 7 * ONE, -3 * ONE, Rounding::Nearest), 0);
    assert_eq!(euclid_distance(7 * ONE, -3 * ONE, 7 * ONE, -3 * ONE, Rounding::Ceiling), 0);
}

#[test]
fn the_distance_is_the_same_in_both_directions() {
    let points: [(i64, i64); 6] = [
        (0, 0),
        (3 * ONE, 4 * ONE),
        (-7_250_000, 1_333_333),
        (1_000_000_000_000_000, -1_000_000_000_000_000),
        (-1_000_000_000_000_000, 1_000_000_000_000_000),
        (123_456_789, 987_654_321),
    ];
    for a in points {
        for b in points {
            for rounding in [Rounding::Nearest, Rounding::Ceiling] {
                assert_eq!(
                    euclid_distance(a.0, a.1, b.0, b.1, rounding),
                    euclid_distance(b.0, b.1, a.0, a.1, rounding)
                );
            }
        }
    }
}

#[test]
fn the_largest_distance_fits() {
    let far = 1_000_000_000_000_000;
    // 2 * sqrt(2) * 10^9 = 2828427124.7..
    assert_eq!(euclid_distance(-far, -far, far, far, Rounding::Nearest), 2_828_427_125);
    assert_eq!(euclid_distance(-far, -far, far, far, Rounding::Ceiling), 2_828_427_125);
}

#[test]
fn the_third_coordinate_is_left_out() {
    let a = Coord::Coord3d((1, 0, 0, 5 * ONE));
    let b = Coord::Coord3d((2, 3 * ONE, 4 * ONE, -9 * ONE));
    let c = Coord::Coord2d((3, 3 * ONE, 4 * ONE));
    assert_eq!(compute_distance_euc(&a, &b, Rounding::Nearest), 5);
    assert_eq!(compute_distance_euc(&a, &c, Rounding::Ceiling), 5);
}
