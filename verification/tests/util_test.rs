use socha_client_2020::game::AxialCoords;
use socha_client_2020::game::DoubledCoords;

fn check_round_trip(a: AxialCoords, d: DoubledCoords) {
    assert_eq!(a.to_doubled(), d);
    assert_eq!(d.to_axial(), a);
}

#[test]
fn doubled_axial_coords() {
    check_round_trip(AxialCoords::new(0, 1), DoubledCoords::new(-1, -1));
    check_round_trip(AxialCoords::new(1, 0), DoubledCoords::new(1, -1));
    check_round_trip(AxialCoords::new(-1, 1), DoubledCoords::new(-2, 0));
    check_round_trip(AxialCoords::new(0, 0), DoubledCoords::new(0, 0));
    check_round_trip(AxialCoords::new(1, -1), DoubledCoords::new(2, 0));
    check_round_trip(AxialCoords::new(-2, 1), DoubledCoords::new(-3, 1));
    check_round_trip(AxialCoords::new(-1, 0), DoubledCoords::new(-1, 1));
    check_round_trip(AxialCoords::new(0, -1), DoubledCoords::new(1, 1));
}

#[test]
fn cube_conversions_sum_to_zero() {
    for x in -3..=3 {
        for y in -3..=3 {
            let cube = AxialCoords::new(x, y).to_cube();
            assert_eq!(cube.x() + cube.y() + cube.z(), 0);
            assert_eq!(cube.to_axial(), AxialCoords::new(x, y));
        }
    }
}
