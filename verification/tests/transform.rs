use playbackpgnd::xspaces::XSpaces;

fn pitch() -> XSpaces {
    XSpaces::new(
        ((-55_000_000, -37_000_000), (55_000_000, 37_000_000)),
        ((0, 0), (1_000_000, 1_000_000)),
    )
}

#[test]
fn corners_map_exactly() {
    let xs = pitch();
    assert_eq!(xs.d2ox(-55_000_000), 0);
    assert_eq!(xs.d2ox(55_000_000), 1_000_000);
    assert_eq!(xs.d2oy(-37_000_000), 0);
    assert_eq!(xs.d2oy(37_000_000), 1_000_000);
    assert_eq!(xs.d2o((-55_000_000, 37_000_000)), (0, 1_000_000));
    assert_eq!(xs.d2o((55_000_000, -37_000_000)), (1_000_000, 0));
}

#[test]
fn corner_round_trip_is_exact() {
    let xs = pitch();
    assert_eq!(xs.o2dx(xs.d2ox(-55_000_000)), -55_000_000);
    assert_eq!(xs.o2dx(xs.d2ox(55_000_000)), 55_000_000);
    assert_eq!(xs.o2dy(xs.d2oy(-37_000_000)), -37_000_000);
    assert_eq!(xs.o2dy(xs.d2oy(37_000_000)), 37_000_000);
    assert_eq!(xs.o2d(xs.d2o((-55_000_000, -37_000_000))), (-55_000_000, -37_000_000));
}

#[test]
fn interior_point_is_proportional() {
    let xs = pitch();
    // x = 10 units: (10 + 55) / 110 = 0.590909...
    assert_eq!(xs.d2ox(10_000_000), 590_909);
    assert_eq!(xs.d2oy(0), 500_000);
}

#[test]
fn out_of_rectangle_maps_outside() {
    let xs = pitch();
    assert!(xs.d2ox(-110_000_000) < 0);
    assert!(xs.d2ox(110_000_000) > 1_000_000);
}
