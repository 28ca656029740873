use mtb::llpoint::{LLPoint, LatLon, LAT_LIMIT, LON_LIMIT};

#[test]
fn position_within_range_is_built() {
    assert_eq!(
        LatLon::new(451_234_567, -76_543_210),
        Some(LatLon {
            lat: 451_234_567,
            lon: -76_543_210
        })
    );
    assert_eq!(
        LatLon::new(LAT_LIMIT, LON_LIMIT),
        Some(LatLon {
            lat: 900_000_000,
            lon: 1_800_000_000
        })
    );
    assert_eq!(
        LatLon::new(-LAT_LIMIT, -LON_LIMIT),
        Some(LatLon {
            lat: -900_000_000,
            lon: -1_800_000_000
        })
    );
    let p = LatLon::new(12, 34).unwrap();
    assert_eq!(p.lat(), 12);
    assert_eq!(p.lon(), 34);
}

#[test]
fn position_out_of_range_is_refused() {
    assert_eq!(LatLon::new(900_000_001, 0), None);
    assert_eq!(LatLon::new(-900_000_001, 0), None);
    assert_eq!(LatLon::new(0, 1_800_000_001), None);
    assert_eq!(LatLon::new(0, -1_800_000_001), None);
    assert_eq!(LatLon::new(i32::MAX, i32::MIN), None);
}

#[test]
fn point_holds_its_position() {
    let p = LLPoint::new_point(451_234_567, 76_543_210);
    assert!(p.is_latlon());
    assert_eq!(p.lat(), 451_234_567);
    assert_eq!(p.lon(), 76_543_210);
    assert_eq!(p.name(), "");
    assert_eq!(
        p.point(),
        Some(LatLon {
            lat: 451_234_567,
            lon: 76_543_210
        })
    );
}

#[test]
fn point_at_the_limits_holds_its_position() {
    let p = LLPoint::new_point(-LAT_LIMIT, LON_LIMIT);
    assert!(p.is_latlon());
    assert_eq!(
        p.point(),
        Some(LatLon {
            lat: -900_000_000,
            lon: 1_800_000_000
        })
    );
}

#[test]
fn a_point_is_a_position_exactly_when_it_has_one() {
    let points = vec![
        LLPoint::new_point(0, 0),
        LLPoint::new_break(""),
        LLPoint::new_point(451_234_567, -76_543_210),
        LLPoint::new_break("a.gpx"),
    ];
    for p in &points {
        assert_eq!(p.is_latlon(), p.point().is_some());
        if let Some(ll) = p.point() {
            assert!(-LAT_LIMIT <= ll.lat && ll.lat <= LAT_LIMIT);
            assert!(-LON_LIMIT <= ll.lon && ll.lon <= LON_LIMIT);
        }
    }
}

#[test]
fn break_carries_its_name() {
    let p = LLPoint::new_break("tracks/morning.gpx");
    assert!(!p.is_latlon());
    assert_eq!(p.name(), "tracks/morning.gpx");
    assert_eq!(p.point(), None);
    assert_eq!(p.lat(), 0);
    assert_eq!(p.lon(), 0);
}
