use mtb::bbox::{load_bbox, BoundingBox, EmptyInputError};
use mtb::llpoint::LLPoint;

#[test]
fn box_encloses_every_position() {
    let all = vec![
        LLPoint::new_break("a.gpx"),
        LLPoint::new_point(451_234_567, 76_543_210),
        LLPoint::new_point(451_300_000, 76_000_000),
        LLPoint::new_break("b.gpx"),
        LLPoint::new_point(450_900_000, 77_100_000),
        LLPoint::new_point(451_000_000, 76_900_000),
    ];
    let b = load_bbox(&all).unwrap();
    assert_eq!(
        b,
        BoundingBox {
            lat_min: 450_900_000,
            lat_max: 451_300_000,
            lon_min: 76_000_000,
            lon_max: 77_100_000
        }
    );
    for p in &all {
        if let Some(ll) = p.point() {
            assert!(b.lat_min <= ll.lat && ll.lat <= b.lat_max);
            assert!(b.lon_min <= ll.lon && ll.lon <= b.lon_max);
        }
    }
}

#[test]
fn box_of_one_position_is_that_position() {
    let all = vec![LLPoint::new_point(-337_000_000, 1_512_000_000)];
    assert_eq!(
        load_bbox(&all),
        Ok(BoundingBox {
            lat_min: -337_000_000,
            lat_max: -337_000_000,
            lon_min: 1_512_000_000,
            lon_max: 1_512_000_000
        })
    );
}

#[test]
fn box_spans_both_hemispheres() {
    let all = vec![
        LLPoint::new_point(-900_000_000, -1_800_000_000),
        LLPoint::new_point(900_000_000, 1_800_000_000),
        LLPoint::new_point(0, 0),
    ];
    assert_eq!(
        load_bbox(&all),
        Ok(BoundingBox {
            lat_min: -900_000_000,
            lat_max: 900_000_000,
            lon_min: -1_800_000_000,
            lon_max: 1_800_000_000
        })
    );
}

#[test]
fn empty_sequence_has_no_box() {
    assert_eq!(load_bbox(&[]), Err(EmptyInputError));
}

#[test]
fn breaks_alone_have_no_box() {
    let all = vec![LLPoint::new_break("a.gpx"), LLPoint::new_break("b.gpx")];
    assert_eq!(load_bbox(&all), Err(EmptyInputError));
}
