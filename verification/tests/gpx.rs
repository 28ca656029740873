use mtb::gpx::append_track;
use mtb::llpoint::{LLPoint, LatLon};

fn at(lat: i32, lon: i32) -> LatLon {
    LatLon::new(lat, lon).unwrap()
}

fn summary(all: &[LLPoint]) -> Vec<(bool, Option<LatLon>, String)> {
    all.iter()
        .map(|p| (p.is_latlon(), p.point(), p.name()))
        .collect()
}

#[test]
fn break_stands_before_the_first_position_of_a_file() {
    let mut all = Vec::new();
    append_track(&mut all, "a.gpx", &[at(10, 20), at(30, 40)], false);
    append_track(&mut all, "b.gpx", &[at(50, 60)], false);
    assert_eq!(
        summary(&all),
        vec![
            (false, None, String::from("a.gpx")),
            (true, Some(LatLon { lat: 10, lon: 20 }), String::new()),
            (true, Some(LatLon { lat: 30, lon: 40 }), String::new()),
            (false, None, String::from("b.gpx")),
            (true, Some(LatLon { lat: 50, lon: 60 }), String::new()),
        ]
    );
}

#[test]
fn file_without_positions_adds_nothing() {
    let mut all = vec![LLPoint::new_point(1, 2)];
    append_track(&mut all, "empty.gpx", &[], false);
    append_track(&mut all, "empty.gpx", &[], true);
    assert_eq!(
        summary(&all),
        vec![(true, Some(LatLon { lat: 1, lon: 2 }), String::new())]
    );
}

#[test]
fn only_the_first_position_is_taken() {
    let mut all = Vec::new();
    append_track(
        &mut all,
        "a.gpx",
        &[at(10, 20), at(30, 40), at(50, 60)],
        true,
    );
    assert_eq!(
        summary(&all),
        vec![
            (false, None, String::from("a.gpx")),
            (true, Some(LatLon { lat: 10, lon: 20 }), String::new()),
        ]
    );
}

#[test]
fn file_with_an_empty_name_still_adds_a_break() {
    let mut all = Vec::new();
    append_track(&mut all, "a.gpx", &[at(1, 2)], false);
    append_track(&mut all, "", &[at(10, 20), at(30, 40)], false);
    assert_eq!(
        summary(&all),
        vec![
            (false, None, String::from("a.gpx")),
            (true, Some(LatLon { lat: 1, lon: 2 }), String::new()),
            (false, None, String::new()),
            (true, Some(LatLon { lat: 10, lon: 20 }), String::new()),
            (true, Some(LatLon { lat: 30, lon: 40 }), String::new()),
        ]
    );
}

#[test]
fn positions_at_the_limits_are_kept() {
    let mut all = Vec::new();
    append_track(
        &mut all,
        "edge.gpx",
        &[at(900_000_000, -1_800_000_000), at(-900_000_000, 1_800_000_000)],
        false,
    );
    assert_eq!(
        summary(&all),
        vec![
            (false, None, String::from("edge.gpx")),
            (
                true,
                Some(LatLon {
                    lat: 900_000_000,
                    lon: -1_800_000_000
                }),
                String::new()
            ),
            (
                true,
                Some(LatLon {
                    lat: -900_000_000,
                    lon: 1_800_000_000
                }),
                String::new()
            ),
        ]
    );
}
