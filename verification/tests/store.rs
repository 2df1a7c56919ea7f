use taiwan_eq_map::cwb_api::{EarthquakeInfo, Earthquake, Epicenter, Intensity};
use taiwan_eq_map::db::EqDb;
use taiwan_eq_map::time::CwbTime;

#[test]
fn watermark_round_trips_through_the_store() {
    let mut db = EqDb::new("/tmp/taiwan_eq_map_test_store_a").expect("store should open");
    db.store_last_time("2021-06-27T01:00:01".to_string()).expect("store should write");
    assert_eq!(db.get_last_time().expect("watermark should be there"), "2021-06-27T01:00:01");
    db.store_last_time("2021-06-27T02:00:00".to_string()).expect("store should write");
    assert_eq!(db.get_last_time().expect("watermark should be there"), "2021-06-27T02:00:00");
}

#[test]
fn seeded_watermark_parses_in_the_canonical_shape() {
    let mut db = EqDb::new("/tmp/taiwan_eq_map_test_store_b").expect("store should open");
    db.check_last_time_create_if_not_exist().expect("seeding should work");
    let seeded = db.get_last_time().expect("watermark should be there");
    // The startup seed is the current local time in the canonical
    // shape, so the freshness decision must be able to read it back.
    assert!(CwbTime::new_time_string_with_t(&seeded).is_some());
}

fn bare_event(origin: &str) -> Earthquake {
    Earthquake {
        report_content: "q".to_string(),
        earthquake_info: EarthquakeInfo {
            origin_time: origin.to_string(),
            epicenter: Epicenter { long: 0, lat: 0 },
        },
        intensity: Intensity { shaking_area: vec![] },
    }
}

#[test]
fn update_last_time_advances_only_for_new_events() {
    let mut db = EqDb::new("/tmp/taiwan_eq_map_test_store_c").expect("store should open");
    db.store_last_time("2021-06-27T01:00:00".to_string()).expect("store should write");

    // An event at the watermark instant is new: the store advances.
    let fresh = bare_event("2021-06-27 01:00:00");
    assert!(matches!(fresh.update_last_time(&mut db), Ok(true)));
    assert_eq!(db.get_last_time().unwrap(), "2021-06-27T01:00:01");

    // A stale event leaves the store untouched.
    let stale = bare_event("2021-06-26 23:00:00");
    assert!(matches!(stale.update_last_time(&mut db), Ok(false)));
    assert_eq!(db.get_last_time().unwrap(), "2021-06-27T01:00:01");

    // A malformed timestamp is surfaced, with the store untouched.
    let broken = bare_event("not a time");
    assert!(broken.update_last_time(&mut db).is_err());
    assert_eq!(db.get_last_time().unwrap(), "2021-06-27T01:00:01");
}
