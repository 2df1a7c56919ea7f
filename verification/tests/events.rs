use taiwan_eq_map::config::MapConfig;
use taiwan_eq_map::cwb_api::{
    BothResponses, EarthquakeInfo, Earthquake, EqStation, Epicenter, Intensity, Records, Response,
    ShakingArea, get_earthquake_urls,
};
use taiwan_eq_map::poll::{PollLoop, PollState};
use taiwan_eq_map::raster::Raster;

fn event(caption: &str, origin: &str, long: i64, lat: i64, stations: Vec<EqStation>) -> Earthquake {
    Earthquake {
        report_content: caption.to_string(),
        earthquake_info: EarthquakeInfo {
            origin_time: origin.to_string(),
            epicenter: Epicenter { long, lat },
        },
        intensity: Intensity { shaking_area: vec![ShakingArea { eq_station: stations }] },
    }
}

#[test]
fn all_earthquakes_come_large_source_first() {
    let big = Response {
        records: Records {
            earthquake: vec![
                event("big one", "2021-06-27 01:00:00", 235000, 1210000, vec![]),
                event("big two", "2021-06-27 02:00:00", 235000, 1210000, vec![]),
            ],
        },
    };
    let small = Response {
        records: Records {
            earthquake: vec![event("small one", "2021-06-27 01:30:00", 235000, 1210000, vec![])],
        },
    };
    let both = BothResponses([big, small]);
    let all = both.get_all_earthquakes();
    assert_eq!(all.len(), 3);
    assert_eq!(all[0].report_content, "big one");
    assert_eq!(all[1].report_content, "big two");
    assert_eq!(all[2].report_content, "small one");
}

#[test]
fn station_reading_classifies_through_the_event() {
    let st = EqStation {
        station_intensity: "4".to_string(),
        station_lat: 235000,
        station_long: 1210000,
    };
    assert!(matches!(st.convert_station_intensity_to_u8(), Ok(4)));
}

#[test]
fn short_caption_keeps_its_text() {
    let e = event("Minor quake", "2021-06-27 01:00:00", 235000, 1210000, vec![]);
    assert_eq!(
        e.tweet_text(),
        "Minor quake #\u{53f0}\u{7063} #\u{5730}\u{9707} #Taiwan #earthquake"
    );
}

#[test]
fn long_caption_is_cut_to_two_hundred_characters() {
    let long_caption: String = std::iter::repeat('a').take(201).collect();
    let e = event(&long_caption, "2021-06-27 01:00:00", 235000, 1210000, vec![]);
    let text = e.tweet_text();
    let expected_head: String = std::iter::repeat('a').take(200).collect();
    assert_eq!(
        text,
        format!("{} #\u{53f0}\u{7063} #\u{5730}\u{9707} #Taiwan #earthquake", expected_head)
    );
}

#[test]
fn urls_name_both_stores_in_order() {
    let urls = get_earthquake_urls("KEY", Some("2021-06-27T01:00:00".to_string()));
    assert_eq!(urls.len(), 2);
    assert_eq!(
        urls[0],
        "https://opendata.cwb.gov.tw/api/v1/rest/datastore/E-A0015-001?Authorization=KEY&timeFrom=2021-06-27T01:00:00"
    );
    assert_eq!(
        urls[1],
        "https://opendata.cwb.gov.tw/api/v1/rest/datastore/E-A0016-001?Authorization=KEY&timeFrom=2021-06-27T01:00:00"
    );
}

#[test]
fn urls_without_a_floor_have_no_time_part() {
    let urls = get_earthquake_urls("KEY", None);
    assert_eq!(
        urls[0],
        "https://opendata.cwb.gov.tw/api/v1/rest/datastore/E-A0015-001?Authorization=KEY"
    );
}

#[test]
fn poll_loop_cadence() {
    let mut p = PollLoop::new();
    assert!(p.should_log_cycle());
    assert_eq!(p.on_fetch_result(true), 60);
    assert_eq!(p.state, PollState::Polling);
    assert_eq!(p.on_fetch_result(false), 180);
    assert_eq!(p.state, PollState::Backoff);
    assert_eq!(p.on_fetch_result(true), 60);
    assert_eq!(p.state, PollState::Polling);
    assert_eq!(p.times_run, 3);
    assert!(!p.should_log_cycle());
}

#[test]
fn whole_event_marks_the_map() {
    let cfg = MapConfig {
        width: 20,
        height: 20,
        box_size: 4,
        box_border: 1,
        icon_size: 2,
        base_long_e4: 0,
        base_lat_e4: 0,
        scale_long_milli: 1000,
        scale_lat_milli: 1000,
    };
    // One station at pixel (3, 5) reading class 5; epicenter at (5, 10).
    let st = EqStation {
        station_intensity: "5".to_string(),
        station_lat: 150000,
        station_long: 30000,
    };
    let e = event("q", "2021-06-27 01:00:00", 100000, 50000, vec![st]);

    let mut img = Raster::from_raw(20, 20, vec![0u8; 20 * 20 * 4]).unwrap();
    // A 2x2 icon: fully opaque white pixels.
    let icon = Raster::from_raw(2, 2, vec![255u8; 2 * 2 * 4]).unwrap();
    e.mark_image_with_eq_data(&mut img, &icon, &cfg);

    // Station marker: red center, black border ring around it.
    let center = img.get_pixel(3, 5);
    assert_eq!((center.r, center.g, center.b, center.a), (255, 0, 0, 255));
    let border = img.get_pixel(0, 5);
    assert_eq!((border.r, border.g, border.b, border.a), (0, 0, 0, 255));
    // Epicenter icon, top-left corner at (4, 9).
    let icon_px = img.get_pixel(4, 9);
    assert_eq!((icon_px.r, icon_px.g, icon_px.b, icon_px.a), (255, 255, 255, 255));
    // Far corner untouched.
    let far = img.get_pixel(19, 19);
    assert_eq!((far.r, far.g, far.b, far.a), (0, 0, 0, 0));
}
