use taiwan_eq_map::time::{
    decide_freshness, decide_freshness_batch, get_local_date_time_with_t, CwbTime,
    TimestampParseError,
};

#[test]
fn equal_instant_different_format_is_new() {
    // Same instant written in the feed shape and the canonical shape:
    // the event counts as new and the watermark advances one second.
    let r = decide_freshness("2021-06-27 01:00:00", "2021-06-27T01:00:00");
    match r {
        Ok(Some(nw)) => assert_eq!(nw, "2021-06-27T01:00:01"),
        _ => panic!("expected a new event with an advanced watermark"),
    }
}

#[test]
fn earlier_event_is_stale() {
    let r = decide_freshness("2021-06-26 23:00:00", "2021-06-27T01:00:00");
    assert!(matches!(r, Ok(None)));
}

#[test]
fn only_the_later_of_two_events_advances() {
    let watermark = "2021-06-27T01:00:00";
    let stale = decide_freshness("2021-06-26 23:00:00", watermark);
    assert!(matches!(stale, Ok(None)));
    let fresh = decide_freshness("2021-06-27 01:00:00", watermark);
    match fresh {
        Ok(Some(nw)) => {
            assert_eq!(nw, "2021-06-27T01:00:01");
            // The advanced watermark shuts the same instant out next poll.
            let again = decide_freshness("2021-06-27 01:00:00", nw.as_str());
            assert!(matches!(again, Ok(None)));
        }
        _ => panic!("expected the later event to be new"),
    }
}

#[test]
fn bad_event_time_is_surfaced() {
    let r = decide_freshness("garbage", "2021-06-27T01:00:00");
    assert!(matches!(r, Err(TimestampParseError::BadEventTime)));
}

#[test]
fn bad_watermark_is_surfaced() {
    let r = decide_freshness("2021-06-27 01:00:00", "garbage");
    assert!(matches!(r, Err(TimestampParseError::BadWatermark)));
}

#[test]
fn wrong_separator_fails_to_parse() {
    // The feed shape has a space; a T there is not accepted.
    let r = decide_freshness("2021-06-27T01:00:00", "2021-06-27T01:00:00");
    assert!(matches!(r, Err(TimestampParseError::BadEventTime)));
}

#[test]
fn year_end_rollover() {
    let r = decide_freshness("2021-12-31 23:59:59", "2021-01-01T00:00:00");
    match r {
        Ok(Some(nw)) => assert_eq!(nw, "2022-01-01T00:00:00"),
        _ => panic!("expected the event to be new"),
    }
}

#[test]
fn leap_day_rollover() {
    let r = decide_freshness("2020-02-28 23:59:59", "2020-01-01T00:00:00");
    match r {
        Ok(Some(nw)) => assert_eq!(nw, "2020-02-29T00:00:00"),
        _ => panic!("expected the event to be new"),
    }
}

#[test]
fn non_leap_february_rollover() {
    let r = decide_freshness("2021-02-28 23:59:59", "2021-01-01T00:00:00");
    match r {
        Ok(Some(nw)) => assert_eq!(nw, "2021-03-01T00:00:00"),
        _ => panic!("expected the event to be new"),
    }
}

#[test]
fn parse_accepts_real_instants_only() {
    assert!(CwbTime::new_time_string_with_t("2021-06-27T01:23:45").is_some());
    assert!(CwbTime::new_time_string_with_t("2021-13-01T00:00:00").is_none());
    assert!(CwbTime::new_time_string_with_t("2021-02-29T00:00:00").is_none());
    assert!(CwbTime::new_time_string_with_t("2021-06-27 01:23:45").is_none());
    assert!(CwbTime::new_time_string_without_t("2021-06-27 01:23:45").is_some());
    assert!(CwbTime::new_time_string_without_t("2021-06-27T01:23:45").is_none());
    assert!(CwbTime::new_time_string_with_t("2021-6-27T01:23:45").is_none());
}

#[test]
fn parse_reads_the_fields() {
    let t = CwbTime::new_time_string_with_t("2021-06-27T01:23:45").unwrap();
    assert_eq!(t.year, 2021);
    assert_eq!(t.month, 6);
    assert_eq!(t.day, 27);
    assert_eq!(t.hour, 1);
    assert_eq!(t.minute, 23);
    assert_eq!(t.second, 45);
}

#[test]
fn format_round_trips() {
    let t = CwbTime::new_time_string_without_t("2021-06-27 01:23:45").unwrap();
    assert_eq!(t.format_with_t(), "2021-06-27T01:23:45");
}

#[test]
fn add_seconds_carries() {
    let mut t = CwbTime::new_time_string_with_t("2021-06-27T01:23:45").unwrap();
    t.add_seconds(1);
    assert_eq!(t.format_with_t(), "2021-06-27T01:23:46");
    let mut t2 = CwbTime::new_time_string_with_t("2021-06-30T23:59:59").unwrap();
    t2.add_seconds(1);
    assert_eq!(t2.format_with_t(), "2021-07-01T00:00:00");
    let mut t3 = CwbTime::new_time_string_with_t("2021-06-27T00:00:00").unwrap();
    t3.add_seconds(86400 + 61);
    assert_eq!(t3.format_with_t(), "2021-06-28T00:01:01");
}

#[test]
fn comparison_is_chronological() {
    let a = CwbTime::new_time_string_with_t("2021-06-27T01:00:00").unwrap();
    let b = CwbTime::new_time_string_with_t("2021-06-27T00:59:59").unwrap();
    assert!(a.ge(&b));
    assert!(!b.ge(&a));
    assert!(a.ge(&a));
}

#[test]
fn batch_advances_only_on_the_later_event() {
    let times = vec!["2021-06-26 23:00:00".to_string(), "2021-06-27 01:00:00".to_string()];
    let (decisions, final_watermark) = decide_freshness_batch(&times, "2021-06-27T01:00:00");
    assert_eq!(decisions.len(), 2);
    assert!(matches!(decisions[0], Ok(None)));
    match &decisions[1] {
        Ok(Some(nw)) => assert_eq!(nw, "2021-06-27T01:00:01"),
        _ => panic!("expected the later event to be new"),
    }
    assert_eq!(final_watermark, "2021-06-27T01:00:01");
}

#[test]
fn batch_judges_repeats_against_the_advanced_watermark() {
    let times = vec!["2021-06-27 01:00:00".to_string(), "2021-06-27 01:00:00".to_string()];
    let (decisions, final_watermark) = decide_freshness_batch(&times, "2021-06-27T01:00:00");
    assert!(matches!(&decisions[0], Ok(Some(_))));
    assert!(matches!(decisions[1], Ok(None)));
    assert_eq!(final_watermark, "2021-06-27T01:00:01");
}

#[test]
fn batch_event_error_fails_only_that_event() {
    let times = vec!["garbage".to_string(), "2021-06-27 01:00:00".to_string()];
    let (decisions, final_watermark) = decide_freshness_batch(&times, "2021-06-27T01:00:00");
    assert!(matches!(decisions[0], Err(TimestampParseError::BadEventTime)));
    assert!(matches!(&decisions[1], Ok(Some(_))));
    assert_eq!(final_watermark, "2021-06-27T01:00:01");
}

#[test]
fn empty_batch_keeps_the_watermark() {
    let times: Vec<String> = vec![];
    let (decisions, final_watermark) = decide_freshness_batch(&times, "2021-06-27T01:00:00");
    assert!(decisions.is_empty());
    assert_eq!(final_watermark, "2021-06-27T01:00:00");
}

#[test]
fn clock_string_parses_in_the_canonical_shape() {
    // The startup seed comes from this clock reading, so the freshness
    // decision must always be able to read it back.
    let now = get_local_date_time_with_t();
    assert!(CwbTime::new_time_string_with_t(&now).is_some());
}
