use vstd::prelude::*;

use crate::db::EqDb;
use crate::time::{decide_freshness, sep_with_t, sep_without_t, spec_format_with_t, spec_parse,
    spec_plus_one_second, spec_plus_seconds, TimestampParseError};
use crate::intensity::{classify_intensity, classify_ok, classify_value, IntensityConversionErrors};

verus! {

// ------------------------------------------------------------------
// The event records the feed provides, held as plain values.
// Geographic coordinates are degrees scaled by 10^4, as everywhere in
// this library; the surrounding binary converts at the feed boundary.
// ------------------------------------------------------------------

/// Specification value of one station reading.
pub ghost struct StationV {
    pub intensity_raw: Seq<char>,
    pub lat_e4: int,
    pub long_e4: int,
}

/// Specification value of one event.
pub ghost struct EventV {
    pub report_content: Seq<char>,
    pub origin_time: Seq<char>,
    pub epicenter_long_e4: int,
    pub epicenter_lat_e4: int,
    pub areas: Seq<Seq<StationV>>,
}

/// One station's reading: the raw intensity token and where the
/// station stands.
pub struct EqStation {
    pub station_intensity: String,
    pub station_lat: i64,
    pub station_long: i64,
}

/// The stations of one shaken area.
pub struct ShakingArea {
    pub eq_station: Vec<EqStation>,
}

/// Per-area station readings for one event.
pub struct Intensity {
    pub shaking_area: Vec<ShakingArea>,
}

/// Where the event began.  The feed's field naming swaps the axes
/// here relative to the station fields; the mapping is kept exactly
/// as the feed variants hand it over.
pub struct Epicenter {
    pub long: i64,
    pub lat: i64,
}

/// The event's origin time (feed shape, no zone marker) and epicenter.
pub struct EarthquakeInfo {
    pub origin_time: String,
    pub epicenter: Epicenter,
}

/// One reported event.
pub struct Earthquake {
    pub report_content: String,
    pub earthquake_info: EarthquakeInfo,
    pub intensity: Intensity,
}

/// The list of events one feed endpoint returned.
pub struct Records {
    pub earthquake: Vec<Earthquake>,
}

/// One endpoint's decoded response.
pub struct Response {
    pub records: Records,
}

impl View for EqStation {
    type V = StationV;

    open spec fn view(&self) -> StationV {
        StationV {
            intensity_raw: self.station_intensity@,
            lat_e4: self.station_lat as int,
            long_e4: self.station_long as int,
        }
    }
}

impl DeepView for EqStation {
    type V = StationV;

    open spec fn deep_view(&self) -> StationV {
        self@
    }
}

impl View for ShakingArea {
    type V = Seq<StationV>;

    open spec fn view(&self) -> Seq<StationV> {
        self.eq_station.deep_view()
    }
}

impl DeepView for ShakingArea {
    type V = Seq<StationV>;

    open spec fn deep_view(&self) -> Seq<StationV> {
        self@
    }
}

impl View for Earthquake {
    type V = EventV;

    open spec fn view(&self) -> EventV {
        EventV {
            report_content: self.report_content@,
            origin_time: self.earthquake_info.origin_time@,
            epicenter_long_e4: self.earthquake_info.epicenter.long as int,
            epicenter_lat_e4: self.earthquake_info.epicenter.lat as int,
            areas: self.intensity.shaking_area.deep_view(),
        }
    }
}

impl DeepView for Earthquake {
    type V = EventV;

    open spec fn deep_view(&self) -> EventV {
        self@
    }
}

impl View for Response {
    type V = Seq<EventV>;

    open spec fn view(&self) -> Seq<EventV> {
        self.records.earthquake.deep_view()
    }
}

impl Clone for EqStation {
    fn clone(&self) -> (r: Self)
        ensures
            r@ == self@,
    {
        EqStation {
            station_intensity: self.station_intensity.clone(),
            station_lat: self.station_lat,
            station_long: self.station_long,
        }
    }
}

impl Clone for ShakingArea {
    fn clone(&self) -> (r: Self)
        ensures
            r@ == self@,
    {
        let eq_station = self.eq_station.clone();
        proof {
            assert forall|i: int| 0 <= i < eq_station@.len() implies eq_station@[i]@
                == self.eq_station@[i]@ by {
                assert(vstd::pervasive::cloned::<EqStation>(self.eq_station[i], eq_station[i]));
            }
            assert(eq_station.deep_view() =~= self.eq_station.deep_view());
        }
        ShakingArea { eq_station }
    }
}

impl Clone for Earthquake {
    fn clone(&self) -> (r: Self)
        ensures
            r@ == self@,
    {
        let shaking_area = self.intensity.shaking_area.clone();
        proof {
            assert forall|i: int| 0 <= i < shaking_area@.len() implies shaking_area@[i]@
                == self.intensity.shaking_area@[i]@ by {
                assert(vstd::pervasive::cloned::<ShakingArea>(
                    self.intensity.shaking_area[i],
                    shaking_area[i],
                ));
            }
            assert(shaking_area.deep_view() =~= self.intensity.shaking_area.deep_view());
        }
        Earthquake {
            report_content: self.report_content.clone(),
            earthquake_info: EarthquakeInfo {
                origin_time: self.earthquake_info.origin_time.clone(),
                epicenter: Epicenter {
                    long: self.earthquake_info.epicenter.long,
                    lat: self.earthquake_info.epicenter.lat,
                },
            },
            intensity: Intensity { shaking_area },
        }
    }
}

// ------------------------------------------------------------------
// The two feed endpoints
// ------------------------------------------------------------------

/// The two endpoints' responses, large-event source first.
pub struct BothResponses(pub [Response; 2]);

impl BothResponses {
    /// Every event of both responses, large-event source first, feed
    /// order kept within each source.
    pub fn get_all_earthquakes(&self) -> (r: Vec<Earthquake>)
        ensures
            r.deep_view() == self.0[0]@ + self.0[1]@,
    {
        let mut all_eqs: Vec<Earthquake> = Vec::new();

        let mut i: usize = 0;
        while i < self.0[0].records.earthquake.len()
            invariant
                i <= self.0[0].records.earthquake.len(),
                all_eqs.deep_view() =~= self.0[0]@.take(i as int),
            decreases self.0[0].records.earthquake.len() - i,
        {
            let e = self.0[0].records.earthquake[i].clone();
            proof {
                assert(e@ == self.0[0]@[i as int]);
            }
            let ghost prev = all_eqs@;
            proof {
                assert(all_eqs.deep_view().len() == prev.len());
                assert(prev.len() == i as int);
            }
            all_eqs.push(e);
            proof {
                let ds = all_eqs.deep_view();
                assert(all_eqs@ == prev.push(e));
                assert forall|k: int| 0 <= k < ds.len() implies ds[k] == self.0[0]@.take(
                    i as int + 1,
                )[k] by {
                    assert(ds[k] == all_eqs@[k]@);
                    if k < i {
                        assert(all_eqs@[k] == prev[k]);
                        assert(prev[k]@ == self.0[0]@.take(i as int)[k]);
                    } else {
                        assert(all_eqs@[k] == e);
                    }
                }
                assert(all_eqs.deep_view() =~= self.0[0]@.take(i as int + 1));
            }
            i = i + 1;
        }

        let mut j: usize = 0;
        proof {
            assert(self.0[0]@.take(i as int) =~= self.0[0]@);
            assert(self.0[1]@.take(0) =~= Seq::<EventV>::empty());
        }
        while j < self.0[1].records.earthquake.len()
            invariant
                j <= self.0[1].records.earthquake.len(),
                all_eqs.deep_view() =~= self.0[0]@ + self.0[1]@.take(j as int),
            decreases self.0[1].records.earthquake.len() - j,
        {
            let e = self.0[1].records.earthquake[j].clone();
            proof {
                assert(e@ == self.0[1]@[j as int]);
            }
            let ghost prev = all_eqs@;
            let ghost n0 = self.0[0]@.len();
            proof {
                assert(all_eqs.deep_view().len() == prev.len());
                assert(prev.len() == n0 + j as int);
            }
            all_eqs.push(e);
            proof {
                let ds = all_eqs.deep_view();
                assert(all_eqs@ == prev.push(e));
                let rhs = self.0[0]@ + self.0[1]@.take(j as int + 1);
                assert forall|k: int| 0 <= k < ds.len() implies ds[k] == rhs[k] by {
                    assert(ds[k] == all_eqs@[k]@);
                    if k < n0 + j {
                        assert(all_eqs@[k] == prev[k]);
                        assert(prev[k]@ == (self.0[0]@ + self.0[1]@.take(j as int))[k]);
                    } else {
                        assert(all_eqs@[k] == e);
                    }
                }
                assert(all_eqs.deep_view() =~= rhs);
            }
            j = j + 1;
        }

        proof {
            assert(all_eqs.deep_view() =~= self.0[0]@ + self.0[1]@);
        }
        all_eqs
    }
}

impl EqStation {
    /// Reads the raw intensity token as a class on the 1..=7 scale.
    pub fn convert_station_intensity_to_u8(&self) -> (r: Result<u8, IntensityConversionErrors>)
        ensures
            match r {
                Ok(v) => classify_ok(self@.intensity_raw) && v as int == classify_value(
                    self@.intensity_raw,
                ),
                Err(IntensityConversionErrors::OutOfBounds(v)) => {
                    &&& crate::intensity::classify_parses(self@.intensity_raw)
                    &&& !(1 <= classify_value(self@.intensity_raw) <= 7)
                    &&& v as int == classify_value(self@.intensity_raw)
                },
                Err(IntensityConversionErrors::ParseError(_)) => !crate::intensity::classify_parses(
                    self@.intensity_raw,
                ),
            },
    {
        classify_intensity(self.station_intensity.as_str())
    }
}

// ------------------------------------------------------------------
// Freshness and the caption
// ------------------------------------------------------------------

/// The bytes the store holds once an event's advanced watermark is
/// persisted: its origin time plus one second, in canonical shape.
pub open spec fn advanced_watermark_bytes(origin_time: Seq<char>) -> Seq<u8>
    recommends
        spec_parse(origin_time, sep_without_t()) is Some,
{
    vstd::utf8::encode_utf8(
        spec_format_with_t(spec_plus_one_second(spec_parse(origin_time, sep_without_t()).unwrap())),
    )
}

/// The watermark string this decision was taken against: the store
/// held exactly its bytes, and it parses in the canonical shape.
pub open spec fn decided_against(
    origin_time: Seq<char>,
    stored: Option<Seq<u8>>,
    fresh: bool,
    w: Seq<char>,
) -> bool {
    &&& stored == Some(vstd::utf8::encode_utf8(w))
    &&& spec_parse(w, sep_with_t()) is Some
    &&& fresh == spec_parse(w, sep_with_t()).unwrap().spec_le(
        spec_parse(origin_time, sep_without_t()).unwrap(),
    )
}

/// The store held some canonical watermark, and `fresh` is exactly the
/// comparison of the origin time against it.
pub open spec fn some_watermark_decided(
    origin_time: Seq<char>,
    stored: Option<Seq<u8>>,
    fresh: bool,
) -> bool {
    exists|w: Seq<char>| #[trigger] decided_against(origin_time, stored, fresh, w)
}

impl Earthquake {
    /// Runs the freshness decision against the persisted watermark
    /// and, when the event is new, persists the advanced one.
    /// `Ok(fresh)` means the store held a canonical watermark and
    /// `fresh` is exactly "that watermark is at or before this event's
    /// origin time".  `Ok(true)` further means the store now holds the
    /// event's time plus one second (unless the one write failed, in
    /// which case the old value still stands); `Ok(false)` leaves the
    /// store untouched, as every error does.
    pub fn update_last_time(&self, db: &mut EqDb) -> (r: Result<bool, TimestampParseError>)
        ensures
            r matches Ok(fresh) ==> some_watermark_decided(
                self@.origin_time,
                old(db).stored_bytes(),
                fresh,
            ),
            r is Ok ==> spec_parse(self@.origin_time, sep_without_t()) is Some,
            spec_parse(self@.origin_time, sep_without_t()) is None ==> r is Err,
            r matches Err(TimestampParseError::BadEventTime) ==> spec_parse(
                self@.origin_time,
                sep_without_t(),
            ) is None,
            r matches Err(TimestampParseError::PastRepresentableTime) ==> spec_parse(
                self@.origin_time,
                sep_without_t(),
            ) is Some && spec_plus_seconds(
                spec_parse(self@.origin_time, sep_without_t()).unwrap(),
                1,
            ).0 > 9999,
            r matches Ok(true) ==> final(db).stored_bytes() == Some(
                advanced_watermark_bytes(self@.origin_time),
            ) || final(db).stored_bytes() == old(db).stored_bytes(),
            r matches Ok(false) ==> final(db).stored_bytes() == old(db).stored_bytes(),
            r is Err ==> final(db).stored_bytes() == old(db).stored_bytes(),
    {
        let last_time_string = match db.get_last_time() {
            Ok(s) => s,
            Err(_) => { return Err(TimestampParseError::BadWatermark) },
        };
        match decide_freshness(self.earthquake_info.origin_time.as_str(), last_time_string.as_str(),
        ) {
            Ok(Some(new_watermark)) => {
                proof {
                    assert(decided_against(
                        self@.origin_time,
                        old(db).stored_bytes(),
                        true,
                        last_time_string@,
                    ));
                    assert(some_watermark_decided(
                        self@.origin_time,
                        old(db).stored_bytes(),
                        true,
                    ));
                }
                let _ = db.store_last_time(new_watermark);
                Ok(true)
            },
            Ok(None) => {
                proof {
                    assert(decided_against(
                        self@.origin_time,
                        old(db).stored_bytes(),
                        false,
                        last_time_string@,
                    ));
                    assert(some_watermark_decided(
                        self@.origin_time,
                        old(db).stored_bytes(),
                        false,
                    ));
                }
                Ok(false)
            },
            Err(e) => Err(e),
        }
    }

    /// The caption handed to the notification sink: the report text,
    /// cut to its first 200 characters when longer, with the fixed
    /// hashtag suffix.
    pub fn tweet_text(&self) -> (r: String)
        ensures
            self@.report_content.len() > 200 ==> r@ == self@.report_content.take(200)
                + spec_tweet_suffix(),
            self@.report_content.len() <= 200 ==> r@ == self@.report_content
                + spec_tweet_suffix(),
    {
        let n: usize = self.report_content.as_str().unicode_len();
        let mut text: String = if n > 200 {
            let head = self.report_content.as_str().substring_char(0, 200);
            String::from_str(head)
        } else {
            self.report_content.clone()
        };
        text.append(" #\u{53f0}\u{7063} #\u{5730}\u{9707} #Taiwan #earthquake");
        text
    }
}

/// The fixed hashtag suffix every caption carries.
pub open spec fn spec_tweet_suffix() -> Seq<char> {
    " #\u{53f0}\u{7063} #\u{5730}\u{9707} #Taiwan #earthquake"@
}

// ------------------------------------------------------------------
// Feed query URLs
// ------------------------------------------------------------------

/// The URL a feed endpoint is queried at, given the endpoint's store
/// name, the caller's key, and the watermark used as the query floor.
pub open spec fn spec_earthquake_url(store: Seq<char>, api_key: Seq<char>, last_time: Option<
    Seq<char>,
>) -> Seq<char> {
    let time_part = match last_time {
        Some(t) => "&timeFrom="@ + t,
        None => Seq::<char>::empty(),
    };
    "https://opendata.cwb.gov.tw/api/v1/rest/datastore/"@ + store + "?Authorization="@ + api_key
        + time_part
}

/// Builds the two query URLs, large-event store first.  The key comes
/// in as a value: reading it from the environment is the binary's job.
pub fn get_earthquake_urls(api_key: &str, last_time: Option<String>) -> (r: Vec<String>)
    ensures
        r@.len() == 2,
        r@[0]@ == spec_earthquake_url("E-A0015-001"@, api_key@, match last_time {
            Some(t) => Some(t@),
            None => None,
        }),
        r@[1]@ == spec_earthquake_url("E-A0016-001"@, api_key@, match last_time {
            Some(t) => Some(t@),
            None => None,
        }),
{
    let time_part: String = match last_time {
        Some(t) => {
            let mut p = String::from_str("&timeFrom=");
            p.append(t.as_str());
            p
        },
        None => String::new(),
    };

    let mut first = String::from_str("https://opendata.cwb.gov.tw/api/v1/rest/datastore/");
    first.append("E-A0015-001");
    first.append("?Authorization=");
    first.append(api_key);
    first.append(time_part.as_str());

    let mut second = String::from_str("https://opendata.cwb.gov.tw/api/v1/rest/datastore/");
    second.append("E-A0016-001");
    second.append("?Authorization=");
    second.append(api_key);
    second.append(time_part.as_str());

    let mut r: Vec<String> = Vec::new();
    r.push(first);
    r.push(second);
    r
}

} // verus!
