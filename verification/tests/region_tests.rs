use chrono::{DateTime, Duration, Utc};
use osm_changesets::regions::{
    bounding_box_regions, cache_is_fresh, overpass_query, overpass_url, Timestamp, CACHE_MAX_AGE_SECS,
    EARLIEST_SECS,
    REGION_COUNT,
};

#[test]
fn overpass_addresses() {
    let q = "way['name'='Cetinje']['place'='town']";
    assert_eq!(overpass_query(q), "[out:xml]; way['name'='Cetinje']['place'='town']; out geom;");
    assert_eq!(
        overpass_url(q),
        "https://overpass-api.de/api/interpreter?data=[out:xml]; way['name'='Cetinje']['place'='town']; out geom;"
    );
}

#[test]
fn region_table() {
    let regions = bounding_box_regions();
    assert_eq!(regions.len(), REGION_COUNT);
    assert_eq!(regions[0].0, "Montenegro");
    assert_eq!(
        regions[0].1,
        "relation['name'='Crna Gora / Црна Гора']['boundary'='administrative']; way(r)"
    );
    assert_eq!(regions[5].1, "way['name'='Cetinje']['place'='town']");
    assert_eq!(regions[32].0, "Ulcinj+");
}

#[test]
fn cache_age() {
    let now = Timestamp { secs: 1_717_236_000, nanos: 500 };
    let limit = now.secs - CACHE_MAX_AGE_SECS;
    assert!(cache_is_fresh(Timestamp { secs: now.secs - 10, nanos: 0 }, now));
    assert!(cache_is_fresh(Timestamp { secs: limit, nanos: 501 }, now));
    assert!(!cache_is_fresh(Timestamp { secs: limit, nanos: 500 }, now));
    assert!(!cache_is_fresh(Timestamp { secs: limit - 1, nanos: 999_999_999 }, now));
}

#[test]
fn cache_age_agrees_with_chrono() {
    let now: DateTime<Utc> = DateTime::from_timestamp(1_717_236_000, 123).unwrap();
    for delta in [-5i64, 0, 29 * 86400, 30 * 86400 - 1, 30 * 86400, 30 * 86400 + 1, 40 * 86400] {
        let created: DateTime<Utc> = DateTime::from_timestamp(now.timestamp() - delta, 123).unwrap();
        let expected = created > now - Duration::days(30);
        let t = |d: DateTime<Utc>| Timestamp { secs: d.timestamp(), nanos: d.timestamp_subsec_nanos() };
        assert_eq!(cache_is_fresh(t(created), t(now)), expected, "{}", delta);
    }
}

#[test]
fn cache_age_within_leap_second() {
    // 23:59:60.5 on 2016-12-31, then the same time of day thirty days before.
    let now: DateTime<Utc> = DateTime::from_timestamp(1_483_228_799, 1_500_000_000).unwrap();
    let t = |d: DateTime<Utc>| Timestamp { secs: d.timestamp(), nanos: d.timestamp_subsec_nanos() };
    assert_eq!(t(now).nanos, 1_500_000_000);
    let month_ago = now - Duration::days(30);
    for delta_nanos in [-1i64, 0, 1] {
        let base = month_ago.timestamp() * 1_000_000_000 + month_ago.timestamp_subsec_nanos() as i64 + delta_nanos;
        let created: DateTime<Utc> = DateTime::from_timestamp(base.div_euclid(1_000_000_000), base.rem_euclid(1_000_000_000) as u32).unwrap();
        assert_eq!(cache_is_fresh(t(created), t(now)), created > month_ago, "{}", delta_nanos);
    }
}

#[test]
fn earliest_second_is_chronos() {
    assert_eq!(EARLIEST_SECS, DateTime::<Utc>::MIN_UTC.timestamp());
    // Thirty days before `now` is representable exactly when the bound holds.
    for offset in [-1i64, 0, 1] {
        let secs = EARLIEST_SECS + CACHE_MAX_AGE_SECS + offset;
        let now: DateTime<Utc> = DateTime::from_timestamp(secs, 0).unwrap();
        let ok = now.checked_sub_signed(Duration::days(30)).is_some();
        assert_eq!(ok, secs - CACHE_MAX_AGE_SECS >= EARLIEST_SECS, "{}", offset);
    }
}
