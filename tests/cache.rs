use leaderboard::cache::{cache_directive, expires_header, CacheDirective, CACHE_MAX_AGE_SECONDS};

#[test]
fn directive_expires_five_minutes_later() {
    let d = cache_directive(1_700_000_000).unwrap();
    assert_eq!(d.max_age_seconds, 300);
    assert_eq!(d.expires_at, 1_700_000_300);
    assert_eq!(CACHE_MAX_AGE_SECONDS, 300);
    assert_eq!(cache_directive(i64::MAX - 299), None);
    assert_eq!(cache_directive(i64::MAX - 300).unwrap().expires_at, i64::MAX);
}

#[test]
fn expires_header_is_an_http_date() {
    let d = CacheDirective { max_age_seconds: 300, expires_at: 0 };
    assert_eq!(expires_header(&d).unwrap(), "Thu, 1 Jan 1970 00:00:00 +0000");
    let d = cache_directive(1_700_000_000).unwrap();
    assert_eq!(expires_header(&d).unwrap(), "Tue, 14 Nov 2023 22:18:20 +0000");
    let d = CacheDirective { max_age_seconds: 300, expires_at: 253_402_300_800 };
    assert_eq!(expires_header(&d), None);
}
