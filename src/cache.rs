//! How long a computed ranking may be served from a cache.
use vstd::prelude::*;

verus! {

/// Seconds for which a ranking stays fresh after it is assembled.
pub const CACHE_MAX_AGE_SECONDS: i64 = 300;

/// The earliest epoch second that an HTTP date can show (year 0).
pub const HTTP_DATE_MIN_SECONDS: i64 = -62167219200;

/// The latest epoch second that an HTTP date can show (end of year 9999).
pub const HTTP_DATE_MAX_SECONDS: i64 = 253402300799;

/// A freshness directive: the maximum age, and the absolute expiry fixed when
/// the ranking was assembled.
#[derive(Debug, Clone, Copy, PartialEq, Eq, Structural)]
pub struct CacheDirective {
    pub max_age_seconds: i64,
    pub expires_at: i64,
}

/// The directive for a ranking assembled at epoch second `assembled_at`, or
/// `None` when its expiry does not fit in an `i64`.
pub fn cache_directive(assembled_at: i64) -> (r: Option<CacheDirective>)
    ensures
        r is None <==> assembled_at + CACHE_MAX_AGE_SECONDS > i64::MAX,
        r matches Some(d) ==> d.max_age_seconds == CACHE_MAX_AGE_SECONDS && d.expires_at
            == assembled_at + CACHE_MAX_AGE_SECONDS,
{
    match assembled_at.checked_add(CACHE_MAX_AGE_SECONDS) {
        Some(expires_at) => Some(CacheDirective { max_age_seconds: CACHE_MAX_AGE_SECONDS, expires_at }),
        None => None,
    }
}

/// The RFC 2822 text of the UTC instant `secs` seconds after the epoch.
pub uninterp spec fn rfc2822_of(secs: i64) -> Seq<char>;

/// Relies on chrono's `DateTime::<Utc>::from_timestamp`, which gives the
/// instant for any second of years 0 to 9999, and `DateTime::to_rfc2822`,
/// which writes it and panics only outside those years.
#[verifier::external_body]
fn rfc2822_date(secs: i64) -> (r: String)
    requires
        HTTP_DATE_MIN_SECONDS <= secs <= HTTP_DATE_MAX_SECONDS,
    ensures
        r@ == rfc2822_of(secs),
{
    match chrono::DateTime::from_timestamp(secs, 0) {
        Some(d) => d.to_rfc2822(),
        None => String::new(),
    }
}

/// The value of an `Expires` header for the directive, or `None` when its
/// expiry lies outside the years that an HTTP date can show.
pub fn expires_header(d: &CacheDirective) -> (r: Option<String>)
    ensures
        r is Some <==> HTTP_DATE_MIN_SECONDS <= d.expires_at <= HTTP_DATE_MAX_SECONDS,
        r matches Some(s) ==> s@ == rfc2822_of(d.expires_at),
{
    if HTTP_DATE_MIN_SECONDS <= d.expires_at && d.expires_at <= HTTP_DATE_MAX_SECONDS {
        Some(rfc2822_date(d.expires_at))
    } else {
        None
    }
}

} // verus!
