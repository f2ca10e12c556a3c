//! How long a cached WMI scan stays good.

use vstd::prelude::*;

verus! {

/// Seconds for which a cached scan is reused.
pub const EXTRAS_INTERVAL_SECONDS: u64 = 10;

/// Seconds elapsed from `timestamp` to `now`, zero when `now` is earlier.
pub open spec fn elapsed(now: u64, timestamp: u64) -> int {
    if now >= timestamp {
        now - timestamp
    } else {
        0
    }
}

/// Whether a scan cached at `timestamp` may still be used at `now`: fewer
/// than `EXTRAS_INTERVAL_SECONDS` seconds have passed (a timestamp in the
/// future counts as no time passed).
pub fn cache_is_fresh(now: u64, timestamp: u64) -> (fresh: bool)
    ensures
        fresh == (elapsed(now, timestamp) < EXTRAS_INTERVAL_SECONDS),
{
    now.saturating_sub(timestamp) < EXTRAS_INTERVAL_SECONDS
}

/// Where the list of USB drives and phones comes from.
#[derive(PartialEq, Eq, Structural)]
pub enum ExtrasSource {
    /// The cached scan.
    Cached,
    /// A new scan, which is then cached.
    Fresh,
}

/// Whether to reuse the cached scan, given the time now and the timestamp of
/// the cache when one could be read: only a readable, fresh cache is reused.
pub fn extras_source(now: u64, cached_timestamp: Option<u64>) -> (src: ExtrasSource)
    ensures
        src == ExtrasSource::Cached <==> (cached_timestamp matches Some(t) && elapsed(now, t) < EXTRAS_INTERVAL_SECONDS),
{
    match cached_timestamp {
        Some(t) => if cache_is_fresh(now, t) {
            ExtrasSource::Cached
        } else {
            ExtrasSource::Fresh
        },
        None => ExtrasSource::Fresh,
    }
}

} // verus!
