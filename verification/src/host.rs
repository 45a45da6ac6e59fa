//! Host environment readings: the clock and the user's directories.  Every
//! result depends on the machine and the moment, so nothing is promised
//! about the values; callers state what holds of every outcome.

use vstd::prelude::*;

verus! {

/// Relies on chrono's `Utc::now` and `DateTime::to_rfc3339`: the current
/// time rendered as an RFC 3339 timestamp.  Panics when the system clock
/// reads before the Unix epoch, as `Utc::now` does.
#[verifier::external_body]
pub fn now_rfc3339() -> String {
    chrono::Utc::now().to_rfc3339()
}

/// Relies on chrono's `Utc::now` and `DateTime::timestamp`: seconds since
/// the Unix epoch.  Panics when the system clock reads before the Unix
/// epoch, as `Utc::now` does.
#[verifier::external_body]
pub fn now_timestamp() -> i64 {
    chrono::Utc::now().timestamp()
}

/// Seconds since the Unix epoch, clamped to zero; the fallback download id
/// when the caller supplies none.
pub fn now_unix_seconds() -> u64 {
    let t = now_timestamp();
    if t < 0 {
        0
    } else {
        t as u64
    }
}

/// Relies on dirs' `download_dir`: the user's downloads directory, when the
/// platform defines one.
#[verifier::external_body]
pub fn download_dir() -> Option<String> {
    match dirs::download_dir() {
        Some(p) => Some(p.to_string_lossy().to_string()),
        None => None,
    }
}

} // verus!
