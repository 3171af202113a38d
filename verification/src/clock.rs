use vstd::prelude::*;

verus! {

/// Milliseconds since the Unix epoch by the system clock (0 if the clock reads
/// earlier). Nothing is stated of the value: it is the time.
#[verifier::external_body]
pub(crate) fn now_millis() -> u64 {
    match std::time::SystemTime::now().duration_since(std::time::UNIX_EPOCH) {
        Ok(d) => d.as_millis() as u64,
        Err(_) => 0,
    }
}

/// Seconds since the Unix epoch by the system clock (0 if the clock reads
/// earlier). Nothing is stated of the value: it is the time.
#[verifier::external_body]
pub(crate) fn now_secs() -> u64 {
    match std::time::SystemTime::now().duration_since(std::time::UNIX_EPOCH) {
        Ok(d) => d.as_secs(),
        Err(_) => 0,
    }
}

/// Milliseconds elapsed from `earlier` to `now`, zero if the clock went back.
pub open spec fn elapsed_ms(earlier: u64, now: u64) -> int {
    if now >= earlier {
        now - earlier
    } else {
        0
    }
}

/// Milliseconds elapsed from `earlier` to `now`, zero if the clock went back.
pub fn elapsed_millis(earlier: u64, now: u64) -> (e: u64)
    ensures
        e == elapsed_ms(earlier, now),
{
    if now >= earlier {
        now - earlier
    } else {
        0
    }
}

} // verus!
