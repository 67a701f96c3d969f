//! The system clock, read as time since the Unix epoch.
use vstd::prelude::*;

verus! {

/// `SystemTime::now().duration_since(UNIX_EPOCH)`: the time since the Unix
/// epoch as whole seconds and the milliseconds of the second begun (both 0
/// when the clock reads earlier than the epoch). The milliseconds are below
/// one thousand; nothing else is known of the reading.
#[verifier::external_body]
pub(crate) fn unix_time() -> (r: (u64, u32))
    ensures
        r.1 < 1000,
{
    let d = std::time::SystemTime::now().duration_since(std::time::UNIX_EPOCH).unwrap_or_default();
    (d.as_secs(), d.subsec_millis())
}

} // verus!
