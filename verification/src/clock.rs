use vstd::prelude::*;

verus! {

/// Relies on time::OffsetDateTime::now_utc and unix_timestamp: the
/// current time, as whole seconds since the Unix epoch.  Nothing is
/// assumed of the value; callers state what holds whatever it is.
#[verifier::external_body]
pub(crate) fn now_unix() -> i64 {
    time::OffsetDateTime::now_utc().unix_timestamp()
}

} // verus!
