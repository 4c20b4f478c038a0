use vstd::prelude::*;

verus! {

/// Relies on std::time::SystemTime::now: the wall clock in milliseconds
/// since the Unix epoch. Nothing is promised of the value: callers state
/// what holds for every reading.
#[verifier::external_body]
pub(crate) fn now_millis() -> u64 {
    match std::time::SystemTime::now().duration_since(std::time::UNIX_EPOCH) {
        Ok(d) => d.as_millis() as u64,
        Err(_) => 0,
    }
}

} // verus!
