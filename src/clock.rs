use vstd::prelude::*;

verus! {

/// std::time::SystemTime, the time stamp a record carries; the ledger never
/// looks inside it.
#[verifier::external_type_specification]
#[verifier::external_body]
pub struct ExSystemTime(std::time::SystemTime);

/// Relies on std::time::SystemTime::now to stamp an accepted transaction with
/// the time of acceptance. It reads the system clock, so nothing is promised
/// of the value it returns.
pub assume_specification[ std::time::SystemTime::now ]() -> std::time::SystemTime;

} // verus!
