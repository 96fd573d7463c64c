//! Identifiers and wall-clock time, which come from outside the program's logic.

use vstd::prelude::*;

verus! {

/// Relies on `uuid::Uuid::new_v4` and its `to_string`: a random identifier, of
/// which nothing is known in advance.
#[verifier::external_body]
pub(crate) fn new_id() -> (r: String) {
    uuid::Uuid::new_v4().to_string()
}

/// Relies on `uuid::Uuid::new_v4` and `Uuid::simple`: a random identifier in
/// 32 hexadecimal digits, of which nothing is known in advance.
#[verifier::external_body]
fn new_simple_id() -> (r: String) {
    uuid::Uuid::new_v4().simple().to_string()
}

/// A fresh random request identifier without dashes.
pub fn generate_request_id() -> (r: String) {
    new_simple_id()
}

/// Relies on `chrono::Utc::now` and `timestamp_millis`: the current time in
/// milliseconds since the Unix epoch, which differs from call to call.
#[verifier::external_body]
pub(crate) fn now_millis() -> (r: i64) {
    chrono::Utc::now().timestamp_millis()
}

} // verus!
