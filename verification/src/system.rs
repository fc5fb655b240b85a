//! What the library takes from the machine it runs on: the time of day and
//! fresh identifiers. Nothing here is proved; each contract says what the
//! called crate documents.

use vstd::prelude::*;
use crate::catalog::Timestamp;

verus! {

/// A lower-case hexadecimal digit.
pub open spec fn is_hex_digit(c: char) -> bool {
    ('0' <= c && c <= '9') || ('a' <= c && c <= 'f')
}

/// The text of a random (version 4) UUID in hyphenated lower-case form:
/// 36 characters, hyphens after the 8th, 12th, 16th and 20th digit, and the
/// version digit `4`.
pub open spec fn is_random_uuid(s: Seq<char>) -> bool {
    &&& s.len() == 36
    &&& forall|i: int|
        0 <= i < 36 ==> if i == 8 || i == 13 || i == 18 || i == 23 {
            #[trigger] s[i] == '-'
        } else {
            is_hex_digit(s[i])
        }
    &&& s[14] == '4'
}

/// A fresh identifier: `uuid::Uuid::new_v4()`, written out by its `Display`
/// impl. The contract claims the documented shape of that text and nothing
/// of its random digits. The call panics where the operating system has no
/// random source.
#[verifier::external_body]
pub(crate) fn random_uuid() -> (id: String)
    ensures
        is_random_uuid(id@),
{
    uuid::Uuid::new_v4().to_string()
}

/// The time of day: `chrono::Utc::now()`, taken apart by `timestamp` and
/// `timestamp_subsec_nanos`. The contract claims nothing of it. The call
/// panics where the system clock stands before the Unix epoch.
#[verifier::external_body]
pub(crate) fn current_time() -> (now: Timestamp) {
    let now = chrono::Utc::now();
    Timestamp { secs: now.timestamp(), nanos: now.timestamp_subsec_nanos() }
}

} // verus!
