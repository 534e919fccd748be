//! Wall-clock seconds and fresh random identifiers.

use vstd::prelude::*;

verus! {

#[verifier::external_type_specification]
#[verifier::external_body]
pub struct ExSystemTime(std::time::SystemTime);

#[verifier::external_type_specification]
#[verifier::external_body]
pub struct ExSystemTimeError(std::time::SystemTimeError);

/// Reads the system clock through `std::time::SystemTime::now`.
/// Nothing is promised of the instant it returns: it depends on the machine's clock.
#[verifier::external_body]
fn system_time_now() -> std::time::SystemTime {
    std::time::SystemTime::now()
}

/// Measures an instant against the Unix epoch through `SystemTime::duration_since`.
/// Nothing is promised of the outcome: it depends on the instant, which is opaque here,
/// and is an error exactly when the instant lies before the epoch.
#[verifier::external_body]
fn duration_since_epoch(
    t: &std::time::SystemTime,
) -> Result<std::time::Duration, std::time::SystemTimeError> {
    t.duration_since(std::time::UNIX_EPOCH)
}

/// Whole seconds of a duration, through `Duration::as_secs`.
/// Nothing is promised of the number: the duration is opaque here.
#[verifier::external_body]
fn duration_whole_secs(d: &std::time::Duration) -> u64 {
    d.as_secs()
}

/// Whole seconds elapsed since the Unix epoch, read from the system clock;
/// `None` when the clock reads earlier than the epoch, a reading that has no
/// such count. The value rests on the clock alone, so nothing more is stated.
pub fn now_secs() -> Option<u64> {
    let now = system_time_now();
    match duration_since_epoch(&now) {
        Ok(d) => Some(duration_whole_secs(&d)),
        Err(_) => None,
    }
}

/// Whether `c` is one of the digits `0`-`9` or the lower-case letters `a`-`f`.
pub open spec fn is_lower_hex_digit(c: char) -> bool {
    ('0' <= c && c <= '9') || ('a' <= c && c <= 'f')
}

/// The text of a random (version 4, RFC 4122 variant) UUID in lower-case
/// hyphenated form: 36 characters, hyphens at 8, 13, 18 and 23, the version
/// digit `4` at 14, one of `8`, `9`, `a`, `b` at 19, and hex digits elsewhere.
pub open spec fn is_uuid_v4_text(s: Seq<char>) -> bool {
    &&& s.len() == 36
    &&& forall|i: int|
        0 <= i < 36 ==> if i == 8 || i == 13 || i == 18 || i == 23 {
            #[trigger] s[i] == '-'
        } else {
            is_lower_hex_digit(s[i])
        }
    &&& s[14] == '4'
    &&& (s[19] == '8' || s[19] == '9' || s[19] == 'a' || s[19] == 'b')
}

/// A fresh identifier from `uuid::Uuid::new_v4`, rendered with `to_string`.
/// The bits are random; what the crate fixes is the shape of the text: the
/// version and variant bits that `new_v4` sets, shown by the lower-case
/// hyphenated `Display` of `Uuid`.
#[verifier::external_body]
pub(crate) fn new_id() -> (id: String)
    ensures
        is_uuid_v4_text(id@),
{
    uuid::Uuid::new_v4().to_string()
}

} // verus!
