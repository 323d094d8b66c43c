//! Small helpers on strings and time.

use vstd::prelude::*;

use std::time::{Duration, SystemTime, SystemTimeError, UNIX_EPOCH};

verus! {

/// Character-wise equality of two strings.
pub fn str_equals(a: &str, b: &str) -> (res: bool)
    ensures
        res == (a@ == b@),
{
    let n = a.unicode_len();
    let m = b.unicode_len();
    if n != m {
        return false;
    }
    let mut i: usize = 0;
    while i < n
        invariant
            n == a@.len(),
            m == b@.len(),
            n == m,
            i <= n,
            forall|j: int| 0 <= j < i ==> a@[j] == b@[j],
        decreases n - i,
    {
        if a.get_char(i) != b.get_char(i) {
            return false;
        }
        i = i + 1;
    }
    assert(a@ =~= b@);
    true
}

#[verifier::external_type_specification]
#[verifier::external_body]
pub struct ExSystemTime(SystemTime);

#[verifier::external_type_specification]
#[verifier::external_body]
pub struct ExSystemTimeError(SystemTimeError);

/// The character of a decimal digit.
pub open spec fn digit_char(d: nat) -> char {
    (48 + d) as char
}

/// The decimal representation of a natural number, without leading zeros.
pub open spec fn decimal_digits(n: nat) -> Seq<char>
    decreases n,
{
    if n < 10 {
        seq![digit_char(n)]
    } else {
        decimal_digits(n / 10).push(digit_char(n % 10))
    }
}

/// Calls `SystemTime::now`; the current time, on which nothing can be stated.
#[verifier::external_body]
fn system_time_now() -> SystemTime {
    SystemTime::now()
}

/// Calls `SystemTime::duration_since` with the Unix epoch; it fails where the
/// time lies before the epoch. Nothing is stated of the duration.
#[verifier::external_body]
fn duration_since_unix_epoch(time: SystemTime) -> Result<Duration, SystemTimeError> {
    time.duration_since(UNIX_EPOCH)
}

/// Calls `Duration::as_millis`: the whole milliseconds of a duration. A
/// `Duration` is held opaquely here, so nothing is stated.
#[verifier::external_body]
fn duration_as_millis(duration: Duration) -> u128 {
    duration.as_millis()
}

/// Calls `u128::to_string`, whose result is the decimal representation.
#[verifier::external_body]
fn u128_to_string(n: u128) -> (res: String)
    ensures
        res@ == decimal_digits(n as nat),
{
    n.to_string()
}

/// The milliseconds since the Unix epoch, or the error of a clock set before it.
pub fn get_timestamp_as_millis() -> Result<u128, SystemTimeError> {
    let now = system_time_now();
    match duration_since_unix_epoch(now) {
        Ok(since_the_epoch) => Ok(duration_as_millis(since_the_epoch)),
        Err(error) => Err(error),
    }
}

/// The decimal form of a millisecond reading, or the clock's error as it
/// came.
pub fn millis_as_string(millis: Result<u128, SystemTimeError>) -> (res: Result<String, SystemTimeError>)
    ensures
        millis matches Ok(m) ==> res matches Ok(s) && s@ == decimal_digits(m as nat),
        millis matches Err(e) ==> res == Err::<String, SystemTimeError>(e),
{
    match millis {
        Ok(m) => Ok(u128_to_string(m)),
        Err(error) => Err(error),
    }
}

/// The milliseconds since the Unix epoch in decimal, or the error of a clock
/// set before it. The reading is the clock's; what holds of every reading is
/// that a result is the decimal form of some number of milliseconds.
pub fn get_timestamp_as_millis_as_string() -> (res: Result<String, SystemTimeError>)
    ensures
        res matches Ok(s) ==> exists|n: u128| s@ == decimal_digits(n as nat),
{
    let millis = get_timestamp_as_millis();
    let ghost reading = millis;
    let res = millis_as_string(millis);
    proof {
        if let Ok(m) = reading {
            assert(res.unwrap()@ == decimal_digits(m as nat));
        }
    }
    res
}

/// The formats a summary file can be written in.
#[derive(Debug, Clone, Copy, PartialEq, Eq, Structural)]
pub enum SupportedExtension {
    Yaml,
    Json,
}

/// The format of a summary file, chosen by the file's extension: "yaml" for
/// YAML, anything else (or no extension) for JSON.
pub fn get_supported_summary_extension(extension: Option<&str>) -> (res: SupportedExtension)
    ensures
        res == (match extension {
            Some(e) => if e@ == "yaml"@ {
                SupportedExtension::Yaml
            } else {
                SupportedExtension::Json
            },
            None => SupportedExtension::Json,
        }),
{
    match extension {
        Some(e) => {
            if str_equals(e, "yaml") {
                SupportedExtension::Yaml
            } else {
                SupportedExtension::Json
            }
        },
        None => SupportedExtension::Json,
    }
}

} // verus!
