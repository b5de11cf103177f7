//! Coarse creation timestamps: whole seconds since the Unix epoch, read from
//! the system clock, plus the decimal parsing used by the text codec.

use crate::codec::{all_digits, dec_val, parse_u64};
use vstd::prelude::*;

verus! {

/// Relies on `std::time::SystemTime::now` and
/// `SystemTime::duration_since(UNIX_EPOCH)`: the nanoseconds since the Unix
/// epoch. Nothing can be promised of a clock reading; panics when the system
/// clock reads before the epoch.
#[verifier::external_body]
pub fn epoch_ns() -> u128 {
    let since = std::time::SystemTime::now().duration_since(std::time::UNIX_EPOCH);
    since.expect("Unable to determine time.").as_nanos()
}

/// Relies on `std::time::SystemTime::now` and
/// `SystemTime::duration_since(UNIX_EPOCH)`: the whole seconds since the Unix
/// epoch. Nothing can be promised of a clock reading; panics when the system
/// clock reads before the epoch.
#[verifier::external_body]
pub fn epoch_secs() -> u64 {
    let since = std::time::SystemTime::now().duration_since(std::time::UNIX_EPOCH);
    since.expect("Unable to determine time.").as_secs()
}

/// The timestamp a digit string parses to: its decimal value when it is a
/// nonempty all-digit string whose value fits a `u64`, and zero otherwise.
pub open spec fn ts_of_text(s: Seq<char>) -> u64 {
    if s.len() > 0 && all_digits(s) && dec_val(s) <= u64::MAX {
        dec_val(s) as u64
    } else {
        0
    }
}

/// A creation timestamp: whole seconds since the Unix epoch.
#[derive(Clone, Copy, Debug, PartialEq, Eq, Structural)]
pub struct Timestamp(pub u64);

impl Timestamp {
    /// A timestamp reading the clock now.
    pub fn new() -> Self {
        Timestamp(epoch_secs())
    }

    /// The seconds value.
    pub fn value(&self) -> (r: u64)
        ensures
            r == self.0,
    {
        self.0
    }

    /// Parses a decimal timestamp; any string that is not a fitting all-digit
    /// number yields zero.
    pub fn parse(s: &str) -> (r: Self)
        ensures
            r.0 == ts_of_text(s@),
    {
        match parse_u64(s) {
            Some(v) => Timestamp(v),
            None => Timestamp(0),
        }
    }
}

} // verus!
