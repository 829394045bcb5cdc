//! Moments in time, and how they are written.
use vstd::prelude::*;

use crate::text;

verus! {

/// A moment in UTC: whole seconds since 1970, and nanoseconds within the second.
#[derive(Debug, Clone, Copy, PartialEq, Eq)]
pub struct Moment {
    pub seconds: i64,
    pub nanos: u32,
}

/// How chrono writes a moment in UTC in the form of RFC 3339, if it can hold the moment at all.
pub uninterp spec fn rfc3339(seconds: int, nanos: int) -> Option<Seq<char>>;

/// `chrono::DateTime::from_timestamp` takes a moment, or refuses one that is out of its range, and
/// `to_rfc3339` writes it in UTC. The text is a function of the two numbers alone; what it looks
/// like is not stated.
#[verifier::external_body]
fn written(seconds: i64, nanos: u32) -> (r: Option<String>)
    ensures
        text::opt(r) == rfc3339(seconds as int, nanos as int),
{
    chrono::DateTime::from_timestamp(seconds, nanos).map(|t| t.to_rfc3339())
}

impl Moment {
    /// The moment as it is written in records, if it can be written.
    pub fn write(self) -> (r: Option<String>)
        ensures
            text::opt(r) == rfc3339(self.seconds as int, self.nanos as int),
    {
        written(self.seconds, self.nanos)
    }
}

} // verus!
