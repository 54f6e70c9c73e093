//! Points in time.

use vstd::prelude::*;

verus! {

/// A point in time: seconds since the start of 1970 in UTC, and nanoseconds on
/// top of them. A leap second is the last second of its minute with a billion
/// nanoseconds or more.
#[derive(Debug, Clone, Copy, PartialEq, Eq, Structural)]
pub struct Timestamp {
    pub secs: i64,
    pub nanos: u32,
}

/// Whether `a` lies before `b`.
pub open spec fn earlier(a: Timestamp, b: Timestamp) -> bool {
    a.secs < b.secs || (a.secs == b.secs && a.nanos < b.nanos)
}

/// The RFC 3339 text of a point in time, as chrono writes it; `None` where
/// chrono has no such point in time.
pub uninterp spec fn rfc3339_text(secs: i64, nanos: u32) -> Option<Seq<char>>;

/// Calls `chrono::DateTime::<Utc>::from_timestamp` and, on what it gives,
/// `DateTime::to_rfc3339_opts` with `SecondsFormat::AutoSi` and `Z` for UTC:
/// the text that chrono serialises a `DateTime<Utc>` as. Claimed is only that
/// the outcome depends on nothing but the two numbers.
#[verifier::external_body]
fn chrono_rfc3339(secs: i64, nanos: u32) -> (text: Option<String>)
    ensures
        text is Some <==> rfc3339_text(secs, nanos) is Some,
        text matches Some(t) ==> rfc3339_text(secs, nanos) == Some(t@),
{
    match chrono::DateTime::from_timestamp(secs, nanos) {
        Some(at) => Some(at.to_rfc3339_opts(chrono::SecondsFormat::AutoSi, true)),
        None => None,
    }
}

impl Timestamp {
    /// Whether this lies before `other`.
    pub fn is_before(&self, other: &Timestamp) -> (yes: bool)
        ensures
            yes == earlier(*self, *other),
    {
        self.secs < other.secs || (self.secs == other.secs && self.nanos < other.nanos)
    }

    /// The RFC 3339 text of this point in time, with as many digits of the
    /// second as it needs and `Z` for UTC.
    pub fn to_rfc3339(&self) -> (text: Option<String>)
        ensures
            text is Some <==> rfc3339_text(self.secs, self.nanos) is Some,
            text matches Some(t) ==> rfc3339_text(self.secs, self.nanos) == Some(t@),
    {
        chrono_rfc3339(self.secs, self.nanos)
    }
}

} // verus!
