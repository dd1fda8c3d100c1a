//! Points in time, held as a UNIX timestamp and rendered by `chrono`.

use crate::wire::{text_of, Encode};
use chrono::{DateTime, Utc};
use vstd::prelude::*;

verus! {

/// Whether `chrono` can represent the instant `secs` seconds and `nanos`
/// nanoseconds after the UNIX epoch.
pub uninterp spec fn timestamp_in_range(secs: int, nanos: int) -> bool;

/// The text `chrono` displays for a representable UTC instant, such as
/// `2015-05-15 00:00:00 UTC`.
pub uninterp spec fn timestamp_display(secs: int, nanos: int) -> Seq<char>;

/// The JSON text that `serde_json` writes for a representable UTC instant as
/// `chrono` serializes it, such as `"2015-05-15T00:00:00Z"` with its quotes,
/// or `None` where it reports an error.
pub uninterp spec fn timestamp_json(secs: int, nanos: int) -> Option<Seq<char>>;

/// Calls `chrono::DateTime::<Utc>::from_timestamp` and reports whether it
/// returned a value. The contract only names that outcome.
#[verifier::external_body]
fn representable(secs: i64, nanos: u32) -> (r: bool)
    ensures
        r == timestamp_in_range(secs as int, nanos as int),
{
    DateTime::<Utc>::from_timestamp(secs, nanos).is_some()
}

/// Calls `to_string` (the `Display` impl) on the `chrono::DateTime<Utc>` made
/// by `from_timestamp`. The contract names the text; it claims nothing about
/// what the text looks like.
#[verifier::external_body]
fn display_text(secs: i64, nanos: u32) -> (r: String)
    requires
        timestamp_in_range(secs as int, nanos as int),
    ensures
        r@ == timestamp_display(secs as int, nanos as int),
{
    DateTime::<Utc>::from_timestamp(secs, nanos).unwrap().to_string()
}

/// Calls `serde_json::to_string` on the `chrono::DateTime<Utc>` made by
/// `from_timestamp`, which runs the `Serialize` impl of `chrono`. The
/// contract names the outcome, text or error, and does not promise success.
#[verifier::external_body]
fn json_text(secs: i64, nanos: u32) -> (r: Option<String>)
    requires
        timestamp_in_range(secs as int, nanos as int),
    ensures
        text_of(r) == timestamp_json(secs as int, nanos as int),
{
    serde_json::to_string(&DateTime::<Utc>::from_timestamp(secs, nanos).unwrap()).ok()
}

/// A UTC point in time that `chrono` can represent.
#[derive(Debug, Clone, Copy)]
pub struct Instant {
    secs: i64,
    nanos: u32,
}

impl Instant {
    #[verifier::type_invariant]
    spec fn in_range(self) -> bool {
        timestamp_in_range(self.secs as int, self.nanos as int)
    }

    /// Whole seconds since the UNIX epoch.
    pub closed spec fn seconds(&self) -> int {
        self.secs as int
    }

    /// Nanoseconds since the last whole second.
    pub closed spec fn subsec_nanos(&self) -> int {
        self.nanos as int
    }

    /// The text that enters a block's digest.
    pub open spec fn display(&self) -> Seq<char> {
        timestamp_display(self.seconds(), self.subsec_nanos())
    }

    /// Makes an instant from a UNIX timestamp, if `chrono` can represent it.
    pub fn from_timestamp(secs: i64, nanos: u32) -> (r: Option<Instant>)
        ensures
            r is Some <==> timestamp_in_range(secs as int, nanos as int),
            r matches Some(t) ==> t.seconds() == secs && t.subsec_nanos() == nanos,
    {
        if representable(secs, nanos) {
            Some(Instant { secs, nanos })
        } else {
            None
        }
    }

    /// Whole seconds since the UNIX epoch.
    pub fn timestamp(&self) -> (r: i64)
        ensures
            r == self.seconds(),
    {
        self.secs
    }

    /// Nanoseconds since the last whole second.
    pub fn timestamp_subsec_nanos(&self) -> (r: u32)
        ensures
            r == self.subsec_nanos(),
    {
        self.nanos
    }

    /// Whether two instants are the same point in time.
    pub fn same(&self, other: &Instant) -> (r: bool)
        ensures
            r == (self.seconds() == other.seconds() && self.subsec_nanos() == other.subsec_nanos()),
            r == (*self == *other),
    {
        self.secs == other.secs && self.nanos == other.nanos
    }

    /// The text that enters a block's digest.
    pub fn to_string(&self) -> (r: String)
        ensures
            r@ == self.display(),
    {
        proof {
            use_type_invariant(self);
        }
        display_text(self.secs, self.nanos)
    }

}

impl Encode for Instant {
    /// On the wire an instant is a JSON string in RFC 3339 form.
    open spec fn encoding(&self) -> Option<Seq<char>> {
        timestamp_json(self.seconds(), self.subsec_nanos())
    }

    fn encode(&self) -> (r: Option<String>) {
        proof {
            use_type_invariant(self);
        }
        json_text(self.secs, self.nanos)
    }
}

/// The current time, read from `chrono::Utc::now`. Nothing is promised about
/// which instant comes back; `chrono` builds it with `from_timestamp`, so it
/// is representable. `chrono` panics if the system clock is set before the
/// UNIX epoch.
#[verifier::external_body]
pub fn primitive_timestamp() -> (r: Instant) {
    let now = Utc::now();
    Instant { secs: now.timestamp(), nanos: now.timestamp_subsec_nanos() }
}

} // verus!
