//! Instants of the UTC calendar, as the store reports them.
//!
//! The calendar itself is `chrono`'s: it reads a date and writes one. What it
//! returns is named here, and a `Timestamp` holds, as two integers, an instant
//! that it can write.

use crate::text::opt_view;
use std::fmt::Write;
use vstd::prelude::*;

verus! {

/// What `chrono` reads from a date in the relaxed RFC 3339 form: the seconds
/// since the start of 1970 and the nanoseconds within that second, or `None`
/// where the text is no such date.
pub uninterp spec fn parsed_instant(text: Seq<char>) -> Option<(i64, u32)>;

/// What `chrono` writes for the instant `secs`, `nanos` under `pattern`, or
/// `None` where the calendar has no such instant or the pattern is not one of
/// `strftime`.
pub uninterp spec fn formatted_instant(
    secs: i64,
    nanos: u32,
    pattern: Seq<char>,
) -> Option<Seq<char>>;

/// The pattern under which an instant is shown: year, month, day, hour and
/// minute.
pub open spec fn minute_pattern() -> Seq<char> {
    "%Y-%m-%d %H:%M"@
}

/// What is shown of the instant `secs`, `nanos`: its minute in UTC.
pub open spec fn minute_text(secs: i64, nanos: u32) -> Option<Seq<char>> {
    formatted_instant(secs, nanos, minute_pattern())
}

/// Calls `str::parse::<chrono::DateTime<chrono::Utc>>` and hands out the
/// instant as `DateTime::timestamp` and `DateTime::timestamp_subsec_nanos`
/// give it. The result depends on the text alone.
#[verifier::external_body]
fn parse_instant(text: &str) -> (r: Option<(i64, u32)>)
    ensures
        r == parsed_instant(text@),
{
    match text.parse::<chrono::DateTime<chrono::Utc>>() {
        Ok(d) => Some((d.timestamp(), d.timestamp_subsec_nanos())),
        Err(_) => None,
    }
}

/// Calls `chrono::DateTime::from_timestamp` and writes the instant with
/// `DateTime::format`. The result depends on the three arguments alone.
#[verifier::external_body]
fn format_instant(secs: i64, nanos: u32, pattern: &str) -> (r: Option<String>)
    ensures
        opt_view(r) == formatted_instant(secs, nanos, pattern@),
{
    let mut out = String::new();
    match chrono::DateTime::from_timestamp(secs, nanos) {
        Some(d) => match write!(out, "{}", d.format(pattern)) {
            Ok(()) => Some(out),
            Err(_) => None,
        },
        None => None,
    }
}

/// An instant that the calendar can show to the minute.
#[derive(Clone, Copy, Debug, PartialEq, Eq, PartialOrd, Ord, Hash)]
pub struct Timestamp {
    secs: i64,
    nanos: u32,
}

impl Timestamp {
    /// The calendar can show the instant.
    #[verifier::type_invariant]
    spec fn shown(self) -> bool {
        minute_text(self.secs, self.nanos) is Some
    }

    /// The seconds since the start of 1970.
    pub closed spec fn spec_secs(&self) -> i64 {
        self.secs
    }

    /// The nanoseconds within the second.
    pub closed spec fn spec_nanos(&self) -> u32 {
        self.nanos
    }

    /// Whether `text` is a date whose instant can be shown.
    pub open spec fn readable(text: Seq<char>) -> bool {
        parsed_instant(text) matches Some((secs, nanos)) && minute_text(secs, nanos) is Some
    }

    /// The timestamp of `secs` and `nanos`, where the calendar can show it.
    pub fn from_parts(secs: i64, nanos: u32) -> (r: Option<Timestamp>)
        ensures
            r is Some <==> minute_text(secs, nanos) is Some,
            r matches Some(t) ==> t.spec_secs() == secs && t.spec_nanos() == nanos,
    {
        match format_instant(secs, nanos, "%Y-%m-%d %H:%M") {
            Some(_) => Some(Timestamp { secs, nanos }),
            None => None,
        }
    }

    /// Reads a date in the relaxed RFC 3339 form.
    pub fn parse(text: &str) -> (r: Option<Timestamp>)
        ensures
            r is Some <==> Self::readable(text@),
            r matches Some(t) ==> parsed_instant(text@) == Some((t.spec_secs(), t.spec_nanos())),
    {
        match parse_instant(text) {
            Some((secs, nanos)) => Self::from_parts(secs, nanos),
            None => None,
        }
    }

    /// The seconds since the start of 1970.
    #[verifier::when_used_as_spec(spec_secs)]
    pub fn secs(&self) -> (r: i64)
        ensures
            r == self.spec_secs(),
    {
        self.secs
    }

    /// The nanoseconds within the second.
    #[verifier::when_used_as_spec(spec_nanos)]
    pub fn nanos(&self) -> (r: u32)
        ensures
            r == self.spec_nanos(),
    {
        self.nanos
    }

    /// The minute of the instant in UTC, as year, month, day, hour and
    /// minute.
    pub fn minute(&self) -> (r: String)
        ensures
            minute_text(self.secs(), self.nanos()) == Some(r@),
    {
        proof {
            use_type_invariant(self);
        }
        match format_instant(self.secs, self.nanos, "%Y-%m-%d %H:%M") {
            Some(s) => s,
            None => String::new(),
        }
    }

    /// Whether `self` is the earlier instant.
    pub fn earlier(&self, other: &Timestamp) -> (r: bool)
        ensures
            r == Self::before(*self, *other),
    {
        self.secs < other.secs || (self.secs == other.secs && self.nanos < other.nanos)
    }

    /// Whether `a` is the earlier instant.
    pub open spec fn before(a: Timestamp, b: Timestamp) -> bool {
        a.secs() < b.secs() || (a.secs() == b.secs() && a.nanos() < b.nanos())
    }
}

} // verus!
