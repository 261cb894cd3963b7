//! Instants on the UTC time line, as seconds and nanoseconds since the epoch.
use vstd::prelude::*;

verus! {

/// Whether an instant lies in the range of calendar dates that can be written out.
pub uninterp spec fn timestamp_in_range(secs: i64, nanos: u32) -> bool;

/// What an instant reads as in RFC 3339 form.
pub uninterp spec fn rfc3339_of(secs: i64, nanos: u32) -> Seq<char>;

/// Relies on chrono::DateTime::from_timestamp: whether it gives a date for the
/// instant; the answer depends on the two numbers alone, and every instant from
/// the start of year 0 to the end of year 9999 with a nanosecond part under
/// one second has one.
#[verifier::external_body]
fn chrono_accepts(secs: i64, nanos: u32) -> (r: bool)
    ensures
        r == timestamp_in_range(secs, nanos),
        -62_167_219_200 <= secs <= 253_402_300_799 && nanos < 1_000_000_000 ==> r,
{
    chrono::DateTime::from_timestamp(secs, nanos).is_some()
}

/// Relies on chrono::DateTime::to_rfc3339 of the UTC date of the instant: the
/// text depends on the instant alone.
#[verifier::external_body]
fn chrono_rfc3339(secs: i64, nanos: u32) -> (r: String)
    requires
        timestamp_in_range(secs, nanos),
    ensures
        r@ == rfc3339_of(secs, nanos),
{
    chrono::DateTime::from_timestamp(secs, nanos).unwrap().to_rfc3339()
}

/// A UTC instant that has a calendar date.
#[derive(Clone, Copy, Debug)]
pub struct StarDate {
    secs: i64,
    nanos: u32,
}

impl StarDate {
    #[verifier::type_invariant]
    spec fn in_range(self) -> bool {
        timestamp_in_range(self.secs, self.nanos)
    }

    /// Seconds since 1970-01-01T00:00:00Z.
    pub closed spec fn spec_secs(self) -> i64 {
        self.secs
    }

    /// Nanoseconds past the second.
    pub closed spec fn spec_nanos(self) -> u32 {
        self.nanos
    }

    /// The instant with these parts.
    pub closed spec fn spec_at(secs: i64, nanos: u32) -> StarDate {
        StarDate { secs, nanos }
    }

    /// The instant `secs` seconds and `nanos` nanoseconds after the epoch, if
    /// it has a calendar date.
    pub fn from_timestamp(secs: i64, nanos: u32) -> (r: Option<StarDate>)
        ensures
            r is Some <==> timestamp_in_range(secs, nanos),
            r matches Some(d) ==> d == StarDate::spec_at(secs, nanos) && d.spec_secs() == secs
                && d.spec_nanos() == nanos,
            -62_167_219_200 <= secs <= 253_402_300_799 && nanos < 1_000_000_000 ==> r is Some,
    {
        if chrono_accepts(secs, nanos) {
            Some(StarDate { secs, nanos })
        } else {
            None
        }
    }

    pub fn timestamp(&self) -> (r: i64)
        ensures
            r == self.spec_secs(),
    {
        self.secs
    }

    pub fn subsec_nanos(&self) -> (r: u32)
        ensures
            r == self.spec_nanos(),
    {
        self.nanos
    }

    /// The RFC 3339 text of the instant, with offset `+00:00`.
    pub open spec fn text(self) -> Seq<char> {
        rfc3339_of(self.spec_secs(), self.spec_nanos())
    }

    pub fn to_rfc3339(&self) -> (r: String)
        ensures
            r@ == self.text(),
    {
        proof {
            use_type_invariant(self);
        }
        chrono_rfc3339(self.secs, self.nanos)
    }
}

} // verus!
