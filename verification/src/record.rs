use vstd::prelude::*;
use crate::codec::{dec_i64, write_i64};

verus! {

/// The smallest second count whose calendar date the formatter supports
/// (midnight, January 1st of year -9999).
pub const MIN_CIVIL_SECS: i64 = -377705116800;

/// The largest second count whose calendar date the formatter supports
/// (the last second of year 9999).
pub const MAX_CIVIL_SECS: i64 = 253402300799;

/// One sampled observation of the tracked statistics.
#[derive(Clone, Copy, Debug, PartialEq, Eq, Structural)]
pub struct DataPoint {
    pub rank: u64,
    pub upvotes: u64,
    pub downvotes: u64,
    pub reranks: u64,
    pub top5_reranks: u64,
}

/// Seconds since the Unix epoch.  Any second count can be stored and
/// serialized; only the human-readable formatter asks for the calendar
/// range it supports (see [`Timestamp::formattable`]).
#[derive(Clone, Copy, Debug, PartialEq, Eq, Structural)]
pub struct Timestamp {
    secs: i64,
}

/// One timestamped observation.
#[derive(Clone, Copy, Debug, PartialEq, Eq, Structural)]
pub struct Record {
    pub timestamp: Timestamp,
    pub data: DataPoint,
}

/// The timestamp whose second count is `secs` (truncated into `i64`; every
/// in-range value is preserved).
pub closed spec fn spec_ts(secs: int) -> Timestamp {
    Timestamp { secs: secs as i64 }
}

pub proof fn lemma_spec_ts_roundtrip(t: Timestamp)
    ensures
        spec_ts(t@) == t,
{
}

/// The civil calendar fields (year, month, day, hour, minute, second), in
/// UTC, of a second count within the supported range.  What they are on
/// given values only the calendar library knows; they are a function of the
/// second count alone.
pub uninterp spec fn civil_of(secs: int) -> (i32, u8, u8, u8, u8, u8);

/// Relies on time::OffsetDateTime::from_unix_timestamp and its field
/// accessors year, month, day, hour, minute and second: within the library's
/// supported range the conversion succeeds, the fields depend on the second
/// count alone, and each lies in its documented range (month 1..=12, day
/// 1..=31, hour below 24, minute and second below 60, year within the
/// supported calendar).
#[verifier::external_body]
fn civil_parts(secs: i64) -> (r: (i32, u8, u8, u8, u8, u8))
    requires
        MIN_CIVIL_SECS <= secs <= MAX_CIVIL_SECS,
    ensures
        r == civil_of(secs as int),
        -9999 <= r.0 <= 9999,
        1 <= r.1 <= 12,
        1 <= r.2 <= 31,
        r.3 < 24,
        r.4 < 60,
        r.5 < 60,
{
    let dt = time::OffsetDateTime::from_unix_timestamp(secs).unwrap();
    (dt.year(), dt.month() as u8, dt.day(), dt.hour(), dt.minute(), dt.second())
}

/// Relies on time::OffsetDateTime::now_utc and unix_timestamp: every value
/// the calendar library constructs carries a date within its supported
/// calendar, so its second count lies within the supported range.  On a host
/// whose clock reads outside years -9999 through 9999 the calendar library
/// panics inside this call instead of returning.
#[verifier::external_body]
fn now_secs() -> (r: i64)
    ensures
        MIN_CIVIL_SECS <= r <= MAX_CIVIL_SECS,
{
    time::OffsetDateTime::now_utc().unix_timestamp()
}

/// A two-digit zero-padded decimal field.
pub open spec fn spec_pad2(v: int) -> Seq<u8> {
    seq![(48 + v / 10) as u8, (48 + v % 10) as u8]
}

fn push_pad2(wr: &mut Vec<u8>, v: u8)
    requires
        v < 100,
    ensures
        final(wr)@ == old(wr)@ + spec_pad2(v as int),
{
    wr.push(48 + v / 10);
    wr.push(48 + v % 10);
    assert(wr@ =~= old(wr)@ + spec_pad2(v as int));
}

/// The human-readable form of a timestamp: the year in plain decimal, then
/// zero-padded month, day, hour, minute and second, as
/// `Y-MM-DD hh:mm:ss` over the civil fields of the second count.
pub open spec fn spec_format_ts(secs: int) -> Seq<u8> {
    let c = civil_of(secs);
    dec_i64(c.0 as int) + seq![45u8] + spec_pad2(c.1 as int) + seq![45u8] + spec_pad2(c.2 as int)
        + seq![32u8] + spec_pad2(c.3 as int) + seq![58u8] + spec_pad2(c.4 as int) + seq![58u8]
        + spec_pad2(c.5 as int)
}

impl Timestamp {
    pub closed spec fn view(&self) -> int {
        self.secs as int
    }

    pub fn new(secs: i64) -> (r: Timestamp)
        ensures
            r@ == secs as int,
            r == spec_ts(secs as int),
    {
        Timestamp { secs }
    }

    pub fn as_secs(&self) -> (r: i64)
        ensures
            r as int == self@,
    {
        self.secs
    }

    /// The timestamp's second count lies within the calendar range the
    /// formatter supports.
    pub open spec fn formattable(&self) -> bool {
        MIN_CIVIL_SECS <= self@ <= MAX_CIVIL_SECS
    }

    /// The current time, which always lies within the supported calendar
    /// (assuming a host clock within years -9999 through 9999; see
    /// the note on the clock reader).
    pub fn now() -> (r: Timestamp)
        ensures
            r.formattable(),
    {
        Timestamp::new(now_secs())
    }

    /// Appends the timestamp's human-readable form.
    pub fn format_to(&self, wr: &mut Vec<u8>)
        requires
            self.formattable(),
        ensures
            final(wr)@ == old(wr)@ + spec_format_ts(self@),
    {
        let (y, mo, d, h, mi, s) = civil_parts(self.secs);
        write_i64(wr, y as i64);
        wr.push(45u8);
        push_pad2(wr, mo);
        wr.push(45u8);
        push_pad2(wr, d);
        wr.push(32u8);
        push_pad2(wr, h);
        wr.push(58u8);
        push_pad2(wr, mi);
        wr.push(58u8);
        push_pad2(wr, s);
        assert(wr@ =~= old(wr)@ + spec_format_ts(self@));
    }
}

/// A timestamp's second count always fits its machine representation.
pub proof fn lemma_ts_view_range(t: Timestamp)
    ensures
        i64::MIN <= t@ <= i64::MAX,
{
}

} // verus!
