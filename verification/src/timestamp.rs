//! Points in time, held as seconds and nanoseconds since the start of 1970 in
//! UTC, and read and written through `chrono`.
use crate::config::TIME_FORMAT;
use chrono::{DateTime, Utc};
use vstd::prelude::*;

verus! {

/// The first second that can be held: the start of the year -262143.
pub const MIN_SECONDS: i64 = -8_334_601_228_800;

/// The last second that can be held: the end of the year 262142.
pub const MAX_SECONDS: i64 = 8_210_266_876_799;

/// What `chrono::DateTime::format` writes, in the pattern of the file, for the
/// point in time at `secs` and `nanos`.
pub uninterp spec fn timestamp_text(secs: int, nanos: int) -> Seq<char>;

/// What `chrono::DateTime::parse_from_str` makes of a text in the pattern of
/// the file: the point in time, as seconds and nanoseconds, or the words in
/// which it refuses the text.
pub uninterp spec fn parsed_timestamp(text: Seq<char>) -> Result<(int, int), Seq<char>>;

/// Whether seconds and nanoseconds name a point in time that can be held:
/// the second lies in the years from -262143 to 262142, and the nanoseconds
/// stay under a second, or under two in the last second of a minute, which
/// is how a leap second is counted.
pub open spec fn representable(secs: int, nanos: int) -> bool {
    &&& MIN_SECONDS <= secs <= MAX_SECONDS
    &&& 0 <= nanos < 2_000_000_000
    &&& (nanos >= 1_000_000_000 ==> secs % 60 == 59)
}

/// A point in time.
#[derive(Clone, Copy, Debug)]
pub struct Timestamp {
    secs: i64,
    nanos: u32,
}

/// A point in time as the contracts speak of it.
pub ghost struct Instant {
    pub secs: int,
    pub nanos: int,
}

impl View for Timestamp {
    type V = Instant;

    closed spec fn view(&self) -> Instant {
        Instant { secs: self.secs as int, nanos: self.nanos as int }
    }
}

impl Timestamp {
    #[verifier::type_invariant]
    spec fn well_formed(self) -> bool {
        representable(self.secs as int, self.nanos as int)
    }

    /// The point in time at `secs` and `nanos`, where there is one.
    pub fn new(secs: i64, nanos: u32) -> (r: Option<Timestamp>)
        ensures
            match r {
                Some(t) => representable(secs as int, nanos as int) && t@ == (Instant {
                    secs: secs as int,
                    nanos: nanos as int,
                }),
                None => !representable(secs as int, nanos as int),
            },
    {
        if secs < MIN_SECONDS || secs > MAX_SECONDS || nanos >= 2_000_000_000 {
            return None;
        }
        // The first second is the start of a minute, so the place of `secs`
        // in its minute can be counted from there.
        let second_of_minute: i64 = (secs - MIN_SECONDS) % 60;
        if nanos >= 1_000_000_000 && second_of_minute != 59 {
            return None;
        }
        Some(Timestamp { secs, nanos })
    }

    /// The whole seconds since the start of 1970.
    pub fn seconds(&self) -> (s: i64)
        ensures
            s == self@.secs,
    {
        self.secs
    }

    /// The nanoseconds since the last whole second.
    pub fn nanoseconds(&self) -> (n: u32)
        ensures
            n == self@.nanos,
    {
        self.nanos
    }

    /// The time as written in the file.
    pub fn to_text(&self) -> (r: String)
        ensures
            r@ == timestamp_text(self@.secs, self@.nanos),
    {
        proof {
            use_type_invariant(self);
        }
        format_timestamp(self.secs, self.nanos)
    }

    /// The time that a text in the pattern of the file gives, or else the
    /// words in which the text is refused.
    pub fn from_text(text: &str) -> (r: Result<Timestamp, String>)
        ensures
            match parsed_timestamp(text@) {
                Ok((secs, nanos)) => r matches Ok(t) && t@ == (Instant { secs, nanos })
                    && representable(secs, nanos),
                Err(why) => r matches Err(words) && words@ == why,
            },
    {
        match parse_timestamp(text) {
            Ok((secs, nanos)) => Ok(Timestamp { secs, nanos }),
            Err(why) => Err(why),
        }
    }

    /// The time that the system's clock shows. Which time that is, no
    /// contract can say; it is one that can be held.
    pub fn now() -> (r: Timestamp)
        ensures
            representable(r@.secs, r@.nanos),
    {
        let (secs, nanos) = current_time();
        Timestamp { secs, nanos }
    }
}

/// Calls `chrono::Utc::now` and takes the time apart with
/// `DateTime::timestamp` and `DateTime::timestamp_subsec_nanos`. Nothing is
/// claimed of which time it is, only that it can be held, as
/// `DateTime::from_timestamp` promises of those two numbers. The system's
/// clock must not stand before 1970.
#[verifier::external_body]
pub(crate) fn current_time() -> (r: (i64, u32))
    ensures
        representable(r.0 as int, r.1 as int),
{
    let now = Utc::now();
    (now.timestamp(), now.timestamp_subsec_nanos())
}

/// Calls `chrono::DateTime::parse_from_str` with the pattern of the file.
/// A time that was read is taken apart as `current_time` does, and can be
/// held; an error is turned into its words by its `Display`. The text alone
/// decides what comes back, which is known to the library only by its name.
#[verifier::external_body]
pub(crate) fn parse_timestamp(text: &str) -> (r: Result<(i64, u32), String>)
    ensures
        match r {
            Ok((secs, nanos)) => parsed_timestamp(text@) == Ok::<(int, int), Seq<char>>(
                (secs as int, nanos as int),
            ) && representable(secs as int, nanos as int),
            Err(why) => parsed_timestamp(text@) == Err::<(int, int), Seq<char>>(why@),
        },
{
    match DateTime::parse_from_str(text, TIME_FORMAT) {
        Ok(time) => Ok((time.to_utc().timestamp(), time.to_utc().timestamp_subsec_nanos())),
        Err(e) => Err(e.to_string()),
    }
}

/// Calls `chrono::DateTime::from_timestamp`, which gives a time for every
/// pair that is representable, and writes it with `DateTime::format` in the
/// pattern of the file.
#[verifier::external_body]
pub(crate) fn format_timestamp(secs: i64, nanos: u32) -> (r: String)
    requires
        representable(secs as int, nanos as int),
    ensures
        r@ == timestamp_text(secs as int, nanos as int),
{
    DateTime::from_timestamp(secs, nanos).unwrap().format(TIME_FORMAT).to_string()
}

} // verus!
