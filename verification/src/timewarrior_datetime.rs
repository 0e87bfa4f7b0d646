//! Timestamps in the tracker's pattern `YYYYMMDDTHHMMSSZ` and the spans
//! between them.
//!
//! A timestamp is read as wall-clock time: the trailing `Z` is a letter of the
//! pattern and no time zone is applied, so the date of a timestamp is the date
//! written in it and a span is the plain difference of two readings.

use vstd::prelude::*;

verus! {

/// The largest distance from the epoch, in seconds, that a [`Timestamp`] holds.
/// A span between two timestamps then stays within [`MAX_SPAN`], and a sum of
/// as many spans as a vector can hold stays inside `i128`.
pub const MAX_SECONDS: i64 = 0x4000_0000_0000_0000;

/// The largest size, in seconds, of a span between two timestamps.
pub const MAX_SPAN: i128 = 0x8000_0000_0000_0000;

/// Whether a [`Timestamp`] can hold the second `secs` seconds from the epoch.
pub open spec fn valid_seconds(secs: int) -> bool {
    -MAX_SECONDS <= secs <= MAX_SECONDS
}

/// Whether `secs` is a length that a span between two timestamps can have.
pub open spec fn valid_span(secs: int) -> bool {
    -MAX_SPAN <= secs <= MAX_SPAN
}

/// The whole minutes in `secs` seconds, rounded towards zero.
pub open spec fn whole_minutes(secs: int) -> int {
    if secs >= 0 {
        secs / 60
    } else {
        -((-secs) / 60)
    }
}

/// Whether `c` is one of the digits `0` to `9`.
pub open spec fn is_digit(c: char) -> bool {
    '0' <= c && c <= '9'
}

/// Whether `text` has the shape `YYYYMMDDTHHMMSSZ`: eight digits, the letter
/// `T`, six digits, the letter `Z`, and nothing else.
pub open spec fn has_pattern(text: Seq<char>) -> bool {
    &&& text.len() == 16
    &&& forall|i: int| 0 <= i < 8 ==> is_digit(#[trigger] text[i])
    &&& text[8] == 'T'
    &&& forall|i: int| 9 <= i < 15 ==> is_digit(#[trigger] text[i])
    &&& text[15] == 'Z'
}

/// The second that `text` states as a timestamp: the text has the shape of
/// one, chrono reads a date and a time from it, and that second is in range.
pub open spec fn stated_seconds(text: Seq<char>) -> Option<int> {
    if has_pattern(text) {
        match naive_seconds(text) {
            Some(secs) => if valid_seconds(secs) {
                Some(secs)
            } else {
                None
            },
            None => None,
        }
    } else {
        None
    }
}

/// What chrono reads in a text with the pattern `%Y%m%dT%H%M%SZ`: the seconds
/// from 1970-01-01 00:00:00 to the date and time written there, or `None`
/// where chrono rejects the text.
pub uninterp spec fn naive_seconds(text: Seq<char>) -> Option<int>;

/// The calendar date, written `%Y-%m-%d`, of the second `secs` seconds from
/// 1970-01-01 00:00:00, or `None` where chrono's calendar does not reach it.
pub uninterp spec fn calendar_date(secs: int) -> Option<Seq<char>>;

/// `chrono::ParseError`, handed on without a look inside.
#[verifier::external_type_specification]
#[verifier::external_body]
pub struct ExParseError(chrono::ParseError);

/// `chrono::NaiveDateTime::parse_from_str` with the pattern `%Y%m%dT%H%M%SZ`.
/// What was read is handed back as chrono's count of seconds from the epoch
/// (`and_utc().timestamp()`, which applies no offset); a second written `60`
/// counts as the second before it. The contract only names the outcome.
#[verifier::external_body]
fn read_naive_seconds(s: &str) -> (r: Result<i64, chrono::ParseError>)
    ensures
        match r {
            Ok(secs) => naive_seconds(s@) == Some(secs as int),
            Err(_) => naive_seconds(s@) is None,
        },
{
    match chrono::NaiveDateTime::parse_from_str(s, "%Y%m%dT%H%M%SZ") {
        Ok(read) => Ok(read.and_utc().timestamp()),
        Err(e) => Err(e),
    }
}

/// `chrono::DateTime::from_timestamp` for the second `secs`, then the date of
/// that instant formatted by chrono with `%Y-%m-%d`. `None` comes back where
/// `from_timestamp` has no instant for `secs`. The contract only names the
/// outcome.
#[verifier::external_body]
fn format_date(secs: i64) -> (r: Option<String>)
    ensures
        match r {
            Some(date) => calendar_date(secs as int) == Some(date@),
            None => calendar_date(secs as int) is None,
        },
{
    match chrono::DateTime::from_timestamp(secs, 0) {
        Some(instant) => Some(instant.date_naive().format("%Y-%m-%d").to_string()),
        None => None,
    }
}

/// The text is no timestamp: it has not the shape of one, names no real date
/// or time, or names a second further than [`MAX_SECONDS`] from the epoch.
#[derive(Debug, Clone, Copy, PartialEq, Eq, Structural)]
pub struct InvalidTimestamp;

/// A signed span of time in whole seconds.
#[derive(Debug, Clone, Copy)]
pub struct Duration {
    secs: i128,
}

impl View for Duration {
    type V = int;

    closed spec fn view(&self) -> int {
        self.secs as int
    }
}

impl Duration {
    /// The span of `secs` seconds.
    pub fn seconds(secs: i128) -> (d: Duration)
        ensures
            d@ == secs,
    {
        Duration { secs }
    }

    /// The empty span.
    pub fn zero() -> (d: Duration)
        ensures
            d@ == 0,
    {
        Duration { secs: 0 }
    }

    /// The length of the span in seconds.
    pub fn num_seconds(&self) -> (secs: i128)
        ensures
            secs == self@,
    {
        self.secs
    }

    /// The whole minutes in the span, rounded towards zero.
    pub fn num_minutes(&self) -> (minutes: i128)
        ensures
            minutes == whole_minutes(self@),
    {
        self.secs / 60
    }
}

/// A second on the wall clock, counted from 1970-01-01 00:00:00 and no
/// further than [`MAX_SECONDS`] from it.
#[derive(Debug, Clone, Copy)]
pub struct Timestamp {
    secs: i64,
}

impl View for Timestamp {
    type V = int;

    closed spec fn view(&self) -> int {
        self.secs as int
    }
}

impl Timestamp {
    #[verifier::type_invariant]
    spec fn in_range(self) -> bool {
        valid_seconds(self.secs as int)
    }

    /// The timestamp `secs` seconds from the epoch, if that is in range.
    pub fn from_seconds(secs: i64) -> (r: Option<Timestamp>)
        ensures
            r is Some <==> valid_seconds(secs as int),
            r matches Some(t) ==> t@ == secs,
    {
        if -MAX_SECONDS <= secs && secs <= MAX_SECONDS {
            Some(Timestamp { secs })
        } else {
            None
        }
    }

    /// The seconds from the epoch.
    pub fn seconds(&self) -> (secs: i64)
        ensures
            secs == self@,
            valid_seconds(secs as int),
    {
        proof {
            use_type_invariant(self);
        }
        self.secs
    }

    /// The span from `earlier` to `self`; negative where `self` is the
    /// earlier of the two.
    pub fn signed_duration_since(&self, earlier: &Timestamp) -> (d: Duration)
        ensures
            d@ == self@ - earlier@,
            valid_span(d@),
    {
        proof {
            use_type_invariant(self);
            use_type_invariant(earlier);
        }
        Duration { secs: self.secs as i128 - earlier.secs as i128 }
    }

    /// The timestamp that lies `d` before `self`, if that is in range.
    pub fn checked_sub_signed(&self, d: &Duration) -> (r: Option<Timestamp>)
        ensures
            r is Some <==> valid_seconds(self@ - d@),
            r matches Some(t) ==> t@ == self@ - d@,
    {
        proof {
            use_type_invariant(self);
        }
        let limit: i128 = MAX_SECONDS as i128;
        if d.secs < -3 * limit || d.secs > 3 * limit {
            return None;
        }
        let moved: i128 = self.secs as i128 - d.secs;
        if -limit <= moved && moved <= limit {
            Some(Timestamp { secs: moved as i64 })
        } else {
            None
        }
    }
}

/// Whether `s` has the shape `YYYYMMDDTHHMMSSZ`.
pub fn has_timestamp_pattern(s: &str) -> (r: bool)
    ensures
        r == has_pattern(s@),
{
    if s.unicode_len() != 16 {
        return false;
    }
    let mut i: usize = 0;
    while i < 16
        invariant
            i <= 16,
            s@.len() == 16,
            forall|k: int| 0 <= k < i && k < 8 ==> is_digit(#[trigger] s@[k]),
            i > 8 ==> s@[8] == 'T',
            forall|k: int| 9 <= k < i && k < 15 ==> is_digit(#[trigger] s@[k]),
            i > 15 ==> s@[15] == 'Z',
        decreases 16 - i,
    {
        let c: char = s.get_char(i);
        let fits: bool = if i == 8 {
            c == 'T'
        } else if i == 15 {
            c == 'Z'
        } else {
            '0' <= c && c <= '9'
        };
        if !fits {
            return false;
        }
        i = i + 1;
    }
    true
}

/// Reads a timestamp written in the pattern `YYYYMMDDTHHMMSSZ`.
///
/// A text of another shape is no timestamp. For a text of that shape the date
/// and the time are read by chrono, so the result is stated over
/// [`naive_seconds`].
pub fn parse(s: &str) -> (r: Result<Timestamp, InvalidTimestamp>)
    ensures
        match r {
            Ok(t) => stated_seconds(s@) == Some(t@),
            Err(_) => stated_seconds(s@) is None,
        },
{
    if !has_timestamp_pattern(s) {
        return Err(InvalidTimestamp);
    }
    match read_naive_seconds(s) {
        Ok(secs) => timestamp_of_reading(Some(secs)),
        Err(_) => timestamp_of_reading(None),
    }
}

/// The timestamp for what was read from a text of the right shape: `reading`
/// holds the seconds from the epoch, or `None` where the text was rejected.
pub fn timestamp_of_reading(reading: Option<i64>) -> (r: Result<Timestamp, InvalidTimestamp>)
    ensures
        match r {
            Ok(t) => (reading matches Some(secs) && secs == t@) && valid_seconds(t@),
            Err(_) => !(reading matches Some(secs) && valid_seconds(secs as int)),
        },
{
    match reading {
        Some(secs) => match Timestamp::from_seconds(secs) {
            Some(t) => Ok(t),
            None => Err(InvalidTimestamp),
        },
        None => Err(InvalidTimestamp),
    }
}

/// The calendar date of `datetime`, written `YYYY-MM-DD`, or `None` where
/// chrono's calendar does not reach that second.
pub fn date_time_to_date_string(datetime: Timestamp) -> (r: Option<String>)
    ensures
        match r {
            Some(date) => calendar_date(datetime@) == Some(date@),
            None => calendar_date(datetime@) is None,
        },
{
    format_date(datetime.seconds())
}

} // verus!
