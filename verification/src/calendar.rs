use crate::error::ConfigError;
use crate::text::{append_four_digits, append_two_digits, four_digit_text, two_digit_text};
use chrono::{Datelike, Timelike};
use vstd::prelude::*;

verus! {

/// The last second after the epoch whose final microsecond fits in 64 bits.
pub const MAX_EPOCH_SECONDS: i64 = 18_446_744_073_708;

/// A day of the calendar, without a time of day.
#[derive(Clone, Copy, Debug, PartialEq, Eq, Structural)]
pub struct CalendarDate {
    pub year: i32,
    pub month: u32,
    pub day: u32,
}

impl CalendarDate {
    /// Whether this day comes strictly before the other: by year, then by
    /// month, then by day.
    pub open spec fn precedes(self, other: CalendarDate) -> bool {
        ||| self.year < other.year
        ||| self.year == other.year && self.month < other.month
        ||| self.year == other.year && self.month == other.month && self.day < other.day
    }

    /// Whether this day is the other one or comes before it.
    pub open spec fn not_after(self, other: CalendarDate) -> bool {
        !other.precedes(self)
    }

    /// Whether this day comes strictly before the other.
    pub fn is_before(&self, other: &CalendarDate) -> (r: bool)
        ensures
            r == self.precedes(*other),
    {
        self.year < other.year || (self.year == other.year && (self.month < other.month || (
        self.month == other.month && self.day < other.day)))
    }

    /// Of two days either one precedes the other or they are the same day,
    /// and never two of these at once; and the order is transitive.
    pub proof fn lemma_total_order(a: CalendarDate, b: CalendarDate, c: CalendarDate)
        ensures
            a.precedes(b) || b.precedes(a) || a == b,
            !(a.precedes(b) && b.precedes(a)),
            !a.precedes(a),
            a.precedes(b) && b.precedes(c) ==> a.precedes(c),
            a.not_after(b) && b.not_after(c) ==> a.not_after(c),
    {
    }
}

/// What a parser read from a timestamp: the instant in whole seconds since
/// the epoch, and the date and time of day that the text itself showed, in
/// the offset that it was written in.
#[derive(Clone, Copy, Debug, PartialEq, Eq, Structural)]
pub struct ClockReading {
    pub epoch_seconds: i64,
    pub date: CalendarDate,
    pub hour: u32,
    pub minute: u32,
    pub second: u32,
}

impl ClockReading {
    /// Whether the date and the time of day are of the shape that a text
    /// timestamp can show: a year of four digits, a month, a day of a month,
    /// and a time on a 24-hour clock.
    pub open spec fn on_the_clock(self) -> bool {
        &&& 0 <= self.date.year <= 9999
        &&& 1 <= self.date.month <= 12
        &&& 1 <= self.date.day <= 31
        &&& self.hour <= 23
        &&& self.minute <= 59
        &&& self.second <= 59
    }

    /// Whether the whole second, through its last microsecond, can be counted
    /// in microseconds since the epoch in 64 bits.
    pub open spec fn in_range(self) -> bool {
        0 <= self.epoch_seconds <= MAX_EPOCH_SECONDS
    }

    /// What becomes of a reading: it is taken as it is, or turned down.
    pub open spec fn verdict(self) -> Result<ClockReading, ConfigError> {
        if !self.on_the_clock() {
            Err(ConfigError::InvalidTimestamp)
        } else if !self.in_range() {
            Err(ConfigError::TimestampOutOfRange)
        } else {
            Ok(self)
        }
    }
}

/// What becomes of the outcome of parsing: no reading is an invalid
/// timestamp, a reading is judged by itself.
pub open spec fn reading_verdict(reading: Option<ClockReading>) -> Result<
    ClockReading,
    ConfigError,
> {
    match reading {
        None => Err(ConfigError::InvalidTimestamp),
        Some(r) => r.verdict(),
    }
}

/// The `YYYYMMDDTHHMMSS` text of a reading's date and time of day.
pub open spec fn stamp_text(r: ClockReading) -> Seq<char> {
    four_digit_text(r.date.year as nat) + two_digit_text(r.date.month as nat) + two_digit_text(
        r.date.day as nat,
    ) + seq!['T'] + two_digit_text(r.hour as nat) + two_digit_text(r.minute as nat)
        + two_digit_text(r.second as nat)
}

/// What `chrono::DateTime::parse_from_rfc3339` makes of a text: nothing where
/// it reports an error, else the parsed instant's `timestamp()` and the
/// `year()`, `month()`, `day()`, `hour()`, `minute()` and `second()` of its
/// `naive_local()`.
pub uninterp spec fn rfc3339_reading(text: Seq<char>) -> Option<ClockReading>;

/// What `chrono::NaiveDate::parse_from_str` makes of a text under a layout:
/// nothing where it reports an error, else the `year()`, `month()` and
/// `day()` of the parsed date.
pub uninterp spec fn layout_date(text: Seq<char>, layout: Seq<char>) -> Option<CalendarDate>;

/// Calls `chrono::DateTime::parse_from_rfc3339` and copies out the fields of
/// the result. Nothing is claimed of the result but that it depends on the
/// text alone. The local date and time of a parsed value are the ones that
/// the text showed, so `naive_local()` has a value to give.
#[verifier::external_body]
fn read_rfc3339(text: &str) -> (r: Option<ClockReading>)
    ensures
        r == rfc3339_reading(text@),
{
    match chrono::DateTime::parse_from_rfc3339(text) {
        Ok(instant) => {
            let at = instant.naive_local();
            let date = CalendarDate { year: at.year(), month: at.month(), day: at.day() };
            let (hour, minute, second) = (at.hour(), at.minute(), at.second());
            Some(ClockReading { epoch_seconds: instant.timestamp(), date, hour, minute, second })
        },
        Err(_) => None,
    }
}

/// Calls `chrono::NaiveDate::parse_from_str` and copies out the fields of
/// the result. Nothing is claimed of the result but that it depends on the
/// text and the layout alone; a layout that the parser does not know is an
/// error like any other.
#[verifier::external_body]
pub(crate) fn read_date(text: &str, layout: &str) -> (r: Option<CalendarDate>)
    ensures
        r == layout_date(text@, layout@),
{
    match chrono::NaiveDate::parse_from_str(text, layout) {
        Ok(date) => Some(CalendarDate { year: date.year(), month: date.month(), day: date.day() }),
        Err(_) => None,
    }
}

/// An instant given by a timestamp with an explicit offset, together with
/// the date and the time of day that the timestamp showed. Every value has a
/// date and time that a text can show, and lies in the range that can be
/// counted in microseconds.
#[derive(Clone, Copy, Debug, PartialEq, Eq)]
pub struct Timestamp {
    reading: ClockReading,
}

impl View for Timestamp {
    type V = ClockReading;

    closed spec fn view(&self) -> ClockReading {
        self.reading
    }
}

impl Timestamp {
    #[verifier::type_invariant]
    spec fn well_formed(self) -> bool {
        self.reading.on_the_clock() && self.reading.in_range()
    }

    /// Takes a reading as a timestamp if its date and time are of the shape
    /// that a text can show and its instant is in range. The shape is judged
    /// first.
    pub fn from_reading(reading: ClockReading) -> (r: Result<Timestamp, ConfigError>)
        ensures
            match r {
                Ok(t) => reading.verdict() == Ok::<ClockReading, ConfigError>(t@),
                Err(e) => reading.verdict() == Err::<ClockReading, ConfigError>(e),
            },
    {
        if reading.date.year < 0 || reading.date.year > 9999 || reading.date.month < 1
            || reading.date.month > 12 || reading.date.day < 1 || reading.date.day > 31
            || reading.hour > 23 || reading.minute > 59 || reading.second > 59 {
            Err(ConfigError::InvalidTimestamp)
        } else if reading.epoch_seconds < 0 || reading.epoch_seconds > MAX_EPOCH_SECONDS {
            Err(ConfigError::TimestampOutOfRange)
        } else {
            Ok(Timestamp { reading })
        }
    }

    /// Takes the outcome of parsing as a timestamp, or says why not.
    pub fn from_parsed(reading: Option<ClockReading>) -> (r: Result<Timestamp, ConfigError>)
        ensures
            match r {
                Ok(t) => reading_verdict(reading) == Ok::<ClockReading, ConfigError>(t@),
                Err(e) => reading_verdict(reading) == Err::<ClockReading, ConfigError>(e),
            },
    {
        match reading {
            Some(found) => Timestamp::from_reading(found),
            None => Err(ConfigError::InvalidTimestamp),
        }
    }

    /// Reads a timestamp in the RFC 3339 form, which always carries an
    /// offset. A text that the parser turns down is an invalid timestamp.
    pub fn parse(text: &str) -> (r: Result<Timestamp, ConfigError>)
        ensures
            match r {
                Ok(t) => reading_verdict(rfc3339_reading(text@)) == Ok::<ClockReading, ConfigError>(
                    t@,
                ),
                Err(e) => reading_verdict(rfc3339_reading(text@)) == Err::<
                    ClockReading,
                    ConfigError,
                >(e),
            },
    {
        Timestamp::from_parsed(read_rfc3339(text))
    }

    /// The instant with the date and time that the timestamp showed. Its
    /// fields are of the shape that a text can show, and in range.
    pub fn reading(&self) -> (r: ClockReading)
        ensures
            r == self@,
            r.on_the_clock(),
            r.in_range(),
    {
        proof {
            use_type_invariant(self);
        }
        self.reading
    }

    /// Whole seconds since the epoch.
    pub fn epoch_seconds(&self) -> (r: u64)
        ensures
            r == self@.epoch_seconds,
            r <= MAX_EPOCH_SECONDS,
    {
        proof {
            use_type_invariant(self);
        }
        self.reading.epoch_seconds as u64
    }

    /// The date that the timestamp showed, in its own offset.
    pub fn local_date(&self) -> (r: CalendarDate)
        ensures
            r == self@.date,
    {
        self.reading.date
    }

    /// The date and time as `YYYYMMDDTHHMMSS`, as used in file names.
    pub fn stamp(&self) -> (r: String)
        ensures
            r@ == stamp_text(self@),
            r@.len() == 15,
    {
        proof {
            use_type_invariant(self);
            reveal_strlit("T");
        }
        let mut out = String::new();
        append_four_digits(&mut out, self.reading.date.year as u32);
        append_two_digits(&mut out, self.reading.date.month);
        append_two_digits(&mut out, self.reading.date.day);
        out.append("T");
        append_two_digits(&mut out, self.reading.hour);
        append_two_digits(&mut out, self.reading.minute);
        append_two_digits(&mut out, self.reading.second);
        assert(out@ =~= stamp_text(self@));
        out
    }
}

} // verus!
