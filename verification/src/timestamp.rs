//! The timestamp field of a script row.
//!
//! A field is read, in this order, as an internet-date timestamp (RFC 2822), as an
//! ISO date-time with a numeric zone (RFC 3339), or as a signed number of seconds
//! relative to the row before.

use crate::instant::representable;
use crate::instant::Instant;
use vstd::prelude::*;
use vstd::string::StrSliceExecFns;
use vstd::string::StringExecFns;

verus! {

/// Why a script could not be taken in.
#[derive(Clone, Copy, Debug, PartialEq, Eq)]
pub enum ScriptError {
    /// The timestamp field is in none of the accepted formats.
    TimestampFormat,
    /// The directory of scripts could not be read.
    Reload,
}

impl ScriptError {
    /// A sentence that describes the error.
    pub fn message(&self) -> (text: String)
        ensures
            text@ == match self {
                ScriptError::TimestampFormat => "could not determine a timestamp"@,
                ScriptError::Reload => "could not read the script directory"@,
            },
    {
        match self {
            ScriptError::TimestampFormat => String::from_str("could not determine a timestamp"),
            ScriptError::Reload => String::from_str("could not read the script directory"),
        }
    }
}

/// A timestamp as contracts see it.
pub enum TimestampView {
    /// A fixed instant, in nanoseconds since the epoch.
    Absolute(int),
    /// A number of seconds after the instant of the row before.
    Relative(int),
}

/// When a row is due: at a fixed instant, or some seconds after the row before it.
#[derive(Clone, Copy, Debug, PartialEq, Eq)]
pub enum Timestamp {
    Absolute(Instant),
    Relative(i64),
}

impl View for Timestamp {
    type V = TimestampView;

    open spec fn view(&self) -> TimestampView {
        match self {
            Timestamp::Absolute(t) => TimestampView::Absolute(t@),
            Timestamp::Relative(d) => TimestampView::Relative(*d as int),
        }
    }
}

/// The byte that writes `+`.
const PLUS: u8 = 43;

/// The byte that writes `-`.
const MINUS: u8 = 45;

/// The byte that writes the digit zero.
const ZERO: u8 = 48;

/// The byte that writes the digit nine.
const NINE: u8 = 57;

/// The value of a decimal digit.
pub open spec fn digit(c: char) -> Option<int> {
    if '0' <= c <= '9' {
        Some(c as u32 - '0' as u32)
    } else {
        None
    }
}

/// The number that a run of decimal digits writes; zero for the empty run.
pub open spec fn digits_value(s: Seq<char>) -> Option<int>
    decreases s.len(),
{
    if s.len() == 0 {
        Some(0)
    } else {
        match (digits_value(s.drop_last()), digit(s.last())) {
            (Some(v), Some(d)) => Some(v * 10 + d),
            _ => None,
        }
    }
}

/// The number of seconds that a field writes: an optional `+` or `-`, then one or
/// more decimal digits and nothing else, with a value that fits into an `i64`.
pub open spec fn signed_decimal(s: Seq<char>) -> Option<i64> {
    let signed = s.len() > 0 && (s[0] == '-' || s[0] == '+');
    let body = if signed {
        s.skip(1)
    } else {
        s
    };
    if body.len() == 0 {
        None
    } else {
        match digits_value(body) {
            Some(v) => {
                let n = if s[0] == '-' {
                    -v
                } else {
                    v
                };
                if i64::MIN <= n <= i64::MAX {
                    Some(n as i64)
                } else {
                    None
                }
            },
            None => None,
        }
    }
}

/// A run with a character that is no digit writes no number.
proof fn lemma_non_digit(s: Seq<char>, i: int)
    requires
        0 <= i < s.len(),
        digit(s[i]) is None,
    ensures
        digits_value(s) is None,
    decreases s.len(),
{
    if i < s.len() - 1 {
        lemma_non_digit(s.drop_last(), i);
    }
}

/// The number that a run writes is at least the number that any of its prefixes writes.
proof fn lemma_prefix_value(s: Seq<char>, n: int)
    requires
        0 <= n <= s.len(),
        digits_value(s) is Some,
    ensures
        digits_value(s.take(n)) is Some,
        0 <= digits_value(s.take(n)).unwrap() <= digits_value(s).unwrap(),
    decreases s.len(),
{
    if n == s.len() {
        assert(s.take(n) == s);
        lemma_digits_nonnegative(s);
    } else {
        lemma_prefix_value(s.drop_last(), n);
        assert(s.drop_last().take(n) == s.take(n));
    }
}

proof fn lemma_digits_nonnegative(s: Seq<char>)
    requires
        digits_value(s) is Some,
    ensures
        digits_value(s).unwrap() >= 0,
    decreases s.len(),
{
    if s.len() > 0 {
        lemma_digits_nonnegative(s.drop_last());
    }
}

/// Reads a signed number of seconds.
pub fn parse_seconds(text: &str) -> (r: Option<i64>)
    ensures
        r == signed_decimal(text@),
{
    if !text.is_ascii() {
        proof {
            let i = choose|i: int| 0 <= i < text@.len() && !('\0' <= #[trigger] text@[i] <= '\u{7f}');
            if i == 0 {
                assert(text@[0] != '-' && text@[0] != '+');
                lemma_non_digit(text@, 0);
            } else {
                let signed = text@[0] == '-' || text@[0] == '+';
                if signed {
                    lemma_non_digit(text@.skip(1), i - 1);
                } else {
                    lemma_non_digit(text@, i);
                }
            }
        }
        return None;
    }
    let n = text.unicode_len();
    if n == 0 {
        return None;
    }
    let first = text.get_ascii(0);
    let negative = first == MINUS;
    let start: usize = if first == MINUS || first == PLUS {
        1
    } else {
        0
    };
    if start == n {
        return None;
    }
    let ghost body = if start == 1 {
        text@.skip(1)
    } else {
        text@
    };
    // The digits read so far write `-below`: the most negative `i64` has no positive twin.
    let mut below: i64 = 0;
    let mut i: usize = start;
    while i < n
        invariant
            start <= i <= n,
            n == text@.len(),
            text.is_ascii(),
            body == if start == 1 { text@.skip(1) } else { text@ },
            negative == (text@[0] == '-'),
            start == if text@[0] == '-' || text@[0] == '+' { 1int } else { 0int },
            digits_value(body.take(i - start)) == Some(-(below as int)),
            below <= 0,
        decreases n - i,
    {
        let b = text.get_ascii(i);
        assert(body[i - start] == text@[i as int]);
        assert(body.take(i - start + 1).drop_last() == body.take(i - start));
        if b < ZERO || b > NINE {
            proof {
                lemma_non_digit(body, i - start);
            }
            return None;
        }
        let d: i64 = (b - ZERO) as i64;
        let next = match below.checked_mul(10) {
            Some(tenfold) => tenfold.checked_sub(d),
            None => None,
        };
        match next {
            Some(v) => {
                below = v;
            },
            None => {
                proof {
                    if digits_value(body) is Some {
                        lemma_prefix_value(body, i - start + 1);
                    }
                }
                return None;
            },
        }
        i += 1;
    }
    assert(body.take(n - start) == body);
    if negative {
        Some(below)
    } else if below == i64::MIN {
        None
    } else {
        Some(-below)
    }
}

/// What chrono's `DateTime::parse_from_rfc2822` makes of a text: `None` where it
/// reports an error, else the seconds since the epoch and the nanoseconds into
/// the second of the instant that it read. The nanoseconds reach a second or
/// more where chrono holds a leap second.
pub uninterp spec fn rfc2822_parts(text: Seq<char>) -> Option<(i64, u32)>;

/// What chrono's `DateTime::parse_from_rfc3339` makes of a text: `None` where it
/// reports an error, else the seconds since the epoch and the nanoseconds into
/// the second of the instant that it read. The nanoseconds reach a second or
/// more where chrono holds a leap second.
pub uninterp spec fn rfc3339_parts(text: Seq<char>) -> Option<(i64, u32)>;

/// Calls chrono's `DateTime::parse_from_rfc2822`.
///
/// Trusted: the result is what that parser reads from `text`, as `timestamp` and
/// `timestamp_subsec_nanos` give it; nothing is claimed of which texts it accepts.
#[verifier::external_body]
fn parse_rfc2822(text: &str) -> (r: Option<(i64, u32)>)
    ensures
        r == rfc2822_parts(text@),
{
    match chrono::DateTime::parse_from_rfc2822(text) {
        Ok(t) => Some((t.timestamp(), t.timestamp_subsec_nanos())),
        Err(_) => None,
    }
}

/// Calls chrono's `DateTime::parse_from_rfc3339`.
///
/// Trusted: the result is what that parser reads from `text`, as `timestamp` and
/// `timestamp_subsec_nanos` give it; nothing is claimed of which texts it accepts.
#[verifier::external_body]
fn parse_rfc3339(text: &str) -> (r: Option<(i64, u32)>)
    ensures
        r == rfc3339_parts(text@),
{
    match chrono::DateTime::parse_from_rfc3339(text) {
        Ok(t) => Some((t.timestamp(), t.timestamp_subsec_nanos())),
        Err(_) => None,
    }
}

/// The instant that a calendar parser read, in nanoseconds since the epoch: `None`
/// where it read nothing, or an instant beyond the representable range.
pub open spec fn calendar_instant(parts: Option<(i64, u32)>) -> Option<int> {
    match parts {
        Some((secs, subsec)) => {
            let nanos = secs * 1_000_000_000 + subsec;
            if representable(nanos) {
                Some(nanos)
            } else {
                None
            }
        },
        None => None,
    }
}

/// The timestamp that a field stands for, given what each of the three readings
/// made of it. The internet-date reading wins over the ISO reading, and both over
/// the reading as a number of seconds.
pub open spec fn classified(
    rfc2822: Option<(i64, u32)>,
    rfc3339: Option<(i64, u32)>,
    seconds: Option<i64>,
) -> Result<TimestampView, ScriptError> {
    if let Some(at) = calendar_instant(rfc2822) {
        Ok(TimestampView::Absolute(at))
    } else if let Some(at) = calendar_instant(rfc3339) {
        Ok(TimestampView::Absolute(at))
    } else if let Some(d) = seconds {
        Ok(TimestampView::Relative(d as int))
    } else {
        Err(ScriptError::TimestampFormat)
    }
}

/// The timestamp that a field stands for.
pub open spec fn timestamp_of(text: Seq<char>) -> Result<TimestampView, ScriptError> {
    classified(rfc2822_parts(text), rfc3339_parts(text), signed_decimal(text))
}

/// A result of resolution as contracts see it.
pub open spec fn outcome_view(r: Result<Timestamp, ScriptError>) -> Result<
    TimestampView,
    ScriptError,
> {
    match r {
        Ok(t) => Ok(t@),
        Err(e) => Err(e),
    }
}

fn instant_from(parts: Option<(i64, u32)>) -> (r: Option<Instant>)
    ensures
        r is Some <==> calendar_instant(parts) is Some,
        r matches Some(t) ==> calendar_instant(parts) == Some(t@),
{
    match parts {
        Some((secs, subsec)) => Instant::from_parts(secs, subsec),
        None => None,
    }
}

impl Timestamp {
    /// Decides what a field stands for from what each of the three readings made
    /// of it.
    pub fn classify(
        rfc2822: Option<(i64, u32)>,
        rfc3339: Option<(i64, u32)>,
        seconds: Option<i64>,
    ) -> (r: Result<Timestamp, ScriptError>)
        ensures
            outcome_view(r) == classified(rfc2822, rfc3339, seconds),
    {
        if let Some(t) = instant_from(rfc2822) {
            Ok(Timestamp::Absolute(t))
        } else if let Some(t) = instant_from(rfc3339) {
            Ok(Timestamp::Absolute(t))
        } else if let Some(d) = seconds {
            Ok(Timestamp::Relative(d))
        } else {
            Err(ScriptError::TimestampFormat)
        }
    }

    /// Reads a timestamp field.
    ///
    /// The field is an absolute timestamp if it is an internet date or an ISO
    /// date-time, a relative one if it is a signed number of seconds, and is
    /// refused with `TimestampFormat` otherwise.
    pub fn from_str(text: &str) -> (r: Result<Timestamp, ScriptError>)
        ensures
            outcome_view(r) == timestamp_of(text@),
    {
        Timestamp::classify(parse_rfc2822(text), parse_rfc3339(text), parse_seconds(text))
    }
}

/// An absolute timestamp does not depend on which of the two calendar formats
/// wrote it: where a text that reads as an internet date and a text that reads
/// as an ISO date-time give the same instant, the two fields stand for the same
/// timestamp, which is that instant.
pub proof fn lemma_format_does_not_matter(internet: Seq<char>, iso: Seq<char>, parts: (i64, u32))
    requires
        rfc2822_parts(internet) == Some(parts),
        rfc2822_parts(iso) is None,
        rfc3339_parts(iso) == Some(parts),
        representable(parts.0 * 1_000_000_000 + parts.1),
    ensures
        timestamp_of(internet) == timestamp_of(iso),
        timestamp_of(internet) == Ok::<TimestampView, ScriptError>(
            TimestampView::Absolute(parts.0 * 1_000_000_000 + parts.1),
        ),
{
}

} // verus!
