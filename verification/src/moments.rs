//! Moments of the calendar, as seconds and nanoseconds since 1970.

use crate::text::is_digit;
use vstd::prelude::*;

verus! {

/// The last second of the year 9999.
pub const LAST_CALENDAR_SECOND: i64 = 253_402_300_799;

/// A moment: whole seconds since the first of January 1970 in universal time, and
/// the nanoseconds since that second.
#[derive(Clone, Copy, Debug, PartialEq, Eq, Structural)]
pub struct Moment {
    pub seconds: i64,
    pub nanos: u32,
}

impl Moment {
    pub open spec fn wf(self) -> bool {
        self.nanos < 1_000_000_000
    }

    /// The moment in nanoseconds since 1970.
    pub open spec fn total(self) -> int {
        self.seconds * 1_000_000_000 + self.nanos
    }

    /// The moment `offset` nanoseconds later, if it can be said.
    pub fn later(self, offset: u64) -> (moment: Option<Moment>)
        requires
            self.wf(),
        ensures
            match moment {
                Some(after) => after.wf() && after.total() == self.total() + offset,
                None => self.total() + offset >= (i64::MAX + 1) * 1_000_000_000,
            },
    {
        let sum: u64 = self.nanos as u64 + offset % 1_000_000_000;
        let carry: u64 = sum / 1_000_000_000;
        let more: i64 = (offset / 1_000_000_000 + carry) as i64;
        if self.seconds > i64::MAX - more {
            return None;
        }
        Some(Moment { seconds: self.seconds + more, nanos: (sum % 1_000_000_000) as u32 })
    }
}

/// What `chrono` writes for a moment: date and time of day in universal time after
/// RFC 3339, to the millisecond, with a `Z` at the end; nothing for a moment whose
/// year it cannot hold.
pub uninterp spec fn rfc3339_of(seconds: i64, nanos: u32) -> Option<Seq<char>>;

/// A moment after RFC 3339, to the millisecond.
///
/// Calls `chrono::DateTime::from_timestamp` and `to_rfc3339_opts` on what it gives.
/// Claimed: the text depends on the moment alone, and there is one for every moment
/// from 1970 to the end of the year 9999. How the calendar is reckoned is left
/// unsaid.
#[verifier::external_body]
pub(crate) fn rfc3339_millis(seconds: i64, nanos: u32) -> (text: Option<String>)
    requires
        nanos < 1_000_000_000,
    ensures
        match text {
            Some(written) => rfc3339_of(seconds, nanos) == Some(written@),
            None => rfc3339_of(seconds, nanos) is None,
        },
        0 <= seconds <= LAST_CALENDAR_SECOND ==> text is Some,
{
    match chrono::DateTime::from_timestamp(seconds, nanos) {
        Some(moment) => Some(moment.to_rfc3339_opts(chrono::SecondsFormat::Millis, true)),
        None => None,
    }
}

/// A text of this form, in which every `N` stands for a digit and every other character for
/// itself.
pub open spec fn has_form(text: Seq<char>, form: Seq<char>) -> bool {
    &&& text.len() == form.len()
    &&& forall|i: int|
        0 <= i < text.len() ==> if form[i] == 'N' {
            is_digit(#[trigger] text[i])
        } else {
            text[i] == form[i]
        }
}

/// A year as it is written: four digits, or a sign and at least four where it is outside 0
/// to 9999.
pub open spec fn is_year_text(text: Seq<char>) -> bool {
    let signed = text.len() > 0 && (text[0] == '+' || text[0] == '-');
    if signed {
        text.len() >= 5 && forall|i: int| 1 <= i < text.len() ==> is_digit(#[trigger] text[i])
    } else {
        has_form(text, "NNNN"@)
    }
}

/// A year, and a rest of this form behind it.
pub open spec fn is_year_and(text: Seq<char>, form: Seq<char>) -> bool {
    &&& text.len() >= form.len()
    &&& is_year_text(text.take(text.len() - form.len()))
    &&& has_form(text.skip(text.len() - form.len()), form)
}

/// A moment of universal time after RFC 3339: a year, month and day, hour, minute and
/// second, as much of the second as there is in groups of three digits, and the offset.
pub open spec fn is_utc_text(text: Seq<char>) -> bool {
    ||| is_year_and(text, "-NN-NNTNN:NN:NN+00:00"@)
    ||| is_year_and(text, "-NN-NNTNN:NN:NN.NNN+00:00"@)
    ||| is_year_and(text, "-NN-NNTNN:NN:NN.NNNNNN+00:00"@)
    ||| is_year_and(text, "-NN-NNTNN:NN:NN.NNNNNNNNN+00:00"@)
}

/// What the clock says now, written out.
///
/// Calls `chrono::Utc::now` and `to_rfc3339` on what it gives. Claimed: the form of the text,
/// which is the same for every moment. Which moment it is rests on the clock.
#[verifier::external_body]
fn written_now() -> (text: String)
    ensures
        is_utc_text(text@),
{
    chrono::Utc::now().to_rfc3339()
}

/// The moment it is, in universal time.
pub fn utc_now_text() -> (text: String)
    ensures
        is_utc_text(text@),
{
    written_now()
}

/// What the clock says now, in milliseconds since 1970.
///
/// Calls `chrono::Utc::now` and `timestamp_millis` on what it gives. Nothing is claimed of
/// the number: it is whatever the machine's clock shows.
#[verifier::external_body]
pub(crate) fn utc_millis() -> (millis: i64) {
    chrono::Utc::now().timestamp_millis()
}

} // verus!
