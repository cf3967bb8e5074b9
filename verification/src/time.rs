//! Instants, the window of a report, and the days that a report covers.

use vstd::prelude::*;

verus! {

/// An instant: whole seconds since the start of 1970 (UTC), and the
/// nanoseconds that have passed within that second.
#[derive(Clone, Copy, Debug, PartialEq, Eq, Structural)]
pub struct Timestamp {
    pub secs: i64,
    pub nanos: u32,
}

impl Timestamp {
    /// `self` is earlier than `other`: by the seconds, and among equal
    /// seconds by the nanoseconds.
    pub open spec fn lt(self, other: Timestamp) -> bool {
        self.secs < other.secs || (self.secs == other.secs && self.nanos < other.nanos)
    }

    /// Whether `self` is earlier than `other`.
    pub fn is_before(&self, other: &Timestamp) -> (r: bool)
        ensures
            r == self.lt(*other),
    {
        self.secs < other.secs || (self.secs == other.secs && self.nanos < other.nanos)
    }
}

/// Where an instant lies with respect to a window.
#[derive(Clone, Copy, Debug, PartialEq, Eq, Structural)]
pub enum Placement {
    /// Later than the window's end.
    After,
    /// Earlier than the window's start.
    Before,
    Inside,
}

/// The time span of a report. Both bounds belong to it; without an `end` it
/// is open towards the future.
#[derive(Clone, Copy, Debug, PartialEq, Eq, Structural)]
pub struct Window {
    pub start: Timestamp,
    pub end: Option<Timestamp>,
}

impl Window {
    /// Where `t` lies. An instant that is both later than the end and earlier
    /// than the start (of a window that ends before it starts) counts as
    /// `After`.
    pub open spec fn place(self, t: Timestamp) -> Placement {
        if self.end is Some && self.end->0.lt(t) {
            Placement::After
        } else if t.lt(self.start) {
            Placement::Before
        } else {
            Placement::Inside
        }
    }

    /// `t` lies in the window.
    pub open spec fn holds(self, t: Timestamp) -> bool {
        self.place(t) == Placement::Inside
    }

    /// Where `t` lies with respect to the window.
    pub fn placement(&self, t: &Timestamp) -> (p: Placement)
        ensures
            p == self.place(*t),
    {
        let late = match &self.end {
            Some(end) => end.is_before(t),
            None => false,
        };
        if late {
            Placement::After
        } else if t.is_before(&self.start) {
            Placement::Before
        } else {
            Placement::Inside
        }
    }
}

/// At a window's bounds: its start and its end lie in it, whatever is
/// earlier than the start lies before it, and whatever is later than the end
/// lies after it.
pub proof fn lemma_window_bounds(w: Window, t: Timestamp)
    ensures
        t.lt(w.start) ==> !w.holds(t),
        w.end is Some && w.end->0.lt(t) ==> w.place(t) == Placement::After,
        t == w.start && !(w.end is Some && w.end->0.lt(t)) ==> w.holds(t),
        w.end == Some(t) && !t.lt(w.start) ==> w.holds(t),
        w.end is None ==> (w.holds(t) <==> !t.lt(w.start)),
{
}

/// The days of a report, each as the number of its day in the proleptic
/// Gregorian calendar (1 January of the year 1 is day 1). The report runs
/// from the starting hour of `first` to the starting hour of `last`.
#[derive(Clone, Copy, Debug, PartialEq, Eq, Structural)]
pub struct ReportDays {
    pub first: i32,
    pub last: i32,
}

/// The day of the week of day number `day`, counted from Monday as 0, as
/// chrono gives it; `None` where chrono has no such date.
pub uninterp spec fn weekday_index(day: i32) -> Option<u32>;

/// chrono's `NaiveDate::from_num_days_from_ce_opt`, then `weekday` and
/// `Weekday::num_days_from_monday` on the date: the day of the week of the
/// day with that number, or `None` for a number outside chrono's range. The
/// contract only gives that result its name.
#[verifier::external_body]
fn weekday_of(day: i32) -> (r: Option<u32>)
    ensures
        r == weekday_index(day),
{
    match chrono::NaiveDate::from_num_days_from_ce_opt(day) {
        Some(date) => Some(chrono::Datelike::weekday(&date).num_days_from_monday()),
        None => None,
    }
}

/// How many days a report reaches back from its last day: three from a
/// Monday (`weekday` 0), so that it covers the weekend, and one otherwise.
pub open spec fn lookback(weekday: u32) -> int {
    if weekday == 0 {
        3
    } else {
        1
    }
}

/// The days of the report whose last day has number `last` and falls on
/// `weekday`; `None` where the first day has no number.
pub open spec fn days_ending(last: int, weekday: u32) -> Option<ReportDays> {
    if i32::MIN <= last - lookback(weekday) && last <= i32::MAX {
        Some(ReportDays { first: (last - lookback(weekday)) as i32, last: last as i32 })
    } else {
        None
    }
}

/// How many days a report reaches back from a last day that falls on
/// `weekday` (counted from Monday as 0).
pub fn lookback_days(weekday: u32) -> (days: i32)
    ensures
        days == lookback(weekday),
{
    if weekday == 0 {
        3
    } else {
        1
    }
}

/// The days of the report whose last day has number `last` and falls on
/// `weekday` (counted from Monday as 0).
pub fn report_days_ending(last: i32, weekday: u32) -> (r: Option<ReportDays>)
    ensures
        r == days_ending(last as int, weekday),
{
    let span: i32 = lookback_days(weekday);
    if last < i32::MIN + span {
        None
    } else {
        Some(ReportDays { first: last - span, last })
    }
}

/// The days of the report that ends `previous_day` days before `today`:
/// `None` where that last day or the first has no number, or chrono has no
/// date for the last.
pub fn report_days(today: i32, previous_day: u32) -> (r: Option<ReportDays>)
    ensures
        r == if today - previous_day < i32::MIN {
            None
        } else {
            match weekday_index((today - previous_day) as i32) {
                Some(weekday) => days_ending(today - previous_day, weekday),
                None => None,
            }
        },
{
    let last: i64 = today as i64 - previous_day as i64;
    if last < i32::MIN as i64 {
        return None;
    }
    let last: i32 = last as i32;
    match weekday_of(last) {
        Some(weekday) => report_days_ending(last, weekday),
        None => None,
    }
}

} // verus!
