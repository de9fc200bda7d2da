//! Calendar entries: choosing which to show and how their times read.
use vstd::prelude::*;
use vstd::string::StringSliceAdditionalSpecFns;
use vstd::utf8::encode_utf8;

use crate::text::{chars_of, spells};

verus! {

/// A local wall-clock time, to the second.
#[derive(Debug, Clone, Copy, PartialEq, Eq, Structural)]
pub struct Stamp {
    pub year: i32,
    pub month: u32,
    pub day: u32,
    pub hour: u32,
    pub minute: u32,
    pub second: u32,
}

pub open spec fn is_leap_year(y: int) -> bool {
    (y % 4 == 0 && y % 100 != 0) || y % 400 == 0
}

pub open spec fn days_in_month(y: int, m: int) -> int {
    if m == 2 {
        if is_leap_year(y) {
            29
        } else {
            28
        }
    } else if m == 4 || m == 6 || m == 9 || m == 11 {
        30
    } else {
        31
    }
}

impl Stamp {
    /// A real calendar date and time of day, in the range of years that
    /// the date library represents.
    pub open spec fn wf(&self) -> bool {
        &&& -262143 <= self.year <= 262142
        &&& 1 <= self.month <= 12
        &&& 1 <= self.day <= days_in_month(self.year as int, self.month as int)
        &&& self.hour < 24
        &&& self.minute < 60
        &&& self.second < 60
    }
}

/// One calendar entry.
#[derive(Debug, Clone)]
pub struct CalendarEvent {
    pub title: String,
    pub start: Stamp,
    pub end: Option<Stamp>,
    pub allday: bool,
}

/// Both times of the entry are well formed.
pub open spec fn event_wf(e: CalendarEvent) -> bool {
    &&& e.start.wf()
    &&& match e.end {
        Some(t) => t.wf(),
        None => true,
    }
}

/// Pattern of a date: weekday, month, zero-padded day ("Sun Jan 05").
pub const DAY_PATTERN: &'static str = "%a %b %d";

/// Pattern of a date and hour: as [`DAY_PATTERN`], then the hour on a
/// twelve-hour clock and AM or PM ("Sun Jan 05 2 PM").
pub const HOUR_PATTERN: &'static str = "%a %b %d %-I %p";

/// What the date library's formatter writes for a wall-clock time and a pattern.
pub uninterp spec fn formatted(
    year: int,
    month: int,
    day: int,
    hour: int,
    minute: int,
    second: int,
    pattern: Seq<char>,
) -> Seq<char>;

/// Relies on chrono's `NaiveDateTime::format` with a strftime pattern: the
/// text depends on the time and the pattern alone. `from_ymd_opt` and
/// `and_hms_opt` accept every well-formed stamp.
#[verifier::external_body]
fn format_stamp(t: &Stamp, pattern: &str) -> (r: String)
    requires
        t.wf(),
        pattern@ == DAY_PATTERN@ || pattern@ == HOUR_PATTERN@,
    ensures
        r@ == formatted(
            t.year as int,
            t.month as int,
            t.day as int,
            t.hour as int,
            t.minute as int,
            t.second as int,
            pattern@,
        ),
{
    let date = chrono::NaiveDate::from_ymd_opt(t.year, t.month, t.day).unwrap();
    date.and_hms_opt(t.hour, t.minute, t.second).unwrap().format(pattern).to_string()
}

/// A stamp written with a pattern.
pub open spec fn stamp_text(t: Stamp, pattern: &str) -> Seq<char> {
    formatted(
        t.year as int,
        t.month as int,
        t.day as int,
        t.hour as int,
        t.minute as int,
        t.second as int,
        pattern@,
    )
}

/// The pattern an entry's times are written with.
pub open spec fn pattern_of(allday: bool) -> &'static str {
    if allday {
        DAY_PATTERN
    } else {
        HOUR_PATTERN
    }
}

/// A time range as text: the start alone, or start and end joined by " - ".
pub open spec fn range_text(start: Seq<char>, end: Option<Seq<char>>) -> Seq<char> {
    match end {
        Some(e) => start + " - "@ + e,
        None => start,
    }
}

/// The time line of an entry: dates alone for an all-day entry, dates with
/// the hour otherwise; the end, when there is one, after " - ".
pub open spec fn event_time_text(e: CalendarEvent) -> Seq<char> {
    let p = pattern_of(e.allday);
    range_text(
        stamp_text(e.start, p),
        match e.end {
            Some(t) => Some(stamp_text(t, p)),
            None => None,
        },
    )
}

/// Joins a formatted start and an optional formatted end into one line.
pub fn join_range(start: String, end: Option<String>) -> (r: String)
    ensures
        r@ == range_text(
            start@,
            match end {
                Some(e) => Some(e@),
                None => None,
            },
        ),
{
    match end {
        Some(e) => {
            let mut s = start;
            s.append(" - ");
            s.append(e.as_str());
            s
        },
        None => start,
    }
}

/// The time line shown under an entry's title.
pub fn event_time_label(e: &CalendarEvent) -> (r: String)
    requires
        event_wf(*e),
    ensures
        r@ == event_time_text(*e),
{
    let p = if e.allday {
        DAY_PATTERN
    } else {
        HOUR_PATTERN
    };
    let start = format_stamp(&e.start, p);
    let end = match e.end {
        Some(t) => Some(format_stamp(&t, p)),
        None => None,
    };
    join_range(start, end)
}

/// The two entries agree in every field.
pub open spec fn same_event(a: CalendarEvent, b: CalendarEvent) -> bool {
    &&& a.title@ == b.title@
    &&& a.start == b.start
    &&& a.end == b.end
    &&& a.allday == b.allday
}

/// The date of `a` is earlier than the date of `b`; times of day are ignored.
pub open spec fn date_before(a: Stamp, b: Stamp) -> bool {
    a.year < b.year || (a.year == b.year && (a.month < b.month || (a.month == b.month && a.day
        < b.day)))
}

/// The entries among the first `k` that are shown: those starting today or
/// later, leaving out one that repeats the entry kept just before it.
pub open spec fn upcoming(evs: Seq<CalendarEvent>, today: Stamp, k: int) -> Seq<CalendarEvent>
    decreases k,
{
    if k <= 0 {
        Seq::empty()
    } else {
        let p = upcoming(evs, today, k - 1);
        let e = evs[k - 1];
        if date_before(e.start, today) || (p.len() > 0 && same_event(p.last(), e)) {
            p
        } else {
            p.push(e)
        }
    }
}

/// The first `n` elements of `s`, or all of them when there are fewer.
pub open spec fn first_n<T>(s: Seq<T>, n: int) -> Seq<T> {
    if n < s.len() {
        s.take(n)
    } else {
        s
    }
}

fn same_stamp(a: &Stamp, b: &Stamp) -> (r: bool)
    ensures
        r == (*a == *b),
{
    a.year == b.year && a.month == b.month && a.day == b.day && a.hour == b.hour && a.minute
        == b.minute && a.second == b.second
}

fn is_same_event(a: &CalendarEvent, b: &CalendarEvent) -> (r: bool)
    ensures
        r == same_event(*a, *b),
{
    let end_eq = match (&a.end, &b.end) {
        (Some(x), Some(y)) => same_stamp(x, y),
        (None, None) => true,
        _ => false,
    };
    a.title == b.title && same_stamp(&a.start, &b.start) && end_eq && a.allday == b.allday
}

/// Whether the date of `a` is earlier than the date of `b`.
pub fn is_date_before(a: &Stamp, b: &Stamp) -> (r: bool)
    ensures
        r == date_before(*a, *b),
{
    a.year < b.year || (a.year == b.year && (a.month < b.month || (a.month == b.month && a.day
        < b.day)))
}

/// The entries to show, in order: those starting on `today` or later, a
/// repeat of the entry just kept left out, at most `max_events` of them.
pub fn select_events(events: &Vec<CalendarEvent>, today: &Stamp, max_events: usize) -> (r: Vec<
    CalendarEvent,
>)
    ensures
        r@ == first_n(upcoming(events@, *today, events@.len() as int), max_events as int),
{
    let ghost evs = events@;
    let mut out: Vec<CalendarEvent> = Vec::new();
    let mut k: usize = 0;
    while k < events.len()
        invariant
            evs == events@,
            k <= evs.len(),
            out@ == upcoming(evs, *today, k as int),
        decreases evs.len() - k,
    {
        let e = &events[k];
        let skip = is_date_before(&e.start, today) || (out.len() > 0 && is_same_event(
            &out[out.len() - 1],
            e,
        ));
        if !skip {
            let copy = CalendarEvent {
                title: e.title.clone(),
                start: e.start,
                end: e.end,
                allday: e.allday,
            };
            assert(copy == *e);
            out.push(copy);
        }
        k = k + 1;
    }
    if max_events < out.len() {
        out.truncate(max_events);
    }
    out
}

/// Pattern of an all-day ICS value ("20250105").
pub const ICS_DAY: &'static str = "%Y%m%d";

/// Pattern of an ICS date-time value to the minute ("20250105T1400").
pub const ICS_MINUTE: &'static str = "%Y%m%dT%H%M";

/// Pattern of an ICS date-time value to the second ("20250105T140000").
pub const ICS_SECOND: &'static str = "%Y%m%dT%H%M%S";

/// Pattern of a UTC-marked ICS date-time value ("20250105T140000Z").
pub const ICS_SECOND_Z: &'static str = "%Y%m%dT%H%M%SZ";

/// What the date library parses from a text as a date with [`ICS_DAY`]:
/// year, month and day, or nothing.
pub uninterp spec fn parsed_day(value: Seq<char>) -> Option<(int, int, int)>;

/// What the date library parses from a text as a date and time with a
/// pattern: year, month, day, hour, minute and second, or nothing.
pub uninterp spec fn parsed_time(value: Seq<char>, pattern: Seq<char>) -> Option<
    (int, int, int, int, int, int),
>;

/// Relies on chrono's `NaiveDate::parse_from_str` with [`ICS_DAY`]: the
/// outcome depends on the text alone, and a date it returns is a real date
/// within chrono's range.
#[verifier::external_body]
fn parse_day(value: &str) -> (r: Option<Stamp>)
    ensures
        match r {
            Some(t) => {
                &&& t.wf()
                &&& t.hour == 0 && t.minute == 0 && t.second == 0
                &&& parsed_day(value@) == Some((t.year as int, t.month as int, t.day as int))
            },
            None => parsed_day(value@) is None,
        },
{
    match chrono::NaiveDate::parse_from_str(value, ICS_DAY) {
        Ok(d) => Some(Stamp {
            year: chrono::Datelike::year(&d),
            month: chrono::Datelike::month(&d),
            day: chrono::Datelike::day(&d),
            hour: 0,
            minute: 0,
            second: 0,
        }),
        Err(_) => None,
    }
}

/// Relies on chrono's `NaiveDateTime::parse_from_str`: the outcome depends
/// on the text and the pattern alone, and a time it returns is a real date
/// within chrono's range with a time of day whose second is below 60.
#[verifier::external_body]
fn parse_time(value: &str, pattern: &str) -> (r: Option<Stamp>)
    ensures
        match r {
            Some(t) => {
                &&& t.wf()
                &&& parsed_time(value@, pattern@) == Some(
                    (
                        t.year as int,
                        t.month as int,
                        t.day as int,
                        t.hour as int,
                        t.minute as int,
                        t.second as int,
                    ),
                )
            },
            None => parsed_time(value@, pattern@) is None,
        },
{
    match chrono::NaiveDateTime::parse_from_str(value, pattern) {
        Ok(d) => Some(Stamp {
            year: chrono::Datelike::year(&d),
            month: chrono::Datelike::month(&d),
            day: chrono::Datelike::day(&d),
            hour: chrono::Timelike::hour(&d),
            minute: chrono::Timelike::minute(&d),
            second: chrono::Timelike::second(&d),
        }),
        Err(_) => None,
    }
}

/// Relies on chrono's `NaiveDateTime::and_local_timezone(Local).single()`:
/// whether the wall-clock time names exactly one instant in the machine's
/// time zone. That depends on the machine, so nothing is stated of it.
#[verifier::external_body]
fn names_one_local_instant(t: &Stamp) -> (r: bool)
    requires
        t.wf(),
{
    let date = chrono::NaiveDate::from_ymd_opt(t.year, t.month, t.day).unwrap();
    let time = date.and_hms_opt(t.hour, t.minute, t.second).unwrap();
    time.and_local_timezone(chrono::Local).single().is_some()
}

/// The pattern for a date-time ICS value of `len` bytes, if any.
pub open spec fn ics_time_pattern(len: int) -> Option<&'static str> {
    if len == 13 {
        Some(ICS_MINUTE)
    } else if len == 15 {
        Some(ICS_SECOND)
    } else if len == 16 {
        Some(ICS_SECOND_Z)
    } else {
        None
    }
}

/// The stamp of a parse result.
pub open spec fn stamp_is(t: Stamp, y: int, mo: int, d: int, h: int, mi: int, s: int) -> bool {
    t.year == y && t.month == mo && t.day == d && t.hour == h && t.minute == mi && t.second == s
}

/// `t` is what the ICS value `v` reads as: a whole day for a value of 8
/// bytes, otherwise a date and time with the pattern its length selects.
pub open spec fn is_ics_reading(v: Seq<char>, t: Stamp) -> bool {
    let n = encode_utf8(v).len() as int;
    &&& t.wf()
    &&& if n == 8 {
        parsed_day(v) == Some((t.year as int, t.month as int, t.day as int)) && t.hour == 0
            && t.minute == 0 && t.second == 0
    } else {
        &&& ics_time_pattern(n) is Some
        &&& parsed_time(v, ics_time_pattern(n)->0@) == Some(
            (
                t.year as int,
                t.month as int,
                t.day as int,
                t.hour as int,
                t.minute as int,
                t.second as int,
            ),
        )
    }
}

/// Reads an ICS date or date-time value as a local wall-clock time. A value
/// of 8 bytes is a whole day (and sets `allday` once it parses); one of 13,
/// 15 or 16 bytes is a date and time; any other length is refused. A time
/// that does not name exactly one local instant is refused too.
pub fn parse_ics_datetime(value: &str, allday: &mut bool) -> (r: Option<Stamp>)
    ensures
        *final(allday) == (*old(allday) || (value.spec_bytes().len() == 8 && parsed_day(value@) is Some)),
        value.spec_bytes().len() != 8 && ics_time_pattern(value.spec_bytes().len() as int) is None ==> r is None,
        match r {
            Some(t) => is_ics_reading(value@, t),
            None => true,
        },
        value.spec_bytes().len() == 8 && parsed_day(value@) is None ==> r is None,
        value.spec_bytes().len() != 8 && ics_time_pattern(value.spec_bytes().len() as int) is Some
            && parsed_time(value@, ics_time_pattern(value.spec_bytes().len() as int)->0@) is None
            ==> r is None,
{
    let len = value.as_bytes().len();
    let parsed = if len == 8 {
        let d = parse_day(value);
        if d.is_some() {
            *allday = true;
        }
        d
    } else {
        let pattern = if len == 13 {
            ICS_MINUTE
        } else if len == 15 {
            ICS_SECOND
        } else if len == 16 {
            ICS_SECOND_Z
        } else {
            return None;
        };
        parse_time(value, pattern)
    };
    match parsed {
        Some(t) => {
            if names_one_local_instant(&t) {
                Some(t)
            } else {
                None
            }
        },
        None => None,
    }
}

/// One property of a calendar entry, as the ICS text gives it.
pub struct IcsProperty {
    pub name: String,
    pub value: Option<String>,
}

/// The value of the last SUMMARY property, if it has one.
pub open spec fn last_summary(ps: Seq<IcsProperty>) -> Option<Seq<char>>
    decreases ps.len(),
{
    if ps.len() == 0 {
        None
    } else if ps.last().name@ == "SUMMARY"@ {
        match ps.last().value {
            Some(v) => Some(v@),
            None => None,
        }
    } else {
        last_summary(ps.drop_last())
    }
}

/// Some DTSTART or DTEND value is a whole day (8 bytes) that parses.
pub open spec fn any_whole_day(ps: Seq<IcsProperty>) -> bool {
    exists|j: int|
        0 <= j < ps.len() && ((#[trigger] ps[j]).name@ == "DTSTART"@ || ps[j].name@ == "DTEND"@)
            && ps[j].value is Some && encode_utf8(ps[j].value->0@).len() == 8 && parsed_day(
            ps[j].value->0@,
        ) is Some
}

/// `t` is what some value of a property named `name` reads as.
pub open spec fn read_from(ps: Seq<IcsProperty>, name: Seq<char>, t: Stamp) -> bool {
    exists|j: int|
        0 <= j < ps.len() && (#[trigger] ps[j]).name@ == name && ps[j].value is Some
            && is_ics_reading(ps[j].value->0@, t)
}

/// The entry the properties of one event describe: the last SUMMARY gives
/// the title, a DTSTART value and a DTEND value (the last that reads as a
/// local time) the start and end, and a whole-day value of either makes it
/// all-day. There is no entry without a title or without a start.
pub fn event_from_properties(props: &Vec<IcsProperty>) -> (r: Option<CalendarEvent>)
    ensures
        last_summary(props@) is None ==> r is None,
        match r {
            Some(e) => {
                &&& last_summary(props@) == Some(e.title@)
                &&& read_from(props@, "DTSTART"@, e.start)
                &&& match e.end {
                    Some(t) => read_from(props@, "DTEND"@, t),
                    None => true,
                }
                &&& e.allday == any_whole_day(props@)
            },
            None => true,
        },
{
    let ghost ps = props@;
    let mut title: Option<String> = None;
    let mut start: Option<Stamp> = None;
    let mut end: Option<Stamp> = None;
    let mut allday = false;
    let mut k: usize = 0;
    while k < props.len()
        invariant
            ps == props@,
            k <= ps.len(),
            match title {
                Some(s) => last_summary(ps.take(k as int)) == Some(s@),
                None => last_summary(ps.take(k as int)) is None,
            },
            allday == any_whole_day(ps.take(k as int)),
            match start {
                Some(t) => read_from(ps.take(k as int), "DTSTART"@, t),
                None => true,
            },
            match end {
                Some(t) => read_from(ps.take(k as int), "DTEND"@, t),
                None => true,
            },
        decreases ps.len() - k,
    {
        let p = &props[k];
        let ghost before = ps.take(k as int);
        let ghost after = ps.take(k + 1);
        assert(after.drop_last() =~= before);
        assert(after.last() == *p);
        assert forall|j: int| 0 <= j < before.len() implies #[trigger] after[j] == before[j] by {}
        let name = chars_of(p.name.as_str());
        let is_summary = spells(&name, "SUMMARY");
        let is_start = spells(&name, "DTSTART");
        let is_end = spells(&name, "DTEND");
        let ghost old_allday = allday;
        if is_summary {
            title = match &p.value {
                Some(v) => Some(v.clone()),
                None => None,
            };
        } else if is_start || is_end {
            match &p.value {
                Some(v) => {
                    let read = parse_ics_datetime(v.as_str(), &mut allday);
                    proof {
                        if allday && !old_allday {
                            assert(after[k as int] == *p);
                            assert(p.value->0@ == v@);
                            assert(any_whole_day(after));
                        }
                    }
                    match read {
                        Some(t) => {
                            if is_start {
                                start = Some(t);
                                assert(after[k as int] == *p);
                            } else {
                                end = Some(t);
                                assert(after[k as int] == *p);
                            }
                        },
                        None => {},
                    }
                },
                None => {},
            }
        }
        proof {
            if any_whole_day(before) {
                let j = choose|j: int|
                    0 <= j < before.len() && ((#[trigger] before[j]).name@ == "DTSTART"@
                        || before[j].name@ == "DTEND"@) && before[j].value is Some && encode_utf8(
                        before[j].value->0@,
                    ).len() == 8 && parsed_day(before[j].value->0@) is Some;
                assert(after[j] == before[j]);
            }
            if any_whole_day(after) && !any_whole_day(before) {
                let j = choose|j: int|
                    0 <= j < after.len() && ((#[trigger] after[j]).name@ == "DTSTART"@
                        || after[j].name@ == "DTEND"@) && after[j].value is Some && encode_utf8(
                        after[j].value->0@,
                    ).len() == 8 && parsed_day(after[j].value->0@) is Some;
                if j < before.len() {
                    assert(before[j] == after[j]);
                } else {
                    assert(after[j] == *p);
                    assert(p.name@ == "DTSTART"@ || p.name@ == "DTEND"@);
                    reveal_strlit("SUMMARY");
                    reveal_strlit("DTSTART");
                    reveal_strlit("DTEND");
                    assert("DTSTART"@[0] != "SUMMARY"@[0]);
                    assert("DTEND"@[0] != "SUMMARY"@[0]);
                    assert(!is_summary);
                    assert(is_start || is_end);
                    assert(allday);
                }
            }
            match start {
                Some(t) => {
                    if read_from(before, "DTSTART"@, t) {
                        let j = choose|j: int|
                            0 <= j < before.len() && (#[trigger] before[j]).name@ == "DTSTART"@
                                && before[j].value is Some && is_ics_reading(before[j].value->0@, t);
                        assert(after[j] == before[j]);
                    }
                },
                None => {},
            }
            match end {
                Some(t) => {
                    if read_from(before, "DTEND"@, t) {
                        let j = choose|j: int|
                            0 <= j < before.len() && (#[trigger] before[j]).name@ == "DTEND"@
                                && before[j].value is Some && is_ics_reading(before[j].value->0@, t);
                        assert(after[j] == before[j]);
                    }
                },
                None => {},
            }
        }
        k = k + 1;
    }
    assert(ps.take(k as int) =~= ps);
    match (title, start) {
        (Some(title), Some(start)) => Some(CalendarEvent { title, start, end, allday }),
        _ => None,
    }
}

} // verus!
