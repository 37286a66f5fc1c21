//! Agenda views: reading a view request, the days a view covers, and which
//! tasks fall within them.
use vstd::prelude::*;
use crate::error::OrgModeError;
use crate::text::{chars_of, string_of, split_char, split_on, views_of, str_eq, concat, concat3, push_char, is_digit, string_views};
use crate::orgdoc::{OrgHeadline, OrgTimestamp, RepeatUnit, parsed_headlines, parse_headlines};
use crate::org_mode::OrgMode;
use crate::config::{spec_unfinished, spec_finished};
use crate::search::take_limit;
use crate::tasks::{AgendaItem, AgendaView, items_view, task_view, opt_strings};
use crate::utils::{spec_tags_match, seq_has_text, tags_match, contains_text};
use crate::capture::opt_sview;
use crate::timestamp::{weekday_of, weekday_index};
use crate::timestamp::{OrgDate, calendar_valid, date_triple, iso_date_of, parse_iso_date, digits_value, all_digits, digit_val, spec_digit, digit_char, days_in_month, ymd_text, push_ymd, lemma_digits_value_mono};

verus! {

/// The value of an unsigned decimal text as `str::parse` reads it: an
/// optional `+`, then one or more ASCII digits.
pub open spec fn unsigned_text(s: Seq<char>) -> Option<nat> {
    let body = if s.len() > 0 && s[0] == '+' { s.skip(1) } else { s };
    if body.len() > 0 && all_digits(body) { Some(digits_value(body)) } else { None }
}

/// Parses an unsigned decimal number of at most `max` (`str::parse` for the
/// unsigned type whose largest value is `max`).
pub fn parse_unsigned(s: &str, max: u64) -> (res: Option<u64>)
    requires
        max <= u32::MAX,
    ensures
        match res {
            Some(v) => unsigned_text(s@) == Some(v as nat) && v <= max,
            None => !(unsigned_text(s@) matches Some(n) && n <= max),
        },
{
    let v = chars_of(s);
    let start: usize = if v.len() > 0 && v[0] == '+' { 1 } else { 0 };
    let ghost body = s@.skip(start as int);
    assert(body =~= (if s@.len() > 0 && s@[0] == '+' { s@.skip(1) } else { s@ }));
    if start >= v.len() {
        return None;
    }
    let mut acc: u64 = 0;
    let mut i = start;
    while i < v.len()
        invariant
            v@ == s@,
            body == s@.skip(start as int),
            start <= i <= v@.len(),
            start < v@.len(),
            forall|k: int| start <= k < i ==> is_digit(#[trigger] v@[k]),
            acc == digits_value(body.take(i - start)),
            acc <= max,
            max <= u32::MAX,
            body =~= (if s@.len() > 0 && s@[0] == '+' { s@.skip(1) } else { s@ }),
        decreases v@.len() - i,
    {
        let c = v[i];
        if !('0' <= c && c <= '9') {
            assert(!is_digit(body[i - start]));
            return None;
        }
        proof {
            let p = body.take(i - start + 1);
            assert(p.drop_last() =~= body.take(i - start));
            assert(p.last() == c);
        }
        acc = acc * 10 + (c as u64 - '0' as u64);
        if acc > max {
            proof { lemma_digits_value_mono(body, i - start + 1); }
            return None;
        }
        i = i + 1;
    }
    proof {
        assert(body.take(v@.len() - start) =~= body);
        assert forall|k: int| 0 <= k < body.len() implies #[trigger] is_digit(body[k]) by {
            assert(body[k] == v@[start + k]);
        }
    }
    Some(acc)
}

/// The decimal text of `n` (`Display` for an unsigned number).
pub open spec fn dec_text(n: nat) -> Seq<char>
    decreases n,
{
    if n < 10 { seq![spec_digit(n)] } else { dec_text(n / 10) + seq![spec_digit(n % 10)] }
}

/// Appends the decimal text of `n`.
pub fn push_decimal(s: &mut String, n: u64)
    ensures
        final(s)@ == old(s)@ + dec_text(n as nat),
    decreases n,
{
    if n < 10 {
        push_char(s, digit_char(n as u32));
    } else {
        push_decimal(s, n / 10);
        push_char(s, digit_char((n % 10) as u32));
    }
}

/// A requested agenda view: a day, a week or a month (the current one or a
/// given one), or a custom range of days.
#[derive(Debug, Clone, Copy, PartialEq, Eq)]
pub enum AgendaViewType {
    Today,
    Day(OrgDate),
    CurrentWeek,
    Week(u8),
    CurrentMonth,
    Month(u32),
    Custom { from: OrgDate, to: OrgDate },
}

impl Default for AgendaViewType {
    fn default() -> (res: AgendaViewType)
        ensures
            res == AgendaViewType::CurrentWeek,
    {
        AgendaViewType::CurrentWeek
    }
}

/// The date a date text names, as `YYYY-MM-DD` parsing reads it.
pub open spec fn date_named(s: Seq<char>, d: OrgDate) -> bool {
    iso_date_of(s) == Some(date_triple(d)) && calendar_valid(d)
}

/// `d1` is a later day than `d2`.
pub open spec fn date_after(d1: OrgDate, d2: OrgDate) -> bool {
    d1.year > d2.year || (d1.year == d2.year && (d1.month > d2.month || (d1.month == d2.month && d1.day > d2.day)))
}

/// The outcome of reading an agenda view request: empty for the default
/// (current week), `today`, `week`, `month`, `day/DATE`, `week/N` (0 to
/// 53), `month/N` (1 to 12), or `query/from/DATE/to/DATE` with the first
/// date not after the second.
pub open spec fn view_read(value: Seq<char>, res: Result<AgendaViewType, OrgModeError>) -> bool {
    let parts = split_on(value, '/');
    if value.len() == 0 {
        res == Ok::<AgendaViewType, OrgModeError>(AgendaViewType::CurrentWeek)
    } else if value == "today"@ {
        res == Ok::<AgendaViewType, OrgModeError>(AgendaViewType::Today)
    } else if value == "week"@ {
        res == Ok::<AgendaViewType, OrgModeError>(AgendaViewType::CurrentWeek)
    } else if value == "month"@ {
        res == Ok::<AgendaViewType, OrgModeError>(AgendaViewType::CurrentMonth)
    } else if parts.len() == 2 && parts[0] == "day"@ {
        if iso_date_of(parts[1]) is Some {
            res matches Ok(AgendaViewType::Day(d)) && date_named(parts[1], d)
        } else {
            res matches Err(OrgModeError::InvalidAgendaViewType(m)) && m@ == "Invalid date format '"@ + parts[1] + "', expected YYYY-MM-DD"@
        }
    } else if parts.len() == 2 && parts[0] == "week"@ {
        match unsigned_text(parts[1]) {
            Some(n) => if n > 255 {
                res matches Err(OrgModeError::InvalidAgendaViewType(m)) && m@ == "Invalid week number '"@ + parts[1] + "', expected 0-53"@
            } else if n > 53 {
                res matches Err(OrgModeError::InvalidAgendaViewType(m)) && m@ == "Week number "@ + dec_text(n) + " out of range, expected 0-53"@
            } else {
                res == Ok::<AgendaViewType, OrgModeError>(AgendaViewType::Week(n as u8))
            },
            None => res matches Err(OrgModeError::InvalidAgendaViewType(m)) && m@ == "Invalid week number '"@ + parts[1] + "', expected 0-53"@,
        }
    } else if parts.len() == 2 && parts[0] == "month"@ {
        match unsigned_text(parts[1]) {
            Some(n) => if n > u32::MAX {
                res matches Err(OrgModeError::InvalidAgendaViewType(m)) && m@ == "Invalid month number '"@ + parts[1] + "', expected 1-12"@
            } else if n < 1 || n > 12 {
                res matches Err(OrgModeError::InvalidAgendaViewType(m)) && m@ == "Month number "@ + dec_text(n) + " out of range, expected 1-12"@
            } else {
                res == Ok::<AgendaViewType, OrgModeError>(AgendaViewType::Month(n as u32))
            },
            None => res matches Err(OrgModeError::InvalidAgendaViewType(m)) && m@ == "Invalid month number '"@ + parts[1] + "', expected 1-12"@,
        }
    } else if parts.len() == 5 && parts[0] == "query"@ && parts[1] == "from"@ && parts[3] == "to"@ {
        if iso_date_of(parts[2]) is None {
            res matches Err(OrgModeError::InvalidAgendaViewType(m)) && m@ == "Invalid from date '"@ + parts[2] + "', expected YYYY-MM-DD"@
        } else if iso_date_of(parts[4]) is None {
            res matches Err(OrgModeError::InvalidAgendaViewType(m)) && m@ == "Invalid to date '"@ + parts[4] + "', expected YYYY-MM-DD"@
        } else {
            exists|f: OrgDate, t: OrgDate| #[trigger] date_named(parts[2], f) && #[trigger] date_named(parts[4], t) && if date_after(f, t) {
                res matches Err(OrgModeError::InvalidAgendaViewType(m)) && m@ == "From date must be before to date"@
            } else {
                res == Ok::<AgendaViewType, OrgModeError>(AgendaViewType::Custom { from: f, to: t })
            }
        }
    } else {
        res matches Err(OrgModeError::InvalidAgendaViewType(m)) && m@ == "Unknown agenda view type format: '"@ + value + "'"@
    }
}

impl OrgMode {
    /// Parses a `YYYY-MM-DD` date of an agenda request; a text that does not
    /// name a calendar date is refused with a message naming `context`.
    pub fn parse_date_string(date_str: &str, context: &str) -> (res: Result<OrgDate, OrgModeError>)
        ensures
            res is Ok <==> iso_date_of(date_str@) is Some,
            res matches Ok(d) ==> date_named(date_str@, d),
            res matches Err(e) ==> e matches OrgModeError::InvalidAgendaViewType(m)
                && m@ == "Invalid "@ + context@ + " '"@ + date_str@ + "', expected YYYY-MM-DD"@,
    {
        match parse_iso_date(date_str) {
            Some(d) => Ok(d),
            None => {
                let mut m = String::from_str("Invalid ");
                m.append(context);
                m.append(" '");
                m.append(date_str);
                m.append("', expected YYYY-MM-DD");
                Err(OrgModeError::InvalidAgendaViewType(m))
            },
        }
    }
}

fn seg_is(seg: &Vec<char>, word: &str) -> (res: bool)
    ensures
        res == (seg@ == word@),
{
    let s = string_of(seg.as_slice());
    str_eq(s.as_str(), word)
}

impl AgendaViewType {
    /// Reads an agenda view request as `view_read` describes, with dates as
    /// calendar days.
    pub fn parse_view(value: &str) -> (res: Result<AgendaViewType, OrgModeError>)
        ensures
            view_read(value@, res),
    {
        proof {
            reveal_strlit("today");
            reveal_strlit("week");
            reveal_strlit("month");
        }
        if value.is_empty() {
            return Ok(AgendaViewType::CurrentWeek);
        }
        if str_eq(value, "today") {
            return Ok(AgendaViewType::Today);
        }
        if str_eq(value, "week") {
            return Ok(AgendaViewType::CurrentWeek);
        }
        if str_eq(value, "month") {
            return Ok(AgendaViewType::CurrentMonth);
        }
        let parts = split_char(value, '/');
        let ghost ps = split_on(value@, '/');
        assert(views_of(parts@) == ps);
        if parts.len() == 2 {
            assert(parts@[0]@ == ps[0] && parts@[1]@ == ps[1]);
            if seg_is(&parts[0], "day") {
                let ds = string_of(parts[1].as_slice());
                proof {
                    reveal_strlit("date format");
                    reveal_strlit("Invalid ");
                    reveal_strlit(" '");
                    reveal_strlit("Invalid date format '");
                    assert("Invalid "@ + "date format"@ + " '"@ =~= "Invalid date format '"@);
                }
                return match OrgMode::parse_date_string(ds.as_str(), "date format") {
                    Ok(d) => Ok(AgendaViewType::Day(d)),
                    Err(e) => Err(e),
                };
            }
            if seg_is(&parts[0], "week") {
                let ws = string_of(parts[1].as_slice());
                return match parse_unsigned(ws.as_str(), 255) {
                    Some(n) => {
                        if n > 53 {
                            let mut m = String::from_str("Week number ");
                            push_decimal(&mut m, n);
                            m.append(" out of range, expected 0-53");
                            Err(OrgModeError::InvalidAgendaViewType(m))
                        } else {
                            Ok(AgendaViewType::Week(n as u8))
                        }
                    },
                    None => Err(OrgModeError::InvalidAgendaViewType(concat3("Invalid week number '", ws.as_str(), "', expected 0-53"))),
                };
            }
            if seg_is(&parts[0], "month") {
                let ms = string_of(parts[1].as_slice());
                return match parse_unsigned(ms.as_str(), 4294967295) {
                    Some(n) => {
                        if n < 1 || n > 12 {
                            let mut m = String::from_str("Month number ");
                            push_decimal(&mut m, n);
                            m.append(" out of range, expected 1-12");
                            Err(OrgModeError::InvalidAgendaViewType(m))
                        } else {
                            Ok(AgendaViewType::Month(n as u32))
                        }
                    },
                    None => Err(OrgModeError::InvalidAgendaViewType(concat3("Invalid month number '", ms.as_str(), "', expected 1-12"))),
                };
            }
        }
        if parts.len() == 5 {
            assert(parts@[0]@ == ps[0] && parts@[1]@ == ps[1] && parts@[2]@ == ps[2] && parts@[3]@ == ps[3] && parts@[4]@ == ps[4]);
            if seg_is(&parts[0], "query") && seg_is(&parts[1], "from") && seg_is(&parts[3], "to") {
                let fs = string_of(parts[2].as_slice());
                proof {
                    reveal_strlit("from date");
                    reveal_strlit("to date");
                    reveal_strlit("Invalid ");
                    reveal_strlit(" '");
                    reveal_strlit("Invalid from date '");
                    reveal_strlit("Invalid to date '");
                    assert("Invalid "@ + "from date"@ + " '"@ =~= "Invalid from date '"@);
                    assert("Invalid "@ + "to date"@ + " '"@ =~= "Invalid to date '"@);
                }
                let from = match OrgMode::parse_date_string(fs.as_str(), "from date") {
                    Ok(d) => d,
                    Err(e) => { return Err(e); },
                };
                let ts = string_of(parts[4].as_slice());
                let to = match OrgMode::parse_date_string(ts.as_str(), "to date") {
                    Ok(d) => d,
                    Err(e) => { return Err(e); },
                };
                assert(date_named(ps[2], from) && date_named(ps[4], to));
                if from.year > to.year || (from.year == to.year && (from.month > to.month || (from.month == to.month && from.day > to.day))) {
                    return Err(OrgModeError::InvalidAgendaViewType(String::from_str("From date must be before to date")));
                }
                return Ok(AgendaViewType::Custom { from, to });
            }
        }
        Err(OrgModeError::InvalidAgendaViewType(concat3("Unknown agenda view type format: '", value, "'")))
    }
}


/// The value of a signed decimal text as `str::parse` reads it: `-` then
/// digits, or an unsigned text.
pub open spec fn signed_text(s: Seq<char>) -> Option<int> {
    if s.len() > 0 && s[0] == '-' {
        let b = s.skip(1);
        if b.len() > 0 && all_digits(b) { Some(-(digits_value(b) as int)) } else { None }
    } else {
        match unsigned_text(s) {
            Some(n) => Some(n as int),
            None => None,
        }
    }
}

/// Parses an `i32` (`str::parse::<i32>`).
pub fn parse_i32(s: &str) -> (res: Option<i32>)
    ensures
        match res {
            Some(v) => signed_text(s@) == Some(v as int),
            None => !(signed_text(s@) matches Some(n) && i32::MIN <= n <= i32::MAX),
        },
{
    let v = chars_of(s);
    if v.len() > 0 && v[0] == '-' {
        let mut rest: Vec<char> = Vec::new();
        let mut i: usize = 1;
        while i < v.len()
            invariant
                v@ == s@,
                1 <= i <= v@.len(),
                rest@ == v@.subrange(1, i as int),
            decreases v@.len() - i,
        {
            rest.push(v[i]);
            proof { assert(rest@ =~= v@.subrange(1, i + 1)); }
            i = i + 1;
        }
        assert(rest@ =~= s@.skip(1));
        if rest.len() > 0 && rest[0] == '+' {
            assert(!is_digit(rest@[0]));
            return None;
        }
        let rs = string_of(rest.as_slice());
        assert(rs@ =~= (if rs@.len() > 0 && rs@[0] == '+' { rs@.skip(1) } else { rs@ }));
        match parse_unsigned(rs.as_str(), 2147483648) {
            Some(n) => Some((0 - (n as i64)) as i32),
            None => None,
        }
    } else {
        match parse_unsigned(s, 2147483647) {
            Some(n) => Some(n as i32),
            None => None,
        }
    }
}

/// A number of days since a fixed epoch, in the proleptic Gregorian
/// calendar: consecutive days get consecutive numbers.
pub open spec fn day_number(d: OrgDate) -> int {
    let y = (if d.month <= 2 { d.year - 1 } else { d.year as int }) + 400000;
    let era = y / 400;
    let yoe = y % 400;
    let mp = if d.month > 2 { d.month - 3 } else { d.month + 9 };
    let doy = (153 * mp + 2) / 5 + d.day - 1;
    let doe = yoe * 365 + yoe / 4 - yoe / 100 + doy;
    era * 146097 + doe
}

/// A moment in minutes since the epoch of `day_number`.
pub open spec fn moment(d: OrgDate, h: int, mi: int) -> int {
    day_number(d) * 1440 + h * 60 + mi
}

fn day_number_of(d: OrgDate) -> (res: u64)
    requires
        calendar_valid(d),
    ensures
        res == day_number(d),
        res <= 1000000000,
{
    let y: u64 = if d.month <= 2 { (d.year as i64 - 1 + 400000) as u64 } else { (d.year as i64 + 400000) as u64 };
    let era = y / 400;
    let yoe = y % 400;
    let mp: u64 = if d.month > 2 { d.month as u64 - 3 } else { d.month as u64 + 9 };
    let doy = (153 * mp + 2) / 5 + d.day as u64 - 1;
    let doe = yoe * 365 + yoe / 4 - yoe / 100 + doy;
    era * 146097 + doe
}

fn moment_of(d: OrgDate, h: u64, mi: u64) -> (res: u64)
    requires
        calendar_valid(d),
        h < 24,
        mi < 60,
    ensures
        res == moment(d, h as int, mi as int),
{
    day_number_of(d) * 1440 + h * 60 + mi
}

/// An hour or minute text as the agenda reads it: its value, or 0 when it
/// is missing or does not parse.
pub open spec fn num_or_zero(o: Option<String>) -> int {
    match o {
        Some(s) => match unsigned_text(s@) {
            Some(n) => if n <= u32::MAX { n as int } else { 0 },
            None => 0,
        },
        None => 0,
    }
}

/// The start of a timestamp as a date, hour and minute; `None` when its
/// date texts do not name a valid date or its time is out of range.
pub open spec fn ts_when(ts: OrgTimestamp) -> Option<(OrgDate, int, int)> {
    if ts.year is Some && ts.month is Some && ts.day is Some {
        let y = signed_text(ts.year->0@);
        let m = unsigned_text(ts.month->0@);
        let d = unsigned_text(ts.day->0@);
        if y is Some && m is Some && d is Some && i32::MIN <= y->0 <= i32::MAX && m->0 <= u32::MAX && d->0 <= u32::MAX {
            let date = OrgDate { year: y->0 as i32, month: m->0 as u32, day: d->0 as u32 };
            let h = num_or_zero(ts.hour);
            let mi = num_or_zero(ts.minute);
            if calendar_valid(date) && h < 24 && mi < 60 { Some((date, h, mi)) } else { None }
        } else {
            None
        }
    } else {
        None
    }
}

fn parse_u32_text(o: &Option<String>) -> (res: Option<u32>)
    ensures
        match res {
            Some(v) => o matches Some(s) && unsigned_text(s@) == Some(v as nat),
            None => !(o matches Some(s) && unsigned_text(s@) matches Some(n) && n <= u32::MAX),
        },
{
    match o {
        Some(s) => match parse_unsigned(s.as_str(), 4294967295) {
            Some(n) => Some(n as u32),
            None => None,
        },
        None => None,
    }
}

fn num_or_zero_of(o: &Option<String>) -> (res: u64)
    ensures
        res == num_or_zero(*o),
{
    match parse_u32_text(o) {
        Some(n) => n as u64,
        None => 0,
    }
}

/// Reads the start of a timestamp, as `ts_when` describes.
pub fn timestamp_when(ts: &OrgTimestamp) -> (res: Option<(OrgDate, u64, u64)>)
    ensures
        match res {
            Some((d, h, mi)) => ts_when(*ts) == Some((d, h as int, mi as int)),
            None => ts_when(*ts) is None,
        },
{
    let y = match &ts.year {
        Some(s) => parse_i32(s.as_str()),
        None => None,
    };
    let m = parse_u32_text(&ts.month);
    let d = parse_u32_text(&ts.day);
    match (y, m, d) {
        (Some(yv), Some(mv), Some(dv)) => {
            let date = OrgDate { year: yv, month: mv, day: dv };
            let h = num_or_zero_of(&ts.hour);
            let mi = num_or_zero_of(&ts.minute);
            if is_calendar_date(date) && h < 24 && mi < 60 { Some((date, h, mi)) } else { None }
        },
        _ => None,
    }
}

/// Whether the date is a valid calendar date in chrono's range.
pub fn is_calendar_date(d: OrgDate) -> (res: bool)
    ensures
        res == calendar_valid(d),
{
    if d.year < -262143 || d.year > 262142 || d.month < 1 || d.month > 12 || d.day < 1 {
        return false;
    }
    d.day as u64 <= month_length(d.year, d.month)
}

/// The number of days of a month.
pub fn month_length(y: i32, m: u32) -> (res: u64)
    requires
        1 <= m <= 12,
    ensures
        res == days_in_month(y as int, m as int),
{
    if m == 2 {
        let leap = (y % 4 == 0 && y % 100 != 0) || y % 400 == 0;
        assert(leap == crate::timestamp::is_leap(y as int)) by (nonlinear_arith)
            requires
                leap == ((y % 4 == 0 && y % 100 != 0) || y % 400 == 0),
        ;
        if leap { 29 } else { 28 }
    } else if m == 4 || m == 6 || m == 9 || m == 11 {
        30
    } else {
        31
    }
}

/// The first value `c + k * s` (`k` from 0) not below `lo`; `c` itself when
/// `s` is not positive.
pub open spec fn advance(c: int, s: int, lo: int) -> int
    decreases (if c < lo && s > 0 { lo - c } else { 0 }),
{
    if c < lo && s > 0 { advance(c + s, s, lo) } else { c }
}

/// `d` moved `n` months on, the day capped at the month's length; `None`
/// when `n` exceeds `i32::MAX` or the year leaves chrono's range.
pub open spec fn add_months(d: OrgDate, n: int) -> Option<OrgDate> {
    let total = d.year * 12 + (d.month - 1) + n;
    let y = total / 12;
    let m = total % 12 + 1;
    if n > i32::MAX || y < -262143 || y > 262142 {
        None
    } else {
        let dim = days_in_month(y, m);
        Some(OrgDate { year: y as i32, month: m as u32, day: if d.day > dim { dim as u32 } else { d.day } })
    }
}

/// (`d1`, `h1`:`m1`) comes strictly before (`d2`, `h2`:`m2`).
pub open spec fn before(d1: OrgDate, h1: int, m1: int, d2: OrgDate, h2: int, m2: int) -> bool {
    date_after(d2, d1) || (d1 == d2 && (h1 < h2 || (h1 == h2 && m1 < m2)))
}

pub open spec fn month_index(d: OrgDate) -> int {
    d.year * 12 + d.month
}

/// Steps `c` by `n` months while it is before the start of day `lo`;
/// `None` when a step leaves chrono's range before reaching `lo`, or when
/// `n` is 0 and `c` is before `lo` (no step would ever reach it).
pub open spec fn month_advance(c: OrgDate, h: int, mi: int, n: int, lo: OrgDate) -> Option<OrgDate>
    decreases (if before(c, h, mi, lo, 0, 0) && n > 0 && c.month <= 12 { month_index(lo) - month_index(c) + 1 } else { 0 }),
{
    if before(c, h, mi, lo, 0, 0) {
        if n > 0 && c.month <= 12 {
            match add_months(c, n) {
                Some(c2) => {
                    proof {
                        let total = c.year * 12 + (c.month - 1) + n;
                        vstd::arithmetic::div_mod::lemma_fundamental_div_mod(total, 12);
                        assert(month_index(c2) == month_index(c) + n);
                        assert(month_index(c) <= month_index(lo));
                        if before(c2, h, mi, lo, 0, 0) {
                            assert(month_index(c2) <= month_index(lo));
                        }
                    }
                    month_advance(c2, h, mi, n, lo)
                },
                None => None,
            }
        } else {
            None
        }
    } else {
        Some(c)
    }
}


/// Whether a timestamp falls within the days `start` to `end` (from the
/// start of `start` through 23:59 of `end`), as the agenda checks it. A
/// timestamp with a repeater counts by its first repetition at or after the
/// start of `start` (at least one repetition on): hours, days and weeks
/// step by a fixed number of minutes, months and years by calendar months
/// with the day capped at the month's length.
pub open spec fn ts_in_range(ts: OrgTimestamp, start: OrgDate, end: OrgDate) -> bool {
    match ts_when(ts) {
        None => false,
        Some((d, h, mi)) => {
            let lo = moment(start, 0, 0);
            let hi = moment(end, 23, 59);
            if ts.repeater_value is Some && ts.repeater_unit is Some {
                let v = ts.repeater_value->0 as int;
                let u = ts.repeater_unit->0;
                if u == RepeatUnit::Month || u == RepeatUnit::Year {
                    let n = if u == RepeatUnit::Month { v } else { v * 12 };
                    let first = match add_months(d, n) {
                        Some(x) => x,
                        None => d,
                    };
                    match month_advance(first, h, mi, n, start) {
                        Some(c) => !before(c, h, mi, start, 0, 0) && !before(end, 23, 59, c, h, mi),
                        None => false,
                    }
                } else {
                    let step = if u == RepeatUnit::Hour { v * 60 } else if u == RepeatUnit::Day { v * 1440 } else { v * 10080 };
                    let c = advance(moment(d, h, mi) + step, step, lo);
                    lo <= c && c <= hi
                }
            } else {
                lo <= moment(d, h, mi) && moment(d, h, mi) <= hi
            }
        },
    }
}

fn add_months_of(d: OrgDate, n: u64) -> (res: Option<OrgDate>)
    requires
        calendar_valid(d),
    ensures
        match res {
            Some(x) => add_months(d, n as int) == Some(x) && calendar_valid(x),
            None => add_months(d, n as int) is None,
        },
{
    if n > 2147483647 {
        return None;
    }
    let total: i64 = d.year as i64 * 12 + (d.month as i64 - 1) + n as i64;
    let tp: u64 = (total + 4800000) as u64;
    let q = tp / 12;
    let r = tp % 12;
    proof {
        vstd::arithmetic::div_mod::lemma_fundamental_div_mod_converse(total as int, 12, q - 400000, r as int);
    }
    let y: i64 = q as i64 - 400000;
    if y < -262143 || y > 262142 {
        return None;
    }
    let m: u32 = (r + 1) as u32;
    let dim = month_length(y as i32, m);
    let day: u32 = if d.day as u64 > dim { dim as u32 } else { d.day };
    Some(OrgDate { year: y as i32, month: m, day })
}

fn before_exec(d1: OrgDate, h1: u64, m1: u64, d2: OrgDate, h2: u64, m2: u64) -> (res: bool)
    ensures
        res == before(d1, h1 as int, m1 as int, d2, h2 as int, m2 as int),
{
    let after = d2.year > d1.year || (d2.year == d1.year && (d2.month > d1.month || (d2.month == d1.month && d2.day > d1.day)));
    after || (d1.year == d2.year && d1.month == d2.month && d1.day == d2.day && (h1 < h2 || (h1 == h2 && m1 < m2)))
}

fn linear_in_range(t: u64, step: u64, lo: u64, hi: u64) -> (res: bool)
    requires
        t <= 1440000000000,
        lo <= 1440000000000,
        step <= 4294967295 * 10080,
    ensures
        res == (lo <= advance(t + step, step as int, lo as int) && advance(t + step, step as int, lo as int) <= hi),
{
    let mut c = t + step;
    while c < lo && step > 0
        invariant
            c <= 1440000000000 + 4294967295 * 10080,
            lo <= 1440000000000,
            step <= 4294967295 * 10080,
            advance(c as int, step as int, lo as int) == advance(t + step, step as int, lo as int),
        decreases (if c < lo { lo - c } else { 0 }),
    {
        c = c + step;
    }
    lo <= c && c <= hi
}

fn month_in_range(d: OrgDate, h: u64, mi: u64, n: u64, start: OrgDate, end: OrgDate) -> (res: bool)
    requires
        calendar_valid(d),
        calendar_valid(start),
        calendar_valid(end),
    ensures
        res == {
            let first = match add_months(d, n as int) {
                Some(x) => x,
                None => d,
            };
            match month_advance(first, h as int, mi as int, n as int, start) {
                Some(c) => !before(c, h as int, mi as int, start, 0, 0) && !before(end, 23, 59, c, h as int, mi as int),
                None => false,
            }
        },
{
    let ghost first = match add_months(d, n as int) {
        Some(x) => x,
        None => d,
    };
    let mut c = match add_months_of(d, n) {
        Some(x) => x,
        None => d,
    };
    while before_exec(c, h, mi, start, 0, 0)
        invariant
            calendar_valid(c),
            calendar_valid(start),
            first == match add_months(d, n as int) {
                Some(x) => x,
                None => d,
            },
            month_advance(c, h as int, mi as int, n as int, start) == month_advance(first, h as int, mi as int, n as int, start),
        decreases (if before(c, h as int, mi as int, start, 0, 0) { month_index(start) - month_index(c) + 1 } else { 0 }),
    {
        if n == 0 {
            assert(month_advance(c, h as int, mi as int, n as int, start) is None);
            return false;
        }
        match add_months_of(c, n) {
            Some(c2) => {
                proof {
                    let total = c.year * 12 + (c.month - 1) + n;
                    vstd::arithmetic::div_mod::lemma_fundamental_div_mod(total, 12);
                    assert(month_index(c2) == month_index(c) + n);
                }
                c = c2;
            },
            None => {
                assert(month_advance(c, h as int, mi as int, n as int, start) is None);
                return false;
            },
        }
    }
    !before_exec(c, h, mi, start, 0, 0) && !before_exec(end, 23, 59, c, h, mi)
}

/// Whether a timestamp falls within the days `start` to `end`, as
/// `ts_in_range` describes.
pub fn timestamp_in_range(ts: &OrgTimestamp, start: OrgDate, end: OrgDate) -> (res: bool)
    requires
        calendar_valid(start),
        calendar_valid(end),
    ensures
        res == ts_in_range(*ts, start, end),
{
    let (d, h, mi) = match timestamp_when(ts) {
        Some(w) => w,
        None => { return false; },
    };
    let lo = moment_of(start, 0, 0);
    let hi = moment_of(end, 23, 59);
    let t = moment_of(d, h, mi);
    match (ts.repeater_value, ts.repeater_unit) {
        (Some(v), Some(u)) => {
            if u == RepeatUnit::Month || u == RepeatUnit::Year {
                let n: u64 = if u == RepeatUnit::Month { v as u64 } else { v as u64 * 12 };
                month_in_range(d, h, mi, n, start, end)
            } else {
                let step: u64 = if u == RepeatUnit::Hour { v as u64 * 60 } else if u == RepeatUnit::Day { v as u64 * 1440 } else { v as u64 * 10080 };
                linear_in_range(t, step, lo, hi)
            }
        },
        _ => lo <= t && t <= hi,
    }
}


/// Where a headline's own content ends: at its first sub-headline (the
/// next headline, when it starts inside this one), else at its end.
pub open spec fn own_end(hs: Seq<OrgHeadline>, i: int) -> int {
    if i + 1 < hs.len() && hs[i + 1].start < hs[i].end { hs[i + 1].start as int } else { hs[i].end as int }
}

/// Timestamp `t` of headline `h` counts for the agenda on its own: it lies
/// in the headline's own content (before `limit`), is active, and is not
/// the headline's SCHEDULED or DEADLINE timestamp.
pub open spec fn own_active(h: OrgHeadline, t: OrgTimestamp, limit: int) -> bool {
    &&& t.start < limit
    &&& t.active
    &&& !(h.scheduled_ts matches Some(s) && s.start == t.start)
    &&& !(h.deadline_ts matches Some(dl) && dl.start == t.start)
}

/// Headline `h` (own content before `limit`) falls within the days `start`
/// to `end`: by its SCHEDULED or DEADLINE timestamp, or by one of its own
/// active timestamps.
pub open spec fn headline_in_range(h: OrgHeadline, limit: int, start: OrgDate, end: OrgDate) -> bool {
    ||| (h.scheduled_ts matches Some(t) && ts_in_range(t, start, end))
    ||| (h.deadline_ts matches Some(t) && ts_in_range(t, start, end))
    ||| exists|k: int| 0 <= k < h.timestamps@.len() && own_active(h, #[trigger] h.timestamps@[k], limit) && ts_in_range(h.timestamps@[k], start, end)
}

impl OrgMode {
    /// Whether headline `h` (whose own content ends at `limit`) falls within
    /// the days `start` to `end`, as `headline_in_range` describes.
    pub fn is_in_agenda_range(h: &OrgHeadline, limit: usize, start: OrgDate, end: OrgDate) -> (res: bool)
        requires
            calendar_valid(start),
            calendar_valid(end),
        ensures
            res == headline_in_range(*h, limit as int, start, end),
    {
        let sched_ok = match &h.scheduled_ts {
            Some(t) => timestamp_in_range(t, start, end),
            None => false,
        };
        if sched_ok {
            return true;
        }
        let dl_ok = match &h.deadline_ts {
            Some(t) => timestamp_in_range(t, start, end),
            None => false,
        };
        if dl_ok {
            return true;
        }
        let mut k: usize = 0;
        while k < h.timestamps.len()
            invariant
                k <= h.timestamps@.len(),
                calendar_valid(start),
                calendar_valid(end),
                forall|j: int| 0 <= j < k ==> !(own_active(*h, #[trigger] h.timestamps@[j], limit as int) && ts_in_range(h.timestamps@[j], start, end)),
            decreases h.timestamps@.len() - k,
        {
            let t = &h.timestamps[k];
            let is_sched = match &h.scheduled_ts {
                Some(s) => s.start == t.start,
                None => false,
            };
            let is_dl = match &h.deadline_ts {
                Some(dl) => dl.start == t.start,
                None => false,
            };
            if t.start < limit && t.active && !is_sched && !is_dl && timestamp_in_range(t, start, end) {
                return true;
            }
            k = k + 1;
        }
        false
    }
}

/// The day after `d`.
pub open spec fn next_day(d: OrgDate) -> OrgDate {
    if (d.day as int) < days_in_month(d.year as int, d.month as int) {
        OrgDate { year: d.year, month: d.month, day: (d.day + 1) as u32 }
    } else if d.month < 12 {
        OrgDate { year: d.year, month: (d.month + 1) as u32, day: 1 }
    } else {
        OrgDate { year: (d.year + 1) as i32, month: 1, day: 1 }
    }
}

/// The day before `d`.
pub open spec fn prev_day(d: OrgDate) -> OrgDate {
    if d.day > 1 {
        OrgDate { year: d.year, month: d.month, day: (d.day - 1) as u32 }
    } else if d.month > 1 {
        OrgDate { year: d.year, month: (d.month - 1) as u32, day: days_in_month(d.year as int, d.month - 1) as u32 }
    } else {
        OrgDate { year: (d.year - 1) as i32, month: 12, day: 31 }
    }
}

/// `n` days after `d`.
pub open spec fn days_later(d: OrgDate, n: nat) -> OrgDate
    decreases n,
{
    if n == 0 { d } else { next_day(days_later(d, (n - 1) as nat)) }
}

/// `n` days before `d`.
pub open spec fn days_earlier(d: OrgDate, n: nat) -> OrgDate
    decreases n,
{
    if n == 0 { d } else { prev_day(days_earlier(d, (n - 1) as nat)) }
}

proof fn lemma_days_later_valid(d: OrgDate, n: nat)
    requires
        calendar_valid(d),
        d.year + n <= 262142,
    ensures
        calendar_valid(days_later(d, n)),
        days_later(d, n).year <= d.year + n,
    decreases n,
{
    if n > 0 {
        lemma_days_later_valid(d, (n - 1) as nat);
    }
}

proof fn lemma_days_earlier_valid(d: OrgDate, n: nat)
    requires
        calendar_valid(d),
        d.year - n >= -262143,
    ensures
        calendar_valid(days_earlier(d, n)),
        days_earlier(d, n).year >= d.year - n,
        days_earlier(d, n).year <= d.year,
    decreases n,
{
    if n > 0 {
        lemma_days_earlier_valid(d, (n - 1) as nat);
    }
}

fn next_day_of(d: OrgDate) -> (res: OrgDate)
    requires
        calendar_valid(d),
        d.year < 262142 || !(d.month == 12 && d.day == 31),
    ensures
        res == next_day(d),
        calendar_valid(res),
{
    if (d.day as u64) < month_length(d.year, d.month) {
        OrgDate { year: d.year, month: d.month, day: d.day + 1 }
    } else if d.month < 12 {
        OrgDate { year: d.year, month: d.month + 1, day: 1 }
    } else {
        OrgDate { year: d.year + 1, month: 1, day: 1 }
    }
}

fn prev_day_of(d: OrgDate) -> (res: OrgDate)
    requires
        calendar_valid(d),
        d.year > -262143,
    ensures
        res == prev_day(d),
        calendar_valid(res),
{
    if d.day > 1 {
        OrgDate { year: d.year, month: d.month, day: d.day - 1 }
    } else if d.month > 1 {
        let l = month_length(d.year, d.month - 1);
        OrgDate { year: d.year, month: d.month - 1, day: l as u32 }
    } else {
        OrgDate { year: d.year - 1, month: 12, day: 31 }
    }
}

fn days_later_of(d: OrgDate, n: u64) -> (res: OrgDate)
    requires
        calendar_valid(d),
        d.year + n <= 262142,
    ensures
        res == days_later(d, n as nat),
        calendar_valid(res),
{
    let mut c = d;
    let mut i: u64 = 0;
    while i < n
        invariant
            i <= n,
            calendar_valid(d),
            d.year + n <= 262142,
            c == days_later(d, i as nat),
        decreases n - i,
    {
        proof { lemma_days_later_valid(d, i as nat); }
        c = next_day_of(c);
        i = i + 1;
    }
    proof { lemma_days_later_valid(d, n as nat); }
    c
}

fn days_earlier_of(d: OrgDate, n: u64) -> (res: OrgDate)
    requires
        calendar_valid(d),
        d.year - n >= -262143,
    ensures
        res == days_earlier(d, n as nat),
        calendar_valid(res),
        res.year <= d.year,
{
    let mut c = d;
    let mut i: u64 = 0;
    while i < n
        invariant
            i <= n,
            calendar_valid(d),
            d.year - n >= -262143,
            c == days_earlier(d, i as nat),
        decreases n - i,
    {
        proof { lemma_days_earlier_valid(d, i as nat); }
        c = prev_day_of(c);
        i = i + 1;
    }
    proof { lemma_days_earlier_valid(d, n as nat); }
    c
}

/// The view's dates are valid calendar days.
pub open spec fn view_valid(v: AgendaViewType) -> bool {
    match v {
        AgendaViewType::Day(d) => calendar_valid(d),
        AgendaViewType::Month(m) => 1 <= m <= 12,
        AgendaViewType::Custom { from, to } => calendar_valid(from) && calendar_valid(to),
        _ => true,
    }
}

/// The Monday of the week of `today`.
pub open spec fn week_monday(today: OrgDate) -> OrgDate {
    days_earlier(today, weekday_of(today.year as int, today.month as int, today.day as int) as nat)
}

/// The first day the view covers, seen from `today`.
pub open spec fn view_start(v: AgendaViewType, today: OrgDate) -> OrgDate {
    match v {
        AgendaViewType::Today => today,
        AgendaViewType::Day(d) => d,
        AgendaViewType::CurrentWeek => week_monday(today),
        AgendaViewType::Week(n) => days_later(OrgDate { year: today.year, month: 1, day: 1 }, 7 * n as nat),
        AgendaViewType::CurrentMonth => OrgDate { year: today.year, month: today.month, day: 1 },
        AgendaViewType::Month(m) => OrgDate { year: today.year, month: m, day: 1 },
        AgendaViewType::Custom { from, to } => from,
    }
}

/// The last day the view covers, seen from `today`.
pub open spec fn view_end(v: AgendaViewType, today: OrgDate) -> OrgDate {
    match v {
        AgendaViewType::Today => today,
        AgendaViewType::Day(d) => d,
        AgendaViewType::CurrentWeek => days_later(week_monday(today), 6),
        AgendaViewType::Week(n) => days_later(OrgDate { year: today.year, month: 1, day: 1 }, (7 * n + 6) as nat),
        AgendaViewType::CurrentMonth => OrgDate { year: today.year, month: today.month, day: days_in_month(today.year as int, today.month as int) as u32 },
        AgendaViewType::Month(m) => OrgDate { year: today.year, month: m, day: days_in_month(today.year as int, m as int) as u32 },
        AgendaViewType::Custom { from, to } => to,
    }
}

impl AgendaViewType {
    /// The first day the view covers, with `today` as the current day:
    /// today, the given day, the Monday of this week, the day `7 * n` days
    /// after January 1 of this year, the first of this (or the given)
    /// month, or the range's first day.
    /// `today` must lie some way inside chrono's years (-262143 to 262142):
    /// the week arithmetic steps up to a year's worth of days from it, and
    /// the bound of ±260000 years leaves that room.
    pub fn start_date(&self, today: OrgDate) -> (res: OrgDate)
        requires
            calendar_valid(today),
            -260000 <= today.year <= 260000,
            view_valid(*self),
        ensures
            res == view_start(*self, today),
            calendar_valid(res),
    {
        match *self {
            AgendaViewType::Today => today,
            AgendaViewType::Day(d) => d,
            AgendaViewType::CurrentWeek => {
                let wd = weekday_index(today);
                days_earlier_of(today, wd as u64)
            },
            AgendaViewType::Week(n) => days_later_of(OrgDate { year: today.year, month: 1, day: 1 }, 7 * n as u64),
            AgendaViewType::CurrentMonth => OrgDate { year: today.year, month: today.month, day: 1 },
            AgendaViewType::Month(m) => OrgDate { year: today.year, month: m, day: 1 },
            AgendaViewType::Custom { from, to } => from,
        }
    }

    /// The last day the view covers, with `today` as the current day: today,
    /// the given day, the Sunday of this week, six days after the start of
    /// week `n`, the last day of this (or the given) month, or the range's
    /// last day.
    /// `today` must lie some way inside chrono's years (-262143 to 262142):
    /// the week arithmetic steps up to a year's worth of days from it, and
    /// the bound of ±260000 years leaves that room.
    pub fn end_date(&self, today: OrgDate) -> (res: OrgDate)
        requires
            calendar_valid(today),
            -260000 <= today.year <= 260000,
            view_valid(*self),
        ensures
            res == view_end(*self, today),
            calendar_valid(res),
    {
        match *self {
            AgendaViewType::Today => today,
            AgendaViewType::Day(d) => d,
            AgendaViewType::CurrentWeek => {
                let wd = weekday_index(today);
                let monday = days_earlier_of(today, wd as u64);
                proof { lemma_days_earlier_valid(today, wd as nat); }
                days_later_of(monday, 6)
            },
            AgendaViewType::Week(n) => days_later_of(OrgDate { year: today.year, month: 1, day: 1 }, 7 * n as u64 + 6),
            AgendaViewType::CurrentMonth => last_day_of_month(today),
            AgendaViewType::Month(m) => last_day_of_month(OrgDate { year: today.year, month: m, day: 1 }),
            AgendaViewType::Custom { from, to } => to,
        }
    }
}

/// The last day of the month of `d`.
pub fn last_day_of_month(d: OrgDate) -> (res: OrgDate)
    requires
        calendar_valid(d),
        d.year < 262142 || d.month < 12,
    ensures
        res == (OrgDate { year: d.year, month: d.month, day: days_in_month(d.year as int, d.month as int) as u32 }),
        calendar_valid(res),
{
    let l = month_length(d.year, d.month);
    OrgDate { year: d.year, month: d.month, day: l as u32 }
}

/// `d` moved `n` days on, when no day on the way leaves chrono's range.
pub open spec fn day_step(d: OrgDate, n: nat) -> Option<OrgDate> {
    if forall|j: nat| j <= n ==> #[trigger] days_later(d, j).year <= 262142 {
        Some(days_later(d, n))
    } else {
        None
    }
}

fn day_step_of(d: OrgDate, n: u64) -> (res: Option<OrgDate>)
    requires
        calendar_valid(d),
    ensures
        res == day_step(d, n as nat),
        res matches Some(x) ==> calendar_valid(x),
{
    let mut c = d;
    let mut i: u64 = 0;
    while i < n
        invariant
            i <= n,
            calendar_valid(c),
            c == days_later(d, i as nat),
            forall|j: nat| j <= i ==> #[trigger] days_later(d, j).year <= 262142,
        decreases n - i,
    {
        if c.year == 262142 && c.month == 12 && c.day == 31 {
            assert(days_later(d, (i + 1) as nat).year > 262142);
            return None;
        }
        c = next_day_of(c);
        i = i + 1;
        assert forall|j: nat| j <= i implies #[trigger] days_later(d, j).year <= 262142 by {
            if j == i {
                assert(calendar_valid(c));
            }
        }
    }
    Some(c)
}

/// Where a repeater of `value` `unit`s moves the moment `d` `h`:`mi`: hours
/// move the time (and the day past midnight), days and weeks move the day,
/// months and years move the month with the day capped at the month's
/// length. A day or month step that would leave chrono's range leaves the
/// moment as it is.
pub open spec fn repeater_step(d: OrgDate, h: int, mi: int, value: int, unit: RepeatUnit) -> (OrgDate, int, int) {
    match unit {
        RepeatUnit::Hour => {
            let t = h + value;
            match day_step(d, (t / 24) as nat) {
                Some(x) => (x, t % 24, mi),
                None => (d, h, mi),
            }
        },
        RepeatUnit::Day => match day_step(d, value as nat) {
            Some(x) => (x, h, mi),
            None => (d, h, mi),
        },
        RepeatUnit::Week => match day_step(d, (7 * value) as nat) {
            Some(x) => (x, h, mi),
            None => (d, h, mi),
        },
        RepeatUnit::Month => match add_months(d, value % 0x1_0000_0000) {
            Some(x) => (x, h, mi),
            None => (d, h, mi),
        },
        RepeatUnit::Year => match add_months(d, (value % 0x1_0000_0000) * 12) {
            Some(x) => (x, h, mi),
            None => (d, h, mi),
        },
    }
}

/// Moves the moment `date` `hour`:`minute` by `value` `unit`s, as
/// `repeater_step` describes. An hour step must stay within chrono's range
/// (beyond it the addition panics), and a year step must count at most
/// `u32::MAX` months.
pub fn add_repeater_duration(date: OrgDate, hour: u32, minute: u32, value: u64, unit: RepeatUnit) -> (res: (OrgDate, u32, u32))
    requires
        calendar_valid(date),
        hour < 24,
        minute < 60,
        unit == RepeatUnit::Hour ==> value <= 2562047788015 && day_step(date, ((hour + value) / 24) as nat) is Some,
        unit == RepeatUnit::Week ==> value * 7 <= u64::MAX,
        unit == RepeatUnit::Year ==> (value % 0x1_0000_0000) * 12 <= u32::MAX,
    ensures
        (res.0, res.1 as int, res.2 as int) == repeater_step(date, hour as int, minute as int, value as int, unit),
        calendar_valid(res.0),
{
    match unit {
        RepeatUnit::Hour => {
            let t: u64 = hour as u64 + value;
            match day_step_of(date, t / 24) {
                Some(x) => (x, (t % 24) as u32, minute),
                None => (date, hour, minute),
            }
        },
        RepeatUnit::Day => match day_step_of(date, value) {
            Some(x) => (x, hour, minute),
            None => (date, hour, minute),
        },
        RepeatUnit::Week => match day_step_of(date, value * 7) {
            Some(x) => (x, hour, minute),
            None => (date, hour, minute),
        },
        RepeatUnit::Month => {
            let n: u32 = value as u32;
            assert(n == value % 0x1_0000_0000) by (bit_vector)
                requires
                    n == value as u32;
            match add_months_of(date, n as u64) {
                Some(x) => (x, hour, minute),
                None => (date, hour, minute),
            }
        },
        RepeatUnit::Year => {
            let n: u32 = value as u32;
            assert(n == value % 0x1_0000_0000) by (bit_vector)
                requires
                    n == value as u32;
            match add_months_of(date, n as u64 * 12) {
                Some(x) => (x, hour, minute),
                None => (date, hour, minute),
            }
        },
    }
}


/// Whether the machine's local time zone has the wall-clock time
/// `hour:minute:second` on day `d` (`chrono::Local.from_local_datetime`
/// gives a single or an ambiguous result). The answer depends on the time
/// zone; nothing is claimed of it.
#[verifier::external_body]
fn local_time_exists(d: OrgDate, hour: u32, minute: u32, second: u32) -> bool
    requires
        calendar_valid(d),
        hour < 24,
        minute < 60,
        second < 60,
{
    let date = chrono::NaiveDate::from_ymd_opt(d.year, d.month, d.day).unwrap();
    let dt = date.and_hms_opt(hour, minute, second).unwrap();
    chrono::TimeZone::from_local_datetime(&chrono::Local, &dt).earliest().is_some()
}

/// The local times tried, in order, to resolve the wall-clock time
/// `h:mi:s` of day `d`: the time itself, then (for a daylight-saving gap)
/// one hour later, which from 23h is `0:mi:s` of the next day, while that
/// day is within chrono's range.
pub open spec fn resolution_probes(d: OrgDate, h: u32, mi: u32, s: u32) -> Seq<(OrgDate, u32, u32, u32)> {
    let first = seq![(d, h, mi, s)];
    if h < 23 {
        first.push((d, (h + 1) as u32, mi, s))
    } else if d.year < 262142 {
        first.push((next_day(d), 0u32, mi, s))
    } else {
        first
    }
}

/// What probing the times `ps` with `exists_at` found: `ok` only when some
/// probe gave `true`, and `!ok` only when every probe gave `false`.
pub open spec fn probes_outcome<F: Fn(OrgDate, u32, u32, u32) -> bool>(exists_at: F, ps: Seq<(OrgDate, u32, u32, u32)>, ok: bool) -> bool {
    &&& ok ==> exists|i: int| 0 <= i < ps.len() && #[trigger] call_ensures(exists_at, ps[i], true)
    &&& !ok ==> forall|i: int| 0 <= i < ps.len() ==> #[trigger] call_ensures(exists_at, ps[i], false)
}

/// A resolution in the machine's local time zone of `h:mi:s` on day `d`
/// came out as `ok`: `local_time_exists` probed over `resolution_probes`.
pub closed spec fn local_outcome(d: OrgDate, h: u32, mi: u32, s: u32, ok: bool) -> bool {
    probes_outcome(local_time_exists, resolution_probes(d, h, mi, s), ok)
}

/// Whether the wall-clock time `hour:minute:second` of day `d` resolves by
/// `exists_at`: the time itself or, failing that, one hour later
/// (`resolution_probes`), stopping at the first that does.
fn local_resolves<F: Fn(OrgDate, u32, u32, u32) -> bool>(exists_at: &F, d: OrgDate, hour: u32, minute: u32, second: u32) -> (res: bool)
    requires
        calendar_valid(d),
        hour < 24,
        minute < 60,
        second < 60,
        forall|i: int| 0 <= i < resolution_probes(d, hour, minute, second).len()
            ==> #[trigger] call_requires(*exists_at, resolution_probes(d, hour, minute, second)[i]),
    ensures
        probes_outcome(*exists_at, resolution_probes(d, hour, minute, second), res),
{
    let ghost ps = resolution_probes(d, hour, minute, second);
    assert(call_requires(*exists_at, ps[0]));
    let first = exists_at(d, hour, minute, second);
    if first {
        assert(call_ensures(*exists_at, ps[0], true));
        return true;
    }
    if hour < 23 {
        assert(call_requires(*exists_at, ps[1]));
        let r = exists_at(d, hour + 1, minute, second);
        assert(call_ensures(*exists_at, ps[1], r));
        proof {
            if r {
                assert(call_ensures(*exists_at, ps[1], true));
            } else {
                assert forall|i: int| 0 <= i < ps.len() implies #[trigger] call_ensures(*exists_at, ps[i], false) by {
                    if i == 1 { assert(call_ensures(*exists_at, ps[1], false)); }
                }
            }
        }
        r
    } else if d.year < 262142 {
        let n = next_day_of(d);
        assert(call_requires(*exists_at, ps[1]));
        let r = exists_at(n, 0, minute, second);
        assert(call_ensures(*exists_at, ps[1], r));
        proof {
            if r {
                assert(call_ensures(*exists_at, ps[1], true));
            } else {
                assert forall|i: int| 0 <= i < ps.len() implies #[trigger] call_ensures(*exists_at, ps[i], false) by {
                    if i == 1 { assert(call_ensures(*exists_at, ps[1], false)); }
                }
            }
        }
        r
    } else {
        assert forall|i: int| 0 <= i < ps.len() implies #[trigger] call_ensures(*exists_at, ps[i], false) by {}
        false
    }
}

/// Resolves `hour:minute:second` of day `d` in the machine's local time zone.
fn resolves_locally(d: OrgDate, hour: u32, minute: u32, second: u32) -> (res: bool)
    requires
        calendar_valid(d),
        hour < 24,
        minute < 60,
        second < 60,
    ensures
        local_outcome(d, hour, minute, second, res),
{
    proof {
        let ps = resolution_probes(d, hour, minute, second);
        assert forall|i: int| 0 <= i < ps.len() implies #[trigger] call_requires(local_time_exists, ps[i]) by {
            if i == 1 && hour == 23 {
                lemma_days_later_valid(d, 1);
            }
        }
    }
    let r = local_resolves(&local_time_exists, d, hour, minute, second);
    r
}

/// The error for a day that does not resolve in the local time zone.
pub open spec fn conversion_message(d: OrgDate) -> Seq<char> {
    "Could not convert date '"@ + ymd_text(d) + "' to local timezone"@
}

/// The request names the day `d`: `day/DATE`, or a date of
/// `query/from/DATE/to/DATE`.
pub open spec fn names_day(value: Seq<char>, d: OrgDate) -> bool {
    let parts = split_on(value, '/');
    ||| (parts.len() == 2 && parts[0] == "day"@ && date_named(parts[1], d))
    ||| (parts.len() == 5 && parts[0] == "query"@ && (date_named(parts[2], d) || date_named(parts[4], d)))
}

fn conversion_error(d: OrgDate) -> (res: OrgModeError)
    requires
        calendar_valid(d),
    ensures
        res matches OrgModeError::InvalidAgendaViewType(m) && m@ == conversion_message(d),
{
    let mut m = String::from_str("Could not convert date '");
    push_ymd(&mut m, d);
    m.append("' to local timezone");
    OrgModeError::InvalidAgendaViewType(m)
}

/// A `day/DATE` request, `DATE` naming the day `d`.
pub open spec fn day_request(value: Seq<char>, d: OrgDate) -> bool {
    let parts = split_on(value, '/');
    &&& value.len() > 0
    &&& value != "today"@
    &&& value != "week"@
    &&& value != "month"@
    &&& parts.len() == 2
    &&& parts[0] == "day"@
    &&& date_named(parts[1], d)
}

/// A `query/from/FROM/to/TO` request whose dates name the days `f` and `t`
/// (in either order).
pub open spec fn range_request(value: Seq<char>, f: OrgDate, t: OrgDate) -> bool {
    let parts = split_on(value, '/');
    &&& value.len() > 0
    &&& value != "today"@
    &&& value != "week"@
    &&& value != "month"@
    &&& parts.len() == 5
    &&& parts[0] == "query"@
    &&& parts[1] == "from"@
    &&& parts[3] == "to"@
    &&& date_named(parts[2], f)
    &&& date_named(parts[4], t)
}

/// What a read view becomes once its days were resolved in the local time
/// zone, `from_ok` for a day (or a range's first day) and `to_ok` for a
/// range's last day: a day that did not resolve is refused (the first day
/// before the last), then a range whose first day comes after its last;
/// other views pass unchanged.
pub open spec fn view_resolution(parsed: AgendaViewType, from_ok: bool, to_ok: bool, res: Result<AgendaViewType, OrgModeError>) -> bool {
    match parsed {
        AgendaViewType::Day(d) => if from_ok {
            res == Ok::<AgendaViewType, OrgModeError>(AgendaViewType::Day(d))
        } else {
            res matches Err(OrgModeError::InvalidAgendaViewType(m)) && m@ == conversion_message(d)
        },
        AgendaViewType::Custom { from, to } => if !from_ok {
            res matches Err(OrgModeError::InvalidAgendaViewType(m)) && m@ == conversion_message(from)
        } else if !to_ok {
            res matches Err(OrgModeError::InvalidAgendaViewType(m)) && m@ == conversion_message(to)
        } else if date_after(from, to) {
            res matches Err(OrgModeError::InvalidAgendaViewType(m)) && m@ == "From date must be before to date"@
        } else {
            res == Ok::<AgendaViewType, OrgModeError>(parsed)
        },
        _ => res == Ok::<AgendaViewType, OrgModeError>(parsed),
    }
}

impl AgendaViewType {
    /// Applies the outcome of resolving a read view's days in the local
    /// time zone, as `view_resolution` describes.
    pub fn resolve_view(parsed: AgendaViewType, from_ok: bool, to_ok: bool) -> (res: Result<AgendaViewType, OrgModeError>)
        requires
            view_valid(parsed),
        ensures
            view_resolution(parsed, from_ok, to_ok, res),
    {
        match parsed {
            AgendaViewType::Day(d) => if from_ok { Ok(parsed) } else { Err(conversion_error(d)) },
            AgendaViewType::Custom { from, to } => {
                if !from_ok {
                    Err(conversion_error(from))
                } else if !to_ok {
                    Err(conversion_error(to))
                } else if from.year > to.year || (from.year == to.year && (from.month > to.month || (from.month == to.month && from.day > to.day))) {
                    Err(OrgModeError::InvalidAgendaViewType(String::from_str("From date must be before to date")))
                } else {
                    Ok(parsed)
                }
            },
            _ => Ok(parsed),
        }
    }
}

impl AgendaViewType {
    /// A `query/from/FROM/to/TO` request split at `/`: both dates are read
    /// and resolved in the local time zone before they are compared.
    fn range_from_parts(value: &str, parts: &Vec<Vec<char>>) -> (res: Result<AgendaViewType, OrgModeError>)
        requires
            views_of(parts@) == split_on(value@, '/'),
            parts@.len() == 5,
            parts@[0]@ == "query"@,
            parts@[1]@ == "from"@,
            parts@[3]@ == "to"@,
            value@.len() > 0,
            value@ != "today"@,
            value@ != "week"@,
            value@ != "month"@,
        ensures
            res is Ok ==> view_read(value@, res),
            res matches Err(e) ==> view_read(value@, res) || (exists|d: OrgDate| #[trigger] names_day(value@, d)
                && (e matches OrgModeError::InvalidAgendaViewType(m) && m@ == conversion_message(d))),
            forall|f: OrgDate, t: OrgDate| #[trigger] range_request(value@, f, t) ==> exists|a: bool, b: bool|
                local_outcome(f, 0, 0, 0, a) && (a ==> local_outcome(t, 23, 59, 59, b))
                && view_resolution(AgendaViewType::Custom { from: f, to: t }, a, b, res),
    {
        let ghost ps = split_on(value@, '/');
        assert(parts@[0]@ == ps[0] && parts@[1]@ == ps[1] && parts@[2]@ == ps[2] && parts@[3]@ == ps[3] && parts@[4]@ == ps[4]);
        proof {
            reveal_strlit("day");
            reveal_strlit("week");
            reveal_strlit("month");
            reveal_strlit("query");
            reveal_strlit("from date");
            reveal_strlit("to date");
            reveal_strlit("Invalid ");
            reveal_strlit(" '");
            reveal_strlit("Invalid from date '");
            reveal_strlit("Invalid to date '");
            assert("Invalid "@ + "from date"@ + " '"@ =~= "Invalid from date '"@);
            assert("Invalid "@ + "to date"@ + " '"@ =~= "Invalid to date '"@);
        }
        let fs = string_of(parts[2].as_slice());
        let from = match OrgMode::parse_date_string(fs.as_str(), "from date") {
            Ok(d) => d,
            Err(e) => { return Err(e); },
        };
        let ts = string_of(parts[4].as_slice());
        let to = match OrgMode::parse_date_string(ts.as_str(), "to date") {
            Ok(d) => d,
            Err(e) => { return Err(e); },
        };
        assert(date_named(ps[2], from) && date_named(ps[4], to));
        assert(names_day(value@, from) && names_day(value@, to));
        let a = resolves_locally(from, 0, 0, 0);
        let b = if a { resolves_locally(to, 23, 59, 59) } else { true };
        let res = Self::resolve_view(AgendaViewType::Custom { from, to }, a, b);
        proof {
            assert forall|f: OrgDate, t: OrgDate| #[trigger] range_request(value@, f, t) implies exists|a2: bool, b2: bool|
                local_outcome(f, 0, 0, 0, a2) && (a2 ==> local_outcome(t, 23, 59, 59, b2))
                && view_resolution(AgendaViewType::Custom { from: f, to: t }, a2, b2, res) by {
                assert(date_triple(f) == date_triple(from));
                assert(date_triple(t) == date_triple(to));
                assert(f == from && t == to);
            }
        }
        res
    }
}

impl AgendaViewType {
    /// Reads an agenda view request as `parse_view` does, resolving its days
    /// in the machine's local time zone (the start of a `day/` day and of a
    /// range's first day, the last second of a range's last day); a day that
    /// does not resolve is refused. A range's dates are resolved before they
    /// are compared.
    pub fn try_from(value: &str) -> (res: Result<AgendaViewType, OrgModeError>)
        ensures
            res is Ok ==> view_read(value@, res),
            res matches Err(e) ==> view_read(value@, res) || (exists|d: OrgDate| #[trigger] names_day(value@, d)
                && (e matches OrgModeError::InvalidAgendaViewType(m) && m@ == conversion_message(d))),
            forall|d: OrgDate| #[trigger] day_request(value@, d) ==> exists|ok: bool|
                local_outcome(d, 0, 0, 0, ok) && view_resolution(AgendaViewType::Day(d), ok, true, res),
            forall|f: OrgDate, t: OrgDate| #[trigger] range_request(value@, f, t) ==> exists|a: bool, b: bool|
                local_outcome(f, 0, 0, 0, a) && (a ==> local_outcome(t, 23, 59, 59, b))
                && view_resolution(AgendaViewType::Custom { from: f, to: t }, a, b, res),
    {
        proof {
            reveal_strlit("today");
            reveal_strlit("week");
            reveal_strlit("month");
            reveal_strlit("day");
            reveal_strlit("query");
        }
        if !value.is_empty() && !str_eq(value, "today") && !str_eq(value, "week") && !str_eq(value, "month") {
            let parts = split_char(value, '/');
            let ghost ps = split_on(value@, '/');
            assert(views_of(parts@) == ps);
            if parts.len() == 5 {
                assert(parts@[0]@ == ps[0] && parts@[1]@ == ps[1] && parts@[2]@ == ps[2] && parts@[3]@ == ps[3] && parts@[4]@ == ps[4]);
                if seg_is(&parts[0], "query") && seg_is(&parts[1], "from") && seg_is(&parts[3], "to") {
                    return Self::range_from_parts(value, &parts);
                }
            }
        }
        let parsed = Self::parse_view(value);
        match parsed {
            Ok(AgendaViewType::Day(d)) => {
                assert(names_day(value@, d));
                let ok = resolves_locally(d, 0, 0, 0);
                let res = Self::resolve_view(AgendaViewType::Day(d), ok, true);
                proof {
                    assert forall|d2: OrgDate| #[trigger] day_request(value@, d2) implies exists|ok2: bool|
                        local_outcome(d2, 0, 0, 0, ok2) && view_resolution(AgendaViewType::Day(d2), ok2, true, res) by {
                        assert(date_triple(d2) == date_triple(d));
                        assert(d2 == d);
                    }
                }
                res
            },
            other => other,
        }
    }
}


/// A headline the agenda shows: a TODO or DONE task with every tag of
/// `tags` and a keyword among `states`.
pub open spec fn agenda_task_ok(h: OrgHeadline, states: Option<Seq<String>>, tags: Option<Seq<String>>) -> bool {
    &&& (h.is_todo || h.is_done)
    &&& (tags matches Some(t) ==> spec_tags_match(h.tags@, t))
    &&& (states matches Some(st) ==> (h.keyword matches Some(k) && seq_has_text(st, k@)))
}

/// The agenda entries among the first `n` headlines of `hs`.
pub open spec fn agenda_in(path: Seq<char>, hs: Seq<OrgHeadline>, states: Option<Seq<String>>, tags: Option<Seq<String>>, start: OrgDate, end: OrgDate, n: nat) -> Seq<(
    Seq<char>,
    Seq<char>,
    usize,
    Option<Seq<char>>,
    Option<Seq<char>>,
    Option<Seq<char>>,
    Option<Seq<char>>,
    Seq<Seq<char>>,
    Option<(u32, u32)>,
)>
    decreases n,
{
    if n == 0 || n > hs.len() {
        Seq::empty()
    } else {
        let r = agenda_in(path, hs, states, tags, start, end, (n - 1) as nat);
        let h = hs[n - 1];
        if agenda_task_ok(h, states, tags) && headline_in_range(h, own_end(hs, n - 1), start, end) {
            r.push(task_view(path, h))
        } else {
            r
        }
    }
}

/// The agenda entries of the first `n` files, file by file.
pub open spec fn agenda_of_files(files: Seq<(String, String)>, todo: Seq<Seq<char>>, done: Seq<Seq<char>>, states: Option<Seq<String>>, tags: Option<Seq<String>>, start: OrgDate, end: OrgDate, n: nat) -> Seq<(
    Seq<char>,
    Seq<char>,
    usize,
    Option<Seq<char>>,
    Option<Seq<char>>,
    Option<Seq<char>>,
    Option<Seq<char>>,
    Seq<Seq<char>>,
    Option<(u32, u32)>,
)>
    decreases n,
{
    if n == 0 || n > files.len() {
        Seq::empty()
    } else {
        let hs = parsed_headlines(files[n - 1].1@, todo, done);
        agenda_of_files(files, todo, done, states, tags, start, end, (n - 1) as nat) + agenda_in(files[n - 1].0@, hs, states, tags, start, end, hs.len())
    }
}

fn agenda_task_matches(h: &OrgHeadline, states: Option<&[String]>, tags: Option<&[String]>) -> (res: bool)
    ensures
        res == agenda_task_ok(*h, opt_strings(states), opt_strings(tags)),
{
    if !(h.is_todo || h.is_done) {
        return false;
    }
    match tags {
        Some(t) => {
            if !tags_match(h.tags.as_slice(), t) {
                return false;
            }
        },
        None => {},
    }
    match states {
        Some(st) => match &h.keyword {
            Some(k) => contains_text(st, k),
            None => false,
        },
        None => true,
    }
}

impl OrgMode {
    /// The agenda view `view` as seen on `today`, over `files` (each a path
    /// relative to the org directory and its content): the TODO and DONE
    /// tasks that carry every tag of `tags`, have a keyword among
    /// `todo_states`, and fall within the view's days, file by file in
    /// document order, cut to `limit`, with the view's first and last day.
    /// `today` must lie some way inside chrono's years (-262143 to 262142):
    /// the week arithmetic steps up to a year's worth of days from it, and
    /// the bound of ±260000 years leaves that room.
    pub fn get_agenda_view(
        &self,
        files: &Vec<(String, String)>,
        view: AgendaViewType,
        todo_states: Option<&[String]>,
        tags: Option<&[String]>,
        limit: Option<usize>,
        today: OrgDate,
    ) -> (res: AgendaView)
        requires
            calendar_valid(today),
            -260000 <= today.year <= 260000,
            view_valid(view),
        ensures
            ({
                let c = self.spec_config();
                let start = view_start(view, today);
                let end = view_end(view, today);
                &&& items_view(res.items@) == take_limit(
                    agenda_of_files(
                        files@,
                        string_views(spec_unfinished(c.org_todo_keywords@)),
                        string_views(spec_finished(c.org_todo_keywords@)),
                        opt_strings(todo_states),
                        opt_strings(tags),
                        start,
                        end,
                        files@.len() as nat,
                    ),
                    limit,
                )
                &&& opt_sview(res.start_date) == Some(ymd_text(start))
                &&& opt_sview(res.end_date) == Some(ymd_text(end))
            }),
    {
        proof { self.lemma_spec_config(); use_type_invariant(self); }
        let start = view.start_date(today);
        let end = view.end_date(today);
        let ghost todo_v = string_views(spec_unfinished(self.spec_config().org_todo_keywords@));
        let ghost done_v = string_views(spec_finished(self.spec_config().org_todo_keywords@));
        let mut out: Vec<AgendaItem> = Vec::new();
        let mut k: usize = 0;
        while k < files.len()
            invariant
                k <= files@.len(),
                calendar_valid(start),
                calendar_valid(end),
                self.spec_config() == self.config,
                self.config.org_todo_keywords@.len() >= 1,
                todo_v == string_views(spec_unfinished(self.config.org_todo_keywords@)),
                done_v == string_views(spec_finished(self.config.org_todo_keywords@)),
                items_view(out@) == agenda_of_files(files@, todo_v, done_v, opt_strings(todo_states), opt_strings(tags), start, end, k as nat),
            decreases files@.len() - k,
        {
            let todo = self.config.unfinished_keywords();
            let done = self.config.finished_keywords();
            let hs = parse_headlines(files[k].1.as_str(), todo, done);
            let ghost begin = items_view(out@);
            let mut i: usize = 0;
            while i < hs.len()
                invariant
                    k < files@.len(),
                    i <= hs@.len(),
                    calendar_valid(start),
                    calendar_valid(end),
                    items_view(out@) == begin + agenda_in(files@[k as int].0@, hs@, opt_strings(todo_states), opt_strings(tags), start, end, i as nat),
                decreases hs@.len() - i,
            {
                let h = &hs[i];
                let limit_at: usize = if i + 1 < hs.len() && hs[i + 1].start < h.end { hs[i + 1].start } else { h.end };
                assert(limit_at == own_end(hs@, i as int));
                if agenda_task_matches(h, todo_states, tags) && Self::is_in_agenda_range(h, limit_at, start, end) {
                    let item = Self::headline_to_agenda_item(h, files[k].0.clone());
                    let ghost before = items_view(out@);
                    out.push(item);
                    proof { assert(items_view(out@) =~= before.push(crate::tasks::item_view(item))); }
                }
                i = i + 1;
            }
            k = k + 1;
        }
        let ghost all = items_view(out@);
        match limit {
            Some(l) => {
                out.truncate(l);
                proof {
                    if (l as int) < all.len() {
                        assert(items_view(out@) =~= all.take(l as int));
                    } else {
                        assert(items_view(out@) =~= all);
                    }
                }
            },
            None => {},
        }
        let mut sd = String::new();
        push_ymd(&mut sd, start);
        let mut ed = String::new();
        push_ymd(&mut ed, end);
        AgendaView { items: out, start_date: Some(sd), end_date: Some(ed) }
    }
}

} // verus!
