//! Dates, times and org timestamps: parsing the ISO input grammar of capture
//! and update requests, and rendering org timestamps and datetree headings.
use vstd::prelude::*;
use crate::text::{chars_of, push_char, string_of, is_ws, char_is_ws, is_digit, split_whitespace, ws_tokens, views_of};
use crate::org_mode::OrgMode;
use crate::error::OrgModeError;

verus! {

/// A calendar date.
#[derive(Debug, Clone, Copy, PartialEq, Eq)]
pub struct OrgDate {
    pub year: i32,
    pub month: u32,
    pub day: u32,
}

/// A time of day to the minute.
#[derive(Debug, Clone, Copy, PartialEq, Eq)]
pub struct OrgTime {
    pub hour: u32,
    pub minute: u32,
}

/// A local date and time to the second.
#[derive(Debug, Clone, Copy, PartialEq, Eq)]
pub struct LocalDateTime {
    pub date: OrgDate,
    pub hour: u32,
    pub minute: u32,
    pub second: u32,
}

/// The date as a (year, month, day) triple.
pub open spec fn date_triple(d: OrgDate) -> (int, int, int) {
    (d.year as int, d.month as int, d.day as int)
}

pub open spec fn is_leap(y: int) -> bool {
    (y % 4 == 0 && y % 100 != 0) || y % 400 == 0
}

pub open spec fn days_in_month(y: int, m: int) -> int {
    if m == 2 {
        if is_leap(y) { 29 } else { 28 }
    } else if m == 4 || m == 6 || m == 9 || m == 11 {
        30
    } else {
        31
    }
}

/// A date of the proleptic Gregorian calendar within the years that
/// `chrono::NaiveDate` represents.
pub open spec fn calendar_valid(d: OrgDate) -> bool {
    &&& -262143 <= d.year <= 262142
    &&& 1 <= d.month <= 12
    &&& 1 <= d.day <= days_in_month(d.year as int, d.month as int)
}

/// What `chrono::NaiveDate::parse_from_str(s, "%Y-%m-%d")` yields for `s`.
pub uninterp spec fn iso_date_of(s: Seq<char>) -> Option<(int, int, int)>;

/// What `chrono::NaiveTime::parse_from_str(s, "%H:%M")` yields for `s`.
pub uninterp spec fn hm_time_of(s: Seq<char>) -> Option<(int, int)>;

/// The weekday of a date, counted from Monday = 0
/// (`Weekday::num_days_from_monday`): consecutive days have consecutive
/// weekdays, and 2024-01-01 was a Monday.
pub open spec fn weekday_of(y: int, m: int, d: int) -> int {
    (crate::agenda::day_number(OrgDate { year: y as i32, month: m as u32, day: d as u32 }) + 2) % 7
}

/// What `format("%Y")` writes for year `y`: years 0 to 9999 as four digits,
/// others with a sign and at least four digits.
pub open spec fn year_text_of(y: int) -> Seq<char> {
    if 0 <= y <= 9999 {
        pad4(y as nat)
    } else if y > 9999 {
        seq!['+'] + crate::agenda::dec_text(y as nat)
    } else if -y < 10000 {
        seq!['-'] + pad4((-y) as nat)
    } else {
        seq!['-'] + crate::agenda::dec_text((-y) as nat)
    }
}

/// Parses `YYYY-MM-DD` with chrono (`NaiveDate::parse_from_str` with
/// `"%Y-%m-%d"`). Claimed: the result is the named parse of `s`, and a parsed
/// date is a valid calendar date (chrono represents only valid dates).
#[verifier::external_body]
pub fn parse_iso_date(s: &str) -> (res: Option<OrgDate>)
    ensures
        res is Some <==> iso_date_of(s@) is Some,
        res matches Some(d) ==> iso_date_of(s@) == Some(date_triple(d)) && calendar_valid(d),
{
    chrono::NaiveDate::parse_from_str(s, "%Y-%m-%d").ok().map(
        |d| OrgDate {
            year: chrono::Datelike::year(&d),
            month: chrono::Datelike::month(&d),
            day: chrono::Datelike::day(&d),
        },
    )
}

/// Parses `HH:MM` with chrono (`NaiveTime::parse_from_str` with `"%H:%M"`).
/// Claimed: the result is the named parse of `s`, with an hour below 24 and a
/// minute below 60.
#[verifier::external_body]
pub fn parse_hm_time(s: &str) -> (res: Option<OrgTime>)
    ensures
        res is Some <==> hm_time_of(s@) is Some,
        res matches Some(t) ==> hm_time_of(s@) == Some((t.hour as int, t.minute as int))
            && t.hour < 24 && t.minute < 60,
{
    chrono::NaiveTime::parse_from_str(s, "%H:%M").ok().map(
        |t| OrgTime { hour: chrono::Timelike::hour(&t), minute: chrono::Timelike::minute(&t) },
    )
}

/// The weekday of a valid date (`NaiveDate::weekday`), Monday = 0. Claimed:
/// the weekday `weekday_of` gives (chrono counts days in the proleptic
/// Gregorian calendar), below 7.
#[verifier::external_body]
pub fn weekday_index(d: OrgDate) -> (res: u32)
    requires
        calendar_valid(d),
    ensures
        res == weekday_of(d.year as int, d.month as int, d.day as int),
        res < 7,
{
    let date = chrono::NaiveDate::from_ymd_opt(d.year, d.month, d.day).unwrap();
    chrono::Datelike::weekday(&date).num_days_from_monday()
}

/// The year as chrono's `%Y` writes it. Claimed: the text `year_text_of`
/// gives (chrono's `write_year`: four digits for 0 to 9999, else a sign and
/// the year zero-padded to four digits).
#[verifier::external_body]
pub fn year_text(y: i32) -> (res: String)
    requires
        -262143 <= y <= 262142,
    ensures
        res@ == year_text_of(y as int),
        0 <= y <= 9999 ==> res@ == pad4(y as nat),
{
    chrono::NaiveDate::from_ymd_opt(y, 1, 1).unwrap().format("%Y").to_string()
}

/// The current local date and time (`chrono::Local::now`). Claimed: a valid
/// date with hour, minute and second in range; which moment is not stated.
#[verifier::external_body]
pub fn local_now() -> (res: LocalDateTime)
    ensures
        calendar_valid(res.date),
        res.hour < 24,
        res.minute < 60,
        res.second < 60,
{
    let n = chrono::Local::now().naive_local();
    LocalDateTime {
        date: OrgDate {
            year: chrono::Datelike::year(&n),
            month: chrono::Datelike::month(&n),
            day: chrono::Datelike::day(&n),
        },
        hour: chrono::Timelike::hour(&n),
        minute: chrono::Timelike::minute(&n),
        second: chrono::Timelike::second(&n),
    }
}

pub open spec fn spec_digit(d: nat) -> char {
    if d == 0 { '0' } else if d == 1 { '1' } else if d == 2 { '2' } else if d == 3 { '3' }
    else if d == 4 { '4' } else if d == 5 { '5' } else if d == 6 { '6' } else if d == 7 { '7' }
    else if d == 8 { '8' } else { '9' }
}

/// `n` (below 100) as two digits.
pub open spec fn pad2(n: nat) -> Seq<char> {
    seq![spec_digit(n / 10), spec_digit(n % 10)]
}

/// `n` (below 10000) as four digits.
pub open spec fn pad4(n: nat) -> Seq<char> {
    seq![spec_digit(n / 1000), spec_digit((n / 100) % 10), spec_digit((n / 10) % 10), spec_digit(n % 10)]
}

pub fn digit_char(d: u32) -> (res: char)
    requires
        d < 10,
    ensures
        res == spec_digit(d as nat),
{
    if d == 0 { '0' } else if d == 1 { '1' } else if d == 2 { '2' } else if d == 3 { '3' }
    else if d == 4 { '4' } else if d == 5 { '5' } else if d == 6 { '6' } else if d == 7 { '7' }
    else if d == 8 { '8' } else { '9' }
}

pub fn push_pad2(s: &mut String, n: u32)
    requires
        n < 100,
    ensures
        final(s)@ == old(s)@ + pad2(n as nat),
{
    push_char(s, digit_char(n / 10));
    push_char(s, digit_char(n % 10));
    assert(final(s)@ =~= old(s)@ + pad2(n as nat));
}

pub open spec fn weekday_abbrev(w: int) -> Seq<char> {
    if w == 0 { "Mon"@ } else if w == 1 { "Tue"@ } else if w == 2 { "Wed"@ } else if w == 3 {
        "Thu"@
    } else if w == 4 { "Fri"@ } else if w == 5 { "Sat"@ } else { "Sun"@ }
}

pub open spec fn weekday_name(w: int) -> Seq<char> {
    if w == 0 { "Monday"@ } else if w == 1 { "Tuesday"@ } else if w == 2 { "Wednesday"@ }
    else if w == 3 { "Thursday"@ } else if w == 4 { "Friday"@ } else if w == 5 { "Saturday"@ }
    else { "Sunday"@ }
}

pub open spec fn month_name(m: int) -> Seq<char> {
    if m == 1 { "January"@ } else if m == 2 { "February"@ } else if m == 3 { "March"@ }
    else if m == 4 { "April"@ } else if m == 5 { "May"@ } else if m == 6 { "June"@ }
    else if m == 7 { "July"@ } else if m == 8 { "August"@ } else if m == 9 { "September"@ }
    else if m == 10 { "October"@ } else if m == 11 { "November"@ } else { "December"@ }
}

fn push_weekday_abbrev(s: &mut String, w: u32)
    ensures
        final(s)@ == old(s)@ + weekday_abbrev(w as int),
{
    if w == 0 { s.append("Mon") } else if w == 1 { s.append("Tue") } else if w == 2 {
        s.append("Wed")
    } else if w == 3 { s.append("Thu") } else if w == 4 { s.append("Fri") } else if w == 5 {
        s.append("Sat")
    } else { s.append("Sun") }
}

fn push_weekday_name(s: &mut String, w: u32)
    ensures
        final(s)@ == old(s)@ + weekday_name(w as int),
{
    if w == 0 { s.append("Monday") } else if w == 1 { s.append("Tuesday") } else if w == 2 {
        s.append("Wednesday")
    } else if w == 3 { s.append("Thursday") } else if w == 4 { s.append("Friday") }
    else if w == 5 { s.append("Saturday") } else { s.append("Sunday") }
}

fn push_month_name(s: &mut String, m: u32)
    ensures
        final(s)@ == old(s)@ + month_name(m as int),
{
    if m == 1 { s.append("January") } else if m == 2 { s.append("February") } else if m == 3 {
        s.append("March")
    } else if m == 4 { s.append("April") } else if m == 5 { s.append("May") } else if m == 6 {
        s.append("June")
    } else if m == 7 { s.append("July") } else if m == 8 { s.append("August") } else if m == 9 {
        s.append("September")
    } else if m == 10 { s.append("October") } else if m == 11 { s.append("November") } else {
        s.append("December")
    }
}

/// `YYYY-MM-DD` as chrono's `%Y-%m-%d` writes it.
pub open spec fn ymd_text(d: OrgDate) -> Seq<char> {
    year_text_of(d.year as int) + seq!['-'] + pad2(d.month as nat) + seq!['-'] + pad2(d.day as nat)
}

pub fn push_ymd(s: &mut String, d: OrgDate)
    requires
        calendar_valid(d),
    ensures
        final(s)@ == old(s)@ + ymd_text(d),
{
    let y = year_text(d.year);
    s.append(y.as_str());
    push_char(s, '-');
    push_pad2(s, d.month);
    push_char(s, '-');
    push_pad2(s, d.day);
    assert(final(s)@ =~= old(s)@ + ymd_text(d));
}


/// Value of an ASCII digit (0 for any other character).
pub open spec fn digit_val(c: char) -> nat {
    if is_digit(c) { (c as int - '0' as int) as nat } else { 0 }
}

/// Decimal value of a digit string.
pub open spec fn digits_value(s: Seq<char>) -> nat
    decreases s.len(),
{
    if s.len() == 0 { 0 } else { digits_value(s.drop_last()) * 10 + digit_val(s.last()) }
}

pub open spec fn all_digits(s: Seq<char>) -> bool {
    forall|i: int| 0 <= i < s.len() ==> #[trigger] is_digit(s[i])
}

/// The units of a repeater or warning count.
pub open spec fn is_unit(c: char) -> bool {
    c == 'h' || c == 'd' || c == 'w' || c == 'm' || c == 'y'
}

/// `N{u}`: a positive decimal count that fits in a `u32`, followed by a unit.
pub open spec fn spec_count_unit(s: Seq<char>) -> bool {
    &&& s.len() >= 2
    &&& is_unit(s.last())
    &&& all_digits(s.drop_last())
    &&& 0 < digits_value(s.drop_last()) <= u32::MAX
}

/// `+N{u}`, `++N{u}` or `.+N{u}`.
pub open spec fn spec_repeater(t: Seq<char>) -> bool {
    if t.len() >= 2 && t[0] == '+' && t[1] == '+' {
        spec_count_unit(t.skip(2))
    } else if t.len() >= 2 && t[0] == '.' && t[1] == '+' {
        spec_count_unit(t.skip(2))
    } else if t.len() >= 1 && t[0] == '+' {
        spec_count_unit(t.skip(1))
    } else {
        false
    }
}

/// `-N{u}`.
pub open spec fn spec_warning(t: Seq<char>) -> bool {
    t.len() >= 1 && t[0] == '-' && spec_count_unit(t.skip(1))
}

pub proof fn lemma_digits_value_mono(s: Seq<char>, i: int)
    requires
        0 <= i <= s.len(),
    ensures
        digits_value(s.take(i)) <= digits_value(s),
    decreases s.len(),
{
    if i < s.len() {
        assert(s.drop_last().take(i) =~= s.take(i));
        lemma_digits_value_mono(s.drop_last(), i);
    } else {
        assert(s.take(i) =~= s);
    }
}

fn count_unit_chars(s: &Vec<char>, from: usize) -> (res: bool)
    requires
        from <= s@.len(),
    ensures
        res == spec_count_unit(s@.skip(from as int)),
{
    let ghost t = s@.skip(from as int);
    let n = s.len() - from;
    if n < 2 {
        return false;
    }
    let unit = s[s.len() - 1];
    if !(unit == 'h' || unit == 'd' || unit == 'w' || unit == 'm' || unit == 'y') {
        return false;
    }
    let end = s.len() - 1;
    let mut v: u64 = 0;
    let mut i = from;
    while i < end
        invariant
            from <= i <= end,
            end == s@.len() - 1,
            t == s@.skip(from as int),
            t.len() >= 2,
            forall|k: int| from <= k < i ==> is_digit(#[trigger] s@[k]),
            v == digits_value(t.drop_last().take(i - from)),
            v <= u32::MAX,
        decreases end - i,
    {
        let c = s[i];
        if !('0' <= c && c <= '9') {
            assert(!is_digit(t.drop_last()[i - from]));
            return false;
        }
        let d = (c as u32 - '0' as u32) as u64;
        proof {
            let p = t.drop_last().take(i - from + 1);
            assert(p.drop_last() =~= t.drop_last().take(i - from));
            assert(p.last() == c);
        }
        v = v * 10 + d;
        if v > u32::MAX as u64 {
            proof {
                lemma_digits_value_mono(t.drop_last(), i - from + 1);
            }
            return false;
        }
        i = i + 1;
    }
    proof {
        assert(t.drop_last().take(end - from) =~= t.drop_last());
        assert forall|k: int| 0 <= k < t.drop_last().len() implies #[trigger] is_digit(t.drop_last()[k]) by {
            assert(t.drop_last()[k] == s@[from + k]);
        }
    }
    v > 0
}

impl OrgMode {
    /// Whether `s` is a repeater or warning count: a positive decimal number
    /// that fits in a `u32` followed by one of `h d w m y`.
    pub fn is_count_unit(s: &str) -> (res: bool)
        ensures
            res == spec_count_unit(s@),
    {
        let v = chars_of(s);
        assert(v@.skip(0) =~= v@);
        count_unit_chars(&v, 0)
    }

    /// Whether `tok` is a repeater: `+N{u}`, `++N{u}` or `.+N{u}`.
    pub fn is_repeater_suffix(tok: &str) -> (res: bool)
        ensures
            res == spec_repeater(tok@),
    {
        let v = chars_of(tok);
        if v.len() >= 2 && v[0] == '+' && v[1] == '+' {
            count_unit_chars(&v, 2)
        } else if v.len() >= 2 && v[0] == '.' && v[1] == '+' {
            count_unit_chars(&v, 2)
        } else if v.len() >= 1 && v[0] == '+' {
            count_unit_chars(&v, 1)
        } else {
            false
        }
    }

    /// Whether `tok` is a warning period: `-N{u}`.
    pub fn is_warning_suffix(tok: &str) -> (res: bool)
        ensures
            res == spec_warning(tok@),
    {
        let v = chars_of(tok);
        if v.len() >= 1 && v[0] == '-' {
            count_unit_chars(&v, 1)
        } else {
            false
        }
    }
}


/// A timestamp given as `YYYY-MM-DD [HH:MM] [repeater] [warning]`.
#[derive(Debug, Clone)]
pub struct ParsedTimestamp {
    pub date: OrgDate,
    pub time: Option<OrgTime>,
    pub repeater: Option<String>,
    pub warning: Option<String>,
}

/// Index of the first repeater / warning token: after the date, and after
/// the time when the second token is one.
pub open spec fn ts_suffix_start(tk: Seq<Seq<char>>) -> int {
    if tk.len() > 1 && hm_time_of(tk[1]) is Some { 2 } else { 1 }
}

/// The token list is a date, an optional time, then repeater and warning
/// tokens in any order, at most one of each.
pub open spec fn ts_grammar_ok(tk: Seq<Seq<char>>) -> bool {
    let st = ts_suffix_start(tk);
    &&& tk.len() >= 1
    &&& iso_date_of(tk[0]) is Some
    &&& forall|i: int| st <= i < tk.len() ==> spec_repeater(#[trigger] tk[i]) || spec_warning(tk[i])
    &&& forall|i: int, j: int|
        st <= i < j < tk.len() ==> !(spec_repeater(#[trigger] tk[i]) && spec_repeater(#[trigger] tk[j]))
    &&& forall|i: int, j: int|
        st <= i < j < tk.len() ==> !(spec_warning(#[trigger] tk[i]) && spec_warning(#[trigger] tk[j]))
}

/// `o` holds the token of `tk` (from index `st`) that `p` accepts, or nothing
/// when `p` accepts none.
pub open spec fn picks(o: Option<String>, tk: Seq<Seq<char>>, st: int, rep: bool) -> bool {
    match o {
        Some(r) => exists|i: int| st <= i < tk.len() && tok_kind(#[trigger] tk[i], rep) && r@ == tk[i],
        None => forall|i: int| st <= i < tk.len() ==> !tok_kind(#[trigger] tk[i], rep),
    }
}

/// A repeater token (`rep`) or a warning token (`!rep`).
pub open spec fn tok_kind(t: Seq<char>, rep: bool) -> bool {
    if rep { spec_repeater(t) } else { spec_warning(t) }
}

/// `ts` is the timestamp that the tokens `tk` denote.
pub open spec fn ts_denotes(ts: ParsedTimestamp, tk: Seq<Seq<char>>) -> bool {
    let st = ts_suffix_start(tk);
    &&& iso_date_of(tk[0]) == Some(date_triple(ts.date))
    &&& calendar_valid(ts.date)
    &&& match ts.time {
        Some(t) => st == 2 && hm_time_of(tk[1]) == Some((t.hour as int, t.minute as int)) && t.hour
            < 24 && t.minute < 60,
        None => st == 1,
    }
    &&& picks(ts.repeater, tk, st, true)
    &&& picks(ts.warning, tk, st, false)
}

proof fn lemma_picks_extend(
    o_old: Option<String>,
    o_new: Option<String>,
    tk: Seq<Seq<char>>,
    st: int,
    i: int,
    rep: bool,
)
    requires
        0 <= st <= i < tk.len(),
        picks(o_old, tk.take(i), st, rep),
        tok_kind(tk[i], rep) ==> o_old is None && (o_new matches Some(s) && s@ == tk[i]),
        !tok_kind(tk[i], rep) ==> o_new == o_old,
    ensures
        picks(o_new, tk.take(i + 1), st, rep),
{
    let a = tk.take(i);
    let b = tk.take(i + 1);
    assert forall|k: int| 0 <= k < i implies b[k] == a[k] by {}
    match o_new {
        Some(r) => {
            if tok_kind(tk[i], rep) {
                assert(tok_kind(b[i], rep) && r@ == b[i]);
            } else {
                let k = choose|k: int| st <= k < a.len() && tok_kind(#[trigger] a[k], rep) && r@ == a[k];
                assert(tok_kind(b[k], rep) && r@ == b[k]);
            }
        },
        None => {
            assert forall|k: int| st <= k < b.len() implies !tok_kind(#[trigger] b[k], rep) by {
                if k < i {
                    assert(!tok_kind(a[k], rep));
                }
            }
        },
    }
}

impl OrgMode {
    /// Parses `YYYY-MM-DD` or `YYYY-MM-DD HH:MM`, optionally followed by a
    /// repeater (`+N{u}`, `++N{u}`, `.+N{u}`) and a warning (`-N{u}`) with
    /// `u` one of `h d w m y`, tokens separated by whitespace.
    pub fn parse_iso_timestamp(field: &str, value: &str) -> (res: Result<ParsedTimestamp, OrgModeError>)
        ensures
            res is Ok <==> ts_grammar_ok(ws_tokens(value@)),
            res matches Ok(ts) ==> ts_denotes(ts, ws_tokens(value@)),
            res matches Err(e) ==> e matches OrgModeError::InvalidTimestamp { field: f, value: v }
                && f@ == field@ && v@ == value@,
    {
        let tokens = split_whitespace(value);
        let ghost tk = ws_tokens(value@);
        assert(tokens@.len() == tk.len());
        if tokens.len() == 0 {
            return Err(Self::invalid_ts(field, value));
        }
        let t0 = string_of(tokens[0].as_slice());
        assert(t0@ == tk[0]);
        let date = match parse_iso_date(t0.as_str()) {
            Some(d) => d,
            None => {
                return Err(Self::invalid_ts(field, value));
            },
        };
        let mut time: Option<OrgTime> = None;
        let mut start: usize = 1;
        if tokens.len() > 1 {
            let t1 = string_of(tokens[1].as_slice());
            assert(t1@ == tk[1]);
            match parse_hm_time(t1.as_str()) {
                Some(t) => {
                    time = Some(t);
                    start = 2;
                },
                None => {},
            }
        }
        assert(start == ts_suffix_start(tk));
        let mut repeater: Option<String> = None;
        let mut warning: Option<String> = None;
        let mut i = start;
        while i < tokens.len()
            invariant
                tk == ws_tokens(value@),
                tokens@.len() == tk.len(),
                views_of(tokens@) == tk,
                start == ts_suffix_start(tk),
                start <= i <= tk.len(),
                forall|k: int| start <= k < i ==> spec_repeater(#[trigger] tk[k]) || spec_warning(tk[k]),
                forall|k: int, l: int|
                    start <= k < l < i ==> !(spec_repeater(#[trigger] tk[k]) && spec_repeater(#[trigger] tk[l])),
                forall|k: int, l: int|
                    start <= k < l < i ==> !(spec_warning(#[trigger] tk[k]) && spec_warning(#[trigger] tk[l])),
                picks(repeater, tk.take(i as int), start as int, true),
                picks(warning, tk.take(i as int), start as int, false),
            decreases tk.len() - i,
        {
            let t = string_of(tokens[i].as_slice());
            assert(t@ == tk[i as int]);
            let ghost old_rep = repeater;
            let ghost old_warn = warning;
            proof {
                assert forall|k: int| start <= k < i implies tk.take(i as int)[k] == tk[k] by {}
            }
            if Self::is_repeater_suffix(t.as_str()) {
                if repeater.is_some() {
                    proof {
                        let r = repeater->0;
                        let k = choose|k: int| start <= k < i && tok_kind(#[trigger] tk.take(i as int)[k], true) && r@ == tk.take(i as int)[k];
                        assert(tk.take(i as int)[k] == tk[k]);
                        assert(spec_repeater(tk[k]) && spec_repeater(tk[i as int]));
                    }
                    return Err(Self::invalid_ts(field, value));
                }
                proof {
                    assert forall|k: int| start <= k < i implies !spec_repeater(#[trigger] tk[k]) by {
                        assert(!tok_kind(tk.take(i as int)[k], true));
                    }
                }
                repeater = Some(t);
            } else if Self::is_warning_suffix(t.as_str()) {
                if warning.is_some() {
                    proof {
                        let r = warning->0;
                        let k = choose|k: int| start <= k < i && tok_kind(#[trigger] tk.take(i as int)[k], false) && r@ == tk.take(i as int)[k];
                        assert(tk.take(i as int)[k] == tk[k]);
                        assert(spec_warning(tk[k]) && spec_warning(tk[i as int]));
                    }
                    return Err(Self::invalid_ts(field, value));
                }
                proof {
                    assert forall|k: int| start <= k < i implies !spec_warning(#[trigger] tk[k]) by {
                        assert(!tok_kind(tk.take(i as int)[k], false));
                    }
                }
                warning = Some(t);
            } else {
                return Err(Self::invalid_ts(field, value));
            }
            proof {
                assert(!(spec_repeater(tk[i as int]) && spec_warning(tk[i as int])));
                lemma_picks_extend(old_rep, repeater, tk, start as int, i as int, true);
                lemma_picks_extend(old_warn, warning, tk, start as int, i as int, false);
            }
            i = i + 1;
        }
        assert(tk.take(tk.len() as int) =~= tk);
        Ok(ParsedTimestamp { date, time, repeater, warning })
    }

    fn invalid_ts(field: &str, value: &str) -> (e: OrgModeError)
        ensures
            e matches OrgModeError::InvalidTimestamp { field: f, value: v } && f@ == field@ && v@
                == value@,
    {
        OrgModeError::InvalidTimestamp { field: String::from_str(field), value: String::from_str(value) }
    }
}


/// A timestamp fit for rendering: a valid date and an in-range time.
pub open spec fn ts_renderable(ts: ParsedTimestamp) -> bool {
    &&& calendar_valid(ts.date)
    &&& (ts.time matches Some(t) ==> t.hour < 24 && t.minute < 60)
}

pub open spec fn opt_suffix(o: Option<String>) -> Seq<char> {
    match o {
        Some(r) => seq![' '] + r@,
        None => Seq::empty(),
    }
}

/// The opening bracket, date and weekday of a rendered timestamp.
pub open spec fn ts_head(d: OrgDate, active: bool) -> Seq<char> {
    seq![if active { '<' } else { '[' }] + ymd_text(d) + seq![' '] + weekday_abbrev(
        weekday_of(d.year as int, d.month as int, d.day as int),
    )
}

pub open spec fn time_part(t: Option<OrgTime>) -> Seq<char> {
    match t {
        Some(t) => seq![' '] + pad2(t.hour as nat) + seq![':'] + pad2(t.minute as nat),
        None => Seq::empty(),
    }
}

/// `<YYYY-MM-DD Dow[ HH:MM][ repeater][ warning]>`, or with square brackets
/// when inactive.
pub open spec fn spec_org_timestamp(ts: ParsedTimestamp, active: bool) -> Seq<char> {
    ts_head(ts.date, active) + time_part(ts.time) + opt_suffix(ts.repeater) + opt_suffix(ts.warning)
        + seq![if active { '>' } else { ']' }]
}

/// The three datetree headings of a date: `YYYY`, `YYYY-MM Month` and
/// `YYYY-MM-DD Weekday`.
pub open spec fn spec_datetree(d: OrgDate) -> Seq<Seq<char>> {
    let y = year_text_of(d.year as int);
    seq![
        y,
        y + seq!['-'] + pad2(d.month as nat) + seq![' '] + month_name(d.month as int),
        ymd_text(d) + seq![' '] + weekday_name(weekday_of(d.year as int, d.month as int, d.day as int)),
    ]
}

fn push_time(s: &mut String, t: Option<OrgTime>)
    requires
        t matches Some(t) ==> t.hour < 24 && t.minute < 60,
    ensures
        final(s)@ == old(s)@ + time_part(t),
{
    match t {
        Some(t) => {
            push_char(s, ' ');
            push_pad2(s, t.hour);
            push_char(s, ':');
            push_pad2(s, t.minute);
            assert(final(s)@ =~= old(s)@ + time_part(Some(t)));
        },
        None => {
            assert(final(s)@ =~= old(s)@ + time_part(t));
        },
    }
}

fn push_opt_suffix(s: &mut String, o: &Option<String>)
    ensures
        final(s)@ == old(s)@ + opt_suffix(*o),
{
    match o {
        Some(r) => {
            push_char(s, ' ');
            s.append(r.as_str());
            assert(final(s)@ =~= old(s)@ + opt_suffix(*o));
        },
        None => {
            assert(final(s)@ =~= old(s)@ + opt_suffix(*o));
        },
    }
}

impl OrgMode {
    /// Renders an org timestamp: active (`<...>`) or inactive (`[...]`).
    pub fn format_org_timestamp(ts: &ParsedTimestamp, active: bool) -> (res: String)
        requires
            ts_renderable(*ts),
        ensures
            res@ == spec_org_timestamp(*ts, active),
    {
        let mut s = String::new();
        push_char(&mut s, if active { '<' } else { '[' });
        push_ymd(&mut s, ts.date);
        push_char(&mut s, ' ');
        push_weekday_abbrev(&mut s, weekday_index(ts.date));
        assert(s@ =~= ts_head(ts.date, active));
        let ghost head = s@;
        push_time(&mut s, ts.time);
        let ghost with_time = s@;
        push_opt_suffix(&mut s, &ts.repeater);
        let ghost with_rep = s@;
        push_opt_suffix(&mut s, &ts.warning);
        let ghost with_warn = s@;
        push_char(&mut s, if active { '>' } else { ']' });
        assert(s@ =~= with_warn + seq![if active { '>' } else { ']' }]);
        s
    }

    /// The datetree headings for `date`: year, year-month with the month's
    /// name, and the full date with the weekday's name.
    pub fn datetree_segments(date: OrgDate) -> (res: Vec<String>)
        requires
            calendar_valid(date),
        ensures
            res@.len() == 3,
            forall|i: int| 0 <= i < 3 ==> #[trigger] res@[i]@ == spec_datetree(date)[i],
    {
        let y = year_text(date.year);
        let mut m = y.clone();
        push_char(&mut m, '-');
        push_pad2(&mut m, date.month);
        push_char(&mut m, ' ');
        push_month_name(&mut m, date.month);
        let mut d = String::new();
        push_ymd(&mut d, date);
        push_char(&mut d, ' ');
        push_weekday_name(&mut d, weekday_index(date));
        let mut v = Vec::new();
        v.push(y);
        v.push(m);
        v.push(d);
        proof {
            assert(v@[1]@ =~= spec_datetree(date)[1]);
            assert(v@[2]@ =~= spec_datetree(date)[2]);
        }
        v
    }
}

} // verus!
