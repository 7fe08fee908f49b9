//! The trading calendar: which days of a month the market opens, and the
//! calendar rows planned from them.

use vstd::prelude::*;
use chrono::{Datelike, Timelike};
use crate::fmt::{zero_padded, zero_padded_chars, zero_padded_string};
use crate::records::{NewCalendarData, SecurityPrice};
use crate::text::{chars_of, has_prefix, lex_less, lex_less_chars, push_chars, starts_with_chars, string_from_chars};

verus! {

/// First year `NaiveDate` holds.
pub open spec fn min_year() -> int {
    -262143
}

/// Last year `NaiveDate` holds.
pub open spec fn max_year() -> int {
    262142
}

/// Leap years of the proleptic Gregorian calendar.
pub open spec fn is_leap(y: int) -> bool {
    (y % 4 == 0 && y % 100 != 0) || y % 400 == 0
}

/// Number of days of month `m` of year `y`.
pub open spec fn days_in_month(y: int, m: int) -> int {
    if m == 2 {
        if is_leap(y) { 29 } else { 28 }
    } else if m == 4 || m == 6 || m == 9 || m == 11 {
        30
    } else {
        31
    }
}

/// A calendar date that `NaiveDate` holds.
pub open spec fn valid_date(y: int, m: int, d: int) -> bool {
    min_year() <= y <= max_year() && 1 <= m <= 12 && 1 <= d <= days_in_month(y, m)
}

/// The day before a date.
pub open spec fn previous_day(y: int, m: int, d: int) -> (int, int, int) {
    if d > 1 {
        (y, m, d - 1)
    } else if m > 1 {
        (y, m - 1, days_in_month(y, m - 1))
    } else {
        (y - 1, 12, 31)
    }
}

/// The date and the day before it are both dates `NaiveDate` holds.
pub open spec fn has_previous_day(y: int, m: int, d: int) -> bool {
    let p = previous_day(y, m, d);
    valid_date(y, m, d) && valid_date(p.0, p.1, p.2)
}

/// Offsets of the months in the weekday computation.
pub open spec fn month_offset(m: int) -> int {
    if m == 1 { 0 } else if m == 2 { 3 } else if m == 3 { 2 } else if m == 4 { 5 }
    else if m == 5 { 0 } else if m == 6 { 3 } else if m == 7 { 5 } else if m == 8 { 1 }
    else if m == 9 { 4 } else if m == 10 { 6 } else if m == 11 { 2 } else { 4 }
}

/// Day of the week of a Gregorian date, numbered from Monday = 1 to Sunday = 7.
pub open spec fn weekday_number(y: int, m: int, d: int) -> int {
    let yy = if m < 3 { y - 1 } else { y };
    let dow = (yy + yy / 4 - yy / 100 + yy / 400 + month_offset(m) + d) % 7;
    if dow == 0 { 7 } else { dow }
}

/// `NaiveDate::from_ymd_opt(y, m, d)` then `weekday().number_from_monday()`.
/// Claimed: a value exactly for the dates `NaiveDate` holds, and it is the
/// Gregorian day of the week (Monday = 1).
#[verifier::external_body]
fn naive_date_weekday(y: i32, m: u32, d: u32) -> (r: Option<u32>)
    ensures
        r is Some <==> valid_date(y as int, m as int, d as int),
        r matches Some(w) ==> w == weekday_number(y as int, m as int, d as int),
{
    chrono::NaiveDate::from_ymd_opt(y, m, d).map(|date| date.weekday().number_from_monday())
}

/// `NaiveDate::from_ymd_opt(y, m, d)` then `pred_opt()`, as year, month, day.
/// Claimed: a value exactly when both days are dates `NaiveDate` holds, and
/// it is the day before.
#[verifier::external_body]
fn naive_date_pred(y: i32, m: u32, d: u32) -> (r: Option<(i32, u32, u32)>)
    ensures
        r is Some <==> has_previous_day(y as int, m as int, d as int),
        r matches Some(t) ==> (t.0 as int, t.1 as int, t.2 as int) == previous_day(y as int, m as int, d as int),
{
    chrono::NaiveDate::from_ymd_opt(y, m, d).and_then(|date| date.pred_opt()).map(|p| (p.year(), p.month(), p.day()))
}

/// Whether the year, month and day form a date `NaiveDate` holds.
pub fn valid_ymd(year: i32, month: u32, day: u32) -> (r: bool)
    ensures
        r == valid_date(year as int, month as int, day as int),
{
    naive_date_weekday(year, month, day).is_some()
}

/// The current local date and time of day.
pub struct LocalNow {
    pub year: i32,
    pub month: u32,
    pub day: u32,
    pub hour: u32,
    pub minute: u32,
    pub second: u32,
    pub nanosecond: u32,
}

/// `chrono::Local::now()`, as date and time of day.
/// Claimed: a date `NaiveDate` holds and a time of day (leap seconds folded
/// into the last second); nothing about which moment it is.
#[verifier::external_body]
pub(crate) fn local_now() -> (r: LocalNow)
    ensures
        valid_date(r.year as int, r.month as int, r.day as int),
        r.hour < 24 && r.minute < 60 && r.second < 60,
{
    let now = chrono::Local::now();
    LocalNow {
        year: now.year(), month: now.month(), day: now.day(),
        hour: now.hour(), minute: now.minute(), second: now.second(), nanosecond: now.nanosecond(),
    }
}

/// The month has a successor month that `NaiveDate` holds.
pub open spec fn month_in_range(year: int, month: int) -> bool {
    1 <= month <= 12 && min_year() <= year && (if month == 12 { year + 1 <= max_year() } else { year <= max_year() })
}

/// The last day of a month: the day before the first of the next month.
pub fn last_day_in_month(year: i32, month: u32) -> (r: u32)
    requires
        month_in_range(year as int, month as int),
    ensures
        r == days_in_month(year as int, month as int),
{
    let (y, m) = if month == 12 { (year + 1, 1u32) } else { (year, month + 1) };
    naive_date_pred(y, m, 1).unwrap().2
}

/// Day of the week of a date, Monday = 1 to Sunday = 7.
pub fn get_weekday(year: i32, month: u32, day: u32) -> (r: i32)
    requires
        valid_date(year as int, month as int, day as int),
    ensures
        r == weekday_number(year as int, month as int, day as int),
        1 <= r <= 7,
{
    let w = naive_date_weekday(year, month, day).unwrap();
    w as i32
}


/// `format!("{:04}{:02}{:02}", y, m, d)`: the date as compared with the last priced date.
pub open spec fn ymd_key(y: int, m: int, d: int) -> Seq<char> {
    zero_padded(y, 4) + zero_padded(m, 2) + zero_padded(d, 2)
}

/// `format!("{:04}/{:02}/{:02}", y - 1911, m, d)`: the date as the exchanges print it.
pub open spec fn roc_date(y: int, m: int, d: int) -> Seq<char> {
    zero_padded(y - 1911, 4) + seq!['/'] + zero_padded(m, 2) + seq!['/'] + zero_padded(d, 2)
}

/// The dates of a list of price rows.
pub open spec fn price_dates(p: Seq<SecurityPrice>) -> Seq<Seq<char>> {
    p.map_values(|x: SecurityPrice| x.price_date@)
}

/// Whether the market opened (or will open) that day: up to the last priced
/// date, when some price carries the day's date; after it, on Monday to Friday.
pub open spec fn day_open(y: int, m: int, d: int, last_price: Seq<char>, dates: Seq<Seq<char>>) -> bool {
    if !lex_less(last_price, ymd_key(y, m, d)) {
        dates.contains(roc_date(y, m, d))
    } else {
        weekday_number(y, m, d) < 6
    }
}

/// Law: the market is taken to open on a day up to the last priced date
/// (that date included) exactly when some price row carries the day's date,
/// and after it on Monday to Friday only, never on Saturday or Sunday.
pub proof fn lemma_open_day_rule(y: int, m: int, d: int, last_price: Seq<char>, dates: Seq<Seq<char>>)
    ensures
        !lex_less(last_price, ymd_key(y, m, d)) ==>
            (day_open(y, m, d, last_price, dates) <==> exists|i: int| 0 <= i < dates.len() && dates[i] == roc_date(y, m, d)),
        lex_less(last_price, ymd_key(y, m, d)) ==>
            (day_open(y, m, d, last_price, dates) <==> 1 <= weekday_number(y, m, d) <= 5),
{
    let yy = if m < 3 { y - 1 } else { y };
    let dow = (yy + yy / 4 - yy / 100 + yy / 400 + month_offset(m) + d) % 7;
    assert(0 <= dow < 7);
}

/// Number of open days among the first `k` days of the month.
pub open spec fn open_count(y: int, m: int, last_price: Seq<char>, dates: Seq<Seq<char>>, k: nat) -> int
    decreases k,
{
    if k == 0 {
        0
    } else {
        open_count(y, m, last_price, dates, (k - 1) as nat) + if day_open(y, m, k as int, last_price, dates) { 1int } else { 0int }
    }
}

/// The first `k` days of the month as `(year, month, day, n)`, where `n` counts
/// the open days before it for an open day and is `-1` for a closed one.
pub open spec fn open_days(y: int, m: int, last_price: Seq<char>, dates: Seq<Seq<char>>, k: nat) -> Seq<(i32, u32, u32, i32)>
    decreases k,
{
    if k == 0 {
        Seq::empty()
    } else {
        open_days(y, m, last_price, dates, (k - 1) as nat).push((
            y as i32,
            m as u32,
            k as u32,
            if day_open(y, m, k as int, last_price, dates) {
                open_count(y, m, last_price, dates, (k - 1) as nat) as i32
            } else {
                -1i32
            },
        ))
    }
}

proof fn lemma_open_count_le(y: int, m: int, lp: Seq<char>, dates: Seq<Seq<char>>, k: nat)
    ensures
        0 <= open_count(y, m, lp, dates, k) <= k,
    decreases k,
{
    if k > 0 {
        lemma_open_count_le(y, m, lp, dates, (k - 1) as nat);
    }
}

/// Whether some price row carries the date `date`.
fn has_price_on(price_data: &Vec<SecurityPrice>, date: &String) -> (r: bool)
    ensures
        r == price_dates(price_data@).contains(date@),
{
    let mut i: usize = 0;
    while i < price_data.len()
        invariant
            i <= price_data.len(),
            forall|j: int| 0 <= j < i ==> price_data@[j].price_date@ != date@,
        decreases price_data.len() - i,
    {
        if price_data[i].price_date == *date {
            assert(price_dates(price_data@)[i as int] == date@);
            return true;
        }
        i += 1;
    }
    assert forall|j: int| 0 <= j < price_dates(price_data@).len() implies price_dates(price_data@)[j] != date@ by {
        assert(price_data@[j].price_date@ != date@);
    }
    false
}

/// Every day of a month, numbered among the open days (see [`open_days`]).
pub fn get_open_stock_date(year: i32, month: u32, last_price_date: &String, price_data: &Vec<SecurityPrice>) -> (r: Vec<(i32, u32, u32, i32)>)
    requires
        month_in_range(year as int, month as int),
    ensures
        r@ == open_days(year as int, month as int, last_price_date@, price_dates(price_data@),
            days_in_month(year as int, month as int) as nat),
        plannable(r@),
{
    proof {
        lemma_open_days_plannable(year as int, month as int, last_price_date@, price_dates(price_data@),
            days_in_month(year as int, month as int) as nat);
    }
    let mut out: Vec<(i32, u32, u32, i32)> = Vec::new();
    let mut index: i32 = 0;
    let last_day = last_day_in_month(year, month);
    let lp = chars_of(last_price_date.as_str());
    let ghost dates = price_dates(price_data@);
    let mut day: u32 = 1;
    while day <= last_day
        invariant
            1 <= day <= last_day + 1,
            last_day == days_in_month(year as int, month as int),
            month_in_range(year as int, month as int),
            lp@ == last_price_date@,
            dates == price_dates(price_data@),
            index == open_count(year as int, month as int, lp@, dates, (day - 1) as nat),
            out@ == open_days(year as int, month as int, lp@, dates, (day - 1) as nat),
        decreases last_day + 1 - day,
    {
        proof {
            lemma_open_count_le(year as int, month as int, lp@, dates, (day - 1) as nat);
        }
        let mut key = zero_padded_chars(year as i64, 4);
        push_chars(&mut key, &zero_padded_chars(month as i64, 2));
        push_chars(&mut key, &zero_padded_chars(day as i64, 2));
        let open = if !lex_less_chars(&lp, &key) {
            let mut roc = zero_padded_chars(year as i64 - 1911, 4);
            roc.push('/');
            push_chars(&mut roc, &zero_padded_chars(month as i64, 2));
            roc.push('/');
            push_chars(&mut roc, &zero_padded_chars(day as i64, 2));
            assert(roc@ =~= roc_date(year as int, month as int, day as int));
            let roc_string = string_from_chars(&roc);
            has_price_on(price_data, &roc_string)
        } else {
            get_weekday(year, month, day) < 6
        };
        assert(key@ =~= ymd_key(year as int, month as int, day as int));
        assert(open == day_open(year as int, month as int, day as int, lp@, dates));
        if open {
            out.push((year, month, day, index));
            index = index + 1;
        } else {
            out.push((year, month, day, -1));
        }
        day = day + 1;
    }
    out
}

/// Law: the month's days are listed in order, day `j + 1` at position `j`,
/// and each open day carries the number of open days before it, so the open
/// days are numbered 0, 1, 2, … without gaps.
pub proof fn lemma_open_days_numbering(y: int, m: int, lp: Seq<char>, dates: Seq<Seq<char>>, k: nat)
    ensures
        open_days(y, m, lp, dates, k).len() == k,
        forall|j: int| 0 <= j < k ==> {
            let e = #[trigger] open_days(y, m, lp, dates, k)[j];
            &&& e.0 == y as i32 && e.1 == m as u32 && e.2 == (j + 1) as u32
            &&& e.3 == if day_open(y, m, j + 1, lp, dates) { open_count(y, m, lp, dates, j as nat) as i32 } else { -1i32 }
        },
    decreases k,
{
    if k > 0 {
        lemma_open_days_numbering(y, m, lp, dates, (k - 1) as nat);
        assert forall|j: int| 0 <= j < k implies {
            let e = #[trigger] open_days(y, m, lp, dates, k)[j];
            &&& e.0 == y as i32 && e.1 == m as u32 && e.2 == (j + 1) as u32
            &&& e.3 == if day_open(y, m, j + 1, lp, dates) { open_count(y, m, lp, dates, j as nat) as i32 } else { -1i32 }
        } by {
            if j < k - 1 {
                assert(open_days(y, m, lp, dates, k)[j] == open_days(y, m, lp, dates, (k - 1) as nat)[j]);
            }
        }
    }
}

/// Law: within a month, each day falls on the weekday after the previous
/// day's (Sunday = 7 followed by Monday = 1).
pub proof fn lemma_weekday_next_day(y: int, m: int, d: int)
    requires
        1 <= m <= 12,
        1 <= d,
    ensures
        weekday_number(y, m, d + 1) == weekday_number(y, m, d) % 7 + 1,
{
    let yy = if m < 3 { y - 1 } else { y };
    let base = yy + yy / 4 - yy / 100 + yy / 400 + month_offset(m);
    assert((base + d + 1) % 7 == ((base + d) % 7 + 1) % 7);
}

/// `format!("{:04}{:02}", y, m)`: the month as a prefix of a date key.
pub open spec fn month_prefix(y: int, m: int) -> Seq<char> {
    zero_padded(y, 4) + zero_padded(m, 2)
}

/// Whether the month's prices are needed: the last priced date falls in it.
pub open spec fn needs_prices(y: int, m: int, last_price: Seq<char>) -> bool {
    has_prefix(last_price, month_prefix(y, m))
}

/// Whether the month's prices must be read to number its days.
pub fn needs_month_prices(year: i32, month: u32, last_price_date: &String) -> (r: bool)
    ensures
        r == needs_prices(year as int, month as int, last_price_date@),
{
    let mut prefix = zero_padded_chars(year as i64, 4);
    push_chars(&mut prefix, &zero_padded_chars(month as i64, 2));
    starts_with_chars(&chars_of(last_price_date.as_str()), &prefix)
}

/// The price dates used for month `m`: those read for it when needed, none otherwise.
pub open spec fn month_dates(y: int, m: int, last_price: Seq<char>, monthly: Seq<Seq<SecurityPrice>>) -> Seq<Seq<char>> {
    if needs_prices(y, m, last_price) {
        price_dates(monthly[m - 1])
    } else {
        Seq::empty()
    }
}

/// The days of the first `k` months of the year, month after month.
pub open spec fn open_months(y: int, last_price: Seq<char>, monthly: Seq<Seq<SecurityPrice>>, k: nat) -> Seq<(i32, u32, u32, i32)>
    decreases k,
{
    if k == 0 {
        Seq::empty()
    } else {
        open_months(y, last_price, monthly, (k - 1) as nat)
            + open_days(y, k as int, last_price, month_dates(y, k as int, last_price, monthly), days_in_month(y, k as int) as nat)
    }
}

proof fn lemma_open_days_plannable(y: int, m: int, lp: Seq<char>, dates: Seq<Seq<char>>, k: nat)
    requires
        min_year() <= y <= max_year(),
        1 <= m <= 12,
        k <= days_in_month(y, m),
    ensures
        plannable(open_days(y, m, lp, dates, k)),
{
    lemma_open_days_numbering(y, m, lp, dates, k);
    assert forall|j: int| 0 <= j < open_days(y, m, lp, dates, k).len() implies {
        let e = #[trigger] open_days(y, m, lp, dates, k)[j];
        valid_date(e.0 as int, e.1 as int, e.2 as int) && e.3 >= -1
    } by {
        lemma_open_count_le(y, m, lp, dates, j as nat);
    }
}

proof fn lemma_open_months_plannable(y: int, lp: Seq<char>, monthly: Seq<Seq<SecurityPrice>>, k: nat)
    requires
        min_year() <= y <= max_year(),
        k <= 12,
    ensures
        plannable(open_months(y, lp, monthly, k)),
    decreases k,
{
    if k > 0 {
        lemma_open_months_plannable(y, lp, monthly, (k - 1) as nat);
        let before = open_months(y, lp, monthly, (k - 1) as nat);
        let days = open_days(y, k as int, lp, month_dates(y, k as int, lp, monthly), days_in_month(y, k as int) as nat);
        lemma_open_days_plannable(y, k as int, lp, month_dates(y, k as int, lp, monthly), days_in_month(y, k as int) as nat);
        assert forall|j: int| 0 <= j < (before + days).len() implies {
            let e = #[trigger] (before + days)[j];
            valid_date(e.0 as int, e.1 as int, e.2 as int) && e.3 >= -1
        } by {
            if j < before.len() {
                assert((before + days)[j] == before[j]);
            } else {
                assert((before + days)[j] == days[j - before.len()]);
            }
        }
    }
}

/// Number of days in the first `k` months of year `y`.
pub open spec fn days_before_month_end(y: int, k: nat) -> int
    decreases k,
{
    if k == 0 {
        0
    } else {
        days_before_month_end(y, (k - 1) as nat) + days_in_month(y, k as int)
    }
}

proof fn lemma_open_months_len(y: int, lp: Seq<char>, monthly: Seq<Seq<SecurityPrice>>, k: nat)
    ensures
        open_months(y, lp, monthly, k).len() == days_before_month_end(y, k),
    decreases k,
{
    if k > 0 {
        lemma_open_months_len(y, lp, monthly, (k - 1) as nat);
        lemma_open_days_numbering(y, k as int, lp, month_dates(y, k as int, lp, monthly), days_in_month(y, k as int) as nat);
    }
}

/// Law: a year's plan lists every day of the year once: 366 days in a leap
/// year, 365 in any other.
pub proof fn lemma_year_days(y: int, lp: Seq<char>, monthly: Seq<Seq<SecurityPrice>>)
    ensures
        open_months(y, lp, monthly, 12).len() == if is_leap(y) { 366int } else { 365int },
{
    lemma_open_months_len(y, lp, monthly, 12);
    reveal_with_fuel(days_before_month_end, 13);
}

/// No open day among the first `k` days of a month: none is counted.
proof fn lemma_open_count_none(y: int, m: int, lp: Seq<char>, dates: Seq<Seq<char>>, k: nat)
    requires
        forall|d: int| 1 <= d <= k ==> !day_open(y, m, d, lp, dates),
    ensures
        open_count(y, m, lp, dates, k) == 0,
    decreases k,
{
    if k > 0 {
        lemma_open_count_none(y, m, lp, dates, (k - 1) as nat);
    }
}

proof fn lemma_months_numbering(y: int, lp: Seq<char>, monthly: Seq<Seq<SecurityPrice>>, k: nat)
    requires
        k <= 12,
    ensures
        forall|j: int| 0 <= j < open_months(y, lp, monthly, k).len() ==> {
            let e = #[trigger] open_months(y, lp, monthly, k)[j];
            let m = e.1 as int;
            let d = e.2 as int;
            let dates = month_dates(y, m, lp, monthly);
            &&& e.0 == y as i32
            &&& 1 <= m <= k
            &&& 1 <= d <= days_in_month(y, m)
            &&& j == days_before_month_end(y, (m - 1) as nat) + d - 1
            &&& e.3 == if day_open(y, m, d, lp, dates) { open_count(y, m, lp, dates, (d - 1) as nat) as i32 } else { -1i32 }
        },
    decreases k,
{
    if k > 0 {
        lemma_months_numbering(y, lp, monthly, (k - 1) as nat);
        lemma_open_months_len(y, lp, monthly, (k - 1) as nat);
        let before = open_months(y, lp, monthly, (k - 1) as nat);
        let dates = month_dates(y, k as int, lp, monthly);
        let dim = days_in_month(y, k as int) as nat;
        let days = open_days(y, k as int, lp, dates, dim);
        lemma_open_days_numbering(y, k as int, lp, dates, dim);
        assert(open_months(y, lp, monthly, k) == before + days);
        assert forall|j: int| 0 <= j < open_months(y, lp, monthly, k).len() implies {
            let e = #[trigger] open_months(y, lp, monthly, k)[j];
            let m = e.1 as int;
            let d = e.2 as int;
            let dates = month_dates(y, m, lp, monthly);
            &&& e.0 == y as i32
            &&& 1 <= m <= k
            &&& 1 <= d <= days_in_month(y, m)
            &&& j == days_before_month_end(y, (m - 1) as nat) + d - 1
            &&& e.3 == if day_open(y, m, d, lp, dates) { open_count(y, m, lp, dates, (d - 1) as nat) as i32 } else { -1i32 }
        } by {
            if j < before.len() {
                assert((before + days)[j] == before[j]);
            } else {
                let i = j - before.len();
                assert((before + days)[j] == days[i]);
                assert(days[i].1 == k as u32 && days[i].2 == (i + 1) as u32);
                assert(days[i].1 as int == k);
                assert(days[i].2 as int == i + 1);
            }
        }
    }
}

/// Law: the numbering restarts with every month. In a year's list each day
/// stands at its place in the year, and an open day carries the number of
/// open days before it in its own month only, so the first open day of
/// every month carries 0; a closed day carries -1.
pub proof fn lemma_year_numbering(y: int, lp: Seq<char>, monthly: Seq<Seq<SecurityPrice>>)
    ensures
        forall|j: int| 0 <= j < open_months(y, lp, monthly, 12).len() ==> {
            let e = #[trigger] open_months(y, lp, monthly, 12)[j];
            let m = e.1 as int;
            let d = e.2 as int;
            let dates = month_dates(y, m, lp, monthly);
            &&& e.0 == y as i32
            &&& 1 <= m <= 12
            &&& 1 <= d <= days_in_month(y, m)
            &&& j == days_before_month_end(y, (m - 1) as nat) + d - 1
            &&& e.3 == if day_open(y, m, d, lp, dates) { open_count(y, m, lp, dates, (d - 1) as nat) as i32 } else { -1i32 }
            &&& (day_open(y, m, d, lp, dates) && forall|d2: int| 1 <= d2 < d ==> !day_open(y, m, d2, lp, dates)) ==> e.3 == 0
        },
{
    lemma_months_numbering(y, lp, monthly, 12);
    assert forall|j: int| 0 <= j < open_months(y, lp, monthly, 12).len() implies {
        let e = #[trigger] open_months(y, lp, monthly, 12)[j];
        let m = e.1 as int;
        let d = e.2 as int;
        let dates = month_dates(y, m, lp, monthly);
        (day_open(y, m, d, lp, dates) && forall|d2: int| 1 <= d2 < d ==> !day_open(y, m, d2, lp, dates)) ==> e.3 == 0
    } by {
        let e = open_months(y, lp, monthly, 12)[j];
        let m = e.1 as int;
        let d = e.2 as int;
        let dates = month_dates(y, m, lp, monthly);
        if day_open(y, m, d, lp, dates) && forall|d2: int| 1 <= d2 < d ==> !day_open(y, m, d2, lp, dates) {
            lemma_open_count_none(y, m, lp, dates, (d - 1) as nat);
        }
    }
}

/// An open day among the first `k` days of a month is counted.
proof fn lemma_open_count_some(y: int, m: int, lp: Seq<char>, dates: Seq<Seq<char>>, k: nat, d: int)
    requires
        1 <= d <= k,
        day_open(y, m, d, lp, dates),
    ensures
        open_count(y, m, lp, dates, k) >= 1,
    decreases k,
{
    lemma_open_count_le(y, m, lp, dates, (k - 1) as nat);
    if d < k {
        lemma_open_count_some(y, m, lp, dates, (k - 1) as nat, d);
    }
}

proof fn lemma_open_count_flat(y: int, m: int, lp: Seq<char>, dates: Seq<Seq<char>>, a: nat, b: nat)
    requires
        a <= b,
        forall|d: int| a < d <= b ==> !day_open(y, m, d, lp, dates),
    ensures
        open_count(y, m, lp, dates, b) == open_count(y, m, lp, dates, a),
    decreases b - a,
{
    if a < b {
        lemma_open_count_flat(y, m, lp, dates, a, (b - 1) as nat);
    }
}

/// Law: the open days of a month are numbered one after another: the first
/// carries 0, and the next open day after an open day carries one more, the
/// closed days between them taking no number.
pub proof fn lemma_open_numbers_consecutive(y: int, m: int, lp: Seq<char>, dates: Seq<Seq<char>>, d1: int, d2: int)
    requires
        1 <= d1 < d2,
        day_open(y, m, d1, lp, dates),
        day_open(y, m, d2, lp, dates),
        forall|d: int| d1 < d < d2 ==> !day_open(y, m, d, lp, dates),
    ensures
        open_count(y, m, lp, dates, (d2 - 1) as nat) == open_count(y, m, lp, dates, (d1 - 1) as nat) + 1,
{
    lemma_open_count_flat(y, m, lp, dates, d1 as nat, (d2 - 1) as nat);
}

/// Law: in the rows planned for a year, every month's first open day, and
/// only it, is marked as the month's first (`FRIST` when a year is added;
/// `FIRST_INIT` or `FIRST` in a first fill, by the start point), its other
/// open days as regular ones, and its closed days as `S`/`STOP`.
pub proof fn lemma_first_open_day_planned(y: int, lp: Seq<char>, monthly: Seq<Seq<SecurityPrice>>, point: Seq<char>)
    ensures
        forall|j: int| 0 <= j < open_months(y, lp, monthly, 12).len() ==> {
            let e = #[trigger] open_months(y, lp, monthly, 12)[j];
            let m = e.1 as int;
            let d = e.2 as int;
            let dates = month_dates(y, m, lp, monthly);
            let open = day_open(y, m, d, lp, dates);
            let first = open && forall|d2: int| 1 <= d2 < d ==> !day_open(y, m, d2, lp, dates);
            &&& next_class(e.3 as int) == if !open {
                ("S"@, "STOP"@)
            } else if first {
                ("O"@, "FRIST"@)
            } else {
                ("O"@, "SECURITY"@)
            }
            &&& init_class(point, e.3 as int) == if !open {
                ("S"@, "STOP"@)
            } else if lex_less(point, "20240517"@) {
                if first { ("O"@, "FIRST_INIT"@) } else { ("O"@, "INIT"@) }
            } else {
                if first { ("O"@, "FIRST"@) } else { ("O"@, "SECURITY"@) }
            }
        },
{
    lemma_year_numbering(y, lp, monthly);
    assert forall|j: int| 0 <= j < open_months(y, lp, monthly, 12).len() implies {
        let e = #[trigger] open_months(y, lp, monthly, 12)[j];
        let m = e.1 as int;
        let d = e.2 as int;
        let dates = month_dates(y, m, lp, monthly);
        let open = day_open(y, m, d, lp, dates);
        let first = open && forall|d2: int| 1 <= d2 < d ==> !day_open(y, m, d2, lp, dates);
        &&& next_class(e.3 as int) == if !open {
            ("S"@, "STOP"@)
        } else if first {
            ("O"@, "FRIST"@)
        } else {
            ("O"@, "SECURITY"@)
        }
        &&& init_class(point, e.3 as int) == if !open {
            ("S"@, "STOP"@)
        } else if lex_less(point, "20240517"@) {
            if first { ("O"@, "FIRST_INIT"@) } else { ("O"@, "INIT"@) }
        } else {
            if first { ("O"@, "FIRST"@) } else { ("O"@, "SECURITY"@) }
        }
    } by {
        let e = open_months(y, lp, monthly, 12)[j];
        let m = e.1 as int;
        let d = e.2 as int;
        let dates = month_dates(y, m, lp, monthly);
        let open = day_open(y, m, d, lp, dates);
        lemma_open_count_le(y, m, lp, dates, (d - 1) as nat);
        if open {
            if forall|d2: int| 1 <= d2 < d ==> !day_open(y, m, d2, lp, dates) {
                lemma_open_count_none(y, m, lp, dates, (d - 1) as nat);
            } else {
                let d2 = choose|d2: int| 1 <= d2 < d && day_open(y, m, d2, lp, dates);
                lemma_open_count_some(y, m, lp, dates, (d - 1) as nat, d2);
            }
        }
    }
}

/// Every day of the year, numbered among the open days of its month;
/// `monthly_prices[m - 1]` holds the prices of month `m` where
/// [`needs_month_prices`] asks for them.
pub fn get_open_stock_month(year: i32, last_price_date: &String, monthly_prices: &Vec<Vec<SecurityPrice>>) -> (r: Vec<(i32, u32, u32, i32)>)
    requires
        monthly_prices.len() == 12,
        month_in_range(year as int, 12),
    ensures
        r@ == open_months(year as int, last_price_date@, monthly_prices@.map_values(|v: Vec<SecurityPrice>| v@), 12),
        plannable(r@),
        forall|j: int| 0 <= j < r.len() ==> {
            let e = #[trigger] r@[j];
            let m = e.1 as int;
            let d = e.2 as int;
            let dates = month_dates(year as int, m, last_price_date@, monthly_prices@.map_values(|v: Vec<SecurityPrice>| v@));
            &&& e.0 == year
            &&& 1 <= m <= 12
            &&& 1 <= d <= days_in_month(year as int, m)
            &&& j == days_before_month_end(year as int, (m - 1) as nat) + d - 1
            &&& e.3 == if day_open(year as int, m, d, last_price_date@, dates) {
                open_count(year as int, m, last_price_date@, dates, (d - 1) as nat) as i32
            } else {
                -1i32
            }
        },
{
    proof {
        lemma_year_numbering(year as int, last_price_date@, monthly_prices@.map_values(|v: Vec<SecurityPrice>| v@));
        lemma_open_months_plannable(year as int, last_price_date@, monthly_prices@.map_values(|v: Vec<SecurityPrice>| v@), 12);
    }
    let ghost monthly = monthly_prices@.map_values(|v: Vec<SecurityPrice>| v@);
    let empty: Vec<SecurityPrice> = Vec::new();
    let mut out: Vec<(i32, u32, u32, i32)> = Vec::new();
    let mut month: u32 = 1;
    while month <= 12
        invariant
            1 <= month <= 13,
            monthly_prices.len() == 12,
            month_in_range(year as int, 12),
            monthly == monthly_prices@.map_values(|v: Vec<SecurityPrice>| v@),
            empty@ == Seq::<SecurityPrice>::empty(),
            out@ == open_months(year as int, last_price_date@, monthly, (month - 1) as nat),
        decreases 13 - month,
    {
        let data = if needs_month_prices(year, month, last_price_date) {
            &monthly_prices[(month - 1) as usize]
        } else {
            &empty
        };
        assert(price_dates(data@) =~= month_dates(year as int, month as int, last_price_date@, monthly));
        let days = get_open_stock_date(year, month, last_price_date, data);
        let mut k: usize = 0;
        let ghost before = out@;
        while k < days.len()
            invariant
                k <= days.len(),
                out@ == before + days@.take(k as int),
            decreases days.len() - k,
        {
            out.push(days[k]);
            k += 1;
            assert(out@ =~= before + days@.take(k as int));
        }
        assert(days@.take(days.len() as int) =~= days@);
        month = month + 1;
    }
    out
}


/// The calendar row of a day with the given status and task group.
pub fn get_new_calendar_date(year: i32, month: u32, day: u32, status: &str, task: &str) -> (r: NewCalendarData)
    requires
        valid_date(year as int, month as int, day as int),
    ensures
        r.ce_year@ == zero_padded(year as int, 4),
        r.ce_month@ == zero_padded(month as int, 2),
        r.ce_day@ == zero_padded(day as int, 2),
        r.week_index == weekday_number(year as int, month as int, day as int),
        r.date_status@ == status@,
        r.group_task@ == task@,
{
    NewCalendarData {
        ce_year: zero_padded_string(year as i64, 4),
        ce_month: zero_padded_string(month as i64, 2),
        ce_day: zero_padded_string(day as i64, 2),
        week_index: get_weekday(year, month, day),
        date_status: string_from_chars(&chars_of(status)),
        group_task: string_from_chars(&chars_of(task)),
    }
}

/// The day planned for a first fill of the calendar starts the regular
/// schedule from this date on.
pub open spec fn init_start_point() -> Seq<char> {
    "20240517"@
}

/// Status and task group of a day in the first fill of the calendar: closed
/// days `S`/`STOP`; open days before the start point `O`/`FIRST_INIT` for
/// the first open day of the month and `O`/`INIT` for the others; open days
/// from it on `O`/`FIRST` and `O`/`SECURITY`.
pub open spec fn init_class(point: Seq<char>, index: int) -> (Seq<char>, Seq<char>) {
    if index == -1 {
        ("S"@, "STOP"@)
    } else if lex_less(point, init_start_point()) {
        if index == 0 { ("O"@, "FIRST_INIT"@) } else { ("O"@, "INIT"@) }
    } else {
        if index == 0 { ("O"@, "FIRST"@) } else { ("O"@, "SECURITY"@) }
    }
}

/// Status and task group of a day added to the calendar later: closed days
/// `S`/`STOP`, the first open day of the month `O`/`FRIST`, other open days
/// `O`/`SECURITY`.
pub open spec fn next_class(index: int) -> (Seq<char>, Seq<char>) {
    if index == -1 {
        ("S"@, "STOP"@)
    } else if index == 0 {
        ("O"@, "FRIST"@)
    } else {
        ("O"@, "SECURITY"@)
    }
}

/// The days are dates, each numbered `-1` or from zero.
pub open spec fn plannable(days: Seq<(i32, u32, u32, i32)>) -> bool {
    forall|k: int| 0 <= k < days.len() ==> valid_date((#[trigger] days[k]).0 as int, days[k].1 as int, days[k].2 as int)
        && days[k].3 >= -1
}

/// Row `r` is the calendar row of day `t` with the given class.
pub open spec fn planned_row(r: NewCalendarData, t: (i32, u32, u32, i32), class: (Seq<char>, Seq<char>)) -> bool {
    &&& r.ce_year@ == zero_padded(t.0 as int, 4)
    &&& r.ce_month@ == zero_padded(t.1 as int, 2)
    &&& r.ce_day@ == zero_padded(t.2 as int, 2)
    &&& r.week_index == weekday_number(t.0 as int, t.1 as int, t.2 as int)
    &&& r.date_status@ == class.0
    &&& r.group_task@ == class.1
}

/// The rows of a first fill of the calendar, one per day (see [`init_class`]).
pub fn init_calendar_plan(open_stock_dates: &Vec<(i32, u32, u32, i32)>) -> (r: Vec<NewCalendarData>)
    requires
        plannable(open_stock_dates@),
    ensures
        r.len() == open_stock_dates.len(),
        forall|k: int| 0 <= k < r.len() ==> {
            let t = open_stock_dates@[k];
            planned_row(#[trigger] r@[k], t, init_class(ymd_key(t.0 as int, t.1 as int, t.2 as int), t.3 as int))
        },
{
    let start = chars_of("20240517");
    let mut out: Vec<NewCalendarData> = Vec::new();
    let mut i: usize = 0;
    while i < open_stock_dates.len()
        invariant
            i <= open_stock_dates.len(),
            plannable(open_stock_dates@),
            start@ == init_start_point(),
            out.len() == i,
            forall|k: int| 0 <= k < i ==> {
                let t = open_stock_dates@[k];
                planned_row(#[trigger] out@[k], t, init_class(ymd_key(t.0 as int, t.1 as int, t.2 as int), t.3 as int))
            },
        decreases open_stock_dates.len() - i,
    {
        let t = open_stock_dates[i];
        assert(valid_date(t.0 as int, t.1 as int, t.2 as int) && t.3 >= -1);
        let mut point = zero_padded_chars(t.0 as i64, 4);
        push_chars(&mut point, &zero_padded_chars(t.1 as i64, 2));
        push_chars(&mut point, &zero_padded_chars(t.2 as i64, 2));
        assert(point@ =~= ymd_key(t.0 as int, t.1 as int, t.2 as int));
        let row = if t.3 == -1 {
            get_new_calendar_date(t.0, t.1, t.2, "S", "STOP")
        } else if lex_less_chars(&point, &start) {
            if t.3 == 0 {
                get_new_calendar_date(t.0, t.1, t.2, "O", "FIRST_INIT")
            } else {
                get_new_calendar_date(t.0, t.1, t.2, "O", "INIT")
            }
        } else {
            if t.3 == 0 {
                get_new_calendar_date(t.0, t.1, t.2, "O", "FIRST")
            } else {
                get_new_calendar_date(t.0, t.1, t.2, "O", "SECURITY")
            }
        };
        out.push(row);
        i += 1;
    }
    out
}

/// The rows of a year added to the calendar, one per day (see [`next_class`]).
pub fn insert_calendar_plan(open_stock_dates: &Vec<(i32, u32, u32, i32)>) -> (r: Vec<NewCalendarData>)
    requires
        plannable(open_stock_dates@),
    ensures
        r.len() == open_stock_dates.len(),
        forall|k: int| 0 <= k < r.len() ==> {
            let t = open_stock_dates@[k];
            planned_row(#[trigger] r@[k], t, next_class(t.3 as int))
        },
{
    let mut out: Vec<NewCalendarData> = Vec::new();
    let mut i: usize = 0;
    while i < open_stock_dates.len()
        invariant
            i <= open_stock_dates.len(),
            plannable(open_stock_dates@),
            out.len() == i,
            forall|k: int| 0 <= k < i ==> {
                let t = open_stock_dates@[k];
                planned_row(#[trigger] out@[k], t, next_class(t.3 as int))
            },
        decreases open_stock_dates.len() - i,
    {
        let t = open_stock_dates[i];
        assert(valid_date(t.0 as int, t.1 as int, t.2 as int) && t.3 >= -1);
        let row = if t.3 == -1 {
            get_new_calendar_date(t.0, t.1, t.2, "S", "STOP")
        } else if t.3 == 0 {
            get_new_calendar_date(t.0, t.1, t.2, "O", "FRIST")
        } else {
            get_new_calendar_date(t.0, t.1, t.2, "O", "SECURITY")
        };
        out.push(row);
        i += 1;
    }
    out
}

/// The years added on a given day: next year and this one on the first of
/// October, this one alone on any other day (`true` stands for next year).
pub fn add_next_year_plan(month: u32, day: u32) -> (r: Vec<bool>)
    ensures
        r@ == (if month == 10 && day == 1 { seq![true, false] } else { seq![false] }),
{
    if month == 10 && day == 1 {
        vec![true, false]
    } else {
        vec![false]
    }
}

/// The year whose calendar is added: next year or the current one.
pub fn calendar_year(current_year: i32, open_next_year: bool) -> (r: i32)
    requires
        current_year < i32::MAX,
    ensures
        r == if open_next_year { current_year + 1 } else { current_year as int },
{
    if open_next_year { current_year + 1 } else { current_year }
}

/// The years of a first fill of the calendar: from 1999 to the current year.
pub fn init_years(current_year: i32) -> (r: Vec<i32>)
    requires
        current_year < i32::MAX,
    ensures
        r.len() == if current_year >= 1999 { current_year - 1999 + 1 } else { 0 },
        forall|k: int| 0 <= k < r.len() ==> #[trigger] r@[k] == 1999 + k,
{
    let mut out: Vec<i32> = Vec::new();
    let mut y: i32 = 1999;
    while y <= current_year
        invariant
            1999 <= y,
            y <= current_year + 1 || current_year < 1999,
            current_year < 1999 ==> y == 1999,
            current_year < i32::MAX,
            out.len() == y - 1999,
            forall|k: int| 0 <= k < out.len() ==> #[trigger] out@[k] == 1999 + k,
        decreases current_year + 1 - y,
    {
        out.push(y);
        y = y + 1;
    }
    out
}

} // verus!
