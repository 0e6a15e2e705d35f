//! Windowed-capture timestamps (`captures/<surface>-<seed>-<ts>.png`): UTC
//! `yyyymmdd-hhmmss` from UNIX seconds, over the proleptic Gregorian
//! calendar.

use vstd::prelude::*;
use vstd::arithmetic::power::pow;
use vstd::arithmetic::div_mod::{lemma_fundamental_div_mod, lemma_mod_mod};
use crate::text::{
    decimal, digit_char, digit_value, digits_value, is_digit, lemma_decimal_digits, push_char,
    push_decimal, push_two_digits, two_digits,
};

verus! {

pub open spec fn is_leap(y: nat) -> bool {
    y % 4 == 0 && (y % 100 != 0 || y % 400 == 0)
}

pub open spec fn year_len(y: nat) -> nat {
    if is_leap(y) {
        366
    } else {
        365
    }
}

/// Days in month `m` (1-based) of year `y`.
pub open spec fn month_len(y: nat, m: nat) -> nat {
    if m == 2 {
        if is_leap(y) {
            29
        } else {
            28
        }
    } else if m == 4 || m == 6 || m == 9 || m == 11 {
        30
    } else {
        31
    }
}

/// The date `(year, month, day)` that lies `days` days after the first of
/// month `m` of year `y`, counting whole months off (December absorbs the
/// rest).
pub open spec fn date_in_year(days: nat, y: nat, m: nat) -> (nat, nat, nat)
    decreases 12 - m,
{
    if m >= 12 || days < month_len(y, m) {
        (y, m, days + 1)
    } else {
        date_in_year((days - month_len(y, m)) as nat, y, m + 1)
    }
}

/// The date that lies `days` days after January 1st of year `y`, counting
/// whole years off first.
pub open spec fn date_from(days: nat, y: nat) -> (nat, nat, nat)
    decreases days,
{
    if days < year_len(y) {
        date_in_year(days, y, 1)
    } else {
        date_from((days - year_len(y)) as nat, y + 1)
    }
}

/// UTC calendar date of the day `days` days after 1970-01-01.
pub open spec fn civil_date(days: nat) -> (nat, nat, nat) {
    date_from(days, 1970)
}

/// `yyyymmdd-hhmmss` for `secs` seconds after the UNIX epoch (the year is
/// always at least 1970, so it never needs zero padding).
pub open spec fn utc_stamp(secs: nat) -> Seq<char> {
    let date = civil_date(secs / 86400);
    let tod = secs % 86400;
    decimal(date.0) + two_digits(date.1) + two_digits(date.2) + seq!['-'] + two_digits(tod / 3600)
        + two_digits(tod % 3600 / 60) + two_digits(tod % 60)
}

/// Days from the first of month `m` to the end of year `y`.
pub open spec fn rest_of_year(y: nat, m: nat) -> nat
    decreases 13 - m,
{
    if m >= 13 {
        0
    } else {
        month_len(y, m) + rest_of_year(y, m + 1)
    }
}

/// Days in the years `0 .. y` of the proleptic Gregorian calendar.
pub open spec fn days_before(y: nat) -> int {
    365 * y + (y + 3) / 4 - (y + 99) / 100 + (y + 399) / 400
}

proof fn lemma_year_len_step(y: nat)
    ensures
        days_before(y + 1) == days_before(y) + year_len(y),
{
    assert((y + 4) / 4 == (y + 3) / 4 + if y % 4 == 0 { 1int } else { 0int }) by (nonlinear_arith);
    assert((y + 100) / 100 == (y + 99) / 100 + if y % 100 == 0 { 1int } else { 0int })
        by (nonlinear_arith);
    assert((y + 400) / 400 == (y + 399) / 400 + if y % 400 == 0 { 1int } else { 0int })
        by (nonlinear_arith);
}

/// Total length of the `k` years starting at year `y`.
pub open spec fn span(y: nat, k: nat) -> nat
    decreases k,
{
    if k == 0 {
        0
    } else {
        span(y, (k - 1) as nat) + year_len((y + k - 1) as nat)
    }
}

proof fn lemma_span_closed(y: nat, k: nat)
    ensures
        span(y, k) == days_before(y + k) - days_before(y),
    decreases k,
{
    if k > 0 {
        lemma_span_closed(y, (k - 1) as nat);
        lemma_year_len_step((y + k - 1) as nat);
    }
}

/// Any 400 consecutive years hold 146097 days.
proof fn lemma_span_400(y: nat)
    ensures
        span(y, 400) == 146097,
{
    lemma_span_closed(y, 400);
    assert((y + 403) / 4 == (y + 3) / 4 + 100) by (nonlinear_arith);
    assert((y + 499) / 100 == (y + 99) / 100 + 4) by (nonlinear_arith);
    assert((y + 799) / 400 == (y + 399) / 400 + 1) by (nonlinear_arith);
}

/// Counting off the first `k` years one by one lands where counting them
/// off at once does.
proof fn lemma_skip_years(days: nat, y: nat, k: nat)
    requires
        days >= span(y, k),
    ensures
        date_from(days, y) == date_from((days - span(y, k)) as nat, y + k),
    decreases k,
{
    if k > 0 {
        lemma_skip_years(days, y, (k - 1) as nat);
        let rest = (days - span(y, (k - 1) as nat)) as nat;
        assert(rest >= year_len((y + k - 1) as nat));
        assert(date_from(rest, (y + k - 1) as nat) == date_from(
            (rest - year_len((y + k - 1) as nat)) as nat,
            y + k,
        ));
    }
}

proof fn lemma_skip_eras(days: nat, y: nat, e: nat)
    requires
        days >= 146097 * e,
    ensures
        date_from(days, y) == date_from((days - 146097 * e) as nat, y + 400 * e),
    decreases e,
{
    if e > 0 {
        lemma_span_400(y);
        lemma_skip_years(days, y, 400);
        lemma_skip_eras((days - 146097) as nat, y + 400, (e - 1) as nat);
    }
}

fn year_length(y: u64) -> (len: u64)
    ensures
        len == year_len(y as nat),
{
    if y % 4 == 0 && (y % 100 != 0 || y % 400 == 0) {
        366
    } else {
        365
    }
}

fn month_length(y: u64, m: u64) -> (len: u64)
    ensures
        len == month_len(y as nat, m as nat),
{
    if m == 2 {
        if y % 4 == 0 && (y % 100 != 0 || y % 400 == 0) {
            29
        } else {
            28
        }
    } else if m == 4 || m == 6 || m == 9 || m == 11 {
        30
    } else {
        31
    }
}

/// UTC `yyyymmdd-hhmmss` for `secs` seconds after the UNIX epoch.
pub fn capture_timestamp(secs: u64) -> (text: String)
    ensures
        text@ == utc_stamp(secs as nat),
{
    let days = secs / 86400;
    let tod = secs % 86400;
    let era = days / 146097;
    let mut rem = days % 146097;
    let mut y: u64 = 1970 + 400 * era;
    proof {
        lemma_skip_eras(days as nat, 1970, era as nat);
    }
    let ghost rem0 = rem;
    let ghost y0 = y;
    while rem >= year_length(y)
        invariant
            y0 <= y,
            365 * (y - y0) + rem <= rem0,
            rem0 < 146097,
            y0 + 146097 < u64::MAX,
            date_from(rem as nat, y as nat) == civil_date(days as nat),
        decreases rem,
    {
        rem = rem - year_length(y);
        y = y + 1;
    }
    let mut m: u64 = 1;
    proof {
        reveal_with_fuel(rest_of_year, 13);
    }
    while m < 12 && rem >= month_length(y, m)
        invariant
            1 <= m <= 12,
            date_in_year(rem as nat, y as nat, m as nat) == civil_date(days as nat),
            rem < rest_of_year(y as nat, m as nat),
        decreases 12 - m,
    {
        rem = rem - month_length(y, m);
        m = m + 1;
    }
    assert(rem < 31);
    let mut out = String::new();
    push_decimal(&mut out, y);
    push_two_digits(&mut out, m);
    push_two_digits(&mut out, rem + 1);
    push_char(&mut out, '-');
    push_two_digits(&mut out, tod / 3600);
    push_two_digits(&mut out, tod % 3600 / 60);
    push_two_digits(&mut out, tod % 60);
    out
}

#[verifier::external_type_specification]
#[verifier::external_body]
pub struct ExSystemTime(std::time::SystemTime);

#[verifier::external_type_specification]
#[verifier::external_body]
pub struct ExSystemTimeError(std::time::SystemTimeError);

/// `SystemTime::now`: the current reading of the system clock. Nothing is
/// stated of it: it is whatever the clock says.
#[verifier::external_body]
fn system_now() -> (now: std::time::SystemTime) {
    std::time::SystemTime::now()
}

/// `SystemTime::duration_since(UNIX_EPOCH)`: how long after the UNIX epoch
/// `t` lies, or an error when `t` lies before it. Nothing is stated of the
/// outcome, which rests on the clock reading.
#[verifier::external_body]
fn since_unix_epoch(t: &std::time::SystemTime) -> (elapsed: Result<std::time::Duration, std::time::SystemTimeError>) {
    t.duration_since(std::time::UNIX_EPOCH)
}

/// `Duration::as_secs`: the whole seconds of `d`. Nothing is stated of the
/// value, since a `Duration` here only ever comes from the clock.
#[verifier::external_body]
fn whole_secs(d: &std::time::Duration) -> (secs: u64) {
    d.as_secs()
}

/// Timestamp for a clock reading: the UTC stamp of the reading, or
/// `unknown-time` when the clock gave none.
pub fn stamp_for_clock(reading: Option<u64>) -> (text: String)
    ensures
        match reading {
            Some(secs) => text@ == utc_stamp(secs as nat),
            None => text@ == "unknown-time"@,
        },
{
    match reading {
        Some(secs) => capture_timestamp(secs),
        None => String::from_str("unknown-time"),
    }
}

/// Current UTC timestamp for windowed captures; `unknown-time` when the
/// clock is unavailable (never a panic on a dev tool path).
pub fn capture_now_timestamp() -> (text: String)
    ensures
        text@ == "unknown-time"@ || exists|secs: nat| secs <= u64::MAX && text@ == utc_stamp(secs),
{
    let now = system_now();
    let reading = match since_unix_epoch(&now) {
        Ok(elapsed) => Some(whole_secs(&elapsed)),
        Err(_) => None,
    };
    let text = stamp_for_clock(reading);
    proof {
        if let Some(secs) = reading {
            assert(secs as nat <= u64::MAX && text@ == utc_stamp(secs as nat));
        }
    }
    text
}

/// Days from January 1st of year `y` to the first of month `m`.
pub open spec fn days_before_month(y: nat, m: nat) -> nat
    decreases m,
{
    if m <= 1 {
        0
    } else {
        days_before_month(y, (m - 1) as nat) + month_len(y, (m - 1) as nat)
    }
}

/// Days from 1970-01-01 to the date `(y, m, d)` of a year `y >= 1970`.
pub open spec fn day_number(date: (nat, nat, nat)) -> int {
    span(1970, (date.0 - 1970) as nat) + days_before_month(date.0, date.1) + date.2 - 1
}

/// A real calendar date no earlier than 1970.
pub open spec fn valid_date(date: (nat, nat, nat)) -> bool {
    &&& date.0 >= 1970
    &&& 1 <= date.1 <= 12
    &&& 1 <= date.2 <= month_len(date.0, date.1)
}

proof fn lemma_month_split(y: nat, m: nat)
    requires
        1 <= m <= 13,
    ensures
        days_before_month(y, m) + rest_of_year(y, m) == year_len(y),
    decreases 13 - m,
{
    if m < 13 {
        lemma_month_split(y, m + 1);
    } else {
        reveal_with_fuel(days_before_month, 13);
    }
}

proof fn lemma_date_in_year(days: nat, y: nat, m: nat)
    requires
        1 <= m <= 12,
        days < rest_of_year(y, m),
    ensures
        date_in_year(days, y, m).0 == y,
        1 <= date_in_year(days, y, m).1 <= 12,
        1 <= date_in_year(days, y, m).2 <= month_len(y, date_in_year(days, y, m).1),
        days_before_month(y, date_in_year(days, y, m).1) + date_in_year(days, y, m).2 - 1
            == days_before_month(y, m) + days,
    decreases 12 - m,
{
    if m < 12 && days >= month_len(y, m) {
        lemma_date_in_year((days - month_len(y, m)) as nat, y, m + 1);
    } else if m == 12 {
        reveal_with_fuel(rest_of_year, 2);
    }
}

proof fn lemma_date_from(days: nat, y: nat)
    requires
        y >= 1970,
    ensures
        valid_date(date_from(days, y)),
        date_from(days, y).0 >= y,
        day_number(date_from(days, y)) == span(1970, (y - 1970) as nat) + days,
    decreases days,
{
    if days < year_len(y) {
        lemma_month_split(y, 1);
        lemma_date_in_year(days, y, 1);
    } else {
        lemma_date_from((days - year_len(y)) as nat, y + 1);
        assert(span(1970, (y + 1 - 1970) as nat) == span(1970, (y - 1970) as nat) + year_len(y));
    }
}

/// Every day from the epoch on falls on exactly one real calendar date,
/// and that date counts back to the same day: the date a timestamp shows
/// names its day, no other.
pub proof fn civil_date_counts_back(days: nat)
    ensures
        valid_date(civil_date(days)),
        day_number(civil_date(days)) == days,
{
    lemma_date_from(days, 1970);
}

/// Two different days never share a calendar date.
pub proof fn civil_date_injective(a: nat, b: nat)
    requires
        civil_date(a) == civil_date(b),
    ensures
        a == b,
{
    civil_date_counts_back(a);
    civil_date_counts_back(b);
}

proof fn lemma_year_below(days: nat, y: nat, k: nat)
    requires
        days < span(y, k),
    ensures
        date_from(days, y).0 < y + k,
    decreases days,
{
    lemma_span_closed(y, k);
    if days >= year_len(y) {
        lemma_year_len_step(y);
        lemma_span_closed(y + 1, (k - 1) as nat);
        lemma_year_below((days - year_len(y)) as nat, y + 1, (k - 1) as nat);
    } else {
        reveal_with_fuel(date_in_year, 13);
        lemma_month_split(y, 1);
        lemma_date_in_year(days, y, 1);
        if k == 0 {
            assert(span(y, k) == 0);
        }
    }
}

/// Until the end of year 9999 (`253402300800` seconds), every timestamp
/// is 15 characters with the date/time dash at index 8.
pub proof fn stamp_shape(secs: nat)
    requires
        secs < 253402300800,
    ensures
        utc_stamp(secs).len() == 15,
        utc_stamp(secs)[8] == '-',
{
    let days = secs / 86400;
    lemma_span_closed(1970, 8030);
    lemma_year_below(days, 1970, 8030);
    lemma_date_from(days, 1970);
    let y = civil_date(days).0;
    assert(1970 <= y < 10000);
    assert(decimal(y).len() == 4) by {
        reveal_with_fuel(decimal, 5);
    }
}

/// `s` sorts strictly before `t` in character order: they agree up to some
/// position, where `s` holds the smaller character.
pub open spec fn lex_less(s: Seq<char>, t: Seq<char>) -> bool {
    exists|i: int| 0 <= i < s.len() && i < t.len() && s.take(i) == t.take(i) && s[i] < t[i]
}

pub open spec fn all_digits(s: Seq<char>) -> bool {
    forall|i: int| 0 <= i < s.len() ==> is_digit(#[trigger] s[i])
}

proof fn lemma_digits_drop_last(s: Seq<char>)
    requires
        s.len() > 0,
        all_digits(s),
    ensures
        all_digits(s.drop_last()),
        digits_value(s) == digits_value(s.drop_last()) * 10 + digit_value(s.last()),
        digit_value(s.last()) < 10,
{
    assert(is_digit(s[s.len() - 1]));
    assert forall|i: int| 0 <= i < s.drop_last().len() implies is_digit(#[trigger] s.drop_last()[i]) by {
        assert(s.drop_last()[i] == s[i]);
    }
}

proof fn lemma_digits_injective(s: Seq<char>, t: Seq<char>)
    requires
        s.len() == t.len(),
        all_digits(s),
        all_digits(t),
        digits_value(s) == digits_value(t),
    ensures
        s == t,
    decreases s.len(),
{
    if s.len() > 0 {
        lemma_digits_drop_last(s);
        lemma_digits_drop_last(t);
        let a = digits_value(s.drop_last());
        let b = digits_value(t.drop_last());
        let x = digit_value(s.last());
        let y = digit_value(t.last());
        assert(a == b && x == y) by (nonlinear_arith)
            requires
                a * 10 + x == b * 10 + y,
                x < 10,
                y < 10,
        ;
        lemma_digits_injective(s.drop_last(), t.drop_last());
        assert(s.last() == t.last());
        assert(s =~= s.drop_last().push(s.last()));
        assert(t =~= t.drop_last().push(t.last()));
    } else {
        assert(s =~= t);
    }
}

/// Equal-length digit strings sort by value.
proof fn lemma_digits_order(s: Seq<char>, t: Seq<char>)
    requires
        s.len() == t.len(),
        all_digits(s),
        all_digits(t),
        digits_value(s) < digits_value(t),
    ensures
        lex_less(s, t),
    decreases s.len(),
{
    lemma_digits_drop_last(s);
    lemma_digits_drop_last(t);
    let a = digits_value(s.drop_last());
    let b = digits_value(t.drop_last());
    let x = digit_value(s.last());
    let y = digit_value(t.last());
    assert(a <= b) by (nonlinear_arith)
        requires
            a * 10 + x < b * 10 + y,
            x < 10,
            y < 10,
    ;
    let n = s.len() - 1;
    if a < b {
        lemma_digits_order(s.drop_last(), t.drop_last());
        let i = choose|i: int|
            0 <= i < s.drop_last().len() && i < t.drop_last().len() && s.drop_last().take(i)
                == t.drop_last().take(i) && s.drop_last()[i] < t.drop_last()[i];
        assert(s.take(i) =~= s.drop_last().take(i));
        assert(t.take(i) =~= t.drop_last().take(i));
        assert(s[i] == s.drop_last()[i] && t[i] == t.drop_last()[i]);
    } else {
        lemma_digits_injective(s.drop_last(), t.drop_last());
        assert(s.take(n) =~= s.drop_last());
        assert(t.take(n) =~= t.drop_last());
        assert(x < y);
        assert(s[n] < t[n]);
    }
}

proof fn lemma_digits_concat(x: Seq<char>, y: Seq<char>)
    ensures
        digits_value(x + y) == digits_value(x) * pow(10, y.len()) + digits_value(y),
    decreases y.len(),
{
    reveal(pow);
    if y.len() > 0 {
        lemma_digits_concat(x, y.drop_last());
        assert((x + y).drop_last() =~= x + y.drop_last());
        assert((x + y).last() == y.last());
        let p = pow(10, (y.len() - 1) as nat);
        let dx = digits_value(x);
        let dy = digits_value(y.drop_last());
        assert((dx * p + dy) * 10 == dx * (10 * p) + dy * 10) by (nonlinear_arith);
    } else {
        assert(x + y =~= x);
    }
}

proof fn lemma_all_digits_concat(x: Seq<char>, y: Seq<char>)
    requires
        all_digits(x),
        all_digits(y),
    ensures
        all_digits(x + y),
{
    assert forall|i: int| 0 <= i < (x + y).len() implies is_digit(#[trigger] (x + y)[i]) by {
        if i < x.len() {
            assert((x + y)[i] == x[i]);
        } else {
            assert((x + y)[i] == y[i - x.len()]);
        }
    }
}

proof fn lemma_two_digits(n: nat)
    requires
        n < 100,
    ensures
        all_digits(two_digits(n)),
        digits_value(two_digits(n)) == n,
        two_digits(n).len() == 2,
{
    let t = two_digits(n);
    assert(digit_value(digit_char(n / 10)) == n / 10);
    assert(digit_value(digit_char(n % 10)) == n % 10);
    assert(t.drop_last() =~= seq![digit_char(n / 10)]);
    assert(t.drop_last().drop_last() =~= Seq::<char>::empty());
    assert(digits_value(Seq::<char>::empty()) == 0);
    assert(digits_value(seq![digit_char(n / 10)]) == n / 10);
}

proof fn lemma_lex_prefix(x1: Seq<char>, x2: Seq<char>, y1: Seq<char>, y2: Seq<char>)
    requires
        x1.len() == x2.len(),
        lex_less(x1, x2),
    ensures
        lex_less(x1 + y1, x2 + y2),
{
    let i = choose|i: int| 0 <= i < x1.len() && i < x2.len() && x1.take(i) == x2.take(i) && x1[i] < x2[i];
    assert((x1 + y1).take(i) =~= x1.take(i));
    assert((x2 + y2).take(i) =~= x2.take(i));
    assert((x1 + y1)[i] == x1[i] && (x2 + y2)[i] == x2[i]);
}

proof fn lemma_lex_suffix(x: Seq<char>, y1: Seq<char>, y2: Seq<char>)
    requires
        lex_less(y1, y2),
    ensures
        lex_less(x + y1, x + y2),
{
    let j = choose|j: int| 0 <= j < y1.len() && j < y2.len() && y1.take(j) == y2.take(j) && y1[j] < y2[j];
    let i = x.len() + j;
    assert((x + y1).take(i) =~= x + y1.take(j));
    assert((x + y2).take(i) =~= x + y2.take(j));
    assert((x + y1)[i] == y1[j] && (x + y2)[i] == y2[j]);
}

/// Dates in calendar order.
pub open spec fn date_less(a: (nat, nat, nat), b: (nat, nat, nat)) -> bool {
    ||| a.0 < b.0
    ||| a.0 == b.0 && a.1 < b.1
    ||| a.0 == b.0 && a.1 == b.1 && a.2 < b.2
}

proof fn lemma_span_grow(y: nat, k1: nat, k2: nat)
    requires
        k1 < k2,
    ensures
        span(y, k2) >= span(y, k1) + year_len(y + k1),
    decreases k2,
{
    if k2 > k1 + 1 {
        lemma_span_grow(y, k1, (k2 - 1) as nat);
    }
}

proof fn lemma_months_grow(y: nat, m1: nat, m2: nat)
    requires
        m1 >= 1,
        m1 < m2,
    ensures
        days_before_month(y, m2) >= days_before_month(y, m1) + month_len(y, m1),
    decreases m2,
{
    if m2 > m1 + 1 {
        lemma_months_grow(y, m1, (m2 - 1) as nat);
    }
}

proof fn lemma_within_year(date: (nat, nat, nat))
    requires
        valid_date(date),
    ensures
        days_before_month(date.0, date.1) + date.2 - 1 < year_len(date.0),
{
    lemma_month_split(date.0, date.1);
}

proof fn lemma_day_number_order(a: (nat, nat, nat), b: (nat, nat, nat))
    requires
        valid_date(a),
        valid_date(b),
        date_less(a, b),
    ensures
        day_number(a) < day_number(b),
{
    if a.0 < b.0 {
        lemma_span_grow(1970, (a.0 - 1970) as nat, (b.0 - 1970) as nat);
        lemma_within_year(a);
    } else if a.1 < b.1 {
        lemma_months_grow(a.0, a.1, b.1);
    }
}

proof fn lemma_clock_split(t: nat)
    ensures
        t == 3600 * (t / 3600) + 60 * (t % 3600 / 60) + t % 60,
        t % 3600 / 60 < 60,
        t % 60 < 60,
{
    lemma_fundamental_div_mod(t as int, 3600);
    lemma_fundamental_div_mod((t % 3600) as int, 60);
    lemma_mod_mod(t as int, 60, 60);
}

proof fn lemma_clock_order(t1: nat, t2: nat)
    requires
        t1 < t2 < 86400,
    ensures
        (t1 / 3600) * 10000 + (t1 % 3600 / 60) * 100 + t1 % 60 < (t2 / 3600) * 10000 + (t2 % 3600
            / 60) * 100 + t2 % 60,
{
    let h1 = t1 / 3600;
    let m1 = t1 % 3600 / 60;
    let s1 = t1 % 60;
    let h2 = t2 / 3600;
    let m2 = t2 % 3600 / 60;
    let s2 = t2 % 60;
    lemma_clock_split(t1);
    lemma_clock_split(t2);
    assert(h1 < h2 || (h1 == h2 && m1 < m2) || (h1 == h2 && m1 == m2 && s1 < s2));
}

proof fn lemma_stamp_parts(secs: nat)
    requires
        secs < 253402300800,
    ensures
        ({
            let date = civil_date(secs / 86400);
            let tod = secs % 86400;
            let a = decimal(date.0) + two_digits(date.1) + two_digits(date.2);
            let b = two_digits(tod / 3600) + two_digits(tod % 3600 / 60) + two_digits(tod % 60);
            &&& utc_stamp(secs) == a + seq!['-'] + b
            &&& a.len() == 8 && all_digits(a)
            &&& b.len() == 6 && all_digits(b)
            &&& digits_value(a) == date.0 * 10000 + date.1 * 100 + date.2
            &&& digits_value(b) == (tod / 3600) * 10000 + (tod % 3600 / 60) * 100 + tod % 60
            &&& valid_date(date)
            &&& day_number(date) == secs / 86400
        }),
{
    let days = secs / 86400;
    let tod = secs % 86400;
    lemma_span_closed(1970, 8030);
    lemma_year_below(days, 1970, 8030);
    lemma_date_from(days, 1970);
    let date = civil_date(days);
    let y = date.0;
    assert(decimal(y).len() == 4) by {
        reveal_with_fuel(decimal, 5);
    }
    lemma_decimal_digits(y);
    assert(all_digits(decimal(y)));
    lemma_two_digits(date.1);
    lemma_two_digits(date.2);
    lemma_two_digits(tod / 3600);
    lemma_two_digits(tod % 3600 / 60);
    lemma_two_digits(tod % 60);
    let ym = decimal(y) + two_digits(date.1);
    let a = ym + two_digits(date.2);
    let hm = two_digits(tod / 3600) + two_digits(tod % 3600 / 60);
    let b = hm + two_digits(tod % 60);
    reveal_with_fuel(pow, 3);
    lemma_digits_concat(decimal(y), two_digits(date.1));
    lemma_digits_concat(ym, two_digits(date.2));
    lemma_digits_concat(two_digits(tod / 3600), two_digits(tod % 3600 / 60));
    lemma_digits_concat(hm, two_digits(tod % 60));
    lemma_all_digits_concat(decimal(y), two_digits(date.1));
    lemma_all_digits_concat(ym, two_digits(date.2));
    lemma_all_digits_concat(two_digits(tod / 3600), two_digits(tod % 3600 / 60));
    lemma_all_digits_concat(hm, two_digits(tod % 60));
    civil_date_counts_back(days);
    assert(utc_stamp(secs) =~= a + seq!['-'] + b);
    assert(a.len() == 8);
    assert(all_digits(a));
    assert(b.len() == 6);
    assert(all_digits(b));
    assert(pow(10, 2) == 100);
    assert(digits_value(ym) == y * 100 + date.1);
    assert(digits_value(a) == digits_value(ym) * 100 + date.2);
    assert(digits_value(hm) == (tod / 3600) * 100 + tod % 3600 / 60);
    assert(digits_value(b) == digits_value(hm) * 100 + tod % 60);
    assert(digits_value(a) == y * 10000 + date.1 * 100 + date.2);
    assert(digits_value(b) == (tod / 3600) * 10000 + (tod % 3600 / 60) * 100 + tod % 60);
}

/// Before year 10000, timestamps sort as the moments they name: a later
/// second always gives a string that sorts after.
pub proof fn stamp_order_follows_time(a: nat, b: nat)
    requires
        a < b < 253402300800,
    ensures
        lex_less(utc_stamp(a), utc_stamp(b)),
{
    lemma_stamp_parts(a);
    lemma_stamp_parts(b);
    let da = a / 86400;
    let db = b / 86400;
    vstd::arithmetic::div_mod::lemma_div_is_ordered(a as int, b as int, 86400);
    let date_a = civil_date(da);
    let date_b = civil_date(db);
    let ta = a % 86400;
    let tb = b % 86400;
    let pa = decimal(date_a.0) + two_digits(date_a.1) + two_digits(date_a.2);
    let pb = decimal(date_b.0) + two_digits(date_b.1) + two_digits(date_b.2);
    let qa = two_digits(ta / 3600) + two_digits(ta % 3600 / 60) + two_digits(ta % 60);
    let qb = two_digits(tb / 3600) + two_digits(tb % 3600 / 60) + two_digits(tb % 60);
    if da < db {
        if !date_less(date_a, date_b) {
            if date_a == date_b {
                assert(false);
            } else {
                lemma_day_number_order(date_b, date_a);
            }
        }
        assert(digits_value(pa) < digits_value(pb));
        lemma_digits_order(pa, pb);
        lemma_lex_prefix(pa, pb, seq!['-'] + qa, seq!['-'] + qb);
        assert(pa + seq!['-'] + qa =~= pa + (seq!['-'] + qa));
        assert(pb + seq!['-'] + qb =~= pb + (seq!['-'] + qb));
    } else {
        lemma_fundamental_div_mod(a as int, 86400);
        lemma_fundamental_div_mod(b as int, 86400);
        assert(ta < tb);
        lemma_clock_order(ta, tb);
        lemma_digits_order(qa, qb);
        lemma_lex_suffix(pa + seq!['-'], qa, qb);
    }
}

/// The Gregorian calendar's shape: in year `y` (leap when divisible by 4,
/// except centuries not divisible by 400), month `m` begins on the day of
/// the year listed here (January 1st is day 0), the year has 365 or 366
/// days, and no month runs past its last day: April, June, September and
/// November have 30 days and February 28 or 29.
pub proof fn gregorian_months(y: nat)
    ensures
        ({
            let leap: nat = if y % 4 == 0 && (y % 100 != 0 || y % 400 == 0) { 1 } else { 0 };
            &&& days_before_month(y, 1) == 0
            &&& days_before_month(y, 2) == 31
            &&& days_before_month(y, 3) == 59 + leap
            &&& days_before_month(y, 4) == 90 + leap
            &&& days_before_month(y, 5) == 120 + leap
            &&& days_before_month(y, 6) == 151 + leap
            &&& days_before_month(y, 7) == 181 + leap
            &&& days_before_month(y, 8) == 212 + leap
            &&& days_before_month(y, 9) == 243 + leap
            &&& days_before_month(y, 10) == 273 + leap
            &&& days_before_month(y, 11) == 304 + leap
            &&& days_before_month(y, 12) == 334 + leap
            &&& days_before_month(y, 13) == 365 + leap
            &&& year_len(y) == 365 + leap
        }),
        !valid_date((y, 4, 31)),
        !valid_date((y, 6, 31)),
        !valid_date((y, 9, 31)),
        !valid_date((y, 11, 31)),
        !valid_date((y, 2, 30)),
        valid_date((y, 2, 29)) ==> y % 4 == 0 && (y % 100 != 0 || y % 400 == 0),
        y >= 1970 ==> forall|m: nat| 1 <= m <= 12 ==> valid_date((y, m, 28)),
{
    reveal_with_fuel(days_before_month, 14);
}

/// The leap rule repeats every 400 years: any 400 consecutive years hold
/// exactly 146097 days (97 of them leap years).
pub proof fn gregorian_cycle(y: nat)
    ensures
        span(y, 400) == 146097,
{
    lemma_span_400(y);
}

/// Reading a timestamp back gives the moment it was made from: before year
/// 10000 the first eight characters are digits naming a real calendar date
/// (year, month, day), then a dash, then six digits naming hours, minutes
/// and seconds within that day, and that date and time of day together are
/// exactly `secs` seconds after 1970-01-01 00:00:00.
pub proof fn stamp_reads_back(secs: nat)
    requires
        secs < 253402300800,
    ensures
        ({
            let s = utc_stamp(secs);
            let y = digits_value(s.take(4));
            let m = digits_value(s.subrange(4, 6));
            let d = digits_value(s.subrange(6, 8));
            let hh = digits_value(s.subrange(9, 11));
            let mm = digits_value(s.subrange(11, 13));
            let ss = digits_value(s.subrange(13, 15));
            &&& s.len() == 15
            &&& s[8] == '-'
            &&& all_digits(s.take(8))
            &&& all_digits(s.subrange(9, 15))
            &&& valid_date((y, m, d))
            &&& hh < 24 && mm < 60 && ss < 60
            &&& day_number((y, m, d)) * 86400 + hh * 3600 + mm * 60 + ss == secs
        }),
{
    lemma_stamp_parts(secs);
    let days = secs / 86400;
    let tod = secs % 86400;
    let date = civil_date(days);
    let s = utc_stamp(secs);
    let a = decimal(date.0) + two_digits(date.1) + two_digits(date.2);
    let b = two_digits(tod / 3600) + two_digits(tod % 3600 / 60) + two_digits(tod % 60);
    lemma_decimal_digits(date.0);
    lemma_two_digits(date.1);
    lemma_two_digits(date.2);
    lemma_two_digits(tod / 3600);
    lemma_two_digits(tod % 3600 / 60);
    lemma_two_digits(tod % 60);
    assert(s.take(4) =~= decimal(date.0));
    assert(s.subrange(4, 6) =~= two_digits(date.1));
    assert(s.subrange(6, 8) =~= two_digits(date.2));
    assert(s.subrange(9, 11) =~= two_digits(tod / 3600));
    assert(s.subrange(11, 13) =~= two_digits(tod % 3600 / 60));
    assert(s.subrange(13, 15) =~= two_digits(tod % 60));
    assert(s.take(8) =~= a);
    assert(s.subrange(9, 15) =~= b);
    lemma_fundamental_div_mod(secs as int, 86400);
    lemma_clock_split(tod);
}

} // verus!
