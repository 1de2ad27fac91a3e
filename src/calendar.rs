//! Calendar dates and the normalisation of the date argument into a date key.
use chrono::Datelike;
use vstd::prelude::*;

use crate::error::AppError;

verus! {

/// The earliest year of a date that chrono can represent.
pub const MIN_YEAR: i32 = -262143;

/// The latest year of a date that chrono can represent.
pub const MAX_YEAR: i32 = 262142;

pub open spec fn is_leap_year(y: int) -> bool {
    (y % 4 == 0 && y % 100 != 0) || y % 400 == 0
}

/// Number of days of month `m` (1 to 12) in year `y`.
pub open spec fn month_length(y: int, m: int) -> int {
    if m == 2 {
        if is_leap_year(y) {
            29
        } else {
            28
        }
    } else if m == 4 || m == 6 || m == 9 || m == 11 {
        30
    } else {
        31
    }
}

/// A day of the proleptic Gregorian calendar, as (year, month, day), within
/// the range of years that chrono covers.
pub open spec fn is_calendar_date(d: (i32, u32, u32)) -> bool {
    &&& MIN_YEAR <= d.0 <= MAX_YEAR
    &&& 1 <= d.1 <= 12
    &&& 1 <= d.2 <= month_length(d.0 as int, d.1 as int)
}

/// The first day that chrono can represent: it has no day before it.
pub open spec fn is_first_day(d: (i32, u32, u32)) -> bool {
    d.0 == MIN_YEAR && d.1 == 1 && d.2 == 1
}

/// The calendar day before `d`.
pub open spec fn day_before_spec(d: (i32, u32, u32)) -> (i32, u32, u32) {
    if d.2 > 1 {
        (d.0, d.1, (d.2 - 1) as u32)
    } else if d.1 > 1 {
        (d.0, (d.1 - 1) as u32, month_length(d.0 as int, d.1 - 1) as u32)
    } else {
        ((d.0 - 1) as i32, 12, 31)
    }
}

pub fn is_leap(y: i32) -> (r: bool)
    ensures
        r == is_leap_year(y as int),
{
    // Shifted by a multiple of 400 so that the remainders are taken of a
    // non-negative number.
    let n: i64 = y as i64 + 2147483600;
    proof {
        let k: int = 5368709;
        assert(n as int == y as int + 400 * k);
        assert(n as int % 4 == y as int % 4) by (nonlinear_arith)
            requires
                n as int == y as int + 400 * k,
        ;
        assert(n as int % 100 == y as int % 100) by (nonlinear_arith)
            requires
                n as int == y as int + 400 * k,
        ;
        assert(n as int % 400 == y as int % 400) by (nonlinear_arith)
            requires
                n as int == y as int + 400 * k,
        ;
    }
    (n % 4 == 0 && n % 100 != 0) || n % 400 == 0
}

pub fn days_in_month(y: i32, m: u32) -> (r: u32)
    requires
        1 <= m <= 12,
    ensures
        r == month_length(y as int, m as int),
{
    if m == 2 {
        if is_leap(y) {
            29
        } else {
            28
        }
    } else if m == 4 || m == 6 || m == 9 || m == 11 {
        30
    } else {
        31
    }
}

/// The day before `d`.
pub fn day_before(d: (i32, u32, u32)) -> (r: (i32, u32, u32))
    requires
        is_calendar_date(d),
        !is_first_day(d),
    ensures
        r == day_before_spec(d),
        is_calendar_date(r),
{
    let (y, m, day) = d;
    if day > 1 {
        (y, m, day - 1)
    } else if m > 1 {
        (y, m - 1, days_in_month(y, m - 1))
    } else {
        (y - 1, 12, 31)
    }
}

pub open spec fn digit_char(n: int) -> char {
    if n == 0 {
        '0'
    } else if n == 1 {
        '1'
    } else if n == 2 {
        '2'
    } else if n == 3 {
        '3'
    } else if n == 4 {
        '4'
    } else if n == 5 {
        '5'
    } else if n == 6 {
        '6'
    } else if n == 7 {
        '7'
    } else if n == 8 {
        '8'
    } else {
        '9'
    }
}

/// The last `width` decimal digits of `n`, zero-padded on the left.
pub open spec fn padded_digits(n: nat, width: nat) -> Seq<char>
    decreases width,
{
    if width == 0 {
        Seq::empty()
    } else {
        padded_digits(n / 10, (width - 1) as nat).push(digit_char(n as int % 10))
    }
}

/// The `YYYY-MM-DD` text of a date whose year has at most four digits.
pub open spec fn date_text(y: i32, m: u32, d: u32) -> Seq<char> {
    padded_digits(y as nat, 4) + seq!['-'] + padded_digits(m as nat, 2) + seq!['-']
        + padded_digits(d as nat, 2)
}

pub open spec fn is_digit(c: char) -> bool {
    '0' <= c <= '9'
}

pub open spec fn digit_value(c: char) -> int {
    if c == '0' {
        0
    } else if c == '1' {
        1
    } else if c == '2' {
        2
    } else if c == '3' {
        3
    } else if c == '4' {
        4
    } else if c == '5' {
        5
    } else if c == '6' {
        6
    } else if c == '7' {
        7
    } else if c == '8' {
        8
    } else {
        9
    }
}

pub open spec fn pow10(n: nat) -> int
    decreases n,
{
    if n == 0 {
        1
    } else {
        10 * pow10((n - 1) as nat)
    }
}

/// The number that the decimal digits `s` write.
pub open spec fn decimal_value(s: Seq<char>) -> int
    decreases s.len(),
{
    if s.len() == 0 {
        0
    } else {
        decimal_value(s.drop_last()) * 10 + digit_value(s.last())
    }
}

/// Text of exactly the `YYYY-MM-DD` shape: four digits, `-`, two digits,
/// `-`, two digits.
pub open spec fn has_date_shape(s: Seq<char>) -> bool {
    &&& s.len() == 10
    &&& s[4] == '-'
    &&& s[7] == '-'
    &&& forall|i: int| 0 <= i < 10 && i != 4 && i != 7 ==> is_digit(#[trigger] s[i])
}

/// The (year, month, day) written by text of the `YYYY-MM-DD` shape.
pub open spec fn shape_fields(s: Seq<char>) -> (i32, u32, u32) {
    (
        decimal_value(s.subrange(0, 4)) as i32,
        decimal_value(s.subrange(5, 7)) as u32,
        decimal_value(s.subrange(8, 10)) as u32,
    )
}

/// A date key in normal form: `YYYY-MM-DD` text naming a calendar date.
pub open spec fn is_date_text(s: Seq<char>) -> bool {
    has_date_shape(s) && is_calendar_date(shape_fields(s))
}

/// ASCII text without upper-case letters: lower-casing leaves it as it is.
pub open spec fn is_lower_ascii(s: Seq<char>) -> bool {
    forall|i: int| 0 <= i < s.len() ==> ('\0' <= #[trigger] s[i] <= '\u{7f}' && !('A' <= s[i] <= 'Z'))
}

/// Digits read as a number and written back with as many digits give the
/// same text.
proof fn lemma_digits_round_trip(s: Seq<char>)
    requires
        forall|i: int| 0 <= i < s.len() ==> is_digit(#[trigger] s[i]),
    ensures
        0 <= decimal_value(s) < pow10(s.len()),
        padded_digits(decimal_value(s) as nat, s.len()) == s,
    decreases s.len(),
{
    if s.len() > 0 {
        let t = s.drop_last();
        assert forall|i: int| 0 <= i < t.len() implies is_digit(#[trigger] t[i]) by {
            assert(t[i] == s[i]);
        }
        lemma_digits_round_trip(t);
        let a = decimal_value(t);
        let c = s.last();
        assert(is_digit(s[s.len() - 1]));
        let d = digit_value(c);
        assert(0 <= d <= 9);
        assert(digit_char(d) == c);
        let v = a * 10 + d;
        assert(v / 10 == a && v % 10 == d) by (nonlinear_arith)
            requires
                v == a * 10 + d,
                0 <= a,
                0 <= d <= 9,
        ;
        assert(v < pow10(s.len())) by (nonlinear_arith)
            requires
                v == a * 10 + d,
                a < pow10(t.len()),
                pow10(s.len()) == 10 * pow10(t.len()),
                0 <= d <= 9,
        ;
        assert(padded_digits(v as nat, s.len()) == padded_digits(a as nat, t.len()).push(digit_char(d)));
        assert(t.push(c) =~= s);
    }
}

/// Text of the `YYYY-MM-DD` shape is lower-case ASCII, has a year from 0 to
/// 9999, and is the normal-form text of the fields it writes.
proof fn lemma_date_shape(s: Seq<char>)
    requires
        has_date_shape(s),
    ensures
        is_lower_ascii(s),
        0 <= shape_fields(s).0 <= 9999,
        date_text(shape_fields(s).0, shape_fields(s).1, shape_fields(s).2) == s,
{
    assert(is_digit(s[0]) && is_digit(s[5]) && is_digit(s[8]));
    let ys = s.subrange(0, 4);
    let ms = s.subrange(5, 7);
    let ds = s.subrange(8, 10);
    assert forall|i: int| 0 <= i < ys.len() implies is_digit(#[trigger] ys[i]) by {
        assert(ys[i] == s[i]);
    }
    assert forall|i: int| 0 <= i < ms.len() implies is_digit(#[trigger] ms[i]) by {
        assert(ms[i] == s[i + 5]);
    }
    assert forall|i: int| 0 <= i < ds.len() implies is_digit(#[trigger] ds[i]) by {
        assert(ds[i] == s[i + 8]);
    }
    lemma_digits_round_trip(ys);
    lemma_digits_round_trip(ms);
    lemma_digits_round_trip(ds);
    assert(pow10(4) == 10000 && pow10(2) == 100) by {
        reveal_with_fuel(pow10, 5);
    }
    assert(date_text(shape_fields(s).0, shape_fields(s).1, shape_fields(s).2) =~= s);
    assert forall|i: int| 0 <= i < s.len() implies ('\0' <= #[trigger] s[i] <= '\u{7f}' && !('A' <= s[i]
        <= 'Z')) by {
        if i != 4 && i != 7 {
            assert(is_digit(s[i]));
        }
    }
}

/// A number below `10^width` written with `width` digits reads back as
/// that number.
proof fn lemma_padded_digits_value(n: nat, width: nat)
    requires
        n < pow10(width),
    ensures
        padded_digits(n, width).len() == width,
        forall|i: int| 0 <= i < width ==> is_digit(#[trigger] padded_digits(n, width)[i]),
        decimal_value(padded_digits(n, width)) == n,
    decreases width,
{
    if width == 0 {
        assert(n == 0);
    } else {
        let w1 = (width - 1) as nat;
        let q = n / 10;
        assert(q < pow10(w1) && n == q * 10 + n % 10 && 0 <= n % 10 < 10) by (nonlinear_arith)
            requires
                n < pow10(width),
                pow10(width) == 10 * pow10(w1),
                q == n / 10,
        ;
        lemma_padded_digits_value(q as nat, w1);
        let p = padded_digits(n, width);
        let c = digit_char(n as int % 10);
        assert(p == padded_digits(q as nat, w1).push(c));
        assert(p.drop_last() =~= padded_digits(q as nat, w1));
        assert(digit_value(c) == n as int % 10);
        assert forall|i: int| 0 <= i < width implies is_digit(#[trigger] p[i]) by {
            if i < w1 {
                assert(p[i] == padded_digits(q as nat, w1)[i]);
            }
        }
    }
}

/// The normal-form text of a calendar date with a year from 0 to 9999 is a
/// date key in normal form.
proof fn lemma_date_text_is_date_text(y: i32, m: u32, d: u32)
    requires
        0 <= y <= 9999,
        is_calendar_date((y, m, d)),
    ensures
        is_date_text(date_text(y, m, d)),
{
    assert(pow10(4) == 10000 && pow10(2) == 100) by {
        reveal_with_fuel(pow10, 5);
    }
    lemma_padded_digits_value(y as nat, 4);
    lemma_padded_digits_value(m as nat, 2);
    lemma_padded_digits_value(d as nat, 2);
    let ys = padded_digits(y as nat, 4);
    let ms = padded_digits(m as nat, 2);
    let ds = padded_digits(d as nat, 2);
    let s = date_text(y, m, d);
    assert(s.subrange(0, 4) =~= ys);
    assert(s.subrange(5, 7) =~= ms);
    assert(s.subrange(8, 10) =~= ds);
    assert forall|i: int| 0 <= i < 10 && i != 4 && i != 7 implies is_digit(#[trigger] s[i]) by {
        if i < 4 {
            assert(s[i] == ys[i]);
        } else if i < 7 {
            assert(s[i] == ms[i - 5]);
        } else {
            assert(s[i] == ds[i - 8]);
        }
    }
    assert(shape_fields(s) == (y, m, d));
}

/// What normalising `date` into `r` guarantees of a keyword, given the
/// current date `today`: the key is in `YYYY-MM-DD` normal form whenever the
/// day it names has a year from 0 to 9999.
pub open spec fn keyword_rules(date: Seq<char>, today: (i32, u32, u32), r: Result<String, AppError>) -> bool {
    &&& lower_of(date) == "today"@ && 0 <= today.0 <= 9999 ==> r is Ok && is_date_text(r->Ok_0@)
    &&& lower_of(date) == "yesterday"@ && !is_first_day(today) && 0 <= day_before_spec(today).0 <= 9999
        ==> r is Ok && is_date_text(r->Ok_0@)
}

/// Normalising twice changes nothing: with the same current date, a date key
/// that normalisation produced normalises to itself. Only keys of a year
/// from 0 to 9999 have the `YYYY-MM-DD` shape, so the current year is taken
/// to lie from 1 to 9999.
pub proof fn lemma_normalize_twice(
    date: Seq<char>,
    today: (i32, u32, u32),
    first: Result<String, AppError>,
    second: Result<String, AppError>,
)
    requires
        is_calendar_date(today),
        1 <= today.0 <= 9999,
        date_rules(date, first),
        keyword_rules(date, today, first),
        first is Ok,
        date_rules(first->Ok_0@, second),
    ensures
        second is Ok,
        second->Ok_0@ == first->Ok_0@,
{
    assert(!is_first_day(today));
    assert(0 <= day_before_spec(today).0);
}

/// Whether `s` has exactly the `YYYY-MM-DD` shape.
pub fn has_date_shape_text(s: &str) -> (r: bool)
    ensures
        r == has_date_shape(s@),
{
    if s.unicode_len() != 10 {
        return false;
    }
    let mut i: usize = 0;
    while i < 10
        invariant
            0 <= i <= 10,
            s@.len() == 10,
            forall|j: int|
                0 <= j < i ==> if j == 4 || j == 7 {
                    #[trigger] s@[j] == '-'
                } else {
                    is_digit(s@[j])
                },
        decreases 10 - i,
    {
        let c = s.get_char(i);
        if i == 4 || i == 7 {
            if c != '-' {
                return false;
            }
        } else if !('0' <= c && c <= '9') {
            return false;
        }
        i = i + 1;
    }
    assert(s@[4] == '-' && s@[7] == '-');
    true
}

/// What `str::to_lowercase` returns on the given characters.
pub uninterp spec fn lower_of(s: Seq<char>) -> Seq<char>;

/// Relies on `str::to_lowercase`: the result depends on the characters alone,
/// and ASCII text with no upper-case letter comes back unchanged.
#[verifier::external_body]
fn lowercase(s: &str) -> (r: String)
    ensures
        r@ == lower_of(s@),
        is_lower_ascii(s@) ==> r@ == s@,
{
    s.to_lowercase()
}

/// What `chrono::NaiveDate::parse_from_str(s, "%Y-%m-%d")` yields, as
/// (year, month, day).
pub uninterp spec fn parsed_ymd(s: Seq<char>) -> Option<(i32, u32, u32)>;

/// Relies on `chrono::NaiveDate::parse_from_str` with the pattern `%Y-%m-%d`:
/// every date it yields is a real calendar date, and on text of exactly the
/// `YYYY-MM-DD` shape it yields the date the fields write when they form a
/// calendar date (month 1 to 12, a day of that month) and nothing otherwise.
#[verifier::external_body]
fn parse_ymd(s: &str) -> (r: Option<(i32, u32, u32)>)
    ensures
        r == parsed_ymd(s@),
        r matches Some(d) ==> is_calendar_date(d),
        has_date_shape(s@) ==> r == if is_calendar_date(shape_fields(s@)) {
            Some(shape_fields(s@))
        } else {
            None
        },
{
    chrono::NaiveDate::parse_from_str(s, "%Y-%m-%d").ok().map(|nd| (nd.year(), nd.month(), nd.day()))
}

/// What `chrono::NaiveDate::format("%Y-%m-%d")` writes for the date.
pub uninterp spec fn formatted_ymd(y: i32, m: u32, d: u32) -> Seq<char>;

/// Relies on `chrono::NaiveDate::from_ymd_opt` and `format("%Y-%m-%d")`: a year
/// from 0 to 9999 is written with four digits, month and day with two, all
/// zero-padded.
#[verifier::external_body]
fn format_ymd(d: (i32, u32, u32)) -> (r: String)
    requires
        is_calendar_date(d),
    ensures
        r@ == formatted_ymd(d.0, d.1, d.2),
        0 <= d.0 <= 9999 ==> r@ == date_text(d.0, d.1, d.2),
{
    match chrono::NaiveDate::from_ymd_opt(d.0, d.1, d.2) {
        Some(nd) => nd.format("%Y-%m-%d").to_string(),
        None => String::new(),
    }
}

/// Relies on `chrono::Local::now` and `DateTime::date_naive`: today's date on
/// the local clock, which chrono always holds as a calendar date in its range.
#[verifier::external_body]
pub(crate) fn local_today() -> (r: (i32, u32, u32))
    ensures
        is_calendar_date(r),
{
    let nd = chrono::Local::now().date_naive();
    (nd.year(), nd.month(), nd.day())
}

/// Relies on `chrono::Local::now` and its `format("%Y-%m-%d %H:%M:%S")`: the
/// local time of the call. Nothing is promised of the text.
#[verifier::external_body]
pub(crate) fn local_timestamp() -> (r: String) {
    chrono::Local::now().format("%Y-%m-%d %H:%M:%S").to_string()
}

/// The date key that the date argument `date` stands for, when `today` is the
/// current date; `None` where the argument is rejected.
pub open spec fn date_key(date: Seq<char>, today: (i32, u32, u32)) -> Option<Seq<char>> {
    let l = lower_of(date);
    if l == "today"@ {
        Some(formatted_ymd(today.0, today.1, today.2))
    } else if l == "yesterday"@ {
        if is_first_day(today) {
            None
        } else {
            let p = day_before_spec(today);
            Some(formatted_ymd(p.0, p.1, p.2))
        }
    } else if !has_date_shape(date) {
        None
    } else {
        match parsed_ymd(date) {
            Some(p) => Some(formatted_ymd(p.0, p.1, p.2)),
            None => None,
        }
    }
}

/// The detail carried by the error for a rejected date argument.
pub open spec fn invalid_date_detail(date: Seq<char>) -> Seq<char> {
    "Invalid date format: "@ + date + ". Use 'today', 'yesterday', or YYYY-MM-DD"@
}

/// The outcome of normalising `date` when `today` is the current date.
pub open spec fn normalized(date: Seq<char>, today: (i32, u32, u32), r: Result<String, AppError>) -> bool {
    match date_key(date, today) {
        Some(k) => r matches Ok(s) && s@ == k,
        None => r matches Err(AppError::InvalidDate(m)) && m@ == invalid_date_detail(date),
    }
}

/// What normalising `date` into `r` guarantees whatever the current date:
/// only an argument that is a keyword or `YYYY-MM-DD` text naming a calendar
/// date is accepted, such text is its own key, and a key from an argument
/// other than a keyword is always in that normal form.
pub open spec fn date_rules(date: Seq<char>, r: Result<String, AppError>) -> bool {
    &&& is_lower_ascii(date) ==> lower_of(date) == date
    &&& r is Err ==> r->Err_0 is InvalidDate
    &&& is_date_text(date) ==> (r is Ok && r->Ok_0@ == date)
    &&& lower_of(date) != "today"@ && lower_of(date) != "yesterday"@ ==> ((r is Ok) <==> is_date_text(
        date,
    ))
    &&& lower_of(date) != "today"@ && lower_of(date) != "yesterday"@ && r is Ok ==> is_date_text(
        r->Ok_0@,
    )
}

/// Turns a date argument into a date key: "today" and "yesterday" (in any
/// case) are resolved against `today`; anything else must be `YYYY-MM-DD`
/// text naming a calendar date, which is its own date key.
pub fn normalize_date(date: &str, today: (i32, u32, u32)) -> (r: Result<String, AppError>)
    requires
        is_calendar_date(today),
    ensures
        normalized(date@, today, r),
        is_lower_ascii(date@) ==> lower_of(date@) == date@,
        r matches Err(e) ==> e matches AppError::InvalidDate(_),
        is_date_text(date@) ==> (r matches Ok(s) && s@ == date@),
        lower_of(date@) != "today"@ && lower_of(date@) != "yesterday"@ ==> ((r is Ok) <==> is_date_text(
            date@,
        )),
        lower_of(date@) != "today"@ && lower_of(date@) != "yesterday"@ && r is Ok ==> is_date_text(
            r->Ok_0@,
        ),
        keyword_rules(date@, today, r),
{
    let lowered = lowercase(date);
    proof {
        reveal_strlit("today");
        reveal_strlit("yesterday");
        assert("today"@.len() == 5 && "yesterday"@.len() == 9);
        if has_date_shape(date@) {
            lemma_date_shape(date@);
        }
    }
    if lowered == "today".to_owned() {
        proof {
            if 0 <= today.0 <= 9999 {
                lemma_date_text_is_date_text(today.0, today.1, today.2);
            }
        }
        Ok(format_ymd(today))
    } else if lowered == "yesterday".to_owned() {
        if today.0 == MIN_YEAR && today.1 == 1 && today.2 == 1 {
            Err(AppError::InvalidDate(invalid_date_detail_text(date)))
        } else {
            let p = day_before(today);
            proof {
                if 0 <= p.0 <= 9999 {
                    lemma_date_text_is_date_text(p.0, p.1, p.2);
                }
            }
            Ok(format_ymd(p))
        }
    } else if !has_date_shape_text(date) {
        Err(AppError::InvalidDate(invalid_date_detail_text(date)))
    } else {
        match parse_ymd(date) {
            Some(d) => Ok(format_ymd(d)),
            None => Err(AppError::InvalidDate(invalid_date_detail_text(date))),
        }
    }
}

fn invalid_date_detail_text(date: &str) -> (r: String)
    ensures
        r@ == invalid_date_detail(date@),
{
    let mut r = "Invalid date format: ".to_owned();
    r.append(date);
    r.append(". Use 'today', 'yesterday', or YYYY-MM-DD");
    r
}

} // verus!
