use vstd::prelude::*;

verus! {

/// Smallest year a `chrono::NaiveDate` can carry.
pub const MIN_YEAR: i32 = -262143;

/// Largest year a `chrono::NaiveDate` can carry.
pub const MAX_YEAR: i32 = 262142;

/// A calendar date, held as plain year, month and day numbers.
#[derive(Clone, Copy, PartialEq, Eq, Structural, Debug)]
pub struct Date {
    pub year: i32,
    pub month: u8,
    pub day: u8,
}

/// Whether `year` is a leap year in the proleptic Gregorian calendar.
pub open spec fn is_leap_year(year: int) -> bool {
    year % 4 == 0 && (year % 100 != 0 || year % 400 == 0)
}

/// Number of days of month `month` of year `year`.
pub open spec fn days_in_month(year: int, month: int) -> int {
    if month == 2 {
        if is_leap_year(year) {
            29
        } else {
            28
        }
    } else if month == 4 || month == 6 || month == 9 || month == 11 {
        30
    } else {
        31
    }
}

/// Whether `d` denotes a real proleptic Gregorian date that the calendar
/// library can represent.
pub open spec fn valid_date(d: Date) -> bool {
    &&& MIN_YEAR <= d.year <= MAX_YEAR
    &&& 1 <= d.month <= 12
    &&& 1 <= d.day <= days_in_month(d.year as int, d.month as int)
}

/// A single key that orders dates chronologically: the field widths do not
/// overlap, so comparing keys compares (year, month, day) lexicographically.
pub open spec fn date_key(d: Date) -> int {
    (d.year as int) * 65536 + (d.month as int) * 256 + (d.day as int)
}

/// Whether `a` lies strictly before `b` in time.
pub open spec fn spec_date_lt(a: Date, b: Date) -> bool {
    date_key(a) < date_key(b)
}

/// Two dates carry the same key exactly when they are the same date.
pub proof fn lemma_date_key_injective(a: Date, b: Date)
    ensures
        (date_key(a) == date_key(b)) <==> a == b,
{
    if date_key(a) == date_key(b) {
        assert(0 <= (a.month as int) * 256 + (a.day as int) < 65536);
        assert(0 <= (b.month as int) * 256 + (b.day as int) < 65536);
        assert(a.year == b.year);
        assert(a.month == b.month && a.day == b.day);
    }
}

/// Compares two dates chronologically.
pub fn date_lt(a: Date, b: Date) -> (r: bool)
    ensures
        r == spec_date_lt(a, b),
{
    if a.year != b.year {
        a.year < b.year
    } else if a.month != b.month {
        a.month < b.month
    } else {
        a.day < b.day
    }
}

/// The character for the decimal digit `n`.
pub open spec fn dec_digit(n: int) -> char {
    if n == 0 {
        '0'
    } else if n == 1 {
        '1'
    } else if n == 2 {
        '2'
    } else if n == 3 {
        '3'
    } else if n == 4 {
        '4'
    } else if n == 5 {
        '5'
    } else if n == 6 {
        '6'
    } else if n == 7 {
        '7'
    } else if n == 8 {
        '8'
    } else {
        '9'
    }
}

/// The decimal digits of `n`, most significant first, with no leading zeros.
pub open spec fn dec_rep(n: nat) -> Seq<char>
    decreases n,
{
    if n < 10 {
        seq![dec_digit(n as int)]
    } else {
        dec_rep(n / 10).push(dec_digit((n % 10) as int))
    }
}

/// `s` left-padded with `'0'` to at least four characters.
pub open spec fn pad4(s: Seq<char>) -> Seq<char> {
    if s.len() >= 4 {
        s
    } else {
        Seq::new((4 - s.len()) as nat, |i: int| '0') + s
    }
}

/// The last two decimal digits of `n`, zero-padded.
pub open spec fn two_digits(n: int) -> Seq<char> {
    seq![dec_digit((n / 10) % 10), dec_digit(n % 10)]
}

/// The year as the calendar library's `Display` prints it: four zero-padded
/// digits for 0 through 9999, otherwise an explicit sign before the digits.
pub open spec fn year_rep(y: int) -> Seq<char> {
    if 0 <= y <= 9999 {
        seq![
            dec_digit((y / 1000) % 10),
            dec_digit((y / 100) % 10),
            dec_digit((y / 10) % 10),
            dec_digit(y % 10),
        ]
    } else if y > 9999 {
        seq!['+'] + dec_rep(y as nat)
    } else {
        seq!['-'] + pad4(dec_rep((-y) as nat))
    }
}

/// The date in `YYYY-MM-DD` form, as the calendar library's `Display` prints
/// it.
pub open spec fn iso_date(d: Date) -> Seq<char> {
    year_rep(d.year as int) + seq!['-'] + two_digits(d.month as int) + seq!['-'] + two_digits(
        d.day as int,
    )
}

fn digit_char(n: u32) -> (c: char)
    requires
        n < 10,
    ensures
        c == dec_digit(n as int),
{
    match n {
        0 => '0',
        1 => '1',
        2 => '2',
        3 => '3',
        4 => '4',
        5 => '5',
        6 => '6',
        7 => '7',
        8 => '8',
        _ => '9',
    }
}

/// Writes `n` in decimal, most significant digit first.
fn fmt_u32(n: u32) -> (s: String)
    ensures
        s@ == dec_rep(n as nat),
    decreases n,
{
    if n < 10 {
        let mut s = String::new();
        crate::strutil::push_char(&mut s, digit_char(n));
        assert(s@ =~= dec_rep(n as nat));
        s
    } else {
        let mut s = fmt_u32(n / 10);
        crate::strutil::push_char(&mut s, digit_char(n % 10));
        assert(s@ =~= dec_rep(n as nat));
        s
    }
}

fn fmt_two_digits(n: u32) -> (s: String)
    ensures
        s@ == two_digits(n as int),
{
    let mut s = String::new();
    crate::strutil::push_char(&mut s, digit_char((n / 10) % 10));
    crate::strutil::push_char(&mut s, digit_char(n % 10));
    assert(s@ =~= two_digits(n as int));
    s
}

proof fn lemma_dec_rep_len(n: nat)
    ensures
        n < 10 ==> dec_rep(n).len() == 1,
        10 <= n < 100 ==> dec_rep(n).len() == 2,
        100 <= n < 1000 ==> dec_rep(n).len() == 3,
        1000 <= n ==> dec_rep(n).len() >= 4,
    decreases n,
{
    if n >= 10 {
        lemma_dec_rep_len(n / 10);
    }
}

/// Formats a date in `YYYY-MM-DD` form, exactly as the calendar library
/// prints one.
pub fn format_date(d: Date) -> (s: String)
    ensures
        s@ == iso_date(d),
{
    let y: i32 = d.year;
    let mut s: String;
    if 0 <= y && y <= 9999 {
        let n: u32 = y as u32;
        s = String::new();
        crate::strutil::push_char(&mut s, digit_char((n / 1000) % 10));
        crate::strutil::push_char(&mut s, digit_char((n / 100) % 10));
        crate::strutil::push_char(&mut s, digit_char((n / 10) % 10));
        crate::strutil::push_char(&mut s, digit_char(n % 10));
        assert(s@ =~= year_rep(d.year as int));
    } else if y > 9999 {
        s = String::from_str("+");
        let digits = fmt_u32(y as u32);
        s.append(digits.as_str());
        proof {
            reveal_strlit("+");
            assert(s@ =~= year_rep(d.year as int));
        }
    } else {
        s = String::from_str("-");
        let n: u32 = (-(y as i64)) as u32;
        let digits = fmt_u32(n);
        proof {
            lemma_dec_rep_len(n as nat);
        }
        if n < 10 {
            s.append("000");
        } else if n < 100 {
            s.append("00");
        } else if n < 1000 {
            s.append("0");
        }
        s.append(digits.as_str());
        proof {
            reveal_strlit("-");
            reveal_strlit("000");
            reveal_strlit("00");
            reveal_strlit("0");
            assert(s@ =~= year_rep(d.year as int));
        }
    }
    s.append("-");
    let m = fmt_two_digits(d.month as u32);
    s.append(m.as_str());
    s.append("-");
    let day = fmt_two_digits(d.day as u32);
    s.append(day.as_str());
    proof {
        reveal_strlit("-");
        assert(s@ =~= iso_date(d));
    }
    s
}

/// A name for the RFC 2822 text of midnight UTC of a date: what the calendar
/// library prints depends on the date alone.
pub uninterp spec fn rfc2822_of(year: int, month: int, day: int) -> Seq<char>;

/// The feed timestamp for `d`: its RFC 2822 text when `d` is a real date,
/// empty otherwise.
pub open spec fn rfc2822_or_empty(d: Date) -> Seq<char> {
    if valid_date(d) {
        rfc2822_of(d.year as int, d.month as int, d.day as int)
    } else {
        Seq::<char>::empty()
    }
}

/// Relies on chrono's `NaiveDate::from_ymd_opt`, which returns `Some` exactly
/// for real proleptic Gregorian dates within its year range, and on
/// `DateTime::<Utc>::to_rfc2822`, whose text depends on the instant alone.
/// RFC 2822 defines years 0 through 9999 only, and `to_rfc2822` panics on a
/// date outside them, so the precondition leaves those dates out.
#[verifier::external_body]
pub(crate) fn rfc2822_midnight(d: Date) -> (r: String)
    requires
        valid_date(d) ==> 0 <= d.year <= 9999,
    ensures
        valid_date(d) ==> r@ == rfc2822_of(d.year as int, d.month as int, d.day as int),
        !valid_date(d) ==> r@ == Seq::<char>::empty(),
        r@ == rfc2822_or_empty(d),
{
    match chrono::NaiveDate::from_ymd_opt(d.year, d.month as u32, d.day as u32) {
        Some(nd) => match nd.and_hms_opt(0, 0, 0) {
            Some(t) => t.and_utc().to_rfc2822(),
            None => String::new(),
        },
        None => String::new(),
    }
}

} // verus!
