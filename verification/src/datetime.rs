//! Calendar timestamps at one-second resolution.
//!
//! A [`Timestamp`] holds a civil date and time, understood as UTC inside the
//! store. The codec renders a timestamp in a timezone by adding the zone's
//! offset in minutes; since an offset is always shorter than a day, that
//! shifts the calendar date by at most one day, which `add_minutes` handles
//! with an explicit next-day/previous-day carry.

use vstd::prelude::*;

verus! {

/// A civil date and time, second resolution. Inside the task store the
/// fields are read as UTC; during rendering they may hold a zone-local time.
#[derive(Debug, Clone, Copy, PartialEq, Eq, Structural)]
pub struct Timestamp {
    pub year: u32,
    pub month: u32,
    pub day: u32,
    pub hour: u32,
    pub minute: u32,
    pub second: u32,
}

/// A leap year of the proleptic Gregorian calendar.
pub open spec fn is_leap_year(y: int) -> bool {
    (y % 4 == 0 && y % 100 != 0) || y % 400 == 0
}

/// Number of days of month `m` of year `y` (months counted from 1).
pub open spec fn days_in_month(y: int, m: int) -> int {
    if m == 2 {
        if is_leap_year(y) {
            29
        } else {
            28
        }
    } else if m == 4 || m == 6 || m == 9 || m == 11 {
        30
    } else {
        31
    }
}

/// A calendar date the codec can render: four-digit year, real month and day.
pub open spec fn valid_date(y: int, m: int, d: int) -> bool {
    &&& 0 <= y <= 9999
    &&& 1 <= m <= 12
    &&& 1 <= d <= days_in_month(y, m)
}

impl Timestamp {
    /// Well-formed: a real calendar date and a time of day in range.
    pub open spec fn wf(self) -> bool {
        &&& valid_date(self.year as int, self.month as int, self.day as int)
        &&& self.hour < 24
        &&& self.minute < 60
        &&& self.second < 60
    }
}

/// The day after `(y, m, d)`; may leave the supported year range.
pub open spec fn next_ymd(y: int, m: int, d: int) -> (int, int, int) {
    if d < days_in_month(y, m) {
        (y, m, d + 1)
    } else if m < 12 {
        (y, m + 1, 1)
    } else {
        (y + 1, 1, 1)
    }
}

/// The day before `(y, m, d)`; may leave the supported year range.
pub open spec fn prev_ymd(y: int, m: int, d: int) -> (int, int, int) {
    if d > 1 {
        (y, m, d - 1)
    } else if m > 1 {
        (y, m - 1, days_in_month(y, m - 1))
    } else {
        (y - 1, 12, 31)
    }
}

pub proof fn lemma_next_prev_ymd(y: int, m: int, d: int)
    requires
        valid_date(y, m, d),
    ensures
        ({
            let (y2, m2, d2) = next_ymd(y, m, d);
            &&& 1 <= m2 <= 12
            &&& 1 <= d2 <= days_in_month(y2, m2)
            &&& y <= y2 <= y + 1
            &&& prev_ymd(y2, m2, d2) == (y, m, d)
        }),
{
}

pub proof fn lemma_prev_next_ymd(y: int, m: int, d: int)
    requires
        valid_date(y, m, d),
    ensures
        ({
            let (y2, m2, d2) = prev_ymd(y, m, d);
            &&& 1 <= m2 <= 12
            &&& 1 <= d2 <= days_in_month(y2, m2)
            &&& y - 1 <= y2 <= y
            &&& next_ymd(y2, m2, d2) == (y, m, d)
        }),
{
}

/// `t` shifted by `minutes` (a timezone offset, less than one day in
/// magnitude), or `None` when the result would leave the supported years.
pub open spec fn add_minutes_spec(t: Timestamp, minutes: int) -> Option<Timestamp> {
    let total = t.hour * 60 + t.minute + minutes;
    if 0 <= total < 1440 {
        Some(
            Timestamp {
                hour: (total / 60) as u32,
                minute: (total % 60) as u32,
                ..t
            },
        )
    } else if total >= 1440 {
        let (y2, m2, d2) = next_ymd(t.year as int, t.month as int, t.day as int);
        if y2 <= 9999 {
            Some(
                Timestamp {
                    year: y2 as u32,
                    month: m2 as u32,
                    day: d2 as u32,
                    hour: ((total - 1440) / 60) as u32,
                    minute: ((total - 1440) % 60) as u32,
                    second: t.second,
                },
            )
        } else {
            None
        }
    } else {
        let (y2, m2, d2) = prev_ymd(t.year as int, t.month as int, t.day as int);
        if y2 >= 0 {
            Some(
                Timestamp {
                    year: y2 as u32,
                    month: m2 as u32,
                    day: d2 as u32,
                    hour: ((total + 1440) / 60) as u32,
                    minute: ((total + 1440) % 60) as u32,
                    second: t.second,
                },
            )
        } else {
            None
        }
    }
}

/// A shift by a timezone offset keeps the timestamp well formed and is
/// undone exactly by the opposite shift.
pub proof fn lemma_add_minutes_inverse(t: Timestamp, minutes: int)
    requires
        t.wf(),
        -1440 < minutes < 1440,
        add_minutes_spec(t, minutes) is Some,
    ensures
        ({
            let s = add_minutes_spec(t, minutes)->Some_0;
            &&& s.wf()
            &&& s.second == t.second
            &&& add_minutes_spec(s, -minutes) == Some(t)
        }),
{
    let total = t.hour * 60 + t.minute + minutes;
    let s = add_minutes_spec(t, minutes)->Some_0;
    if 0 <= total < 1440 {
        assert(s.hour * 60 + s.minute == total);
    } else if total >= 1440 {
        lemma_next_prev_ymd(t.year as int, t.month as int, t.day as int);
        assert(s.hour * 60 + s.minute == total - 1440);
        assert(s.hour * 60 + s.minute - minutes < 1440);
    } else {
        lemma_prev_next_ymd(t.year as int, t.month as int, t.day as int);
        assert(s.hour * 60 + s.minute == total + 1440);
        assert(s.hour * 60 + s.minute - minutes >= 0);
    }
}

/// Executable counterpart of [`add_minutes_spec`].
pub fn add_minutes(t: &Timestamp, minutes: i32) -> (r: Option<Timestamp>)
    requires
        t.wf(),
        -1440 < minutes < 1440,
    ensures
        r == add_minutes_spec(*t, minutes as int),
{
    let total: i32 = (t.hour * 60 + t.minute) as i32 + minutes;
    if 0 <= total && total < 1440 {
        let tot: u32 = total as u32;
        Some(
            Timestamp {
                hour: tot / 60,
                minute: tot % 60,
                ..*t
            },
        )
    } else if total >= 1440 {
        let (y2, m2, d2) = next_ymd_exec(t.year, t.month, t.day);
        if y2 <= 9999 {
            let tot: u32 = (total - 1440) as u32;
            Some(
                Timestamp {
                    year: y2,
                    month: m2,
                    day: d2,
                    hour: tot / 60,
                    minute: tot % 60,
                    second: t.second,
                },
            )
        } else {
            None
        }
    } else {
        // `total < 0`, so the previous day exists unless the year underflows,
        // which `prev_ymd_exec` reports by `None`.
        match prev_ymd_exec(t.year, t.month, t.day) {
            Some((y2, m2, d2)) => {
                let tot: u32 = (total + 1440) as u32;
                Some(
                    Timestamp {
                        year: y2,
                        month: m2,
                        day: d2,
                        hour: tot / 60,
                        minute: tot % 60,
                        second: t.second,
                    },
                )
            },
            None => None,
        }
    }
}

/// Executable number of days of a month.
pub fn days_in_month_exec(y: u32, m: u32) -> (r: u32)
    requires
        1 <= m <= 12,
    ensures
        r == days_in_month(y as int, m as int),
{
    if m == 2 {
        if (y % 4 == 0 && y % 100 != 0) || y % 400 == 0 {
            29
        } else {
            28
        }
    } else if m == 4 || m == 6 || m == 9 || m == 11 {
        30
    } else {
        31
    }
}

fn next_ymd_exec(y: u32, m: u32, d: u32) -> (r: (u32, u32, u32))
    requires
        valid_date(y as int, m as int, d as int),
    ensures
        (r.0 as int, r.1 as int, r.2 as int) == next_ymd(y as int, m as int, d as int),
{
    if d < days_in_month_exec(y, m) {
        (y, m, d + 1)
    } else if m < 12 {
        (y, m + 1, 1)
    } else {
        (y + 1, 1, 1)
    }
}

fn prev_ymd_exec(y: u32, m: u32, d: u32) -> (r: Option<(u32, u32, u32)>)
    requires
        valid_date(y as int, m as int, d as int),
    ensures
        ({
            let (py, pm, pd) = prev_ymd(y as int, m as int, d as int);
            if py >= 0 {
                r == Some(((py as u32, pm as u32, pd as u32)))
            } else {
                r is None
            }
        }),
{
    if d > 1 {
        Some((y, m, d - 1))
    } else if m > 1 {
        Some((y, m - 1, days_in_month_exec(y, m - 1)))
    } else if y > 0 {
        Some((y - 1, 12, 31))
    } else {
        None
    }
}


/// The character of a decimal digit; out-of-range values render as `'0'`.
pub open spec fn digit_char(n: int) -> char {
    if n == 0 {
        '0'
    } else if n == 1 {
        '1'
    } else if n == 2 {
        '2'
    } else if n == 3 {
        '3'
    } else if n == 4 {
        '4'
    } else if n == 5 {
        '5'
    } else if n == 6 {
        '6'
    } else if n == 7 {
        '7'
    } else if n == 8 {
        '8'
    } else if n == 9 {
        '9'
    } else {
        '0'
    }
}

/// The value of a decimal digit character, `-1` for any other character.
pub open spec fn dval(c: char) -> int {
    if c == '0' {
        0
    } else if c == '1' {
        1
    } else if c == '2' {
        2
    } else if c == '3' {
        3
    } else if c == '4' {
        4
    } else if c == '5' {
        5
    } else if c == '6' {
        6
    } else if c == '7' {
        7
    } else if c == '8' {
        8
    } else if c == '9' {
        9
    } else {
        -1
    }
}

pub open spec fn is_digit_char(c: char) -> bool {
    dval(c) >= 0
}

/// Character `i` of the rendering `YYYY-MM-DD HH:MM:SS ±HHMM` of local time
/// `l` with offset `m` minutes east of UTC.
pub open spec fn fmt_char_at(l: Timestamp, m: int, i: int) -> char {
    let y = l.year as int;
    let a = if m < 0 {
        -m
    } else {
        m
    };
    if i == 0 {
        digit_char(y / 1000)
    } else if i == 1 {
        digit_char((y % 1000) / 100)
    } else if i == 2 {
        digit_char(((y % 1000) % 100) / 10)
    } else if i == 3 {
        digit_char(((y % 1000) % 100) % 10)
    } else if i == 4 {
        '-'
    } else if i == 5 {
        digit_char(l.month as int / 10)
    } else if i == 6 {
        digit_char(l.month as int % 10)
    } else if i == 7 {
        '-'
    } else if i == 8 {
        digit_char(l.day as int / 10)
    } else if i == 9 {
        digit_char(l.day as int % 10)
    } else if i == 10 {
        ' '
    } else if i == 11 {
        digit_char(l.hour as int / 10)
    } else if i == 12 {
        digit_char(l.hour as int % 10)
    } else if i == 13 {
        ':'
    } else if i == 14 {
        digit_char(l.minute as int / 10)
    } else if i == 15 {
        digit_char(l.minute as int % 10)
    } else if i == 16 {
        ':'
    } else if i == 17 {
        digit_char(l.second as int / 10)
    } else if i == 18 {
        digit_char(l.second as int % 10)
    } else if i == 19 {
        ' '
    } else if i == 20 {
        if m < 0 {
            '-'
        } else {
            '+'
        }
    } else if i == 21 {
        digit_char((a / 60) / 10)
    } else if i == 22 {
        digit_char((a / 60) % 10)
    } else if i == 23 {
        digit_char((a % 60) / 10)
    } else {
        digit_char((a % 60) % 10)
    }
}

/// The full 25-character rendering of local time `l` with offset `m`.
pub open spec fn fmt_ts_offset(l: Timestamp, m: int) -> Seq<char> {
    Seq::new(25, |i: int| fmt_char_at(l, m, i))
}

/// How a stored (UTC) timestamp is rendered with a zone offset of `m`
/// minutes: shifted into local time when that stays inside the supported
/// years, otherwise rendered unshifted with offset zero.
pub open spec fn fmt_local(utc: Timestamp, m: int) -> Seq<char> {
    match add_minutes_spec(utc, m) {
        Some(l) => fmt_ts_offset(l, m),
        None => fmt_ts_offset(utc, 0),
    }
}

/// Fixed-position checks shared by both offset spellings.
pub open spec fn shape_common_ok(s: Seq<char>) -> bool {
    &&& is_digit_char(s[0])
    &&& is_digit_char(s[1])
    &&& is_digit_char(s[2])
    &&& is_digit_char(s[3])
    &&& s[4] == '-'
    &&& is_digit_char(s[5])
    &&& is_digit_char(s[6])
    &&& s[7] == '-'
    &&& is_digit_char(s[8])
    &&& is_digit_char(s[9])
    &&& s[10] == ' '
    &&& is_digit_char(s[11])
    &&& is_digit_char(s[12])
    &&& s[13] == ':'
    &&& is_digit_char(s[14])
    &&& is_digit_char(s[15])
    &&& s[16] == ':'
    &&& is_digit_char(s[17])
    &&& is_digit_char(s[18])
    &&& s[19] == ' '
    &&& (s[20] == '+' || s[20] == '-')
    &&& is_digit_char(s[21])
    &&& is_digit_char(s[22])
}

/// The offset's minute digits: `±HHMM`, or `±HH:MM` as some writers spell it.
pub open spec fn shape_tail_ok(s: Seq<char>) -> bool {
    if s.len() == 25 {
        is_digit_char(s[23]) && is_digit_char(s[24])
    } else {
        s[23] == ':' && is_digit_char(s[24]) && is_digit_char(s[25])
    }
}

/// Reads a date field as written: the local calendar fields and the offset
/// in minutes. `None` unless the text has exactly the codec's shape, the
/// date is a real calendar date, and the offset is shorter than a day.
pub open spec fn parse_ts_shape(s: Seq<char>) -> Option<(Timestamp, int)> {
    if (s.len() == 25 || s.len() == 26) && shape_common_ok(s) && shape_tail_ok(s) {
        let y = 1000 * dval(s[0]) + 100 * dval(s[1]) + 10 * dval(s[2]) + dval(s[3]);
        let mo = 10 * dval(s[5]) + dval(s[6]);
        let d = 10 * dval(s[8]) + dval(s[9]);
        let h = 10 * dval(s[11]) + dval(s[12]);
        let mi = 10 * dval(s[14]) + dval(s[15]);
        let sec = 10 * dval(s[17]) + dval(s[18]);
        let oh = 10 * dval(s[21]) + dval(s[22]);
        let om = if s.len() == 25 {
            10 * dval(s[23]) + dval(s[24])
        } else {
            10 * dval(s[24]) + dval(s[25])
        };
        let a = oh * 60 + om;
        let l = Timestamp {
            year: y as u32,
            month: mo as u32,
            day: d as u32,
            hour: h as u32,
            minute: mi as u32,
            second: sec as u32,
        };
        if l.wf() && om < 60 && a <= 1439 {
            Some((l, if s[20] == '-' { -a } else { a }))
        } else {
            None
        }
    } else {
        None
    }
}

/// Reads a date field and converts it to the stored (UTC) timestamp by
/// undoing the written offset; `None` when the shift leaves the supported
/// years.
pub open spec fn parse_ts_field(s: Seq<char>) -> Option<Timestamp> {
    match parse_ts_shape(s) {
        Some((l, m)) => add_minutes_spec(l, -m),
        None => None,
    }
}

/// Rendered date fields contain only digits and `- : +` and spaces: no
/// carriage return, no line feed, and no closing bracket, so a field never
/// collides with the record format around it.
pub proof fn lemma_fmt_no_bad_chars(l: Timestamp, m: int)
    ensures
        forall|i: int|
            0 <= i < 25 ==> {
                let c = #[trigger] fmt_char_at(l, m, i);
                c != '\r' && c != '\n' && c != ']'
            },
{
}

/// A digit's character reads back as the digit.
proof fn lemma_digit(n: int)
    requires
        0 <= n <= 9,
    ensures
        dval(digit_char(n)) == n,
{
}

/// Reading a rendered timestamp recovers the local fields and the offset.
#[verifier::rlimit(50)]
pub proof fn lemma_parse_fmt_shape(l: Timestamp, m: int)
    requires
        l.wf(),
        -1440 < m < 1440,
    ensures
        parse_ts_shape(fmt_ts_offset(l, m)) == Some((l, m)),
{
    let s = fmt_ts_offset(l, m);
    let y = l.year as int;
    let a = if m < 0 { -m } else { m };
    assert(s.len() == 25);
    assert(forall|i: int| 0 <= i < 25 ==> s[i] == fmt_char_at(l, m, i));
    let y0 = y / 1000;
    let y1 = (y % 1000) / 100;
    let y2 = ((y % 1000) % 100) / 10;
    let y3 = ((y % 1000) % 100) % 10;
    assert(0 <= y0 <= 9 && 0 <= y1 <= 9 && 0 <= y2 <= 9 && 0 <= y3 <= 9);
    lemma_digit(y0);
    lemma_digit(y1);
    lemma_digit(y2);
    lemma_digit(y3);
    assert(1000 * dval(s[0]) + 100 * dval(s[1]) + 10 * dval(s[2]) + dval(s[3]) == y) by {
        assert(y == 1000 * (y / 1000) + y % 1000);
        assert(y % 1000 == 100 * ((y % 1000) / 100) + (y % 1000) % 100);
        assert((y % 1000) % 100 == 10 * (((y % 1000) % 100) / 10) + ((y % 1000) % 100) % 10);
    }
    lemma_digit(l.month as int / 10);
    lemma_digit(l.month as int % 10);
    assert(10 * dval(s[5]) + dval(s[6]) == l.month as int);
    lemma_digit(l.day as int / 10);
    lemma_digit(l.day as int % 10);
    assert(10 * dval(s[8]) + dval(s[9]) == l.day as int);
    lemma_digit(l.hour as int / 10);
    lemma_digit(l.hour as int % 10);
    assert(10 * dval(s[11]) + dval(s[12]) == l.hour as int);
    lemma_digit(l.minute as int / 10);
    lemma_digit(l.minute as int % 10);
    assert(10 * dval(s[14]) + dval(s[15]) == l.minute as int);
    lemma_digit(l.second as int / 10);
    lemma_digit(l.second as int % 10);
    assert(10 * dval(s[17]) + dval(s[18]) == l.second as int);
    let oh = a / 60;
    let om = a % 60;
    assert(0 <= oh <= 23 && 0 <= om <= 59);
    lemma_digit(oh / 10);
    lemma_digit(oh % 10);
    lemma_digit(om / 10);
    lemma_digit(om % 10);
    assert(10 * dval(s[21]) + dval(s[22]) == oh);
    assert(10 * dval(s[23]) + dval(s[24]) == om);
    assert(shape_common_ok(s));
    assert(shape_tail_ok(s));
    assert(60 * oh + om == a);
    assert(parse_ts_shape(s) == Some((l, m)));
}

/// Reading back a rendered timestamp recovers the stored (UTC) value
/// exactly, whatever offset it was rendered with.
pub proof fn lemma_parse_fmt(utc: Timestamp, m: int)
    requires
        utc.wf(),
        -1440 < m < 1440,
    ensures
        parse_ts_field(fmt_local(utc, m)) == Some(utc),
{
    if add_minutes_spec(utc, m) is Some {
        let l = add_minutes_spec(utc, m)->Some_0;
        lemma_add_minutes_inverse(utc, m);
        lemma_parse_fmt_shape(l, m);
        assert(add_minutes_spec(l, -m) == Some(utc));
    } else {
        lemma_parse_fmt_shape(utc, 0);
        assert(add_minutes_spec(utc, 0int) == Some(utc)) by {
            let total = utc.hour * 60 + utc.minute + 0;
            assert(total / 60 == utc.hour as int && total % 60 == utc.minute as int);
        }
    }
}


/// A date field that parses yields a well-formed timestamp.
pub proof fn lemma_parse_field_wf(s: Seq<char>)
    requires
        parse_ts_field(s) is Some,
    ensures
        parse_ts_field(s)->Some_0.wf(),
{
    let (l, m) = parse_ts_shape(s)->Some_0;
    assert(l.wf());
    assert(-1440 < -m < 1440);
    lemma_add_minutes_inverse(l, -m);
}

/// Executable digit rendering.
fn digit_exec(n: u32) -> (c: char)
    requires
        n < 10,
    ensures
        c == digit_char(n as int),
{
    if n == 0 {
        '0'
    } else if n == 1 {
        '1'
    } else if n == 2 {
        '2'
    } else if n == 3 {
        '3'
    } else if n == 4 {
        '4'
    } else if n == 5 {
        '5'
    } else if n == 6 {
        '6'
    } else if n == 7 {
        '7'
    } else if n == 8 {
        '8'
    } else {
        '9'
    }
}

/// Executable digit reading.
pub(crate) fn digit_val(c: char) -> (r: Option<u32>)
    ensures
        match r {
            Some(d) => d < 10 && dval(c) == d as int,
            None => dval(c) == -1,
        },
{
    if c == '0' {
        Some(0)
    } else if c == '1' {
        Some(1)
    } else if c == '2' {
        Some(2)
    } else if c == '3' {
        Some(3)
    } else if c == '4' {
        Some(4)
    } else if c == '5' {
        Some(5)
    } else if c == '6' {
        Some(6)
    } else if c == '7' {
        Some(7)
    } else if c == '8' {
        Some(8)
    } else if c == '9' {
        Some(9)
    } else {
        None
    }
}

fn push_two_digits(out: &mut Vec<char>, x: u32)
    requires
        x < 100,
    ensures
        final(out)@ == old(out)@ + seq![
            digit_char(x as int / 10),
            digit_char(x as int % 10),
        ],
{
    out.push(digit_exec(x / 10));
    out.push(digit_exec(x % 10));
    proof {
        assert(out@ =~= old(out)@ + seq![
            digit_char(x as int / 10),
            digit_char(x as int % 10),
        ]);
    }
}

/// Appends the 25-character rendering of local time `l` with offset `m`.
pub fn push_ts_offset(out: &mut Vec<char>, l: &Timestamp, m: i32)
    requires
        l.wf(),
        -1440 < m < 1440,
    ensures
        final(out)@ == old(out)@ + fmt_ts_offset(*l, m as int),
{
    let y = l.year;
    out.push(digit_exec(y / 1000));
    out.push(digit_exec((y % 1000) / 100));
    out.push(digit_exec(((y % 1000) % 100) / 10));
    out.push(digit_exec(((y % 1000) % 100) % 10));
    out.push('-');
    push_two_digits(out, l.month);
    out.push('-');
    push_two_digits(out, l.day);
    out.push(' ');
    push_two_digits(out, l.hour);
    out.push(':');
    push_two_digits(out, l.minute);
    out.push(':');
    push_two_digits(out, l.second);
    out.push(' ');
    let a: u32 = if m < 0 {
        out.push('-');
        (-m) as u32
    } else {
        out.push('+');
        m as u32
    };
    push_two_digits(out, a / 60);
    push_two_digits(out, a % 60);
    proof {
        assert(out@ =~= old(out)@ + fmt_ts_offset(*l, m as int));
    }
}

/// Appends the rendering of a stored (UTC) timestamp with zone offset `m`.
pub fn push_local(out: &mut Vec<char>, utc: &Timestamp, m: i32)
    requires
        utc.wf(),
        -1440 < m < 1440,
    ensures
        final(out)@ == old(out)@ + fmt_local(*utc, m as int),
{
    match add_minutes(utc, m) {
        Some(l) => {
            proof {
                lemma_add_minutes_inverse(*utc, m as int);
            }
            push_ts_offset(out, &l, m);
        },
        None => {
            push_ts_offset(out, utc, 0);
        },
    }
}

/// Executable check of [`Timestamp::wf`].
pub fn timestamp_wf_exec(t: &Timestamp) -> (r: bool)
    ensures
        r == t.wf(),
{
    if !(1 <= t.month && t.month <= 12) {
        return false;
    }
    if t.year > 9999 {
        return false;
    }
    if !(1 <= t.day && t.day <= days_in_month_exec(t.year, t.month)) {
        return false;
    }
    t.hour < 24 && t.minute < 60 && t.second < 60
}

fn two_digit_at(w: &Vec<char>, i: usize) -> (r: Option<u32>)
    requires
        i + 2 <= w@.len(),
    ensures
        match r {
            Some(x) => {
                &&& is_digit_char(w@[i as int])
                &&& is_digit_char(w@[i + 1])
                &&& x == 10 * dval(w@[i as int]) + dval(w@[i + 1])
                &&& x < 100
            },
            None => !(is_digit_char(w@[i as int]) && is_digit_char(w@[i + 1])),
        },
{
    // Pins the vector's length, so the index arithmetic below cannot
    // overflow.
    let _n = w.len();
    match (digit_val(w[i]), digit_val(w[i + 1])) {
        (Some(hi), Some(lo)) => Some(10 * hi + lo),
        _ => None,
    }
}

/// Executable counterpart of [`parse_ts_shape`] on the whole of `w`.
pub fn parse_ts_shape_exec(w: &Vec<char>) -> (r: Option<(Timestamp, i32)>)
    ensures
        match r {
            Some((l, m)) => parse_ts_shape(w@) == Some((l, m as int)),
            None => parse_ts_shape(w@) is None,
        },
{
    let n = w.len();
    if n != 25 && n != 26 {
        return None;
    }
    let y2a = match two_digit_at(w, 0) {
        Some(x) => x,
        None => {
            return None;
        },
    };
    let y2b = match two_digit_at(w, 2) {
        Some(x) => x,
        None => {
            return None;
        },
    };
    let y = 100 * y2a + y2b;
    if w[4] != '-' {
        return None;
    }
    let mo = match two_digit_at(w, 5) {
        Some(x) => x,
        None => {
            return None;
        },
    };
    if w[7] != '-' {
        return None;
    }
    let d = match two_digit_at(w, 8) {
        Some(x) => x,
        None => {
            return None;
        },
    };
    if w[10] != ' ' {
        return None;
    }
    let h = match two_digit_at(w, 11) {
        Some(x) => x,
        None => {
            return None;
        },
    };
    if w[13] != ':' {
        return None;
    }
    let mi = match two_digit_at(w, 14) {
        Some(x) => x,
        None => {
            return None;
        },
    };
    if w[16] != ':' {
        return None;
    }
    let sec = match two_digit_at(w, 17) {
        Some(x) => x,
        None => {
            return None;
        },
    };
    if w[19] != ' ' {
        return None;
    }
    let neg = w[20] == '-';
    if !neg && w[20] != '+' {
        return None;
    }
    let oh = match two_digit_at(w, 21) {
        Some(x) => x,
        None => {
            return None;
        },
    };
    let om: u32;
    if n == 25 {
        om = match two_digit_at(w, 23) {
            Some(x) => x,
            None => {
                return None;
            },
        };
    } else {
        if w[23] != ':' {
            return None;
        }
        om = match two_digit_at(w, 24) {
            Some(x) => x,
            None => {
                return None;
            },
        };
    }
    let a = oh * 60 + om;
    let l = Timestamp { year: y, month: mo, day: d, hour: h, minute: mi, second: sec };
    if !(timestamp_wf_exec(&l) && om < 60 && a <= 1439) {
        return None;
    }
    let m: i32 = if neg {
        -(a as i32)
    } else {
        a as i32
    };
    Some((l, m))
}

/// Executable counterpart of [`parse_ts_field`] on `v[from..to]`.
pub fn parse_ts_field_exec(v: &Vec<char>, from: usize, to: usize) -> (r: Option<Timestamp>)
    requires
        from <= to <= v@.len(),
    ensures
        r == parse_ts_field(v@.subrange(from as int, to as int)),
{
    let w = crate::textutil::subvec(v, from, to);
    match parse_ts_shape_exec(&w) {
        Some((l, m)) => {
            proof {
                assert(parse_ts_shape(w@) is Some);
                assert(l.wf());
            }
            add_minutes(&l, -m)
        },
        None => None,
    }
}

} // verus!
