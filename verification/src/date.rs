//! Calendar timestamps and the two date grammars the wire format uses:
//! the machine-oriented `YYYY-MM-DDTHH:MM:SS` form with a `Z` or `+HH:MM`
//! suffix, and the mail-header form `DD Mon YYYY HH:MM:SS +HHMM`.

use vstd::prelude::*;
use vstd::string::StringExecFns;

verus! {

/// A calendar timestamp with a UTC offset in minutes east.
#[derive(Debug, Clone, Copy, PartialEq, Eq, Structural)]
pub struct DateTime {
    pub year: u32,
    pub month: u8,
    pub day: u8,
    pub hour: u8,
    pub minute: u8,
    pub second: u8,
    pub offset_minutes: i32,
}

pub open spec fn spec_leap_year(y: int) -> bool {
    (y % 4 == 0 && y % 100 != 0) || y % 400 == 0
}

pub open spec fn spec_days_in_month(y: int, m: int) -> int {
    if m == 2 {
        if spec_leap_year(y) {
            29
        } else {
            28
        }
    } else if m == 4 || m == 6 || m == 9 || m == 11 {
        30
    } else {
        31
    }
}

/// A calendar-valid timestamp with a four-digit year and a representable
/// offset.
pub open spec fn dt_valid(dt: DateTime) -> bool {
    &&& dt.year <= 9999
    &&& 1 <= dt.month <= 12
    &&& 1 <= dt.day <= spec_days_in_month(dt.year as int, dt.month as int)
    &&& dt.hour <= 23
    &&& dt.minute <= 59
    &&& dt.second <= 59
    &&& -1439 <= dt.offset_minutes <= 1439
}

pub open spec fn digit_val(c: char) -> int {
    match c {
        '0' => 0,
        '1' => 1,
        '2' => 2,
        '3' => 3,
        '4' => 4,
        '5' => 5,
        '6' => 6,
        '7' => 7,
        '8' => 8,
        '9' => 9,
        _ => -1,
    }
}

pub open spec fn digit_char(d: int) -> char {
    if d == 0 {
        '0'
    } else if d == 1 {
        '1'
    } else if d == 2 {
        '2'
    } else if d == 3 {
        '3'
    } else if d == 4 {
        '4'
    } else if d == 5 {
        '5'
    } else if d == 6 {
        '6'
    } else if d == 7 {
        '7'
    } else if d == 8 {
        '8'
    } else if d == 9 {
        '9'
    } else {
        '?'
    }
}

/// The value of the two digits at `s[i]`, `s[i+1]`, or `-1`.
pub open spec fn num2(s: Seq<char>, i: int) -> int {
    if digit_val(s[i]) >= 0 && digit_val(s[i + 1]) >= 0 {
        10 * digit_val(s[i]) + digit_val(s[i + 1])
    } else {
        -1
    }
}

/// The value of the four digits at `s[i]`..`s[i+3]`, or `-1`.
pub open spec fn num4(s: Seq<char>, i: int) -> int {
    if num2(s, i) >= 0 && num2(s, i + 2) >= 0 {
        100 * num2(s, i) + num2(s, i + 2)
    } else {
        -1
    }
}

/// Two-digit zero-padded decimal form of `n`, for `0 <= n <= 99`.
pub open spec fn pad2(n: int) -> Seq<char> {
    seq![digit_char(n / 10), digit_char(n % 10)]
}

/// Four-digit zero-padded decimal form of `n`, for `0 <= n <= 9999`.
pub open spec fn pad4(n: int) -> Seq<char> {
    seq![
        digit_char(n / 1000),
        digit_char((n / 100) % 10),
        digit_char((n / 10) % 10),
        digit_char(n % 10),
    ]
}

pub open spec fn month_name(m: int) -> Seq<char> {
    if m == 1 {
        seq!['J', 'a', 'n']
    } else if m == 2 {
        seq!['F', 'e', 'b']
    } else if m == 3 {
        seq!['M', 'a', 'r']
    } else if m == 4 {
        seq!['A', 'p', 'r']
    } else if m == 5 {
        seq!['M', 'a', 'y']
    } else if m == 6 {
        seq!['J', 'u', 'n']
    } else if m == 7 {
        seq!['J', 'u', 'l']
    } else if m == 8 {
        seq!['A', 'u', 'g']
    } else if m == 9 {
        seq!['S', 'e', 'p']
    } else if m == 10 {
        seq!['O', 'c', 't']
    } else if m == 11 {
        seq!['N', 'o', 'v']
    } else {
        seq!['D', 'e', 'c']
    }
}

/// The month whose name stands at `name`, or `-1`.
pub open spec fn month_of(name: Seq<char>) -> int {
    if name == month_name(1) {
        1
    } else if name == month_name(2) {
        2
    } else if name == month_name(3) {
        3
    } else if name == month_name(4) {
        4
    } else if name == month_name(5) {
        5
    } else if name == month_name(6) {
        6
    } else if name == month_name(7) {
        7
    } else if name == month_name(8) {
        8
    } else if name == month_name(9) {
        9
    } else if name == month_name(10) {
        10
    } else if name == month_name(11) {
        11
    } else if name == month_name(12) {
        12
    } else {
        -1
    }
}

fn push_digit(s: &mut String, d: u32)
    requires
        d < 10,
    ensures
        final(s)@ == old(s)@ + seq![digit_char(d as int)],
{
    match d {
        0 => s.append("0"),
        1 => s.append("1"),
        2 => s.append("2"),
        3 => s.append("3"),
        4 => s.append("4"),
        5 => s.append("5"),
        6 => s.append("6"),
        7 => s.append("7"),
        8 => s.append("8"),
        _ => s.append("9"),
    }
    proof {
        reveal_strlit("0");
        reveal_strlit("1");
        reveal_strlit("2");
        reveal_strlit("3");
        reveal_strlit("4");
        reveal_strlit("5");
        reveal_strlit("6");
        reveal_strlit("7");
        reveal_strlit("8");
        reveal_strlit("9");
        assert(s@ =~= old(s)@ + seq![digit_char(d as int)]);
    }
}

fn push_pad2(s: &mut String, n: u32)
    requires
        n < 100,
    ensures
        final(s)@ == old(s)@ + pad2(n as int),
{
    push_digit(s, n / 10);
    push_digit(s, n % 10);
    proof {
        assert(s@ =~= old(s)@ + pad2(n as int));
    }
}

fn push_pad4(s: &mut String, n: u32)
    requires
        n < 10000,
    ensures
        final(s)@ == old(s)@ + pad4(n as int),
{
    push_digit(s, n / 1000);
    push_digit(s, (n / 100) % 10);
    push_digit(s, (n / 10) % 10);
    push_digit(s, n % 10);
    proof {
        assert(s@ =~= old(s)@ + pad4(n as int));
    }
}

fn push_month(s: &mut String, m: u8)
    requires
        1 <= m <= 12,
    ensures
        final(s)@ == old(s)@ + month_name(m as int),
{
    match m {
        1 => s.append("Jan"),
        2 => s.append("Feb"),
        3 => s.append("Mar"),
        4 => s.append("Apr"),
        5 => s.append("May"),
        6 => s.append("Jun"),
        7 => s.append("Jul"),
        8 => s.append("Aug"),
        9 => s.append("Sep"),
        10 => s.append("Oct"),
        11 => s.append("Nov"),
        _ => s.append("Dec"),
    }
    proof {
        reveal_strlit("Jan");
        reveal_strlit("Feb");
        reveal_strlit("Mar");
        reveal_strlit("Apr");
        reveal_strlit("May");
        reveal_strlit("Jun");
        reveal_strlit("Jul");
        reveal_strlit("Aug");
        reveal_strlit("Sep");
        reveal_strlit("Oct");
        reveal_strlit("Nov");
        reveal_strlit("Dec");
        assert(s@ =~= old(s)@ + month_name(m as int));
    }
}

/// The offset part of the mail-header date form: sign, then hours and
/// minutes, each two digits, with no separator.
pub open spec fn offset_rfc5322(off: int) -> Seq<char> {
    if off >= 0 {
        seq!['+'] + pad2(off / 60) + pad2(off % 60)
    } else {
        seq!['-'] + pad2((-off) / 60) + pad2((-off) % 60)
    }
}

/// The mail-header date form: `DD Mon YYYY HH:MM:SS +HHMM`.
pub open spec fn spec_format_rfc5322(dt: DateTime) -> Seq<char> {
    pad2(dt.day as int) + seq![' '] + month_name(dt.month as int) + seq![' '] + pad4(dt.year as int)
        + seq![' '] + pad2(dt.hour as int) + seq![':'] + pad2(dt.minute as int) + seq![':'] + pad2(
        dt.second as int,
    ) + seq![' '] + offset_rfc5322(dt.offset_minutes as int)
}

/// Writes a valid timestamp in the mail-header date form.
pub fn format_rfc5322(dt: &DateTime) -> (r: String)
    requires
        dt_valid(*dt),
    ensures
        r@ == spec_format_rfc5322(*dt),
{
    let mut s = String::new();
    push_pad2(&mut s, dt.day as u32);
    s.append(" ");
    push_month(&mut s, dt.month);
    s.append(" ");
    push_pad4(&mut s, dt.year);
    s.append(" ");
    push_pad2(&mut s, dt.hour as u32);
    s.append(":");
    push_pad2(&mut s, dt.minute as u32);
    s.append(":");
    push_pad2(&mut s, dt.second as u32);
    s.append(" ");
    if dt.offset_minutes >= 0 {
        let o = dt.offset_minutes as u32;
        s.append("+");
        push_pad2(&mut s, o / 60);
        push_pad2(&mut s, o % 60);
    } else {
        let o = (-dt.offset_minutes) as u32;
        s.append("-");
        push_pad2(&mut s, o / 60);
        push_pad2(&mut s, o % 60);
    }
    proof {
        reveal_strlit(" ");
        reveal_strlit(":");
        reveal_strlit("+");
        reveal_strlit("-");
        assert(s@ =~= spec_format_rfc5322(*dt));
    }
    s
}

/// The machine-oriented date form: `YYYY-MM-DDTHH:MM:SS` followed by `Z`
/// for a zero offset and `+HH:MM` or `-HH:MM` otherwise.
pub open spec fn spec_format_rfc3339(dt: DateTime) -> Seq<char> {
    let head = pad4(dt.year as int) + seq!['-'] + pad2(dt.month as int) + seq!['-'] + pad2(
        dt.day as int,
    ) + seq!['T'] + pad2(dt.hour as int) + seq![':'] + pad2(dt.minute as int) + seq![':'] + pad2(
        dt.second as int,
    );
    if dt.offset_minutes == 0 {
        head + seq!['Z']
    } else if dt.offset_minutes > 0 {
        head + seq!['+'] + pad2(dt.offset_minutes as int / 60) + seq![':'] + pad2(
            dt.offset_minutes as int % 60,
        )
    } else {
        head + seq!['-'] + pad2((-dt.offset_minutes) as int / 60) + seq![':'] + pad2(
            (-dt.offset_minutes) as int % 60,
        )
    }
}

/// Writes a valid timestamp in the machine-oriented date form.
pub fn format_rfc3339(dt: &DateTime) -> (r: String)
    requires
        dt_valid(*dt),
    ensures
        r@ == spec_format_rfc3339(*dt),
{
    let mut s = String::new();
    push_pad4(&mut s, dt.year);
    s.append("-");
    push_pad2(&mut s, dt.month as u32);
    s.append("-");
    push_pad2(&mut s, dt.day as u32);
    s.append("T");
    push_pad2(&mut s, dt.hour as u32);
    s.append(":");
    push_pad2(&mut s, dt.minute as u32);
    s.append(":");
    push_pad2(&mut s, dt.second as u32);
    if dt.offset_minutes == 0 {
        s.append("Z");
    } else if dt.offset_minutes > 0 {
        let o = dt.offset_minutes as u32;
        s.append("+");
        push_pad2(&mut s, o / 60);
        s.append(":");
        push_pad2(&mut s, o % 60);
    } else {
        let o = (-dt.offset_minutes) as u32;
        s.append("-");
        push_pad2(&mut s, o / 60);
        s.append(":");
        push_pad2(&mut s, o % 60);
    }
    proof {
        reveal_strlit("-");
        reveal_strlit("T");
        reveal_strlit(":");
        reveal_strlit("Z");
        reveal_strlit("+");
        assert(s@ =~= spec_format_rfc3339(*dt));
    }
    s
}

fn digit_at(s: &str, i: usize) -> (r: i32)
    requires
        i < s@.len(),
    ensures
        r == digit_val(s@[i as int]),
        -1 <= r <= 9,
{
    match s.get_char(i) {
        '0' => 0,
        '1' => 1,
        '2' => 2,
        '3' => 3,
        '4' => 4,
        '5' => 5,
        '6' => 6,
        '7' => 7,
        '8' => 8,
        '9' => 9,
        _ => -1,
    }
}

fn num2_at(s: &str, i: usize) -> (r: i32)
    requires
        i + 1 < s@.len() <= usize::MAX,
    ensures
        r == num2(s@, i as int),
        -1 <= r <= 99,
{
    let a = digit_at(s, i);
    let b = digit_at(s, i + 1);
    if a >= 0 && b >= 0 {
        10 * a + b
    } else {
        -1
    }
}

fn num4_at(s: &str, i: usize) -> (r: i32)
    requires
        i + 3 < s@.len() <= usize::MAX,
    ensures
        r == num4(s@, i as int),
        -1 <= r <= 9999,
{
    let a = num2_at(s, i);
    let b = num2_at(s, i + 2);
    if a >= 0 && b >= 0 {
        100 * a + b
    } else {
        -1
    }
}

fn leap_year_of(y: u32) -> (r: bool)
    ensures
        r == spec_leap_year(y as int),
{
    (y % 4 == 0 && y % 100 != 0) || y % 400 == 0
}

fn days_in_month_of(y: u32, m: u8) -> (r: u8)
    ensures
        r as int == spec_days_in_month(y as int, m as int),
        28 <= r <= 31,
{
    if m == 2 {
        if leap_year_of(y) {
            29
        } else {
            28
        }
    } else if m == 4 || m == 6 || m == 9 || m == 11 {
        30
    } else {
        31
    }
}

/// What a string must look like to parse in the machine-oriented date
/// form, and what it parses to: strict `YYYY-MM-DDTHH:MM:SS` with a `Z`
/// or `+HH:MM` / `-HH:MM` suffix, each field inside its calendar range.
pub open spec fn spec_parse_rfc3339(s: Seq<char>) -> Option<DateTime> {
    if s.len() != 20 && s.len() != 25 {
        None
    } else if !(s[4] == '-' && s[7] == '-' && s[10] == 'T' && s[13] == ':' && s[16] == ':') {
        None
    } else {
        let y = num4(s, 0);
        let mo = num2(s, 5);
        let d = num2(s, 8);
        let h = num2(s, 11);
        let mi = num2(s, 14);
        let se = num2(s, 17);
        if y < 0 || mo < 1 || mo > 12 || d < 1 || d > spec_days_in_month(y, mo) || h < 0 || h > 23
            || mi < 0 || mi > 59 || se < 0 || se > 59 {
            None
        } else if s.len() == 20 {
            if s[19] == 'Z' {
                Some(
                    DateTime {
                        year: y as u32,
                        month: mo as u8,
                        day: d as u8,
                        hour: h as u8,
                        minute: mi as u8,
                        second: se as u8,
                        offset_minutes: 0,
                    },
                )
            } else {
                None
            }
        } else if (s[19] == '+' || s[19] == '-') && s[22] == ':' {
            let oh = num2(s, 20);
            let om = num2(s, 23);
            if oh < 0 || oh > 23 || om < 0 || om > 59 {
                None
            } else {
                Some(
                    DateTime {
                        year: y as u32,
                        month: mo as u8,
                        day: d as u8,
                        hour: h as u8,
                        minute: mi as u8,
                        second: se as u8,
                        offset_minutes: if s[19] == '+' {
                            (oh * 60 + om) as i32
                        } else {
                            (-(oh * 60 + om)) as i32
                        },
                    },
                )
            }
        } else {
            None
        }
    }
}

/// Every successful machine-oriented parse yields a calendar-valid
/// timestamp.
pub proof fn lemma_parse_rfc3339_valid(s: Seq<char>)
    ensures
        spec_parse_rfc3339(s) matches Some(dt) ==> dt_valid(dt),
{
}

/// Reads a string in the machine-oriented date form.
pub fn parse_rfc3339(s: &str) -> (r: Option<DateTime>)
    ensures
        r == spec_parse_rfc3339(s@),
        r matches Some(dt) ==> dt_valid(dt),
{
    let n = s.unicode_len();
    if n != 20 && n != 25 {
        return None;
    }
    if !(s.get_char(4) == '-' && s.get_char(7) == '-' && s.get_char(10) == 'T' && s.get_char(13)
        == ':' && s.get_char(16) == ':') {
        return None;
    }
    let y = num4_at(s, 0);
    let mo = num2_at(s, 5);
    let d = num2_at(s, 8);
    let h = num2_at(s, 11);
    let mi = num2_at(s, 14);
    let se = num2_at(s, 17);
    if y < 0 || mo < 1 || mo > 12 || d < 1 {
        return None;
    }
    if d > days_in_month_of(y as u32, mo as u8) as i32 {
        return None;
    }
    if h < 0 || h > 23 || mi < 0 || mi > 59 || se < 0 || se > 59 {
        return None;
    }
    let base = DateTime {
        year: y as u32,
        month: mo as u8,
        day: d as u8,
        hour: h as u8,
        minute: mi as u8,
        second: se as u8,
        offset_minutes: 0,
    };
    if n == 20 {
        if s.get_char(19) == 'Z' {
            Some(base)
        } else {
            None
        }
    } else {
        let sign = s.get_char(19);
        if (sign == '+' || sign == '-') && s.get_char(22) == ':' {
            let oh = num2_at(s, 20);
            let om = num2_at(s, 23);
            if oh < 0 || oh > 23 || om < 0 || om > 59 {
                None
            } else {
                let mag = oh * 60 + om;
                Some(
                    DateTime {
                        offset_minutes: if sign == '+' {
                            mag
                        } else {
                            -mag
                        },
                        ..base
                    },
                )
            }
        } else {
            None
        }
    }
}

/// `j` is the position of the first decimal digit within `s[from..to)`.
pub open spec fn is_first_digit_in(s: Seq<char>, from: int, to: int, j: int) -> bool {
    &&& from <= j < to
    &&& j < s.len()
    &&& digit_val(s[j]) >= 0
    &&& forall|k: int| from <= k < j ==> digit_val(s[k]) < 0
}

/// The position of the first decimal digit within `s[from..to)`, or `-1`.
pub open spec fn spec_find_digit(s: Seq<char>, from: int, to: int) -> int {
    if exists|j: int| is_first_digit_in(s, from, to, j) {
        choose|j: int| is_first_digit_in(s, from, to, j)
    } else {
        -1
    }
}

proof fn lemma_find_digit_some(s: Seq<char>, from: int, to: int, j: int)
    requires
        is_first_digit_in(s, from, to, j),
    ensures
        spec_find_digit(s, from, to) == j,
{
    let j2 = choose|j2: int| is_first_digit_in(s, from, to, j2);
    assert(is_first_digit_in(s, from, to, j2));
    if j2 < j {
        assert(digit_val(s[j2]) < 0);
    } else if j < j2 {
        assert(digit_val(s[j]) < 0);
    }
}

proof fn lemma_find_digit_none(s: Seq<char>, from: int, to: int)
    requires
        forall|k: int| from <= k < to && k < s.len() ==> digit_val(s[k]) < 0,
    ensures
        spec_find_digit(s, from, to) == -1,
{
    if exists|j: int| is_first_digit_in(s, from, to, j) {
        let j = choose|j: int| is_first_digit_in(s, from, to, j);
        assert(digit_val(s[j]) < 0);
    }
}

fn find_digit(s: &str, from: usize, to: usize) -> (r: Option<usize>)
    requires
        from <= to <= s@.len(),
    ensures
        match r {
            Some(i) => is_first_digit_in(s@, from as int, to as int, i as int)
                && spec_find_digit(s@, from as int, to as int) == i as int,
            None => spec_find_digit(s@, from as int, to as int) == -1,
        },
{
    let mut i: usize = from;
    while i < to
        invariant
            from <= i <= to <= s@.len(),
            forall|k: int| from <= k < i ==> digit_val(s@[k]) < 0,
        decreases to - i,
    {
        if digit_at(s, i) >= 0 {
            proof {
                lemma_find_digit_some(s@, from as int, to as int, i as int);
            }
            return Some(i);
        }
        i += 1;
    }
    proof {
        lemma_find_digit_none(s@, from as int, to as int);
    }
    None
}

/// The mail-header date form read from position `i`, after the day has
/// been read: month name, year, time of day, and an optional offset.
pub open spec fn spec_parse_rfc5322_at(v: Seq<char>, day: int, i: int) -> Option<DateTime> {
    if !(i + 18 <= v.len() && v[i] == ' ' && v[i + 4] == ' ' && v[i + 9] == ' ' && v[i + 12] == ':'
        && v[i + 15] == ':') {
        None
    } else {
        let mo = month_of(v.subrange(i + 1, i + 4));
        let y = num4(v, i + 5);
        let h = num2(v, i + 10);
        let mi = num2(v, i + 13);
        let se = num2(v, i + 16);
        if mo < 1 || y < 0 || h < 0 || h > 23 || mi < 0 || mi > 59 || se < 0 || se > 59 || day < 1
            || day > spec_days_in_month(y, mo) {
            None
        } else if v.len() == i + 18 {
            Some(
                DateTime {
                    year: y as u32,
                    month: mo as u8,
                    day: day as u8,
                    hour: h as u8,
                    minute: mi as u8,
                    second: se as u8,
                    offset_minutes: 0,
                },
            )
        } else if v.len() == i + 24 && v[i + 18] == ' ' && (v[i + 19] == '+' || v[i + 19] == '-') {
            let oh = num2(v, i + 20);
            let om = num2(v, i + 22);
            if oh < 0 || oh > 23 || om < 0 || om > 59 {
                None
            } else {
                Some(
                    DateTime {
                        year: y as u32,
                        month: mo as u8,
                        day: day as u8,
                        hour: h as u8,
                        minute: mi as u8,
                        second: se as u8,
                        offset_minutes: if v[i + 19] == '+' {
                            (oh * 60 + om) as i32
                        } else {
                            (-(oh * 60 + om)) as i32
                        },
                    },
                )
            }
        } else {
            None
        }
    }
}

/// What a header value must look like to parse in the mail-header date
/// form: anything before the first digit (such as a day name) is skipped,
/// then `D Mon YYYY HH:MM:SS`, with one- or two-digit day, optionally
/// followed by ` +HHMM` or ` -HHMM`; a missing offset reads as zero.
pub open spec fn spec_parse_rfc5322(v: Seq<char>) -> Option<DateTime> {
    let st = spec_find_digit(v, 0, v.len() as int);
    if st == -1 {
        None
    } else if st + 1 < v.len() && digit_val(v[st + 1]) >= 0 {
        spec_parse_rfc5322_at(v, num2(v, st), st + 2)
    } else {
        spec_parse_rfc5322_at(v, digit_val(v[st]), st + 1)
    }
}

/// Every successful mail-header parse yields a calendar-valid timestamp.
pub proof fn lemma_parse_rfc5322_valid(v: Seq<char>)
    ensures
        spec_parse_rfc5322(v) matches Some(dt) ==> dt_valid(dt),
{
}

fn month_code(s: &str, i: usize) -> (r: i32)
    requires
        i + 3 <= s@.len() <= usize::MAX,
    ensures
        r == month_of(s@.subrange(i as int, i as int + 3)),
        -1 <= r <= 12,
{
    let c1 = s.get_char(i);
    let c2 = s.get_char(i + 1);
    let c3 = s.get_char(i + 2);
    proof {
        let sub = s@.subrange(i as int, i as int + 3);
        assert(sub.len() == 3);
        assert(sub[0] == c1 && sub[1] == c2 && sub[2] == c3);
    }
    if c1 == 'J' && c2 == 'a' && c3 == 'n' {
        proof {
            assert(s@.subrange(i as int, i as int + 3) =~= month_name(1));
        }
        1
    } else if c1 == 'F' && c2 == 'e' && c3 == 'b' {
        proof {
            assert(s@.subrange(i as int, i as int + 3) =~= month_name(2));
        }
        2
    } else if c1 == 'M' && c2 == 'a' && c3 == 'r' {
        proof {
            assert(s@.subrange(i as int, i as int + 3) =~= month_name(3));
        }
        3
    } else if c1 == 'A' && c2 == 'p' && c3 == 'r' {
        proof {
            assert(s@.subrange(i as int, i as int + 3) =~= month_name(4));
        }
        4
    } else if c1 == 'M' && c2 == 'a' && c3 == 'y' {
        proof {
            assert(s@.subrange(i as int, i as int + 3) =~= month_name(5));
        }
        5
    } else if c1 == 'J' && c2 == 'u' && c3 == 'n' {
        proof {
            assert(s@.subrange(i as int, i as int + 3) =~= month_name(6));
        }
        6
    } else if c1 == 'J' && c2 == 'u' && c3 == 'l' {
        proof {
            assert(s@.subrange(i as int, i as int + 3) =~= month_name(7));
        }
        7
    } else if c1 == 'A' && c2 == 'u' && c3 == 'g' {
        proof {
            assert(s@.subrange(i as int, i as int + 3) =~= month_name(8));
        }
        8
    } else if c1 == 'S' && c2 == 'e' && c3 == 'p' {
        proof {
            assert(s@.subrange(i as int, i as int + 3) =~= month_name(9));
        }
        9
    } else if c1 == 'O' && c2 == 'c' && c3 == 't' {
        proof {
            assert(s@.subrange(i as int, i as int + 3) =~= month_name(10));
        }
        10
    } else if c1 == 'N' && c2 == 'o' && c3 == 'v' {
        proof {
            assert(s@.subrange(i as int, i as int + 3) =~= month_name(11));
        }
        11
    } else if c1 == 'D' && c2 == 'e' && c3 == 'c' {
        proof {
            assert(s@.subrange(i as int, i as int + 3) =~= month_name(12));
        }
        12
    } else {
        -1
    }
}

fn parse_rfc5322_at(s: &str, day: i32, i: usize) -> (r: Option<DateTime>)
    requires
        i <= s@.len(),
        0 <= day <= 99,
    ensures
        r == spec_parse_rfc5322_at(s@, day as int, i as int),
        r matches Some(dt) ==> dt_valid(dt),
{
    let n = s.unicode_len();
    if n < 18 || i > n - 18 {
        return None;
    }
    if !(s.get_char(i) == ' ' && s.get_char(i + 4) == ' ' && s.get_char(i + 9) == ' '
        && s.get_char(i + 12) == ':' && s.get_char(i + 15) == ':') {
        return None;
    }
    let mo = month_code(s, i + 1);
    let y = num4_at(s, i + 5);
    let h = num2_at(s, i + 10);
    let mi = num2_at(s, i + 13);
    let se = num2_at(s, i + 16);
    if mo < 1 || y < 0 || h < 0 || h > 23 || mi < 0 || mi > 59 || se < 0 || se > 59 || day < 1 {
        return None;
    }
    if day > days_in_month_of(y as u32, mo as u8) as i32 {
        return None;
    }
    let base = DateTime {
        year: y as u32,
        month: mo as u8,
        day: day as u8,
        hour: h as u8,
        minute: mi as u8,
        second: se as u8,
        offset_minutes: 0,
    };
    if n - i == 18 {
        Some(base)
    } else if n - i == 24 && s.get_char(i + 18) == ' ' && (s.get_char(i + 19) == '+' || s.get_char(
        i + 19,
    ) == '-') {
        let oh = num2_at(s, i + 20);
        let om = num2_at(s, i + 22);
        if oh < 0 || oh > 23 || om < 0 || om > 59 {
            None
        } else {
            let mag = oh * 60 + om;
            Some(
                DateTime {
                    offset_minutes: if s.get_char(i + 19) == '+' {
                        mag
                    } else {
                        -mag
                    },
                    ..base
                },
            )
        }
    } else {
        None
    }
}

/// Reads a header value in the mail-header date form.
pub fn parse_rfc5322(s: &str) -> (r: Option<DateTime>)
    ensures
        r == spec_parse_rfc5322(s@),
        r matches Some(dt) ==> dt_valid(dt),
{
    let n = s.unicode_len();
    let st = match find_digit(s, 0, n) {
        None => {
            return None;
        },
        Some(st) => st,
    };
    if st + 1 < n && digit_at(s, st + 1) >= 0 {
        let day = num2_at(s, st);
        parse_rfc5322_at(s, day, st + 2)
    } else {
        let day = digit_at(s, st);
        parse_rfc5322_at(s, day, st + 1)
    }
}

pub open spec fn spec_days_in_year(y: int) -> int {
    if spec_leap_year(y) {
        366
    } else {
        365
    }
}

/// The number of days in months `m..=12` of year `y`.
pub open spec fn spec_days_from_month(y: int, m: int) -> int
    decreases 13 - m,
{
    if m > 12 {
        0
    } else {
        spec_days_in_month(y, m) + spec_days_from_month(y, m + 1)
    }
}

proof fn lemma_days_from_month_total(y: int)
    ensures
        spec_days_from_month(y, 1) == spec_days_in_year(y),
{
    reveal_with_fuel(spec_days_from_month, 13);
}

fn days_in_year_of(y: u32) -> (r: u16)
    ensures
        r as int == spec_days_in_year(y as int),
        365 <= r <= 366,
{
    if leap_year_of(y) {
        366
    } else {
        365
    }
}

/// Converts a count of seconds since the Unix epoch into a calendar
/// The number of days between the epoch's year and the start of year
/// `y`.
pub open spec fn spec_days_before_year(y: int) -> int
    decreases y,
{
    if y <= 1970 {
        0
    } else {
        spec_days_before_year(y - 1) + spec_days_in_year(y - 1)
    }
}

/// The number of days of year `y` that lie before month `m`.
pub open spec fn spec_days_before_month(y: int, m: int) -> int
    decreases m,
{
    if m <= 1 {
        0
    } else {
        spec_days_before_month(y, m - 1) + spec_days_in_month(y, m - 1)
    }
}

proof fn lemma_days_before_year_mono(y1: int, y2: int)
    requires
        y1 <= y2,
    ensures
        spec_days_before_year(y1) <= spec_days_before_year(y2),
    decreases y2 - y1,
{
    if y1 < y2 {
        lemma_days_before_year_mono(y1, y2 - 1);
    }
}

/// Converts a count of seconds since the Unix epoch into a calendar
/// timestamp at a zero offset: the day count selects the unique calendar
/// date whose day-number matches, and the remainder gives the time of
/// day. A count beyond the last representable four-digit-year instant is
/// clamped to the last day of that year.
#[verifier::loop_isolation(false)]
pub fn civil_from_epoch(secs: u64) -> (r: DateTime)
    ensures
        dt_valid(r),
        r.offset_minutes == 0,
        r.hour as int == ((secs as int) % 86400) / 3600,
        r.minute as int == (((secs as int) % 86400) % 3600) / 60,
        r.second as int == (secs as int) % 60,
        ({
            let d0 = (secs as int) / 86400;
            let dd = if d0 < spec_days_before_year(10000) {
                d0
            } else {
                spec_days_before_year(10000) - 1
            };
            dd == spec_days_before_year(r.year as int) + spec_days_before_month(
                r.year as int,
                r.month as int,
            ) + (r.day - 1)
        }),
{
    let rem: u64 = secs % 86400;
    let hour: u8 = (rem / 3600) as u8;
    let minute: u8 = ((rem % 3600) / 60) as u8;
    let second: u8 = (rem % 60) as u8;
    let ghost d0 = (secs as int) / 86400;
    let mut days: u64 = secs / 86400;
    let mut year: u32 = 1970;
    while year < 9999 && days >= days_in_year_of(year) as u64
        invariant
            1970 <= year <= 9999,
            d0 == spec_days_before_year(year as int) + days,
        decreases 9999 - year,
    {
        days = days - days_in_year_of(year) as u64;
        year = year + 1;
    }
    let ghost dd: int = d0;
    if days >= days_in_year_of(year) as u64 {
        proof {
            assert(year == 9999);
            assert(spec_days_before_year(10000) == spec_days_before_year(9999)
                + spec_days_in_year(9999));
            assert(d0 >= spec_days_before_year(10000));
        }
        days = 364;
        proof {
            dd = spec_days_before_year(10000) - 1;
            assert(dd == spec_days_before_year(year as int) + days);
        }
    } else {
        proof {
            if year < 9999 {
                assert(spec_days_before_year(year as int + 1) == spec_days_before_year(
                    year as int,
                ) + spec_days_in_year(year as int));
                lemma_days_before_year_mono(year as int + 1, 10000);
            } else {
                assert(spec_days_before_year(10000) == spec_days_before_year(9999)
                    + spec_days_in_year(9999));
            }
            assert(d0 < spec_days_before_year(10000));
        }
    }
    proof {
        lemma_days_from_month_total(year as int);
    }
    let mut month: u8 = 1;
    while month < 12 && days >= days_in_month_of(year, month) as u64
        invariant
            1 <= month <= 12,
            days < spec_days_from_month(year as int, month as int),
            dd == spec_days_before_year(year as int) + spec_days_before_month(
                year as int,
                month as int,
            ) + days,
        decreases 12 - month,
    {
        days = days - days_in_month_of(year, month) as u64;
        month = month + 1;
    }
    proof {
        if month == 12 {
            reveal_with_fuel(spec_days_from_month, 2);
        }
    }
    let day: u8 = (days + 1) as u8;
    DateTime { year, month, day, hour, minute, second, offset_minutes: 0 }
}

proof fn lemma_digit_value(d: int)
    requires
        0 <= d <= 9,
    ensures
        digit_val(digit_char(d)) == d,
{
}

proof fn lemma_month_code(m: int)
    requires
        1 <= m <= 12,
    ensures
        month_of(month_name(m)) == m,
{
}

#[verifier::rlimit(100)]
#[verifier::spinoff_prover]
proof fn lemma_format_5322_chars(dt: DateTime)
    requires
        dt_valid(dt),
    ensures
        ({
            let v = spec_format_rfc5322(dt);
            let oa = if dt.offset_minutes >= 0 {
                dt.offset_minutes as int
            } else {
                -(dt.offset_minutes as int)
            };
            &&& v.len() == 26
            &&& v[0] == digit_char(dt.day as int / 10)
            &&& v[1] == digit_char(dt.day as int % 10)
            &&& v[2] == ' '
            &&& v.subrange(3, 6) == month_name(dt.month as int)
            &&& v[6] == ' '
            &&& v[7] == digit_char(dt.year as int / 1000)
            &&& v[8] == digit_char((dt.year as int / 100) % 10)
            &&& v[9] == digit_char((dt.year as int / 10) % 10)
            &&& v[10] == digit_char(dt.year as int % 10)
            &&& v[11] == ' '
            &&& v[12] == digit_char(dt.hour as int / 10)
            &&& v[13] == digit_char(dt.hour as int % 10)
            &&& v[14] == ':'
            &&& v[15] == digit_char(dt.minute as int / 10)
            &&& v[16] == digit_char(dt.minute as int % 10)
            &&& v[17] == ':'
            &&& v[18] == digit_char(dt.second as int / 10)
            &&& v[19] == digit_char(dt.second as int % 10)
            &&& v[20] == ' '
            &&& v[21] == (if dt.offset_minutes >= 0 {
                '+'
            } else {
                '-'
            })
            &&& v[22] == digit_char((oa / 60) / 10)
            &&& v[23] == digit_char((oa / 60) % 10)
            &&& v[24] == digit_char((oa % 60) / 10)
            &&& v[25] == digit_char((oa % 60) % 10)
        }),
{
    let v = spec_format_rfc5322(dt);
    assert(v.subrange(3, 6) =~= month_name(dt.month as int));
}

/// Reading the mail-header form of a valid timestamp gives the timestamp
/// back: the two date grammars are inverse on what the serializer emits.
#[verifier::rlimit(100)]
#[verifier::spinoff_prover]
pub proof fn lemma_rfc5322_round_trip(dt: DateTime)
    requires
        dt_valid(dt),
    ensures
        spec_parse_rfc5322(spec_format_rfc5322(dt)) == Some(dt),
{
    let v = spec_format_rfc5322(dt);
    let d = dt.day as int;
    let mo = dt.month as int;
    let y = dt.year as int;
    let h = dt.hour as int;
    let mi = dt.minute as int;
    let se = dt.second as int;
    let off = dt.offset_minutes as int;
    let oa = if off >= 0 {
        off
    } else {
        -off
    };
    lemma_format_5322_chars(dt);
    lemma_digit_value(d / 10);
    lemma_digit_value(d % 10);
    lemma_digit_value(y / 1000);
    lemma_digit_value((y / 100) % 10);
    lemma_digit_value((y / 10) % 10);
    lemma_digit_value(y % 10);
    lemma_digit_value(h / 10);
    lemma_digit_value(h % 10);
    lemma_digit_value(mi / 10);
    lemma_digit_value(mi % 10);
    lemma_digit_value(se / 10);
    lemma_digit_value(se % 10);
    lemma_digit_value((oa / 60) / 10);
    lemma_digit_value((oa / 60) % 10);
    lemma_digit_value((oa % 60) / 10);
    lemma_digit_value((oa % 60) % 10);
    assert(is_first_digit_in(v, 0, 26, 0));
    lemma_find_digit_some(v, 0, 26, 0);
    assert(num2(v, 0) == d);
    lemma_month_code(mo);
    assert(num2(v, 7) == 10 * (y / 1000) + (y / 100) % 10);
    assert(num2(v, 9) == 10 * ((y / 10) % 10) + y % 10);
    assert(num4(v, 7) == y) by {
        assert(y == 1000 * (y / 1000) + 100 * ((y / 100) % 10) + 10 * ((y / 10) % 10) + y % 10);
    }
    assert(num2(v, 12) == h);
    assert(num2(v, 15) == mi);
    assert(num2(v, 18) == se);
    assert(num2(v, 22) == oa / 60);
    assert(num2(v, 24) == oa % 60);
    assert(oa / 60 <= 23);
    assert((oa / 60) * 60 + oa % 60 == oa);
    assert(spec_parse_rfc5322_at(v, d, 2) == Some(dt));
}

#[verifier::rlimit(100)]
#[verifier::spinoff_prover]
proof fn lemma_format_3339_chars(dt: DateTime)
    requires
        dt_valid(dt),
    ensures
        ({
            let v = spec_format_rfc3339(dt);
            let oa = if dt.offset_minutes >= 0 {
                dt.offset_minutes as int
            } else {
                -(dt.offset_minutes as int)
            };
            &&& v.len() == (if dt.offset_minutes == 0 {
                20int
            } else {
                25int
            })
            &&& v[0] == digit_char(dt.year as int / 1000)
            &&& v[1] == digit_char((dt.year as int / 100) % 10)
            &&& v[2] == digit_char((dt.year as int / 10) % 10)
            &&& v[3] == digit_char(dt.year as int % 10)
            &&& v[4] == '-'
            &&& v[5] == digit_char(dt.month as int / 10)
            &&& v[6] == digit_char(dt.month as int % 10)
            &&& v[7] == '-'
            &&& v[8] == digit_char(dt.day as int / 10)
            &&& v[9] == digit_char(dt.day as int % 10)
            &&& v[10] == 'T'
            &&& v[11] == digit_char(dt.hour as int / 10)
            &&& v[12] == digit_char(dt.hour as int % 10)
            &&& v[13] == ':'
            &&& v[14] == digit_char(dt.minute as int / 10)
            &&& v[15] == digit_char(dt.minute as int % 10)
            &&& v[16] == ':'
            &&& v[17] == digit_char(dt.second as int / 10)
            &&& v[18] == digit_char(dt.second as int % 10)
            &&& (dt.offset_minutes == 0 ==> v[19] == 'Z')
            &&& (dt.offset_minutes != 0 ==> {
                &&& v[19] == (if dt.offset_minutes > 0 {
                    '+'
                } else {
                    '-'
                })
                &&& v[20] == digit_char((oa / 60) / 10)
                &&& v[21] == digit_char((oa / 60) % 10)
                &&& v[22] == ':'
                &&& v[23] == digit_char((oa % 60) / 10)
                &&& v[24] == digit_char((oa % 60) % 10)
            })
        }),
{
}

/// Reading the machine-oriented form of a valid timestamp gives the
/// timestamp back, so a date that has been through one conversion
/// resolves exactly on the next.
#[verifier::rlimit(100)]
#[verifier::spinoff_prover]
pub proof fn lemma_rfc3339_round_trip(dt: DateTime)
    requires
        dt_valid(dt),
    ensures
        spec_parse_rfc3339(spec_format_rfc3339(dt)) == Some(dt),
{
    let v = spec_format_rfc3339(dt);
    let d = dt.day as int;
    let mo = dt.month as int;
    let y = dt.year as int;
    let h = dt.hour as int;
    let mi = dt.minute as int;
    let se = dt.second as int;
    let off = dt.offset_minutes as int;
    let oa = if off >= 0 {
        off
    } else {
        -off
    };
    lemma_format_3339_chars(dt);
    lemma_digit_value(d / 10);
    lemma_digit_value(d % 10);
    lemma_digit_value(mo / 10);
    lemma_digit_value(mo % 10);
    lemma_digit_value(y / 1000);
    lemma_digit_value((y / 100) % 10);
    lemma_digit_value((y / 10) % 10);
    lemma_digit_value(y % 10);
    lemma_digit_value(h / 10);
    lemma_digit_value(h % 10);
    lemma_digit_value(mi / 10);
    lemma_digit_value(mi % 10);
    lemma_digit_value(se / 10);
    lemma_digit_value(se % 10);
    lemma_digit_value((oa / 60) / 10);
    lemma_digit_value((oa / 60) % 10);
    lemma_digit_value((oa % 60) / 10);
    lemma_digit_value((oa % 60) % 10);
    assert(num4(v, 0) == y) by {
        assert(y == 1000 * (y / 1000) + 100 * ((y / 100) % 10) + 10 * ((y / 10) % 10) + y % 10);
    }
    assert(num2(v, 5) == mo);
    assert(num2(v, 8) == d);
    assert(num2(v, 11) == h);
    assert(num2(v, 14) == mi);
    assert(num2(v, 17) == se);
    if off != 0 {
        assert(num2(v, 20) == oa / 60);
        assert(num2(v, 23) == oa % 60);
        assert(oa / 60 <= 23);
        assert((oa / 60) * 60 + oa % 60 == oa);
    }
}

/// The decimal form of a number, most significant digit first.
pub open spec fn spec_dec(n: nat) -> Seq<char>
    decreases n,
{
    if n < 10 {
        seq![digit_char(n as int)]
    } else {
        spec_dec(n / 10) + seq![digit_char((n % 10) as int)]
    }
}

/// Writes a number in decimal, as when a protocol-side sequence number
/// becomes a message identifier.
pub fn u32_to_dec(n: u32) -> (r: String)
    ensures
        r@ == spec_dec(n as nat),
    decreases n,
{
    if n < 10 {
        let mut s = String::new();
        push_digit(&mut s, n);
        proof {
            assert(s@ =~= spec_dec(n as nat));
        }
        s
    } else {
        let mut s = u32_to_dec(n / 10);
        push_digit(&mut s, n % 10);
        proof {
            assert(s@ =~= spec_dec(n as nat));
        }
        s
    }
}

/// The timestamp a message's stored date resolves to at serialization
/// time: the date itself when it reads in the machine-oriented form, the
/// caller's fallback otherwise.
pub open spec fn spec_resolve_date(d: Seq<char>, fallback: DateTime) -> DateTime {
    match spec_parse_rfc3339(d) {
        Some(dt) => dt,
        None => fallback,
    }
}

/// Resolves a stored date string against a fallback timestamp.
pub fn resolve_date(date: &str, fallback: &DateTime) -> (r: DateTime)
    requires
        dt_valid(*fallback),
    ensures
        r == spec_resolve_date(date@, *fallback),
        dt_valid(r),
{
    match parse_rfc3339(date) {
        Some(dt) => dt,
        None => *fallback,
    }
}

} // verus!
