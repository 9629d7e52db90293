use crate::pattern::{leftmost_match, CompiledPattern};
use crate::text::{
    all_digits, begins_with, chars_of, contains_run, digits_value, has_prefix, occurs_in,
};
use chrono::Datelike;
use vstd::prelude::*;

verus! {

/// A calendar date in UTC.
#[derive(Debug, Clone, Copy, PartialEq, Eq, Structural)]
pub struct CivilDate {
    pub year: i32,
    pub month: u32,
    pub day: u32,
}

impl CivilDate {
    /// Month and day lie in their calendar ranges.
    pub open spec fn plausible(self) -> bool {
        1 <= self.month <= 12 && 1 <= self.day <= 31
    }
}

/// Whether `c` has the Unicode White_Space property.
pub open spec fn is_white(c: char) -> bool {
    let u = c as u32;
    (0x9 <= u <= 0xd) || u == 0x20 || u == 0x85 || u == 0xa0 || u == 0x1680 || (0x2000 <= u
        <= 0x200a) || u == 0x2028 || u == 0x2029 || u == 0x202f || u == 0x205f || u == 0x3000
}

/// How many white space characters `s` starts with.
pub open spec fn leading_white(s: Seq<char>) -> nat
    decreases s.len(),
{
    if s.len() == 0 || !is_white(s[0]) {
        0
    } else {
        1 + leading_white(s.drop_first())
    }
}

/// How many white space characters `s` ends with.
pub open spec fn trailing_white(s: Seq<char>) -> nat
    decreases s.len(),
{
    if s.len() == 0 || !is_white(s.last()) {
        0
    } else {
        1 + trailing_white(s.drop_last())
    }
}

/// `s` without leading and trailing white space.
pub open spec fn trim_of(s: Seq<char>) -> Seq<char> {
    let rest = s.subrange(leading_white(s) as int, s.len() as int);
    rest.subrange(0, rest.len() - trailing_white(rest))
}

proof fn lemma_leading_white_at(s: Seq<char>, k: int)
    requires
        0 <= k <= s.len(),
        k < s.len() ==> !is_white(s[k]),
        forall|i: int| 0 <= i < k ==> is_white(s[i]),
    ensures
        leading_white(s) == k,
    decreases s.len(),
{
    if k > 0 {
        assert forall|i: int| 0 <= i < k - 1 implies is_white(s.drop_first()[i]) by {
            assert(s.drop_first()[i] == s[i + 1]);
        }
        lemma_leading_white_at(s.drop_first(), k - 1);
    }
}

proof fn lemma_trailing_white_at(s: Seq<char>, k: int)
    requires
        0 <= k <= s.len(),
        k > 0 ==> !is_white(s[k - 1]),
        forall|i: int| k <= i < s.len() ==> is_white(s[i]),
    ensures
        trailing_white(s) == s.len() - k,
    decreases s.len(),
{
    if k < s.len() {
        assert forall|i: int| k <= i < s.len() - 1 implies is_white(s.drop_last()[i]) by {
            assert(s.drop_last()[i] == s[i]);
        }
        lemma_trailing_white_at(s.drop_last(), k);
    }
}

fn white(c: char) -> (r: bool)
    ensures
        r == is_white(c),
{
    let u = c as u32;
    (0x9 <= u && u <= 0xd) || u == 0x20 || u == 0x85 || u == 0xa0 || u == 0x1680 || (0x2000 <= u
        && u <= 0x200a) || u == 0x2028 || u == 0x2029 || u == 0x202f || u == 0x205f || u == 0x3000
}

/// `text` without leading and trailing white space.
fn trimmed(text: &Vec<char>) -> (r: Vec<char>)
    ensures
        r@ == trim_of(text@),
{
    let n = text.len();
    let mut a: usize = 0;
    while a < n && white(text[a])
        invariant
            a <= n == text.len(),
            forall|i: int| 0 <= i < a ==> is_white(text@[i]),
        decreases n - a,
    {
        a = a + 1;
    }
    proof {
        lemma_leading_white_at(text@, a as int);
    }
    let mut b: usize = n;
    while b > a && white(text[b - 1])
        invariant
            a <= b <= n == text.len(),
            forall|i: int| b <= i < n ==> is_white(text@[i]),
        decreases b - a,
    {
        b = b - 1;
    }
    let ghost rest = text@.subrange(a as int, n as int);
    proof {
        assert forall|i: int| b - a <= i < rest.len() implies is_white(rest[i]) by {
            assert(rest[i] == text@[a + i]);
        }
        if b > a {
            assert(rest[b - a - 1] == text@[b - 1]);
        }
        lemma_trailing_white_at(rest, b - a);
    }
    let mut out: Vec<char> = Vec::new();
    let mut i: usize = a;
    while i < b
        invariant
            a <= i <= b <= n == text.len(),
            out@ == text@.subrange(a as int, i as int),
        decreases b - i,
    {
        out.push(text[i]);
        i = i + 1;
        assert(out@ =~= text@.subrange(a as int, i as int));
    }
    assert(out@ =~= rest.subrange(0, rest.len() - trailing_white(rest)));
    out
}

/// What `chrono::DateTime::parse_from_str` makes of `text` under `fmt`, as
/// microseconds since the epoch in UTC.
pub uninterp spec fn offset_parse(text: Seq<char>, fmt: Seq<char>) -> Option<i64>;

/// What `chrono::NaiveDateTime::parse_from_str` makes of `text` under `fmt`,
/// read as UTC, in microseconds since the epoch.
pub uninterp spec fn naive_parse(text: Seq<char>, fmt: Seq<char>) -> Option<i64>;

/// Relies on `chrono::DateTime::parse_from_str`: parses a whole string with
/// an offset under a format; the instant is given in UTC microseconds.
#[verifier::external_body]
fn parse_with_offset(text: &Vec<char>, fmt: &Vec<char>) -> (r: Option<i64>)
    ensures
        r == offset_parse(text@, fmt@),
{
    let t: String = text.iter().collect();
    let f: String = fmt.iter().collect();
    chrono::DateTime::parse_from_str(&t, &f).ok().map(|dt| dt.timestamp_micros())
}

/// Relies on `chrono::NaiveDateTime::parse_from_str`: parses a whole string
/// without an offset under a format; the result is read as UTC.
#[verifier::external_body]
fn parse_naive(text: &Vec<char>, fmt: &Vec<char>) -> (r: Option<i64>)
    ensures
        r == naive_parse(text@, fmt@),
{
    let t: String = text.iter().collect();
    let f: String = fmt.iter().collect();
    chrono::NaiveDateTime::parse_from_str(&t, &f).ok().map(|ndt| ndt.and_utc().timestamp_micros())
}

/// Relies on `chrono::Utc::now`: today's date in UTC, with month and day
/// counted from one.
#[verifier::external_body]
fn utc_today() -> (r: CivilDate)
    ensures
        1 <= r.month <= 12,
        1 <= r.day <= 31,
{
    let d = chrono::Utc::now().date_naive();
    CivilDate { year: d.year(), month: d.month(), day: d.day() }
}


/// The digit character for `d`.
pub open spec fn digit_char(d: int) -> char {
    (d + '0' as int) as char
}

/// Decimal digits of a natural number, without leading zeros.
pub open spec fn digits_of(n: nat) -> Seq<char>
    decreases n,
{
    if n < 10 {
        seq![digit_char(n as int)]
    } else {
        digits_of(n / 10) + seq![digit_char((n % 10) as int)]
    }
}

/// An integer in decimal, with a leading `-` when negative.
pub open spec fn decimal(n: int) -> Seq<char> {
    if n < 0 {
        seq!['-'] + digits_of((-n) as nat)
    } else {
        digits_of(n as nat)
    }
}

/// A month or day number, zero-padded to two digits.
pub open spec fn two_digits(n: nat) -> Seq<char> {
    if n < 10 {
        seq!['0'] + digits_of(n)
    } else {
        digits_of(n)
    }
}

/// A natural number zero-padded to at least four digits.
pub open spec fn four_digits(n: nat) -> Seq<char> {
    if n < 10 {
        seq!['0', '0', '0'] + digits_of(n)
    } else if n < 100 {
        seq!['0', '0'] + digits_of(n)
    } else if n < 1000 {
        seq!['0'] + digits_of(n)
    } else {
        digits_of(n)
    }
}

/// A year as chrono's `%Y` writes it: four zero-padded digits from 0 to
/// 9999, otherwise a sign and at least four digits.
pub open spec fn year_text(y: int) -> Seq<char> {
    if 0 <= y <= 9999 {
        four_digits(y as nat)
    } else if y > 9999 {
        seq!['+'] + digits_of(y as nat)
    } else {
        seq!['-'] + four_digits((-y) as nat)
    }
}

/// A date as chrono's `%Y-%m-%d` writes it.
pub open spec fn date_text(d: CivilDate) -> Seq<char> {
    year_text(d.year as int) + seq!['-'] + two_digits(d.month as nat) + seq!['-'] + two_digits(
        d.day as nat,
    )
}

/// Appends the decimal digits of `n`.
fn push_digits(out: &mut Vec<char>, n: u32)
    ensures
        final(out)@ == old(out)@ + digits_of(n as nat),
    decreases n,
{
    if n >= 10 {
        push_digits(out, n / 10);
    }
    let d: u32 = n % 10;
    let c: char = ((d + '0' as u32) as u8) as char;
    assert(c == digit_char(d as int));
    out.push(c);
    assert(out@ =~= old(out)@ + digits_of(n as nat));
}

/// Appends `n` zero-padded to at least four digits.
fn push_four_digits(out: &mut Vec<char>, n: u32)
    ensures
        final(out)@ == old(out)@ + four_digits(n as nat),
{
    if n < 1000 {
        out.push('0');
    }
    if n < 100 {
        out.push('0');
    }
    if n < 10 {
        out.push('0');
    }
    push_digits(out, n);
    assert(out@ =~= old(out)@ + four_digits(n as nat));
}

/// Appends a year as chrono's `%Y` writes it.
fn push_year(out: &mut Vec<char>, y: i32)
    ensures
        final(out)@ == old(out)@ + year_text(y as int),
{
    if 0 <= y && y <= 9999 {
        push_four_digits(out, y as u32);
    } else if y > 9999 {
        out.push('+');
        push_digits(out, y as u32);
        assert(out@ =~= old(out)@ + year_text(y as int));
    } else {
        out.push('-');
        let m: u32 = (0i64 - y as i64) as u32;
        push_four_digits(out, m);
        assert(out@ =~= old(out)@ + year_text(y as int));
    }
}

/// Appends `n` in decimal.
fn push_decimal(out: &mut Vec<char>, n: i32)
    ensures
        final(out)@ == old(out)@ + decimal(n as int),
{
    if n < 0 {
        out.push('-');
        let m: u32 = (0i64 - n as i64) as u32;
        push_digits(out, m);
        assert(final(out)@ =~= old(out)@ + decimal(n as int));
    } else {
        push_digits(out, n as u32);
    }
}

/// Appends a month or day number, zero-padded to two digits.
fn push_two_digits(out: &mut Vec<char>, n: u32)
    ensures
        final(out)@ == old(out)@ + two_digits(n as nat),
{
    if n < 10 {
        out.push('0');
        push_digits(out, n);
        assert(final(out)@ =~= old(out)@ + two_digits(n as nat));
    } else {
        push_digits(out, n);
    }
}

/// Appends all of `tail`.
fn push_all(out: &mut Vec<char>, tail: &Vec<char>)
    ensures
        final(out)@ == old(out)@ + tail@,
{
    let mut i: usize = 0;
    while i < tail.len()
        invariant
            i <= tail.len(),
            out@ == old(out)@ + tail@.subrange(0, i as int),
        decreases tail.len() - i,
    {
        out.push(tail[i]);
        i = i + 1;
        assert(out@ =~= old(out)@ + tail@.subrange(0, i as int));
    }
    assert(tail@.subrange(0, i as int) =~= tail@);
}

/// Unix epoch seconds written as a whole number: an optional sign and ASCII
/// digits, taken only within `[1_000_000_000, 10_000_000_000)`.
pub open spec fn epoch_seconds(t: Seq<char>) -> Option<int> {
    let body = if t.len() > 0 && (t[0] == '+' || t[0] == '-') {
        t.drop_first()
    } else {
        t
    };
    let negative = t.len() > 0 && t[0] == '-';
    if body.len() > 0 && all_digits(body) && !negative && 1_000_000_000 <= digits_value(body)
        < 10_000_000_000 {
        Some(digits_value(body))
    } else {
        None
    }
}

/// The seconds of `t` when it is a whole number in the epoch range.
fn epoch_of(t: &Vec<char>) -> (r: Option<i64>)
    ensures
        r matches Some(v) ==> epoch_seconds(t@) == Some(v as int),
        r is None <==> epoch_seconds(t@) is None,
{
    let n = t.len();
    if n == 0 || t[0] == '-' {
        return None;
    }
    let start: usize = if t[0] == '+' {
        1
    } else {
        0
    };
    if start == n {
        return None;
    }
    let ghost body = if t@[0] == '+' || t@[0] == '-' {
        t@.drop_first()
    } else {
        t@
    };
    assert(body =~= t@.subrange(start as int, n as int));
    let cap: u64 = 10_000_000_000;
    let mut acc: u64 = 0;
    let mut i: usize = start;
    while i < n
        invariant
            start <= i <= n == t.len(),
            cap == 10_000_000_000,
            body == t@.subrange(start as int, n as int),
            t@.len() > 0 && t@[0] != '-',
            body == (if t@[0] == '+' || t@[0] == '-' {
                t@.drop_first()
            } else {
                t@
            }),
            all_digits(t@.subrange(start as int, i as int)),
            digits_value(t@.subrange(start as int, i as int)) >= 0,
            acc as int == if digits_value(t@.subrange(start as int, i as int)) < cap {
                digits_value(t@.subrange(start as int, i as int))
            } else {
                cap as int
            },
        decreases n - i,
    {
        let c = t[i];
        if c < '0' || c > '9' {
            assert(body[i - start] == c);
            assert(!all_digits(body));
            return None;
        }
        let ghost before = t@.subrange(start as int, i as int);
        let ghost after = t@.subrange(start as int, i + 1);
        assert(after.drop_last() =~= before);
        assert(all_digits(after)) by {
            assert forall|k: int| 0 <= k < after.len() implies '0' <= #[trigger] after[k] <= '9' by {
                if k < before.len() {
                    assert(after[k] == before[k]);
                }
            }
        }
        let d: u64 = (c as u32 - '0' as u32) as u64;
        assert(digits_value(after) == digits_value(before) * 10 + d);
        if acc >= cap {
            assert(digits_value(after) >= cap) by (nonlinear_arith)
                requires
                    digits_value(after) == digits_value(before) * 10 + d,
                    digits_value(before) >= cap,
                    d >= 0,
            ;
        } else {
            acc = acc * 10 + d;
            if acc > cap {
                acc = cap;
            }
        }
        i = i + 1;
    }
    if acc >= 1_000_000_000 && acc < cap {
        Some(acc as i64)
    } else {
        None
    }
}


/// How many formats the table holds.
pub const FORMAT_COUNT: usize = 20;

/// The format table, tried in this order: ISO 8601 variants, yearless ISO,
/// time of day alone, space- and slash-separated dates, syslog, Apache, and
/// RFC 2822.
pub open spec fn table_format(i: int) -> Seq<char> {
    if i == 0 {
        "%Y-%m-%dT%H:%M:%S%.fZ"@
    } else if i == 1 {
        "%Y-%m-%dT%H:%M:%S%.f%:z"@
    } else if i == 2 {
        "%Y-%m-%dT%H:%M:%S%:z"@
    } else if i == 3 {
        "%Y-%m-%dT%H:%M:%SZ"@
    } else if i == 4 {
        "%Y-%m-%dT%H:%M:%S%.f"@
    } else if i == 5 {
        "%Y-%m-%dT%H:%M:%S"@
    } else if i == 6 {
        "%m-%dT%H:%M:%S%.fZ"@
    } else if i == 7 {
        "%m-%dT%H:%M:%S%.f"@
    } else if i == 8 {
        "%m-%dT%H:%M:%SZ"@
    } else if i == 9 {
        "%m-%dT%H:%M:%S"@
    } else if i == 10 {
        "%H:%M:%S%.f"@
    } else if i == 11 {
        "%H:%M:%S"@
    } else if i == 12 {
        "%Y-%m-%d %H:%M:%S%.f"@
    } else if i == 13 {
        "%Y-%m-%d %H:%M:%S"@
    } else if i == 14 {
        "%Y/%m/%d %H:%M:%S"@
    } else if i == 15 {
        "%d/%m/%Y %H:%M:%S"@
    } else if i == 16 {
        "%m/%d/%Y %H:%M:%S"@
    } else if i == 17 {
        "%b %d %H:%M:%S"@
    } else if i == 18 {
        "[%d/%b/%Y:%H:%M:%S %z]"@
    } else {
        "%a, %d %b %Y %H:%M:%S"@
    }
}

/// Entry `i` of the format table.
pub fn format_at(i: usize) -> (r: &'static str)
    requires
        i < FORMAT_COUNT,
    ensures
        r@ == table_format(i as int),
{
    match i {
        0 => "%Y-%m-%dT%H:%M:%S%.fZ",
        1 => "%Y-%m-%dT%H:%M:%S%.f%:z",
        2 => "%Y-%m-%dT%H:%M:%S%:z",
        3 => "%Y-%m-%dT%H:%M:%SZ",
        4 => "%Y-%m-%dT%H:%M:%S%.f",
        5 => "%Y-%m-%dT%H:%M:%S",
        6 => "%m-%dT%H:%M:%S%.fZ",
        7 => "%m-%dT%H:%M:%S%.f",
        8 => "%m-%dT%H:%M:%SZ",
        9 => "%m-%dT%H:%M:%S",
        10 => "%H:%M:%S%.f",
        11 => "%H:%M:%S",
        12 => "%Y-%m-%d %H:%M:%S%.f",
        13 => "%Y-%m-%d %H:%M:%S",
        14 => "%Y/%m/%d %H:%M:%S",
        15 => "%d/%m/%Y %H:%M:%S",
        16 => "%m/%d/%Y %H:%M:%S",
        17 => "%b %d %H:%M:%S",
        18 => "[%d/%b/%Y:%H:%M:%S %z]",
        _ => "%a, %d %b %Y %H:%M:%S",
    }
}

/// The letters of the format directives that stand for a part of a date:
/// year, month, day, weekday, week, or a whole date.
pub const DATE_LETTERS: &'static str = "YyCmbBhdejaAuwUWVGgDFxcs+";

/// The format directive for letter `c`.
pub open spec fn directive(c: char) -> Seq<char> {
    seq!['%', c]
}

/// Whether `fmt` holds a directive for some part of a date.
pub open spec fn has_date_directive(fmt: Seq<char>) -> bool {
    exists|k: int|
        0 <= k < DATE_LETTERS@.len() && #[trigger] occurs_in(fmt, directive(DATE_LETTERS@[k]))
}

/// Whether `fmt` holds a directive for some part of a date.
fn date_directive_in(fmt: &Vec<char>) -> (r: bool)
    ensures
        r == has_date_directive(fmt@),
{
    let letters = chars_of(DATE_LETTERS);
    let mut k: usize = 0;
    while k < letters.len()
        invariant
            k <= letters.len(),
            letters@ == DATE_LETTERS@,
            forall|j: int| 0 <= j < k ==> !occurs_in(fmt@, #[trigger] directive(DATE_LETTERS@[j])),
        decreases letters.len() - k,
    {
        let pair: Vec<char> = vec!['%', letters[k]];
        assert(pair@ =~= directive(DATE_LETTERS@[k as int]));
        if contains_run(fmt, &pair) {
            return true;
        }
        k = k + 1;
    }
    false
}

/// The instant a whole line stands for under a custom format: the trimmed
/// line read with an offset, else without one as UTC.
pub open spec fn custom_parse(line: Seq<char>, fmt: Seq<char>) -> Option<i64> {
    let t = trim_of(line);
    match offset_parse(t, fmt) {
        Some(v) => Some(v),
        None => naive_parse(t, fmt),
    }
}

/// A second reading for formats without a year or a date: the current year,
/// or today's date, is put in front of both the text and the format.
pub open spec fn completed_parse(t: Seq<char>, fmt: Seq<char>, today: CivilDate) -> Option<i64> {
    let year = decimal(today.year as int);
    let month_name_without_year = occurs_in(fmt, "%b"@) && !occurs_in(fmt, "%Y"@);
    let yearless_iso = begins_with(fmt, "%m-"@) && !occurs_in(fmt, "%Y"@);
    let time_only = begins_with(fmt, "%H:"@) && !has_date_directive(fmt);
    let first = if month_name_without_year {
        naive_parse(year + " "@ + t, "%Y "@ + fmt)
    } else {
        None
    };
    let second = if yearless_iso {
        naive_parse(year + "-"@ + t, "%Y-"@ + fmt)
    } else {
        None
    };
    let third = if time_only {
        naive_parse(date_text(today) + " "@ + t, "%Y-%m-%d "@ + fmt)
    } else {
        None
    };
    if first is Some {
        first
    } else if second is Some {
        second
    } else {
        third
    }
}

/// The instant `text` stands for under `fmt`: epoch seconds first, then the
/// format with an offset, then without one, then with the year or date
/// filled in.
pub open spec fn format_parse(text: Seq<char>, fmt: Seq<char>, today: CivilDate) -> Option<i64> {
    let t = trim_of(text);
    match epoch_seconds(t) {
        Some(secs) => Some((secs * 1_000_000) as i64),
        None => match offset_parse(t, fmt) {
            Some(v) => Some(v),
            None => match naive_parse(t, fmt) {
                Some(v) => Some(v),
                None => completed_parse(t, fmt, today),
            },
        },
    }
}

/// `a` followed by `b`.
fn joined(a: &Vec<char>, b: &Vec<char>) -> (r: Vec<char>)
    ensures
        r@ == a@ + b@,
{
    let mut out: Vec<char> = Vec::new();
    push_all(&mut out, a);
    push_all(&mut out, b);
    assert(out@ =~= a@ + b@);
    out
}

/// The second reading of `t` under `fmt`, with the year or today's date
/// filled in where the format lacks it.
fn parse_completed(t: &Vec<char>, fmt: &Vec<char>, today: CivilDate) -> (r: Option<i64>)
    ensures
        r == completed_parse(t@, fmt@, today),
{
    let has_b = contains_run(fmt, &chars_of("%b"));
    let has_y = contains_run(fmt, &chars_of("%Y"));
    let mut year: Vec<char> = Vec::new();
    push_decimal(&mut year, today.year);
    if has_b && !has_y {
        let text = joined(&joined(&year, &chars_of(" ")), t);
        let f = joined(&chars_of("%Y "), fmt);
        let r = parse_naive(&text, &f);
        if r.is_some() {
            return r;
        }
    }
    if has_prefix(fmt, &chars_of("%m-")) && !has_y {
        let text = joined(&joined(&year, &chars_of("-")), t);
        let f = joined(&chars_of("%Y-"), fmt);
        let r = parse_naive(&text, &f);
        if r.is_some() {
            return r;
        }
    }
    if has_prefix(fmt, &chars_of("%H:")) && !date_directive_in(fmt) {
        let mut date: Vec<char> = Vec::new();
        push_year(&mut date, today.year);
        date.push('-');
        push_two_digits(&mut date, today.month);
        date.push('-');
        push_two_digits(&mut date, today.day);
        proof {
            reveal_strlit("-");
        }
        assert(date@ =~= date_text(today));
        let text = joined(&joined(&date, &chars_of(" ")), t);
        let f = joined(&chars_of("%Y-%m-%d "), fmt);
        return parse_naive(&text, &f);
    }
    None
}

/// Reads `text` under `fmt`; see `format_parse`.
fn parse_format_chars(text: &Vec<char>, fmt: &Vec<char>, today: CivilDate) -> (r: Option<i64>)
    ensures
        r == format_parse(text@, fmt@, today),
{
    let t = trimmed(text);
    if let Some(secs) = epoch_of(&t) {
        return Some(secs * 1_000_000);
    }
    if let Some(v) = parse_with_offset(&t, fmt) {
        return Some(v);
    }
    if let Some(v) = parse_naive(&t, fmt) {
        return Some(v);
    }
    parse_completed(&t, fmt, today)
}


/// Unix epoch seconds at the very start of a line.
pub const UNIX_PATTERN: &'static str = r"^\d{10}(?:\.\d+)?";

/// ISO 8601 date and time, with optional fraction and offset.
pub const ISO_PATTERN: &'static str = r"\d{2,4}-\d{2}-\d{2}[T ]\d{2}:\d{2}:\d{2}(?:\.\d+)?(?:Z|[+-]\d{2}:\d{2})?";

/// Bracketed Apache / Nginx common-log date.
pub const APACHE_PATTERN: &'static str = r"\[\d{2}/[A-Z][a-z]{2}/\d{4}:\d{2}:\d{2}:\d{2}\s+[+-]\d{4}\]";

/// RFC 2822 date and time.
pub const RFC2822_PATTERN: &'static str = r"[A-Z][a-z]{2},\s+\d{2}\s+[A-Z][a-z]{2}\s+\d{4}\s+\d{2}:\d{2}:\d{2}";

/// Day, month and year separated by `-` or `/`, then a time of day.
pub const DATETIME_PATTERN: &'static str = r"\d{1,2}[-/]\d{1,2}[-/]\d{2,4}\s+\d{2}:\d{2}:\d{2}(?:\.\d+)?";

/// Syslog month name, day and time of day.
pub const SYSLOG_PATTERN: &'static str = r"[A-Z][a-z]{2}\s+\d{1,2}\s+\d{2}:\d{2}:\d{2}";

/// ISO 8601 without the year.
pub const YEARLESS_ISO_PATTERN: &'static str = r"\d{2}-\d{2}T\d{2}:\d{2}:\d{2}(?:\.\d+)?(?:Z)?";

/// A bare time of day.
pub const TIME_ONLY_PATTERN: &'static str = r"\d{2}:\d{2}:\d{2}(?:\.\d+)?";

/// The longest prefix of a line taken as a last-resort candidate.
pub const FALLBACK_CHARS: usize = 50;

/// The shortest line that gets a last-resort candidate.
pub const FALLBACK_MIN_CHARS: usize = 10;

/// The text a pattern finds in `line`, as a list of zero or one candidates.
pub open spec fn found_text(pattern: Seq<char>, line: Seq<char>) -> Seq<Seq<char>> {
    match leftmost_match(pattern, line) {
        Some((_, t)) => seq![t],
        None => seq![],
    }
}

/// Like `found_text`, kept only when the match starts before offset 5.
pub open spec fn early_text(pattern: Seq<char>, line: Seq<char>) -> Seq<Seq<char>> {
    match leftmost_match(pattern, line) {
        Some((s, t)) => if s < 5 {
            seq![t]
        } else {
            seq![]
        },
        None => seq![],
    }
}

/// The first instant that the table's formats give for `text`, in table
/// order from entry `i` on.
pub open spec fn table_parse(text: Seq<char>, i: nat, today: CivilDate) -> Option<i64>
    decreases FORMAT_COUNT - i,
{
    if i >= FORMAT_COUNT {
        None
    } else {
        match format_parse(text, table_format(i as int), today) {
            Some(v) => Some(v),
            None => table_parse(text, i + 1, today),
        }
    }
}

/// The first instant that any candidate gives, candidates in order and,
/// for each, formats in table order.
pub open spec fn first_parse(cands: Seq<Seq<char>>, today: CivilDate) -> Option<i64>
    decreases cands.len(),
{
    if cands.len() == 0 {
        None
    } else {
        match table_parse(cands[0], 0, today) {
            Some(v) => Some(v),
            None => first_parse(cands.drop_first(), today),
        }
    }
}

/// Extracts instants from log lines whose timestamp format is not known in
/// advance.
pub struct TimestampParser {
    pub custom_format: Option<String>,
    pub iso_regex: CompiledPattern,
    pub datetime_regex: CompiledPattern,
    pub syslog_regex: CompiledPattern,
    pub apache_regex: CompiledPattern,
    pub rfc2822_regex: CompiledPattern,
    pub unix_timestamp_regex: CompiledPattern,
    pub yearless_iso_regex: CompiledPattern,
    pub time_only_regex: CompiledPattern,
}

impl TimestampParser {
    /// Each recognizer was compiled from its pattern.
    pub open spec fn wf(&self) -> bool {
        &&& self.iso_regex@ == ISO_PATTERN@
        &&& self.datetime_regex@ == DATETIME_PATTERN@
        &&& self.syslog_regex@ == SYSLOG_PATTERN@
        &&& self.apache_regex@ == APACHE_PATTERN@
        &&& self.rfc2822_regex@ == RFC2822_PATTERN@
        &&& self.unix_timestamp_regex@ == UNIX_PATTERN@
        &&& self.yearless_iso_regex@ == YEARLESS_ISO_PATTERN@
        &&& self.time_only_regex@ == TIME_ONLY_PATTERN@
    }

    /// Candidate substrings of `line`, by recognizer class in fixed order:
    /// epoch, ISO, Apache, RFC 2822, slash or dash date, syslog, yearless
    /// ISO, time of day; when none is found and the line has at least ten
    /// characters, its first fifty characters.
    pub open spec fn candidates(&self, line: Seq<char>) -> Seq<Seq<char>> {
        let found = early_text(self.unix_timestamp_regex@, line) + found_text(self.iso_regex@, line)
            + found_text(self.apache_regex@, line) + found_text(self.rfc2822_regex@, line)
            + found_text(self.datetime_regex@, line) + found_text(self.syslog_regex@, line)
            + found_text(self.yearless_iso_regex@, line) + found_text(
            self.time_only_regex@,
            line,
        );
        if found.len() == 0 && line.len() >= FALLBACK_MIN_CHARS {
            seq![
                line.subrange(
                    0,
                    if line.len() < FALLBACK_CHARS {
                        line.len() as int
                    } else {
                        FALLBACK_CHARS as int
                    },
                ),
            ]
        } else {
            found
        }
    }

    /// The instant a line stands for, given today's date: the custom format
    /// on the whole line when one is set and it parses, else the first
    /// candidate and format that parse.
    pub open spec fn extract(&self, line: Seq<char>, today: CivilDate) -> Option<i64> {
        let custom = match self.custom_format {
            Some(f) => custom_parse(line, f@),
            None => None,
        };
        if custom is Some {
            custom
        } else {
            first_parse(self.candidates(line), today)
        }
    }

    /// A parser with the given custom format, its eight recognizers
    /// compiled here; `None` when the regex engine refuses one of them.
    pub fn new(custom_format: Option<String>) -> (r: Option<TimestampParser>)
        ensures
            r matches Some(p) ==> p.wf() && p.custom_format == custom_format,
    {
        Self::from_recognizers(
            custom_format,
            CompiledPattern::new(ISO_PATTERN),
            CompiledPattern::new(DATETIME_PATTERN),
            CompiledPattern::new(SYSLOG_PATTERN),
            CompiledPattern::new(APACHE_PATTERN),
            CompiledPattern::new(RFC2822_PATTERN),
            CompiledPattern::new(UNIX_PATTERN),
            CompiledPattern::new(YEARLESS_ISO_PATTERN),
            CompiledPattern::new(TIME_ONLY_PATTERN),
        )
    }

    /// A parser from the results of compiling its eight recognizers: one
    /// exactly when every recognizer was compiled.
    #[allow(clippy::too_many_arguments)]
    pub fn from_recognizers(
        custom_format: Option<String>,
        iso: Option<CompiledPattern>,
        datetime: Option<CompiledPattern>,
        syslog: Option<CompiledPattern>,
        apache: Option<CompiledPattern>,
        rfc2822: Option<CompiledPattern>,
        unix: Option<CompiledPattern>,
        yearless_iso: Option<CompiledPattern>,
        time_only: Option<CompiledPattern>,
    ) -> (r: Option<TimestampParser>)
        requires
            iso matches Some(p) ==> p@ == ISO_PATTERN@,
            datetime matches Some(p) ==> p@ == DATETIME_PATTERN@,
            syslog matches Some(p) ==> p@ == SYSLOG_PATTERN@,
            apache matches Some(p) ==> p@ == APACHE_PATTERN@,
            rfc2822 matches Some(p) ==> p@ == RFC2822_PATTERN@,
            unix matches Some(p) ==> p@ == UNIX_PATTERN@,
            yearless_iso matches Some(p) ==> p@ == YEARLESS_ISO_PATTERN@,
            time_only matches Some(p) ==> p@ == TIME_ONLY_PATTERN@,
        ensures
            r is Some <==> (iso is Some && datetime is Some && syslog is Some && apache is Some
                && rfc2822 is Some && unix is Some && yearless_iso is Some && time_only is Some),
            r matches Some(p) ==> p.wf() && p.custom_format == custom_format,
    {
        Some(
            TimestampParser {
                custom_format,
                iso_regex: iso?,
                datetime_regex: datetime?,
                syslog_regex: syslog?,
                apache_regex: apache?,
                rfc2822_regex: rfc2822?,
                unix_timestamp_regex: unix?,
                yearless_iso_regex: yearless_iso?,
                time_only_regex: time_only?,
            },
        )
    }
}


/// The texts held in a list of character vectors.
pub open spec fn texts(v: Seq<Vec<char>>) -> Seq<Seq<char>> {
    v.map_values(|t: Vec<char>| t@)
}

/// The first `n` characters of `v`.
fn prefix_of(v: &Vec<char>, n: usize) -> (r: Vec<char>)
    requires
        n <= v.len(),
    ensures
        r@ == v@.subrange(0, n as int),
{
    let mut out: Vec<char> = Vec::new();
    let mut i: usize = 0;
    while i < n
        invariant
            i <= n <= v.len(),
            out@ == v@.subrange(0, i as int),
        decreases n - i,
    {
        out.push(v[i]);
        i = i + 1;
        assert(out@ =~= v@.subrange(0, i as int));
    }
    out
}

/// Appends the text `p` finds in `line`, if any.
fn push_found(out: &mut Vec<Vec<char>>, p: &CompiledPattern, line: &str)
    requires
        forall|i: int| 0 <= i < old(out).len() ==> occurs_in(line@, #[trigger] old(out)@[i]@),
    ensures
        texts(final(out)@) == texts(old(out)@) + found_text(p@, line@),
        forall|i: int| 0 <= i < final(out).len() ==> occurs_in(line@, #[trigger] final(out)@[i]@),
{
    let ghost before = texts(out@);
    match p.find(line) {
        Some((_, t)) => {
            out.push(t);
        },
        None => {},
    }
    assert(texts(out@) =~= before + found_text(p@, line@));
}

/// Today's date in UTC, from the clock.
pub fn today() -> (r: CivilDate)
    ensures
        1 <= r.month <= 12,
        1 <= r.day <= 31,
{
    utc_today()
}

impl TimestampParser {
    /// The candidate substrings of `line`, in the order they are tried.
    pub fn extract_timestamp_candidates(&self, line: &str) -> (r: Vec<Vec<char>>)
        ensures
            texts(r@) == self.candidates(line@),
            forall|i: int| 0 <= i < r.len() ==> occurs_in(line@, #[trigger] r@[i]@),
    {
        let mut out: Vec<Vec<char>> = Vec::new();
        match self.unix_timestamp_regex.find(line) {
            Some((start, t)) => {
                if start < 5 {
                    out.push(t);
                }
            },
            None => {},
        }
        assert(texts(out@) =~= early_text(self.unix_timestamp_regex@, line@));
        push_found(&mut out, &self.iso_regex, line);
        push_found(&mut out, &self.apache_regex, line);
        push_found(&mut out, &self.rfc2822_regex, line);
        push_found(&mut out, &self.datetime_regex, line);
        push_found(&mut out, &self.syslog_regex, line);
        push_found(&mut out, &self.yearless_iso_regex, line);
        push_found(&mut out, &self.time_only_regex, line);
        if out.len() == 0 {
            let chars = chars_of(line);
            if chars.len() >= FALLBACK_MIN_CHARS {
                let n: usize = if chars.len() < FALLBACK_CHARS {
                    chars.len()
                } else {
                    FALLBACK_CHARS
                };
                let first = prefix_of(&chars, n);
                assert(occurs_in(line@, first@)) by {
                    assert(chars@ == line@);
                    assert(line@.subrange(0, 0 + first@.len() as int) =~= first@);
                }
                out.push(first);
                assert(texts(out@) =~= self.candidates(line@));
            }
        }
        out
    }

    /// The first instant that the table gives for `text`, formats in order.
    fn parse_with_table(&self, text: &Vec<char>, today: CivilDate) -> (r: Option<i64>)
        ensures
            r == table_parse(text@, 0, today),
    {
        let mut i: usize = 0;
        while i < FORMAT_COUNT
            invariant
                i <= FORMAT_COUNT,
                table_parse(text@, 0, today) == table_parse(text@, i as nat, today),
            decreases FORMAT_COUNT - i,
        {
            let fmt = chars_of(format_at(i));
            let r = parse_format_chars(text, &fmt, today);
            if r.is_some() {
                return r;
            }
            i = i + 1;
        }
        None
    }

    /// The instant `line` stands for, given today's date for formats that
    /// lack the year or the date.
    pub fn parse_line_on(&self, line: &str, today: CivilDate) -> (r: Option<i64>)
        ensures
            r == self.extract(line@, today),
    {
        if let Some(f) = &self.custom_format {
            let t = trimmed(&chars_of(line));
            let fmt = chars_of(f.as_str());
            if let Some(v) = parse_with_offset(&t, &fmt) {
                return Some(v);
            }
            if let Some(v) = parse_naive(&t, &fmt) {
                return Some(v);
            }
        }
        let cands = self.extract_timestamp_candidates(line);
        let ghost cs = texts(cands@);
        assert(cs.subrange(0, cs.len() as int) =~= cs);
        assert(self.extract(line@, today) == first_parse(cs, today));
        let mut i: usize = 0;
        while i < cands.len()
            invariant
                i <= cands.len(),
                cs == texts(cands@),
                self.extract(line@, today) == first_parse(cs, today),
                first_parse(cs, today) == first_parse(cs.subrange(i as int, cs.len() as int), today),
            decreases cands.len() - i,
        {
            let r = self.parse_with_table(&cands[i], today);
            assert(cs.subrange(i as int, cs.len() as int).drop_first() =~= cs.subrange(
                i + 1,
                cs.len() as int,
            ));
            assert(cs.subrange(i as int, cs.len() as int)[0] == cands[i as int]@);
            if r.is_some() {
                return r;
            }
            i = i + 1;
        }
        assert(cs.subrange(i as int, cs.len() as int) =~= Seq::<Seq<char>>::empty());
        None
    }

    /// The instant `line` stands for, reading today's date from the clock
    /// for formats that lack the year or the date.
    pub fn parse_line(&self, line: &str) -> (r: Option<i64>)
        ensures
            exists|today: CivilDate| today.plausible() && r == #[trigger] self.extract(line@, today),
    {
        let today = utc_today();
        self.parse_line_on(line, today)
    }

    /// Reads `text` under `format`, given today's date; see `format_parse`.
    pub fn parse_with_format_on(&self, text: &str, format: &str, today: CivilDate) -> (r: Option<
        i64,
    >)
        ensures
            r == format_parse(text@, format@, today),
    {
        parse_format_chars(&chars_of(text), &chars_of(format), today)
    }

    /// Reads `text` under `format`, reading today's date from the clock.
    pub fn parse_with_format(&self, text: &str, format: &str) -> (r: Option<i64>)
        ensures
            exists|today: CivilDate|
                today.plausible() && r == #[trigger] format_parse(text@, format@, today),
    {
        let today = utc_today();
        self.parse_with_format_on(text, format, today)
    }
}

} // verus!
