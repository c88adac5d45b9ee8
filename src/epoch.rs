//! Reading CCSDS epochs (`YYYY-MM-DDThh:mm:ss[.fff...][Z]`) into instants.
use vstd::prelude::*;
use chrono::TimeZone;
use crate::time::{Timestamp, MAX_ABS_SECONDS};

verus! {

/// `s` without its trailing run of `Z` characters.
pub open spec fn strip_trailing_z(s: Seq<char>) -> Seq<char>
    decreases s.len(),
{
    if s.len() > 0 && s.last() == 'Z' {
        strip_trailing_z(s.drop_last())
    } else {
        s
    }
}

/// The pieces of `s` between occurrences of `sep`, in order; an empty piece
/// stands before a leading, after a trailing and between two adjacent
/// separators, and the empty text is one empty piece.
pub open spec fn split(s: Seq<char>, sep: char) -> Seq<Seq<char>>
    decreases s.len(),
{
    if s.len() == 0 {
        seq![Seq::<char>::empty()]
    } else {
        let rest = split(s.drop_last(), sep);
        if s.last() == sep {
            rest.push(Seq::<char>::empty())
        } else {
            rest.update(rest.len() - 1, rest.last().push(s.last()))
        }
    }
}

proof fn lemma_split_not_empty(s: Seq<char>, sep: char)
    ensures
        split(s, sep).len() >= 1,
    decreases s.len(),
{
    if s.len() > 0 {
        lemma_split_not_empty(s.drop_last(), sep);
    }
}

/// The characters of `s`.
fn chars_of(s: &str) -> (r: Vec<char>)
    ensures
        r@ == s@,
{
    let n = s.unicode_len();
    let mut out: Vec<char> = Vec::new();
    let mut i: usize = 0;
    while i < n
        invariant
            n == s@.len(),
            i <= n,
            out@ == s@.take(i as int),
        decreases n - i,
    {
        out.push(s.get_char(i));
        proof {
            assert(s@.take(i + 1) =~= s@.take(i as int).push(s@[i as int]));
        }
        i = i + 1;
    }
    proof {
        assert(s@.take(n as int) =~= s@);
    }
    out
}

/// `s` without its trailing run of `Z` characters.
fn strip_z(s: &Vec<char>) -> (r: Vec<char>)
    ensures
        r@ == strip_trailing_z(s@),
{
    let mut n = s.len();
    proof {
        assert(s@.take(n as int) =~= s@);
    }
    while n > 0 && s[n - 1] == 'Z'
        invariant
            n <= s@.len(),
            strip_trailing_z(s@.take(n as int)) == strip_trailing_z(s@),
        decreases n,
    {
        proof {
            assert(s@.take(n as int).drop_last() =~= s@.take(n - 1));
        }
        n = n - 1;
    }
    assert(s@.take(n as int) == strip_trailing_z(s@));
    let mut out: Vec<char> = Vec::new();
    let mut i: usize = 0;
    while i < n
        invariant
            n <= s@.len(),
            i <= n,
            out@ == s@.take(i as int),
            s@.take(n as int) == strip_trailing_z(s@),
        decreases n - i,
    {
        out.push(s[i]);
        proof {
            assert(s@.take(i + 1) =~= s@.take(i as int).push(s@[i as int]));
        }
        i = i + 1;
    }
    assert(out@ =~= s@.take(n as int));
    out
}

/// The pieces of `s` between occurrences of `sep`.
fn split_at_char(s: &Vec<char>, sep: char) -> (r: Vec<Vec<char>>)
    ensures
        r@.map_values(|p: Vec<char>| p@) == split(s@, sep),
{
    let n = s.len();
    let mut done: Vec<Vec<char>> = Vec::new();
    let mut cur: Vec<char> = Vec::new();
    let mut i: usize = 0;
    while i < n
        invariant
            n == s@.len(),
            i <= n,
            done@.map_values(|p: Vec<char>| p@).push(cur@) == split(s@.take(i as int), sep),
        decreases n - i,
    {
        let c = s[i];
        let ghost before = done@.map_values(|p: Vec<char>| p@).push(cur@);
        proof {
            assert(s@.take(i + 1).drop_last() =~= s@.take(i as int));
            assert(s@.take(i + 1).last() == c);
        }
        if c == sep {
            done.push(cur);
            cur = Vec::new();
            proof {
                assert(done@.map_values(|p: Vec<char>| p@).push(cur@) =~= before.push(Seq::<char>::empty()));
            }
        } else {
            cur.push(c);
            proof {
                assert(done@.map_values(|p: Vec<char>| p@).push(cur@) =~= before.update(before.len() - 1, before.last().push(c)));
            }
        }
        i = i + 1;
    }
    done.push(cur);
    proof {
        assert(s@.take(n as int) =~= s@);
    }
    done
}

/// `c` is an ASCII decimal digit.
pub open spec fn is_digit(c: char) -> bool {
    '0' <= c && c <= '9'
}

/// The value of the decimal digit `c`.
pub open spec fn digit_value(c: char) -> int {
    (c as u32) as int - ('0' as u32) as int
}

/// The value of the decimal digits `s`, most significant first.
pub open spec fn digits_value(s: Seq<char>) -> int
    decreases s.len(),
{
    if s.len() == 0 {
        0
    } else {
        digits_value(s.drop_last()) * 10 + digit_value(s.last())
    }
}

/// `s` is one or more decimal digits.
pub open spec fn all_digits(s: Seq<char>) -> bool {
    s.len() > 0 && forall|i: int| 0 <= i < s.len() ==> is_digit(#[trigger] s[i])
}

/// `s` without a leading `+`, where one stands before at least one more
/// character.
pub open spec fn unsigned_body(s: Seq<char>) -> Seq<char> {
    if s.len() > 1 && s[0] == '+' {
        s.subrange(1, s.len() as int)
    } else {
        s
    }
}

/// `s` read as an unsigned 32-bit decimal: an optional `+`, then digits,
/// with a value that fits.
pub open spec fn parse_u32_text(s: Seq<char>) -> Option<u32> {
    let b = unsigned_body(s);
    if all_digits(b) && digits_value(b) <= u32::MAX {
        Some(digits_value(b) as u32)
    } else {
        None
    }
}

/// `s` read as a signed 32-bit decimal: an optional `+` or `-`, then digits,
/// with a value that fits.
pub open spec fn parse_i32_text(s: Seq<char>) -> Option<i32> {
    if s.len() > 1 && s[0] == '-' {
        let b = s.subrange(1, s.len() as int);
        if all_digits(b) && digits_value(b) <= 0x8000_0000 {
            Some((0 - digits_value(b)) as i32)
        } else {
            None
        }
    } else {
        let b = unsigned_body(s);
        if all_digits(b) && digits_value(b) <= i32::MAX {
            Some(digits_value(b) as i32)
        } else {
            None
        }
    }
}

proof fn lemma_digits_grow(s: Seq<char>, k: int)
    requires
        0 <= k <= s.len(),
        forall|i: int| 0 <= i < s.len() ==> is_digit(#[trigger] s[i]),
    ensures
        0 <= digits_value(s.take(k)) <= digits_value(s),
    decreases s.len() - k,
{
    if k < s.len() {
        lemma_digits_grow(s, k + 1);
        assert(s.take(k + 1).drop_last() =~= s.take(k));
        assert(is_digit(s[k]));
    } else {
        assert(s.take(k) =~= s);
        lemma_digits_nonneg(s);
    }
}

proof fn lemma_digits_nonneg(s: Seq<char>)
    requires
        forall|i: int| 0 <= i < s.len() ==> is_digit(#[trigger] s[i]),
    ensures
        digits_value(s) >= 0,
    decreases s.len(),
{
    if s.len() > 0 {
        let t = s.drop_last();
        assert forall|i: int| 0 <= i < t.len() implies is_digit(#[trigger] t[i]) by {
            assert(t[i] == s[i]);
        }
        lemma_digits_nonneg(t);
        assert(is_digit(s[s.len() - 1]));
    }
}

/// Ten to the power `n`.
pub open spec fn pow10(n: nat) -> int
    decreases n,
{
    if n == 0 {
        1
    } else {
        10 * pow10((n - 1) as nat)
    }
}

proof fn lemma_digits_below_pow10(s: Seq<char>)
    requires
        forall|i: int| 0 <= i < s.len() ==> is_digit(#[trigger] s[i]),
    ensures
        digits_value(s) < pow10(s.len()),
    decreases s.len(),
{
    if s.len() > 0 {
        let t = s.drop_last();
        assert forall|i: int| 0 <= i < t.len() implies is_digit(#[trigger] t[i]) by {
            assert(t[i] == s[i]);
        }
        lemma_digits_below_pow10(t);
        assert(is_digit(s[s.len() - 1]));
        assert(pow10(s.len()) == 10 * pow10(t.len()));
    }
}

/// The decimal value of `s[from..]`, or `None` where that is empty, holds a
/// non-digit, or exceeds `limit`.
fn digits_from(s: &Vec<char>, from: usize, limit: u64) -> (r: Option<u64>)
    requires
        from <= s@.len(),
        limit <= u32::MAX + 1,
    ensures
        ({
            let b = s@.subrange(from as int, s@.len() as int);
            &&& r is Some <==> all_digits(b) && digits_value(b) <= limit
            &&& r matches Some(v) ==> v == digits_value(b)
        }),
{
    let n = s.len();
    let ghost b = s@.subrange(from as int, n as int);
    if from == n {
        return None;
    }
    let mut value: u64 = 0;
    let mut i: usize = from;
    while i < n
        invariant
            n == s@.len(),
            from < n,
            from <= i <= n,
            b == s@.subrange(from as int, n as int),
            limit <= u32::MAX + 1,
            value <= limit,
            value == digits_value(b.take(i - from)),
            forall|j: int| 0 <= j < i - from ==> is_digit(#[trigger] b[j]),
        decreases n - i,
    {
        let c = s[i];
        assert(c == b[i - from]);
        if !('0' <= c && c <= '9') {
            return None;
        }
        let d = (c as u32 - '0' as u32) as u64;
        proof {
            assert(b.take(i - from + 1).drop_last() =~= b.take(i - from));
            assert(b.take(i - from + 1).last() == c);
        }
        let next = value * 10 + d;
        if next > limit {
            proof {
                if forall|j: int| 0 <= j < b.len() ==> is_digit(#[trigger] b[j]) {
                    lemma_digits_grow(b, i - from + 1);
                }
            }
            return None;
        }
        value = next;
        i = i + 1;
    }
    proof {
        assert(b.take(n - from) =~= b);
    }
    Some(value)
}

/// `s` read as an unsigned 32-bit decimal (an optional `+`, then digits).
fn parse_u32_chars(s: &Vec<char>) -> (r: Option<u32>)
    ensures
        r == parse_u32_text(s@),
{
    let from: usize = if s.len() > 1 && s[0] == '+' { 1 } else { 0 };
    proof {
        assert(unsigned_body(s@) =~= s@.subrange(from as int, s@.len() as int));
    }
    match digits_from(s, from, 0xFFFF_FFFF) {
        Some(v) => Some(v as u32),
        None => None,
    }
}

/// `s` read as a signed 32-bit decimal (an optional `+` or `-`, then digits).
fn parse_i32_chars(s: &Vec<char>) -> (r: Option<i32>)
    ensures
        r == parse_i32_text(s@),
{
    if s.len() > 1 && s[0] == '-' {
        match digits_from(s, 1, 0x8000_0000) {
            Some(v) => Some((0 - (v as i64)) as i32),
            None => None,
        }
    } else {
        let from: usize = if s.len() > 1 && s[0] == '+' { 1 } else { 0 };
        proof {
            assert(unsigned_body(s@) =~= s@.subrange(from as int, s@.len() as int));
        }
        match digits_from(s, from, 0x7FFF_FFFF) {
            Some(v) => Some(v as i32),
            None => None,
        }
    }
}

/// The first nine characters of `f`, padded on the right with `0` where `f`
/// is shorter.
pub open spec fn nine_chars(f: Seq<char>) -> Seq<char> {
    if f.len() >= 9 {
        f.take(9)
    } else {
        f + Seq::new((9 - f.len()) as nat, |i: int| '0')
    }
}

/// Nanoseconds of a fractional-second text: its first nine digits (padded
/// with zeros), or zero where they do not read as a number.
pub open spec fn fraction_nanos(f: Seq<char>) -> u32 {
    match parse_u32_text(nine_chars(f)) {
        Some(v) => v,
        None => 0,
    }
}

fn fraction_to_nanos(f: &Vec<char>) -> (r: u32)
    ensures
        r == fraction_nanos(f@),
        r < 1_000_000_000,
{
    let mut nine: Vec<char> = Vec::new();
    let mut i: usize = 0;
    while i < 9
        invariant
            i <= 9,
            nine@ == nine_chars(f@).take(i as int),
        decreases 9 - i,
    {
        if i < f.len() {
            nine.push(f[i]);
        } else {
            nine.push('0');
        }
        proof {
            assert(nine_chars(f@).take(i + 1) =~= nine_chars(f@).take(i as int).push(nine_chars(f@)[i as int]));
        }
        i = i + 1;
    }
    proof {
        assert(nine_chars(f@).take(9) =~= nine_chars(f@));
    }
    let r = match parse_u32_chars(&nine) {
        Some(v) => v,
        None => 0,
    };
    proof {
        let b = unsigned_body(nine@);
        assert(nine@.len() == 9);
        if all_digits(b) && digits_value(b) <= u32::MAX {
            lemma_digits_below_pow10(b);
            lemma_digits_nonneg(b);
            assert(b.len() <= 9);
            assert(r == digits_value(b));
            lemma_pow10_monotone(b.len(), 9);
            reveal_with_fuel(pow10, 10);
            assert(pow10(9) == 1_000_000_000);
        }
    }
    r
}

proof fn lemma_pow10_monotone(a: nat, b: nat)
    requires
        a <= b,
    ensures
        0 < pow10(a) <= pow10(b),
    decreases b,
{
    if a < b {
        lemma_pow10_monotone(a, (b - 1) as nat);
    } else if a > 0 {
        lemma_pow10_monotone((a - 1) as nat, (a - 1) as nat);
    }
}

/// Why an epoch could not be read.
#[derive(Clone, Copy, Debug, PartialEq, Eq, Structural)]
pub enum EpochError {
    /// Not `date T time`, with three `-` fields and three `:` fields.
    Format,
    /// The year is not a signed decimal.
    Year,
    /// The month is not an unsigned decimal.
    Month,
    /// The day is not an unsigned decimal.
    Day,
    /// The hour is not an unsigned decimal.
    Hour,
    /// The minute is not an unsigned decimal.
    Minute,
    /// The whole seconds are not an unsigned decimal.
    Second,
    /// The fields name no instant of the proleptic Gregorian calendar.
    InvalidDate,
    /// The instant lies beyond `MAX_ABS_SECONDS` from the epoch.
    OutOfRange,
}

/// Smallest year that the calendar arithmetic represents.
pub const MIN_CALENDAR_YEAR: i32 = -262143;

/// Largest year that the calendar arithmetic represents.
pub const MAX_CALENDAR_YEAR: i32 = 262142;

/// A leap year of the proleptic Gregorian calendar.
pub open spec fn is_leap_year(y: int) -> bool {
    (y % 4 == 0 && y % 100 != 0) || y % 400 == 0
}

/// Days in month `m` (1 to 12) of year `y`.
pub open spec fn days_in_month(y: int, m: int) -> int {
    if m == 2 {
        if is_leap_year(y) { 29 } else { 28 }
    } else if m == 4 || m == 6 || m == 9 || m == 11 {
        30
    } else {
        31
    }
}

/// The fields name a representable date and a time of day without a leap
/// second.
pub open spec fn valid_civil(y: int, mo: int, d: int, h: int, mi: int, s: int) -> bool {
    &&& MIN_CALENDAR_YEAR <= y <= MAX_CALENDAR_YEAR
    &&& 1 <= mo <= 12
    &&& 1 <= d <= days_in_month(y, mo)
    &&& 0 <= h < 24
    &&& 0 <= mi < 60
    &&& 0 <= s < 60
}

/// Days from 1970-01-01 to the date `y-m-d` of the proleptic Gregorian
/// calendar.
pub open spec fn days_from_civil(y: int, m: int, d: int) -> int {
    let yy = if m <= 2 { y - 1 } else { y };
    let era = yy / 400;
    let yoe = yy - era * 400;
    let doy = (153 * (if m > 2 { m - 3 } else { m + 9 }) + 2) / 5 + d - 1;
    let doe = yoe * 365 + yoe / 4 - yoe / 100 + doy;
    era * 146097 + doe - 719468
}

/// Seconds from 1970-01-01T00:00:00Z to the UTC instant named by the fields.
pub open spec fn civil_seconds(y: int, mo: int, d: int, h: int, mi: int, s: int) -> int {
    days_from_civil(y, mo, d) * 86400 + h * 3600 + mi * 60 + s
}

/// Relies on chrono's `Utc.with_ymd_and_hms(..).earliest()` and
/// `DateTime::timestamp`: a UTC instant exists exactly for a valid proleptic
/// Gregorian date within chrono's years and a time with hour < 24, minute < 60
/// and second < 60, and its timestamp counts the seconds since 1970-01-01.
#[verifier::external_body]
fn utc_timestamp(year: i32, month: u32, day: u32, hour: u32, minute: u32, second: u32) -> (r: Option<i64>)
    ensures
        r == (if valid_civil(year as int, month as int, day as int, hour as int, minute as int, second as int) {
            Some(civil_seconds(year as int, month as int, day as int, hour as int, minute as int, second as int) as i64)
        } else {
            None
        }),
{
    chrono::Utc.with_ymd_and_hms(year, month, day, hour, minute, second).earliest().map(|dt| dt.timestamp())
}

/// The instant that a CCSDS epoch text names, as the reader below finds it.
pub open spec fn ccsds_epoch(text: Seq<char>) -> Result<Timestamp, EpochError> {
    let parts = split(strip_trailing_z(text), 'T');
    if parts.len() != 2 {
        Err(EpochError::Format)
    } else {
        let date = split(parts[0], '-');
        let time = split(parts[1], ':');
        if date.len() != 3 || time.len() != 3 {
            Err(EpochError::Format)
        } else if parse_i32_text(date[0]) is None {
            Err(EpochError::Year)
        } else if parse_u32_text(date[1]) is None {
            Err(EpochError::Month)
        } else if parse_u32_text(date[2]) is None {
            Err(EpochError::Day)
        } else if parse_u32_text(time[0]) is None {
            Err(EpochError::Hour)
        } else if parse_u32_text(time[1]) is None {
            Err(EpochError::Minute)
        } else {
            let sec = split(time[2], '.');
            if parse_u32_text(sec[0]) is None {
                Err(EpochError::Second)
            } else {
                let y = parse_i32_text(date[0]).unwrap() as int;
                let mo = parse_u32_text(date[1]).unwrap() as int;
                let d = parse_u32_text(date[2]).unwrap() as int;
                let h = parse_u32_text(time[0]).unwrap() as int;
                let mi = parse_u32_text(time[1]).unwrap() as int;
                let s = parse_u32_text(sec[0]).unwrap() as int;
                let nanos = if sec.len() > 1 { fraction_nanos(sec[1]) } else { 0 };
                if !valid_civil(y, mo, d, h, mi, s) {
                    Err(EpochError::InvalidDate)
                } else if !(-MAX_ABS_SECONDS <= civil_seconds(y, mo, d, h, mi, s) <= MAX_ABS_SECONDS) {
                    Err(EpochError::OutOfRange)
                } else {
                    Ok(Timestamp { seconds: civil_seconds(y, mo, d, h, mi, s) as i64, nanos })
                }
            }
        }
    }
}

/// Reads a CCSDS epoch such as `2024-03-01T12:34:56.789Z`.
///
/// Trailing `Z`s are dropped; the rest must be a date and a time joined by
/// one `T`, with year, month and day separated by `-` and hour, minute and
/// seconds by `:`.  The seconds may carry a fraction after a `.`, of which
/// the first nine digits count (padded with zeros; a fraction that does not
/// read as digits counts as zero).  The instant is taken on the UTC scale.
pub fn parse_ccsds_epoch(epoch_str: &str) -> (r: Result<Timestamp, EpochError>)
    ensures
        r == ccsds_epoch(epoch_str@),
{
    let text = chars_of(epoch_str);
    let clean = strip_z(&text);
    let parts = split_at_char(&clean, 'T');
    proof {
        assert(parts@.map_values(|p: Vec<char>| p@).len() == parts@.len());
    }
    if parts.len() != 2 {
        return Err(EpochError::Format);
    }
    proof {
        assert(parts@.map_values(|p: Vec<char>| p@)[0] == parts@[0]@);
        assert(parts@.map_values(|p: Vec<char>| p@)[1] == parts@[1]@);
    }
    let date = split_at_char(&parts[0], '-');
    let time = split_at_char(&parts[1], ':');
    proof {
        assert(date@.map_values(|p: Vec<char>| p@).len() == date@.len());
        assert(time@.map_values(|p: Vec<char>| p@).len() == time@.len());
    }
    if date.len() != 3 || time.len() != 3 {
        return Err(EpochError::Format);
    }
    proof {
        assert(date@.map_values(|p: Vec<char>| p@)[0] == date@[0]@);
        assert(date@.map_values(|p: Vec<char>| p@)[1] == date@[1]@);
        assert(date@.map_values(|p: Vec<char>| p@)[2] == date@[2]@);
        assert(time@.map_values(|p: Vec<char>| p@)[0] == time@[0]@);
        assert(time@.map_values(|p: Vec<char>| p@)[1] == time@[1]@);
        assert(time@.map_values(|p: Vec<char>| p@)[2] == time@[2]@);
    }
    let year = match parse_i32_chars(&date[0]) {
        Some(v) => v,
        None => return Err(EpochError::Year),
    };
    let month = match parse_u32_chars(&date[1]) {
        Some(v) => v,
        None => return Err(EpochError::Month),
    };
    let day = match parse_u32_chars(&date[2]) {
        Some(v) => v,
        None => return Err(EpochError::Day),
    };
    let hour = match parse_u32_chars(&time[0]) {
        Some(v) => v,
        None => return Err(EpochError::Hour),
    };
    let minute = match parse_u32_chars(&time[1]) {
        Some(v) => v,
        None => return Err(EpochError::Minute),
    };
    let sec = split_at_char(&time[2], '.');
    proof {
        lemma_split_not_empty(time@[2]@, '.');
        assert(sec@.map_values(|p: Vec<char>| p@).len() == sec@.len());
        assert(sec@.map_values(|p: Vec<char>| p@)[0] == sec@[0]@);
    }
    let second = match parse_u32_chars(&sec[0]) {
        Some(v) => v,
        None => return Err(EpochError::Second),
    };
    let nanos = if sec.len() > 1 {
        proof {
            assert(sec@.map_values(|p: Vec<char>| p@)[1] == sec@[1]@);
        }
        fraction_to_nanos(&sec[1])
    } else {
        0
    };
    match utc_timestamp(year, month, day, hour, minute, second) {
        None => Err(EpochError::InvalidDate),
        Some(seconds) => {
            if seconds < -MAX_ABS_SECONDS || seconds > MAX_ABS_SECONDS {
                Err(EpochError::OutOfRange)
            } else {
                Ok(Timestamp { seconds, nanos })
            }
        },
    }
}

} // verus!
