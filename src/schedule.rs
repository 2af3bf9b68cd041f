//! The schedule evaluator: weekdays, time-of-day parsing and the rule that
//! decides whether a blocking window is active.
use vstd::prelude::*;
use crate::text::{chars_of, split_chars, split_on, string_of, trim_chars, trim_ws, vec_views};

verus! {

broadcast use vstd::string::group_string_axioms;

/// A day of the week.
#[derive(Clone, Copy, PartialEq, Eq, Structural, Debug)]
pub enum Weekday {
    Mon,
    Tue,
    Wed,
    Thu,
    Fri,
    Sat,
    Sun,
}

/// A schedule's time field that is not a valid `HH:MM` 24-hour time.
#[derive(Clone, Copy, PartialEq, Eq, Structural, Debug)]
pub enum ScheduleParseError {
    InvalidTime,
}

/// The canonical three-letter name of a day.
pub open spec fn day_name(d: Weekday) -> Seq<char> {
    match d {
        Weekday::Mon => "Mon"@,
        Weekday::Tue => "Tue"@,
        Weekday::Wed => "Wed"@,
        Weekday::Thu => "Thu"@,
        Weekday::Fri => "Fri"@,
        Weekday::Sat => "Sat"@,
        Weekday::Sun => "Sun"@,
    }
}

/// The day before `d`.
pub open spec fn prev_day(d: Weekday) -> Weekday {
    match d {
        Weekday::Mon => Weekday::Sun,
        Weekday::Tue => Weekday::Mon,
        Weekday::Wed => Weekday::Tue,
        Weekday::Thu => Weekday::Wed,
        Weekday::Fri => Weekday::Thu,
        Weekday::Sat => Weekday::Fri,
        Weekday::Sun => Weekday::Sat,
    }
}

/// The day numbered `n`, counting from Monday as zero.
pub open spec fn day_from_monday(n: int) -> Weekday {
    if n == 0 {
        Weekday::Mon
    } else if n == 1 {
        Weekday::Tue
    } else if n == 2 {
        Weekday::Wed
    } else if n == 3 {
        Weekday::Thu
    } else if n == 4 {
        Weekday::Fri
    } else if n == 5 {
        Weekday::Sat
    } else {
        Weekday::Sun
    }
}

impl Weekday {
    /// The day numbered `n`, counting from Monday as zero.
    pub fn from_days_from_monday(n: u32) -> (r: Weekday)
        requires
            n < 7,
        ensures
            r == day_from_monday(n as int),
    {
        if n == 0 {
            Weekday::Mon
        } else if n == 1 {
            Weekday::Tue
        } else if n == 2 {
            Weekday::Wed
        } else if n == 3 {
            Weekday::Thu
        } else if n == 4 {
            Weekday::Fri
        } else if n == 5 {
            Weekday::Sat
        } else {
            Weekday::Sun
        }
    }
}

/// The canonical three-letter name of a day, as schedules list it.
pub fn canonical_day(day: Weekday) -> (r: String)
    ensures
        r@ == day_name(day),
{
    match day {
        Weekday::Mon => "Mon".to_string(),
        Weekday::Tue => "Tue".to_string(),
        Weekday::Wed => "Wed".to_string(),
        Weekday::Thu => "Thu".to_string(),
        Weekday::Fri => "Fri".to_string(),
        Weekday::Sat => "Sat".to_string(),
        Weekday::Sun => "Sun".to_string(),
    }
}

/// The day before `day`.
pub fn yesterday(day: Weekday) -> (r: Weekday)
    ensures
        r == prev_day(day),
{
    match day {
        Weekday::Mon => Weekday::Sun,
        Weekday::Tue => Weekday::Mon,
        Weekday::Wed => Weekday::Tue,
        Weekday::Thu => Weekday::Wed,
        Weekday::Fri => Weekday::Thu,
        Weekday::Sat => Weekday::Fri,
        Weekday::Sun => Weekday::Sat,
    }
}

/// An ASCII decimal digit.
pub open spec fn is_digit(c: char) -> bool {
    '0' <= c && c <= '9'
}

/// A non-empty run of ASCII decimal digits.
pub open spec fn is_digits(s: Seq<char>) -> bool {
    s.len() > 0 && forall|i: int| 0 <= i < s.len() ==> is_digit(s[i])
}

/// The number that a run of decimal digits writes.
pub open spec fn digits_value(s: Seq<char>) -> int
    decreases s.len(),
{
    if s.len() == 0 {
        0
    } else {
        digits_value(s.drop_last()) * 10 + (s.last() as int - '0' as int)
    }
}

/// The minutes since midnight that a time field gives: after surrounding
/// whitespace is dropped, hours and minutes as decimal digits around a single
/// `:`, with hours below 24 and minutes below 60. `None` for anything else.
pub open spec fn time_value(t: Seq<char>) -> Option<int> {
    let u = trim_ws(t);
    if exists|c: int| 0 <= c < u.len() && u[c] == ':' {
        let c = choose|c: int| 0 <= c < u.len() && u[c] == ':' && forall|k: int|
            0 <= k < c ==> u[k] != ':';
        let h = u.take(c);
        let m = u.subrange(c + 1, u.len() as int);
        if is_digits(h) && is_digits(m) && digits_value(h) < 24 && digits_value(m) < 60 {
            Some(digits_value(h) * 60 + digits_value(m))
        } else {
            None
        }
    } else {
        None
    }
}

/// A longer run of digits writes at least as large a number.
pub proof fn lemma_digits_value_grows(s: Seq<char>, k: int)
    requires
        0 <= k <= s.len(),
        forall|i: int| 0 <= i < s.len() ==> is_digit(s[i]),
    ensures
        0 <= digits_value(s.take(k)) <= digits_value(s),
    decreases s.len(),
{
    if k < s.len() {
        lemma_digits_value_grows(s.drop_last(), k);
        assert(s.drop_last().take(k) =~= s.take(k));
    } else {
        assert(s.take(k) =~= s);
        if s.len() > 0 {
            lemma_digits_value_grows(s.drop_last(), k - 1);
        }
    }
}

/// The number written by `v[a..b]` where it is a run of digits below `bound`.
fn digits_below(v: &Vec<char>, a: usize, b: usize, bound: u32) -> (r: Option<u32>)
    requires
        a <= b <= v.len(),
        0 < bound <= 100,
    ensures
        match r {
            Some(n) => is_digits(v@.subrange(a as int, b as int)) && n == digits_value(
                v@.subrange(a as int, b as int),
            ) && n < bound,
            None => !(is_digits(v@.subrange(a as int, b as int)) && digits_value(
                v@.subrange(a as int, b as int),
            ) < bound),
        },
{
    if a == b {
        return None;
    }
    let ghost s = v@.subrange(a as int, b as int);
    let mut acc: u32 = 0;
    let mut i: usize = a;
    while i < b
        invariant
            a <= i <= b <= v.len(),
            s == v@.subrange(a as int, b as int),
            0 < bound <= 100,
            acc < bound,
            forall|k: int| a <= k < i ==> is_digit(v@[k]),
            acc == digits_value(s.take(i - a)),
        decreases b - i,
    {
        let c = v[i];
        assert(s.take(i - a + 1).drop_last() =~= s.take(i - a));
        if !('0' <= c && c <= '9') {
            assert(!is_digit(s[i - a]));
            return None;
        }
        acc = acc * 10 + (c as u32 - '0' as u32);
        if acc >= bound {
            proof {
                if is_digits(s) {
                    lemma_digits_value_grows(s, i - a + 1);
                }
            }
            return None;
        }
        i = i + 1;
    }
    assert(s.take(b - a) =~= s);
    Some(acc)
}

/// Parses a time of day, `HH:MM` or `H:MM`, into minutes since midnight.
pub fn parse_time(t: &str) -> (r: Result<u32, ScheduleParseError>)
    ensures
        match r {
            Ok(n) => time_value(t@) == Some(n as int),
            Err(_) => time_value(t@) is None,
        },
{
    let raw = chars_of(t);
    let u = trim_chars(&raw);
    let mut c: usize = 0;
    while c < u.len() && u[c] != ':'
        invariant
            c <= u.len(),
            forall|k: int| 0 <= k < c ==> u@[k] != ':',
        decreases u.len() - c,
    {
        c = c + 1;
    }
    if c == u.len() {
        return Err(ScheduleParseError::InvalidTime);
    }
    let ghost cc = choose|k: int| 0 <= k < u@.len() && u@[k] == ':' && forall|j: int|
        0 <= j < k ==> u@[j] != ':';
    assert(cc == c as int) by {
        if cc < c {
        } else if cc > c {
        }
    }
    let h = digits_below(&u, 0, c, 24);
    let m = digits_below(&u, c + 1, u.len(), 60);
    assert(u@.take(c as int) =~= u@.subrange(0, c as int));
    match (h, m) {
        (Some(h), Some(m)) => Ok(h * 60 + m),
        _ => Err(ScheduleParseError::InvalidTime),
    }
}

/// The views of a sequence of strings.
pub open spec fn views(v: Seq<String>) -> Seq<Seq<char>> {
    v.map_values(|s: String| s@)
}

/// The day names of a comma-separated list, each trimmed.
pub open spec fn day_list(s: Seq<char>) -> Seq<Seq<char>> {
    split_on(s, ',').map_values(|f: Seq<char>| trim_ws(f))
}

/// Splits a comma-separated day list into its trimmed entries.
pub fn parse_days(days: &str) -> (r: Vec<String>)
    ensures
        views(r@) == day_list(days@),
{
    let v = chars_of(days);
    let parts = split_chars(&v, ',');
    let mut r: Vec<String> = Vec::new();
    let mut j: usize = 0;
    while j < parts.len()
        invariant
            j <= parts.len(),
            vec_views(parts@) == split_on(v@, ','),
            views(r@) =~= split_on(v@, ',').take(j as int).map_values(|f: Seq<char>| trim_ws(f)),
        decreases parts.len() - j,
    {
        let t = trim_chars(&parts[j]);
        let s = string_of(&t);
        let ghost old_r = r@;
        assert(vec_views(parts@)[j as int] == parts@[j as int]@);
        r.push(s);
        assert(views(r@) =~= views(old_r).push(s@));
        assert(split_on(v@, ',').take(j + 1) =~= split_on(v@, ',').take(j as int).push(
            split_on(v@, ',')[j as int],
        ));
        j = j + 1;
    }
    assert(split_on(v@, ',').take(j as int) =~= split_on(v@, ','));
    r
}

/// The day `d` is among the listed days.
pub open spec fn listed(days: Seq<Seq<char>>, d: Weekday) -> bool {
    days.contains(day_name(d))
}

/// Whether a window from `start` to `end` (minutes since midnight) on the
/// listed days covers minute `t` of day `today`. A window whose end is after
/// its start lies within each listed day; one whose end is before its start
/// runs from a listed day into the next; one whose end equals its start is
/// empty.
pub open spec fn window_active(
    days: Seq<Seq<char>>,
    start: int,
    end: int,
    today: Weekday,
    t: int,
) -> bool {
    if start <= end {
        listed(days, today) && start <= t && t < end
    } else {
        (listed(days, today) && t >= start) || (listed(days, prev_day(today)) && t < end)
    }
}

/// Whether `day` is among `days`.
pub fn day_listed(days: &Vec<String>, day: Weekday) -> (r: bool)
    ensures
        r == listed(views(days@), day),
{
    let name = canonical_day(day);
    let mut i: usize = 0;
    while i < days.len()
        invariant
            i <= days.len(),
            name@ == day_name(day),
            forall|k: int| 0 <= k < i ==> days@[k]@ != day_name(day),
        decreases days.len() - i,
    {
        if days[i] == name {
            assert(views(days@)[i as int] == day_name(day));
            return true;
        }
        i = i + 1;
    }
    assert forall|k: int| 0 <= k < views(days@).len() implies views(days@)[k] != day_name(
        day,
    ) by {}
    false
}

/// Whether the window is active at minute `now_minutes` of day `today`.
pub fn is_active(days: &Vec<String>, start: u32, end: u32, today: Weekday, now_minutes: u32) -> (r:
    bool)
    ensures
        r == window_active(views(days@), start as int, end as int, today, now_minutes as int),
{
    if start <= end {
        day_listed(days, today) && start <= now_minutes && now_minutes < end
    } else {
        let part1 = day_listed(days, today) && now_minutes >= start;
        let part2 = day_listed(days, yesterday(today)) && now_minutes < end;
        part1 || part2
    }
}

/// A window within one day covers exactly the minutes from its start up to,
/// but not including, its end, on the listed days: its first minute is
/// covered and its end is not.
pub proof fn lemma_same_day_window(
    days: Seq<Seq<char>>,
    start: int,
    end: int,
    today: Weekday,
    t: int,
)
    requires
        start < end,
    ensures
        window_active(days, start, end, today, t) <==> (listed(days, today) && start <= t && t
            < end),
        listed(days, today) ==> window_active(days, start, end, today, start),
        !window_active(days, start, end, today, end),
{
}

/// A window across midnight covers its start on a listed day, does not cover
/// its end on the day after, and covers the minute before its end on the day
/// after.
pub proof fn lemma_cross_midnight_window(
    days: Seq<Seq<char>>,
    start: int,
    end: int,
    listed_day: Weekday,
    next_day: Weekday,
)
    requires
        start > end,
        listed(days, listed_day),
        prev_day(next_day) == listed_day,
    ensures
        window_active(days, start, end, listed_day, start),
        !window_active(days, start, end, next_day, end),
        end >= 1 ==> window_active(days, start, end, next_day, end - 1),
{
}

} // verus!
