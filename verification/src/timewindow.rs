//! Time-aware file selection: reads the UTC timestamp embedded in a log
//! file's name and tests its time of day against an optional window.
//!
//! The window test resolves two ambiguities of the format and documents
//! the choice here. First, when both bounds are set, both must hold
//! (logical AND); the lower bound is never discarded. Second, a file
//! name with no embedded timestamp is accepted when no bound is set and
//! rejected when either bound is set, since nothing can witness that it
//! falls inside the window. A digit run in timestamp position whose
//! hour or minute is out of range does not count as a timestamp.

use vstd::prelude::*;
use vstd::string::*;

use crate::chars::{all_digits, digit_val, digits_val, is_digit_char};

verus! {

/// The error of a time argument that is not a valid `HHMM` text.
#[derive(Clone, Copy, Debug, PartialEq, Eq, Structural)]
pub struct ParseTimeError;

impl ParseTimeError {
    /// The human-readable description of the failure.
    pub fn message(&self) -> (r: String)
        ensures
            r@ == "invalid time"@,
    {
        String::from_str("invalid time")
    }
}

/// A time of day with minute precision, counted from midnight.
#[derive(Clone, Copy, Debug, PartialEq, Eq, Structural)]
pub struct TimeOfDay {
    pub minutes: u16,
}

impl TimeOfDay {
    /// A valid time of day lies before the end of the day.
    pub open spec fn wf(self) -> bool {
        self.minutes < 1440
    }
}

/// Exactly four digits `HHMM` with a valid hour and minute.
pub open spec fn is_hhmm_text(s: Seq<char>) -> bool {
    s.len() == 4 && all_digits(s) && digits_val(s.take(2)) <= 23 && digits_val(s.skip(2)) <= 59
}

/// The minutes from midnight that an `HHMM` text denotes.
pub open spec fn hhmm_minutes(s: Seq<char>) -> int {
    digits_val(s.take(2)) * 60 + digits_val(s.skip(2))
}

/// Value of the two digits of `s` starting at `j`.
fn two_digit_val(s: &str, j: usize) -> (v: u16)
    requires
        j + 2 <= s@.len(),
        s@.len() <= usize::MAX,
        is_digit_char(s@[j as int]),
        is_digit_char(s@[j + 1]),
    ensures
        v == digits_val(s@.subrange(j as int, j + 2)),
        v <= 99,
{
    let c0 = s.get_char(j);
    let c1 = s.get_char(j + 1);
    let v: u32 = (c0 as u32 - 48) * 10 + (c1 as u32 - 48);
    proof {
        reveal_with_fuel(digits_val, 3);
        let part = s@.subrange(j as int, j + 2);
        assert(part.drop_last() =~= seq![s@[j as int]]);
        assert(part.last() == s@[j + 1]);
        assert(seq![s@[j as int]].drop_last() =~= Seq::<char>::empty());
        assert(digits_val(seq![s@[j as int]]) == digit_val(s@[j as int]));
        assert(digits_val(part) == digit_val(s@[j as int]) * 10 + digit_val(s@[j + 1]));
    }
    v as u16
}

/// Parses a time-of-day argument in `HHMM` form: accepted exactly when
/// the text is four digits with hour at most 23 and minute at most 59.
pub fn from_time(src: &str) -> (r: Result<TimeOfDay, ParseTimeError>)
    ensures
        r is Ok <==> is_hhmm_text(src@),
        r matches Ok(t) ==> t.wf() && t.minutes == hhmm_minutes(src@),
{
    let n: usize = src.unicode_len();
    if n != 4 {
        return Err(ParseTimeError);
    }
    let mut j: usize = 0;
    while j < 4
        invariant
            0 <= j <= 4,
            n == 4,
            n == src@.len(),
            forall|i: int| 0 <= i < j ==> is_digit_char(#[trigger] src@[i]),
        decreases 4 - j,
    {
        let c = src.get_char(j);
        let code: u32 = c as u32;
        if code < 48 || code > 57 {
            assert(!is_digit_char(src@[j as int]));
            return Err(ParseTimeError);
        }
        j = j + 1;
    }
    assert(all_digits(src@));
    let hh = two_digit_val(src, 0);
    let mm = two_digit_val(src, 2);
    proof {
        assert(src@.take(2) =~= src@.subrange(0, 2));
        assert(src@.skip(2) =~= src@.subrange(2, 4));
    }
    if hh > 23 || mm > 59 {
        return Err(ParseTimeError);
    }
    Ok(TimeOfDay { minutes: hh * 60 + mm })
}

/// An embedded UTC timestamp `YYYYMMDDThhmmZ` begins at index `i` of
/// `s`: eight date digits, `T`, a valid `hhmm`, and `Z`.
pub open spec fn ts_at(s: Seq<char>, i: int) -> bool {
    &&& 0 <= i
    &&& i + 14 <= s.len()
    &&& all_digits(s.subrange(i, i + 8))
    &&& s[i + 8] == 'T'
    &&& is_hhmm_text(s.subrange(i + 9, i + 13))
    &&& s[i + 13] == 'Z'
}

/// The time of day, in minutes, of the timestamp starting at `i`.
pub open spec fn ts_minutes_at(s: Seq<char>, i: int) -> int {
    hhmm_minutes(s.subrange(i + 9, i + 13))
}

/// The start of the last embedded timestamp beginning before `n`, or
/// `-1` when there is none: the last match wins.
pub open spec fn last_ts_before(s: Seq<char>, n: int) -> int
    decreases n,
{
    if n <= 0 {
        -1
    } else if ts_at(s, n - 1) {
        n - 1
    } else {
        last_ts_before(s, n - 1)
    }
}

/// The start of the last embedded timestamp in `s`, or `-1`.
pub open spec fn last_ts(s: Seq<char>) -> int {
    last_ts_before(s, s.len() - 13)
}

/// Reads the time of day of the timestamp at `i`, when one is there.
fn ts_minutes_if(s: &str, i: usize) -> (r: Option<u16>)
    requires
        i + 14 <= s@.len(),
        s@.len() <= usize::MAX,
    ensures
        r is Some <==> ts_at(s@, i as int),
        r matches Some(m) ==> m == ts_minutes_at(s@, i as int) && m < 1440,
{
    if !crate::chars::digits_in_range(s, i, i + 8) {
        return None;
    }
    if s.get_char(i + 8) != 'T' {
        return None;
    }
    let ghost sub = s@.subrange(i + 9, i + 13);
    if !crate::chars::digits_in_range(s, i + 9, i + 13) {
        return None;
    }
    proof {
        assert(sub.take(2) =~= s@.subrange(i + 9, i + 11));
        assert(sub.skip(2) =~= s@.subrange(i + 11, i + 13));
        assert(is_digit_char(sub[0]) && is_digit_char(sub[1]) && is_digit_char(sub[2])
            && is_digit_char(sub[3]));
        assert(sub[0] == s@[i + 9] && sub[1] == s@[i + 10] && sub[2] == s@[i + 11] && sub[3]
            == s@[i + 12]);
    }
    let hh = two_digit_val(s, i + 9);
    let mm = two_digit_val(s, i + 11);
    if hh > 23 || mm > 59 {
        return None;
    }
    if s.get_char(i + 13) != 'Z' {
        return None;
    }
    Some(hh * 60 + mm)
}

/// Finds the last embedded timestamp of a file name and returns its
/// time of day in minutes.
#[verifier::loop_isolation(false)]
pub fn find_last_ts_minutes(s: &str) -> (r: Option<u16>)
    ensures
        r is None <==> last_ts(s@) == -1,
        r matches Some(m) ==> last_ts(s@) >= 0 && m == ts_minutes_at(s@, last_ts(s@)) && m < 1440,
{
    let n: usize = s.unicode_len();
    if n < 14 {
        proof {
            assert(last_ts_before(s@, s@.len() - 13) == -1) by {
                assert(s@.len() - 13 <= 0);
            }
        }
        return None;
    }
    let mut best: Option<u16> = None;
    let ghost mut best_at: int = -1;
    let mut i: usize = 0;
    while i <= n - 14
        invariant
            0 <= i <= n - 13,
            n >= 14,
            best is None <==> last_ts_before(s@, i as int) == -1,
            best matches Some(m) ==> last_ts_before(s@, i as int) >= 0 && m == ts_minutes_at(
                s@,
                last_ts_before(s@, i as int),
            ) && m < 1440,
        decreases n - i,
    {
        let here = ts_minutes_if(s, i);
        proof {
            assert(last_ts_before(s@, i + 1) == if ts_at(s@, i as int) {
                i as int
            } else {
                last_ts_before(s@, i as int)
            });
        }
        if here.is_some() {
            best = here;
        }
        i = i + 1;
    }
    proof {
        assert(i as int == s@.len() - 13);
    }
    best
}

/// Whether a time of day `t` lies inside the optional window: with no
/// bound set everything passes; a set lower bound demands `t` at or
/// after it, a set upper bound demands `t` at or before it, and when
/// both are set both must hold.
pub open spec fn window_accepts(t: int, init: Option<TimeOfDay>, end: Option<TimeOfDay>) -> bool {
    match (init, end) {
        (Option::None, Option::None) => true,
        (Option::Some(i), Option::None) => t >= i.minutes,
        (Option::None, Option::Some(e)) => t <= e.minutes,
        (Option::Some(i), Option::Some(e)) => t >= i.minutes && t <= e.minutes,
    }
}

/// Whether a file name passes the time window: judged by the time of
/// day of the last embedded timestamp; a name with no timestamp passes
/// exactly when no bound is set.
pub open spec fn validate_time_spec(
    name: Seq<char>,
    init: Option<TimeOfDay>,
    end: Option<TimeOfDay>,
) -> bool {
    if last_ts(name) == -1 {
        init is None && end is None
    } else {
        window_accepts(ts_minutes_at(name, last_ts(name)), init, end)
    }
}

/// Tests a file name against the optional time-of-day window. When
/// both bounds are set, both must hold; see the module notes for the
/// documented resolution of the window's edge cases.
pub fn validate_time(file_name: &str, init_time: &Option<TimeOfDay>, end_time: &Option<
    TimeOfDay,
>) -> (r: bool)
    ensures
        r == validate_time_spec(file_name@, *init_time, *end_time),
{
    match find_last_ts_minutes(file_name) {
        None => init_time.is_none() && end_time.is_none(),
        Some(t) => {
            let lo_ok = match *init_time {
                Option::Some(i) => t >= i.minutes,
                Option::None => true,
            };
            let hi_ok = match *end_time {
                Option::Some(e) => t <= e.minutes,
                Option::None => true,
            };
            lo_ok && hi_ok
        },
    }
}

/// The recognized log-file suffix `.log` ends the name.
pub open spec fn has_log_suffix(s: Seq<char>) -> bool {
    s.len() >= 4 && s[s.len() - 4] == '.' && s[s.len() - 3] == 'l' && s[s.len() - 2] == 'o' && s[
        s.len() - 1
    ] == 'g'
}

/// Whether a directory entry's name is a selected log file: it carries
/// the recognized suffix and passes the time window.
pub fn selects_log_file(file_name: &str, init_time: &Option<TimeOfDay>, end_time: &Option<
    TimeOfDay,
>) -> (r: bool)
    ensures
        r == (has_log_suffix(file_name@) && validate_time_spec(file_name@, *init_time, *end_time)),
{
    let n: usize = file_name.unicode_len();
    if n < 4 {
        return false;
    }
    let suffix_ok = file_name.get_char(n - 4) == '.' && file_name.get_char(n - 3) == 'l'
        && file_name.get_char(n - 2) == 'o' && file_name.get_char(n - 1) == 'g';
    if !suffix_ok {
        return false;
    }
    validate_time(file_name, init_time, end_time)
}

} // verus!
