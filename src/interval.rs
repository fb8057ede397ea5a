use vstd::prelude::*;

verus! {

/// The wall-clock unit that a candle interval counts in.
#[derive(Clone, Copy, Debug, PartialEq, Eq, Structural)]
pub enum TimeUnit {
    Minute,
    Hour,
    Day,
}

/// A candle interval: `magnitude` units of `unit` (`"15m"` is fifteen minutes).
#[derive(Clone, Copy, Debug, PartialEq, Eq, Structural)]
pub struct CandleInterval {
    pub unit: TimeUnit,
    pub magnitude: u32,
}

/// Why an interval string was rejected.
#[derive(Clone, Copy, Debug, PartialEq, Eq, Structural)]
pub enum IntervalParseError {
    /// The string is empty.
    Empty,
    /// The last character is not a known unit letter.
    UnknownUnit,
    /// Week (`W`) and month (`M`) candles are recognised but not tracked.
    UnsupportedUnit,
    /// What precedes the unit is not a positive decimal number that fits in `u32`.
    InvalidMagnitude,
}

/// The local wall-clock fields that candle boundaries are read from.
#[derive(Clone, Copy, Debug, PartialEq, Eq, Structural)]
pub struct WallClock {
    /// Minute of the hour.
    pub minute: u32,
    /// Hour of the day.
    pub hour: u32,
    /// Day of the month.
    pub day: u32,
}

impl WallClock {
    /// The fields are a real clock reading.
    pub open spec fn wf(self) -> bool {
        &&& self.minute < 60
        &&& self.hour < 24
        &&& 1 <= self.day <= 31
    }
}

impl CandleInterval {
    pub open spec fn valid(self) -> bool {
        self.magnitude > 0
    }
}

pub open spec fn is_digit(c: char) -> bool {
    '0' <= c && c <= '9'
}

pub open spec fn all_digits(s: Seq<char>) -> bool {
    forall|i: int| 0 <= i < s.len() ==> is_digit(#[trigger] s[i])
}

/// The number that a string of decimal digits denotes.
pub open spec fn digits_value(s: Seq<char>) -> int
    decreases s.len(),
{
    if s.len() == 0 {
        0
    } else {
        digits_value(s.drop_last()) * 10 + (s.last() as int - '0' as int)
    }
}

/// The unit that a unit letter names, if it is one that is tracked.
pub open spec fn unit_of(c: char) -> Option<TimeUnit> {
    if c == 'm' {
        Some(TimeUnit::Minute)
    } else if c == 'h' {
        Some(TimeUnit::Hour)
    } else if c == 'd' {
        Some(TimeUnit::Day)
    } else {
        None
    }
}

/// What an interval string `<magnitude><unit>` means, or why it is rejected.
pub open spec fn interval_of(s: Seq<char>) -> Result<CandleInterval, IntervalParseError> {
    if s.len() == 0 {
        Err(IntervalParseError::Empty)
    } else if s.last() == 'W' || s.last() == 'M' {
        Err(IntervalParseError::UnsupportedUnit)
    } else if unit_of(s.last()) is None {
        Err(IntervalParseError::UnknownUnit)
    } else {
        let digits = s.drop_last();
        if digits.len() == 0 || !all_digits(digits) || digits_value(digits) == 0
            || digits_value(digits) > u32::MAX {
            Err(IntervalParseError::InvalidMagnitude)
        } else {
            Ok(CandleInterval { unit: unit_of(s.last())->Some_0, magnitude: digits_value(digits) as u32 })
        }
    }
}

/// The clock field that a candle of this unit closes on.
pub open spec fn watch_element(unit: TimeUnit, now: WallClock) -> u32 {
    match unit {
        TimeUnit::Minute => now.minute,
        TimeUnit::Hour => now.hour,
        TimeUnit::Day => now.day,
    }
}

/// The clock stands on a candle boundary of the interval.
pub open spec fn on_boundary(iv: CandleInterval, now: WallClock) -> bool {
    watch_element(iv.unit, now) % iv.magnitude == 0
}

/// Parses an interval string such as `"15m"`, `"1h"` or `"1d"`.
pub fn parse_candle_interval(s: &str) -> (r: Result<CandleInterval, IntervalParseError>)
    ensures
        r == interval_of(s@),
        r is Ok ==> r->Ok_0.valid(),
{
    let n = s.unicode_len();
    if n == 0 {
        return Err(IntervalParseError::Empty);
    }
    let last = s.get_char(n - 1);
    let unit = if last == 'W' || last == 'M' {
        return Err(IntervalParseError::UnsupportedUnit);
    } else if last == 'm' {
        TimeUnit::Minute
    } else if last == 'h' {
        TimeUnit::Hour
    } else if last == 'd' {
        TimeUnit::Day
    } else {
        return Err(IntervalParseError::UnknownUnit);
    };
    let ghost digits = s@.drop_last();
    assert(s@.last() == last);
    if n == 1 {
        return Err(IntervalParseError::InvalidMagnitude);
    }
    let mut value: u64 = 0;
    let mut i: usize = 0;
    while i < n - 1
        invariant
            n == s@.len(),
            n >= 2,
            digits == s@.drop_last(),
            unit_of(s@.last()) == Some(unit),
            i <= n - 1,
            all_digits(digits.take(i as int)),
            value as int == digits_value(digits.take(i as int)),
            value <= u32::MAX,
        decreases n - 1 - i,
    {
        let c = s.get_char(i);
        assert(digits.take(i as int + 1).drop_last() =~= digits.take(i as int));
        if c < '0' || c > '9' {
            assert(digits[i as int] == c);
            assert(!all_digits(digits));
            return Err(IntervalParseError::InvalidMagnitude);
        }
        let d: u64 = (c as u64) - ('0' as u64);
        value = value * 10 + d;
        i = i + 1;
        assert(all_digits(digits.take(i as int)));
        if value > u32::MAX as u64 {
            proof {
                if all_digits(digits) {
                    lemma_digits_value_grows(digits, i as int);
                }
            }
            return Err(IntervalParseError::InvalidMagnitude);
        }
    }
    assert(digits.take(i as int) =~= digits);
    if value == 0 {
        return Err(IntervalParseError::InvalidMagnitude);
    }
    Ok(CandleInterval { unit, magnitude: value as u32 })
}

/// The value of a digit string is at least that of each of its prefixes.
pub proof fn lemma_digits_value_grows(s: Seq<char>, k: int)
    requires
        0 <= k <= s.len(),
        all_digits(s),
    ensures
        digits_value(s) >= digits_value(s.take(k)),
    decreases s.len(),
{
    if k < s.len() {
        assert(s.drop_last().take(k) =~= s.take(k));
        assert(all_digits(s.drop_last()));
        lemma_digits_value_grows(s.drop_last(), k);
        lemma_digits_value_nonneg(s.drop_last());
    } else {
        assert(s.take(k) =~= s);
    }
}

pub proof fn lemma_digits_value_nonneg(s: Seq<char>)
    requires
        all_digits(s),
    ensures
        digits_value(s) >= 0,
    decreases s.len(),
{
    if s.len() > 0 {
        assert(all_digits(s.drop_last()));
        lemma_digits_value_nonneg(s.drop_last());
    }
}

} // verus!
