use vstd::prelude::*;
use crate::interval::{all_digits, digits_value, is_digit, lemma_digits_value_grows, lemma_digits_value_nonneg};

verus! {

/// One candlestick. Times are milliseconds since the Unix epoch; prices and
/// volume are fixed-point amounts in units of `PRICE_SCALE`ths.
#[derive(Clone, Copy, Debug, PartialEq, Eq, Structural)]
pub struct Candle {
    pub open_time: i64,
    pub close_time: i64,
    pub open: u64,
    pub high: u64,
    pub low: u64,
    pub close: u64,
    pub volume: u64,
}

/// Number of fixed-point units in one whole unit of price or volume.
pub const PRICE_SCALE: u64 = 100_000_000;

/// Open times rise strictly from each candle to the next.
pub open spec fn open_times_increasing(s: Seq<Candle>) -> bool {
    forall|i: int, j: int| 0 <= i < j < s.len() ==> s[i].open_time < s[j].open_time
}

/// The plot point of a candle: its close time and close price.
pub open spec fn plot_point(c: Candle) -> (i64, u64) {
    (c.close_time, c.close)
}

/// The plot point of each candle, in order.
pub open spec fn plot_projection(s: Seq<Candle>) -> Seq<(i64, u64)> {
    s.map_values(|c: Candle| plot_point(c))
}

/// The (minimum, maximum) that a scan of the close prices in order yields,
/// starting from (`u64::MAX`, 0). A price that lowers the minimum is not also
/// tried against the maximum, so the first candle of a series sets only the
/// minimum.
pub open spec fn scan_min_max(s: Seq<Candle>) -> (u64, u64)
    decreases s.len(),
{
    if s.len() == 0 {
        (u64::MAX, 0)
    } else {
        let (lo, hi) = scan_min_max(s.drop_last());
        let c = s.last().close;
        if c < lo {
            (c, hi)
        } else if c > hi {
            (lo, c)
        } else {
            (lo, hi)
        }
    }
}

/// Whether the open times of `klines` rise strictly.
pub fn check_open_times_increasing(klines: &Vec<Candle>) -> (r: bool)
    ensures
        r == open_times_increasing(klines@),
{
    let n = klines.len();
    if n == 0 {
        return true;
    }
    let mut i: usize = 1;
    while i < n
        invariant
            n == klines@.len(),
            1 <= i <= n,
            open_times_increasing(klines@.take(i as int)),
        decreases n - i,
    {
        if klines[i - 1].open_time >= klines[i].open_time {
            return false;
        }
        assert(open_times_increasing(klines@.take(i as int + 1))) by {
            let t = klines@.take(i as int + 1);
            assert forall|a: int, b: int| 0 <= a < b < t.len() implies t[a].open_time
                < t[b].open_time by {
                assert(klines@.take(i as int)[a] == t[a]);
                if b < i {
                    assert(klines@.take(i as int)[b] == t[b]);
                } else if a < i - 1 {
                    assert(klines@.take(i as int)[i - 1] == t[i - 1]);
                }
            }
        }
        i = i + 1;
    }
    assert(klines@.take(n as int) =~= klines@);
    true
}

/// Most digits that a price may carry after its decimal point.
pub const PRICE_DECIMALS: usize = 8;

pub open spec fn pow10(n: nat) -> int
    decreases n,
{
    if n == 0 {
        1
    } else {
        10 * pow10((n - 1) as nat)
    }
}

/// `s` is `<digits>.<digits>` split at `k`, with one to `PRICE_DECIMALS`
/// digits after the point.
pub open spec fn decimal_split(s: Seq<char>, k: int) -> bool {
    &&& 0 < k < s.len() - 1
    &&& s[k] == '.'
    &&& all_digits(s.take(k))
    &&& all_digits(s.skip(k + 1))
    &&& s.len() - k - 1 <= PRICE_DECIMALS
}

/// The fixed-point amount that a decimal string such as `"1804.25000000"` or
/// `"17"` denotes, if it is one.
pub open spec fn decimal_of(s: Seq<char>) -> Option<int> {
    if s.len() > 0 && all_digits(s) {
        Some(digits_value(s) * PRICE_SCALE)
    } else if exists|k: int| decimal_split(s, k) {
        let k = choose|k: int| decimal_split(s, k);
        let frac = s.skip(k + 1);
        Some(digits_value(s.take(k)) * PRICE_SCALE + digits_value(frac) * pow10(
            (PRICE_DECIMALS - frac.len()) as nat,
        ))
    } else {
        None
    }
}

/// Reads a decimal price or volume as a fixed-point amount; `None` where the
/// text is not a decimal number or the amount does not fit in `u64`.
pub fn parse_decimal(s: &str) -> (r: Option<u64>)
    ensures
        match decimal_of(s@) {
            Some(v) => if v <= u64::MAX {
                r == Some(v as u64)
            } else {
                r is None
            },
            None => r is None,
        },
{
    let n = s.unicode_len();
    let ghost t = s@;
    let mut i: usize = 0;
    let mut whole: u128 = 0;
    while i < n
        invariant
            t == s@,
            n == t.len(),
            i <= n,
            all_digits(t.take(i as int)),
            whole as int == digits_value(t.take(i as int)),
            whole <= u64::MAX,
        ensures
            i <= n,
            all_digits(t.take(i as int)),
            whole as int == digits_value(t.take(i as int)),
            whole <= u64::MAX,
            i < n ==> !is_digit(t[i as int]),
        decreases n - i,
    {
        let c = s.get_char(i);
        if c < '0' || c > '9' {
            break;
        }
        assert(t.take(i as int + 1).drop_last() =~= t.take(i as int));
        whole = whole * 10 + ((c as u128) - ('0' as u128));
        i = i + 1;
        assert(all_digits(t.take(i as int)));
        if whole > u64::MAX as u128 {
            proof {
                lemma_split_is_first_non_digit(t, i as int);
                if all_digits(t) && t.len() > 0 {
                    lemma_digits_value_grows(t, i as int);
                } else if exists|k: int| decimal_split(t, k) {
                    let k = choose|k: int| decimal_split(t, k);
                    assert(t.take(k).take(i as int) =~= t.take(i as int));
                    lemma_digits_value_grows(t.take(k), i as int);
                    lemma_digits_value_nonneg(t.skip(k + 1));
                    lemma_pow10_positive((PRICE_DECIMALS - t.skip(k + 1).len()) as nat);
                    assert(digits_value(t.skip(k + 1)) * pow10(
                        (PRICE_DECIMALS - t.skip(k + 1).len()) as nat,
                    ) >= 0) by (nonlinear_arith)
                        requires
                            digits_value(t.skip(k + 1)) >= 0,
                            pow10((PRICE_DECIMALS - t.skip(k + 1).len()) as nat) > 0,
                    ;
                }
            }
            return None;
        }
    }
    if i == 0 {
        proof {
            lemma_split_is_first_non_digit(t, 0);
        }
        return None;
    }
    if i == n {
        assert(t.take(i as int) =~= t);
        let v = whole * (PRICE_SCALE as u128);
        if v > u64::MAX as u128 {
            return None;
        }
        return Some(v as u64);
    }
    proof {
        lemma_split_is_first_non_digit(t, i as int);
    }
    if s.get_char(i) != '.' {
        return None;
    }
    let k = i;
    if n - k - 1 == 0 || n - k - 1 > PRICE_DECIMALS {
        assert(!decimal_split(t, k as int));
        return None;
    }
    let mut j: usize = k + 1;
    let mut frac: u128 = 0;
    while j < n
        invariant
            t == s@,
            n == t.len(),
            k < n,
            k + 1 <= j <= n,
            !all_digits(t),
            forall|k2: int| #[trigger] decimal_split(t, k2) ==> k2 == k,
            n - k - 1 <= PRICE_DECIMALS,
            all_digits(t.subrange(k + 1, j as int)),
            frac as int == digits_value(t.subrange(k + 1, j as int)),
            frac < pow10((j - k - 1) as nat),
        decreases n - j,
    {
        let c = s.get_char(j);
        if c < '0' || c > '9' {
            assert(t.skip(k as int + 1)[j - k - 1] == c);
            assert(!decimal_split(t, k as int));
            return None;
        }
        assert(t.subrange(k + 1, j as int + 1).drop_last() =~= t.subrange(k + 1, j as int));
        proof {
            lemma_pow10_bound((j - k - 1) as nat);
        }
        frac = frac * 10 + ((c as u128) - ('0' as u128));
        j = j + 1;
        assert(all_digits(t.subrange(k + 1, j as int)));
    }
    assert(t.subrange(k + 1, n as int) =~= t.skip(k + 1));
    assert(decimal_split(t, k as int));
    let mut scale: u128 = 1;
    let mut e: usize = n - k - 1;
    while e < PRICE_DECIMALS
        invariant
            k < n,
            1 <= n - k - 1 <= e <= PRICE_DECIMALS,
            scale as int == pow10((e - (n - k - 1)) as nat),
            scale <= 100_000_000,
        decreases PRICE_DECIMALS - e,
    {
        proof {
            lemma_pow10_bound((e - (n - k - 1)) as nat);
            lemma_pow10_bound((e + 1 - (n - k - 1)) as nat);
        }
        scale = scale * 10;
        e = e + 1;
    }
    proof {
        lemma_pow10_bound((n - k - 1) as nat);
    }
    assert(frac * scale <= 100_000_000 * 100_000_000) by (nonlinear_arith)
        requires
            frac <= 100_000_000,
            scale <= 100_000_000,
    ;
    assert(whole * 100_000_000 <= u64::MAX * 100_000_000) by (nonlinear_arith)
        requires
            whole <= u64::MAX,
    ;
    let v = whole * (PRICE_SCALE as u128) + frac * scale;
    if v > u64::MAX as u128 {
        return None;
    }
    Some(v as u64)
}

/// Where `t` opens with `i` digits, a decimal split stands at `i` or later,
/// and where the digits stop at `i`, only there.
proof fn lemma_split_is_first_non_digit(t: Seq<char>, i: int)
    requires
        0 <= i <= t.len(),
        all_digits(t.take(i)),
    ensures
        forall|k: int| #[trigger] decimal_split(t, k) ==> k >= i,
        i < t.len() && !is_digit(t[i]) ==> !all_digits(t),
        i < t.len() && !is_digit(t[i]) ==> forall|k: int| #[trigger] decimal_split(t, k) ==> k == i,
{
    assert forall|k: int| #[trigger] decimal_split(t, k) implies k >= i by {
        if k < i {
            assert(t.take(i)[k] == t[k]);
        }
    }
    if i < t.len() && !is_digit(t[i]) {
        assert(!is_digit(t[i]));
        assert forall|k: int| #[trigger] decimal_split(t, k) implies k == i by {
            if k > i {
                assert(t.take(k)[i] == t[i]);
            }
        }
    }
}

proof fn lemma_pow10_positive(n: nat)
    ensures
        pow10(n) > 0,
    decreases n,
{
    if n > 0 {
        lemma_pow10_positive((n - 1) as nat);
    }
}

proof fn lemma_pow10_bound(n: nat)
    requires
        n <= PRICE_DECIMALS,
    ensures
        1 <= pow10(n) <= 100_000_000,
        n < PRICE_DECIMALS ==> pow10(n) * 10 <= 100_000_000,
        n > 0 ==> pow10(n) == 10 * pow10((n - 1) as nat),
{
    reveal_with_fuel(pow10, 9);
    assert(n == 0 || n == 1 || n == 2 || n == 3 || n == 4 || n == 5 || n == 6 || n == 7 || n == 8);
}

} // verus!
