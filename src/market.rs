use vstd::prelude::*;
use crate::candle::{
    Candle, check_open_times_increasing, open_times_increasing, plot_point, plot_projection,
    scan_min_max,
};
use crate::config::Config;
use crate::interval::{
    CandleInterval, IntervalParseError, TimeUnit, WallClock, interval_of, on_boundary,
    parse_candle_interval, watch_element,
};

verus! {

/// Number of candles that the series is seeded with.
pub const INITIAL_CANDLE_NUM: u16 = 32;

/// Why a series could not be set up.
#[derive(Clone, Copy, Debug, PartialEq, Eq, Structural)]
pub enum MarketError {
    /// The configured interval string is malformed.
    Interval(IntervalParseError),
    /// The initial window holds no candle.
    EmptyWindow,
    /// The open times of the initial window do not rise strictly.
    UnorderedWindow,
}

/// The rolling candle series of one trading pair, its latest price, and the
/// state of the new-candle detector.
///
/// The host drives it once a tick: `update` with the wall clock says whether
/// the latest candle is to be fetched, `receive_latest_kline` merges a
/// fetched candle, and `set_price` records the fetched price.
pub struct MarketData {
    pub config: Config,
    pub price: u64,
    pub klines: Vec<Candle>,
    pub current_candle_interval: CandleInterval,
    /// The candle of the current boundary has been merged.
    pub received_new_kline: bool,
    pub price_and_time_plot_data: Vec<(i64, u64)>,
}

/// A fetched candle is new when it opens after the last candle of the series.
pub open spec fn is_newer(series: Seq<Candle>, c: Candle) -> bool {
    c.open_time > series.last().open_time
}

/// The series after a fetched latest candle is offered to it.
pub open spec fn merge_latest(series: Seq<Candle>, c: Candle) -> Seq<Candle> {
    if is_newer(series, c) {
        series.push(c)
    } else {
        series
    }
}

/// On this tick the latest candle is to be fetched.
pub open spec fn needs_fetch(iv: CandleInterval, received: bool, now: WallClock) -> bool {
    on_boundary(iv, now) && !received
}

/// The detector flag after `update` at `now`: kept on a boundary, cleared off one.
pub open spec fn flag_after_update(iv: CandleInterval, received: bool, now: WallClock) -> bool {
    on_boundary(iv, now) && received
}

/// One whole tick at `now` on (series, flag), where `fetched` is what the
/// source returns if the latest candle is asked for.
pub open spec fn tick(
    iv: CandleInterval,
    series: Seq<Candle>,
    received: bool,
    now: WallClock,
    fetched: Candle,
) -> (Seq<Candle>, bool) {
    if needs_fetch(iv, received, now) {
        (merge_latest(series, fetched), is_newer(series, fetched))
    } else {
        (series, flag_after_update(iv, received, now))
    }
}

/// (series, flag) after the ticks in order; each tick is a clock reading and
/// the candle the source would return on it.
pub open spec fn run_ticks(
    iv: CandleInterval,
    series: Seq<Candle>,
    received: bool,
    ticks: Seq<(WallClock, Candle)>,
) -> (Seq<Candle>, bool)
    decreases ticks.len(),
{
    if ticks.len() == 0 {
        (series, received)
    } else {
        let (s, r) = run_ticks(iv, series, received, ticks.drop_last());
        tick(iv, s, r, ticks.last().0, ticks.last().1)
    }
}

/// Why the initial window and interval string are refused, if they are.
pub open spec fn bootstrap_error(interval: Seq<char>, klines: Seq<Candle>) -> Option<MarketError> {
    match interval_of(interval) {
        Err(e) => Some(MarketError::Interval(e)),
        Ok(_) => if klines.len() == 0 {
            Some(MarketError::EmptyWindow)
        } else if !open_times_increasing(klines) {
            Some(MarketError::UnorderedWindow)
        } else {
            None
        },
    }
}

impl MarketData {
    /// A non-empty series whose open times rise strictly, and a usable interval.
    pub open spec fn wf(&self) -> bool {
        &&& self.klines@.len() > 0
        &&& open_times_increasing(self.klines@)
        &&& self.current_candle_interval.valid()
    }

    /// Sets up the series from the configuration, the fetched price and the
    /// fetched initial window of candles (oldest first).
    pub fn new(config: Config, price: u64, klines: Vec<Candle>) -> (r: Result<
        MarketData,
        MarketError,
    >)
        ensures
            match r {
                Err(e) => bootstrap_error(config.candle_interval@, klines@) == Some(e),
                Ok(m) => {
                    &&& bootstrap_error(config.candle_interval@, klines@) is None
                    &&& m.wf()
                    &&& m.config == config
                    &&& m.price == price
                    &&& m.klines@ == klines@
                    &&& m.price_and_time_plot_data@ == plot_projection(klines@)
                    &&& interval_of(config.candle_interval@) == Ok::<CandleInterval, IntervalParseError>(m.current_candle_interval)
                    &&& m.received_new_kline
                },
            },
    {
        let current_candle_interval = match parse_candle_interval(config.candle_interval.as_str()) {
            Ok(iv) => iv,
            Err(e) => return Err(MarketError::Interval(e)),
        };
        if klines.len() == 0 {
            return Err(MarketError::EmptyWindow);
        }
        if !check_open_times_increasing(&klines) {
            return Err(MarketError::UnorderedWindow);
        }
        let price_and_time_plot_data = Self::get_price_and_time_plot_data(&klines);
        Ok(MarketData {
            config,
            price,
            klines,
            current_candle_interval,
            received_new_kline: true,
            price_and_time_plot_data,
        })
    }

    /// First half of a tick: runs the new-candle detector at `now` and says
    /// whether the latest candle is to be fetched and handed to
    /// `receive_latest_kline`. Off a boundary the detector is re-armed.
    pub fn update(&mut self, now: &WallClock) -> (fetch: bool)
        requires
            old(self).wf(),
            now.wf(),
        ensures
            final(self).wf(),
            fetch == needs_fetch(old(self).current_candle_interval, old(self).received_new_kline, *now),
            final(self).received_new_kline == flag_after_update(
                old(self).current_candle_interval,
                old(self).received_new_kline,
                *now,
            ),
            final(self).klines@ == old(self).klines@,
            final(self).price_and_time_plot_data@ == old(self).price_and_time_plot_data@,
            final(self).price == old(self).price,
            final(self).config == old(self).config,
            final(self).current_candle_interval == old(self).current_candle_interval,
    {
        let element = self.get_time_element_to_watch(now);
        if element % self.current_candle_interval.magnitude == 0 {
            !self.received_new_kline
        } else {
            self.received_new_kline = false;
            false
        }
    }

    /// Second half of a tick: merges the fetched latest candle when it opens
    /// after the last one held. The candle it displaces becomes a plot point,
    /// and the detector records the boundary as served. A candle that is not
    /// newer (the source has not closed the period yet) changes nothing, so
    /// the next tick asks again.
    pub fn receive_latest_kline(&mut self, latest: Candle) -> (appended: bool)
        requires
            old(self).wf(),
        ensures
            final(self).wf(),
            appended == is_newer(old(self).klines@, latest),
            final(self).klines@ == merge_latest(old(self).klines@, latest),
            final(self).price_and_time_plot_data@ == if appended {
                old(self).price_and_time_plot_data@.push(plot_point(old(self).klines@.last()))
            } else {
                old(self).price_and_time_plot_data@
            },
            final(self).received_new_kline == (old(self).received_new_kline || appended),
            final(self).price == old(self).price,
            final(self).config == old(self).config,
            final(self).current_candle_interval == old(self).current_candle_interval,
    {
        let last = self.klines[self.klines.len() - 1];
        if latest.open_time > last.open_time {
            self.received_new_kline = true;
            self.price_and_time_plot_data.push((last.close_time, last.close));
            self.klines.push(latest);
            proof {
                lemma_push_newer_keeps_order(old(self).klines@, latest);
            }
            true
        } else {
            false
        }
    }

    /// Records the latest fetched price.
    pub fn set_price(&mut self, price: u64)
        requires
            old(self).wf(),
        ensures
            final(self).wf(),
            final(self).price == price,
            final(self).klines@ == old(self).klines@,
            final(self).price_and_time_plot_data@ == old(self).price_and_time_plot_data@,
            final(self).received_new_kline == old(self).received_new_kline,
            final(self).config == old(self).config,
            final(self).current_candle_interval == old(self).current_candle_interval,
    {
        self.price = price;
    }

    /// The clock field that candles of the tracked interval close on.
    pub fn get_time_element_to_watch(&self, now: &WallClock) -> (r: u32)
        requires
            now.wf(),
        ensures
            r == watch_element(self.current_candle_interval.unit, *now),
            self.current_candle_interval.unit == TimeUnit::Minute ==> r < 60,
            self.current_candle_interval.unit == TimeUnit::Hour ==> r < 24,
            self.current_candle_interval.unit == TimeUnit::Day ==> 1 <= r <= 31,
    {
        match self.current_candle_interval.unit {
            TimeUnit::Minute => now.minute,
            TimeUnit::Hour => now.hour,
            TimeUnit::Day => now.day,
        }
    }

    /// The plot point (close time, close price) of each candle, in order.
    pub fn get_price_and_time_plot_data(klines: &Vec<Candle>) -> (r: Vec<(i64, u64)>)
        ensures
            r@ == plot_projection(klines@),
    {
        let mut out: Vec<(i64, u64)> = Vec::with_capacity(klines.len());
        let mut i: usize = 0;
        while i < klines.len()
            invariant
                i <= klines@.len(),
                out@ == plot_projection(klines@.take(i as int)),
            decreases klines@.len() - i,
        {
            let k = klines[i];
            out.push((k.close_time, k.close));
            i = i + 1;
            assert(out@ =~= plot_projection(klines@.take(i as int)));
        }
        assert(klines@.take(i as int) =~= klines@);
        out
    }

    /// The (minimum, maximum) close price by the scan of `scan_min_max`.
    pub fn min_max_price(klines: &Vec<Candle>) -> (r: (u64, u64))
        ensures
            r == scan_min_max(klines@),
    {
        let mut lo: u64 = u64::MAX;
        let mut hi: u64 = 0;
        let mut i: usize = 0;
        while i < klines.len()
            invariant
                i <= klines@.len(),
                (lo, hi) == scan_min_max(klines@.take(i as int)),
            decreases klines@.len() - i,
        {
            let c = klines[i].close;
            assert(klines@.take(i as int + 1).drop_last() =~= klines@.take(i as int));
            if c < lo {
                lo = c;
            } else if c > hi {
                hi = c;
            }
            i = i + 1;
        }
        assert(klines@.take(i as int) =~= klines@);
        (lo, hi)
    }
}

/// Appending a candle that opens after the last one keeps open times rising.
proof fn lemma_push_newer_keeps_order(series: Seq<Candle>, c: Candle)
    requires
        series.len() > 0,
        open_times_increasing(series),
        is_newer(series, c),
    ensures
        open_times_increasing(series.push(c)),
{
    let t = series.push(c);
    assert forall|i: int, j: int| 0 <= i < j < t.len() implies t[i].open_time
        < t[j].open_time by {
        if j == series.len() {
            if i < series.len() - 1 {
                assert(series[i].open_time < series[series.len() - 1].open_time);
            }
        }
    }
}

/// A tick of the model is what the calls make of the state: `update` at
/// `now`, then, where it asks for the latest candle, `receive_latest_kline`
/// with the fetched one.
pub proof fn lemma_tick_is_update_then_receive(
    iv: CandleInterval,
    series: Seq<Candle>,
    received: bool,
    now: WallClock,
    fetched: Candle,
)
    ensures
        needs_fetch(iv, received, now) ==> tick(iv, series, received, now, fetched) == (
            merge_latest(series, fetched),
            flag_after_update(iv, received, now) || is_newer(series, fetched),
        ),
        !needs_fetch(iv, received, now) ==> tick(iv, series, received, now, fetched) == (
            series,
            flag_after_update(iv, received, now),
        ),
{
}

/// Through any sequence of ticks the series stays non-empty and its open times
/// keep rising strictly, so no two candles ever share an open time.
pub proof fn lemma_ticks_keep_open_times_increasing(
    iv: CandleInterval,
    series: Seq<Candle>,
    received: bool,
    ticks: Seq<(WallClock, Candle)>,
)
    requires
        series.len() > 0,
        open_times_increasing(series),
    ensures
        run_ticks(iv, series, received, ticks).0.len() > 0,
        open_times_increasing(run_ticks(iv, series, received, ticks).0),
    decreases ticks.len(),
{
    if ticks.len() > 0 {
        lemma_ticks_keep_open_times_increasing(iv, series, received, ticks.drop_last());
        let (s, r) = run_ticks(iv, series, received, ticks.drop_last());
        if is_newer(s, ticks.last().1) {
            lemma_push_newer_keeps_order(s, ticks.last().1);
        }
    }
}

/// In a series whose open times rise strictly, distinct positions hold
/// distinct open times.
pub proof fn lemma_open_times_unique(series: Seq<Candle>)
    requires
        open_times_increasing(series),
    ensures
        forall|i: int, j: int|
            0 <= i < series.len() && 0 <= j < series.len() && i != j ==> series[i].open_time
                != series[j].open_time,
{
    assert forall|i: int, j: int|
        0 <= i < series.len() && 0 <= j < series.len() && i != j implies series[i].open_time
        != series[j].open_time by {
        if i < j {
            assert(series[i].open_time < series[j].open_time);
        } else {
            assert(series[j].open_time < series[i].open_time);
        }
    }
}

/// Once the candle of a boundary has been merged (the flag is set), further
/// ticks that stay on the boundary ask for no candle, and leave the series
/// and the flag as they are.
pub proof fn lemma_boundary_ticks_idempotent(
    iv: CandleInterval,
    series: Seq<Candle>,
    ticks: Seq<(WallClock, Candle)>,
)
    requires
        forall|i: int| 0 <= i < ticks.len() ==> on_boundary(iv, #[trigger] ticks[i].0),
    ensures
        run_ticks(iv, series, true, ticks) == (series, true),
        forall|i: int|
            0 <= i < ticks.len() ==> !needs_fetch(
                iv,
                #[trigger] run_ticks(iv, series, true, ticks.take(i)).1,
                ticks[i].0,
            ),
    decreases ticks.len(),
{
    if ticks.len() > 0 {
        let prefix = ticks.drop_last();
        assert forall|i: int| 0 <= i < prefix.len() implies on_boundary(iv, #[trigger] prefix[i].0) by {
            assert(prefix[i] == ticks[i]);
        }
        lemma_boundary_ticks_idempotent(iv, series, prefix);
        assert(on_boundary(iv, ticks[ticks.len() - 1].0));
        assert forall|i: int| 0 <= i < ticks.len() implies !needs_fetch(
            iv,
            #[trigger] run_ticks(iv, series, true, ticks.take(i)).1,
            ticks[i].0,
        ) by {
            if i < prefix.len() {
                assert(ticks.take(i) =~= prefix.take(i));
                assert(prefix[i] == ticks[i]);
            } else {
                assert(ticks.take(i) =~= prefix);
            }
        }
    }
}

/// On a boundary, a fetched candle that opens when the last one held does
/// (the source has not closed the period yet) leaves the series alone and the
/// detector armed; a later tick on the boundary that fetches a newer candle
/// appends exactly that candle and sets the flag.
pub proof fn lemma_skew_tolerance(
    iv: CandleInterval,
    series: Seq<Candle>,
    now1: WallClock,
    stale: Candle,
    now2: WallClock,
    fresh: Candle,
)
    requires
        series.len() > 0,
        on_boundary(iv, now1),
        on_boundary(iv, now2),
        stale.open_time == series.last().open_time,
        is_newer(series, fresh),
    ensures
        tick(iv, series, false, now1, stale) == (series, false),
        run_ticks(iv, series, false, seq![(now1, stale), (now2, fresh)]) == (series.push(fresh), true),
{
    let one = seq![(now1, stale)];
    let two = seq![(now1, stale), (now2, fresh)];
    assert(two.drop_last() =~= one);
    assert(one.drop_last() =~= Seq::<(WallClock, Candle)>::empty());
    assert(run_ticks(iv, series, false, one.drop_last()) == (series, false));
    assert(one.last() == (now1, stale));
    assert(run_ticks(iv, series, false, one) == (series, false));
    assert(two.last() == (now2, fresh));
    assert(run_ticks(iv, series, false, two) == tick(iv, series, false, now2, fresh));
}

/// A tick off a boundary asks for no candle, keeps the series, and clears the
/// flag whatever it was.
pub proof fn lemma_rearm_off_boundary(
    iv: CandleInterval,
    series: Seq<Candle>,
    received: bool,
    now: WallClock,
    fetched: Candle,
)
    requires
        !on_boundary(iv, now),
    ensures
        !needs_fetch(iv, received, now),
        tick(iv, series, received, now, fetched) == (series, false),
{
}

} // verus!
