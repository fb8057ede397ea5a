use cryptop::candle::{Candle, PRICE_SCALE};
use cryptop::config::Config;
use cryptop::interval::{parse_candle_interval, CandleInterval, IntervalParseError, TimeUnit, WallClock};
use cryptop::market::{MarketData, MarketError, INITIAL_CANDLE_NUM};

const MINUTE_MS: i64 = 60_000;

fn fixed(p: f64) -> u64 {
    (p * PRICE_SCALE as f64).round() as u64
}

fn candle(open_time: i64, close: f64) -> Candle {
    let c = fixed(close);
    Candle {
        open_time,
        close_time: open_time + 15 * MINUTE_MS - 1,
        open: c,
        high: c,
        low: c,
        close: c,
        volume: 0,
    }
}

fn config(interval: &str) -> Config {
    Config { symbol: "ETHUSDT".to_string(), candle_interval: interval.to_string() }
}

fn window(n: usize) -> Vec<Candle> {
    (0..n).map(|i| candle(i as i64 * 15 * MINUTE_MS, 100.0 + i as f64)).collect()
}

fn at_minute(minute: u32) -> WallClock {
    WallClock { minute, hour: 10, day: 3 }
}

fn series_15m() -> MarketData {
    MarketData::new(config("15m"), fixed(100.5), window(INITIAL_CANDLE_NUM as usize)).unwrap()
}

#[test]
fn bootstrap_seeds_series_and_plot() {
    let klines = window(32);
    let m = MarketData::new(config("15m"), fixed(100.5), klines.clone()).unwrap();
    assert_eq!(m.klines.len(), 32);
    assert_eq!(m.price, 10_050_000_000);
    assert_eq!(m.price_and_time_plot_data.len(), 32);
    for (k, p) in klines.iter().zip(m.price_and_time_plot_data.iter()) {
        assert_eq!(*p, (k.close_time, k.close));
    }
    assert!(m.received_new_kline);
    assert_eq!(m.current_candle_interval, CandleInterval { unit: TimeUnit::Minute, magnitude: 15 });
}

#[test]
fn bootstrap_rejects_bad_interval() {
    let r = MarketData::new(config("abc"), 1, window(3));
    assert!(matches!(r, Err(MarketError::Interval(IntervalParseError::UnknownUnit))));
}

#[test]
fn bootstrap_rejects_empty_window() {
    let r = MarketData::new(config("15m"), 1, Vec::new());
    assert!(matches!(r, Err(MarketError::EmptyWindow)));
}

#[test]
fn bootstrap_rejects_unordered_window() {
    let mut klines = window(3);
    klines.swap(0, 2);
    let r = MarketData::new(config("15m"), 1, klines);
    assert!(matches!(r, Err(MarketError::UnorderedWindow)));
    let dup = vec![candle(0, 1.0), candle(0, 2.0)];
    assert!(matches!(MarketData::new(config("15m"), 1, dup), Err(MarketError::UnorderedWindow)));
}

#[test]
fn min_max_scan_first_match_wins() {
    let klines: Vec<Candle> = [5.0, 1.0, 9.0, 1.0]
        .iter()
        .enumerate()
        .map(|(i, p)| candle(i as i64 * 15 * MINUTE_MS, *p))
        .collect();
    assert_eq!(MarketData::min_max_price(&klines), (fixed(1.0), fixed(9.0)));
}

#[test]
fn min_max_single_candle_sets_only_min() {
    let klines = vec![candle(0, 5.0)];
    assert_eq!(MarketData::min_max_price(&klines), (fixed(5.0), 0));
}

#[test]
fn min_max_empty() {
    assert_eq!(MarketData::min_max_price(&Vec::new()), (u64::MAX, 0));
}

#[test]
fn plot_data_projection() {
    let klines = vec![candle(0, 1.5), candle(15 * MINUTE_MS, 2.25)];
    let plot = MarketData::get_price_and_time_plot_data(&klines);
    assert_eq!(plot, vec![(15 * MINUTE_MS - 1, 150_000_000), (30 * MINUTE_MS - 1, 225_000_000)]);
    assert!(MarketData::get_price_and_time_plot_data(&Vec::new()).is_empty());
}

#[test]
fn interval_parsing() {
    assert_eq!(
        parse_candle_interval("15m"),
        Ok(CandleInterval { unit: TimeUnit::Minute, magnitude: 15 })
    );
    assert_eq!(parse_candle_interval("1h"), Ok(CandleInterval { unit: TimeUnit::Hour, magnitude: 1 }));
    assert_eq!(parse_candle_interval("3d"), Ok(CandleInterval { unit: TimeUnit::Day, magnitude: 3 }));
    assert!(parse_candle_interval("abc").is_err());
}

#[test]
fn interval_parse_errors() {
    assert_eq!(parse_candle_interval(""), Err(IntervalParseError::Empty));
    assert_eq!(parse_candle_interval("abc"), Err(IntervalParseError::UnknownUnit));
    assert_eq!(parse_candle_interval("1W"), Err(IntervalParseError::UnsupportedUnit));
    assert_eq!(parse_candle_interval("1M"), Err(IntervalParseError::UnsupportedUnit));
    assert_eq!(parse_candle_interval("m"), Err(IntervalParseError::InvalidMagnitude));
    assert_eq!(parse_candle_interval("0m"), Err(IntervalParseError::InvalidMagnitude));
    assert_eq!(parse_candle_interval("1x5m"), Err(IntervalParseError::InvalidMagnitude));
    assert_eq!(parse_candle_interval("4294967296m"), Err(IntervalParseError::InvalidMagnitude));
    assert_eq!(
        parse_candle_interval("4294967295m"),
        Ok(CandleInterval { unit: TimeUnit::Minute, magnitude: u32::MAX })
    );
}

#[test]
fn watch_element_follows_unit() {
    let now = WallClock { minute: 7, hour: 13, day: 21 };
    let m = series_15m();
    assert_eq!(m.get_time_element_to_watch(&now), 7);
    let h = MarketData::new(config("4h"), 1, window(2)).unwrap();
    assert_eq!(h.get_time_element_to_watch(&now), 13);
    let d = MarketData::new(config("1d"), 1, window(2)).unwrap();
    assert_eq!(d.get_time_element_to_watch(&now), 21);
    let last = WallClock { minute: 59, hour: 23, day: 31 };
    assert_eq!(m.get_time_element_to_watch(&last), 59);
    assert_eq!(h.get_time_element_to_watch(&last), 23);
    assert_eq!(d.get_time_element_to_watch(&last), 31);
}

#[test]
fn boundary_ticks_after_merge_fetch_nothing() {
    let mut m = series_15m();
    assert!(!m.update(&at_minute(14)));
    assert!(!m.received_new_kline);
    assert!(m.update(&at_minute(15)));
    let fresh = candle(32 * 15 * MINUTE_MS, 140.0);
    assert!(m.receive_latest_kline(fresh));
    assert_eq!(m.klines.len(), 33);
    for _ in 0..10 {
        assert!(!m.update(&at_minute(15)));
    }
    assert_eq!(m.klines.len(), 33);
    assert!(m.received_new_kline);
}

#[test]
fn stale_candle_at_boundary_is_retried() {
    let mut m = series_15m();
    m.update(&at_minute(29));
    let last = *m.klines.last().unwrap();
    let plot_before = m.price_and_time_plot_data.clone();
    assert!(m.update(&at_minute(30)));
    let stale = candle(last.open_time, 200.0);
    assert!(!m.receive_latest_kline(stale));
    assert!(!m.received_new_kline);
    assert_eq!(m.klines.len(), 32);
    assert_eq!(m.price_and_time_plot_data, plot_before);
    assert!(m.update(&at_minute(30)));
    let fresh = candle(last.open_time + 15 * MINUTE_MS, 201.0);
    assert!(m.receive_latest_kline(fresh));
    assert!(m.received_new_kline);
    assert_eq!(m.klines.len(), 33);
    assert_eq!(*m.klines.last().unwrap(), fresh);
    assert_eq!(m.price_and_time_plot_data.len(), 33);
    assert_eq!(*m.price_and_time_plot_data.last().unwrap(), (last.close_time, last.close));
}

#[test]
fn older_candle_is_not_merged() {
    let mut m = series_15m();
    m.received_new_kline = false;
    assert!(!m.receive_latest_kline(candle(0, 1.0)));
    assert_eq!(m.klines.len(), 32);
}

#[test]
fn leaving_boundary_rearms_detector() {
    let mut m = series_15m();
    assert!(m.received_new_kline);
    assert!(!m.update(&at_minute(1)));
    assert!(!m.received_new_kline);
    assert!(!m.update(&at_minute(2)));
    assert!(!m.received_new_kline);
    assert!(m.update(&at_minute(0)));
}

#[test]
fn open_times_stay_unique_over_ticks() {
    let mut m = series_15m();
    let mut next = 32 * 15 * MINUTE_MS;
    for minute in 0..120u32 {
        if m.update(&at_minute(minute % 60)) {
            let offered = if minute % 2 == 0 { *m.klines.last().unwrap() } else { candle(next, 1.0) };
            if m.receive_latest_kline(offered) {
                next += 15 * MINUTE_MS;
            }
        }
    }
    assert!(m.klines.windows(2).all(|w| w[0].open_time < w[1].open_time));
    assert!(m.klines.len() > 32);
}

#[test]
fn set_price_replaces_price() {
    let mut m = series_15m();
    m.set_price(fixed(2031.25));
    assert_eq!(m.price, 203_125_000_000);
    assert_eq!(m.klines.len(), 32);
}
