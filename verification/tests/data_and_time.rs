use stock_tracker::clock::{calendar_window, is_representable, needs_refresh, Instant, CACHE_MAX_AGE_SECS, WINDOW_DAYS};
use stock_tracker::holdings::{any_priced, PriceCache};
use stock_tracker::numfmt::{with_plus, with_thousands};
use stock_tracker::overview::{recent_changes, symbol_rows, DayChange};
use stock_tracker::quotes::{chart_rows, daily_rows, latest_close, Daily, YahooQuote};

const JAN_1_2024: i64 = 1_704_067_200;

fn at(secs: i64) -> Instant {
    Instant { secs, nanos: 0 }
}

#[test]
fn refresh_when_never_fetched_or_unreadable() {
    assert!(needs_refresh(&None, at(JAN_1_2024)));
    assert!(needs_refresh(&Some("yesterday".to_string()), at(JAN_1_2024)));
    assert!(needs_refresh(&Some(String::new()), at(JAN_1_2024)));
}

#[test]
fn refresh_after_an_hour() {
    let rec = Some("2024-01-01T00:00:00+00:00".to_string());
    assert!(!needs_refresh(&rec, at(JAN_1_2024)));
    assert!(!needs_refresh(&rec, at(JAN_1_2024 + 1800)));
    assert!(!needs_refresh(&rec, Instant { secs: JAN_1_2024 + 3599, nanos: 999_999_999 }));
    assert!(needs_refresh(&rec, at(JAN_1_2024 + CACHE_MAX_AGE_SECS)));
    assert!(needs_refresh(&rec, at(JAN_1_2024 + 86_400)));
    // a record from the future is fresh
    assert!(!needs_refresh(&rec, at(JAN_1_2024 - 86_400)));
}

#[test]
fn refresh_reads_offsets_and_fractions() {
    let rec = Some("2024-01-01T01:00:00+01:00".to_string());
    assert!(!needs_refresh(&rec, at(JAN_1_2024 + 3599)));
    assert!(needs_refresh(&rec, at(JAN_1_2024 + 3600)));
    let rec = Some("2024-01-01T00:00:00.500000+00:00".to_string());
    assert!(!needs_refresh(&rec, Instant { secs: JAN_1_2024 + 3600, nanos: 400_000_000 }));
    assert!(needs_refresh(&rec, Instant { secs: JAN_1_2024 + 3600, nanos: 500_000_000 }));
}

#[test]
fn window_is_last_seven_days() {
    // 2024-03-01 is day 738946 counted from January 1 of year 1.
    let w = calendar_window(738_946).unwrap();
    assert_eq!(w.len(), WINDOW_DAYS as usize);
    assert_eq!(
        w,
        vec!["2024-02-24", "2024-02-25", "2024-02-26", "2024-02-27", "2024-02-28", "2024-02-29", "2024-03-01"]
    );
    assert_eq!(calendar_window(100_000_000), None);
}

fn quote() -> YahooQuote<f64> {
    YahooQuote {
        open: Some(vec![Some(1.0), None, None]),
        high: Some(vec![Some(2.0), None]),
        low: None,
        close: Some(vec![Some(1.5), None, Some(3.0)]),
        volume: Some(vec![Some(100), Some(200), None]),
    }
}

#[test]
fn daily_rows_skip_empty_days() {
    let ts = vec![JAN_1_2024, JAN_1_2024 + 86_400, JAN_1_2024 + 2 * 86_400];
    let rows = daily_rows(&ts, &quote());
    assert_eq!(rows.len(), 2);
    assert_eq!(rows[0].date, "2024-01-01");
    assert_eq!(rows[0].open, Some(1.0));
    assert_eq!(rows[0].high, Some(2.0));
    assert_eq!(rows[0].low, None);
    assert_eq!(rows[0].close, Some(1.5));
    assert_eq!(rows[0].volume, Some(100));
    assert_eq!(rows[1].date, "2024-01-03");
    assert_eq!(rows[1].open, None);
    assert_eq!(rows[1].high, None);
    assert_eq!(rows[1].close, Some(3.0));
    assert_eq!(rows[1].volume, None);
}

#[test]
fn daily_rows_undated_timestamp() {
    let q = YahooQuote { open: Some(vec![Some(1.0)]), high: None, low: None, close: None, volume: None };
    let rows = daily_rows(&vec![i64::MAX], &q);
    assert_eq!(rows.len(), 1);
    assert_eq!(rows[0].date, "");
}

#[test]
fn chart_rows_need_timestamps_and_quote() {
    assert!(chart_rows::<f64>(&None, &Some(quote())).is_none());
    assert!(chart_rows::<f64>(&Some(vec![JAN_1_2024]), &None).is_none());
    assert!(chart_rows::<f64>(&Some(vec![]), &Some(quote())).is_none());
    let blank: YahooQuote<f64> = YahooQuote { open: Some(vec![None]), high: None, low: None, close: Some(vec![None]), volume: Some(vec![Some(5)]) };
    let r = chart_rows(&Some(vec![JAN_1_2024]), &Some(blank)).unwrap();
    assert_eq!(r.len(), 0);
    let r = chart_rows(&Some(vec![JAN_1_2024]), &Some(quote())).unwrap();
    assert_eq!(r.len(), 1);
}

fn day(date: &str, close: Option<f64>) -> Daily<f64> {
    Daily { date: date.to_string(), open: None, high: None, low: None, close, volume: None }
}

#[test]
fn latest_close_is_last_day() {
    assert_eq!(latest_close::<f64>(&vec![]), None);
    assert_eq!(latest_close(&vec![day("2024-01-01", Some(1.0)), day("2024-01-02", Some(2.0))]), Some(2.0));
    assert_eq!(latest_close(&vec![day("2024-01-01", Some(1.0)), day("2024-01-02", None)]), None);
}

#[test]
fn recent_changes_pair_days() {
    let rows: Vec<(String, Option<f64>)> = (0..14)
        .map(|i| (format!("d{}", i), if i == 3 { None } else { Some(100.0 - i as f64) }))
        .collect();
    let steps = recent_changes(&rows);
    assert_eq!(steps.len(), 5);
    for (k, s) in steps.iter().enumerate() {
        assert_eq!(s.date, format!("d{}", k));
        assert_eq!(s.close, rows[k].1);
        assert_eq!(s.prev_close, rows[k + 1].1);
    }
    let few = vec![("a".to_string(), Some(1.0)), ("b".to_string(), Some(2.0)), ("c".to_string(), None)];
    let steps = recent_changes(&few);
    assert_eq!(steps.len(), 2);
    assert_eq!(steps[1].date, "b");
    assert_eq!(steps[1].prev_close, None);
    assert_eq!(recent_changes(&vec![("a".to_string(), Some(1.0))]).len(), 0);
    assert_eq!(recent_changes::<f64>(&vec![]).len(), 0);
}

fn change(date: &str, pct: Option<f64>, close: Option<f64>) -> DayChange<f64> {
    DayChange { date: date.to_string(), pct, close }
}

#[test]
fn table_has_a_cell_per_date() {
    let symbols = vec!["AAA".to_string(), "BBB".to_string()];
    let changes = vec![
        vec![change("2024-03-01", Some(1.0), Some(10.0)), change("2024-02-29", None, Some(9.9))],
        vec![change("2024-02-28", Some(-2.0), Some(5.0)), change("2024-02-28", Some(3.0), Some(6.0))],
    ];
    let dates: Vec<String> = ["2024-02-28", "2024-02-29", "2024-03-01"].iter().map(|s| s.to_string()).collect();
    let t = symbol_rows(&symbols, &changes, &dates);
    assert_eq!(t.len(), 2);
    assert_eq!(t[0].symbol, "AAA");
    assert_eq!(t[0].changes.len(), 3);
    assert_eq!(t[0].changes[0].date, "2024-02-28");
    assert_eq!(t[0].changes[0].pct, None);
    assert_eq!(t[0].changes[0].close, None);
    assert_eq!(t[0].changes[1].close, Some(9.9));
    assert_eq!(t[0].changes[1].pct, None);
    assert_eq!(t[0].changes[2].pct, Some(1.0));
    assert_eq!(t[1].changes[0].pct, Some(3.0));
    assert_eq!(t[1].changes[0].close, Some(6.0));
    assert_eq!(t[1].changes[2].close, None);
}

#[test]
fn price_cache_reads_back() {
    let mut c: PriceCache<f64> = PriceCache::new();
    let msft = "MSFT".to_string();
    let bhp = "BHP.AX".to_string();
    assert_eq!(c.get(&msft), None);
    c.insert(msft.clone(), Some(410.0));
    assert_eq!(c.get(&msft), Some(Some(410.0)));
    assert_eq!(c.get(&bhp), None);
    c.insert(bhp.clone(), None);
    assert_eq!(c.get(&bhp), Some(None));
    c.insert(msft.clone(), Some(411.0));
    assert_eq!(c.get(&msft), Some(Some(411.0)));
    assert_eq!(c.get(&bhp), Some(None));
}

#[test]
fn any_priced_needs_one_price() {
    assert!(!any_priced::<f64>(&vec![]));
    assert!(!any_priced::<f64>(&vec![None, None]));
    assert!(any_priced(&vec![None, Some(1.0)]));
}

#[test]
fn thousands_grouping() {
    assert_eq!(with_thousands(false, true, false, "1234567.89"), "1,234,567.89");
    assert_eq!(with_thousands(false, true, false, "123.00"), "123.00");
    assert_eq!(with_thousands(false, true, false, "1000"), "1,000");
    assert_eq!(with_thousands(false, true, false, "100000.5"), "100,000.5");
    assert_eq!(with_thousands(false, true, false, "0.00"), "0.00");
    assert_eq!(with_thousands(false, true, false, "12."), "12");
    assert_eq!(with_thousands(true, true, false, "1234.50"), "+1,234.50");
    assert_eq!(with_thousands(true, false, true, "5.00"), "-5.00");
    assert_eq!(with_thousands(false, false, true, "98765.43"), "-98,765.43");
    assert_eq!(with_thousands(true, false, false, "NaN"), "NaN");
    assert_eq!(with_thousands(false, true, false, "inf"), "inf");
}

#[test]
fn plus_for_non_negative() {
    assert_eq!(with_plus(true, "1.25"), "+1.25");
    assert_eq!(with_plus(true, "0.00"), "+0.00");
    assert_eq!(with_plus(false, "-3.10"), "-3.10");
}

#[test]
fn representable_instants() {
    assert!(is_representable(at(JAN_1_2024)));
    assert!(is_representable(at(-JAN_1_2024)));
    assert!(is_representable(Instant { secs: 59, nanos: 1_500_000_000 }));
    assert!(is_representable(Instant { secs: -1, nanos: 1_000_000_000 }));
    assert!(!is_representable(Instant { secs: 58, nanos: 1_000_000_000 }));
    assert!(!is_representable(Instant { secs: 59, nanos: 2_000_000_000 }));
    assert!(!is_representable(at(9_000_000_000_000)));
    assert!(!is_representable(at(i64::MIN)));
}

#[test]
fn staleness_persists() {
    let rec = Some("2024-01-01T00:00:00Z".to_string());
    let mut was_stale = false;
    for step in 0..100 {
        let now = at(JAN_1_2024 + step * 97);
        let stale = needs_refresh(&rec, now);
        assert!(!was_stale || stale);
        was_stale = stale;
    }
    assert!(was_stale);
}

#[test]
fn grouping_only_adds_commas() {
    for digits in ["0", "12", "123", "1234", "12345", "123456", "1234567", "98765432101"] {
        let g = with_thousands(false, true, false, digits);
        assert_eq!(g.replace(',', ""), digits);
        for part in g.split(',').skip(1) {
            assert_eq!(part.len(), 3);
        }
    }
}
