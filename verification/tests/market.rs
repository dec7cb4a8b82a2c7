use honeybear::market::{price_at, window_between, TEN_YEARS};
use honeybear::{
    change_percent, daily_prices, history_window, merge_currencies, missing_tickers,
    quote_from_chart, tickers_to_fetch, Account, MarketError, RateTable, YahooQuote,
    YahooSearchQuote,
};

fn amt(x: f64) -> i64 {
    (x * 1_000_000.0).round() as i64
}

fn acc(id: i32, currency: Option<&str>) -> Account {
    Account {
        id,
        name: format!("acc{}", id),
        balance: 0,
        currency: currency.map(|c| c.to_string()),
        exchange_rate: amt(1.0),
    }
}

fn hit(symbol: &str, currency: Option<&str>) -> YahooSearchQuote {
    YahooSearchQuote {
        symbol: symbol.to_string(),
        shortname: Some("short".to_string()),
        longname: None,
        exchange: Some("NMS".to_string()),
        type_disp: None,
        currency: currency.map(|c| c.to_string()),
    }
}

fn quote(symbol: &str, currency: Option<&str>) -> YahooQuote {
    quote_from_chart(symbol.to_string(), Some(amt(1.0)), None, None, currency.map(|c| c.to_string()), None)
}

#[test]
fn history_starts_the_day_after_the_last_day_on_record() {
    // 2024-01-01T00:00:00Z is 1704067200
    assert_eq!(
        history_window(Some("2023-12-31"), 1_800_000_000),
        Ok(Some((1_704_067_200, 1_800_000_000)))
    );
    // the day after the last day of February in a leap year
    assert_eq!(
        history_window(Some("2024-02-29"), 1_800_000_000),
        Ok(Some((1_709_251_200, 1_800_000_000)))
    );
    assert_eq!(history_window(Some("1969-12-31"), 1), Ok(Some((0, 1))));
}

#[test]
fn history_that_is_up_to_date_asks_for_nothing() {
    assert_eq!(history_window(Some("2023-12-31"), 1_704_067_200), Ok(None));
    assert_eq!(history_window(Some("2023-12-31"), 1_704_067_199), Ok(None));
    assert_eq!(history_window(Some("2023-12-31"), 1_704_067_201).unwrap().unwrap().0, 1_704_067_200);
}

#[test]
fn history_without_a_record_goes_ten_years_back() {
    assert_eq!(TEN_YEARS, 10 * 365 * 24 * 60 * 60);
    assert_eq!(
        history_window(None, 1_700_000_000),
        Ok(Some((1_700_000_000 - 315_360_000, 1_700_000_000)))
    );
    assert_eq!(history_window(None, i64::MIN), Ok(None));
    assert_eq!(history_window(None, i64::MIN + 5), Ok(Some((i64::MIN, i64::MIN + 5))));
}

#[test]
fn a_last_day_that_is_no_date_is_refused() {
    for s in ["", "yesterday", "2023-02-30", "2023-13-01", "2023/01/01", "2023-01"] {
        assert_eq!(history_window(Some(s), 0), Err(MarketError::InvalidDate), "{s:?}");
    }
    assert_eq!(history_window(Some("+262142-12-31"), 0), Err(MarketError::NoNextDay));
}

#[test]
fn market_errors_read_as_sentences() {
    assert_eq!(MarketError::InvalidDate.message(), "Invalid date");
    assert_eq!(MarketError::NoNextDay.message(), "Invalid date");
    assert_eq!(MarketError::InvalidTimestamp.message(), "Invalid timestamp");
}

#[test]
fn windows() {
    assert_eq!(window_between(1, 2), Some((1, 2)));
    assert_eq!(window_between(2, 2), None);
    assert_eq!(window_between(3, 2), None);
}

#[test]
fn daily_prices_pair_dates_with_closing_prices() {
    let timestamps = vec![1_704_067_200, 1_704_153_600, 1_704_240_000 + 86_399, 1_704_326_400];
    let closes = vec![Some(amt(10.5)), None, Some(amt(11.0))];
    let rows = daily_prices(&timestamps, &closes).unwrap();
    let seen: Vec<(String, i64)> = rows.iter().map(|r| (r.date.clone(), r.price)).collect();
    assert_eq!(
        seen,
        vec![("2024-01-01".to_string(), amt(10.5)), ("2024-01-03".to_string(), amt(11.0))]
    );
    assert_eq!(price_at(&closes, 0), Some(amt(10.5)));
    assert_eq!(price_at(&closes, 1), None);
    assert_eq!(price_at(&closes, 3), None);
    assert!(daily_prices(&vec![], &closes).unwrap().is_empty());
    assert!(daily_prices(&timestamps, &vec![]).unwrap().is_empty());
}

#[test]
fn a_timestamp_without_a_date_is_refused_only_where_it_has_a_price() {
    let closes = vec![Some(1), None];
    assert_eq!(
        daily_prices(&vec![i64::MAX, 0], &closes).unwrap_err(),
        MarketError::InvalidTimestamp
    );
    assert_eq!(daily_prices(&vec![0, i64::MAX], &closes).unwrap().len(), 1);
}

#[test]
fn change_in_per_cent() {
    assert_eq!(change_percent(amt(110.0), amt(100.0)), amt(10.0));
    assert_eq!(change_percent(amt(90.0), amt(100.0)), amt(-10.0));
    assert_eq!(change_percent(amt(100.0), amt(100.0)), 0);
    assert_eq!(change_percent(amt(5.0), 0), 0);
    // (1 - 3) / 3 = -0.666666, cut at the sixth decimal
    assert_eq!(change_percent(amt(1.0), amt(3.0)), -66_666_600);
    assert_eq!(change_percent(i64::MAX, 1), i64::MAX);
}

#[test]
fn a_quote_is_read_from_the_chart() {
    let q = quote_from_chart(
        "AAPL".to_string(),
        Some(amt(150.0)),
        Some(amt(100.0)),
        Some(amt(75.0)),
        Some("USD".to_string()),
        Some("EQUITY".to_string()),
    );
    assert_eq!(q.symbol, "AAPL");
    assert_eq!(q.price, amt(150.0));
    assert_eq!(q.change_percent, amt(50.0));
    assert_eq!(q.currency.as_deref(), Some("USD"));
    assert_eq!(q.quote_type.as_deref(), Some("EQUITY"));
    let q = quote_from_chart("X".to_string(), Some(amt(150.0)), None, Some(amt(75.0)), None, None);
    assert_eq!(q.change_percent, amt(100.0));
    let q = quote_from_chart("X".to_string(), Some(amt(150.0)), None, None, None, None);
    assert_eq!(q.change_percent, 0);
    let q = quote_from_chart("X".to_string(), None, Some(amt(2.0)), None, None, None);
    assert_eq!((q.price, q.change_percent), (0, amt(-100.0)));
    let q = quote_from_chart("X".to_string(), Some(amt(2.0)), Some(0), None, None, None);
    assert_eq!(q.change_percent, 0);
}

#[test]
fn tickers_without_a_quote() {
    let tickers: Vec<String> = ["AAPL", "msft", "GOOG", "EURUSD=X"].iter().map(|s| s.to_string()).collect();
    let found: Vec<String> = ["aapl", "MSFT", "eurusd=x "].iter().map(|s| s.to_string()).collect();
    assert_eq!(missing_tickers(&tickers, &found), vec!["GOOG", "EURUSD=X"]);
    assert_eq!(missing_tickers(&tickers, &vec![]), tickers);
    assert!(missing_tickers(&vec![], &found).is_empty());
}

#[test]
fn search_hits_take_the_currency_of_the_full_quote() {
    let mut hits = vec![hit("AAPL", None), hit("SAP.DE", Some("XXX")), hit("NONE", Some("CHF"))];
    let full = vec![quote("SAP.DE", Some("EUR")), quote("AAPL", Some("USD")), quote("AAPL", Some("GBP")), quote("aapl", None)];
    merge_currencies(&mut hits, &full);
    assert_eq!(hits[0].currency.as_deref(), Some("USD"));
    assert_eq!(hits[1].currency.as_deref(), Some("EUR"));
    assert_eq!(hits[2].currency.as_deref(), Some("CHF"));
    assert_eq!(hits[0].shortname.as_deref(), Some("short"));
    assert_eq!(hits[1].exchange.as_deref(), Some("NMS"));
    // a full quote without currency takes the currency away
    let mut hits = vec![hit("AAPL", Some("USD"))];
    merge_currencies(&mut hits, &vec![quote("AAPL", None)]);
    assert_eq!(hits[0].currency, None);
}

#[test]
fn tickers_needed_for_the_display_of_balances() {
    let accounts = vec![acc(1, Some("EUR")), acc(2, None), acc(3, Some("XAU")), acc(4, Some("USD"))];
    let raw = vec![
        (1, "GBP".to_string(), 1),
        (2, "EUR".to_string(), 1),
        (3, "USD".to_string(), 1),
        (1, "EUR".to_string(), 1),
        (9, "CHF".to_string(), 1),
    ];
    let mut custom = RateTable::new();
    custom.insert("XAU".to_string(), amt(2000.0));
    let got = tickers_to_fetch(&accounts, &raw, "CHF", &custom);
    assert_eq!(
        got,
        vec![
            // the currencies in use, against the dollar
            "CHFUSD=X", "EURUSD=X", "GBPUSD=X",
            // sums into the currency of their account
            "GBPEUR=X", "EURCHF=X",
            // accounts into the reporting currency
            "USDCHF=X",
        ]
    );
}

#[test]
fn no_tickers_are_needed_where_all_is_in_dollars() {
    let accounts = vec![acc(1, Some("USD")), acc(2, None)];
    let raw = vec![(1, "USD".to_string(), 1), (2, "USD".to_string(), 1)];
    assert!(tickers_to_fetch(&accounts, &raw, "USD", &RateTable::new()).is_empty());
    assert_eq!(tickers_to_fetch(&vec![], &vec![], "EUR", &RateTable::new()), vec!["EURUSD=X"]);
}

#[test]
fn test_chart_response_parsing_change_percent() {
    let json = r#"{
        "chart": {
            "result": [
                { "meta": { "symbol": "FOO", "regularMarketPrice": 110.0, "chartPreviousClose": 100.0 } }
            ]
        }
    }"#;

    let resp: serde_json::Value = serde_json::from_str(json).unwrap();
    let meta = &resp["chart"]["result"][0]["meta"];
    let number = |key: &str| meta.get(key).and_then(|v| v.as_f64()).map(amt);
    let quote = quote_from_chart(
        meta["symbol"].as_str().unwrap().to_string(),
        number("regularMarketPrice"),
        number("chartPreviousClose"),
        number("previousClose"),
        None,
        None,
    );

    assert_eq!(quote.symbol, "FOO");
    assert_eq!(quote.price, amt(110.0));
    assert_eq!(quote.change_percent, amt(10.0));
}
