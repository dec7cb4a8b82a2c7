//! What is decided around market data: which days of history to ask for,
//! how a quote is read from the latest and the previous price, which
//! tickers came back without a quote, and which tickers the display of
//! balances needs. Asking the market itself is left to the caller.

use crate::currency::{
    account_currency, currency_of, pair_ticker, raw_views, ticker_for, RateTable,
};
use crate::decimal::{
    clamp, clamp_wide, product, quotient, saturating_product, saturating_quotient,
    saturating_sum,
};
use crate::models::{account_views, opt_int, Account, AccountView};
use crate::text::{eq_ignore_ascii_case, opt_text, same_folded, same_text};
use vstd::prelude::*;

verus! {

// ---------------------------------------------------------------------
// Calendar, by the `chrono` crate
// ---------------------------------------------------------------------

/// The day that a text spells as `chrono` reads the format `%Y-%m-%d`,
/// counted from the first of January of the year one; `None` where the text
/// spells no date. What `NaiveDate::parse_from_str` and then
/// `Datelike::num_days_from_ce` return.
pub uninterp spec fn day_number(s: Seq<char>) -> Option<int>;

/// The first second of a day counted as in `day_number`, in seconds since
/// 1970 in UTC; `None` where `chrono` has no such day. What
/// `NaiveDate::from_num_days_from_ce_opt`, then midnight, then
/// `DateTime::timestamp` return.
pub uninterp spec fn day_start(day: int) -> Option<int>;

/// The date in UTC of an instant given in seconds since 1970, written as
/// `%Y-%m-%d`; `None` where `chrono` has no such instant. What
/// `DateTime::from_timestamp` and then `format` return.
pub uninterp spec fn utc_date(ts: int) -> Option<Seq<char>>;

/// `NaiveDate::parse_from_str` with the format `%Y-%m-%d`, the date handed
/// back as its day number. Trusted: the result is named, not described; it
/// depends on the text alone.
#[verifier::external_body]
pub(crate) fn parse_day(s: &str) -> (r: Option<i32>)
    ensures
        (match r {
            Some(d) => Some(d as int),
            None => None,
        }) == day_number(s@),
{
    match chrono::NaiveDate::parse_from_str(s, "%Y-%m-%d") {
        Ok(d) => Some(chrono::Datelike::num_days_from_ce(&d)),
        Err(_) => None,
    }
}

/// `NaiveDate::from_num_days_from_ce_opt`, the date handed back as the
/// timestamp of its midnight in UTC. Trusted: the result is named, not
/// described; it depends on the day alone.
#[verifier::external_body]
pub(crate) fn start_of_day(day: i32) -> (r: Option<i64>)
    ensures
        opt_int(r) == day_start(day as int),
{
    match chrono::NaiveDate::from_num_days_from_ce_opt(day) {
        Some(d) => Some(d.and_time(chrono::NaiveTime::MIN).and_utc().timestamp()),
        None => None,
    }
}

/// `DateTime::from_timestamp` with no nanoseconds, the instant handed back
/// as its date written `%Y-%m-%d`. Trusted: the result is named, not
/// described; it depends on the timestamp alone.
#[verifier::external_body]
pub(crate) fn date_of_timestamp(ts: i64) -> (r: Option<String>)
    ensures
        opt_text(r) == utc_date(ts as int),
{
    match chrono::DateTime::from_timestamp(ts, 0) {
        Some(d) => Some(d.format("%Y-%m-%d").to_string()),
        None => None,
    }
}

// ---------------------------------------------------------------------
// History
// ---------------------------------------------------------------------

/// Why a request for market history could not be worked out.
#[derive(Clone, Copy, Debug, PartialEq, Eq, Structural)]
pub enum MarketError {
    /// The last day on record is no date.
    InvalidDate,
    /// The last day on record has no day after it.
    NoNextDay,
    /// A timestamp of the history has no date.
    InvalidTimestamp,
}

impl MarketError {
    /// A sentence for the person at the keyboard.
    pub fn message(&self) -> (r: String)
        ensures
            r@ == self.sentence(),
    {
        match self {
            MarketError::InvalidDate => "Invalid date".to_owned(),
            MarketError::NoNextDay => "Invalid date".to_owned(),
            MarketError::InvalidTimestamp => "Invalid timestamp".to_owned(),
        }
    }

    /// The sentence that `message` returns.
    pub open spec fn sentence(&self) -> Seq<char> {
        match self {
            MarketError::InvalidDate => "Invalid date"@,
            MarketError::NoNextDay => "Invalid date"@,
            MarketError::InvalidTimestamp => "Invalid timestamp"@,
        }
    }
}

/// A closing price of one day.
#[derive(Clone, Debug, PartialEq, Eq)]
pub struct DailyPrice {
    pub date: String,
    /// Price, in millionths.
    pub price: i64,
}

/// How far back history is asked for where none is on record: ten years of
/// 365 days, in seconds.
pub const TEN_YEARS: i64 = 315_360_000;

/// The span to ask history for, given where it starts and where it ends:
/// none where the start is not before the end.
pub open spec fn window(start: int, end: int) -> Option<(int, int)> {
    if start >= end {
        None
    } else {
        Some((start, end))
    }
}

/// Where history starts: at the first second of the day after the last day
/// on record, or ten years before `now` where nothing is on record.
pub open spec fn history_start(last: Option<Seq<char>>, now: int) -> Result<int, MarketError> {
    match last {
        None => Ok(clamp(now - TEN_YEARS)),
        Some(d) => match day_number(d) {
            None => Err(MarketError::InvalidDate),
            Some(n) => if n + 1 > i32::MAX {
                Err(MarketError::NoNextDay)
            } else {
                match day_start(n + 1) {
                    None => Err(MarketError::NoNextDay),
                    Some(ts) => Ok(ts),
                }
            },
        },
    }
}

/// The span to ask history for, given where it starts and where it ends.
pub fn window_between(start: i64, end: i64) -> (r: Option<(i64, i64)>)
    ensures
        (match r {
            Some((a, b)) => Some((a as int, b as int)),
            None => None,
        }) == window(start as int, end as int),
{
    if start >= end {
        None
    } else {
        Some((start, end))
    }
}

/// The span of history to ask for: from the day after `last_date`, or from
/// ten years ago where there is none, up to `now`; `None` where that span
/// is empty.
pub fn history_window(last_date: Option<&str>, now: i64) -> (r: Result<
    Option<(i64, i64)>,
    MarketError,
>)
    ensures
        match history_start(
            match last_date {
                Some(d) => Some(d@),
                None => None,
            },
            now as int,
        ) {
            Ok(s) => r is Ok && (match r->Ok_0 {
                Some((a, b)) => Some((a as int, b as int)),
                None => None,
            }) == window(s, now as int),
            Err(e) => r == Err::<Option<(i64, i64)>, MarketError>(e),
        },
{
    let start = match last_date {
        None => saturating_sum(now, -TEN_YEARS),
        Some(d) => match parse_day(d) {
            None => {
                return Err(MarketError::InvalidDate);
            },
            Some(n) => {
                if n == i32::MAX {
                    return Err(MarketError::NoNextDay);
                }
                match start_of_day(n + 1) {
                    None => {
                        return Err(MarketError::NoNextDay);
                    },
                    Some(ts) => ts,
                }
            },
        },
    };
    Ok(window_between(start, now))
}

/// The closing price of the day at index `i`, where there is one.
pub open spec fn close_at(closes: Seq<Option<i64>>, i: int) -> Option<i64> {
    if 0 <= i < closes.len() {
        closes[i]
    } else {
        None
    }
}

/// The closing price of the day at index `i`, where there is one.
pub fn price_at(closes: &Vec<Option<i64>>, i: usize) -> (r: Option<i64>)
    ensures
        r == close_at(closes@, i as int),
{
    if i < closes.len() {
        closes[i]
    } else {
        None
    }
}

/// The views of a list of daily prices.
pub open spec fn price_views(s: Seq<DailyPrice>) -> Seq<(Seq<char>, int)> {
    s.map_values(|p: DailyPrice| (p.date@, p.price as int))
}

/// The prices of the first `n` days of a history: for each day that has a
/// closing price, its date and that price. `None` where one of those days
/// has no date.
pub open spec fn daily_rows(timestamps: Seq<i64>, closes: Seq<Option<i64>>, n: int) -> Option<
    Seq<(Seq<char>, int)>,
>
    decreases n,
{
    if n <= 0 {
        Some(Seq::empty())
    } else {
        match daily_rows(timestamps, closes, n - 1) {
            None => None,
            Some(rows) => match close_at(closes, n - 1) {
                None => Some(rows),
                Some(p) => match utc_date(timestamps[n - 1] as int) {
                    None => None,
                    Some(d) => Some(rows.push((d, p as int))),
                },
            },
        }
    }
}

/// The closing prices of a history, day by day: each timestamp that has a
/// price becomes a date and that price. A timestamp without a date is
/// refused.
pub fn daily_prices(timestamps: &Vec<i64>, closes: &Vec<Option<i64>>) -> (r: Result<
    Vec<DailyPrice>,
    MarketError,
>)
    ensures
        match daily_rows(timestamps@, closes@, timestamps.len() as int) {
            Some(rows) => r is Ok && price_views(r->Ok_0@) == rows,
            None => r == Err::<Vec<DailyPrice>, MarketError>(MarketError::InvalidTimestamp),
        },
{
    let mut out: Vec<DailyPrice> = Vec::new();
    let mut i: usize = 0;
    while i < timestamps.len()
        invariant
            0 <= i <= timestamps.len(),
            daily_rows(timestamps@, closes@, i as int) == Some(price_views(out@)),
        decreases timestamps.len() - i,
    {
        match price_at(closes, i) {
            None => {},
            Some(price) => match date_of_timestamp(timestamps[i]) {
                None => {
                    proof {
                        lemma_daily_rows_stay_refused(
                            timestamps@,
                            closes@,
                            i as int + 1,
                            timestamps.len() as int,
                        );
                    }
                    return Err(MarketError::InvalidTimestamp);
                },
                Some(date) => {
                    let ghost before = price_views(out@);
                    out.push(DailyPrice { date, price });
                    assert(price_views(out@) =~= before.push((date@, price as int)));
                },
            },
        }
        i += 1;
    }
    Ok(out)
}

proof fn lemma_daily_rows_stay_refused(
    timestamps: Seq<i64>,
    closes: Seq<Option<i64>>,
    n: int,
    m: int,
)
    requires
        0 <= n <= m,
        daily_rows(timestamps, closes, n) is None,
    ensures
        daily_rows(timestamps, closes, m) is None,
    decreases m - n,
{
    if n < m {
        lemma_daily_rows_stay_refused(timestamps, closes, n, m - 1);
    }
}

// ---------------------------------------------------------------------
// Quotes
// ---------------------------------------------------------------------

/// A quote: the latest price of a ticker and its change since the previous
/// close.
#[derive(Clone, Debug, PartialEq, Eq)]
pub struct YahooQuote {
    pub symbol: String,
    /// Price, in millionths.
    pub price: i64,
    /// Change since the previous close in per cent, in millionths.
    pub change_percent: i64,
    pub currency: Option<String>,
    pub quote_type: Option<String>,
}

/// One hit of a ticker search.
#[derive(Clone, Debug, PartialEq, Eq)]
pub struct YahooSearchQuote {
    pub symbol: String,
    pub shortname: Option<String>,
    pub longname: Option<String>,
    pub exchange: Option<String>,
    pub type_disp: Option<String>,
    pub currency: Option<String>,
}

/// The hits of a ticker search.
#[derive(Clone, Debug, PartialEq, Eq)]
pub struct YahooSearchResponse {
    pub quotes: Vec<YahooSearchQuote>,
}

/// The previous price to compare with: the chart's previous close, else
/// the previous close, else the price itself.
pub open spec fn reference_price(price: int, chart_previous: Option<i64>, previous: Option<i64>) -> int {
    match chart_previous {
        Some(p) => p as int,
        None => match previous {
            Some(p) => p as int,
            None => price,
        },
    }
}

/// The change from `prev` to `price` in per cent: zero where `prev` is
/// zero; each step of the computation is brought into range.
pub open spec fn percent_change(price: int, prev: int) -> int {
    if prev == 0 {
        0
    } else {
        clamp(product(clamp(quotient(clamp(price - prev), prev)), 100_000_000))
    }
}

/// The change from `prev` to `price` in per cent.
pub fn change_percent(price: i64, prev: i64) -> (r: i64)
    ensures
        r == percent_change(price as int, prev as int),
{
    if prev == 0 {
        0
    } else {
        let diff = clamp_wide(price as i128 - prev as i128);
        saturating_product(saturating_quotient(diff, prev), 100_000_000)
    }
}

/// A quote read from what a chart says of a ticker: the price is the
/// market price, or zero where there is none; the change is reckoned from
/// the reference price.
pub fn quote_from_chart(
    symbol: String,
    regular_market_price: Option<i64>,
    chart_previous_close: Option<i64>,
    previous_close: Option<i64>,
    currency: Option<String>,
    instrument_type: Option<String>,
) -> (q: YahooQuote)
    ensures
        q.symbol@ == symbol@,
        q.price == (match regular_market_price {
            Some(p) => p,
            None => 0,
        }),
        q.change_percent == percent_change(
            q.price as int,
            reference_price(q.price as int, chart_previous_close, previous_close),
        ),
        opt_text(q.currency) == opt_text(currency),
        opt_text(q.quote_type) == opt_text(instrument_type),
{
    let price = match regular_market_price {
        Some(p) => p,
        None => 0,
    };
    let prev = match chart_previous_close {
        Some(p) => p,
        None => match previous_close {
            Some(p) => p,
            None => price,
        },
    };
    YahooQuote {
        symbol,
        price,
        change_percent: change_percent(price, prev),
        currency,
        quote_type: instrument_type,
    }
}

/// Whether some quote of the list is for the ticker, up to the case of
/// ASCII letters.
pub open spec fn quoted(found: Seq<String>, ticker: Seq<char>) -> bool {
    exists|k: int| 0 <= k < found.len() && same_folded((#[trigger] found[k])@, ticker)
}

/// Those of the first `n` tickers that no quote was found for, in their
/// order.
pub open spec fn unquoted(tickers: Seq<String>, found: Seq<String>, n: int) -> Seq<Seq<char>>
    decreases n,
{
    if n <= 0 {
        Seq::empty()
    } else if quoted(found, tickers[n - 1]@) {
        unquoted(tickers, found, n - 1)
    } else {
        unquoted(tickers, found, n - 1).push(tickers[n - 1]@)
    }
}

/// The tickers that came back without a quote: those that no symbol of
/// `found` equals up to the case of ASCII letters.
pub fn missing_tickers(tickers: &Vec<String>, found: &Vec<String>) -> (out: Vec<String>)
    ensures
        out@.map_values(|s: String| s@) == unquoted(tickers@, found@, tickers.len() as int),
{
    let mut out: Vec<String> = Vec::new();
    let mut i: usize = 0;
    while i < tickers.len()
        invariant
            0 <= i <= tickers.len(),
            out@.map_values(|s: String| s@) == unquoted(tickers@, found@, i as int),
        decreases tickers.len() - i,
    {
        let mut hit = false;
        let mut k: usize = 0;
        while k < found.len() && !hit
            invariant
                0 <= k <= found.len(),
                i < tickers.len(),
                hit ==> quoted(found@, tickers@[i as int]@),
                !hit ==> forall|j: int|
                    0 <= j < k ==> !same_folded((#[trigger] found@[j])@, tickers@[i as int]@),
            decreases found.len() - k,
        {
            if eq_ignore_ascii_case(found[k].as_str(), tickers[i].as_str()) {
                hit = true;
            }
            k += 1;
        }
        if !hit {
            let ghost before = out@.map_values(|s: String| s@);
            out.push(tickers[i].clone());
            assert(out@.map_values(|s: String| s@) =~= before.push(tickers@[i as int]@));
        }
        i += 1;
    }
    out
}

/// The currency that the full quotes give for a symbol: that of the first
/// quote with exactly this symbol; `None` where there is no such quote.
pub open spec fn quoted_currency(full: Seq<YahooQuote>, symbol: Seq<char>, from: int) -> Option<
    Option<Seq<char>>,
>
    decreases full.len() - from,
{
    if from < 0 || from >= full.len() {
        None
    } else if full[from].symbol@ == symbol {
        Some(opt_text(full[from].currency))
    } else {
        quoted_currency(full, symbol, from + 1)
    }
}

/// Fills in the currency of each search hit from the full quote of the
/// same symbol, where there is one; nothing else changes.
pub fn merge_currencies(quotes: &mut Vec<YahooSearchQuote>, full: &Vec<YahooQuote>)
    ensures
        final(quotes).len() == old(quotes).len(),
        forall|i: int|
            0 <= i < old(quotes).len() ==> {
                let before = old(quotes)@[i];
                let after = #[trigger] final(quotes)@[i];
                &&& after.symbol == before.symbol
                &&& after.shortname == before.shortname
                &&& after.longname == before.longname
                &&& after.exchange == before.exchange
                &&& after.type_disp == before.type_disp
                &&& opt_text(after.currency) == (match quoted_currency(full@, before.symbol@, 0) {
                    Some(c) => c,
                    None => opt_text(before.currency),
                })
            },
{
    let n = quotes.len();
    let mut i: usize = 0;
    while i < n
        invariant
            0 <= i <= n == quotes.len(),
            n == old(quotes).len(),
            forall|k: int| i <= k < n ==> quotes@[k] == old(quotes)@[k],
            forall|k: int|
                0 <= k < i ==> {
                    let before = old(quotes)@[k];
                    let after = #[trigger] quotes@[k];
                    &&& after.symbol == before.symbol
                    &&& after.shortname == before.shortname
                    &&& after.longname == before.longname
                    &&& after.exchange == before.exchange
                    &&& after.type_disp == before.type_disp
                    &&& opt_text(after.currency) == (match quoted_currency(
                        full@,
                        before.symbol@,
                        0,
                    ) {
                        Some(c) => c,
                        None => opt_text(before.currency),
                    })
                },
        decreases n - i,
    {
        let mut k: usize = 0;
        let mut found: Option<usize> = None;
        while k < full.len() && found.is_none()
            invariant
                0 <= k <= full.len(),
                i < n == quotes.len(),
                quotes@[i as int] == old(quotes)@[i as int],
                match found {
                    Some(f) => f < full.len() && quoted_currency(full@, quotes@[i as int].symbol@, 0)
                        == Some(opt_text(full@[f as int].currency)),
                    None => quoted_currency(full@, quotes@[i as int].symbol@, 0) == quoted_currency(
                        full@,
                        quotes@[i as int].symbol@,
                        k as int,
                    ),
                },
            decreases full.len() - k,
        {
            if same_text(full[k].symbol.as_str(), quotes[i].symbol.as_str()) {
                found = Some(k);
            }
            k += 1;
        }
        match found {
            Some(f) => {
                quotes[i].currency = full[f].currency.clone();
            },
            None => {},
        }
        i += 1;
    }
}

// ---------------------------------------------------------------------
// Which rates the display of balances needs
// ---------------------------------------------------------------------

/// Whether the rate of a currency to the dollar is to be asked of the
/// market: it is not the dollar and has no rate entered by hand.
pub open spec fn on_market(c: Seq<char>, custom: Map<Seq<char>, int>) -> bool {
    c != "USD"@ && !custom.contains_key(c)
}

/// Whether a currency may stand in a pair asked of the market: it is the
/// dollar or has no rate entered by hand.
pub open spec fn pairable(c: Seq<char>, custom: Map<Seq<char>, int>) -> bool {
    c == "USD"@ || !custom.contains_key(c)
}

/// The tickers wanted for the currencies themselves: for the reporting
/// currency, then for the currency of each of the first `n` accounts, the
/// ticker of its rate to the dollar, where `on_market`.
pub open spec fn account_tickers(
    accs: Seq<AccountView>,
    target: Seq<char>,
    custom: Map<Seq<char>, int>,
    n: int,
) -> Seq<Seq<char>>
    decreases n,
{
    if n <= 0 {
        if on_market(target, custom) {
            seq![pair_ticker(target, "USD"@)]
        } else {
            Seq::empty()
        }
    } else {
        let before = account_tickers(accs, target, custom, n - 1);
        match accs[n - 1].currency {
            Some(c) => if on_market(c, custom) {
                before.push(pair_ticker(c, "USD"@))
            } else {
                before
            },
            None => before,
        }
    }
}

/// The tickers wanted for the currencies of the first `n` sums: the ticker
/// of each one's rate to the dollar, where `on_market`.
pub open spec fn sum_tickers(
    raw: Seq<(int, Seq<char>, int)>,
    custom: Map<Seq<char>, int>,
    n: int,
) -> Seq<Seq<char>>
    decreases n,
{
    if n <= 0 {
        Seq::empty()
    } else if on_market(raw[n - 1].1, custom) {
        sum_tickers(raw, custom, n - 1).push(pair_ticker(raw[n - 1].1, "USD"@))
    } else {
        sum_tickers(raw, custom, n - 1)
    }
}

/// The tickers wanted for turning the first `n` sums into the currency of
/// their account (or the reporting currency): the pair itself, where the
/// two differ and both are `pairable`.
pub open spec fn conversion_tickers(
    raw: Seq<(int, Seq<char>, int)>,
    accs: Seq<AccountView>,
    target: Seq<char>,
    custom: Map<Seq<char>, int>,
    n: int,
) -> Seq<Seq<char>>
    decreases n,
{
    if n <= 0 {
        Seq::empty()
    } else {
        let before = conversion_tickers(raw, accs, target, custom, n - 1);
        let cur = match account_currency(accs, raw[n - 1].0, accs.len() as int) {
            Some(c) => c,
            None => target,
        };
        if raw[n - 1].1 != cur && pairable(raw[n - 1].1, custom) && pairable(cur, custom) {
            before.push(pair_ticker(raw[n - 1].1, cur))
        } else {
            before
        }
    }
}

/// The tickers wanted for showing the first `n` accounts in the reporting
/// currency: the pair of the account's currency and the reporting
/// currency, where the two differ and both are `pairable`.
pub open spec fn reporting_tickers(
    accs: Seq<AccountView>,
    target: Seq<char>,
    custom: Map<Seq<char>, int>,
    n: int,
) -> Seq<Seq<char>>
    decreases n,
{
    if n <= 0 {
        Seq::empty()
    } else {
        let before = reporting_tickers(accs, target, custom, n - 1);
        match accs[n - 1].currency {
            Some(c) => if c != target && pairable(c, custom) && pairable(target, custom) {
                before.push(pair_ticker(c, target))
            } else {
                before
            },
            None => before,
        }
    }
}

/// The first `n` texts of a list, each once, in the order in which they
/// first occur.
pub open spec fn each_once(s: Seq<Seq<char>>, n: int) -> Seq<Seq<char>>
    decreases n,
{
    if n <= 0 {
        Seq::empty()
    } else {
        let before = each_once(s, n - 1);
        if before.contains(s[n - 1]) {
            before
        } else {
            before.push(s[n - 1])
        }
    }
}

/// All tickers that the display of balances needs, each once: those of the
/// currencies in use, then those of the conversions into each account's
/// currency, then those of each account's currency into the reporting
/// currency.
pub open spec fn wanted_tickers(
    accs: Seq<AccountView>,
    raw: Seq<(int, Seq<char>, int)>,
    target: Seq<char>,
    custom: Map<Seq<char>, int>,
) -> Seq<Seq<char>> {
    let all = account_tickers(accs, target, custom, accs.len() as int) + sum_tickers(
        raw,
        custom,
        raw.len() as int,
    ) + conversion_tickers(raw, accs, target, custom, raw.len() as int) + reporting_tickers(
        accs,
        target,
        custom,
        accs.len() as int,
    );
    each_once(all, all.len() as int)
}

/// The views of a list of texts.
pub open spec fn ticker_views(s: Seq<String>) -> Seq<Seq<char>> {
    s.map_values(|t: String| t@)
}

fn is_on_market(c: &str, custom_rates: &RateTable) -> (r: bool)
    ensures
        r == on_market(c@, custom_rates@),
{
    !same_text(c, "USD") && custom_rates.get(c).is_none()
}

fn is_pairable(c: &str, custom_rates: &RateTable) -> (r: bool)
    ensures
        r == pairable(c@, custom_rates@),
{
    same_text(c, "USD") || custom_rates.get(c).is_none()
}

fn add_ticker(out: &mut Vec<String>, t: String)
    ensures
        ticker_views(final(out)@) == ticker_views(old(out)@).push(t@),
{
    out.push(t);
    assert(ticker_views(out@) =~= ticker_views(old(out)@).push(t@));
}

/// The tickers to ask the market for before balances are shown in the
/// reporting currency `target`, each once: see `wanted_tickers`.
pub fn tickers_to_fetch(
    accounts: &Vec<Account>,
    raw_data: &Vec<(i32, String, i64)>,
    target: &str,
    custom_rates: &RateTable,
) -> (out: Vec<String>)
    ensures
        ticker_views(out@) == wanted_tickers(
            account_views(accounts@),
            raw_views(raw_data@),
            target@,
            custom_rates@,
        ),
{
    let ghost accs = account_views(accounts@);
    let ghost raw = raw_views(raw_data@);
    let ghost custom = custom_rates@;
    let mut all: Vec<String> = Vec::new();
    if is_on_market(target, custom_rates) {
        add_ticker(&mut all, ticker_for(target, "USD"));
    }
    let mut i: usize = 0;
    while i < accounts.len()
        invariant
            0 <= i <= accounts.len(),
            accs == account_views(accounts@),
            custom == custom_rates@,
            ticker_views(all@) == account_tickers(accs, target@, custom, i as int),
        decreases accounts.len() - i,
    {
        match &accounts[i].currency {
            Some(c) => {
                if is_on_market(c.as_str(), custom_rates) {
                    add_ticker(&mut all, ticker_for(c.as_str(), "USD"));
                }
            },
            None => {},
        }
        i += 1;
    }
    let ghost part1 = ticker_views(all@);
    let mut j: usize = 0;
    while j < raw_data.len()
        invariant
            0 <= j <= raw_data.len(),
            raw == raw_views(raw_data@),
            custom == custom_rates@,
            ticker_views(all@) == part1 + sum_tickers(raw, custom, j as int),
        decreases raw_data.len() - j,
    {
        if is_on_market(raw_data[j].1.as_str(), custom_rates) {
            add_ticker(&mut all, ticker_for(raw_data[j].1.as_str(), "USD"));
        }
        j += 1;
    }
    let ghost part2 = ticker_views(all@);
    let mut k: usize = 0;
    while k < raw_data.len()
        invariant
            0 <= k <= raw_data.len(),
            accs == account_views(accounts@),
            raw == raw_views(raw_data@),
            custom == custom_rates@,
            ticker_views(all@) == part2 + conversion_tickers(raw, accs, target@, custom, k as int),
        decreases raw_data.len() - k,
    {
        let tx_curr = raw_data[k].1.as_str();
        let wanted = match currency_of(accounts, raw_data[k].0) {
            Some(a) => match &accounts[a].currency {
                Some(c) => if !same_text(tx_curr, c.as_str()) && is_pairable(tx_curr, custom_rates)
                    && is_pairable(c.as_str(), custom_rates) {
                    Some(ticker_for(tx_curr, c.as_str()))
                } else {
                    None
                },
                None => None,
            },
            None => if !same_text(tx_curr, target) && is_pairable(tx_curr, custom_rates)
                && is_pairable(target, custom_rates) {
                Some(ticker_for(tx_curr, target))
            } else {
                None
            },
        };
        match wanted {
            Some(t) => {
                add_ticker(&mut all, t);
            },
            None => {},
        }
        k += 1;
    }
    let ghost part3 = ticker_views(all@);
    let mut m: usize = 0;
    while m < accounts.len()
        invariant
            0 <= m <= accounts.len(),
            accs == account_views(accounts@),
            custom == custom_rates@,
            ticker_views(all@) == part3 + reporting_tickers(accs, target@, custom, m as int),
        decreases accounts.len() - m,
    {
        match &accounts[m].currency {
            Some(c) => {
                if !same_text(c.as_str(), target) && is_pairable(c.as_str(), custom_rates)
                    && is_pairable(target, custom_rates) {
                    add_ticker(&mut all, ticker_for(c.as_str(), target));
                }
            },
            None => {},
        }
        m += 1;
    }
    let ghost everything = ticker_views(all@);
    let mut out: Vec<String> = Vec::new();
    let mut n: usize = 0;
    while n < all.len()
        invariant
            0 <= n <= all.len(),
            everything == ticker_views(all@),
            ticker_views(out@) == each_once(everything, n as int),
        decreases all.len() - n,
    {
        let mut seen = false;
        let mut p: usize = 0;
        while p < out.len() && !seen
            invariant
                0 <= p <= out.len(),
                n < all.len(),
                seen ==> ticker_views(out@).contains(all@[n as int]@),
                !seen ==> forall|q: int| 0 <= q < p ==> ticker_views(out@)[q] != all@[n as int]@,
            decreases out.len() - p,
        {
            if same_text(out[p].as_str(), all[n].as_str()) {
                assert(ticker_views(out@)[p as int] == all@[n as int]@);
                seen = true;
            }
            p += 1;
        }
        if !seen {
            add_ticker(&mut out, all[n].clone());
        }
        n += 1;
    }
    out
}

} // verus!
