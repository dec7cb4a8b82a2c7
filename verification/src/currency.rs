//! Exchange rates: a table of rates by key, the conversion rate between two
//! currencies, and the balances of accounts in their own currencies.

use crate::decimal::{
    clamp, product, quotient, saturating_product, saturating_quotient, saturating_sum, SCALE,
};
use crate::models::{account_views, opt_int, Account, AccountView};
use crate::text::{opt_text, same_text};
use vstd::prelude::*;

verus! {

/// One entry of a rate table: a key (a currency code or a pair ticker) and
/// a rate in millionths.
#[derive(Clone, Debug, PartialEq, Eq)]
pub struct RateEntry {
    pub key: String,
    pub rate: i64,
}

/// Rates by key. Where a key was entered more than once, the last entry
/// counts.
#[derive(Clone, Debug, PartialEq, Eq)]
pub struct RateTable {
    pub entries: Vec<RateEntry>,
}

/// The view of a rate table: a map from key to rate.
pub type RateTableView = Map<Seq<char>, int>;

/// The map that the first `n` entries make.
pub open spec fn entries_map(entries: Seq<RateEntry>, n: int) -> Map<Seq<char>, int>
    decreases n,
{
    if n <= 0 {
        Map::empty()
    } else {
        entries_map(entries, n - 1).insert(entries[n - 1].key@, entries[n - 1].rate as int)
    }
}

impl View for RateTable {
    type V = Map<Seq<char>, int>;

    open spec fn view(&self) -> Map<Seq<char>, int> {
        entries_map(self.entries@, self.entries@.len() as int)
    }
}

impl RateTable {
    /// A table without entries.
    pub fn new() -> (t: RateTable)
        ensures
            t@ == Map::<Seq<char>, int>::empty(),
    {
        RateTable { entries: Vec::new() }
    }

    /// Enters a rate under a key; it replaces what the key had.
    pub fn insert(&mut self, key: String, rate: i64)
        ensures
            final(self)@ == old(self)@.insert(key@, rate as int),
    {
        self.entries.push(RateEntry { key, rate });
        assert(self.entries@.len() == old(self).entries@.len() + 1);
        proof {
            lemma_entries_map_prefix(
                old(self).entries@,
                self.entries@,
                old(self).entries@.len() as int,
            );
        }
    }

    /// The rate under a key, if the table has one.
    pub fn get(&self, key: &str) -> (r: Option<i64>)
        ensures
            r is Some <==> self@.contains_key(key@),
            r matches Some(v) ==> v == self@[key@],
    {
        let mut r: Option<i64> = None;
        let mut i: usize = 0;
        while i < self.entries.len()
            invariant
                0 <= i <= self.entries.len(),
                r is Some <==> entries_map(self.entries@, i as int).contains_key(key@),
                r matches Some(v) ==> v == entries_map(self.entries@, i as int)[key@],
            decreases self.entries.len() - i,
        {
            if same_text(self.entries[i].key.as_str(), key) {
                r = Some(self.entries[i].rate);
            }
            i += 1;
        }
        r
    }
}

/// Two lists that agree on their first `n` entries make the same map of
/// them.
pub proof fn lemma_entries_map_prefix(a: Seq<RateEntry>, b: Seq<RateEntry>, n: int)
    requires
        0 <= n <= a.len(),
        n <= b.len(),
        forall|k: int| 0 <= k < n ==> a[k] == b[k],
    ensures
        entries_map(b, n) == entries_map(a, n),
    decreases n,
{
    if n > 0 {
        lemma_entries_map_prefix(a, b, n - 1);
    }
}

// ---------------------------------------------------------------------
// The rate between two currencies
// ---------------------------------------------------------------------

/// The ticker under which the market quotes `src` in `dst`.
pub open spec fn pair_ticker(src: Seq<char>, dst: Seq<char>) -> Seq<char> {
    src + dst + "=X"@
}

/// What one unit of a currency is worth in US dollars: one for the dollar
/// itself, else the rate entered by hand, else the fetched rate, else one.
pub open spec fn rate_to_usd(
    c: Seq<char>,
    rates: Map<Seq<char>, int>,
    custom: Map<Seq<char>, int>,
) -> int {
    if c == "USD"@ {
        SCALE as int
    } else if custom.contains_key(c) {
        custom[c]
    } else if rates.contains_key(pair_ticker(c, "USD"@)) {
        rates[pair_ticker(c, "USD"@)]
    } else {
        SCALE as int
    }
}

/// The factor that turns an amount in `src` into one in `dst`: one where
/// the two are the same; the fetched rate of the pair where there is a
/// positive one; else the quotient of the two rates to the dollar, or one
/// where the divisor is zero.
pub open spec fn resolved_rate(
    src: Seq<char>,
    dst: Seq<char>,
    rates: Map<Seq<char>, int>,
    custom: Map<Seq<char>, int>,
) -> int {
    if src == dst {
        SCALE as int
    } else if rates.contains_key(pair_ticker(src, dst)) && rates[pair_ticker(src, dst)] > 0 {
        rates[pair_ticker(src, dst)]
    } else if rate_to_usd(dst, rates, custom) == 0 {
        SCALE as int
    } else {
        clamp(quotient(rate_to_usd(src, rates, custom), rate_to_usd(dst, rates, custom)))
    }
}

pub(crate) fn ticker_for(src: &str, dst: &str) -> (r: String)
    ensures
        r@ == pair_ticker(src@, dst@),
{
    let mut t = src.to_owned();
    t.append(dst);
    t.append("=X");
    t
}

fn get_rate_to_usd(curr: &str, rates: &RateTable, custom_rates: &RateTable) -> (r: i64)
    ensures
        r == rate_to_usd(curr@, rates@, custom_rates@),
{
    if same_text(curr, "USD") {
        return SCALE;
    }
    match custom_rates.get(curr) {
        Some(r) => r,
        None => {
            let ticker = ticker_for(curr, "USD");
            match rates.get(ticker.as_str()) {
                Some(r) => r,
                None => SCALE,
            }
        },
    }
}

/// The factor that turns an amount in `src` into one in `dst`. Never
/// fails: where no rate is known the factor is one.
pub fn resolve_rate(src: &str, dst: &str, rates: &RateTable, custom_rates: &RateTable) -> (r: i64)
    ensures
        r == resolved_rate(src@, dst@, rates@, custom_rates@),
{
    if same_text(src, dst) {
        return SCALE;
    }
    let direct_ticker = ticker_for(src, dst);
    match rates.get(direct_ticker.as_str()) {
        Some(r) => {
            if r > 0 {
                return r;
            }
        },
        None => {},
    }
    let r_src = get_rate_to_usd(src, rates, custom_rates);
    let r_dst = get_rate_to_usd(dst, rates, custom_rates);
    if r_dst == 0 {
        return SCALE;
    }
    saturating_quotient(r_src, r_dst)
}

// ---------------------------------------------------------------------
// Balances for display
// ---------------------------------------------------------------------

/// The views of the sums of amounts by account and currency.
pub open spec fn raw_views(s: Seq<(i32, String, i64)>) -> Seq<(int, Seq<char>, int)> {
    s.map_values(|r: (i32, String, i64)| (r.0 as int, r.1@, r.2 as int))
}

/// The currency in which the account `id` is kept, going by the first `n`
/// accounts: that of the last of them that has the identifier and a
/// currency.
pub open spec fn account_currency(accs: Seq<AccountView>, id: int, n: int) -> Option<Seq<char>>
    decreases n,
{
    if n <= 0 {
        None
    } else if accs[n - 1].id == id && accs[n - 1].currency is Some {
        accs[n - 1].currency
    } else {
        account_currency(accs, id, n - 1)
    }
}

/// One sum of amounts, turned into the currency of its account, or into
/// the reporting currency where the account has none.
pub open spec fn converted(
    row: (int, Seq<char>, int),
    accs: Seq<AccountView>,
    target: Seq<char>,
    rates: Map<Seq<char>, int>,
    custom: Map<Seq<char>, int>,
) -> int {
    let cur = match account_currency(accs, row.0, accs.len() as int) {
        Some(c) => c,
        None => target,
    };
    clamp(product(row.2, resolved_rate(row.1, cur, rates, custom)))
}

/// The converted sums of the account `id` among the first `n` rows, added
/// up in their order; `None` where none of the rows is of that account.
pub open spec fn converted_total(
    raw: Seq<(int, Seq<char>, int)>,
    id: int,
    n: int,
    accs: Seq<AccountView>,
    target: Seq<char>,
    rates: Map<Seq<char>, int>,
    custom: Map<Seq<char>, int>,
) -> Option<int>
    decreases n,
{
    if n <= 0 {
        None
    } else {
        let before = converted_total(raw, id, n - 1, accs, target, rates, custom);
        if raw[n - 1].0 == id {
            Some(
                clamp(
                    (match before {
                        Some(b) => b,
                        None => 0,
                    }) + converted(raw[n - 1], accs, target, rates, custom),
                ),
            )
        } else {
            before
        }
    }
}

/// An account as it is shown: its balance is the total of its converted
/// sums, where it has any; its exchange rate is that of its currency to
/// the reporting currency, or one where it has no currency.
pub open spec fn reported(
    a: AccountView,
    raw: Seq<(int, Seq<char>, int)>,
    accs: Seq<AccountView>,
    target: Seq<char>,
    rates: Map<Seq<char>, int>,
    custom: Map<Seq<char>, int>,
) -> AccountView {
    AccountView {
        balance: match converted_total(raw, a.id, raw.len() as int, accs, target, rates, custom) {
            Some(s) => s,
            None => a.balance,
        },
        exchange_rate: match a.currency {
            Some(c) => resolved_rate(c, target, rates, custom),
            None => SCALE as int,
        },
        ..a
    }
}

pub(crate) fn currency_of(accounts: &Vec<Account>, id: i32) -> (r: Option<usize>)
    ensures
        match r {
            Some(i) => i < accounts.len() && accounts@[i as int].currency is Some && opt_text(
                accounts@[i as int].currency,
            ) == account_currency(account_views(accounts@), id as int, accounts.len() as int),
            None => account_currency(account_views(accounts@), id as int, accounts.len() as int)
                is None,
        },
{
    let ghost s = account_views(accounts@);
    let mut r: Option<usize> = None;
    let mut i: usize = 0;
    while i < accounts.len()
        invariant
            0 <= i <= accounts.len(),
            s == account_views(accounts@),
            match r {
                Some(k) => k < i && accounts@[k as int].currency is Some && opt_text(
                    accounts@[k as int].currency,
                ) == account_currency(s, id as int, i as int),
                None => account_currency(s, id as int, i as int) is None,
            },
        decreases accounts.len() - i,
    {
        if accounts[i].id == id && accounts[i].currency.is_some() {
            r = Some(i);
        }
        i += 1;
    }
    r
}

fn convert_row(
    row: &(i32, String, i64),
    accounts: &Vec<Account>,
    target: &str,
    rates: &RateTable,
    custom_rates: &RateTable,
) -> (r: i64)
    ensures
        r == converted(
            (row.0 as int, row.1@, row.2 as int),
            account_views(accounts@),
            target@,
            rates@,
            custom_rates@,
        ),
{
    let rate = match currency_of(accounts, row.0) {
        Some(k) => match &accounts[k].currency {
            Some(c) => resolve_rate(row.1.as_str(), c.as_str(), rates, custom_rates),
            None => resolve_rate(row.1.as_str(), target, rates, custom_rates),
        },
        None => resolve_rate(row.1.as_str(), target, rates, custom_rates),
    };
    saturating_product(row.2, rate)
}

/// The accounts as they are shown in the reporting currency `target`: each
/// with the total of its converted sums as balance, where it has any, and
/// with the rate of its own currency to `target`. Never fails: where no
/// rate is known the factor is one.
pub fn calculate_account_balances(
    accounts: Vec<Account>,
    raw_data: Vec<(i32, String, i64)>,
    target: &str,
    rates: &RateTable,
    custom_rates: &RateTable,
) -> (out: Vec<Account>)
    ensures
        out.len() == accounts.len(),
        forall|i: int|
            0 <= i < accounts.len() ==> (#[trigger] out@[i])@ == reported(
                accounts@[i]@,
                raw_views(raw_data@),
                account_views(accounts@),
                target@,
                rates@,
                custom_rates@,
            ),
{
    let ghost accs = account_views(accounts@);
    let ghost raw = raw_views(raw_data@);
    let mut out: Vec<Account> = Vec::new();
    let mut i: usize = 0;
    while i < accounts.len()
        invariant
            0 <= i <= accounts.len(),
            out.len() == i,
            accs == account_views(accounts@),
            raw == raw_views(raw_data@),
            forall|k: int|
                0 <= k < i ==> (#[trigger] out@[k])@ == reported(
                    accounts@[k]@,
                    raw,
                    accs,
                    target@,
                    rates@,
                    custom_rates@,
                ),
        decreases accounts.len() - i,
    {
        let id = accounts[i].id;
        let mut sum: Option<i64> = None;
        let mut j: usize = 0;
        while j < raw_data.len()
            invariant
                0 <= j <= raw_data.len(),
                accs == account_views(accounts@),
                raw == raw_views(raw_data@),
                opt_int(sum) == converted_total(
                    raw,
                    id as int,
                    j as int,
                    accs,
                    target@,
                    rates@,
                    custom_rates@,
                ),
            decreases raw_data.len() - j,
        {
            if raw_data[j].0 == id {
                let val = convert_row(&raw_data[j], &accounts, target, rates, custom_rates);
                sum = Some(
                    match sum {
                        Some(b) => saturating_sum(b, val),
                        None => val,
                    },
                );
            }
            j += 1;
        }
        let mut shown = accounts[i].duplicate();
        match sum {
            Some(s) => {
                shown.balance = s;
            },
            None => {},
        }
        shown.exchange_rate = match &accounts[i].currency {
            Some(c) => resolve_rate(c.as_str(), target, rates, custom_rates),
            None => SCALE,
        };
        out.push(shown);
        i += 1;
    }
    out
}

} // verus!
