//! Reading the books: transactions newest first, the payees and the
//! categories in use, and the sums that the display of balances starts
//! from.

use crate::accounts::{get_accounts_db, listed};
use crate::currency::raw_views;
use crate::decimal::{clamp, clamp_wide};
use crate::ledger::Ledger;
use crate::models::{
    account_views, transaction_views, Account, LedgerError, Transaction, TransactionView,
};
use crate::text::{
    lemma_text_order_total, lemma_text_order_transitive, same_opt_text, same_text, text_less,
    text_lt,
};
use vstd::prelude::*;

verus! {

// ---------------------------------------------------------------------
// Transactions, newest first
// ---------------------------------------------------------------------

/// Whether transaction `a` may be shown before transaction `b`: it has the
/// later date, or the same date and no smaller an identifier.
pub open spec fn shown_before(a: TransactionView, b: TransactionView) -> bool {
    text_less(b.date, a.date) || (a.date == b.date && a.id >= b.id)
}

/// Where `t` goes among the first `upto` transactions of a list that is
/// shown newest first: behind the last of them that may be shown before it.
pub open spec fn showing_point(s: Seq<TransactionView>, t: TransactionView, upto: int) -> int
    decreases upto,
{
    if upto <= 0 || upto > s.len() {
        0
    } else if shown_before(s[upto - 1], t) {
        upto
    } else {
        showing_point(s, t, upto - 1)
    }
}

/// Whether a transaction is asked for: any, or those of one account.
pub open spec fn wanted(t: TransactionView, account: Option<int>) -> bool {
    match account {
        Some(a) => t.account_id == a,
        None => true,
    }
}

/// Those of the first `n` transactions that are asked for, by date, latest
/// first, and by identifier, largest first, among those of one date.
pub open spec fn newest_first(txs: Seq<TransactionView>, account: Option<int>, n: int) -> Seq<
    TransactionView,
>
    decreases n,
{
    if n <= 0 {
        Seq::empty()
    } else {
        let s = newest_first(txs, account, n - 1);
        if wanted(txs[n - 1], account) {
            s.insert(showing_point(s, txs[n - 1], s.len() as int), txs[n - 1])
        } else {
            s
        }
    }
}

fn may_show_before(a: &Transaction, b: &Transaction) -> (r: bool)
    ensures
        r == shown_before(a@, b@),
{
    if text_lt(b.date.as_str(), a.date.as_str()) {
        true
    } else {
        same_text(a.date.as_str(), b.date.as_str()) && a.id >= b.id
    }
}

fn collect_newest_first(transactions: &Vec<Transaction>, account: Option<i32>) -> (out: Vec<
    Transaction,
>)
    ensures
        transaction_views(out@) == newest_first(
            transaction_views(transactions@),
            match account {
                Some(a) => Some(a as int),
                None => None,
            },
            transactions.len() as int,
        ),
{
    let ghost txs = transaction_views(transactions@);
    let ghost acc: Option<int> = match account {
        Some(a) => Some(a as int),
        None => None,
    };
    let mut out: Vec<Transaction> = Vec::new();
    let mut i: usize = 0;
    while i < transactions.len()
        invariant
            0 <= i <= transactions.len(),
            txs == transaction_views(transactions@),
            acc == (match account {
                Some(a) => Some(a as int),
                None => None::<int>,
            }),
            transaction_views(out@) == newest_first(txs, acc, i as int),
        decreases transactions.len() - i,
    {
        let take = match account {
            Some(a) => transactions[i].account_id == a,
            None => true,
        };
        if take {
            let t = transactions[i].duplicate();
            let ghost s = transaction_views(out@);
            let mut j: usize = out.len();
            while j > 0 && !may_show_before(&out[j - 1], &t)
                invariant
                    0 <= j <= out.len(),
                    s == transaction_views(out@),
                    showing_point(s, t@, s.len() as int) == showing_point(s, t@, j as int),
                decreases j,
            {
                j -= 1;
            }
            out.insert(j, t);
            assert(transaction_views(out@) =~= s.insert(j as int, t@));
        }
        i += 1;
    }
    out
}

/// The transactions of one account, latest date first, and largest
/// identifier first among those of one date. An account that does not
/// exist has none.
pub fn get_transactions_db(ledger: &Ledger, account_id: i32) -> (r: Result<
    Vec<Transaction>,
    LedgerError,
>)
    ensures
        r is Ok,
        transaction_views(r->Ok_0@) == newest_first(
            ledger@.transactions,
            Some(account_id as int),
            ledger@.transactions.len() as int,
        ),
{
    Ok(collect_newest_first(&ledger.transactions, Some(account_id)))
}

/// All transactions, latest date first, and largest identifier first among
/// those of one date.
pub fn get_all_transactions_db(ledger: &Ledger) -> (r: Result<Vec<Transaction>, LedgerError>)
    ensures
        r is Ok,
        transaction_views(r->Ok_0@) == newest_first(
            ledger@.transactions,
            None,
            ledger@.transactions.len() as int,
        ),
{
    Ok(collect_newest_first(&ledger.transactions, None))
}

// ---------------------------------------------------------------------
// Payees and categories
// ---------------------------------------------------------------------

/// The views of a list of texts.
pub open spec fn text_views(s: Seq<String>) -> Seq<Seq<char>> {
    s.map_values(|t: String| t@)
}

/// Where the text `x` goes among the first `upto` texts of an ordered
/// list: behind the last of them that does not come after it.
pub open spec fn text_point(s: Seq<Seq<char>>, x: Seq<char>, upto: int) -> int
    decreases upto,
{
    if upto <= 0 || upto > s.len() {
        0
    } else if !text_less(x, s[upto - 1]) {
        upto
    } else {
        text_point(s, x, upto - 1)
    }
}

/// An ordered list of distinct texts with `x` entered, unless it is there.
pub open spec fn with_text(s: Seq<Seq<char>>, x: Seq<char>) -> Seq<Seq<char>> {
    let p = text_point(s, x, s.len() as int);
    if p > 0 && s[p - 1] == x {
        s
    } else {
        s.insert(p, x)
    }
}

/// The payees of the first `n` transactions, each once, in the order of
/// texts.
pub open spec fn payees_of(txs: Seq<TransactionView>, n: int) -> Seq<Seq<char>>
    decreases n,
{
    if n <= 0 {
        Seq::empty()
    } else {
        with_text(payees_of(txs, n - 1), txs[n - 1].payee)
    }
}

/// The categories of the first `n` transactions, each once, in the order
/// of texts; `Transfer` is left out.
pub open spec fn categories_of(txs: Seq<TransactionView>, n: int) -> Seq<Seq<char>>
    decreases n,
{
    if n <= 0 {
        Seq::empty()
    } else {
        match txs[n - 1].category {
            Some(c) => if c == "Transfer"@ {
                categories_of(txs, n - 1)
            } else {
                with_text(categories_of(txs, n - 1), c)
            },
            None => categories_of(txs, n - 1),
        }
    }
}

fn enter_text(out: &mut Vec<String>, x: &str)
    ensures
        text_views(final(out)@) == with_text(text_views(old(out)@), x@),
{
    let ghost s = text_views(out@);
    let mut j: usize = out.len();
    while j > 0 && text_lt(x, out[j - 1].as_str())
        invariant
            0 <= j <= out.len(),
            *out == *old(out),
            s == text_views(out@),
            text_point(s, x@, s.len() as int) == text_point(s, x@, j as int),
        decreases j,
    {
        j -= 1;
    }
    if j > 0 && same_text(out[j - 1].as_str(), x) {
        return ;
    }
    out.insert(j, x.to_owned());
    assert(text_views(out@) =~= s.insert(j as int, x@));
}

/// The payees in use, each once, in the order of texts.
pub fn get_payees_db(ledger: &Ledger) -> (r: Result<Vec<String>, LedgerError>)
    ensures
        r is Ok,
        text_views(r->Ok_0@) == payees_of(ledger@.transactions, ledger@.transactions.len() as int),
{
    let ghost txs = transaction_views(ledger.transactions@);
    let mut out: Vec<String> = Vec::new();
    let mut i: usize = 0;
    while i < ledger.transactions.len()
        invariant
            0 <= i <= ledger.transactions.len(),
            txs == transaction_views(ledger.transactions@),
            text_views(out@) == payees_of(txs, i as int),
        decreases ledger.transactions.len() - i,
    {
        enter_text(&mut out, ledger.transactions[i].payee.as_str());
        i += 1;
    }
    Ok(out)
}

/// The categories in use, each once, in the order of texts, without
/// `Transfer`.
pub fn get_categories_db(ledger: &Ledger) -> (r: Result<Vec<String>, LedgerError>)
    ensures
        r is Ok,
        text_views(r->Ok_0@) == categories_of(
            ledger@.transactions,
            ledger@.transactions.len() as int,
        ),
{
    let ghost txs = transaction_views(ledger.transactions@);
    let mut out: Vec<String> = Vec::new();
    let mut i: usize = 0;
    while i < ledger.transactions.len()
        invariant
            0 <= i <= ledger.transactions.len(),
            txs == transaction_views(ledger.transactions@),
            text_views(out@) == categories_of(txs, i as int),
        decreases ledger.transactions.len() - i,
    {
        match &ledger.transactions[i].category {
            Some(c) => {
                if !same_text(c.as_str(), "Transfer") {
                    enter_text(&mut out, c.as_str());
                }
            },
            None => {},
        }
        i += 1;
    }
    Ok(out)
}

// ---------------------------------------------------------------------
// Sums by account and currency
// ---------------------------------------------------------------------

/// What the display of balances starts from: the accounts, and the sum of
/// amounts for each pair of account and currency.
#[derive(Clone, Debug, PartialEq, Eq)]
pub struct AccountsSummary {
    pub accounts: Vec<Account>,
    pub raw_data: Vec<(i32, String, i64)>,
}

/// Whether two transactions fall into one sum: same account, same
/// currency (or both without).
pub open spec fn same_group(a: TransactionView, b: TransactionView) -> bool {
    a.account_id == b.account_id && a.currency == b.currency
}

/// Whether none of the first `n` transactions falls into one sum with `t`.
pub open spec fn opens_group(txs: Seq<TransactionView>, t: TransactionView, n: int) -> bool
    decreases n,
{
    if n <= 0 {
        true
    } else {
        !same_group(txs[n - 1], t) && opens_group(txs, t, n - 1)
    }
}

/// The sum of the amounts of those of the first `n` transactions that fall
/// into one sum with `t`.
pub open spec fn group_sum(txs: Seq<TransactionView>, t: TransactionView, n: int) -> int
    decreases n,
{
    if n <= 0 {
        0
    } else if same_group(txs[n - 1], t) {
        group_sum(txs, t, n - 1) + txs[n - 1].amount
    } else {
        group_sum(txs, t, n - 1)
    }
}

/// The sums for the groups that the first `n` transactions open, in the
/// order in which they open them. Each sum is over all transactions and is
/// brought into range; a group without currency is reported in `target`.
pub open spec fn summary_rows(txs: Seq<TransactionView>, target: Seq<char>, n: int) -> Seq<
    (int, Seq<char>, int),
>
    decreases n,
{
    if n <= 0 {
        Seq::empty()
    } else {
        let before = summary_rows(txs, target, n - 1);
        let t = txs[n - 1];
        if opens_group(txs, t, n - 1) {
            before.push(
                (
                    t.account_id,
                    match t.currency {
                        Some(c) => c,
                        None => target,
                    },
                    clamp(group_sum(txs, t, txs.len() as int)),
                ),
            )
        } else {
            before
        }
    }
}

proof fn lemma_group_sum_bound(txs: Seq<TransactionView>, t: TransactionView, n: int)
    requires
        0 <= n <= txs.len(),
        forall|k: int|
            0 <= k < txs.len() ==> -0x8000_0000_0000_0000 <= (#[trigger] txs[k]).amount
                <= 0x7fff_ffff_ffff_ffff,
    ensures
        -0x8000_0000_0000_0000 * n <= group_sum(txs, t, n) <= 0x8000_0000_0000_0000 * n,
    decreases n,
{
    if n > 0 {
        lemma_group_sum_bound(txs, t, n - 1);
        assert(-0x8000_0000_0000_0000 <= txs[n - 1].amount <= 0x7fff_ffff_ffff_ffff);
    }
}

fn in_same_group(a: &Transaction, b: &Transaction) -> (r: bool)
    ensures
        r == same_group(a@, b@),
{
    a.account_id == b.account_id && same_opt_text(&a.currency, &b.currency)
}

/// The accounts as they are listed, and the sum of amounts for each pair of
/// account and currency in use, in the order in which the pairs first
/// occur. Transactions without currency count as being in `target`.
pub fn get_accounts_summary_db(ledger: &Ledger, target: &str) -> (r: Result<
    AccountsSummary,
    LedgerError,
>)
    ensures
        r is Ok,
        account_views(r->Ok_0.accounts@) == listed(ledger@.accounts),
        raw_views(r->Ok_0.raw_data@) == summary_rows(
            ledger@.transactions,
            target@,
            ledger@.transactions.len() as int,
        ),
{
    let accounts = match get_accounts_db(ledger) {
        Ok(a) => a,
        Err(e) => {
            return Err(e);
        },
    };
    let ghost txs = transaction_views(ledger.transactions@);
    let n = ledger.transactions.len();
    let mut raw_data: Vec<(i32, String, i64)> = Vec::new();
    let mut i: usize = 0;
    while i < n
        invariant
            0 <= i <= n == ledger.transactions.len(),
            txs == transaction_views(ledger.transactions@),
            raw_views(raw_data@) == summary_rows(txs, target@, i as int),
        decreases n - i,
    {
        let t = &ledger.transactions[i];
        let mut opens = true;
        let mut j: usize = 0;
        while j < i
            invariant
                0 <= j <= i < n == ledger.transactions.len(),
                txs == transaction_views(ledger.transactions@),
                *t == ledger.transactions@[i as int],
                opens == opens_group(txs, t@, j as int),
            decreases i - j,
        {
            if in_same_group(&ledger.transactions[j], t) {
                opens = false;
            }
            j += 1;
        }
        if opens {
            let mut sum: i128 = 0;
            let mut k: usize = 0;
            while k < n
                invariant
                    0 <= k <= n == ledger.transactions.len(),
                    txs == transaction_views(ledger.transactions@),
                    *t == ledger.transactions@[i as int],
                    sum == group_sum(txs, t@, k as int),
                    -0x8000_0000_0000_0000 * k <= sum <= 0x8000_0000_0000_0000 * k,
                decreases n - k,
            {
                proof {
                    lemma_group_sum_bound(txs, t@, k as int + 1);
                    assert(0x8000_0000_0000_0000 * (k + 1) <= 0x8000_0000_0000_0000
                        * 0xffff_ffff_ffff_ffff) by (nonlinear_arith)
                        requires
                            k + 1 <= 0xffff_ffff_ffff_ffff,
                    ;
                }
                if in_same_group(&ledger.transactions[k], t) {
                    sum = sum + ledger.transactions[k].amount as i128;
                }
                k += 1;
            }
            let currency = match &t.currency {
                Some(c) => c.clone(),
                None => target.to_owned(),
            };
            let ghost before = raw_views(raw_data@);
            let row = (t.account_id, currency, clamp_wide(sum));
            raw_data.push(row);
            assert(raw_views(raw_data@) =~= before.push(
                (row.0 as int, row.1@, row.2 as int),
            ));
        }
        i += 1;
    }
    Ok(AccountsSummary { accounts, raw_data })
}

// ---------------------------------------------------------------------
// What the lists promise
// ---------------------------------------------------------------------

/// Whether a list of transactions is in the order in which it is shown.
pub open spec fn newest_come_first(s: Seq<TransactionView>) -> bool {
    forall|i: int, j: int| 0 <= i < j < s.len() ==> shown_before(#[trigger] s[i], #[trigger] s[j])
}

/// Whether a list of texts is in order, each text once.
pub open spec fn ascending(s: Seq<Seq<char>>) -> bool {
    forall|i: int, j: int| 0 <= i < j < s.len() ==> text_less(#[trigger] s[i], #[trigger] s[j])
}

proof fn lemma_shown_before(a: TransactionView, b: TransactionView, c: TransactionView)
    ensures
        shown_before(a, b) || shown_before(b, a),
        shown_before(a, b) && shown_before(b, c) ==> shown_before(a, c),
{
    lemma_text_order_total(a.date, b.date);
    lemma_text_order_total(b.date, c.date);
    lemma_text_order_total(a.date, c.date);
    if text_less(c.date, b.date) && text_less(b.date, a.date) {
        lemma_text_order_transitive(c.date, b.date, a.date);
    }
}

proof fn lemma_showing_point(s: Seq<TransactionView>, t: TransactionView, upto: int)
    requires
        0 <= upto <= s.len(),
    ensures
        0 <= showing_point(s, t, upto) <= upto,
        showing_point(s, t, upto) > 0 ==> shown_before(s[showing_point(s, t, upto) - 1], t),
        forall|k: int| showing_point(s, t, upto) <= k < upto ==> !shown_before(#[trigger] s[k], t),
    decreases upto,
{
    if upto > 0 && !shown_before(s[upto - 1], t) {
        lemma_showing_point(s, t, upto - 1);
    }
}

/// What the list of transactions holds and in which order: exactly the
/// transactions asked for, the latest date first, and the largest
/// identifier first among those of one date.
pub proof fn lemma_newest_first(txs: Seq<TransactionView>, account: Option<int>, n: int)
    requires
        0 <= n <= txs.len(),
    ensures
        newest_come_first(newest_first(txs, account, n)),
        forall|k: int|
            0 <= k < newest_first(txs, account, n).len() ==> wanted(
                #[trigger] newest_first(txs, account, n)[k],
                account,
            ) && exists|j: int| 0 <= j < n && txs[j] == newest_first(txs, account, n)[k],
        forall|j: int|
            0 <= j < n && wanted(#[trigger] txs[j], account) ==> newest_first(
                txs,
                account,
                n,
            ).contains(txs[j]),
    decreases n,
{
    if n > 0 {
        lemma_newest_first(txs, account, n - 1);
        let s = newest_first(txs, account, n - 1);
        let t = txs[n - 1];
        let r = newest_first(txs, account, n);
        if wanted(t, account) {
            let p = showing_point(s, t, s.len() as int);
            lemma_showing_point(s, t, s.len() as int);
            assert(r == s.insert(p, t));
            assert forall|i: int, j: int| 0 <= i < j < r.len() implies shown_before(
                #[trigger] r[i],
                #[trigger] r[j],
            ) by {
                if j < p {
                    assert(shown_before(s[i], s[j]));
                } else if j == p {
                    if i < p - 1 {
                        assert(shown_before(s[i], s[p - 1]));
                        lemma_shown_before(s[i], s[p - 1], t);
                    }
                } else if i < p {
                    assert(shown_before(s[i], s[j - 1]));
                } else if i == p {
                    assert(!shown_before(s[j - 1], t));
                    lemma_shown_before(t, s[j - 1], t);
                } else {
                    assert(shown_before(s[i - 1], s[j - 1]));
                }
            }
            assert forall|k: int| 0 <= k < r.len() implies wanted(#[trigger] r[k], account)
                && exists|j: int| 0 <= j < n && txs[j] == r[k] by {
                if k < p {
                    assert(r[k] == s[k]);
                    let j = choose|j: int| 0 <= j < n - 1 && txs[j] == s[k];
                    assert(0 <= j < n && txs[j] == r[k]);
                } else if k == p {
                    assert(txs[n - 1] == r[k]);
                } else {
                    assert(r[k] == s[k - 1]);
                    let j = choose|j: int| 0 <= j < n - 1 && txs[j] == s[k - 1];
                    assert(0 <= j < n && txs[j] == r[k]);
                }
            }
            assert forall|j: int| 0 <= j < n && wanted(#[trigger] txs[j], account) implies r.contains(
                txs[j],
            ) by {
                if j == n - 1 {
                    assert(r[p] == txs[j]);
                } else {
                    let k = choose|k: int| 0 <= k < s.len() && s[k] == txs[j];
                    if k < p {
                        assert(r[k] == txs[j]);
                    } else {
                        assert(r[k + 1] == txs[j]);
                    }
                }
            }
        } else {
            assert(r == s);
            assert forall|k: int| 0 <= k < r.len() implies wanted(#[trigger] r[k], account)
                && exists|j: int| 0 <= j < n && txs[j] == r[k] by {
                let j = choose|j: int| 0 <= j < n - 1 && txs[j] == s[k];
                assert(0 <= j < n && txs[j] == r[k]);
            }
        }
    }
}

proof fn lemma_text_point(s: Seq<Seq<char>>, x: Seq<char>, upto: int)
    requires
        0 <= upto <= s.len(),
    ensures
        0 <= text_point(s, x, upto) <= upto,
        text_point(s, x, upto) > 0 ==> !text_less(x, s[text_point(s, x, upto) - 1]),
        forall|k: int| text_point(s, x, upto) <= k < upto ==> text_less(x, #[trigger] s[k]),
    decreases upto,
{
    if upto > 0 && text_less(x, s[upto - 1]) {
        lemma_text_point(s, x, upto - 1);
    }
}

/// Entering a text into an ordered list of distinct texts leaves it
/// ordered and distinct; afterwards it holds the text and what it held.
pub proof fn lemma_with_text(s: Seq<Seq<char>>, x: Seq<char>)
    requires
        ascending(s),
    ensures
        ascending(with_text(s, x)),
        with_text(s, x).contains(x),
        forall|k: int| 0 <= k < s.len() ==> with_text(s, x).contains(#[trigger] s[k]),
        forall|k: int|
            0 <= k < with_text(s, x).len() ==> (#[trigger] with_text(s, x)[k]) == x || s.contains(
                with_text(s, x)[k],
            ),
{
    let p = text_point(s, x, s.len() as int);
    lemma_text_point(s, x, s.len() as int);
    let r = with_text(s, x);
    if p > 0 && s[p - 1] == x {
        assert(r[p - 1] == x);
        assert forall|k: int| 0 <= k < s.len() implies r.contains(#[trigger] s[k]) by {
            assert(r[k] == s[k]);
        }
        assert forall|k: int| 0 <= k < r.len() implies (#[trigger] r[k]) == x || s.contains(r[k]) by {
            assert(s[k] == r[k]);
        }
    } else {
        assert(r == s.insert(p, x));
        assert(r[p] == x);
        if p > 0 {
            lemma_text_order_total(s[p - 1], x);
        }
        assert forall|i: int, j: int| 0 <= i < j < r.len() implies text_less(
            #[trigger] r[i],
            #[trigger] r[j],
        ) by {
            if j < p {
                assert(text_less(s[i], s[j]));
            } else if j == p {
                if i < p - 1 {
                    assert(text_less(s[i], s[p - 1]));
                    lemma_text_order_transitive(s[i], s[p - 1], x);
                }
            } else if i < p {
                assert(text_less(s[i], s[j - 1]));
            } else if i == p {
                assert(text_less(x, s[j - 1]));
            } else {
                assert(text_less(s[i - 1], s[j - 1]));
            }
        }
        assert forall|k: int| 0 <= k < s.len() implies r.contains(#[trigger] s[k]) by {
            if k < p {
                assert(r[k] == s[k]);
            } else {
                assert(r[k + 1] == s[k]);
            }
        }
        assert forall|k: int| 0 <= k < r.len() implies (#[trigger] r[k]) == x || s.contains(r[k]) by {
            if k < p {
                assert(s[k] == r[k]);
            } else if k > p {
                assert(s[k - 1] == r[k]);
            }
        }
    }
}

/// The list of payees is in order, holds each payee once, and holds the
/// payee of every transaction.
pub proof fn lemma_payees_of(txs: Seq<TransactionView>, n: int)
    requires
        0 <= n <= txs.len(),
    ensures
        ascending(payees_of(txs, n)),
        forall|j: int| 0 <= j < n ==> payees_of(txs, n).contains((#[trigger] txs[j]).payee),
        forall|k: int|
            0 <= k < payees_of(txs, n).len() ==> exists|j: int|
                0 <= j < n && txs[j].payee == #[trigger] payees_of(txs, n)[k],
    decreases n,
{
    if n > 0 {
        lemma_payees_of(txs, n - 1);
        let s = payees_of(txs, n - 1);
        let r = payees_of(txs, n);
        lemma_with_text(s, txs[n - 1].payee);
        assert forall|j: int| 0 <= j < n implies r.contains((#[trigger] txs[j]).payee) by {
            if j < n - 1 {
                let k = choose|k: int| 0 <= k < s.len() && s[k] == txs[j].payee;
                assert(r.contains(s[k]));
            }
        }
        assert forall|k: int| 0 <= k < r.len() implies exists|j: int|
            0 <= j < n && txs[j].payee == #[trigger] r[k] by {
            if r[k] == txs[n - 1].payee {
                assert(txs[n - 1].payee == r[k]);
            } else {
                let i = choose|i: int| 0 <= i < s.len() && s[i] == r[k];
                let j = choose|j: int| 0 <= j < n - 1 && txs[j].payee == s[i];
                assert(0 <= j < n && txs[j].payee == r[k]);
            }
        }
    }
}

/// The list of categories is in order, holds each category once, never
/// holds `Transfer`, and holds every other category in use.
pub proof fn lemma_categories_of(txs: Seq<TransactionView>, n: int)
    requires
        0 <= n <= txs.len(),
    ensures
        ascending(categories_of(txs, n)),
        forall|j: int|
            0 <= j < n && (#[trigger] txs[j]).category is Some && txs[j].category->Some_0
                != "Transfer"@ ==> categories_of(txs, n).contains(txs[j].category->Some_0),
        forall|k: int|
            0 <= k < categories_of(txs, n).len() ==> (#[trigger] categories_of(txs, n)[k])
                != "Transfer"@ && exists|j: int|
                0 <= j < n && txs[j].category == Some(categories_of(txs, n)[k]),
    decreases n,
{
    if n > 0 {
        lemma_categories_of(txs, n - 1);
        let s = categories_of(txs, n - 1);
        let r = categories_of(txs, n);
        let entered = txs[n - 1].category is Some && txs[n - 1].category->Some_0 != "Transfer"@;
        if entered {
            lemma_with_text(s, txs[n - 1].category->Some_0);
        }
        assert forall|j: int|
            0 <= j < n && (#[trigger] txs[j]).category is Some && txs[j].category->Some_0
                != "Transfer"@ implies r.contains(txs[j].category->Some_0) by {
            if j < n - 1 {
                let k = choose|k: int| 0 <= k < s.len() && s[k] == txs[j].category->Some_0;
                if entered {
                    assert(r.contains(s[k]));
                }
            }
        }
        assert forall|k: int| 0 <= k < r.len() implies (#[trigger] r[k]) != "Transfer"@
            && exists|j: int| 0 <= j < n && txs[j].category == Some(r[k]) by {
            if entered && r[k] == txs[n - 1].category->Some_0 {
                assert(txs[n - 1].category == Some(r[k]));
            } else {
                let i = choose|i: int| 0 <= i < s.len() && s[i] == r[k];
                let j = choose|j: int| 0 <= j < n - 1 && txs[j].category == Some(s[i]);
                assert(0 <= j < n && txs[j].category == Some(r[k]));
            }
        }
    }
}

} // verus!
