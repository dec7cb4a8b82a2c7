//! The books: accounts, transactions, rules and custom exchange rates held
//! together, with the lookups and balance arithmetic that every operation
//! on them shares.

use crate::currency::{RateTable, RateTableView};
use crate::decimal::fits;
use crate::laws::consistent;
use crate::models::{
    account_views, rule_views, transaction_views, Account, AccountView, LedgerError, Rule,
    RuleView, Transaction, TransactionView,
};
use crate::text::{is_text, same_text};
use vstd::prelude::*;

verus! {

/// The books. Accounts and transactions are kept in the order in which
/// they were recorded.
#[derive(Clone, Debug, PartialEq, Eq)]
pub struct Ledger {
    pub accounts: Vec<Account>,
    pub transactions: Vec<Transaction>,
    pub rules: Vec<Rule>,
    /// Rates to the US dollar entered by hand, by currency code.
    pub custom_rates: RateTable,
}

/// The view of the books.
pub struct LedgerView {
    pub accounts: Seq<AccountView>,
    pub transactions: Seq<TransactionView>,
    pub rules: Seq<RuleView>,
    pub custom_rates: RateTableView,
}

impl View for Ledger {
    type V = LedgerView;

    open spec fn view(&self) -> LedgerView {
        LedgerView {
            accounts: account_views(self.accounts@),
            transactions: transaction_views(self.transactions@),
            rules: rule_views(self.rules@),
            custom_rates: self.custom_rates@,
        }
    }
}

/// What an operation that changes the books owes its model: on success the
/// new books and the record handed back are the model's, on refusal the
/// error is the model's and the books are as they were.
pub open spec fn agrees<T: View>(
    r: Result<T, LedgerError>,
    before: LedgerView,
    after: LedgerView,
    model: Result<(LedgerView, T::V), LedgerError>,
) -> bool {
    match model {
        Ok((l, v)) => r is Ok && r->Ok_0@ == v && after == l,
        Err(e) => r is Err && r->Err_0 == e && after == before,
    }
}

// ---------------------------------------------------------------------
// Lookups
// ---------------------------------------------------------------------

/// Index of the first account at or after `from` with the identifier `id`;
/// the number of accounts if there is none.
pub open spec fn find_account(accs: Seq<AccountView>, id: int, from: int) -> int
    decreases accs.len() - from,
{
    if from < 0 || from >= accs.len() {
        accs.len() as int
    } else if accs[from].id == id {
        from
    } else {
        find_account(accs, id, from + 1)
    }
}

/// Index of the first transaction at or after `from` with the identifier
/// `id`; the number of transactions if there is none.
pub open spec fn find_transaction(txs: Seq<TransactionView>, id: int, from: int) -> int
    decreases txs.len() - from,
{
    if from < 0 || from >= txs.len() {
        txs.len() as int
    } else if txs[from].id == id {
        from
    } else {
        find_transaction(txs, id, from + 1)
    }
}

/// Whether a transaction can stand as the other side of a transfer found
/// by its notes: the notes are these, its category is `Transfer`, and it is
/// not the transaction `except` itself.
pub open spec fn is_unlinked_side(t: TransactionView, notes: Seq<char>, except: int) -> bool {
    t.notes == Some(notes) && t.category == Some("Transfer"@) && t.id != except
}

/// Index of the first transaction at or after `from` that `is_unlinked_side`
/// accepts; the number of transactions if there is none.
pub open spec fn find_by_notes(
    txs: Seq<TransactionView>,
    notes: Seq<char>,
    except: int,
    from: int,
) -> int
    decreases txs.len() - from,
{
    if from < 0 || from >= txs.len() {
        txs.len() as int
    } else if is_unlinked_side(txs[from], notes, except) {
        from
    } else {
        find_by_notes(txs, notes, except, from + 1)
    }
}

/// Index of the first account at or after `from` whose name is exactly
/// `payee` and which is not the account `source`; the number of accounts if
/// there is none.
pub open spec fn find_transfer_target(
    accs: Seq<AccountView>,
    payee: Seq<char>,
    source: int,
    from: int,
) -> int
    decreases accs.len() - from,
{
    if from < 0 || from >= accs.len() {
        accs.len() as int
    } else if accs[from].name == payee && accs[from].id != source {
        from
    } else {
        find_transfer_target(accs, payee, source, from + 1)
    }
}

/// The largest identifier among the first `n` accounts, or zero.
pub open spec fn max_account_id(accs: Seq<AccountView>, n: int) -> int
    decreases n,
{
    if n <= 0 {
        0
    } else {
        let m = max_account_id(accs, n - 1);
        if accs[n - 1].id > m {
            accs[n - 1].id
        } else {
            m
        }
    }
}

/// The largest identifier among the first `n` transactions, or zero.
pub open spec fn max_transaction_id(txs: Seq<TransactionView>, n: int) -> int
    decreases n,
{
    if n <= 0 {
        0
    } else {
        let m = max_transaction_id(txs, n - 1);
        if txs[n - 1].id > m {
            txs[n - 1].id
        } else {
            m
        }
    }
}

/// The identifier that the next account receives.
pub open spec fn next_account_id(accs: Seq<AccountView>) -> int {
    max_account_id(accs, accs.len() as int) + 1
}

/// The identifier that the next transaction receives.
pub open spec fn next_transaction_id(txs: Seq<TransactionView>) -> int {
    max_transaction_id(txs, txs.len() as int) + 1
}

/// The accounts after `delta` was added to the balance of the account `id`.
/// An identifier that names no account changes nothing. `None` where the
/// new balance cannot be recorded.
pub open spec fn adjust(accs: Seq<AccountView>, id: int, delta: int) -> Option<Seq<AccountView>> {
    let i = find_account(accs, id, 0);
    if i >= accs.len() {
        Some(accs)
    } else if fits(accs[i].balance + delta) {
        Some(accs.update(i, AccountView { balance: accs[i].balance + delta, ..accs[i] }))
    } else {
        None
    }
}

/// The sum of the amounts of those among the first `n` transactions that
/// belong to the account `account`.
pub open spec fn account_total(txs: Seq<TransactionView>, account: int, n: int) -> int
    decreases n,
{
    if n <= 0 {
        0
    } else if txs[n - 1].account_id == account {
        account_total(txs, account, n - 1) + txs[n - 1].amount
    } else {
        account_total(txs, account, n - 1)
    }
}

// ---------------------------------------------------------------------
// The same, on the records themselves
// ---------------------------------------------------------------------

impl Ledger {
    /// Empty books.
    pub fn new() -> (l: Ledger)
        ensures
            l@.accounts.len() == 0,
            l@.transactions.len() == 0,
            l@.rules.len() == 0,
            l@.custom_rates == Map::<Seq<char>, int>::empty(),
            consistent(l@),
    {
        Ledger {
            accounts: Vec::new(),
            transactions: Vec::new(),
            rules: Vec::new(),
            custom_rates: RateTable::new(),
        }
    }
}

/// Position of the first account with the identifier `id`.
pub fn account_index(accounts: &Vec<Account>, id: i32) -> (r: Option<usize>)
    ensures
        match r {
            Some(i) => i < accounts.len() && i == find_account(account_views(accounts@), id as int, 0),
            None => find_account(account_views(accounts@), id as int, 0) == accounts.len(),
        },
{
    let ghost s = account_views(accounts@);
    let mut i: usize = 0;
    while i < accounts.len()
        invariant
            0 <= i <= accounts.len(),
            s == account_views(accounts@),
            find_account(s, id as int, 0) == find_account(s, id as int, i as int),
        decreases accounts.len() - i,
    {
        if accounts[i].id == id {
            return Some(i);
        }
        i += 1;
    }
    None
}

/// Position of the first transaction with the identifier `id`.
pub fn transaction_index(transactions: &Vec<Transaction>, id: i32) -> (r: Option<usize>)
    ensures
        match r {
            Some(i) => i < transactions.len() && i == find_transaction(
                transaction_views(transactions@),
                id as int,
                0,
            ),
            None => find_transaction(transaction_views(transactions@), id as int, 0)
                == transactions.len(),
        },
{
    let ghost s = transaction_views(transactions@);
    let mut i: usize = 0;
    while i < transactions.len()
        invariant
            0 <= i <= transactions.len(),
            s == transaction_views(transactions@),
            find_transaction(s, id as int, 0) == find_transaction(s, id as int, i as int),
        decreases transactions.len() - i,
    {
        if transactions[i].id == id {
            return Some(i);
        }
        i += 1;
    }
    None
}

/// Position of the first transaction that can stand as the other side of a
/// transfer with these notes.
pub fn notes_index(transactions: &Vec<Transaction>, notes: &str, except: i32) -> (r: Option<usize>)
    ensures
        match r {
            Some(i) => i < transactions.len() && i == find_by_notes(
                transaction_views(transactions@),
                notes@,
                except as int,
                0,
            ),
            None => find_by_notes(transaction_views(transactions@), notes@, except as int, 0)
                == transactions.len(),
        },
{
    let ghost s = transaction_views(transactions@);
    let mut i: usize = 0;
    while i < transactions.len()
        invariant
            0 <= i <= transactions.len(),
            s == transaction_views(transactions@),
            find_by_notes(s, notes@, except as int, 0) == find_by_notes(
                s,
                notes@,
                except as int,
                i as int,
            ),
        decreases transactions.len() - i,
    {
        let t = &transactions[i];
        if t.id != except && is_text(&t.notes, notes) && is_text(&t.category, "Transfer") {
            return Some(i);
        }
        i += 1;
    }
    None
}

/// Position of the first account named exactly `payee` other than `source`.
pub fn transfer_target_index(accounts: &Vec<Account>, payee: &str, source: i32) -> (r: Option<
    usize,
>)
    ensures
        match r {
            Some(i) => i < accounts.len() && i == find_transfer_target(
                account_views(accounts@),
                payee@,
                source as int,
                0,
            ),
            None => find_transfer_target(account_views(accounts@), payee@, source as int, 0)
                == accounts.len(),
        },
{
    let ghost s = account_views(accounts@);
    let mut i: usize = 0;
    while i < accounts.len()
        invariant
            0 <= i <= accounts.len(),
            s == account_views(accounts@),
            find_transfer_target(s, payee@, source as int, 0) == find_transfer_target(
                s,
                payee@,
                source as int,
                i as int,
            ),
        decreases accounts.len() - i,
    {
        if accounts[i].id != source && same_text(accounts[i].name.as_str(), payee) {
            return Some(i);
        }
        i += 1;
    }
    None
}

/// The identifier for the next account, before any range check.
pub fn upcoming_account_id(accounts: &Vec<Account>) -> (r: i64)
    ensures
        r == next_account_id(account_views(accounts@)),
        1 <= r <= 0x8000_0000,
{
    let ghost s = account_views(accounts@);
    let mut m: i64 = 0;
    let mut i: usize = 0;
    while i < accounts.len()
        invariant
            0 <= i <= accounts.len(),
            s == account_views(accounts@),
            m == max_account_id(s, i as int),
            0 <= m <= 0x7fff_ffff,
        decreases accounts.len() - i,
    {
        if accounts[i].id as i64 > m {
            m = accounts[i].id as i64;
        }
        i += 1;
    }
    m + 1
}

/// The identifier for the next transaction, before any range check.
pub fn upcoming_transaction_id(transactions: &Vec<Transaction>) -> (r: i64)
    ensures
        r == next_transaction_id(transaction_views(transactions@)),
        1 <= r <= 0x8000_0000,
{
    let ghost s = transaction_views(transactions@);
    let mut m: i64 = 0;
    let mut i: usize = 0;
    while i < transactions.len()
        invariant
            0 <= i <= transactions.len(),
            s == transaction_views(transactions@),
            m == max_transaction_id(s, i as int),
            0 <= m <= 0x7fff_ffff,
        decreases transactions.len() - i,
    {
        if transactions[i].id as i64 > m {
            m = transactions[i].id as i64;
        }
        i += 1;
    }
    m + 1
}

/// Adds `delta` to the balance of the account `id`, if the new balance can
/// be recorded; says whether it could. An identifier that names no account
/// changes nothing and succeeds.
pub(crate) fn adjust_balance(accounts: &mut Vec<Account>, id: i32, delta: i128) -> (done: bool)
    requires
        -0x1_0000_0000_0000_0000 <= delta <= 0x1_0000_0000_0000_0000,
    ensures
        done == adjust(account_views(old(accounts)@), id as int, delta as int) is Some,
        done ==> account_views(final(accounts)@) == adjust(
            account_views(old(accounts)@),
            id as int,
            delta as int,
        )->Some_0,
        !done ==> account_views(final(accounts)@) == account_views(old(accounts)@),
{
    match account_index(accounts, id) {
        None => true,
        Some(i) => {
            let b: i128 = accounts[i].balance as i128 + delta;
            if b < -0x8000_0000_0000_0000 || b > 0x7fff_ffff_ffff_ffff {
                false
            } else {
                let ghost before = account_views(accounts@);
                accounts[i].balance = b as i64;
                assert(account_views(accounts@) =~= before.update(
                    i as int,
                    AccountView { balance: b as int, ..before[i as int] },
                ));
                true
            }
        },
    }
}

/// Appends a transaction.
pub(crate) fn push_transaction(transactions: &mut Vec<Transaction>, row: Transaction)
    ensures
        transaction_views(final(transactions)@) == transaction_views(old(transactions)@).push(row@),
{
    transactions.push(row);
    assert(transaction_views(transactions@) =~= transaction_views(old(transactions)@).push(row@));
}

/// Replaces the transaction at `i`.
pub(crate) fn put_transaction(transactions: &mut Vec<Transaction>, i: usize, row: Transaction)
    requires
        i < old(transactions).len(),
    ensures
        transaction_views(final(transactions)@) == transaction_views(old(transactions)@).update(
            i as int,
            row@,
        ),
{
    transactions[i] = row;
    assert(transaction_views(transactions@) =~= transaction_views(old(transactions)@).update(
        i as int,
        row@,
    ));
}

/// Takes the transaction at `i` out.
pub(crate) fn take_transaction(transactions: &mut Vec<Transaction>, i: usize)
    requires
        i < old(transactions).len(),
    ensures
        transaction_views(final(transactions)@) == transaction_views(old(transactions)@).remove(
            i as int,
        ),
{
    transactions.remove(i);
    assert(transaction_views(transactions@) =~= transaction_views(old(transactions)@).remove(
        i as int,
    ));
}

} // verus!
