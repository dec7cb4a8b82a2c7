//! The account store: creating, renaming, updating, deleting and listing
//! accounts.

use crate::decimal::SCALE;
use crate::laws::{
    consistent, lemma_account_created_consistent, lemma_account_deleted_consistent,
    lemma_account_updated_consistent,
};
use crate::ledger::{
    account_index, agrees, find_account, next_account_id, next_transaction_id, push_transaction,
    upcoming_account_id, upcoming_transaction_id, Ledger, LedgerView,
};
use crate::models::{
    account_views, duplicate_accounts, transaction_views, Account, AccountView, LedgerError,
    Transaction, TransactionView,
};
use crate::text::{eq_ignore_ascii_case, opt_text, same_folded, trim, trimmed};
use vstd::prelude::*;

verus! {

/// Whether some account other than `except` bears `name`, up to the case of
/// ASCII letters.
pub open spec fn name_taken(accs: Seq<AccountView>, name: Seq<char>, except: Option<int>) -> bool {
    exists|i: int|
        0 <= i < accs.len() && same_folded((#[trigger] accs[i]).name, name) && Some(accs[i].id)
            != except
}

/// The transaction that records the balance an account starts with.
pub open spec fn opening_transaction(
    id: int,
    account_id: int,
    today: Seq<char>,
    balance: int,
    currency: Option<Seq<char>>,
) -> TransactionView {
    TransactionView {
        id,
        account_id,
        date: today,
        payee: "Opening Balance"@,
        notes: Some("Initial Balance"@),
        category: Some("Income"@),
        amount: balance,
        ticker: None,
        shares: None,
        price_per_share: None,
        fee: None,
        currency,
        linked_tx_id: None,
    }
}

/// Creating an account. The name is trimmed. An empty name is refused, and
/// so is one that another account bears. The account starts with the given
/// balance; unless that is zero, one transaction of that amount, dated
/// `today`, is recorded with it.
pub open spec fn account_created(
    l: LedgerView,
    name: Seq<char>,
    balance: int,
    currency: Option<Seq<char>>,
    today: Seq<char>,
) -> Result<(LedgerView, AccountView), LedgerError> {
    let n = trimmed(name);
    let id = next_account_id(l.accounts);
    let tid = next_transaction_id(l.transactions);
    if n.len() == 0 {
        Err(LedgerError::Validation)
    } else if name_taken(l.accounts, n, None) {
        Err(LedgerError::DuplicateName)
    } else if id > i32::MAX || (balance != 0 && tid > i32::MAX) {
        Err(LedgerError::OutOfRange)
    } else {
        let a = AccountView { id, name: n, balance, currency, exchange_rate: SCALE as int };
        let txs = if balance != 0 {
            l.transactions.push(opening_transaction(tid, id, today, balance, currency))
        } else {
            l.transactions
        };
        Ok((LedgerView { accounts: l.accounts.push(a), transactions: txs, ..l }, a))
    }
}

/// Renaming an account, and giving it a currency where `currency` is
/// `Some`. The name is trimmed; an empty name is refused, then one that
/// another account bears, then an identifier that names no account.
pub open spec fn account_updated(
    l: LedgerView,
    id: int,
    name: Seq<char>,
    currency: Option<Option<Seq<char>>>,
) -> Result<(LedgerView, AccountView), LedgerError> {
    let n = trimmed(name);
    let i = find_account(l.accounts, id, 0);
    if n.len() == 0 {
        Err(LedgerError::Validation)
    } else if name_taken(l.accounts, n, Some(id)) {
        Err(LedgerError::DuplicateName)
    } else if i >= l.accounts.len() {
        Err(LedgerError::NotFound)
    } else {
        let c = match currency {
            Some(c) => c,
            None => l.accounts[i].currency,
        };
        let a = AccountView { name: n, currency: c, ..l.accounts[i] };
        Ok(
            (
                LedgerView { accounts: l.accounts.update(i, a), ..l },
                AccountView { exchange_rate: SCALE as int, ..a },
            ),
        )
    }
}

/// Those among the first `n` transactions that do not belong to the
/// account `account`, in their order.
pub open spec fn transactions_outside(txs: Seq<TransactionView>, account: int, n: int) -> Seq<
    TransactionView,
>
    decreases n,
{
    if n <= 0 {
        Seq::empty()
    } else if txs[n - 1].account_id == account {
        transactions_outside(txs, account, n - 1)
    } else {
        transactions_outside(txs, account, n - 1).push(txs[n - 1])
    }
}

/// Deleting an account: its transactions go, then the account itself.
/// An identifier that names no account leaves the accounts as they are.
pub open spec fn account_deleted(l: LedgerView, id: int) -> LedgerView {
    let i = find_account(l.accounts, id, 0);
    LedgerView {
        accounts: if i < l.accounts.len() {
            l.accounts.remove(i)
        } else {
            l.accounts
        },
        transactions: transactions_outside(l.transactions, id, l.transactions.len() as int),
        ..l
    }
}

/// The accounts as they are listed: each with an exchange rate of one.
pub open spec fn listed(accs: Seq<AccountView>) -> Seq<AccountView> {
    accs.map_values(|a: AccountView| AccountView { exchange_rate: SCALE as int, ..a })
}

/// What a change asks of the currency: nothing (`None`), or a new value.
pub open spec fn asked_currency(c: Option<Option<String>>) -> Option<Option<Seq<char>>> {
    match c {
        Some(v) => Some(opt_text(v)),
        None => None,
    }
}

fn name_in_use(accounts: &Vec<Account>, name: &str, except: Option<i32>) -> (r: bool)
    ensures
        r == name_taken(
            account_views(accounts@),
            name@,
            match except {
                Some(e) => Some(e as int),
                None => None,
            },
        ),
{
    let ghost s = account_views(accounts@);
    let ghost ex: Option<int> = match except {
        Some(e) => Some(e as int),
        None => None,
    };
    let mut i: usize = 0;
    while i < accounts.len()
        invariant
            0 <= i <= accounts.len(),
            s == account_views(accounts@),
            ex == (match except {
                Some(e) => Some(e as int),
                None => None::<int>,
            }),
            forall|k: int|
                0 <= k < i ==> !(same_folded((#[trigger] s[k]).name, name@) && Some(s[k].id) != ex),
        decreases accounts.len() - i,
    {
        let other = match except {
            Some(e) => accounts[i].id != e,
            None => true,
        };
        if other && eq_ignore_ascii_case(accounts[i].name.as_str(), name) {
            assert(same_folded(s[i as int].name, name@) && Some(s[i as int].id) != ex);
            return true;
        }
        i += 1;
    }
    false
}

/// Creates an account, as `account_created` says. `today` is the date, in
/// ISO form, that the transaction recording a balance other than zero
/// bears.
pub fn create_account_db(
    ledger: &mut Ledger,
    name: String,
    balance: i64,
    currency: Option<String>,
    today: String,
) -> (r: Result<Account, LedgerError>)
    ensures
        agrees(
            r,
            old(ledger)@,
            final(ledger)@,
            account_created(old(ledger)@, name@, balance as int, opt_text(currency), today@),
        ),
        consistent(old(ledger)@) ==> consistent(final(ledger)@),
{
    proof {
        if consistent(ledger@) && account_created(ledger@, name@, balance as int, opt_text(currency), today@) is Ok {
            lemma_account_created_consistent(ledger@, name@, balance as int, opt_text(currency), today@);
        }
    }
    let name_trimmed = trim(name.as_str());
    if name_trimmed.as_str().is_empty() {
        return Err(LedgerError::Validation);
    }
    if name_in_use(&ledger.accounts, name_trimmed.as_str(), None) {
        return Err(LedgerError::DuplicateName);
    }
    let id = upcoming_account_id(&ledger.accounts);
    let tid = upcoming_transaction_id(&ledger.transactions);
    if id > 0x7fff_ffff || (balance != 0 && tid > 0x7fff_ffff) {
        return Err(LedgerError::OutOfRange);
    }
    let account = Account {
        id: id as i32,
        name: name_trimmed,
        balance,
        currency: currency.clone(),
        exchange_rate: SCALE,
    };
    let stored = account.duplicate();
    let ghost before = account_views(ledger.accounts@);
    ledger.accounts.push(stored);
    assert(account_views(ledger.accounts@) =~= before.push(account@));
    if balance != 0 {
        push_transaction(
            &mut ledger.transactions,
            Transaction {
                id: tid as i32,
                account_id: id as i32,
                date: today,
                payee: "Opening Balance".to_owned(),
                notes: Some("Initial Balance".to_owned()),
                category: Some("Income".to_owned()),
                amount: balance,
                ticker: None,
                shares: None,
                price_per_share: None,
                fee: None,
                currency,
                linked_tx_id: None,
            },
        );
    }
    Ok(account)
}

fn update_stored_account(
    ledger: &mut Ledger,
    id: i32,
    name: String,
    currency: Option<Option<String>>,
) -> (r: Result<Account, LedgerError>)
    ensures
        agrees(
            r,
            old(ledger)@,
            final(ledger)@,
            account_updated(
                old(ledger)@,
                id as int,
                name@,
                asked_currency(currency),
            ),
        ),
        consistent(old(ledger)@) ==> consistent(final(ledger)@),
{
    proof {
        if consistent(ledger@) && account_updated(ledger@, id as int, name@, asked_currency(currency)) is Ok {
            lemma_account_updated_consistent(ledger@, id as int, name@, asked_currency(currency));
        }
    }
    let name_trimmed = trim(name.as_str());
    if name_trimmed.as_str().is_empty() {
        return Err(LedgerError::Validation);
    }
    if name_in_use(&ledger.accounts, name_trimmed.as_str(), Some(id)) {
        return Err(LedgerError::DuplicateName);
    }
    match account_index(&ledger.accounts, id) {
        None => Err(LedgerError::NotFound),
        Some(i) => {
            let ghost before = account_views(ledger.accounts@);
            let mut account = ledger.accounts[i].duplicate();
            account.name = name_trimmed;
            match currency {
                Some(c) => {
                    account.currency = c;
                },
                None => {},
            }
            let stored = account.duplicate();
            ledger.accounts[i] = stored;
            assert(account_views(ledger.accounts@) =~= before.update(i as int, account@));
            account.exchange_rate = SCALE;
            Ok(account)
        },
    }
}

/// Gives the account `id` a new name, as `account_updated` says.
pub fn rename_account_db(ledger: &mut Ledger, id: i32, new_name: String) -> (r: Result<
    Account,
    LedgerError,
>)
    ensures
        agrees(
            r,
            old(ledger)@,
            final(ledger)@,
            account_updated(old(ledger)@, id as int, new_name@, None),
        ),
        consistent(old(ledger)@) ==> consistent(final(ledger)@),
{
    update_stored_account(ledger, id, new_name, None)
}

/// Gives the account `id` a new name and a new currency (or none), as
/// `account_updated` says.
pub fn update_account_db(ledger: &mut Ledger, id: i32, name: String, currency: Option<String>) -> (r:
    Result<Account, LedgerError>)
    ensures
        agrees(
            r,
            old(ledger)@,
            final(ledger)@,
            account_updated(old(ledger)@, id as int, name@, Some(opt_text(currency))),
        ),
        consistent(old(ledger)@) ==> consistent(final(ledger)@),
{
    update_stored_account(ledger, id, name, Some(currency))
}

/// Deletes the account `id` and every transaction of it. An identifier
/// that names no account is no error.
pub fn delete_account_db(ledger: &mut Ledger, id: i32) -> (r: Result<(), LedgerError>)
    ensures
        r is Ok,
        final(ledger)@ == account_deleted(old(ledger)@, id as int),
        consistent(old(ledger)@) ==> consistent(final(ledger)@),
{
    proof {
        if consistent(ledger@) {
            lemma_account_deleted_consistent(ledger@, id as int);
        }
    }
    let ghost txs = transaction_views(ledger.transactions@);
    let mut kept: Vec<Transaction> = Vec::new();
    let mut i: usize = 0;
    while i < ledger.transactions.len()
        invariant
            0 <= i <= ledger.transactions.len(),
            *ledger == *old(ledger),
            txs == transaction_views(ledger.transactions@),
            transaction_views(kept@) == transactions_outside(txs, id as int, i as int),
        decreases ledger.transactions.len() - i,
    {
        if ledger.transactions[i].account_id != id {
            let row = ledger.transactions[i].duplicate();
            push_transaction(&mut kept, row);
        }
        i += 1;
    }
    ledger.transactions = kept;
    match account_index(&ledger.accounts, id) {
        Some(k) => {
            let ghost before = account_views(ledger.accounts@);
            ledger.accounts.remove(k);
            assert(account_views(ledger.accounts@) =~= before.remove(k as int));
        },
        None => {},
    }
    Ok(())
}

/// The accounts, in the order in which they were created, each with an
/// exchange rate of one.
pub fn get_accounts_db(ledger: &Ledger) -> (r: Result<Vec<Account>, LedgerError>)
    ensures
        r is Ok,
        account_views(r->Ok_0@) == listed(ledger@.accounts),
{
    let mut out = duplicate_accounts(&ledger.accounts);
    let ghost s = account_views(out@);
    let mut i: usize = 0;
    while i < out.len()
        invariant
            0 <= i <= out.len(),
            out.len() == s.len(),
            s == ledger@.accounts,
            forall|k: int|
                0 <= k < i ==> (#[trigger] out@[k])@ == (AccountView {
                    exchange_rate: SCALE as int,
                    ..s[k]
                }),
            forall|k: int| i <= k < out.len() ==> (#[trigger] out@[k])@ == s[k],
        decreases out.len() - i,
    {
        out[i].exchange_rate = SCALE;
        i += 1;
    }
    assert(account_views(out@) =~= listed(ledger@.accounts));
    Ok(out)
}

} // verus!
