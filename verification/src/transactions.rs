//! The transaction ledger: recording, changing and deleting transactions,
//! keeping the balance of each account and the two sides of each transfer
//! in step.

use crate::decimal::{
    checked_investment_amount, fits, investment_amount, render, rendered, signed_shares,
};
use crate::laws::{
    consistent, lemma_investment_created_consistent, lemma_investment_updated_consistent,
    lemma_transaction_created_consistent, lemma_transaction_deleted_consistent,
    lemma_transaction_updated_consistent,
};
use crate::ledger::{
    account_index, adjust, adjust_balance, agrees, find_account, find_by_notes, find_transaction,
    find_transfer_target, next_transaction_id, notes_index, push_transaction, put_transaction,
    take_transaction, transaction_index, transfer_target_index, upcoming_transaction_id, Ledger,
    LedgerView,
};
use crate::models::{
    account_views, duplicate_accounts, duplicate_transactions, opt_int, transaction_views,
    Account, AccountView, LedgerError, Transaction, TransactionView,
};
use crate::rules::{
    apply_rules_to_transaction, lemma_rules_touch_labels, rules_applied, rules_in_order,
    sorted_rules,
};
use crate::text::opt_text;
use vstd::prelude::*;

verus! {

/// What is asked when a transaction is recorded.
#[derive(Clone, Debug, PartialEq, Eq)]
pub struct CreateTransactionArgs {
    pub account_id: i32,
    pub date: String,
    pub payee: String,
    pub notes: Option<String>,
    pub category: Option<String>,
    pub amount: i64,
    pub ticker: Option<String>,
    pub shares: Option<i64>,
    pub price_per_share: Option<i64>,
    pub fee: Option<i64>,
    pub currency: Option<String>,
}

/// What is asked when a purchase or a sale of shares is recorded.
#[derive(Clone, Debug, PartialEq, Eq)]
pub struct CreateInvestmentTransactionArgs {
    pub account_id: i32,
    pub date: String,
    pub ticker: String,
    pub shares: i64,
    pub price_per_share: i64,
    pub fee: i64,
    pub is_buy: bool,
    pub currency: Option<String>,
}

/// What is asked when a transaction is changed.
#[derive(Clone, Debug, PartialEq, Eq)]
pub struct UpdateTransactionArgs {
    pub id: i32,
    pub account_id: i32,
    pub date: String,
    pub payee: String,
    pub notes: Option<String>,
    pub category: Option<String>,
    pub amount: i64,
    pub currency: Option<String>,
}

/// What is asked when a purchase or a sale of shares is changed.
#[derive(Clone, Debug, PartialEq, Eq)]
pub struct UpdateInvestmentTransactionArgs {
    pub id: i32,
    pub account_id: i32,
    pub date: String,
    pub ticker: String,
    pub shares: i64,
    pub price_per_share: i64,
    pub fee: i64,
    pub is_buy: bool,
    pub notes: Option<String>,
    pub currency: Option<String>,
}

// ---------------------------------------------------------------------
// Recording a transaction
// ---------------------------------------------------------------------

/// The draft that the rules are tried on when a transaction is recorded.
pub open spec fn draft_of(args: CreateTransactionArgs) -> TransactionView {
    TransactionView {
        id: 0,
        account_id: args.account_id as int,
        date: args.date@,
        payee: args.payee@,
        notes: opt_text(args.notes),
        category: opt_text(args.category),
        amount: args.amount as int,
        ticker: opt_text(args.ticker),
        shares: opt_int(args.shares),
        price_per_share: opt_int(args.price_per_share),
        fee: opt_int(args.fee),
        currency: opt_text(args.currency),
        linked_tx_id: None,
    }
}

/// The other side of a transfer: in the target account, with the amount
/// negated, the source account's name as payee, and the notes as they were
/// asked for.
pub open spec fn mirror_of(
    args: CreateTransactionArgs,
    id: int,
    target: int,
    source_name: Seq<char>,
    primary: int,
) -> TransactionView {
    TransactionView {
        id,
        account_id: target,
        date: args.date@,
        payee: source_name,
        notes: opt_text(args.notes),
        category: Some("Transfer"@),
        amount: -args.amount,
        ticker: None,
        shares: None,
        price_per_share: None,
        fee: None,
        currency: None,
        linked_tx_id: Some(primary),
    }
}

/// Recording a transaction. The rules are tried on the draft and give the
/// payee, the notes and the category. Where the payee is then the exact
/// name of another account, the transaction is one side of a transfer: its
/// category is `Transfer`, a mirror is recorded in that account, each side
/// names the other, and both balances move. Otherwise the one balance
/// moves. An account that does not exist is refused.
pub open spec fn transaction_created(l: LedgerView, args: CreateTransactionArgs) -> Result<
    (LedgerView, TransactionView),
    LedgerError,
> {
    let d = rules_applied(draft_of(args), rules_in_order(l.rules), 0);
    let si = find_account(l.accounts, args.account_id as int, 0);
    let ti = find_transfer_target(l.accounts, d.payee, args.account_id as int, 0);
    let id = next_transaction_id(l.transactions);
    if si >= l.accounts.len() {
        Err(LedgerError::NotFound)
    } else if ti >= l.accounts.len() {
        if id > i32::MAX {
            Err(LedgerError::OutOfRange)
        } else {
            match adjust(l.accounts, args.account_id as int, args.amount as int) {
                None => Err(LedgerError::OutOfRange),
                Some(accs) => {
                    let t = TransactionView {
                        id,
                        payee: d.payee,
                        notes: d.notes,
                        category: d.category,
                        ..draft_of(args)
                    };
                    Ok((LedgerView { accounts: accs, transactions: l.transactions.push(t), ..l }, t))
                },
            }
        }
    } else {
        let target = l.accounts[ti].id;
        if id + 1 > i32::MAX || !fits(-args.amount) {
            Err(LedgerError::OutOfRange)
        } else {
            match adjust(l.accounts, args.account_id as int, args.amount as int) {
                None => Err(LedgerError::OutOfRange),
                Some(a1) => match adjust(a1, target, -args.amount) {
                    None => Err(LedgerError::OutOfRange),
                    Some(a2) => {
                        let t = TransactionView {
                            id,
                            payee: d.payee,
                            notes: d.notes,
                            category: Some("Transfer"@),
                            linked_tx_id: Some(id + 1),
                            ..draft_of(args)
                        };
                        let m = mirror_of(args, id + 1, target, l.accounts[si].name, id);
                        Ok(
                            (
                                LedgerView {
                                    accounts: a2,
                                    transactions: l.transactions.push(t).push(m),
                                    ..l
                                },
                                t,
                            ),
                        )
                    },
                },
            }
        }
    }
}

/// Records a transaction, as `transaction_created` says.
pub fn create_transaction_db(ledger: &mut Ledger, args: CreateTransactionArgs) -> (r: Result<
    Transaction,
    LedgerError,
>)
    ensures
        agrees(r, old(ledger)@, final(ledger)@, transaction_created(old(ledger)@, args)),
        consistent(old(ledger)@) ==> consistent(final(ledger)@),
{
    proof {
        if consistent(ledger@) && transaction_created(ledger@, args) is Ok {
            lemma_transaction_created_consistent(ledger@, args);
        }
    }
    let rules = sorted_rules(&ledger.rules);
    let mut temp_tx = Transaction {
        id: 0,
        account_id: args.account_id,
        date: args.date.clone(),
        payee: args.payee.clone(),
        notes: args.notes.clone(),
        category: args.category.clone(),
        amount: args.amount,
        ticker: args.ticker.clone(),
        shares: args.shares,
        price_per_share: args.price_per_share,
        fee: args.fee,
        currency: args.currency.clone(),
        linked_tx_id: None,
    };
    apply_rules_to_transaction(&mut temp_tx, rules.as_slice());
    proof {
        lemma_rules_touch_labels(draft_of(args), rules_in_order(ledger@.rules), 0);
    }
    let si = match account_index(&ledger.accounts, args.account_id) {
        None => {
            return Err(LedgerError::NotFound);
        },
        Some(i) => i,
    };
    let target = transfer_target_index(&ledger.accounts, temp_tx.payee.as_str(), args.account_id);
    let id = upcoming_transaction_id(&ledger.transactions);
    let mut accounts = duplicate_accounts(&ledger.accounts);
    match target {
        None => {
            if id > 0x7fff_ffff {
                return Err(LedgerError::OutOfRange);
            }
            if !adjust_balance(&mut accounts, args.account_id, args.amount as i128) {
                return Err(LedgerError::OutOfRange);
            }
            temp_tx.id = id as i32;
            let stored = temp_tx.duplicate();
            ledger.accounts = accounts;
            push_transaction(&mut ledger.transactions, stored);
            Ok(temp_tx)
        },
        Some(ti) => {
            let target_id = ledger.accounts[ti].id;
            if id + 1 > 0x7fff_ffff || args.amount == i64::MIN {
                return Err(LedgerError::OutOfRange);
            }
            if !adjust_balance(&mut accounts, args.account_id, args.amount as i128) {
                return Err(LedgerError::OutOfRange);
            }
            if !adjust_balance(&mut accounts, target_id, -(args.amount as i128)) {
                return Err(LedgerError::OutOfRange);
            }
            temp_tx.id = id as i32;
            temp_tx.category = Some("Transfer".to_owned());
            temp_tx.linked_tx_id = Some((id + 1) as i32);
            let stored = temp_tx.duplicate();
            let mirror = Transaction {
                id: (id + 1) as i32,
                account_id: target_id,
                date: args.date.clone(),
                payee: ledger.accounts[si].name.clone(),
                notes: args.notes.clone(),
                category: Some("Transfer".to_owned()),
                amount: -args.amount,
                ticker: None,
                shares: None,
                price_per_share: None,
                fee: None,
                currency: None,
                linked_tx_id: Some(id as i32),
            };
            ledger.accounts = accounts;
            push_transaction(&mut ledger.transactions, stored);
            push_transaction(&mut ledger.transactions, mirror);
            Ok(temp_tx)
        },
    }
}

// ---------------------------------------------------------------------
// Changing a transaction
// ---------------------------------------------------------------------

/// The accounts after a transaction of `old_amount` in the account `from`
/// became one of `amount` in the account `to`: one balance moves by the
/// difference where the account stays, else the old amount leaves the one
/// account and the new amount enters the other.
pub open spec fn moved(accs: Seq<AccountView>, from: int, old_amount: int, to: int, amount: int) -> Option<
    Seq<AccountView>,
> {
    if from == to {
        adjust(accs, to, amount - old_amount)
    } else {
        match adjust(accs, from, -old_amount) {
            Some(a) => adjust(a, to, amount),
            None => None,
        }
    }
}

/// The transactions after the first one with the identifier `id` was made
/// to name `to` as its other side.
pub open spec fn linked(txs: Seq<TransactionView>, id: int, to: int) -> Seq<TransactionView> {
    let k = find_transaction(txs, id, 0);
    if k < txs.len() {
        txs.update(k, TransactionView { linked_tx_id: Some(to), ..txs[k] })
    } else {
        txs
    }
}

/// The other side of the transaction `id`: the one it names, or, where it
/// names none and has notes, the first transaction found by those notes.
pub open spec fn counterpart(
    txs: Seq<TransactionView>,
    link: Option<int>,
    notes: Option<Seq<char>>,
    id: int,
) -> Option<int> {
    match link {
        Some(c) => Some(c),
        None => match notes {
            Some(n) => {
                let k = find_by_notes(txs, n, id, 0);
                if k < txs.len() {
                    Some(txs[k].id)
                } else {
                    None
                }
            },
            None => None,
        },
    }
}

/// The transaction `old` with what was asked written over it.
pub open spec fn rewritten(old: TransactionView, args: UpdateTransactionArgs) -> TransactionView {
    TransactionView {
        account_id: args.account_id as int,
        date: args.date@,
        payee: args.payee@,
        notes: opt_text(args.notes),
        category: opt_text(args.category),
        amount: args.amount as int,
        currency: opt_text(args.currency),
        ..old
    }
}

/// The other side `ctr` of a transfer after its first side was changed:
/// same date, notes and currency, the amount negated, the category
/// `Transfer`, and the first side's account as payee.
pub open spec fn mirrored(ctr: TransactionView, args: UpdateTransactionArgs, source_name: Seq<char>) -> TransactionView {
    TransactionView {
        date: args.date@,
        payee: source_name,
        notes: opt_text(args.notes),
        category: Some("Transfer"@),
        amount: -args.amount,
        currency: opt_text(args.currency),
        ..ctr
    }
}

/// What is handed back when a transaction was changed.
pub open spec fn update_receipt(args: UpdateTransactionArgs, link: Option<int>) -> TransactionView {
    TransactionView {
        id: args.id as int,
        account_id: args.account_id as int,
        date: args.date@,
        payee: args.payee@,
        notes: opt_text(args.notes),
        category: opt_text(args.category),
        amount: args.amount as int,
        ticker: None,
        shares: None,
        price_per_share: None,
        fee: None,
        currency: opt_text(args.currency),
        linked_tx_id: link,
    }
}

/// Changing a transaction. An identifier that names no transaction is
/// refused, then an account that does not exist. The transaction takes
/// what was asked and the balances follow (`moved`). Its other side is
/// resolved (`counterpart`); one found by its notes is linked from then on,
/// both ways. Where the other side exists it is made the mirror of the
/// change (`mirrored`) and the balance of its account follows.
pub open spec fn transaction_updated(l: LedgerView, args: UpdateTransactionArgs) -> Result<
    (LedgerView, TransactionView),
    LedgerError,
> {
    let i = find_transaction(l.transactions, args.id as int, 0);
    let ai = find_account(l.accounts, args.account_id as int, 0);
    if i >= l.transactions.len() {
        Err(LedgerError::NotFound)
    } else if ai >= l.accounts.len() {
        Err(LedgerError::Constraint)
    } else {
        let old = l.transactions[i];
        let txs1 = l.transactions.update(i, rewritten(old, args));
        match moved(
            l.accounts,
            old.account_id,
            old.amount,
            args.account_id as int,
            args.amount as int,
        ) {
            None => Err(LedgerError::OutOfRange),
            Some(accs1) => {
                let other = counterpart(txs1, old.linked_tx_id, opt_text(args.notes), args.id as int);
                let txs2 = if old.linked_tx_id is None && other is Some {
                    linked(linked(txs1, args.id as int, other->Some_0), other->Some_0, args.id as int)
                } else {
                    txs1
                };
                let receipt = update_receipt(args, other);
                let k = match other {
                    Some(c) => find_transaction(txs2, c, 0),
                    None => txs2.len() as int,
                };
                if k >= txs2.len() {
                    Ok((LedgerView { accounts: accs1, transactions: txs2, ..l }, receipt))
                } else if !fits(-args.amount) {
                    Err(LedgerError::OutOfRange)
                } else {
                    match adjust(accs1, txs2[k].account_id, -args.amount - txs2[k].amount) {
                        None => Err(LedgerError::OutOfRange),
                        Some(accs2) => Ok(
                            (
                                LedgerView {
                                    accounts: accs2,
                                    transactions: txs2.update(
                                        k,
                                        mirrored(txs2[k], args, l.accounts[ai].name),
                                    ),
                                    ..l
                                },
                                receipt,
                            ),
                        ),
                    }
                }
            },
        }
    }
}

fn move_amount(accounts: &mut Vec<Account>, from: i32, old_amount: i64, to: i32, amount: i64) -> (done: bool)
    ensures
        done == moved(
            account_views(old(accounts)@),
            from as int,
            old_amount as int,
            to as int,
            amount as int,
        ) is Some,
        done ==> account_views(final(accounts)@) == moved(
            account_views(old(accounts)@),
            from as int,
            old_amount as int,
            to as int,
            amount as int,
        )->Some_0,
{
    if from == to {
        adjust_balance(accounts, to, amount as i128 - old_amount as i128)
    } else {
        if !adjust_balance(accounts, from, -(old_amount as i128)) {
            return false;
        }
        adjust_balance(accounts, to, amount as i128)
    }
}

fn set_link(transactions: &mut Vec<Transaction>, id: i32, to: i32)
    ensures
        transaction_views(final(transactions)@) == linked(
            transaction_views(old(transactions)@),
            id as int,
            to as int,
        ),
{
    match transaction_index(transactions, id) {
        Some(k) => {
            let mut row = transactions[k].duplicate();
            row.linked_tx_id = Some(to);
            put_transaction(transactions, k, row);
        },
        None => {},
    }
}

/// Changes a transaction, as `transaction_updated` says.
pub fn update_transaction_db(ledger: &mut Ledger, args: UpdateTransactionArgs) -> (r: Result<
    Transaction,
    LedgerError,
>)
    ensures
        agrees(r, old(ledger)@, final(ledger)@, transaction_updated(old(ledger)@, args)),
        consistent(old(ledger)@) ==> consistent(final(ledger)@),
{
    proof {
        if consistent(ledger@) && transaction_updated(ledger@, args) is Ok {
            lemma_transaction_updated_consistent(ledger@, args);
        }
    }
    let i = match transaction_index(&ledger.transactions, args.id) {
        None => {
            return Err(LedgerError::NotFound);
        },
        Some(i) => i,
    };
    let ai = match account_index(&ledger.accounts, args.account_id) {
        None => {
            return Err(LedgerError::Constraint);
        },
        Some(a) => a,
    };
    let mut accounts = duplicate_accounts(&ledger.accounts);
    let mut txs = duplicate_transactions(&ledger.transactions);
    let old_amount = txs[i].amount;
    let old_account = txs[i].account_id;
    let old_link = txs[i].linked_tx_id;
    let mut row = txs[i].duplicate();
    row.account_id = args.account_id;
    row.date = args.date.clone();
    row.payee = args.payee.clone();
    row.notes = args.notes.clone();
    row.category = args.category.clone();
    row.amount = args.amount;
    row.currency = args.currency.clone();
    put_transaction(&mut txs, i, row);
    if !move_amount(&mut accounts, old_account, old_amount, args.account_id, args.amount) {
        return Err(LedgerError::OutOfRange);
    }
    let mut other: Option<i32> = old_link;
    if old_link.is_none() {
        match &args.notes {
            Some(n) => {
                match notes_index(&txs, n.as_str(), args.id) {
                    Some(k) => {
                        let found = txs[k].id;
                        other = Some(found);
                        set_link(&mut txs, args.id, found);
                        set_link(&mut txs, found, args.id);
                    },
                    None => {},
                }
            },
            None => {},
        }
    }
    let receipt = Transaction {
        id: args.id,
        account_id: args.account_id,
        date: args.date.clone(),
        payee: args.payee.clone(),
        notes: args.notes.clone(),
        category: args.category.clone(),
        amount: args.amount,
        ticker: None,
        shares: None,
        price_per_share: None,
        fee: None,
        currency: args.currency.clone(),
        linked_tx_id: other,
    };
    let found = match other {
        Some(c) => transaction_index(&txs, c),
        None => None,
    };
    match found {
        None => {},
        Some(k) => {
            if args.amount == i64::MIN {
                return Err(LedgerError::OutOfRange);
            }
            let ctr_amount = txs[k].amount;
            let ctr_account = txs[k].account_id;
            let mut mirror = txs[k].duplicate();
            mirror.date = args.date.clone();
            mirror.payee = ledger.accounts[ai].name.clone();
            mirror.notes = args.notes.clone();
            mirror.category = Some("Transfer".to_owned());
            mirror.amount = -args.amount;
            mirror.currency = args.currency.clone();
            put_transaction(&mut txs, k, mirror);
            if !adjust_balance(&mut accounts, ctr_account, -(args.amount as i128) - ctr_amount as i128) {
                return Err(LedgerError::OutOfRange);
            }
        },
    }
    ledger.accounts = accounts;
    ledger.transactions = txs;
    Ok(receipt)
}

// ---------------------------------------------------------------------
// Deleting a transaction
// ---------------------------------------------------------------------

/// Deleting a transaction. An identifier that names no transaction is
/// refused. The transaction goes and its amount leaves the balance of its
/// account. Its other side, resolved as in a change, goes with it where it
/// exists, and its amount leaves the balance of its own account.
pub open spec fn transaction_deleted(l: LedgerView, id: int) -> Result<(LedgerView, ()), LedgerError> {
    let i = find_transaction(l.transactions, id, 0);
    if i >= l.transactions.len() {
        Err(LedgerError::NotFound)
    } else {
        let t = l.transactions[i];
        let txs1 = l.transactions.remove(i);
        match adjust(l.accounts, t.account_id, -t.amount) {
            None => Err(LedgerError::OutOfRange),
            Some(accs1) => {
                let k = match t.linked_tx_id {
                    Some(c) => find_transaction(txs1, c, 0),
                    None => match t.notes {
                        Some(n) => find_by_notes(txs1, n, id, 0),
                        None => txs1.len() as int,
                    },
                };
                if k >= txs1.len() {
                    Ok((LedgerView { accounts: accs1, transactions: txs1, ..l }, ()))
                } else {
                    match adjust(accs1, txs1[k].account_id, -txs1[k].amount) {
                        None => Err(LedgerError::OutOfRange),
                        Some(accs2) => Ok(
                            (
                                LedgerView { accounts: accs2, transactions: txs1.remove(k), ..l },
                                (),
                            ),
                        ),
                    }
                }
            },
        }
    }
}

/// Deletes a transaction, as `transaction_deleted` says.
pub fn delete_transaction_db(ledger: &mut Ledger, id: i32) -> (r: Result<(), LedgerError>)
    ensures
        agrees(r, old(ledger)@, final(ledger)@, transaction_deleted(old(ledger)@, id as int)),
        consistent(old(ledger)@) ==> consistent(final(ledger)@),
{
    proof {
        if consistent(ledger@) && transaction_deleted(ledger@, id as int) is Ok {
            lemma_transaction_deleted_consistent(ledger@, id as int);
        }
    }
    let i = match transaction_index(&ledger.transactions, id) {
        None => {
            return Err(LedgerError::NotFound);
        },
        Some(i) => i,
    };
    let mut accounts = duplicate_accounts(&ledger.accounts);
    let mut txs = duplicate_transactions(&ledger.transactions);
    let row = txs[i].duplicate();
    take_transaction(&mut txs, i);
    if !adjust_balance(&mut accounts, row.account_id, -(row.amount as i128)) {
        return Err(LedgerError::OutOfRange);
    }
    let found = match row.linked_tx_id {
        Some(c) => transaction_index(&txs, c),
        None => match &row.notes {
            Some(n) => notes_index(&txs, n.as_str(), id),
            None => None,
        },
    };
    match found {
        None => {},
        Some(k) => {
            let ctr_amount = txs[k].amount;
            let ctr_account = txs[k].account_id;
            if !adjust_balance(&mut accounts, ctr_account, -(ctr_amount as i128)) {
                return Err(LedgerError::OutOfRange);
            }
            take_transaction(&mut txs, k);
        },
    }
    ledger.accounts = accounts;
    ledger.transactions = txs;
    Ok(())
}

// ---------------------------------------------------------------------
// Purchases and sales of shares
// ---------------------------------------------------------------------

/// The payee of an investment entry.
pub open spec fn trade_word(is_buy: bool) -> Seq<char> {
    if is_buy {
        "Buy"@
    } else {
        "Sell"@
    }
}

/// The notes that an investment entry gets where none are given, such as
/// `Bought 10 shares of AAPL`.
pub open spec fn investment_notes(is_buy: bool, shares: int, ticker: Seq<char>) -> Seq<char> {
    (if is_buy {
        "Bought"@
    } else {
        "Sold"@
    }) + " "@ + rendered(shares) + " shares of "@ + ticker
}

/// The draft of a new investment entry: the amount derived from shares,
/// price and fee, the share count signed, the category `Investment`.
pub open spec fn investment_draft(args: CreateInvestmentTransactionArgs) -> TransactionView {
    TransactionView {
        id: 0,
        account_id: args.account_id as int,
        date: args.date@,
        payee: trade_word(args.is_buy),
        notes: Some(investment_notes(args.is_buy, args.shares as int, args.ticker@)),
        category: Some("Investment"@),
        amount: investment_amount(
            args.shares as int,
            args.price_per_share as int,
            args.fee as int,
            args.is_buy,
        ),
        ticker: Some(args.ticker@),
        shares: Some(signed_shares(args.shares as int, args.is_buy)),
        price_per_share: Some(args.price_per_share as int),
        fee: Some(args.fee as int),
        currency: opt_text(args.currency),
        linked_tx_id: None,
    }
}

/// Recording a purchase or a sale of shares. An account that does not
/// exist is refused. The rules are tried on the draft and may give the
/// notes; payee and category stay what the draft says. The amount enters
/// the balance of the account. It is never one side of a transfer.
pub open spec fn investment_created(l: LedgerView, args: CreateInvestmentTransactionArgs) -> Result<
    (LedgerView, TransactionView),
    LedgerError,
> {
    let draft = investment_draft(args);
    let si = find_account(l.accounts, args.account_id as int, 0);
    let id = next_transaction_id(l.transactions);
    if si >= l.accounts.len() {
        Err(LedgerError::NotFound)
    } else if !fits(draft.amount) || !fits(-args.shares) || id > i32::MAX {
        Err(LedgerError::OutOfRange)
    } else {
        let d = rules_applied(draft, rules_in_order(l.rules), 0);
        match adjust(l.accounts, args.account_id as int, draft.amount) {
            None => Err(LedgerError::OutOfRange),
            Some(accs) => {
                let t = TransactionView { id, notes: d.notes, ..draft };
                Ok((LedgerView { accounts: accs, transactions: l.transactions.push(t), ..l }, t))
            },
        }
    }
}

/// The investment entry `old` with what was asked written over it: all but
/// its identifier and its link.
pub open spec fn investment_rewritten(old: TransactionView, args: UpdateInvestmentTransactionArgs) -> TransactionView {
    TransactionView {
        account_id: args.account_id as int,
        date: args.date@,
        payee: trade_word(args.is_buy),
        notes: Some(
            match args.notes {
                Some(n) => n@,
                None => investment_notes(args.is_buy, args.shares as int, args.ticker@),
            },
        ),
        category: Some("Investment"@),
        amount: investment_amount(
            args.shares as int,
            args.price_per_share as int,
            args.fee as int,
            args.is_buy,
        ),
        ticker: Some(args.ticker@),
        shares: Some(signed_shares(args.shares as int, args.is_buy)),
        price_per_share: Some(args.price_per_share as int),
        fee: Some(args.fee as int),
        currency: opt_text(args.currency),
        ..old
    }
}

/// Changing a purchase or a sale of shares. An identifier that names no
/// transaction is refused, then an account that does not exist. The entry
/// takes what was asked and the balances follow (`moved`). No other side
/// is looked for.
pub open spec fn investment_updated(l: LedgerView, args: UpdateInvestmentTransactionArgs) -> Result<
    (LedgerView, TransactionView),
    LedgerError,
> {
    let i = find_transaction(l.transactions, args.id as int, 0);
    let ai = find_account(l.accounts, args.account_id as int, 0);
    if i >= l.transactions.len() {
        Err(LedgerError::NotFound)
    } else if ai >= l.accounts.len() {
        Err(LedgerError::Constraint)
    } else {
        let old = l.transactions[i];
        let row = investment_rewritten(old, args);
        if !fits(row.amount) || !fits(-args.shares) {
            Err(LedgerError::OutOfRange)
        } else {
            match moved(l.accounts, old.account_id, old.amount, args.account_id as int, row.amount) {
                None => Err(LedgerError::OutOfRange),
                Some(accs) => Ok(
                    (
                        LedgerView {
                            accounts: accs,
                            transactions: l.transactions.update(i, row),
                            ..l
                        },
                        row,
                    ),
                ),
            }
        }
    }
}

fn trade_payee(is_buy: bool) -> (r: String)
    ensures
        r@ == trade_word(is_buy),
{
    if is_buy {
        "Buy".to_owned()
    } else {
        "Sell".to_owned()
    }
}

fn investment_note(is_buy: bool, shares: i64, ticker: &str) -> (r: String)
    ensures
        r@ == investment_notes(is_buy, shares as int, ticker@),
{
    let mut s = if is_buy {
        "Bought".to_owned()
    } else {
        "Sold".to_owned()
    };
    s.append(" ");
    let count = render(shares);
    s.append(count.as_str());
    s.append(" shares of ");
    s.append(ticker);
    s
}

/// Records a purchase or a sale of shares, as `investment_created` says.
pub fn create_investment_transaction_db(ledger: &mut Ledger, args: CreateInvestmentTransactionArgs) -> (r:
    Result<Transaction, LedgerError>)
    ensures
        agrees(r, old(ledger)@, final(ledger)@, investment_created(old(ledger)@, args)),
        consistent(old(ledger)@) ==> consistent(final(ledger)@),
{
    proof {
        if consistent(ledger@) && investment_created(ledger@, args) is Ok {
            lemma_investment_created_consistent(ledger@, args);
        }
    }
    if account_index(&ledger.accounts, args.account_id).is_none() {
        return Err(LedgerError::NotFound);
    }
    let amount = match checked_investment_amount(
        args.shares,
        args.price_per_share,
        args.fee,
        args.is_buy,
    ) {
        None => {
            return Err(LedgerError::OutOfRange);
        },
        Some(a) => a,
    };
    let id = upcoming_transaction_id(&ledger.transactions);
    if args.shares == i64::MIN || id > 0x7fff_ffff {
        return Err(LedgerError::OutOfRange);
    }
    let investment_shares = if args.is_buy {
        args.shares
    } else {
        -args.shares
    };
    let rules = sorted_rules(&ledger.rules);
    let mut temp_tx = Transaction {
        id: 0,
        account_id: args.account_id,
        date: args.date.clone(),
        payee: trade_payee(args.is_buy),
        notes: Some(investment_note(args.is_buy, args.shares, args.ticker.as_str())),
        category: Some("Investment".to_owned()),
        amount,
        ticker: Some(args.ticker.clone()),
        shares: Some(investment_shares),
        price_per_share: Some(args.price_per_share),
        fee: Some(args.fee),
        currency: args.currency.clone(),
        linked_tx_id: None,
    };
    apply_rules_to_transaction(&mut temp_tx, rules.as_slice());
    proof {
        lemma_rules_touch_labels(investment_draft(args), rules_in_order(ledger@.rules), 0);
    }
    let mut accounts = duplicate_accounts(&ledger.accounts);
    if !adjust_balance(&mut accounts, args.account_id, amount as i128) {
        return Err(LedgerError::OutOfRange);
    }
    temp_tx.id = id as i32;
    temp_tx.payee = trade_payee(args.is_buy);
    temp_tx.category = Some("Investment".to_owned());
    let stored = temp_tx.duplicate();
    ledger.accounts = accounts;
    push_transaction(&mut ledger.transactions, stored);
    Ok(temp_tx)
}

/// Changes a purchase or a sale of shares, as `investment_updated` says.
pub fn update_investment_transaction_db(ledger: &mut Ledger, args: UpdateInvestmentTransactionArgs) -> (r:
    Result<Transaction, LedgerError>)
    ensures
        agrees(r, old(ledger)@, final(ledger)@, investment_updated(old(ledger)@, args)),
        consistent(old(ledger)@) ==> consistent(final(ledger)@),
{
    proof {
        if consistent(ledger@) && investment_updated(ledger@, args) is Ok {
            lemma_investment_updated_consistent(ledger@, args);
        }
    }
    let i = match transaction_index(&ledger.transactions, args.id) {
        None => {
            return Err(LedgerError::NotFound);
        },
        Some(i) => i,
    };
    if account_index(&ledger.accounts, args.account_id).is_none() {
        return Err(LedgerError::Constraint);
    }
    let amount = match checked_investment_amount(
        args.shares,
        args.price_per_share,
        args.fee,
        args.is_buy,
    ) {
        None => {
            return Err(LedgerError::OutOfRange);
        },
        Some(a) => a,
    };
    if args.shares == i64::MIN {
        return Err(LedgerError::OutOfRange);
    }
    let investment_shares = if args.is_buy {
        args.shares
    } else {
        -args.shares
    };
    let final_notes = match &args.notes {
        Some(n) => n.clone(),
        None => investment_note(args.is_buy, args.shares, args.ticker.as_str()),
    };
    let old_amount = ledger.transactions[i].amount;
    let old_account = ledger.transactions[i].account_id;
    let mut accounts = duplicate_accounts(&ledger.accounts);
    if !move_amount(&mut accounts, old_account, old_amount, args.account_id, amount) {
        return Err(LedgerError::OutOfRange);
    }
    let row = Transaction {
        id: ledger.transactions[i].id,
        account_id: args.account_id,
        date: args.date.clone(),
        payee: trade_payee(args.is_buy),
        notes: Some(final_notes),
        category: Some("Investment".to_owned()),
        amount,
        ticker: Some(args.ticker.clone()),
        shares: Some(investment_shares),
        price_per_share: Some(args.price_per_share),
        fee: Some(args.fee),
        currency: args.currency.clone(),
        linked_tx_id: ledger.transactions[i].linked_tx_id,
    };
    let stored = row.duplicate();
    ledger.accounts = accounts;
    put_transaction(&mut ledger.transactions, i, stored);
    Ok(row)
}

} // verus!
