//! What holds of the books whatever is done to them: every account's
//! balance is the sum of its transactions, the two sides of a transfer
//! mirror each other, and deleting one side deletes both.

use crate::accounts::{
    account_created, account_deleted, account_updated, opening_transaction, transactions_outside,
};
use crate::ledger::{
    account_total, adjust, find_account, find_by_notes, find_transaction, find_transfer_target,
    is_unlinked_side, max_account_id, max_transaction_id, next_transaction_id, LedgerView,
};
use crate::models::{AccountView, LedgerError, TransactionView};
use crate::rules::{rules_applied, rules_in_order};
use crate::text::{ascii_fold, opt_text, same_folded, trimmed};
use crate::transactions::{
    counterpart, draft_of, investment_created, investment_updated, linked, mirrored, moved,
    rewritten, transaction_created, transaction_deleted, transaction_updated,
    CreateInvestmentTransactionArgs, CreateTransactionArgs, UpdateInvestmentTransactionArgs,
    UpdateTransactionArgs,
};
use vstd::prelude::*;

verus! {

// ---------------------------------------------------------------------
// What "consistent" means
// ---------------------------------------------------------------------

/// What a transaction adds to the total of an account.
pub open spec fn contribution(t: TransactionView, account: int) -> int {
    if t.account_id == account {
        t.amount
    } else {
        0
    }
}

/// No two accounts share an identifier.
pub open spec fn distinct_accounts(accs: Seq<AccountView>) -> bool {
    forall|i: int, j: int|
        0 <= i < j < accs.len() ==> (#[trigger] accs[i]).id != (#[trigger] accs[j]).id
}

/// No two transactions share an identifier.
pub open spec fn distinct_transactions(txs: Seq<TransactionView>) -> bool {
    forall|i: int, j: int|
        0 <= i < j < txs.len() ==> (#[trigger] txs[i]).id != (#[trigger] txs[j]).id
}

/// Every transaction belongs to an account that exists.
pub open spec fn no_orphans(l: LedgerView) -> bool {
    forall|k: int|
        0 <= k < l.transactions.len() ==> find_account(
            l.accounts,
            (#[trigger] l.transactions[k]).account_id,
            0,
        ) < l.accounts.len()
}

/// The balance of every account is the sum of its transactions.
pub open spec fn balanced(l: LedgerView) -> bool {
    forall|i: int|
        0 <= i < l.accounts.len() ==> (#[trigger] l.accounts[i]).balance == account_total(
            l.transactions,
            l.accounts[i].id,
            l.transactions.len() as int,
        )
}

/// The books are consistent: account identifiers are distinct, no
/// transaction is an orphan, and every balance is the sum of its account's
/// transactions.
pub open spec fn consistent(l: LedgerView) -> bool {
    distinct_accounts(l.accounts) && no_orphans(l) && balanced(l)
}

// ---------------------------------------------------------------------
// Lookups
// ---------------------------------------------------------------------

/// What `find_account` finds is the first account with the identifier.
pub proof fn lemma_find_account(accs: Seq<AccountView>, id: int, from: int)
    requires
        0 <= from <= accs.len(),
    ensures
        from <= find_account(accs, id, from) <= accs.len(),
        find_account(accs, id, from) < accs.len() ==> accs[find_account(accs, id, from)].id == id,
        forall|k: int| from <= k < find_account(accs, id, from) ==> (#[trigger] accs[k]).id != id,
    decreases accs.len() - from,
{
    if from < accs.len() && accs[from].id != id {
        lemma_find_account(accs, id, from + 1);
    }
}

/// What `find_transaction` finds is the first transaction with the
/// identifier.
pub proof fn lemma_find_transaction(txs: Seq<TransactionView>, id: int, from: int)
    requires
        0 <= from <= txs.len(),
    ensures
        from <= find_transaction(txs, id, from) <= txs.len(),
        find_transaction(txs, id, from) < txs.len() ==> txs[find_transaction(txs, id, from)].id
            == id,
        forall|k: int|
            from <= k < find_transaction(txs, id, from) ==> (#[trigger] txs[k]).id != id,
    decreases txs.len() - from,
{
    if from < txs.len() && txs[from].id != id {
        lemma_find_transaction(txs, id, from + 1);
    }
}

/// What `find_by_notes` finds lies inside the list.
pub proof fn lemma_find_by_notes(txs: Seq<TransactionView>, notes: Seq<char>, except: int, from: int)
    requires
        0 <= from <= txs.len(),
    ensures
        from <= find_by_notes(txs, notes, except, from) <= txs.len(),
        find_by_notes(txs, notes, except, from) < txs.len() ==> txs[find_by_notes(
            txs,
            notes,
            except,
            from,
        )].id != except,
    decreases txs.len() - from,
{
    if from < txs.len() && !is_unlinked_side(txs[from], notes, except) {
        lemma_find_by_notes(txs, notes, except, from + 1);
    }
}

/// Two lists of accounts with the same identifiers at the same places give
/// the same lookups.
pub proof fn lemma_find_account_by_ids(a: Seq<AccountView>, b: Seq<AccountView>, id: int, from: int)
    requires
        a.len() == b.len(),
        forall|k: int| 0 <= k < a.len() ==> (#[trigger] a[k]).id == (#[trigger] b[k]).id,
    ensures
        find_account(a, id, from) == find_account(b, id, from),
    decreases a.len() - from,
{
    if 0 <= from < a.len() {
        assert(a[from].id == b[from].id);
        if a[from].id != id {
            lemma_find_account_by_ids(a, b, id, from + 1);
        }
    }
}

/// Two lists of transactions with the same identifiers at the same places
/// give the same lookups.
pub proof fn lemma_find_transaction_by_ids(
    a: Seq<TransactionView>,
    b: Seq<TransactionView>,
    id: int,
    from: int,
)
    requires
        a.len() == b.len(),
        forall|k: int| 0 <= k < a.len() ==> (#[trigger] a[k]).id == (#[trigger] b[k]).id,
    ensures
        find_transaction(a, id, from) == find_transaction(b, id, from),
    decreases a.len() - from,
{
    if 0 <= from < a.len() {
        assert(a[from].id == b[from].id);
        if a[from].id != id {
            lemma_find_transaction_by_ids(a, b, id, from + 1);
        }
    }
}

/// No account has an identifier above the largest.
pub proof fn lemma_max_account_id(accs: Seq<AccountView>, n: int)
    requires
        0 <= n <= accs.len(),
    ensures
        max_account_id(accs, n) >= 0,
        forall|k: int| 0 <= k < n ==> (#[trigger] accs[k]).id <= max_account_id(accs, n),
    decreases n,
{
    if n > 0 {
        lemma_max_account_id(accs, n - 1);
    }
}

/// No transaction has an identifier above the largest.
pub proof fn lemma_max_transaction_id(txs: Seq<TransactionView>, n: int)
    requires
        0 <= n <= txs.len(),
    ensures
        max_transaction_id(txs, n) >= 0,
        forall|k: int| 0 <= k < n ==> (#[trigger] txs[k]).id <= max_transaction_id(txs, n),
    decreases n,
{
    if n > 0 {
        lemma_max_transaction_id(txs, n - 1);
    }
}

/// Among distinct accounts, the one at `k` is the one its identifier finds.
pub proof fn lemma_find_account_unique(accs: Seq<AccountView>, k: int)
    requires
        distinct_accounts(accs),
        0 <= k < accs.len(),
    ensures
        find_account(accs, accs[k].id, 0) == k,
{
    lemma_find_account(accs, accs[k].id, 0);
    let r = find_account(accs, accs[k].id, 0);
    if r < k {
        assert(accs[r].id != accs[k].id);
    } else if r > k {
        assert(accs[k].id != accs[k].id);
    }
}

/// Among distinct transactions, the one at `k` is the one its identifier
/// finds.
pub proof fn lemma_find_transaction_unique(txs: Seq<TransactionView>, k: int)
    requires
        distinct_transactions(txs),
        0 <= k < txs.len(),
    ensures
        find_transaction(txs, txs[k].id, 0) == k,
{
    lemma_find_transaction(txs, txs[k].id, 0);
    let r = find_transaction(txs, txs[k].id, 0);
    if r < k {
        assert(txs[r].id != txs[k].id);
    } else if r > k {
        assert(txs[k].id != txs[k].id);
    }
}

// ---------------------------------------------------------------------
// Balances
// ---------------------------------------------------------------------

/// What `adjust` does, account by account: among distinct accounts, the
/// one with the identifier gains `delta` and nothing else changes.
pub proof fn lemma_adjust(accs: Seq<AccountView>, id: int, delta: int)
    requires
        distinct_accounts(accs),
        adjust(accs, id, delta) is Some,
    ensures
        adjust(accs, id, delta)->Some_0.len() == accs.len(),
        distinct_accounts(adjust(accs, id, delta)->Some_0),
        forall|k: int|
            0 <= k < accs.len() ==> (#[trigger] adjust(accs, id, delta)->Some_0[k]) == (AccountView {
                balance: accs[k].balance + (if accs[k].id == id {
                    delta
                } else {
                    0
                }),
                ..accs[k]
            }),
        forall|x: int|
            find_account(adjust(accs, id, delta)->Some_0, x, 0) == find_account(accs, x, 0),
{
    let r = adjust(accs, id, delta)->Some_0;
    let i = find_account(accs, id, 0);
    lemma_find_account(accs, id, 0);
    assert forall|k: int| 0 <= k < accs.len() implies (#[trigger] r[k]) == (AccountView {
        balance: accs[k].balance + (if accs[k].id == id {
            delta
        } else {
            0
        }),
        ..accs[k]
    }) by {
        if accs[k].id == id {
            lemma_find_account_unique(accs, k);
        }
    }
    assert forall|a: int, b: int| 0 <= a < b < r.len() implies (#[trigger] r[a]).id != (
    #[trigger] r[b]).id by {
        assert(accs[a].id != accs[b].id);
    }
    assert forall|x: int| find_account(r, x, 0) == find_account(accs, x, 0) by {
        lemma_find_account_by_ids(r, accs, x, 0);
    }
}

/// Lists that agree on their first `n` transactions give the same total
/// of them.
pub proof fn lemma_total_prefix(a: Seq<TransactionView>, b: Seq<TransactionView>, account: int, n: int)
    requires
        0 <= n <= a.len(),
        n <= b.len(),
        forall|k: int| 0 <= k < n ==> a[k] == b[k],
    ensures
        account_total(a, account, n) == account_total(b, account, n),
    decreases n,
{
    if n > 0 {
        lemma_total_prefix(a, b, account, n - 1);
    }
}

/// A transaction added at the end adds its contribution to the total.
pub proof fn lemma_total_push(txs: Seq<TransactionView>, t: TransactionView, account: int)
    ensures
        account_total(txs.push(t), account, txs.len() as int + 1) == account_total(
            txs,
            account,
            txs.len() as int,
        ) + contribution(t, account),
{
    lemma_total_prefix(txs.push(t), txs, account, txs.len() as int);
}

/// A transaction replaced changes the total by the difference of the two
/// contributions.
pub proof fn lemma_total_update(
    txs: Seq<TransactionView>,
    i: int,
    t: TransactionView,
    account: int,
    n: int,
)
    requires
        0 <= i < txs.len(),
        0 <= n <= txs.len(),
    ensures
        account_total(txs.update(i, t), account, n) == account_total(txs, account, n) + (if i < n {
            contribution(t, account) - contribution(txs[i], account)
        } else {
            0
        }),
    decreases n,
{
    if n > 0 {
        lemma_total_update(txs, i, t, account, n - 1);
    }
}

/// A transaction taken out takes its contribution out of the total.
pub proof fn lemma_total_remove(txs: Seq<TransactionView>, i: int, account: int, n: int)
    requires
        0 <= i < txs.len(),
        0 <= n <= txs.len() - 1,
    ensures
        account_total(txs.remove(i), account, n) == account_total(
            txs,
            account,
            if n <= i {
                n
            } else {
                n + 1
            },
        ) - (if n > i {
            contribution(txs[i], account)
        } else {
            0
        }),
    decreases n,
{
    if n > 0 {
        lemma_total_remove(txs, i, account, n - 1);
        if n - 1 < i {
            assert(txs.remove(i)[n - 1] == txs[n - 1]);
        } else {
            assert(txs.remove(i)[n - 1] == txs[n]);
            if n - 1 == i {
                assert(account_total(txs, account, n) == account_total(txs, account, n - 1)
                    + contribution(txs[i], account));
            }
        }
    }
}

/// An account without transactions has a total of zero.
pub proof fn lemma_total_of_stranger(txs: Seq<TransactionView>, account: int, n: int)
    requires
        0 <= n <= txs.len(),
        forall|k: int| 0 <= k < n ==> (#[trigger] txs[k]).account_id != account,
    ensures
        account_total(txs, account, n) == 0,
    decreases n,
{
    if n > 0 {
        lemma_total_of_stranger(txs, account, n - 1);
    }
}

/// Looking an identifier up after an account was added at the end.
pub proof fn lemma_find_account_push(accs: Seq<AccountView>, a: AccountView, x: int, from: int)
    requires
        0 <= from <= accs.len(),
    ensures
        find_account(accs.push(a), x, from) == (if find_account(accs, x, from) < accs.len() {
            find_account(accs, x, from)
        } else if a.id == x {
            accs.len() as int
        } else {
            accs.len() as int + 1
        }),
    decreases accs.len() - from,
{
    let p = accs.push(a);
    if from < accs.len() {
        assert(p[from] == accs[from]);
        if accs[from].id != x {
            lemma_find_account_push(accs, a, x, from + 1);
        }
    } else {
        assert(p[from] == a);
        assert(find_account(p, x, from + 1) == p.len());
    }
}

/// An identifier borne by the account at `j` is found at or before `j`.
pub proof fn lemma_find_account_witness(accs: Seq<AccountView>, j: int)
    requires
        0 <= j < accs.len(),
    ensures
        find_account(accs, accs[j].id, 0) <= j,
{
    lemma_find_account(accs, accs[j].id, 0);
    if find_account(accs, accs[j].id, 0) > j {
        assert(accs[j].id != accs[j].id);
    }
}

// ---------------------------------------------------------------------
// The balance invariant, operation by operation
// ---------------------------------------------------------------------

/// Creating an account keeps the books consistent.
pub proof fn lemma_account_created_consistent(
    l: LedgerView,
    name: Seq<char>,
    balance: int,
    currency: Option<Seq<char>>,
    today: Seq<char>,
)
    requires
        consistent(l),
        account_created(l, name, balance, currency, today) is Ok,
    ensures
        consistent(account_created(l, name, balance, currency, today)->Ok_0.0),
{
    let (l2, a) = account_created(l, name, balance, currency, today)->Ok_0;
    let n = l.accounts.len() as int;
    let m = l.transactions.len() as int;
    lemma_max_account_id(l.accounts, n);
    assert(l2.accounts == l.accounts.push(a));
    assert forall|i: int, j: int| 0 <= i < j < l2.accounts.len() implies (
    #[trigger] l2.accounts[i]).id != (#[trigger] l2.accounts[j]).id by {
        if j < n {
            assert(l.accounts[i].id != l.accounts[j].id);
        } else {
            assert(l.accounts[i].id <= max_account_id(l.accounts, n));
        }
    }
    assert forall|k: int| 0 <= k < l2.transactions.len() implies find_account(
        l2.accounts,
        (#[trigger] l2.transactions[k]).account_id,
        0,
    ) < l2.accounts.len() by {
        lemma_find_account_push(l.accounts, a, l2.transactions[k].account_id, 0);
        if k < m {
            assert(l2.transactions[k] == l.transactions[k]);
        }
    }
    assert forall|k: int| 0 <= k < m implies (#[trigger] l.transactions[k]).account_id != a.id by {
        lemma_find_account(l.accounts, l.transactions[k].account_id, 0);
        let f = find_account(l.accounts, l.transactions[k].account_id, 0);
        assert(l.accounts[f].id <= max_account_id(l.accounts, n));
    }
    lemma_total_of_stranger(l.transactions, a.id, m);
    assert forall|i: int| 0 <= i < l2.accounts.len() implies (#[trigger] l2.accounts[i]).balance
        == account_total(l2.transactions, l2.accounts[i].id, l2.transactions.len() as int) by {
        let x = l2.accounts[i].id;
        if balance != 0 {
            let t = opening_transaction(next_transaction_id(l.transactions), a.id, today, balance, currency);
            assert(l2.transactions == l.transactions.push(t));
            lemma_total_push(l.transactions, t, x);
        }
        if i < n {
            assert(l2.accounts[i] == l.accounts[i]);
            assert(l.accounts[i].id <= max_account_id(l.accounts, n));
        }
    }
}

/// Renaming an account or changing its currency keeps the books
/// consistent.
pub proof fn lemma_account_updated_consistent(
    l: LedgerView,
    id: int,
    name: Seq<char>,
    currency: Option<Option<Seq<char>>>,
)
    requires
        consistent(l),
        account_updated(l, id, name, currency) is Ok,
    ensures
        consistent(account_updated(l, id, name, currency)->Ok_0.0),
{
    let (l2, a) = account_updated(l, id, name, currency)->Ok_0;
    let i = find_account(l.accounts, id, 0);
    lemma_find_account(l.accounts, id, 0);
    assert forall|a: int, b: int| 0 <= a < b < l2.accounts.len() implies (
    #[trigger] l2.accounts[a]).id != (#[trigger] l2.accounts[b]).id by {
        assert(l.accounts[a].id != l.accounts[b].id);
    }
    assert forall|k: int| 0 <= k < l2.transactions.len() implies find_account(
        l2.accounts,
        (#[trigger] l2.transactions[k]).account_id,
        0,
    ) < l2.accounts.len() by {
        lemma_find_account_by_ids(l2.accounts, l.accounts, l2.transactions[k].account_id, 0);
    }
    assert forall|k: int| 0 <= k < l2.accounts.len() implies (#[trigger] l2.accounts[k]).balance
        == account_total(l2.transactions, l2.accounts[k].id, l2.transactions.len() as int) by {
        assert(l.accounts[k].balance == account_total(
            l.transactions,
            l.accounts[k].id,
            l.transactions.len() as int,
        ));
    }
}

/// What `transactions_outside` keeps: transactions of other accounts, each
/// one of the list it was given.
pub proof fn lemma_outside_members(txs: Seq<TransactionView>, account: int, n: int)
    requires
        0 <= n <= txs.len(),
    ensures
        forall|k: int|
            0 <= k < transactions_outside(txs, account, n).len() ==> (#[trigger] transactions_outside(
                txs,
                account,
                n,
            )[k]).account_id != account && exists|j: int|
                0 <= j < n && txs[j] == transactions_outside(txs, account, n)[k],
    decreases n,
{
    if n > 0 {
        lemma_outside_members(txs, account, n - 1);
        let r = transactions_outside(txs, account, n);
        let p = transactions_outside(txs, account, n - 1);
        assert forall|k: int| 0 <= k < r.len() implies (#[trigger] r[k]).account_id != account
            && exists|j: int| 0 <= j < n && txs[j] == r[k] by {
            if k < p.len() {
                assert(r[k] == p[k]);
                let j = choose|j: int| 0 <= j < n - 1 && txs[j] == p[k];
                assert(0 <= j < n && txs[j] == r[k]);
            } else {
                assert(txs[n - 1] == r[k]);
            }
        }
    }
}

/// Taking one account's transactions out leaves the totals of the others.
pub proof fn lemma_total_outside(txs: Seq<TransactionView>, account: int, other: int, n: int)
    requires
        0 <= n <= txs.len(),
        other != account,
    ensures
        account_total(
            transactions_outside(txs, account, n),
            other,
            transactions_outside(txs, account, n).len() as int,
        ) == account_total(txs, other, n),
    decreases n,
{
    if n > 0 {
        lemma_total_outside(txs, account, other, n - 1);
        let p = transactions_outside(txs, account, n - 1);
        if txs[n - 1].account_id != account {
            lemma_total_push(p, txs[n - 1], other);
        }
    }
}

/// Deleting an account keeps the books consistent.
pub proof fn lemma_account_deleted_consistent(l: LedgerView, id: int)
    requires
        consistent(l),
    ensures
        consistent(account_deleted(l, id)),
{
    let l2 = account_deleted(l, id);
    let i = find_account(l.accounts, id, 0);
    let m = l.transactions.len() as int;
    lemma_find_account(l.accounts, id, 0);
    // every account that stays is an account of before, and none bears `id`
    assert forall|k: int| 0 <= k < l2.accounts.len() implies (#[trigger] l2.accounts[k]).id != id
        && l2.accounts[k] == l.accounts[if k < i {
        k
    } else {
        k + 1
    }] by {
        if i < l.accounts.len() {
            if k < i {
                assert(l.accounts[k].id != l.accounts[i].id);
            } else {
                assert(l.accounts[i].id != l.accounts[k + 1].id);
            }
        }
    }
    assert forall|a: int, b: int| 0 <= a < b < l2.accounts.len() implies (
    #[trigger] l2.accounts[a]).id != (#[trigger] l2.accounts[b]).id by {
        let a0 = if a < i { a } else { a + 1 };
        let b0 = if b < i { b } else { b + 1 };
        assert(l.accounts[a0].id != l.accounts[b0].id);
    }
    lemma_outside_members(l.transactions, id, m);
    assert forall|k: int| 0 <= k < l2.transactions.len() implies find_account(
        l2.accounts,
        (#[trigger] l2.transactions[k]).account_id,
        0,
    ) < l2.accounts.len() by {
        let t = l2.transactions[k];
        let j = choose|j: int| 0 <= j < m && l.transactions[j] == t;
        let f = find_account(l.accounts, l.transactions[j].account_id, 0);
        lemma_find_account(l.accounts, t.account_id, 0);
        assert(f < l.accounts.len());
        assert(f != i);
        let f2 = if f < i { f } else { f - 1 };
        assert(l2.accounts[f2] == l.accounts[f]);
        lemma_find_account_witness(l2.accounts, f2);
    }
    assert forall|k: int| 0 <= k < l2.accounts.len() implies (#[trigger] l2.accounts[k]).balance
        == account_total(l2.transactions, l2.accounts[k].id, l2.transactions.len() as int) by {
        let k0 = if k < i { k } else { k + 1 };
        assert(l.accounts[k0].balance == account_total(l.transactions, l.accounts[k0].id, m));
        lemma_total_outside(l.transactions, id, l2.accounts[k].id, m);
    }
}

/// What `find_transfer_target` finds lies inside the list.
pub proof fn lemma_find_transfer_target(accs: Seq<AccountView>, payee: Seq<char>, source: int, from: int)
    requires
        0 <= from <= accs.len(),
    ensures
        from <= find_transfer_target(accs, payee, source, from) <= accs.len(),
        find_transfer_target(accs, payee, source, from) < accs.len() ==> accs[find_transfer_target(
            accs,
            payee,
            source,
            from,
        )].id != source,
    decreases accs.len() - from,
{
    if from < accs.len() && !(accs[from].name == payee && accs[from].id != source) {
        lemma_find_transfer_target(accs, payee, source, from + 1);
    }
}

/// What `moved` does, account by account: among distinct accounts, the old
/// amount leaves the one account, the new amount enters the other, and
/// nothing else changes.
pub proof fn lemma_moved(accs: Seq<AccountView>, from: int, old_amount: int, to: int, amount: int)
    requires
        distinct_accounts(accs),
        moved(accs, from, old_amount, to, amount) is Some,
    ensures
        moved(accs, from, old_amount, to, amount)->Some_0.len() == accs.len(),
        distinct_accounts(moved(accs, from, old_amount, to, amount)->Some_0),
        forall|k: int|
            0 <= k < accs.len() ==> (#[trigger] moved(accs, from, old_amount, to, amount)->Some_0[k])
                == (AccountView {
                balance: accs[k].balance + (if accs[k].id == to {
                    amount
                } else {
                    0
                }) - (if accs[k].id == from {
                    old_amount
                } else {
                    0
                }),
                ..accs[k]
            }),
        forall|x: int|
            find_account(moved(accs, from, old_amount, to, amount)->Some_0, x, 0) == find_account(
                accs,
                x,
                0,
            ),
{
    if from == to {
        lemma_adjust(accs, to, amount - old_amount);
    } else {
        lemma_adjust(accs, from, -old_amount);
        let a = adjust(accs, from, -old_amount)->Some_0;
        lemma_adjust(a, to, amount);
        let r = adjust(a, to, amount)->Some_0;
        assert forall|k: int| 0 <= k < accs.len() implies (#[trigger] r[k]) == (AccountView {
            balance: accs[k].balance + (if accs[k].id == to {
                amount
            } else {
                0
            }) - (if accs[k].id == from {
                old_amount
            } else {
                0
            }),
            ..accs[k]
        }) by {
            assert(a[k].id == accs[k].id);
        }
    }
}

/// Naming another side changes neither amounts nor accounts nor
/// identifiers.
pub proof fn lemma_linked_neutral(txs: Seq<TransactionView>, id: int, to: int)
    ensures
        linked(txs, id, to).len() == txs.len(),
        forall|j: int|
            0 <= j < txs.len() ==> (#[trigger] linked(txs, id, to)[j]).account_id
                == txs[j].account_id && linked(txs, id, to)[j].amount == txs[j].amount && linked(
                txs,
                id,
                to,
            )[j].id == txs[j].id,
        forall|x: int|
            account_total(linked(txs, id, to), x, txs.len() as int) == account_total(
                txs,
                x,
                txs.len() as int,
            ),
{
    let k = find_transaction(txs, id, 0);
    lemma_find_transaction(txs, id, 0);
    if k < txs.len() {
        let t = TransactionView { linked_tx_id: Some(to), ..txs[k] };
        assert forall|x: int|
            account_total(linked(txs, id, to), x, txs.len() as int) == account_total(
                txs,
                x,
                txs.len() as int,
            ) by {
            lemma_total_update(txs, k, t, x, txs.len() as int);
        }
    }
}

/// Recording a transaction keeps the books consistent.
pub proof fn lemma_transaction_created_consistent(l: LedgerView, args: CreateTransactionArgs)
    requires
        consistent(l),
        transaction_created(l, args) is Ok,
    ensures
        consistent(transaction_created(l, args)->Ok_0.0),
{
    let (l2, t) = transaction_created(l, args)->Ok_0;
    let aid = args.account_id as int;
    let amount = args.amount as int;
    let m = l.transactions.len() as int;
    let si = find_account(l.accounts, aid, 0);
    let ti = find_transfer_target(l.accounts, t.payee, aid, 0);
    lemma_find_account(l.accounts, aid, 0);
    lemma_find_transfer_target(l.accounts, t.payee, aid, 0);
    lemma_adjust(l.accounts, aid, amount);
    let a1 = adjust(l.accounts, aid, amount)->Some_0;
    if ti >= l.accounts.len() {
        assert(l2.transactions == l.transactions.push(t));
        assert forall|k: int| 0 <= k < l2.transactions.len() implies find_account(
            l2.accounts,
            (#[trigger] l2.transactions[k]).account_id,
            0,
        ) < l2.accounts.len() by {
            if k < m {
                assert(l2.transactions[k] == l.transactions[k]);
            }
        }
        assert forall|i: int| 0 <= i < l2.accounts.len() implies (#[trigger] l2.accounts[i]).balance
            == account_total(l2.transactions, l2.accounts[i].id, l2.transactions.len() as int) by {
            lemma_total_push(l.transactions, t, l.accounts[i].id);
            assert(l.accounts[i].balance == account_total(l.transactions, l.accounts[i].id, m));
        }
    } else {
        let target = l.accounts[ti].id;
        lemma_find_account_witness(l.accounts, ti);
        lemma_adjust(a1, target, -amount);
        let mr = l2.transactions[m + 1];
        assert(l2.transactions == l.transactions.push(t).push(mr));
        assert forall|k: int| 0 <= k < l2.transactions.len() implies find_account(
            l2.accounts,
            (#[trigger] l2.transactions[k]).account_id,
            0,
        ) < l2.accounts.len() by {
            if k < m {
                assert(l2.transactions[k] == l.transactions[k]);
            }
        }
        assert forall|i: int| 0 <= i < l2.accounts.len() implies (#[trigger] l2.accounts[i]).balance
            == account_total(l2.transactions, l2.accounts[i].id, l2.transactions.len() as int) by {
            lemma_total_push(l.transactions, t, l.accounts[i].id);
            lemma_total_push(l.transactions.push(t), mr, l.accounts[i].id);
            assert(l.accounts[i].balance == account_total(l.transactions, l.accounts[i].id, m));
            assert(a1[i].id == l.accounts[i].id);
        }
    }
}

/// Recording a purchase or a sale of shares keeps the books consistent.
pub proof fn lemma_investment_created_consistent(l: LedgerView, args: CreateInvestmentTransactionArgs)
    requires
        consistent(l),
        investment_created(l, args) is Ok,
    ensures
        consistent(investment_created(l, args)->Ok_0.0),
{
    let (l2, t) = investment_created(l, args)->Ok_0;
    let aid = args.account_id as int;
    let m = l.transactions.len() as int;
    lemma_find_account(l.accounts, aid, 0);
    lemma_adjust(l.accounts, aid, t.amount);
    assert(l2.transactions == l.transactions.push(t));
    assert forall|k: int| 0 <= k < l2.transactions.len() implies find_account(
        l2.accounts,
        (#[trigger] l2.transactions[k]).account_id,
        0,
    ) < l2.accounts.len() by {
        if k < m {
            assert(l2.transactions[k] == l.transactions[k]);
        }
    }
    assert forall|i: int| 0 <= i < l2.accounts.len() implies (#[trigger] l2.accounts[i]).balance
        == account_total(l2.transactions, l2.accounts[i].id, l2.transactions.len() as int) by {
        lemma_total_push(l.transactions, t, l.accounts[i].id);
        assert(l.accounts[i].balance == account_total(l.transactions, l.accounts[i].id, m));
    }
}

/// Changing a purchase or a sale of shares keeps the books consistent.
pub proof fn lemma_investment_updated_consistent(l: LedgerView, args: UpdateInvestmentTransactionArgs)
    requires
        consistent(l),
        investment_updated(l, args) is Ok,
    ensures
        consistent(investment_updated(l, args)->Ok_0.0),
{
    let (l2, row) = investment_updated(l, args)->Ok_0;
    let m = l.transactions.len() as int;
    let i = find_transaction(l.transactions, args.id as int, 0);
    let old = l.transactions[i];
    lemma_find_transaction(l.transactions, args.id as int, 0);
    lemma_find_account(l.accounts, args.account_id as int, 0);
    lemma_moved(l.accounts, old.account_id, old.amount, args.account_id as int, row.amount);
    assert forall|k: int| 0 <= k < l2.transactions.len() implies find_account(
        l2.accounts,
        (#[trigger] l2.transactions[k]).account_id,
        0,
    ) < l2.accounts.len() by {
        if k != i {
            assert(l2.transactions[k] == l.transactions[k]);
        }
    }
    assert forall|k: int| 0 <= k < l2.accounts.len() implies (#[trigger] l2.accounts[k]).balance
        == account_total(l2.transactions, l2.accounts[k].id, l2.transactions.len() as int) by {
        lemma_total_update(l.transactions, i, row, l.accounts[k].id, m);
        assert(l.accounts[k].balance == account_total(l.transactions, l.accounts[k].id, m));
    }
}

/// Deleting a transaction keeps the books consistent.
pub proof fn lemma_transaction_deleted_consistent(l: LedgerView, id: int)
    requires
        consistent(l),
        transaction_deleted(l, id) is Ok,
    ensures
        consistent(transaction_deleted(l, id)->Ok_0.0),
{
    let l2 = transaction_deleted(l, id)->Ok_0.0;
    let m = l.transactions.len() as int;
    let i = find_transaction(l.transactions, id, 0);
    lemma_find_transaction(l.transactions, id, 0);
    let t = l.transactions[i];
    let txs1 = l.transactions.remove(i);
    lemma_adjust(l.accounts, t.account_id, -t.amount);
    let accs1 = adjust(l.accounts, t.account_id, -t.amount)->Some_0;
    let k = match t.linked_tx_id {
        Some(c) => find_transaction(txs1, c, 0),
        None => match t.notes {
            Some(n) => find_by_notes(txs1, n, id, 0),
            None => txs1.len() as int,
        },
    };
    match t.linked_tx_id {
        Some(c) => {
            lemma_find_transaction(txs1, c, 0);
        },
        None => match t.notes {
            Some(n) => {
                lemma_find_by_notes(txs1, n, id, 0);
            },
            None => {},
        },
    }
    assert forall|j: int| 0 <= j < txs1.len() implies find_account(
        l.accounts,
        (#[trigger] txs1[j]).account_id,
        0,
    ) < l.accounts.len() by {
        let j0 = if j < i { j } else { j + 1 };
        assert(txs1[j] == l.transactions[j0]);
    }
    if k >= txs1.len() {
        assert forall|a: int| 0 <= a < l2.accounts.len() implies (#[trigger] l2.accounts[a]).balance
            == account_total(l2.transactions, l2.accounts[a].id, l2.transactions.len() as int) by {
            lemma_total_remove(l.transactions, i, l.accounts[a].id, m - 1);
            assert(l.accounts[a].balance == account_total(l.transactions, l.accounts[a].id, m));
        }
    } else {
        let c = txs1[k];
        lemma_adjust(accs1, c.account_id, -c.amount);
        let txs2 = txs1.remove(k);
        assert forall|j: int| 0 <= j < l2.transactions.len() implies find_account(
            l2.accounts,
            (#[trigger] l2.transactions[j]).account_id,
            0,
        ) < l2.accounts.len() by {
            let j0 = if j < k { j } else { j + 1 };
            assert(txs2[j] == txs1[j0]);
        }
        assert forall|a: int| 0 <= a < l2.accounts.len() implies (#[trigger] l2.accounts[a]).balance
            == account_total(l2.transactions, l2.accounts[a].id, l2.transactions.len() as int) by {
            lemma_total_remove(l.transactions, i, l.accounts[a].id, m - 1);
            lemma_total_remove(txs1, k, l.accounts[a].id, m - 2);
            assert(l.accounts[a].balance == account_total(l.transactions, l.accounts[a].id, m));
            assert(accs1[a].id == l.accounts[a].id);
        }
    }
}

/// Changing a transaction keeps the books consistent.
pub proof fn lemma_transaction_updated_consistent(l: LedgerView, args: UpdateTransactionArgs)
    requires
        consistent(l),
        transaction_updated(l, args) is Ok,
    ensures
        consistent(transaction_updated(l, args)->Ok_0.0),
{
    let l2 = transaction_updated(l, args)->Ok_0.0;
    let m = l.transactions.len() as int;
    let id = args.id as int;
    let aid = args.account_id as int;
    let amount = args.amount as int;
    let i = find_transaction(l.transactions, id, 0);
    let ai = find_account(l.accounts, aid, 0);
    lemma_find_transaction(l.transactions, id, 0);
    lemma_find_account(l.accounts, aid, 0);
    let old = l.transactions[i];
    let row = rewritten(old, args);
    let txs1 = l.transactions.update(i, row);
    lemma_moved(l.accounts, old.account_id, old.amount, aid, amount);
    let accs1 = moved(l.accounts, old.account_id, old.amount, aid, amount)->Some_0;
    let other = counterpart(txs1, old.linked_tx_id, opt_text(args.notes), id);
    let txs2 = if old.linked_tx_id is None && other is Some {
        linked(linked(txs1, id, other->Some_0), other->Some_0, id)
    } else {
        txs1
    };
    if old.linked_tx_id is None && other is Some {
        lemma_linked_neutral(txs1, id, other->Some_0);
        lemma_linked_neutral(linked(txs1, id, other->Some_0), other->Some_0, id);
    }
    assert(txs2.len() == m);
    assert forall|j: int| 0 <= j < m implies (#[trigger] txs2[j]).account_id == txs1[j].account_id
        && txs2[j].amount == txs1[j].amount by {
        if old.linked_tx_id is None && other is Some {
            assert(linked(txs1, id, other->Some_0)[j].account_id == txs1[j].account_id);
        }
    }
    assert forall|x: int| account_total(txs2, x, m) == account_total(l.transactions, x, m)
        + contribution(row, x) - contribution(old, x) by {
        lemma_total_update(l.transactions, i, row, x, m);
        if old.linked_tx_id is None && other is Some {
            assert(account_total(linked(txs1, id, other->Some_0), x, m) == account_total(
                txs1,
                x,
                m,
            ));
        }
    }
    let k = match other {
        Some(c) => find_transaction(txs2, c, 0),
        None => m,
    };
    match other {
        Some(c) => {
            lemma_find_transaction(txs2, c, 0);
        },
        None => {},
    }
    assert forall|j: int| 0 <= j < m implies find_account(
        l.accounts,
        (#[trigger] txs2[j]).account_id,
        0,
    ) < l.accounts.len() by {
        if j != i {
            assert(txs1[j] == l.transactions[j]);
        }
    }
    if k >= m {
        assert(l2.transactions == txs2);
        assert forall|a: int| 0 <= a < l2.accounts.len() implies (#[trigger] l2.accounts[a]).balance
            == account_total(l2.transactions, l2.accounts[a].id, l2.transactions.len() as int) by {
            assert(l.accounts[a].balance == account_total(l.transactions, l.accounts[a].id, m));
        }
    } else {
        let ctr = txs2[k];
        let mr = mirrored(ctr, args, l.accounts[ai].name);
        lemma_adjust(accs1, ctr.account_id, -amount - ctr.amount);
        assert(l2.transactions == txs2.update(k, mr));
        assert forall|j: int| 0 <= j < l2.transactions.len() implies find_account(
            l2.accounts,
            (#[trigger] l2.transactions[j]).account_id,
            0,
        ) < l2.accounts.len() by {
            assert(l2.transactions[j].account_id == txs2[j].account_id);
        }
        assert forall|a: int| 0 <= a < l2.accounts.len() implies (#[trigger] l2.accounts[a]).balance
            == account_total(l2.transactions, l2.accounts[a].id, l2.transactions.len() as int) by {
            lemma_total_update(txs2, k, mr, l.accounts[a].id, m);
            assert(l.accounts[a].balance == account_total(l.transactions, l.accounts[a].id, m));
            assert(accs1[a].id == l.accounts[a].id);
        }
    }
}

// ---------------------------------------------------------------------
// Transfers
// ---------------------------------------------------------------------

/// The transactions `a` and `b` are the two sides of a transfer: both
/// exist, each names the other, and their amounts are opposite.
pub open spec fn paired(txs: Seq<TransactionView>, a: int, b: int) -> bool {
    let i = find_transaction(txs, a, 0);
    let j = find_transaction(txs, b, 0);
    a != b && i < txs.len() && j < txs.len() && txs[i].linked_tx_id == Some(b)
        && txs[j].linked_tx_id == Some(a) && txs[j].amount == -txs[i].amount
}

/// Being paired does not depend on which side is named first.
pub proof fn lemma_paired_symmetric(txs: Seq<TransactionView>, a: int, b: int)
    ensures
        paired(txs, a, b) == paired(txs, b, a),
{
}

/// Looking an identifier up after a transaction was added at the end.
pub proof fn lemma_find_transaction_push(txs: Seq<TransactionView>, t: TransactionView, x: int, from: int)
    requires
        0 <= from <= txs.len(),
    ensures
        find_transaction(txs.push(t), x, from) == (if find_transaction(txs, x, from) < txs.len() {
            find_transaction(txs, x, from)
        } else if t.id == x {
            txs.len() as int
        } else {
            txs.len() as int + 1
        }),
    decreases txs.len() - from,
{
    let p = txs.push(t);
    if from < txs.len() {
        assert(p[from] == txs[from]);
        if txs[from].id != x {
            lemma_find_transaction_push(txs, t, x, from + 1);
        }
    } else {
        assert(p[from] == t);
        assert(find_transaction(p, x, from + 1) == p.len());
    }
}

/// Looking an identifier up after the transaction at `i` was taken out,
/// among distinct transactions: the one taken out is no longer found, any
/// other is found where it now stands.
pub proof fn lemma_find_transaction_remove(txs: Seq<TransactionView>, i: int, x: int)
    requires
        distinct_transactions(txs),
        0 <= i < txs.len(),
    ensures
        distinct_transactions(txs.remove(i)),
        x == txs[i].id ==> find_transaction(txs.remove(i), x, 0) == txs.len() - 1,
        x != txs[i].id ==> find_transaction(txs.remove(i), x, 0) == (if find_transaction(txs, x, 0)
            < i {
            find_transaction(txs, x, 0)
        } else {
            find_transaction(txs, x, 0) - 1
        }),
{
    let r = txs.remove(i);
    assert forall|a: int, b: int| 0 <= a < b < r.len() implies (#[trigger] r[a]).id != (
    #[trigger] r[b]).id by {
        let a0 = if a < i { a } else { a + 1 };
        let b0 = if b < i { b } else { b + 1 };
        assert(txs[a0].id != txs[b0].id);
    }
    lemma_find_transaction(r, x, 0);
    lemma_find_transaction(txs, x, 0);
    let f = find_transaction(txs, x, 0);
    let g = find_transaction(r, x, 0);
    if g < r.len() {
        let g0 = if g < i { g } else { g + 1 };
        assert(r[g] == txs[g0]);
        lemma_find_transaction_unique(txs, g0);
        lemma_find_transaction_unique(txs, i);
    } else {
        if f < txs.len() && f != i {
            let f1 = if f < i { f } else { f - 1 };
            assert(r[f1] == txs[f]);
            assert(r[f1].id != x);
        }
        if f == i {
            lemma_find_transaction_unique(txs, i);
        }
    }
}

/// A transfer, once recorded, is a pair: the two new transactions name
/// each other, bear opposite amounts, and both have the category
/// `Transfer`.
pub proof fn lemma_transfer_created_paired(l: LedgerView, args: CreateTransactionArgs)
    requires
        transaction_created(l, args) is Ok,
        find_transfer_target(
            l.accounts,
            rules_applied(draft_of(args), rules_in_order(l.rules), 0).payee,
            args.account_id as int,
            0,
        ) < l.accounts.len(),
    ensures
        ({
            let (l2, t) = transaction_created(l, args)->Ok_0;
            let j = find_transaction(l2.transactions, t.id + 1, 0);
            &&& paired(l2.transactions, t.id, t.id + 1)
            &&& t.category == Some("Transfer"@)
            &&& l2.transactions[j].category == Some("Transfer"@)
            &&& l2.transactions[j].amount == -args.amount
            &&& find_transaction(l2.transactions, t.id, 0) < l2.transactions.len()
            &&& l2.transactions[find_transaction(l2.transactions, t.id, 0)] == t
        }),
{
    let (l2, t) = transaction_created(l, args)->Ok_0;
    let m = l.transactions.len() as int;
    let id = next_transaction_id(l.transactions);
    lemma_max_transaction_id(l.transactions, m);
    lemma_find_transaction(l.transactions, id, 0);
    lemma_find_transaction(l.transactions, id + 1, 0);
    let f0 = find_transaction(l.transactions, id, 0);
    let f1 = find_transaction(l.transactions, id + 1, 0);
    if f0 < m {
        assert(l.transactions[f0].id <= max_transaction_id(l.transactions, m));
    }
    if f1 < m {
        assert(l.transactions[f1].id <= max_transaction_id(l.transactions, m));
    }
    let mr = l2.transactions[m + 1];
    let p = l.transactions.push(t);
    assert(l2.transactions == p.push(mr));
    lemma_find_transaction_push(l.transactions, t, id, 0);
    lemma_find_transaction_push(l.transactions, t, id + 1, 0);
    lemma_find_transaction_push(p, mr, id, 0);
    lemma_find_transaction_push(p, mr, id + 1, 0);
}

/// Changing one side of a transfer leaves it a pair: after the change the
/// two transactions still name each other and bear opposite amounts.
pub proof fn lemma_update_keeps_paired(l: LedgerView, args: UpdateTransactionArgs, other: int)
    requires
        distinct_transactions(l.transactions),
        paired(l.transactions, args.id as int, other),
        transaction_updated(l, args) is Ok,
    ensures
        paired(transaction_updated(l, args)->Ok_0.0.transactions, args.id as int, other),
        transaction_updated(l, args)->Ok_0.0.transactions[find_transaction(
            transaction_updated(l, args)->Ok_0.0.transactions,
            args.id as int,
            0,
        )].amount == args.amount,
{
    let l2 = transaction_updated(l, args)->Ok_0.0;
    let id = args.id as int;
    let txs = l.transactions;
    let i = find_transaction(txs, id, 0);
    let j = find_transaction(txs, other, 0);
    lemma_find_transaction(txs, id, 0);
    lemma_find_transaction(txs, other, 0);
    let row = rewritten(txs[i], args);
    let txs1 = txs.update(i, row);
    assert forall|x: int| find_transaction(txs1, x, 0) == find_transaction(txs, x, 0) by {
        lemma_find_transaction_by_ids(txs1, txs, x, 0);
    }
    let ai = find_account(l.accounts, args.account_id as int, 0);
    let mr = mirrored(txs1[j], args, l.accounts[ai].name);
    let txs3 = txs1.update(j, mr);
    assert(l2.transactions == txs3);
    assert forall|x: int| find_transaction(txs3, x, 0) == find_transaction(txs, x, 0) by {
        lemma_find_transaction_by_ids(txs3, txs, x, 0);
    }
}

/// Deleting one side of a transfer deletes both: neither transaction is
/// left, and no other transaction goes.
pub proof fn lemma_delete_cascades(l: LedgerView, id: int, other: int)
    requires
        distinct_transactions(l.transactions),
        paired(l.transactions, id, other),
        transaction_deleted(l, id) is Ok,
    ensures
        ({
            let txs2 = transaction_deleted(l, id)->Ok_0.0.transactions;
            &&& txs2.len() == l.transactions.len() - 2
            &&& find_transaction(txs2, id, 0) == txs2.len()
            &&& find_transaction(txs2, other, 0) == txs2.len()
        }),
{
    let txs = l.transactions;
    let i = find_transaction(txs, id, 0);
    let j = find_transaction(txs, other, 0);
    lemma_find_transaction(txs, id, 0);
    lemma_find_transaction(txs, other, 0);
    let txs1 = txs.remove(i);
    lemma_find_transaction_remove(txs, i, other);
    lemma_find_transaction_remove(txs, i, id);
    let k = find_transaction(txs1, other, 0);
    assert(k == if j < i { j } else { j - 1 });
    assert(txs1[k] == txs[j]);
    lemma_find_transaction_remove(txs1, k, other);
    lemma_find_transaction_remove(txs1, k, id);
}

/// Deleting one side of a transfer takes both amounts back: among
/// distinct accounts, each balance loses what the two transactions had
/// added to it.
pub proof fn lemma_delete_reverses_balances(l: LedgerView, id: int, other: int)
    requires
        distinct_transactions(l.transactions),
        distinct_accounts(l.accounts),
        paired(l.transactions, id, other),
        transaction_deleted(l, id) is Ok,
    ensures
        ({
            let l2 = transaction_deleted(l, id)->Ok_0.0;
            let a = l.transactions[find_transaction(l.transactions, id, 0)];
            let b = l.transactions[find_transaction(l.transactions, other, 0)];
            &&& l2.accounts.len() == l.accounts.len()
            &&& forall|k: int|
                0 <= k < l.accounts.len() ==> (#[trigger] l2.accounts[k]) == (AccountView {
                    balance: l.accounts[k].balance - contribution(a, l.accounts[k].id)
                        - contribution(b, l.accounts[k].id),
                    ..l.accounts[k]
                })
        }),
{
    let txs = l.transactions;
    let i = find_transaction(txs, id, 0);
    let j = find_transaction(txs, other, 0);
    lemma_find_transaction(txs, id, 0);
    lemma_find_transaction(txs, other, 0);
    let txs1 = txs.remove(i);
    lemma_find_transaction_remove(txs, i, other);
    let k = find_transaction(txs1, other, 0);
    assert(k == if j < i { j } else { j - 1 });
    assert(txs1[k] == txs[j]);
    lemma_adjust(l.accounts, txs[i].account_id, -txs[i].amount);
    let accs1 = adjust(l.accounts, txs[i].account_id, -txs[i].amount)->Some_0;
    lemma_adjust(accs1, txs[j].account_id, -txs[j].amount);
    let l2 = transaction_deleted(l, id)->Ok_0.0;
    assert forall|n: int| 0 <= n < l.accounts.len() implies (#[trigger] l2.accounts[n]) == (AccountView {
        balance: l.accounts[n].balance - contribution(txs[i], l.accounts[n].id) - contribution(
            txs[j],
            l.accounts[n].id,
        ),
        ..l.accounts[n]
    }) by {
        assert(accs1[n].id == l.accounts[n].id);
    }
}

// ---------------------------------------------------------------------
// Account names
// ---------------------------------------------------------------------

/// Once an account is created, no second account can take its name in
/// another case: the attempt is refused as a duplicate.
pub proof fn lemma_duplicate_name_refused(
    l: LedgerView,
    name: Seq<char>,
    balance: int,
    currency: Option<Seq<char>>,
    today: Seq<char>,
    again: Seq<char>,
    balance2: int,
    currency2: Option<Seq<char>>,
    today2: Seq<char>,
)
    requires
        account_created(l, name, balance, currency, today) is Ok,
        same_folded(trimmed(again), trimmed(name)),
    ensures
        account_created(
            account_created(l, name, balance, currency, today)->Ok_0.0,
            again,
            balance2,
            currency2,
            today2,
        ) == Err::<(LedgerView, AccountView), _>(LedgerError::DuplicateName),
{
    let (l2, a) = account_created(l, name, balance, currency, today)->Ok_0;
    let n = l.accounts.len() as int;
    assert(ascii_fold(trimmed(again)).len() == trimmed(again).len());
    assert(ascii_fold(trimmed(name)).len() == trimmed(name).len());
    assert(l2.accounts[n] == a);
    assert(same_folded(l2.accounts[n].name, trimmed(again)));
}

/// No two accounts bear the same name, up to the case of ASCII letters.
pub open spec fn distinct_names(accs: Seq<AccountView>) -> bool {
    forall|i: int, j: int|
        0 <= i < j < accs.len() ==> !same_folded((#[trigger] accs[i]).name, (#[trigger] accs[j]).name)
}

/// Creating an account keeps the names of accounts distinct.
pub proof fn lemma_account_created_names(
    l: LedgerView,
    name: Seq<char>,
    balance: int,
    currency: Option<Seq<char>>,
    today: Seq<char>,
)
    requires
        distinct_names(l.accounts),
        account_created(l, name, balance, currency, today) is Ok,
    ensures
        distinct_names(account_created(l, name, balance, currency, today)->Ok_0.0.accounts),
{
    let (l2, a) = account_created(l, name, balance, currency, today)->Ok_0;
    let n = l.accounts.len() as int;
    assert forall|i: int, j: int| 0 <= i < j < l2.accounts.len() implies !same_folded(
        (#[trigger] l2.accounts[i]).name,
        (#[trigger] l2.accounts[j]).name,
    ) by {
        if j < n {
            assert(!same_folded(l.accounts[i].name, l.accounts[j].name));
        } else {
            assert(l2.accounts[i] == l.accounts[i]);
            assert(!(same_folded(l.accounts[i].name, a.name) && Some(l.accounts[i].id) != None::<
                int,
            >));
        }
    }
}

/// Renaming an account keeps the names of accounts distinct, where no two
/// accounts share an identifier.
pub proof fn lemma_account_updated_names(
    l: LedgerView,
    id: int,
    name: Seq<char>,
    currency: Option<Option<Seq<char>>>,
)
    requires
        distinct_names(l.accounts),
        distinct_accounts(l.accounts),
        account_updated(l, id, name, currency) is Ok,
    ensures
        distinct_names(account_updated(l, id, name, currency)->Ok_0.0.accounts),
{
    let l2 = account_updated(l, id, name, currency)->Ok_0.0;
    let k = find_account(l.accounts, id, 0);
    lemma_find_account(l.accounts, id, 0);
    let n = trimmed(name);
    assert forall|i: int, j: int| 0 <= i < j < l2.accounts.len() implies !same_folded(
        (#[trigger] l2.accounts[i]).name,
        (#[trigger] l2.accounts[j]).name,
    ) by {
        if i != k && j != k {
            assert(!same_folded(l.accounts[i].name, l.accounts[j].name));
        } else if i == k {
            assert(l.accounts[k].id != l.accounts[j].id);
            assert(!(same_folded(l.accounts[j].name, n) && Some(l.accounts[j].id) != Some(id)));
        } else {
            assert(l.accounts[i].id != l.accounts[k].id);
            assert(!(same_folded(l.accounts[i].name, n) && Some(l.accounts[i].id) != Some(id)));
        }
    }
}

/// A change that finds the other side of a transfer by its notes makes the
/// two a pair: from then on each names the other, and their amounts are
/// opposite.
pub proof fn lemma_update_links_by_notes(l: LedgerView, args: UpdateTransactionArgs)
    requires
        distinct_transactions(l.transactions),
        transaction_updated(l, args) is Ok,
        find_transaction(l.transactions, args.id as int, 0) < l.transactions.len(),
        l.transactions[find_transaction(l.transactions, args.id as int, 0)].linked_tx_id is None,
        args.notes is Some,
        find_by_notes(l.transactions, args.notes->Some_0@, args.id as int, 0)
            < l.transactions.len(),
    ensures
        paired(
            transaction_updated(l, args)->Ok_0.0.transactions,
            args.id as int,
            l.transactions[find_by_notes(l.transactions, args.notes->Some_0@, args.id as int, 0)].id,
        ),
{
    let l2 = transaction_updated(l, args)->Ok_0.0;
    let id = args.id as int;
    let notes = args.notes->Some_0@;
    let txs = l.transactions;
    let i = find_transaction(txs, id, 0);
    lemma_find_transaction(txs, id, 0);
    let row = rewritten(txs[i], args);
    let txs1 = txs.update(i, row);
    lemma_find_by_notes_skips(txs, i, row, notes, id, 0);
    let k = find_by_notes(txs1, notes, id, 0);
    lemma_find_by_notes(txs1, notes, id, 0);
    assert(k != i);
    let c = txs1[k].id;
    assert(txs1[k] == txs[k]);
    assert forall|x: int| find_transaction(txs1, x, 0) == find_transaction(txs, x, 0) by {
        lemma_find_transaction_by_ids(txs1, txs, x, 0);
    }
    lemma_find_transaction_unique(txs, k);
    lemma_find_transaction_unique(txs, i);
    let a = linked(txs1, id, c);
    assert(a == txs1.update(i, TransactionView { linked_tx_id: Some(c), ..txs1[i] }));
    assert forall|x: int| find_transaction(a, x, 0) == find_transaction(txs, x, 0) by {
        lemma_find_transaction_by_ids(a, txs, x, 0);
    }
    let b = linked(a, c, id);
    assert(b == a.update(k, TransactionView { linked_tx_id: Some(id), ..a[k] }));
    assert forall|x: int| find_transaction(b, x, 0) == find_transaction(txs, x, 0) by {
        lemma_find_transaction_by_ids(b, txs, x, 0);
    }
    let ai = find_account(l.accounts, args.account_id as int, 0);
    let fin = b.update(k, mirrored(b[k], args, l.accounts[ai].name));
    assert(l2.transactions == fin);
    assert forall|x: int| find_transaction(fin, x, 0) == find_transaction(txs, x, 0) by {
        lemma_find_transaction_by_ids(fin, txs, x, 0);
    }
}

/// Rewriting the transaction `except` itself does not change which other
/// transaction its notes find.
pub proof fn lemma_find_by_notes_skips(
    txs: Seq<TransactionView>,
    i: int,
    row: TransactionView,
    notes: Seq<char>,
    except: int,
    from: int,
)
    requires
        0 <= i < txs.len(),
        0 <= from <= txs.len(),
        txs[i].id == except,
        row.id == except,
    ensures
        find_by_notes(txs.update(i, row), notes, except, from) == find_by_notes(
            txs,
            notes,
            except,
            from,
        ),
    decreases txs.len() - from,
{
    if from < txs.len() {
        if from != i {
            assert(txs.update(i, row)[from] == txs[from]);
        }
        if !is_unlinked_side(txs[from], notes, except) {
            lemma_find_by_notes_skips(txs, i, row, notes, except, from + 1);
        }
    }
}

} // verus!
