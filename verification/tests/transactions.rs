use honeybear::{
    create_account_db, create_transaction_db, delete_transaction_db, get_accounts_db,
    get_all_transactions_db, get_transactions_db, update_transaction_db, CreateTransactionArgs,
    Ledger, LedgerError, Transaction, UpdateTransactionArgs,
};

fn amt(x: f64) -> i64 {
    (x * 1_000_000.0).round() as i64
}

fn today() -> String {
    chrono::Utc::now().format("%Y-%m-%d").to_string()
}

fn setup_db() -> Ledger {
    Ledger::new()
}

fn account(db: &mut Ledger, name: &str, balance: f64) -> honeybear::Account {
    create_account_db(db, name.to_string(), amt(balance), None, today()).unwrap()
}

fn args(
    account_id: i32,
    date: &str,
    payee: &str,
    notes: Option<&str>,
    category: Option<&str>,
    amount: f64,
) -> CreateTransactionArgs {
    CreateTransactionArgs {
        account_id,
        date: date.to_string(),
        payee: payee.to_string(),
        notes: notes.map(|s| s.to_string()),
        category: category.map(|s| s.to_string()),
        amount: amt(amount),
        ticker: None,
        shares: None,
        price_per_share: None,
        fee: None,
        currency: None,
    }
}

fn update(
    id: i32,
    account_id: i32,
    date: &str,
    payee: &str,
    notes: Option<&str>,
    category: Option<&str>,
    amount: f64,
) -> UpdateTransactionArgs {
    UpdateTransactionArgs {
        id,
        account_id,
        date: date.to_string(),
        payee: payee.to_string(),
        notes: notes.map(|s| s.to_string()),
        category: category.map(|s| s.to_string()),
        amount: amt(amount),
        currency: None,
    }
}

/// A row as it may have been written before transfers were linked.
fn unlinked_row(db: &mut Ledger, account_id: i32, payee: &str, notes: &str, amount: f64) -> i32 {
    let id = db.transactions.iter().map(|t| t.id).max().unwrap_or(0) + 1;
    db.transactions.push(Transaction {
        id,
        account_id,
        date: "2023-01-01".to_string(),
        payee: payee.to_string(),
        notes: Some(notes.to_string()),
        category: Some("Transfer".to_string()),
        amount: amt(amount),
        ticker: None,
        shares: None,
        price_per_share: None,
        fee: None,
        currency: None,
        linked_tx_id: None,
    });
    for a in db.accounts.iter_mut() {
        if a.id == account_id {
            a.balance += amt(amount);
        }
    }
    id
}

fn balance_of(db: &Ledger, id: i32) -> i64 {
    get_accounts_db(db).unwrap().iter().find(|a| a.id == id).unwrap().balance
}

#[test]
fn create_transaction_test_create_transaction() {
    let mut db = setup_db();
    let account = account(&mut db, "Test Account", 100.0);

    let tx = create_transaction_db(
        &mut db,
        args(account.id, "2023-01-01", "Payee", Some("Notes"), Some("Category"), -50.0),
    )
    .unwrap();

    assert_eq!(tx.amount, amt(-50.0));

    let accounts = get_accounts_db(&db).unwrap();
    assert_eq!(accounts[0].balance, amt(50.0)); // 100 - 50
}

#[test]
fn tests_test_create_transaction() {
    let mut db = setup_db();
    let account = account(&mut db, "Test Account", 100.0);
    let tx = create_transaction_db(
        &mut db,
        args(account.id, "2023-01-01", "Payee", Some("Notes"), Some("Category"), -50.0),
    )
    .unwrap();
    assert_eq!(tx.amount, amt(-50.0));
    assert_eq!(tx.notes.as_deref(), Some("Notes"));
    assert_eq!(tx.category.as_deref(), Some("Category"));
    assert_eq!(tx.linked_tx_id, None);
    let accounts = get_accounts_db(&db).unwrap();
    assert_eq!(accounts[0].balance, amt(50.0));
}

#[test]
fn test_transfer() {
    let mut db = setup_db();
    let acc1 = account(&mut db, "Acc1", 100.0);
    let acc2 = account(&mut db, "Acc2", 0.0);

    // Transfer 50 from Acc1 to Acc2: the payee is "Acc2"
    create_transaction_db(&mut db, args(acc1.id, "2023-01-01", "Acc2", None, None, -50.0))
        .unwrap();

    let accounts = get_accounts_db(&db).unwrap();
    let acc1_new = accounts.iter().find(|a| a.id == acc1.id).unwrap();
    let acc2_new = accounts.iter().find(|a| a.id == acc2.id).unwrap();

    assert_eq!(acc1_new.balance, amt(50.0));
    assert_eq!(acc2_new.balance, amt(50.0));

    let txs1 = get_transactions_db(&db, acc1.id).unwrap();
    let txs2 = get_transactions_db(&db, acc2.id).unwrap();

    // txs1 has opening balance + transfer; the opening balance is newer
    assert_eq!(txs1.len(), 2);
    assert_eq!(txs1[1].category.as_deref(), Some("Transfer"));

    assert_eq!(txs2.len(), 1);
    assert_eq!(txs2[0].category.as_deref(), Some("Transfer"));
    assert_eq!(txs2[0].amount, amt(50.0));
}

#[test]
fn create_transaction_test_get_all_transactions() {
    let mut db = setup_db();
    let acc1 = account(&mut db, "A1", 100.0);
    let acc2 = account(&mut db, "A2", 100.0);

    create_transaction_db(&mut db, args(acc1.id, "2023-01-01", "P1", None, None, -10.0)).unwrap();
    create_transaction_db(&mut db, args(acc2.id, "2023-01-02", "P2", None, None, -20.0)).unwrap();

    let all = get_all_transactions_db(&db).unwrap();
    // Both accounts had opening balance txs plus the two created txs => total 4
    assert_eq!(all.len(), 4);
    assert!(all.iter().any(|t| t.date == "2023-01-02"));
}

#[test]
fn create_transaction_test_create_transaction_transfer_details() {
    let mut db = setup_db();
    let acc1 = account(&mut db, "A1", 100.0);
    let acc2 = account(&mut db, "A2", 0.0);

    let tx = create_transaction_db(
        &mut db,
        args(acc1.id, "2023-01-05", &acc2.name, None, None, -50.0),
    )
    .unwrap();

    assert_eq!(tx.category.as_deref(), Some("Transfer"));

    // counterpart exists in acc2
    let txs2 = get_transactions_db(&db, acc2.id).unwrap();
    assert_eq!(txs2.len(), 1);
    assert_eq!(txs2[0].amount, amt(50.0));
    assert_eq!(txs2[0].payee, acc1.name);
}

#[test]
fn create_transaction_test_get_transactions_ordering() {
    let mut db = setup_db();
    let acc = account(&mut db, "Ord", 0.0);

    create_transaction_db(&mut db, args(acc.id, "2023-01-01", "P1", None, None, -10.0)).unwrap();
    create_transaction_db(&mut db, args(acc.id, "2023-02-01", "P2", None, None, -20.0)).unwrap();

    let txs = get_transactions_db(&db, acc.id).unwrap();
    assert!(txs.len() >= 2);
    assert_eq!(txs[0].date, "2023-02-01");
    assert_eq!(txs[1].date, "2023-01-01");
}

#[test]
fn create_transaction_test_create_transaction_with_nonexistent_account_errors_due_to_foreign_key() {
    let mut db = setup_db();
    let res = create_transaction_db(
        &mut db,
        args(-999, "2023-01-01", "Someone", None, Some("Food"), -10.0),
    );
    assert!(res.is_err());

    // ensure no accounts were created with that id
    let accounts = get_accounts_db(&db).unwrap();
    assert!(accounts.iter().all(|a| a.id != -999));
}

#[test]
fn create_transaction_test_create_transaction_preserves_nontransfer_category() {
    let mut db = setup_db();
    let acc = account(&mut db, "A", 100.0);

    let tx = create_transaction_db(
        &mut db,
        args(acc.id, "2023-01-02", "NonAccountPayee", None, Some("Entertainment"), -15.0),
    )
    .unwrap();

    assert_eq!(tx.category.as_deref(), Some("Entertainment"));
}

#[test]
fn test_create_transaction_with_ticker_shares_price_fee() {
    let mut db = setup_db();
    let acc = account(&mut db, "Invest", 1000.0);

    let tx = create_transaction_db(
        &mut db,
        CreateTransactionArgs {
            account_id: acc.id,
            date: "2023-01-03".to_string(),
            payee: "Broker".to_string(),
            notes: Some("Bought shares".to_string()),
            category: Some("Investment".to_string()),
            amount: amt(-1505.0),
            ticker: Some("AAPL".to_string()),
            shares: Some(amt(10.0)),
            price_per_share: Some(amt(150.0)),
            fee: Some(amt(5.0)),
            currency: None,
        },
    )
    .unwrap();

    // Returned transaction has the investment fields set
    assert_eq!(tx.ticker.as_deref(), Some("AAPL"));
    assert_eq!(tx.shares, Some(amt(10.0)));
    assert_eq!(tx.price_per_share, Some(amt(150.0)));
    assert_eq!(tx.fee, Some(amt(5.0)));

    // Persisted row should match
    let txs = get_transactions_db(&db, acc.id).unwrap();
    let found = txs.iter().find(|t| t.id == tx.id).unwrap();
    assert_eq!(found.ticker, tx.ticker);
    assert_eq!(found.shares, tx.shares);
    assert_eq!(found.price_per_share, tx.price_per_share);
    assert_eq!(found.fee, tx.fee);

    // Account balance updated accordingly
    assert_eq!(balance_of(&db, acc.id), amt(-505.0));
}

#[test]
fn delete_transaction_test_delete_transaction() {
    let mut db = setup_db();
    let account = account(&mut db, "Test", 100.0);
    let tx = create_transaction_db(&mut db, args(account.id, "2023-01-01", "Payee", None, None, -10.0))
        .unwrap();

    delete_transaction_db(&mut db, tx.id).unwrap();

    let accounts = get_accounts_db(&db).unwrap();
    assert_eq!(accounts[0].balance, amt(100.0));
}

#[test]
fn tests_test_delete_transaction() {
    let mut db = setup_db();
    let account = account(&mut db, "Test", 100.0);
    let tx = create_transaction_db(&mut db, args(account.id, "2023-01-01", "Payee", None, None, -10.0))
        .unwrap();
    delete_transaction_db(&mut db, tx.id).unwrap();
    let accounts = get_accounts_db(&db).unwrap();
    assert_eq!(accounts[0].balance, amt(100.0));
    assert_eq!(get_transactions_db(&db, account.id).unwrap().len(), 1);
}

#[test]
fn test_delete_transaction_deletes_linked_counterpart() {
    let mut db = setup_db();
    let acc1 = account(&mut db, "A1", 100.0);
    let acc2 = account(&mut db, "A2", 0.0);

    // Create a transfer, which links the two transactions
    let tx = create_transaction_db(&mut db, args(acc1.id, "2023-01-01", &acc2.name, None, None, -30.0))
        .unwrap();

    let linked_id_opt: Option<i32> =
        db.transactions.iter().find(|t| t.id == tx.id).unwrap().linked_tx_id;
    assert!(linked_id_opt.is_some());

    // balances before delete
    assert_eq!(balance_of(&db, acc1.id), amt(70.0));
    assert_eq!(balance_of(&db, acc2.id), amt(30.0));

    // Delete the first transaction
    delete_transaction_db(&mut db, tx.id).unwrap();

    let txs1 = get_transactions_db(&db, acc1.id).unwrap();
    let txs2 = get_transactions_db(&db, acc2.id).unwrap();

    assert!(txs1.iter().all(|t| t.id != tx.id));
    if let Some(linked_id) = linked_id_opt {
        assert!(txs2.iter().all(|t| t.id != linked_id));
    }

    assert_eq!(balance_of(&db, acc1.id), amt(100.0));
    assert_eq!(balance_of(&db, acc2.id), amt(0.0));
}

#[test]
fn test_delete_transaction_fallback_by_notes() {
    let mut db = setup_db();
    let acc1 = account(&mut db, "Acc1", 100.0);
    let acc2 = account(&mut db, "Acc2", 0.0);

    // Two transactions with matching notes and no link, and the balances that go with them
    let tx1_id = unlinked_row(&mut db, acc1.id, &acc2.name, "XFER", -20.0);
    let tx2_id = unlinked_row(&mut db, acc2.id, &acc1.name, "XFER", 20.0);

    // Deleting tx1 (no link, but the notes match) removes both
    delete_transaction_db(&mut db, tx1_id).unwrap();

    let txs1 = get_transactions_db(&db, acc1.id).unwrap();
    let txs2 = get_transactions_db(&db, acc2.id).unwrap();

    assert!(txs1.iter().all(|t| t.id != tx1_id));
    assert!(txs2.iter().all(|t| t.id != tx2_id));

    assert_eq!(balance_of(&db, acc1.id), amt(100.0));
    assert_eq!(balance_of(&db, acc2.id), amt(0.0));
}

#[test]
fn test_delete_transaction_missing_id_should_error() {
    let mut db = setup_db();
    let res = delete_transaction_db(&mut db, -999);
    assert!(res.is_err());
}

#[test]
fn update_transaction_test_update_transaction() {
    let mut db = setup_db();
    let account = account(&mut db, "Test", 100.0);
    let tx = create_transaction_db(&mut db, args(account.id, "2023-01-01", "Payee", None, None, -10.0))
        .unwrap();

    update_transaction_db(
        &mut db,
        update(tx.id, account.id, "2023-01-02", "New Payee", Some("Updated"), Some("Food"), -20.0),
    )
    .unwrap();

    let accounts = get_accounts_db(&db).unwrap();
    // Balance: 100 - 20 = 80
    assert_eq!(accounts[0].balance, amt(80.0));
}

#[test]
fn tests_test_update_transaction() {
    let mut db = setup_db();
    let account = account(&mut db, "Test", 100.0);
    let tx = create_transaction_db(&mut db, args(account.id, "2023-01-01", "Payee", None, None, -10.0))
        .unwrap();
    let r = update_transaction_db(
        &mut db,
        update(tx.id, account.id, "2023-01-02", "New Payee", Some("Updated"), Some("Food"), -20.0),
    )
    .unwrap();
    assert_eq!(r.payee, "New Payee");
    let accounts = get_accounts_db(&db).unwrap();
    assert_eq!(accounts[0].balance, amt(80.0));
    let row = db.transactions.iter().find(|t| t.id == tx.id).unwrap();
    assert_eq!(row.date, "2023-01-02");
    assert_eq!(row.notes.as_deref(), Some("Updated"));
    assert_eq!(row.category.as_deref(), Some("Food"));
    assert_eq!(row.amount, amt(-20.0));
}

#[test]
fn test_update_transaction_missing_id_should_error() {
    let mut db = setup_db();
    let res = update_transaction_db(&mut db, update(-999, 1, "2023-01-01", "X", None, None, 10.0));
    assert!(res.is_err());
}

#[test]
fn test_update_transaction_finds_counterpart_by_notes() {
    let mut db = setup_db();
    let acc1 = account(&mut db, "Acc1", 100.0);
    let acc2 = account(&mut db, "Acc2", 0.0);

    // Two transactions without link but with matching notes
    let tx1_id = unlinked_row(&mut db, acc1.id, &acc2.name, "XFER", -50.0);
    let tx2_id = unlinked_row(&mut db, acc2.id, &acc1.name, "XFER", 50.0);

    // Update tx1 to -60: the other side is found by its notes
    update_transaction_db(
        &mut db,
        update(tx1_id, acc1.id, "2023-01-02", &acc2.name, Some("XFER"), Some("Transfer"), -60.0),
    )
    .unwrap();

    // acc1: 100 - 60 = 40, acc2: 0 + 60 = 60
    assert_eq!(balance_of(&db, acc1.id), amt(40.0));
    assert_eq!(balance_of(&db, acc2.id), amt(60.0));

    let txs2 = get_transactions_db(&db, acc2.id).unwrap();
    assert_eq!(txs2.len(), 1);
    assert_eq!(txs2[0].amount, amt(60.0));
    assert_eq!(txs2[0].payee, acc1.name);

    // and the two are linked from now on
    assert_eq!(txs2[0].linked_tx_id, Some(tx1_id));
    let row1 = db.transactions.iter().find(|t| t.id == tx1_id).unwrap();
    assert_eq!(row1.linked_tx_id, Some(tx2_id));
}

// ---- scenarios and further cases ----

#[test]
fn scenario_opening_balance() {
    let mut db = setup_db();
    let acc = account(&mut db, "Checking", 100.0);
    let txs = get_transactions_db(&db, acc.id).unwrap();
    assert_eq!(txs.len(), 1);
    assert_eq!(txs[0].amount, amt(100.0));
    assert_eq!(txs[0].payee, "Opening Balance");
}

#[test]
fn scenario_transfer_creation() {
    let mut db = setup_db();
    let a = account(&mut db, "A", 100.0);
    let b = account(&mut db, "B", 0.0);
    let tx = create_transaction_db(&mut db, args(a.id, "2024-03-01", "B", None, None, -50.0)).unwrap();
    assert_eq!(balance_of(&db, a.id), amt(50.0));
    assert_eq!(balance_of(&db, b.id), amt(50.0));
    let other = db.transactions.iter().find(|t| Some(t.id) == tx.linked_tx_id).unwrap();
    assert_eq!(tx.category.as_deref(), Some("Transfer"));
    assert_eq!(other.category.as_deref(), Some("Transfer"));
    assert_eq!(other.amount, -tx.amount);
    assert_eq!(other.linked_tx_id, Some(tx.id));
    assert_eq!(other.account_id, b.id);
}

#[test]
fn scenario_cross_account_move() {
    let mut db = setup_db();
    let a = account(&mut db, "A", 1000.0);
    let b = account(&mut db, "B", 1000.0);
    let tx = create_transaction_db(&mut db, args(a.id, "2024-03-01", "Shop", None, None, -201.0))
        .unwrap();
    assert_eq!(balance_of(&db, a.id), amt(799.0));
    update_transaction_db(&mut db, update(tx.id, b.id, "2024-03-01", "Shop", None, None, -201.0))
        .unwrap();
    assert_eq!(balance_of(&db, a.id), amt(1000.0));
    assert_eq!(balance_of(&db, b.id), amt(799.0));
}

#[test]
fn transfer_is_exact_on_the_name() {
    let mut db = setup_db();
    let a = account(&mut db, "A", 0.0);
    let _b = account(&mut db, "Bank", 0.0);
    // another case is another payee, not the account
    let tx = create_transaction_db(&mut db, args(a.id, "2024-01-01", "bank", None, Some("Fees"), -1.0))
        .unwrap();
    assert_eq!(tx.category.as_deref(), Some("Fees"));
    assert_eq!(tx.linked_tx_id, None);
    // an account is never its own transfer target
    let own = create_transaction_db(&mut db, args(a.id, "2024-01-01", "A", None, None, -1.0)).unwrap();
    assert_eq!(own.category, None);
    assert_eq!(db.transactions.len(), 2);
}

#[test]
fn transfer_mirror_keeps_the_notes_that_were_asked_for() {
    let mut db = setup_db();
    let a = account(&mut db, "A", 0.0);
    let b = account(&mut db, "B", 0.0);
    let tx = create_transaction_db(
        &mut db,
        CreateTransactionArgs {
            currency: Some("EUR".to_string()),
            ..args(a.id, "2024-01-01", "B", Some("rent"), Some("Housing"), -7.25)
        },
    )
    .unwrap();
    assert_eq!(tx.category.as_deref(), Some("Transfer"));
    let mirror = &get_transactions_db(&db, b.id).unwrap()[0];
    assert_eq!(mirror.notes.as_deref(), Some("rent"));
    assert_eq!(mirror.payee, "A");
    assert_eq!(mirror.date, "2024-01-01");
    assert_eq!(mirror.amount, amt(7.25));
    assert_eq!(mirror.currency, None);
    assert_eq!(mirror.id, tx.id + 1);
}

#[test]
fn update_mirrors_onto_the_linked_side() {
    let mut db = setup_db();
    let a = account(&mut db, "A", 100.0);
    let b = account(&mut db, "B", 0.0);
    let tx = create_transaction_db(&mut db, args(a.id, "2024-01-01", "B", None, None, -50.0)).unwrap();
    let other_id = tx.linked_tx_id.unwrap();
    let r = update_transaction_db(
        &mut db,
        UpdateTransactionArgs {
            currency: Some("USD".to_string()),
            ..update(tx.id, a.id, "2024-02-02", "B", Some("n"), Some("Transfer"), -80.0)
        },
    )
    .unwrap();
    assert_eq!(r.linked_tx_id, Some(other_id));
    assert_eq!(r.ticker, None);
    let other = db.transactions.iter().find(|t| t.id == other_id).unwrap();
    assert_eq!(other.amount, amt(80.0));
    assert_eq!(other.date, "2024-02-02");
    assert_eq!(other.payee, "A");
    assert_eq!(other.notes.as_deref(), Some("n"));
    assert_eq!(other.category.as_deref(), Some("Transfer"));
    assert_eq!(other.currency.as_deref(), Some("USD"));
    assert_eq!(other.linked_tx_id, Some(tx.id));
    assert_eq!(balance_of(&db, a.id), amt(20.0));
    assert_eq!(balance_of(&db, b.id), amt(80.0));

    // changing the other side mirrors back
    update_transaction_db(&mut db, update(other_id, b.id, "2024-02-03", "A", None, None, 10.0))
        .unwrap();
    let first = db.transactions.iter().find(|t| t.id == tx.id).unwrap();
    assert_eq!(first.amount, amt(-10.0));
    assert_eq!(first.payee, "B");
    assert_eq!(balance_of(&db, a.id), amt(90.0));
    assert_eq!(balance_of(&db, b.id), amt(10.0));
}

#[test]
fn deleting_the_other_side_also_deletes_both() {
    let mut db = setup_db();
    let a = account(&mut db, "A", 100.0);
    let b = account(&mut db, "B", 0.0);
    let tx = create_transaction_db(&mut db, args(a.id, "2024-01-01", "B", None, None, -50.0)).unwrap();
    delete_transaction_db(&mut db, tx.linked_tx_id.unwrap()).unwrap();
    assert_eq!(db.transactions.len(), 1);
    assert_eq!(balance_of(&db, a.id), amt(100.0));
    assert_eq!(balance_of(&db, b.id), amt(0.0));
}

#[test]
fn update_to_an_account_that_does_not_exist_is_a_constraint_error() {
    let mut db = setup_db();
    let a = account(&mut db, "A", 100.0);
    let tx = create_transaction_db(&mut db, args(a.id, "2024-01-01", "P", None, None, -5.0)).unwrap();
    let before = db.transactions.len();
    let r = update_transaction_db(&mut db, update(tx.id, 42, "2024-01-01", "P", None, None, -5.0));
    assert_eq!(r.unwrap_err(), LedgerError::Constraint);
    assert_eq!(db.transactions.len(), before);
    assert_eq!(balance_of(&db, a.id), amt(95.0));
    assert_eq!(
        update_transaction_db(&mut db, update(99, a.id, "d", "P", None, None, 0.0)).unwrap_err(),
        LedgerError::NotFound
    );
    assert_eq!(delete_transaction_db(&mut db, 99).unwrap_err(), LedgerError::NotFound);
    assert_eq!(
        create_transaction_db(&mut db, args(42, "d", "P", None, None, 1.0)).unwrap_err(),
        LedgerError::NotFound
    );
}

#[test]
fn a_balance_that_cannot_be_recorded_is_refused_and_nothing_changes() {
    let mut db = setup_db();
    let a = create_account_db(&mut db, "A".to_string(), i64::MAX - 5, None, today()).unwrap();
    let b = create_account_db(&mut db, "B".to_string(), 0, None, today()).unwrap();
    let rows = db.transactions.len();
    let r = create_transaction_db(
        &mut db,
        CreateTransactionArgs { amount: 6, ..args(a.id, "d", "P", None, None, 0.0) },
    );
    assert_eq!(r.unwrap_err(), LedgerError::OutOfRange);
    assert_eq!(db.transactions.len(), rows);
    assert_eq!(balance_of(&db, a.id), i64::MAX - 5);

    // a transfer fails as a whole when the second balance cannot move
    let r = create_transaction_db(
        &mut db,
        CreateTransactionArgs { amount: -10, ..args(b.id, "d", "A", None, None, 0.0) },
    );
    assert_eq!(r.unwrap_err(), LedgerError::OutOfRange);
    assert_eq!(db.transactions.len(), rows);
    assert_eq!(balance_of(&db, b.id), 0);

    // the least amount has no mirror
    let r = create_transaction_db(
        &mut db,
        CreateTransactionArgs { amount: i64::MIN, ..args(b.id, "d", "A", None, None, 0.0) },
    );
    assert_eq!(r.unwrap_err(), LedgerError::OutOfRange);
}

#[test]
fn transaction_identifiers_follow_the_largest() {
    let mut db = setup_db();
    let a = account(&mut db, "A", 0.0);
    let t1 = create_transaction_db(&mut db, args(a.id, "d", "P", None, None, 1.0)).unwrap();
    let t2 = create_transaction_db(&mut db, args(a.id, "d", "P", None, None, 1.0)).unwrap();
    assert_eq!((t1.id, t2.id), (1, 2));
    delete_transaction_db(&mut db, t1.id).unwrap();
    let t3 = create_transaction_db(&mut db, args(a.id, "d", "P", None, None, 1.0)).unwrap();
    assert_eq!(t3.id, 3);
}

#[test]
fn test_create_account_and_transaction_via_helpers() {
    let mut db = setup_db();

    let acc1 = account(&mut db, "A", 100.0);
    let acc2 = account(&mut db, "B", 0.0);

    assert_eq!(acc1.balance, amt(100.0));

    // A transfer from acc1 to acc2
    let _tx = create_transaction_db(
        &mut db,
        args(acc1.id, "2023-01-01", &acc2.name, Some("XFER"), None, -30.0),
    )
    .unwrap();

    assert_eq!(balance_of(&db, acc1.id), amt(70.0));
    assert_eq!(balance_of(&db, acc2.id), amt(30.0));
}
