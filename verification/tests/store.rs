use honeybear::{
    create_account_db, create_rule_db, create_transaction_db, delete_rule_db,
    get_custom_exchange_rate_db, get_custom_rates_map, get_rules_db, set_custom_exchange_rate_db,
    update_rule_db, update_rules_order_db, CreateTransactionArgs, Ledger, RuleAction,
    RuleCondition,
};

fn amt(x: f64) -> i64 {
    (x * 1_000_000.0).round() as i64
}

fn today() -> String {
    chrono::Utc::now().format("%Y-%m-%d").to_string()
}

fn setup_db() -> Ledger {
    Ledger::new()
}

fn simple_rule(db: &mut Ledger, priority: i32, pattern: &str, value: &str) -> i32 {
    create_rule_db(
        db,
        priority,
        "payee".to_string(),
        pattern.to_string(),
        "category".to_string(),
        value.to_string(),
        "and".to_string(),
        vec![],
        vec![],
    )
    .unwrap()
}

fn contains_rule(db: &mut Ledger, priority: i32, needle: &str, actions: Vec<RuleAction>) -> i32 {
    create_rule_db(
        db,
        priority,
        "".to_string(),
        "".to_string(),
        "".to_string(),
        "".to_string(),
        "and".to_string(),
        vec![RuleCondition {
            field: "payee".to_string(),
            operator: "contains".to_string(),
            value: needle.to_string(),
            negated: false,
        }],
        actions,
    )
    .unwrap()
}

fn spend(account_id: i32, payee: &str, amount: f64) -> CreateTransactionArgs {
    CreateTransactionArgs {
        account_id,
        date: "2023-01-01".to_string(),
        payee: payee.to_string(),
        notes: None,
        category: None,
        amount: amt(amount),
        ticker: None,
        shares: None,
        price_per_share: None,
        fee: None,
        currency: None,
    }
}

#[test]
fn test_create_and_get_rules() {
    let mut db = setup_db();

    let id = create_rule_db(
        &mut db,
        10,
        "payee".to_string(),
        "Starbucks".to_string(),
        "category".to_string(),
        "Coffee".to_string(),
        "and".to_string(),
        vec![],
        vec![],
    )
    .expect("failed to create rule");

    assert!(id > 0);

    let rules = get_rules_db(&db).expect("failed to get rules");
    assert_eq!(rules.len(), 1);
    let rule = &rules[0];
    assert_eq!(rule.id, id);
    assert_eq!(rule.priority, 10);
    assert_eq!(rule.match_field, "payee");
    assert_eq!(rule.match_pattern, "Starbucks");
    assert_eq!(rule.action_field, "category");
    assert_eq!(rule.action_value, "Coffee");
}

#[test]
fn test_create_complex_rule() {
    let mut db = setup_db();

    let conditions = vec![
        RuleCondition {
            field: "payee".to_string(),
            operator: "contains".to_string(),
            value: "Starbucks".to_string(),
            negated: false,
        },
        RuleCondition {
            field: "amount".to_string(),
            operator: "less_than".to_string(),
            value: "0".to_string(),
            negated: false,
        },
    ];

    let actions = vec![
        RuleAction { field: "category".to_string(), value: "Coffee".to_string() },
        RuleAction { field: "notes".to_string(), value: "Automatic Coffee Rule".to_string() },
    ];

    let id = create_rule_db(
        &mut db,
        20,
        "".to_string(),
        "".to_string(),
        "".to_string(),
        "".to_string(),
        "and".to_string(),
        conditions,
        actions,
    )
    .expect("failed to create complex rule");

    let rules = get_rules_db(&db).expect("failed to get rules");
    assert_eq!(rules.len(), 1);
    let rule = &rules[0];
    assert_eq!(rule.id, id);
    assert_eq!(rule.logic, "and");
    assert_eq!(rule.conditions.len(), 2);
    assert_eq!(rule.conditions[0].field, "payee");
    assert_eq!(rule.conditions[0].operator, "contains");
    assert_eq!(rule.conditions[1].field, "amount");
    assert_eq!(rule.conditions[1].operator, "less_than");
    assert_eq!(rule.actions.len(), 2);
    assert_eq!(rule.actions[0].field, "category");
    assert_eq!(rule.actions[0].value, "Coffee");
}

#[test]
fn test_update_rule() {
    let mut db = setup_db();
    let id = simple_rule(&mut db, 10, "Starbucks", "Coffee");

    update_rule_db(
        &mut db,
        id,
        20,
        "notes".to_string(),
        "My Note".to_string(),
        "amount".to_string(),
        "50.00".to_string(),
        "and".to_string(),
        vec![],
        vec![],
    )
    .expect("failed to update rule");

    let rules = get_rules_db(&db).unwrap();
    let rule = &rules[0];
    assert_eq!(rule.priority, 20);
    assert_eq!(rule.match_field, "notes");
    assert_eq!(rule.match_pattern, "My Note");
    assert_eq!(rule.action_field, "amount");
    assert_eq!(rule.action_value, "50.00");
}

#[test]
fn test_delete_rule() {
    let mut db = setup_db();
    let id = simple_rule(&mut db, 10, "Delete Me", "N/A");

    let rules_before = get_rules_db(&db).unwrap();
    assert_eq!(rules_before.len(), 1);

    delete_rule_db(&mut db, id).expect("failed to delete rule");

    let rules_after = get_rules_db(&db).unwrap();
    assert_eq!(rules_after.len(), 0);
}

#[test]
fn test_rule_application_during_transaction_creation() {
    let mut db = setup_db();
    let account =
        create_account_db(&mut db, "Test Account".to_string(), amt(1000.0), Some("USD".to_string()), today())
            .unwrap();

    contains_rule(
        &mut db,
        10,
        "Starbucks",
        vec![
            RuleAction { field: "category".to_string(), value: "Coffee & Drinks".to_string() },
            RuleAction { field: "notes".to_string(), value: "Applied via rule".to_string() },
        ],
    );

    let tx = create_transaction_db(&mut db, spend(account.id, "Starbucks London", -5.0))
        .expect("failed to create transaction");

    assert_eq!(tx.category, Some("Coffee & Drinks".to_string()));
    assert_eq!(tx.notes, Some("Applied via rule".to_string()));
}

#[test]
fn test_rule_precedence_in_db() {
    let mut db = setup_db();
    let account =
        create_account_db(&mut db, "Test Account".to_string(), amt(1000.0), Some("USD".to_string()), today())
            .unwrap();

    // lower priority first, then the higher one
    contains_rule(
        &mut db,
        10,
        "Shop",
        vec![RuleAction { field: "category".to_string(), value: "Shopping".to_string() }],
    );
    contains_rule(
        &mut db,
        20,
        "Shop",
        vec![RuleAction { field: "category".to_string(), value: "Supermarket".to_string() }],
    );

    let tx = create_transaction_db(&mut db, spend(account.id, "Cool Shop", -20.0)).unwrap();

    // Higher priority wins
    assert_eq!(tx.category, Some("Supermarket".to_string()));
}

// ---- further cases ----

#[test]
fn higher_priority_wins_whichever_rule_was_entered_first() {
    for higher_first in [true, false] {
        let mut db = setup_db();
        let account = create_account_db(&mut db, "A".to_string(), 0, None, today()).unwrap();
        let order: [(i32, &str); 2] =
            if higher_first { [(20, "High"), (10, "Low")] } else { [(10, "Low"), (20, "High")] };
        for (priority, value) in order {
            contains_rule(
                &mut db,
                priority,
                "Shop",
                vec![RuleAction { field: "category".to_string(), value: value.to_string() }],
            );
        }
        let tx = create_transaction_db(&mut db, spend(account.id, "Cool Shop", -20.0)).unwrap();
        assert_eq!(tx.category.as_deref(), Some("High"));
    }
}

#[test]
fn rules_come_out_by_priority_then_identifier() {
    let mut db = setup_db();
    let a = simple_rule(&mut db, 5, "a", "a");
    let b = simple_rule(&mut db, 9, "b", "b");
    let c = simple_rule(&mut db, 5, "c", "c");
    let d = simple_rule(&mut db, 7, "d", "d");
    let ids: Vec<i32> = get_rules_db(&db).unwrap().iter().map(|r| r.id).collect();
    assert_eq!(ids, vec![b, d, a, c]);
    assert_eq!((a, b, c, d), (1, 2, 3, 4));
}

#[test]
fn a_rule_can_turn_a_payee_into_a_transfer() {
    let mut db = setup_db();
    let a = create_account_db(&mut db, "A".to_string(), 0, None, today()).unwrap();
    let b = create_account_db(&mut db, "Savings".to_string(), 0, None, today()).unwrap();
    contains_rule(
        &mut db,
        1,
        "save",
        vec![
            RuleAction { field: "payee".to_string(), value: "Savings".to_string() },
            RuleAction { field: "category".to_string(), value: "Whatever".to_string() },
        ],
    );
    let tx = create_transaction_db(&mut db, spend(a.id, "monthly save", -10.0)).unwrap();
    assert_eq!(tx.payee, "Savings");
    assert_eq!(tx.category.as_deref(), Some("Transfer"));
    assert_eq!(db.accounts.iter().find(|x| x.id == b.id).unwrap().balance, amt(10.0));
}

#[test]
fn reordering_gives_the_first_of_the_list_the_highest_priority() {
    let mut db = setup_db();
    let a = simple_rule(&mut db, 1, "a", "a");
    let b = simple_rule(&mut db, 2, "b", "b");
    let c = simple_rule(&mut db, 3, "c", "c");
    update_rules_order_db(&mut db, vec![a, c, b, 99]).unwrap();
    let rules = get_rules_db(&db).unwrap();
    let seen: Vec<(i32, i32)> = rules.iter().map(|r| (r.id, r.priority)).collect();
    assert_eq!(seen, vec![(a, 4), (c, 3), (b, 2)]);
}

#[test]
fn updating_or_deleting_a_rule_that_is_not_there_is_no_error() {
    let mut db = setup_db();
    let a = simple_rule(&mut db, 1, "a", "a");
    update_rule_db(
        &mut db,
        a + 1,
        9,
        "x".to_string(),
        "x".to_string(),
        "x".to_string(),
        "x".to_string(),
        "or".to_string(),
        vec![],
        vec![],
    )
    .unwrap();
    delete_rule_db(&mut db, a + 1).unwrap();
    let rules = get_rules_db(&db).unwrap();
    assert_eq!(rules.len(), 1);
    assert_eq!(rules[0].priority, 1);
}

#[test]
fn custom_rates_replace_and_read_back() {
    let mut db = setup_db();
    assert_eq!(get_custom_exchange_rate_db(&db, "XYZ".to_string()).unwrap(), None);
    set_custom_exchange_rate_db(&mut db, "XYZ".to_string(), amt(0.5)).unwrap();
    set_custom_exchange_rate_db(&mut db, "ABC".to_string(), amt(2.0)).unwrap();
    set_custom_exchange_rate_db(&mut db, "XYZ".to_string(), amt(0.75)).unwrap();
    assert_eq!(get_custom_exchange_rate_db(&db, "XYZ".to_string()).unwrap(), Some(amt(0.75)));
    assert_eq!(get_custom_exchange_rate_db(&db, "ABC".to_string()).unwrap(), Some(amt(2.0)));
    assert_eq!(get_custom_exchange_rate_db(&db, "xyz".to_string()).unwrap(), None);
    let map = get_custom_rates_map(&db).unwrap();
    assert_eq!(map.get("XYZ"), Some(amt(0.75)));
    assert_eq!(map.get("ABC"), Some(amt(2.0)));
    assert_eq!(map.get("DEF"), None);
}
