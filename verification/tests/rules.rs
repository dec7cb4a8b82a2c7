use honeybear::{apply_rules_to_transaction, Rule, RuleAction, RuleCondition, Transaction};

fn amt(x: f64) -> i64 {
    (x * 1_000_000.0).round() as i64
}

fn create_base_transaction() -> Transaction {
    Transaction {
        id: 1,
        account_id: 1,
        date: "2023-01-01".to_string(),
        payee: "Starbucks Coffee".to_string(),
        notes: Some("Morning coffee".to_string()),
        category: None,
        amount: amt(-5.50),
        ticker: None,
        shares: None,
        price_per_share: None,
        fee: None,
        currency: Some("USD".to_string()),
        linked_tx_id: None,
    }
}

fn cond(field: &str, operator: &str, value: &str, negated: bool) -> RuleCondition {
    RuleCondition {
        field: field.to_string(),
        operator: operator.to_string(),
        value: value.to_string(),
        negated,
    }
}

fn act(field: &str, value: &str) -> RuleAction {
    RuleAction { field: field.to_string(), value: value.to_string() }
}

fn rule(id: i32, priority: i32, logic: &str, conditions: Vec<RuleCondition>, actions: Vec<RuleAction>) -> Rule {
    Rule {
        id,
        priority,
        match_field: "".to_string(),
        match_pattern: "".to_string(),
        action_field: "".to_string(),
        action_value: "".to_string(),
        logic: logic.to_string(),
        conditions,
        actions,
    }
}

fn legacy(id: i32, priority: i32, mf: &str, mp: &str, af: &str, av: &str) -> Rule {
    Rule {
        id,
        priority,
        match_field: mf.to_string(),
        match_pattern: mp.to_string(),
        action_field: af.to_string(),
        action_value: av.to_string(),
        logic: "and".to_string(),
        conditions: vec![],
        actions: vec![],
    }
}

fn category_after(tx: &Transaction, rules: &[Rule]) -> Option<String> {
    let mut t = tx.clone();
    apply_rules_to_transaction(&mut t, rules);
    t.category
}

#[test]
fn test_rule_matching_and_logic() {
    let mut tx = create_base_transaction();

    let rule = rule(
        1,
        10,
        "and",
        vec![cond("payee", "contains", "Starbucks", false), cond("amount", "less_than", "0", false)],
        vec![act("category", "Food & Drink")],
    );

    apply_rules_to_transaction(&mut tx, &[rule]);
    assert_eq!(tx.category, Some("Food & Drink".to_string()));
}

#[test]
fn test_rule_matching_or_logic() {
    let mut tx = create_base_transaction(); // payee: Starbucks Coffee, amount: -5.50

    let rule = rule(
        1,
        10,
        "or",
        vec![
            cond("payee", "equals", "Non-existent", false),
            cond("amount", "less_than", "0", false),
        ],
        vec![act("category", "Matched")],
    );

    apply_rules_to_transaction(&mut tx, &[rule]);
    assert_eq!(tx.category, Some("Matched".to_string()));
}

#[test]
fn test_rule_negated_condition() {
    let mut tx = create_base_transaction(); // payee: Starbucks Coffee

    let rule = rule(
        1,
        10,
        "and",
        vec![cond("payee", "contains", "McDonalds", true)],
        vec![act("category", "Not Fast Food")],
    );

    apply_rules_to_transaction(&mut tx, &[rule]);
    assert_eq!(tx.category, Some("Not Fast Food".to_string()));
}

#[test]
fn test_multiple_actions() {
    let mut tx = create_base_transaction();

    let rule = rule(
        1,
        10,
        "and",
        vec![cond("payee", "contains", "Starbucks", false)],
        vec![
            act("category", "Coffee"),
            act("notes", "Updated Note"),
            act("payee", "Starbucks Corp"),
        ],
    );

    apply_rules_to_transaction(&mut tx, &[rule]);
    assert_eq!(tx.category, Some("Coffee".to_string()));
    assert_eq!(tx.notes, Some("Updated Note".to_string()));
    assert_eq!(tx.payee, "Starbucks Corp");
}

#[test]
fn test_legacy_fallback() {
    let mut tx = create_base_transaction();

    let rule = legacy(1, 10, "payee", "Starbucks", "category", "Legacy Coffee");

    apply_rules_to_transaction(&mut tx, &[rule]);
    assert_eq!(tx.category, Some("Legacy Coffee".to_string()));
}

#[test]
fn test_priority_order() {
    let mut tx = create_base_transaction();

    let rules = vec![
        legacy(1, 20, "payee", "Starbucks", "category", "Priority Winner"),
        legacy(2, 10, "payee", "Starbucks", "category", "Priority Loser"),
    ];

    apply_rules_to_transaction(&mut tx, &rules);
    // Highest priority (20) wins over lower priority (10)
    assert_eq!(tx.category, Some("Priority Winner".to_string()));
}

#[test]
fn test_operators() {
    let mut tx = create_base_transaction(); // payee: Starbucks Coffee, amount: -5.50

    // greater_than (amount > -10)
    let rule_gt = rule(
        1,
        10,
        "and",
        vec![cond("amount", "greater_than", "-10", false)],
        vec![act("category", "Large enough")],
    );
    apply_rules_to_transaction(&mut tx, &[rule_gt]);
    assert_eq!(tx.category, Some("Large enough".to_string()));

    // starts_with
    tx.category = None;
    let rule_sw = rule(
        2,
        10,
        "and",
        vec![cond("payee", "starts_with", "Star", false)],
        vec![act("category", "Starts with Star")],
    );
    apply_rules_to_transaction(&mut tx, &[rule_sw]);
    assert_eq!(tx.category, Some("Starts with Star".to_string()));

    // ends_with
    tx.category = None;
    let rule_ew = rule(
        3,
        10,
        "and",
        vec![cond("payee", "ends_with", "Coffee", false)],
        vec![act("category", "Ends with Coffee")],
    );
    apply_rules_to_transaction(&mut tx, &[rule_ew]);
    assert_eq!(tx.category, Some("Ends with Coffee".to_string()));
}

// ---- further cases ----

#[test]
fn text_operators_ignore_case() {
    let tx = create_base_transaction();
    for (op, value) in [
        ("equals", "STARBUCKS COFFEE"),
        ("contains", "bucks c"),
        ("starts_with", "sTaR"),
        ("ends_with", "COFFEE"),
    ] {
        let r = rule(1, 1, "and", vec![cond("payee", op, value, false)], vec![act("category", "hit")]);
        assert_eq!(category_after(&tx, &[r]), Some("hit".to_string()), "{op}");
    }
    for (op, value) in [
        ("equals", "Starbucks"),
        ("contains", "tea"),
        ("starts_with", "Coffee"),
        ("ends_with", "Star"),
    ] {
        let r = rule(1, 1, "and", vec![cond("payee", op, value, false)], vec![act("category", "hit")]);
        assert_eq!(category_after(&tx, &[r]), None, "{op}");
    }
}

#[test]
fn lower_casing_is_not_limited_to_ascii() {
    let mut tx = create_base_transaction();
    tx.payee = "CAFÉ ÉTOILE".to_string();
    let r = rule(1, 1, "and", vec![cond("payee", "contains", "é é", false)], vec![act("category", "hit")]);
    assert_eq!(category_after(&tx, &[r]), Some("hit".to_string()));
}

#[test]
fn numeric_operators_read_zero_where_there_is_no_number() {
    let tx = create_base_transaction(); // amount -5.5
    let gt = |field: &str, value: &str| {
        let r = rule(1, 1, "and", vec![cond(field, "greater_than", value, false)], vec![act("category", "hit")]);
        category_after(&tx, &[r]).is_some()
    };
    let lt = |field: &str, value: &str| {
        let r = rule(1, 1, "and", vec![cond(field, "less_than", value, false)], vec![act("category", "hit")]);
        category_after(&tx, &[r]).is_some()
    };
    assert!(gt("amount", "-5.6"));
    assert!(!gt("amount", "-5.5"));
    assert!(lt("amount", "-5.49"));
    assert!(lt("amount", "abc")); // -5.5 < 0
    assert!(!gt("amount", "abc"));
    assert!(gt("payee", "-1"));
    assert!(lt("payee", "0.000001"));
    assert!(!lt("payee", ""));
    assert!(!gt("payee", ""));
}

#[test]
fn unknown_operator_field_and_action_do_nothing() {
    let tx = create_base_transaction();
    let r = rule(1, 1, "and", vec![cond("payee", "matches", "Starbucks", false)], vec![act("category", "hit")]);
    assert_eq!(category_after(&tx, &[r]), None);
    // negated, an unknown operator always holds
    let r = rule(1, 1, "and", vec![cond("payee", "matches", "x", true)], vec![act("category", "hit")]);
    assert_eq!(category_after(&tx, &[r]), Some("hit".to_string()));
    // an unknown field reads as the empty text
    let r = rule(1, 1, "and", vec![cond("colour", "equals", "", false)], vec![act("category", "hit")]);
    assert_eq!(category_after(&tx, &[r]), Some("hit".to_string()));
    // an unknown action field is ignored
    let mut t = tx.clone();
    let r = rule(1, 1, "and", vec![cond("payee", "contains", "star", false)], vec![act("amount", "1")]);
    apply_rules_to_transaction(&mut t, &[r]);
    assert_eq!(t.amount, tx.amount);
    assert_eq!(t.category, None);
}

#[test]
fn fields_as_the_rules_read_them() {
    let mut tx = create_base_transaction();
    tx.ticker = Some("AAPL".to_string());
    tx.category = Some("Food".to_string());
    tx.amount = amt(100.0);
    for (field, value) in [
        ("payee", "starbucks coffee"),
        ("notes", "morning coffee"),
        ("category", "food"),
        ("amount", "100"),
        ("date", "2023-01-01"),
        ("ticker", "aapl"),
    ] {
        let r = rule(1, 1, "and", vec![cond(field, "equals", value, false)], vec![act("notes", "hit")]);
        let mut t = tx.clone();
        apply_rules_to_transaction(&mut t, &[r]);
        assert_eq!(t.notes.as_deref(), Some("hit"), "{field}");
    }
    tx.amount = amt(-0.25);
    let r = rule(1, 1, "and", vec![cond("amount", "equals", "-0.25", false)], vec![act("notes", "hit")]);
    apply_rules_to_transaction(&mut tx, &[r]);
    assert_eq!(tx.notes.as_deref(), Some("hit"));
}

#[test]
fn a_rule_without_conditions_or_single_test_never_matches() {
    let tx = create_base_transaction();
    let r = rule(1, 1, "and", vec![], vec![act("category", "hit")]);
    assert_eq!(category_after(&tx, &[r]), None);
    let r = legacy(1, 1, "payee", "", "category", "hit");
    assert_eq!(category_after(&tx, &[r]), None);
    let r = legacy(1, 1, "", "Starbucks", "category", "hit");
    assert_eq!(category_after(&tx, &[r]), None);
    // a single action with an empty value is not carried out
    let r = legacy(1, 1, "payee", "Starbucks", "category", "");
    assert_eq!(category_after(&tx, &[r]), None);
}

#[test]
fn conditions_take_precedence_over_the_single_test() {
    let tx = create_base_transaction();
    let mut r = legacy(1, 1, "payee", "Starbucks", "category", "single");
    r.conditions = vec![cond("payee", "contains", "tea", false)];
    assert_eq!(category_after(&tx, &[r.clone()]), None);
    r.conditions = vec![cond("payee", "contains", "coffee", false)];
    assert_eq!(category_after(&tx, &[r.clone()]), Some("single".to_string()));
    r.actions = vec![act("category", "listed")];
    assert_eq!(category_after(&tx, &[r]), Some("listed".to_string()));
}

#[test]
fn any_logic_other_than_or_means_all() {
    let tx = create_base_transaction();
    let conds = vec![cond("payee", "contains", "star", false), cond("payee", "contains", "tea", false)];
    for logic in ["and", "", "OR", "xor"] {
        let r = rule(1, 1, logic, conds.clone(), vec![act("category", "hit")]);
        assert_eq!(category_after(&tx, &[r]), None, "{logic}");
    }
    let r = rule(1, 1, "or", conds, vec![act("category", "hit")]);
    assert_eq!(category_after(&tx, &[r]), Some("hit".to_string()));
}

#[test]
fn later_actions_of_one_rule_overwrite_earlier_ones() {
    let tx = create_base_transaction();
    let r = rule(
        1,
        1,
        "and",
        vec![cond("payee", "contains", "star", false)],
        vec![act("category", "first"), act("category", "second")],
    );
    assert_eq!(category_after(&tx, &[r]), Some("second".to_string()));
}

#[test]
fn a_lower_rule_can_stop_a_higher_one_from_matching() {
    let tx = create_base_transaction();
    let hi = rule(1, 20, "and", vec![cond("payee", "contains", "star", false)], vec![act("category", "hi")]);
    let lo = rule(2, 10, "and", vec![cond("payee", "contains", "star", false)], vec![act("payee", "X")]);
    let mut t = tx.clone();
    apply_rules_to_transaction(&mut t, &[hi, lo]);
    assert_eq!(t.payee, "X");
    assert_eq!(t.category, None);
}

#[test]
fn no_rules_change_nothing() {
    let tx = create_base_transaction();
    let mut t = tx.clone();
    apply_rules_to_transaction(&mut t, &[]);
    assert_eq!(format!("{:?}", t), format!("{:?}", tx));
}
