//! The rule engine: categorisation rules applied to a transaction draft.
//!
//! Rules arrive ordered by priority, highest first, and are evaluated from
//! the end of the list to its start, so that what a higher priority writes
//! replaces what a lower one wrote.

use crate::decimal::{number_or_zero, parse_number, render, rendered};
use crate::models::{
    action_views, condition_views, rule_views, Rule, RuleAction, RuleActionView, RuleCondition,
    RuleConditionView, RuleView, Transaction, TransactionView,
};
use crate::text::{
    contains, ends_with, lowercase, same_text, starts_with, text_contains, text_ends_with,
    text_starts_with, to_lowercase,
};
use vstd::prelude::*;
use vstd::seq_lib::{to_multiset_build, to_multiset_insert};

verus! {

/// The text of a transaction's field as the rules see it. A field that is
/// absent, or that the rules do not know, reads as the empty text.
pub open spec fn field_text(tx: TransactionView, field: Seq<char>) -> Seq<char> {
    if field == "payee"@ {
        tx.payee
    } else if field == "notes"@ {
        match tx.notes {
            Some(n) => n,
            None => Seq::empty(),
        }
    } else if field == "category"@ {
        match tx.category {
            Some(c) => c,
            None => Seq::empty(),
        }
    } else if field == "amount"@ {
        rendered(tx.amount)
    } else if field == "date"@ {
        tx.date
    } else if field == "ticker"@ {
        match tx.ticker {
            Some(t) => t,
            None => Seq::empty(),
        }
    } else {
        Seq::empty()
    }
}

/// What an operator decides for a field's text and a comparison value,
/// before negation. Text operators ignore case; the two numeric ones
/// compare the quantities that the texts spell, zero where they spell none.
/// An unknown operator never holds.
pub open spec fn operator_holds(operator: Seq<char>, val: Seq<char>, pattern: Seq<char>) -> bool {
    if operator == "equals"@ {
        lowercase(val) == lowercase(pattern)
    } else if operator == "contains"@ {
        contains(lowercase(val), lowercase(pattern))
    } else if operator == "starts_with"@ {
        starts_with(lowercase(val), lowercase(pattern))
    } else if operator == "ends_with"@ {
        ends_with(lowercase(val), lowercase(pattern))
    } else if operator == "greater_than"@ {
        number_or_zero(val) > number_or_zero(pattern)
    } else if operator == "less_than"@ {
        number_or_zero(val) < number_or_zero(pattern)
    } else {
        false
    }
}

/// Whether one condition holds of a transaction.
pub open spec fn condition_holds(tx: TransactionView, c: RuleConditionView) -> bool {
    operator_holds(c.operator, field_text(tx, c.field), c.value) != c.negated
}

/// Whether every condition of the list holds.
pub open spec fn all_hold(tx: TransactionView, cs: Seq<RuleConditionView>) -> bool {
    forall|i: int| 0 <= i < cs.len() ==> condition_holds(tx, #[trigger] cs[i])
}

/// Whether some condition of the list holds.
pub open spec fn any_holds(tx: TransactionView, cs: Seq<RuleConditionView>) -> bool {
    exists|i: int| 0 <= i < cs.len() && condition_holds(tx, #[trigger] cs[i])
}

/// The older single test: the field's text contains the pattern, ignoring
/// case.
pub open spec fn legacy_matches(tx: TransactionView, field: Seq<char>, pattern: Seq<char>) -> bool {
    contains(lowercase(field_text(tx, field)), lowercase(pattern))
}

/// Whether a rule matches a transaction: by its conditions, joined by `or`
/// (any) or otherwise (all), where it has some; else by its single test,
/// where both parts of it are filled in; else never.
pub open spec fn rule_matches(tx: TransactionView, r: RuleView) -> bool {
    if r.conditions.len() > 0 {
        if r.logic == "or"@ {
            any_holds(tx, r.conditions)
        } else {
            all_hold(tx, r.conditions)
        }
    } else if r.match_field.len() > 0 && r.match_pattern.len() > 0 {
        legacy_matches(tx, r.match_field, r.match_pattern)
    } else {
        false
    }
}

/// A transaction after one action: the category, the notes or the payee
/// replaced by the value; any other field name changes nothing.
pub open spec fn with_action(tx: TransactionView, field: Seq<char>, value: Seq<char>) -> TransactionView {
    if field == "category"@ {
        TransactionView { category: Some(value), ..tx }
    } else if field == "notes"@ {
        TransactionView { notes: Some(value), ..tx }
    } else if field == "payee"@ {
        TransactionView { payee: value, ..tx }
    } else {
        tx
    }
}

/// A transaction after the first `n` actions of a list, taken in order.
pub open spec fn with_actions(tx: TransactionView, actions: Seq<RuleActionView>, n: int) -> TransactionView
    decreases n,
{
    if n <= 0 {
        tx
    } else {
        let before = with_actions(tx, actions, n - 1);
        with_action(before, actions[n - 1].field, actions[n - 1].value)
    }
}

/// What a matching rule does: all its actions in order, where it has some;
/// else its single action, where both parts of it are filled in.
pub open spec fn rule_effect(tx: TransactionView, r: RuleView) -> TransactionView {
    if r.actions.len() > 0 {
        with_actions(tx, r.actions, r.actions.len() as int)
    } else if r.action_field.len() > 0 && r.action_value.len() > 0 {
        with_action(tx, r.action_field, r.action_value)
    } else {
        tx
    }
}

/// A transaction after one rule was tried on it.
pub open spec fn rule_step(tx: TransactionView, r: RuleView) -> TransactionView {
    if rule_matches(tx, r) {
        rule_effect(tx, r)
    } else {
        tx
    }
}

/// A transaction after the rules `rules[from..]` were tried on it, the last
/// of them first.
pub open spec fn rules_applied(tx: TransactionView, rules: Seq<RuleView>, from: int) -> TransactionView
    decreases rules.len() - from,
{
    if from < 0 || from >= rules.len() {
        tx
    } else {
        rule_step(rules_applied(tx, rules, from + 1), rules[from])
    }
}

/// Whether two transactions differ at most in payee, notes and category.
pub open spec fn same_but_labels(a: TransactionView, b: TransactionView) -> bool {
    b == (TransactionView { payee: b.payee, notes: b.notes, category: b.category, ..a })
}

/// Actions change nothing but payee, notes and category.
pub proof fn lemma_actions_touch_labels(tx: TransactionView, actions: Seq<RuleActionView>, n: int)
    ensures
        same_but_labels(tx, with_actions(tx, actions, n)),
    decreases n,
{
    if n > 0 {
        lemma_actions_touch_labels(tx, actions, n - 1);
    }
}

/// The rule engine changes nothing but payee, notes and category.
pub proof fn lemma_rules_touch_labels(tx: TransactionView, rules: Seq<RuleView>, from: int)
    ensures
        same_but_labels(tx, rules_applied(tx, rules, from)),
    decreases rules.len() - from,
{
    if 0 <= from < rules.len() {
        lemma_rules_touch_labels(tx, rules, from + 1);
        let mid = rules_applied(tx, rules, from + 1);
        lemma_actions_touch_labels(mid, rules[from].actions, rules[from].actions.len() as int);
    }
}

fn clone_or_empty(o: &Option<String>) -> (r: String)
    ensures
        r@ == (match o {
            Some(s) => s@,
            None => Seq::<char>::empty(),
        }),
{
    match o {
        Some(s) => s.clone(),
        None => String::new(),
    }
}

fn get_transaction_field(transaction: &Transaction, field: &str) -> (r: String)
    ensures
        r@ == field_text(transaction@, field@),
{
    if same_text(field, "payee") {
        transaction.payee.clone()
    } else if same_text(field, "notes") {
        clone_or_empty(&transaction.notes)
    } else if same_text(field, "category") {
        clone_or_empty(&transaction.category)
    } else if same_text(field, "amount") {
        render(transaction.amount)
    } else if same_text(field, "date") {
        transaction.date.clone()
    } else if same_text(field, "ticker") {
        clone_or_empty(&transaction.ticker)
    } else {
        String::new()
    }
}

fn matches_operator(operator: &str, val: &str, pattern: &str) -> (r: bool)
    ensures
        r == operator_holds(operator@, val@, pattern@),
{
    if same_text(operator, "equals") {
        let v = to_lowercase(val);
        let p = to_lowercase(pattern);
        v == p
    } else if same_text(operator, "contains") {
        let v = to_lowercase(val);
        let p = to_lowercase(pattern);
        text_contains(v.as_str(), p.as_str())
    } else if same_text(operator, "starts_with") {
        let v = to_lowercase(val);
        let p = to_lowercase(pattern);
        text_starts_with(v.as_str(), p.as_str())
    } else if same_text(operator, "ends_with") {
        let v = to_lowercase(val);
        let p = to_lowercase(pattern);
        text_ends_with(v.as_str(), p.as_str())
    } else if same_text(operator, "greater_than") {
        parse_number(val) > parse_number(pattern)
    } else if same_text(operator, "less_than") {
        parse_number(val) < parse_number(pattern)
    } else {
        false
    }
}

fn matches_condition(transaction: &Transaction, condition: &RuleCondition) -> (r: bool)
    ensures
        r == condition_holds(transaction@, condition@),
{
    let val = get_transaction_field(transaction, condition.field.as_str());
    let matched = matches_operator(
        condition.operator.as_str(),
        val.as_str(),
        condition.value.as_str(),
    );
    if condition.negated {
        !matched
    } else {
        matched
    }
}

fn matches_legacy(transaction: &Transaction, field: &str, pattern: &str) -> (r: bool)
    ensures
        r == legacy_matches(transaction@, field@, pattern@),
{
    let val = get_transaction_field(transaction, field);
    let v = to_lowercase(val.as_str());
    let p = to_lowercase(pattern);
    text_contains(v.as_str(), p.as_str())
}

fn matches_rule(transaction: &Transaction, rule: &Rule) -> (r: bool)
    ensures
        r == rule_matches(transaction@, rule@),
{
    let n = rule.conditions.len();
    if n == 0 {
        if !rule.match_field.as_str().is_empty() && !rule.match_pattern.as_str().is_empty() {
            return matches_legacy(
                transaction,
                rule.match_field.as_str(),
                rule.match_pattern.as_str(),
            );
        }
        return false;
    }
    let ghost cs = condition_views(rule.conditions@);
    let any = same_text(rule.logic.as_str(), "or");
    let mut i: usize = 0;
    while i < n
        invariant
            0 <= i <= n == rule.conditions.len(),
            n > 0,
            any == (rule@.logic == "or"@),
            cs == condition_views(rule.conditions@),
            any ==> forall|k: int| 0 <= k < i ==> !condition_holds(transaction@, #[trigger] cs[k]),
            !any ==> forall|k: int| 0 <= k < i ==> condition_holds(transaction@, #[trigger] cs[k]),
        decreases n - i,
    {
        let holds = matches_condition(transaction, &rule.conditions[i]);
        assert(cs[i as int] == rule.conditions@[i as int]@);
        if any && holds {
            assert(condition_holds(transaction@, cs[i as int]));
            return true;
        }
        if !any && !holds {
            assert(!condition_holds(transaction@, cs[i as int]));
            return false;
        }
        i += 1;
    }
    !any
}

fn apply_action_legacy(transaction: &mut Transaction, field: &str, value: &str)
    ensures
        final(transaction)@ == with_action(old(transaction)@, field@, value@),
{
    if same_text(field, "category") {
        transaction.category = Some(value.to_owned());
    } else if same_text(field, "notes") {
        transaction.notes = Some(value.to_owned());
    } else if same_text(field, "payee") {
        transaction.payee = value.to_owned();
    }
}

fn apply_action(transaction: &mut Transaction, action: &RuleAction)
    ensures
        final(transaction)@ == with_action(old(transaction)@, action@.field, action@.value),
{
    apply_action_legacy(transaction, action.field.as_str(), action.value.as_str());
}

fn apply_rule_actions(transaction: &mut Transaction, rule: &Rule)
    ensures
        final(transaction)@ == rule_effect(old(transaction)@, rule@),
{
    let n = rule.actions.len();
    if n > 0 {
        let ghost acts = action_views(rule.actions@);
        let mut i: usize = 0;
        while i < n
            invariant
                0 <= i <= n == rule.actions.len(),
                acts == action_views(rule.actions@),
                transaction@ == with_actions(old(transaction)@, acts, i as int),
            decreases n - i,
        {
            assert(acts[i as int] == rule.actions@[i as int]@);
            apply_action(transaction, &rule.actions[i]);
            i += 1;
        }
    } else if !rule.action_field.as_str().is_empty() && !rule.action_value.as_str().is_empty() {
        apply_action_legacy(transaction, rule.action_field.as_str(), rule.action_value.as_str());
    }
}

/// Tries every rule on the transaction, the last of the list first, and
/// carries out the actions of each rule that matches what the transaction
/// has become by then. With the list ordered by priority, highest first,
/// the highest priority writes last.
pub fn apply_rules_to_transaction(transaction: &mut Transaction, rules: &[Rule])
    ensures
        final(transaction)@ == rules_applied(old(transaction)@, rule_views(rules@), 0),
{
    let n = rules.len();
    let ghost rs = rule_views(rules@);
    let mut i: usize = n;
    while i > 0
        invariant
            0 <= i <= n == rules.len(),
            rs == rule_views(rules@),
            transaction@ == rules_applied(old(transaction)@, rs, i as int),
        decreases i,
    {
        i -= 1;
        assert(rs[i as int] == rules@[i as int]@);
        if matches_rule(transaction, &rules[i]) {
            apply_rule_actions(transaction, &rules[i]);
        }
    }
}

// ---------------------------------------------------------------------
// Order of evaluation
// ---------------------------------------------------------------------

/// Whether rule `a` may stand before rule `b` in the list handed to the
/// engine: it has the higher priority, or the same priority and no larger
/// an identifier.
pub open spec fn precedes(a: RuleView, b: RuleView) -> bool {
    a.priority > b.priority || (a.priority == b.priority && a.id <= b.id)
}

/// Where `r` goes among the first `upto` rules of an ordered list: behind
/// the last of them that may stand before it.
pub open spec fn insertion_point(s: Seq<RuleView>, r: RuleView, upto: int) -> int
    decreases upto,
{
    if upto <= 0 || upto > s.len() {
        0
    } else if precedes(s[upto - 1], r) {
        upto
    } else {
        insertion_point(s, r, upto - 1)
    }
}

/// The first `n` rules of `s`, ordered by priority, highest first, and by
/// identifier among equals.
pub open spec fn ordered_rules(s: Seq<RuleView>, n: int) -> Seq<RuleView>
    decreases n,
{
    if n <= 0 {
        Seq::empty()
    } else {
        let t = ordered_rules(s, n - 1);
        t.insert(insertion_point(t, s[n - 1], t.len() as int), s[n - 1])
    }
}

/// The rules in the order in which the engine expects them.
pub open spec fn rules_in_order(s: Seq<RuleView>) -> Seq<RuleView> {
    ordered_rules(s, s.len() as int)
}

/// Copies of the rules, ordered by priority, highest first, and by
/// identifier among equals.
pub fn sorted_rules(rules: &Vec<Rule>) -> (out: Vec<Rule>)
    ensures
        rule_views(out@) == rules_in_order(rule_views(rules@)),
{
    let ghost s = rule_views(rules@);
    let mut out: Vec<Rule> = Vec::new();
    let mut i: usize = 0;
    while i < rules.len()
        invariant
            0 <= i <= rules.len(),
            s == rule_views(rules@),
            out.len() == i,
            rule_views(out@) == ordered_rules(s, i as int),
        decreases rules.len() - i,
    {
        let r = rules[i].duplicate();
        let ghost t = rule_views(out@);
        let mut j: usize = out.len();
        while j > 0 && !(out[j - 1].priority > r.priority || (out[j - 1].priority == r.priority
            && out[j - 1].id <= r.id))
            invariant
                0 <= j <= out.len(),
                t == rule_views(out@),
                insertion_point(t, r@, t.len() as int) == insertion_point(t, r@, j as int),
            decreases j,
        {
            j -= 1;
        }
        out.insert(j, r);
        assert(rule_views(out@) =~= t.insert(j as int, r@));
        i += 1;
    }
    out
}

// ---------------------------------------------------------------------
// Priority
// ---------------------------------------------------------------------

/// Whether a list of rules is in the order the engine expects.
pub open spec fn in_order(s: Seq<RuleView>) -> bool {
    forall|i: int, j: int| 0 <= i < j < s.len() ==> precedes(#[trigger] s[i], #[trigger] s[j])
}

/// What `insertion_point` finds: the rule before it may stand before `r`,
/// and none of those after it may.
pub proof fn lemma_insertion_point(s: Seq<RuleView>, r: RuleView, upto: int)
    requires
        0 <= upto <= s.len(),
    ensures
        0 <= insertion_point(s, r, upto) <= upto,
        insertion_point(s, r, upto) > 0 ==> precedes(s[insertion_point(s, r, upto) - 1], r),
        forall|k: int| insertion_point(s, r, upto) <= k < upto ==> !precedes(#[trigger] s[k], r),
    decreases upto,
{
    if upto > 0 && !precedes(s[upto - 1], r) {
        lemma_insertion_point(s, r, upto - 1);
    }
}

/// However the rules were entered, `ordered_rules` hands them out by
/// priority, highest first, and by identifier among equals; and it hands
/// out exactly the rules it was given.
pub proof fn lemma_ordered_rules(s: Seq<RuleView>, n: int)
    requires
        0 <= n <= s.len(),
    ensures
        ordered_rules(s, n).len() == n,
        in_order(ordered_rules(s, n)),
        ordered_rules(s, n).to_multiset() == s.take(n).to_multiset(),
    decreases n,
{
    if n > 0 {
        lemma_ordered_rules(s, n - 1);
        let t = ordered_rules(s, n - 1);
        let r = s[n - 1];
        let p = insertion_point(t, r, t.len() as int);
        lemma_insertion_point(t, r, t.len() as int);
        let o = t.insert(p, r);
        assert forall|i: int, j: int| 0 <= i < j < o.len() implies precedes(
            #[trigger] o[i],
            #[trigger] o[j],
        ) by {
            if j < p {
                assert(precedes(t[i], t[j]));
            } else if j == p {
                if i < p - 1 {
                    assert(precedes(t[i], t[p - 1]));
                }
            } else if i < p {
                assert(precedes(t[i], t[j - 1]));
            } else if i == p {
                assert(!precedes(t[j - 1], r));
            } else {
                assert(precedes(t[i - 1], t[j - 1]));
            }
        }
        to_multiset_insert(t, p, r);
        assert(s.take(n) == s.take(n - 1).push(r));
        to_multiset_build(s.take(n - 1), r);
    } else {
        assert(s.take(0) == Seq::<RuleView>::empty());
    }
}

/// The first rule of the list is tried last, on what the others left.
pub proof fn lemma_first_rule_is_last_word(tx: TransactionView, rules: Seq<RuleView>)
    requires
        rules.len() > 0,
    ensures
        rules_applied(tx, rules, 0) == rule_step(rules_applied(tx, rules, 1), rules[0]),
{
}

/// Of two rules that match a transaction, the one with the higher priority
/// has the last word, in whichever order the two were entered: the
/// transaction ends as that rule's actions leave it. The higher rule must
/// still match once the lower one has acted.
pub proof fn lemma_higher_priority_wins(tx: TransactionView, hi: RuleView, lo: RuleView)
    requires
        hi.priority > lo.priority,
        rule_matches(tx, hi),
        rule_matches(tx, lo),
        rule_matches(rule_effect(tx, lo), hi),
    ensures
        rules_applied(tx, rules_in_order(seq![hi, lo]), 0) == rule_effect(rule_effect(tx, lo), hi),
        rules_applied(tx, rules_in_order(seq![lo, hi]), 0) == rule_effect(rule_effect(tx, lo), hi),
{
    let want = seq![hi, lo];
    let a = seq![hi, lo];
    let b = seq![lo, hi];
    assert(ordered_rules(a, 0) == Seq::<RuleView>::empty());
    assert(ordered_rules(b, 0) == Seq::<RuleView>::empty());
    let a1 = ordered_rules(a, 1);
    let b1 = ordered_rules(b, 1);
    assert(a1 == seq![hi]) by {
        assert(insertion_point(Seq::<RuleView>::empty(), hi, 0) == 0);
        assert(Seq::<RuleView>::empty().insert(0, hi) == seq![hi]);
    }
    assert(b1 == seq![lo]) by {
        assert(insertion_point(Seq::<RuleView>::empty(), lo, 0) == 0);
        assert(Seq::<RuleView>::empty().insert(0, lo) == seq![lo]);
    }
    assert(ordered_rules(a, 2) == want) by {
        assert(insertion_point(a1, lo, 1) == 1);
        assert(a1.insert(1, lo) == want);
    }
    assert(ordered_rules(b, 2) == want) by {
        assert(insertion_point(b1, hi, 0) == 0);
        assert(insertion_point(b1, hi, 1) == 0);
        assert(b1.insert(0, hi) == want);
    }
    assert(rules_applied(tx, want, 2) == tx);
    assert(rules_applied(tx, want, 1) == rule_step(tx, lo));
    assert(rules_applied(tx, want, 0) == rule_step(rule_step(tx, lo), hi));
}

/// What a rule's actions leave in a field is the value of the last action
/// on that field: here, the last action of all.
pub proof fn lemma_last_action_stands(tx: TransactionView, actions: Seq<RuleActionView>)
    requires
        actions.len() > 0,
    ensures
        actions.last().field == "category"@ ==> with_actions(
            tx,
            actions,
            actions.len() as int,
        ).category == Some(actions.last().value),
        actions.last().field == "notes"@ ==> with_actions(tx, actions, actions.len() as int).notes
            == Some(actions.last().value),
        actions.last().field == "payee"@ ==> with_actions(tx, actions, actions.len() as int).payee
            == actions.last().value,
{
    reveal_strlit("category");
    reveal_strlit("notes");
    reveal_strlit("payee");
    assert("category"@.len() != "notes"@.len());
    assert("category"@.len() != "payee"@.len());
    assert("notes"@[0] != "payee"@[0]);
}

} // verus!
