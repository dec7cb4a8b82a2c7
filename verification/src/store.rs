//! The rules and the custom exchange rates kept with the books.

use crate::currency::{entries_map, RateTable};
use crate::ledger::{Ledger, LedgerView};
use crate::models::{
    action_views, condition_views, rule_views, LedgerError, Rule, RuleAction, RuleCondition,
    RuleView,
};
use crate::rules::{rules_in_order, sorted_rules};
use vstd::prelude::*;

verus! {

// ---------------------------------------------------------------------
// Rules
// ---------------------------------------------------------------------

/// Index of the first rule at or after `from` with the identifier `id`; the
/// number of rules if there is none.
pub open spec fn find_rule(rules: Seq<RuleView>, id: int, from: int) -> int
    decreases rules.len() - from,
{
    if from < 0 || from >= rules.len() {
        rules.len() as int
    } else if rules[from].id == id {
        from
    } else {
        find_rule(rules, id, from + 1)
    }
}

/// The largest identifier among the first `n` rules, or zero.
pub open spec fn max_rule_id(rules: Seq<RuleView>, n: int) -> int
    decreases n,
{
    if n <= 0 {
        0
    } else {
        let m = max_rule_id(rules, n - 1);
        if rules[n - 1].id > m {
            rules[n - 1].id
        } else {
            m
        }
    }
}

/// Creating a rule: it is added with the next identifier, which is handed
/// back.
pub open spec fn rule_created(l: LedgerView, r: RuleView) -> Result<(LedgerView, int), LedgerError> {
    let id = max_rule_id(l.rules, l.rules.len() as int) + 1;
    if id > i32::MAX {
        Err(LedgerError::OutOfRange)
    } else {
        Ok((LedgerView { rules: l.rules.push(RuleView { id, ..r }), ..l }, id))
    }
}

/// Changing the rule `r.id`: every part of it is replaced. An identifier
/// that names no rule changes nothing.
pub open spec fn rule_updated(l: LedgerView, r: RuleView) -> LedgerView {
    let i = find_rule(l.rules, r.id, 0);
    if i < l.rules.len() {
        LedgerView { rules: l.rules.update(i, r), ..l }
    } else {
        l
    }
}

/// Deleting the rule `id`. An identifier that names no rule changes
/// nothing.
pub open spec fn rule_deleted(l: LedgerView, id: int) -> LedgerView {
    let i = find_rule(l.rules, id, 0);
    if i < l.rules.len() {
        LedgerView { rules: l.rules.remove(i), ..l }
    } else {
        l
    }
}

/// The rules after the rule `id` was given the priority `priority`.
pub open spec fn with_priority(rules: Seq<RuleView>, id: int, priority: int) -> Seq<RuleView> {
    let i = find_rule(rules, id, 0);
    if i < rules.len() {
        rules.update(i, RuleView { priority, ..rules[i] })
    } else {
        rules
    }
}

/// The rules after the first `n` of the listed identifiers received their
/// priorities: the first of the list the highest, which is the length of
/// the list, each next one less.
pub open spec fn reordered(rules: Seq<RuleView>, ids: Seq<i32>, n: int) -> Seq<RuleView>
    decreases n,
{
    if n <= 0 {
        rules
    } else {
        with_priority(reordered(rules, ids, n - 1), ids[n - 1] as int, ids.len() - (n - 1))
    }
}

fn rule_index(rules: &Vec<Rule>, id: i32) -> (r: Option<usize>)
    ensures
        match r {
            Some(i) => i < rules.len() && i == find_rule(rule_views(rules@), id as int, 0),
            None => find_rule(rule_views(rules@), id as int, 0) == rules.len(),
        },
{
    let ghost s = rule_views(rules@);
    let mut i: usize = 0;
    while i < rules.len()
        invariant
            0 <= i <= rules.len(),
            s == rule_views(rules@),
            find_rule(s, id as int, 0) == find_rule(s, id as int, i as int),
        decreases rules.len() - i,
    {
        if rules[i].id == id {
            return Some(i);
        }
        i += 1;
    }
    None
}

/// The rules in the order in which the engine expects them: by priority,
/// highest first, and by identifier among equals.
pub fn get_rules_db(ledger: &Ledger) -> (r: Result<Vec<Rule>, LedgerError>)
    ensures
        r is Ok,
        rule_views(r->Ok_0@) == rules_in_order(ledger@.rules),
{
    Ok(sorted_rules(&ledger.rules))
}

/// Creates a rule, as `rule_created` says, and hands back its identifier.
pub fn create_rule_db(
    ledger: &mut Ledger,
    priority: i32,
    match_field: String,
    match_pattern: String,
    action_field: String,
    action_value: String,
    logic: String,
    conditions: Vec<RuleCondition>,
    actions: Vec<RuleAction>,
) -> (r: Result<i32, LedgerError>)
    ensures
        match rule_created(
            old(ledger)@,
            RuleView {
                id: 0,
                priority: priority as int,
                match_field: match_field@,
                match_pattern: match_pattern@,
                action_field: action_field@,
                action_value: action_value@,
                logic: logic@,
                conditions: condition_views(conditions@),
                actions: action_views(actions@),
            },
        ) {
            Ok((l, id)) => r == Ok::<i32, LedgerError>(id as i32) && final(ledger)@ == l,
            Err(e) => r == Err::<i32, LedgerError>(e) && final(ledger)@ == old(ledger)@,
        },
{
    let ghost s = rule_views(ledger.rules@);
    let mut m: i64 = 0;
    let mut i: usize = 0;
    while i < ledger.rules.len()
        invariant
            0 <= i <= ledger.rules.len(),
            *ledger == *old(ledger),
            s == rule_views(ledger.rules@),
            m == max_rule_id(s, i as int),
            0 <= m <= 0x7fff_ffff,
        decreases ledger.rules.len() - i,
    {
        if ledger.rules[i].id as i64 > m {
            m = ledger.rules[i].id as i64;
        }
        i += 1;
    }
    if m + 1 > 0x7fff_ffff {
        return Err(LedgerError::OutOfRange);
    }
    let id = (m + 1) as i32;
    let rule = Rule {
        id,
        priority,
        match_field,
        match_pattern,
        action_field,
        action_value,
        logic,
        conditions,
        actions,
    };
    ledger.rules.push(rule);
    assert(rule_views(ledger.rules@) =~= s.push(rule@));
    Ok(id)
}

/// Replaces every part of the rule `id`. An identifier that names no rule
/// is no error.
pub fn update_rule_db(
    ledger: &mut Ledger,
    id: i32,
    priority: i32,
    match_field: String,
    match_pattern: String,
    action_field: String,
    action_value: String,
    logic: String,
    conditions: Vec<RuleCondition>,
    actions: Vec<RuleAction>,
) -> (r: Result<(), LedgerError>)
    ensures
        r is Ok,
        final(ledger)@ == rule_updated(
            old(ledger)@,
            RuleView {
                id: id as int,
                priority: priority as int,
                match_field: match_field@,
                match_pattern: match_pattern@,
                action_field: action_field@,
                action_value: action_value@,
                logic: logic@,
                conditions: condition_views(conditions@),
                actions: action_views(actions@),
            },
        ),
{
    match rule_index(&ledger.rules, id) {
        Some(i) => {
            let ghost s = rule_views(ledger.rules@);
            let rule = Rule {
                id,
                priority,
                match_field,
                match_pattern,
                action_field,
                action_value,
                logic,
                conditions,
                actions,
            };
            ledger.rules[i] = rule;
            assert(rule_views(ledger.rules@) =~= s.update(i as int, rule@));
        },
        None => {},
    }
    Ok(())
}

/// Deletes the rule `id`. An identifier that names no rule is no error.
pub fn delete_rule_db(ledger: &mut Ledger, id: i32) -> (r: Result<(), LedgerError>)
    ensures
        r is Ok,
        final(ledger)@ == rule_deleted(old(ledger)@, id as int),
{
    match rule_index(&ledger.rules, id) {
        Some(i) => {
            let ghost s = rule_views(ledger.rules@);
            ledger.rules.remove(i);
            assert(rule_views(ledger.rules@) =~= s.remove(i as int));
        },
        None => {},
    }
    Ok(())
}

/// Gives the listed rules their priorities: the first of the list the
/// highest, each next one less. A list too long to count is refused.
pub fn update_rules_order_db(ledger: &mut Ledger, rule_ids: Vec<i32>) -> (r: Result<
    (),
    LedgerError,
>)
    ensures
        rule_ids.len() <= i32::MAX ==> r is Ok && final(ledger)@ == (LedgerView {
            rules: reordered(old(ledger)@.rules, rule_ids@, rule_ids.len() as int),
            ..old(ledger)@
        }),
        rule_ids.len() > i32::MAX ==> r == Err::<(), LedgerError>(LedgerError::OutOfRange)
            && final(ledger)@ == old(ledger)@,
{
    if rule_ids.len() > 0x7fff_ffff {
        return Err(LedgerError::OutOfRange);
    }
    let total = rule_ids.len();
    let mut idx: usize = 0;
    while idx < total
        invariant
            0 <= idx <= total == rule_ids.len(),
            total <= 0x7fff_ffff,
            ledger.accounts == old(ledger).accounts,
            ledger.transactions == old(ledger).transactions,
            ledger.custom_rates == old(ledger).custom_rates,
            rule_views(ledger.rules@) == reordered(old(ledger)@.rules, rule_ids@, idx as int),
        decreases total - idx,
    {
        let priority = (total - idx) as i32;
        match rule_index(&ledger.rules, rule_ids[idx]) {
            Some(i) => {
                let ghost s = rule_views(ledger.rules@);
                ledger.rules[i].priority = priority;
                assert(rule_views(ledger.rules@) =~= s.update(
                    i as int,
                    RuleView { priority: priority as int, ..s[i as int] },
                ));
            },
            None => {},
        }
        idx += 1;
    }
    Ok(())
}

// ---------------------------------------------------------------------
// Custom exchange rates
// ---------------------------------------------------------------------

/// Enters a rate to the US dollar for a currency; it replaces what the
/// currency had.
pub fn set_custom_exchange_rate_db(ledger: &mut Ledger, currency: String, rate: i64) -> (r: Result<
    (),
    LedgerError,
>)
    ensures
        r is Ok,
        final(ledger)@ == (LedgerView {
            custom_rates: old(ledger)@.custom_rates.insert(currency@, rate as int),
            ..old(ledger)@
        }),
{
    ledger.custom_rates.insert(currency, rate);
    Ok(())
}

/// The rate entered by hand for a currency, if there is one.
pub fn get_custom_exchange_rate_db(ledger: &Ledger, currency: String) -> (r: Result<
    Option<i64>,
    LedgerError,
>)
    ensures
        r is Ok,
        r->Ok_0 is Some <==> ledger@.custom_rates.contains_key(currency@),
        r->Ok_0 matches Some(v) ==> v == ledger@.custom_rates[currency@],
{
    Ok(ledger.custom_rates.get(currency.as_str()))
}

/// All rates entered by hand, by currency.
pub fn get_custom_rates_map(ledger: &Ledger) -> (r: Result<RateTable, LedgerError>)
    ensures
        r is Ok,
        r->Ok_0@ == ledger@.custom_rates,
{
    let mut out = RateTable::new();
    let mut i: usize = 0;
    while i < ledger.custom_rates.entries.len()
        invariant
            0 <= i <= ledger.custom_rates.entries.len(),
            out@ == entries_map(ledger.custom_rates.entries@, i as int),
        decreases ledger.custom_rates.entries.len() - i,
    {
        let e = &ledger.custom_rates.entries[i];
        out.insert(e.key.clone(), e.rate);
        i += 1;
    }
    Ok(out)
}

} // verus!
