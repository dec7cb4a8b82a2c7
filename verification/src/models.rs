//! The records of the books and their mathematical views.
//!
//! Each record has a view in which texts are sequences of characters and
//! numbers are unbounded integers; contracts speak of views only.

use crate::text::opt_text;
use vstd::prelude::*;

verus! {

/// An optional quantity as an optional integer.
pub open spec fn opt_int(o: Option<i64>) -> Option<int> {
    match o {
        Some(v) => Some(v as int),
        None => None,
    }
}

/// An optional identifier as an optional integer.
pub open spec fn opt_id(o: Option<i32>) -> Option<int> {
    match o {
        Some(v) => Some(v as int),
        None => None,
    }
}

/// Why an operation on the books was refused.
#[derive(Clone, Copy, Debug, PartialEq, Eq, Structural)]
pub enum LedgerError {
    /// A name was empty once trimmed.
    Validation,
    /// Another account already bears the name, up to the case of letters.
    DuplicateName,
    /// The identifier names no record.
    NotFound,
    /// The change would leave a transaction in an account that does not exist.
    Constraint,
    /// A balance, an amount or an identifier would leave the range that can
    /// be recorded.
    OutOfRange,
}

impl LedgerError {
    /// A sentence for the person at the keyboard.
    pub fn message(&self) -> (r: String)
        ensures
            r@ == self.sentence(),
    {
        match self {
            LedgerError::Validation => "Account name cannot be empty or whitespace-only".to_owned(),
            LedgerError::DuplicateName => "Account name already exists".to_owned(),
            LedgerError::NotFound => "Query returned no rows".to_owned(),
            LedgerError::Constraint => "FOREIGN KEY constraint failed".to_owned(),
            LedgerError::OutOfRange => "Value out of range".to_owned(),
        }
    }

    /// The sentence that `message` returns.
    pub open spec fn sentence(&self) -> Seq<char> {
        match self {
            LedgerError::Validation => "Account name cannot be empty or whitespace-only"@,
            LedgerError::DuplicateName => "Account name already exists"@,
            LedgerError::NotFound => "Query returned no rows"@,
            LedgerError::Constraint => "FOREIGN KEY constraint failed"@,
            LedgerError::OutOfRange => "Value out of range"@,
        }
    }
}

/// An account: a name, a cached balance and an optional currency.
#[derive(Clone, Debug, PartialEq, Eq)]
pub struct Account {
    pub id: i32,
    pub name: String,
    /// Sum of the account's transactions, in millionths.
    pub balance: i64,
    pub currency: Option<String>,
    /// Rate to the reporting currency, in millionths; derived, never stored.
    pub exchange_rate: i64,
}

/// The view of an `Account`.
pub struct AccountView {
    pub id: int,
    pub name: Seq<char>,
    pub balance: int,
    pub currency: Option<Seq<char>>,
    pub exchange_rate: int,
}

impl View for Account {
    type V = AccountView;

    open spec fn view(&self) -> AccountView {
        AccountView {
            id: self.id as int,
            name: self.name@,
            balance: self.balance as int,
            currency: opt_text(self.currency),
            exchange_rate: self.exchange_rate as int,
        }
    }
}

/// The exchange rate of an account whose rate has not been resolved: one.
pub fn default_exchange_rate() -> (r: i64)
    ensures
        r == 1_000_000,
{
    1_000_000
}

impl Account {
    /// A copy of the account.
    pub fn duplicate(&self) -> (r: Account)
        ensures
            r@ == self@,
    {
        Account {
            id: self.id,
            name: self.name.clone(),
            balance: self.balance,
            currency: self.currency.clone(),
            exchange_rate: self.exchange_rate,
        }
    }
}

/// A transaction: one signed movement of money in one account.
#[derive(Clone, Debug, PartialEq, Eq)]
pub struct Transaction {
    pub id: i32,
    pub account_id: i32,
    /// ISO date, ordered as text.
    pub date: String,
    pub payee: String,
    pub notes: Option<String>,
    pub category: Option<String>,
    /// Signed amount, in millionths.
    pub amount: i64,
    pub ticker: Option<String>,
    pub shares: Option<i64>,
    pub price_per_share: Option<i64>,
    pub fee: Option<i64>,
    pub currency: Option<String>,
    /// The other side of a transfer, if this is one side of a linked pair.
    pub linked_tx_id: Option<i32>,
}

/// The view of a `Transaction`.
pub struct TransactionView {
    pub id: int,
    pub account_id: int,
    pub date: Seq<char>,
    pub payee: Seq<char>,
    pub notes: Option<Seq<char>>,
    pub category: Option<Seq<char>>,
    pub amount: int,
    pub ticker: Option<Seq<char>>,
    pub shares: Option<int>,
    pub price_per_share: Option<int>,
    pub fee: Option<int>,
    pub currency: Option<Seq<char>>,
    pub linked_tx_id: Option<int>,
}

impl View for Transaction {
    type V = TransactionView;

    open spec fn view(&self) -> TransactionView {
        TransactionView {
            id: self.id as int,
            account_id: self.account_id as int,
            date: self.date@,
            payee: self.payee@,
            notes: opt_text(self.notes),
            category: opt_text(self.category),
            amount: self.amount as int,
            ticker: opt_text(self.ticker),
            shares: opt_int(self.shares),
            price_per_share: opt_int(self.price_per_share),
            fee: opt_int(self.fee),
            currency: opt_text(self.currency),
            linked_tx_id: opt_id(self.linked_tx_id),
        }
    }
}

impl Transaction {
    /// A copy of the transaction.
    pub fn duplicate(&self) -> (r: Transaction)
        ensures
            r@ == self@,
    {
        Transaction {
            id: self.id,
            account_id: self.account_id,
            date: self.date.clone(),
            payee: self.payee.clone(),
            notes: self.notes.clone(),
            category: self.category.clone(),
            amount: self.amount,
            ticker: self.ticker.clone(),
            shares: self.shares,
            price_per_share: self.price_per_share,
            fee: self.fee,
            currency: self.currency.clone(),
            linked_tx_id: self.linked_tx_id,
        }
    }
}

/// One test of a rule: a field, an operator, a value to compare with, and
/// whether the outcome is inverted.
#[derive(Clone, Debug, PartialEq, Eq)]
pub struct RuleCondition {
    pub field: String,
    /// `equals`, `contains`, `starts_with`, `ends_with`, `greater_than` or
    /// `less_than`.
    pub operator: String,
    pub value: String,
    pub negated: bool,
}

/// The view of a `RuleCondition`.
pub struct RuleConditionView {
    pub field: Seq<char>,
    pub operator: Seq<char>,
    pub value: Seq<char>,
    pub negated: bool,
}

impl View for RuleCondition {
    type V = RuleConditionView;

    open spec fn view(&self) -> RuleConditionView {
        RuleConditionView {
            field: self.field@,
            operator: self.operator@,
            value: self.value@,
            negated: self.negated,
        }
    }
}

impl RuleCondition {
    /// A copy of the condition.
    pub fn duplicate(&self) -> (r: RuleCondition)
        ensures
            r@ == self@,
    {
        RuleCondition {
            field: self.field.clone(),
            operator: self.operator.clone(),
            value: self.value.clone(),
            negated: self.negated,
        }
    }
}

/// One effect of a rule: a field and the value it receives.
#[derive(Clone, Debug, PartialEq, Eq)]
pub struct RuleAction {
    pub field: String,
    pub value: String,
}

/// The view of a `RuleAction`.
pub struct RuleActionView {
    pub field: Seq<char>,
    pub value: Seq<char>,
}

impl View for RuleAction {
    type V = RuleActionView;

    open spec fn view(&self) -> RuleActionView {
        RuleActionView { field: self.field@, value: self.value@ }
    }
}

impl RuleAction {
    /// A copy of the action.
    pub fn duplicate(&self) -> (r: RuleAction)
        ensures
            r@ == self@,
    {
        RuleAction { field: self.field.clone(), value: self.value.clone() }
    }
}

/// A categorisation rule: conditions joined by `and` or `or`, and the
/// actions taken when they hold. The four single fields are the older
/// one-condition, one-action form, used when the lists are empty.
#[derive(Clone, Debug, PartialEq, Eq)]
pub struct Rule {
    pub id: i32,
    pub priority: i32,
    pub match_field: String,
    pub match_pattern: String,
    pub action_field: String,
    pub action_value: String,
    pub logic: String,
    pub conditions: Vec<RuleCondition>,
    pub actions: Vec<RuleAction>,
}

/// The view of a `Rule`.
pub struct RuleView {
    pub id: int,
    pub priority: int,
    pub match_field: Seq<char>,
    pub match_pattern: Seq<char>,
    pub action_field: Seq<char>,
    pub action_value: Seq<char>,
    pub logic: Seq<char>,
    pub conditions: Seq<RuleConditionView>,
    pub actions: Seq<RuleActionView>,
}

/// The views of a sequence of conditions.
pub open spec fn condition_views(s: Seq<RuleCondition>) -> Seq<RuleConditionView> {
    s.map_values(|c: RuleCondition| c@)
}

/// The views of a sequence of actions.
pub open spec fn action_views(s: Seq<RuleAction>) -> Seq<RuleActionView> {
    s.map_values(|a: RuleAction| a@)
}

impl View for Rule {
    type V = RuleView;

    open spec fn view(&self) -> RuleView {
        RuleView {
            id: self.id as int,
            priority: self.priority as int,
            match_field: self.match_field@,
            match_pattern: self.match_pattern@,
            action_field: self.action_field@,
            action_value: self.action_value@,
            logic: self.logic@,
            conditions: condition_views(self.conditions@),
            actions: action_views(self.actions@),
        }
    }
}

/// A copy of a list of conditions.
pub fn duplicate_conditions(v: &Vec<RuleCondition>) -> (r: Vec<RuleCondition>)
    ensures
        condition_views(r@) == condition_views(v@),
{
    let mut r: Vec<RuleCondition> = Vec::new();
    let mut i: usize = 0;
    while i < v.len()
        invariant
            0 <= i <= v.len(),
            r.len() == i,
            forall|k: int| 0 <= k < i ==> r@[k]@ == v@[k]@,
        decreases v.len() - i,
    {
        r.push(v[i].duplicate());
        i += 1;
    }
    assert(condition_views(r@) =~= condition_views(v@));
    r
}

/// A copy of a list of actions.
pub fn duplicate_actions(v: &Vec<RuleAction>) -> (r: Vec<RuleAction>)
    ensures
        action_views(r@) == action_views(v@),
{
    let mut r: Vec<RuleAction> = Vec::new();
    let mut i: usize = 0;
    while i < v.len()
        invariant
            0 <= i <= v.len(),
            r.len() == i,
            forall|k: int| 0 <= k < i ==> r@[k]@ == v@[k]@,
        decreases v.len() - i,
    {
        r.push(v[i].duplicate());
        i += 1;
    }
    assert(action_views(r@) =~= action_views(v@));
    r
}

impl Rule {
    /// A copy of the rule.
    pub fn duplicate(&self) -> (r: Rule)
        ensures
            r@ == self@,
    {
        Rule {
            id: self.id,
            priority: self.priority,
            match_field: self.match_field.clone(),
            match_pattern: self.match_pattern.clone(),
            action_field: self.action_field.clone(),
            action_value: self.action_value.clone(),
            logic: self.logic.clone(),
            conditions: duplicate_conditions(&self.conditions),
            actions: duplicate_actions(&self.actions),
        }
    }
}

/// The views of a sequence of accounts.
pub open spec fn account_views(s: Seq<Account>) -> Seq<AccountView> {
    s.map_values(|a: Account| a@)
}

/// The views of a sequence of transactions.
pub open spec fn transaction_views(s: Seq<Transaction>) -> Seq<TransactionView> {
    s.map_values(|t: Transaction| t@)
}

/// The views of a sequence of rules.
pub open spec fn rule_views(s: Seq<Rule>) -> Seq<RuleView> {
    s.map_values(|r: Rule| r@)
}

/// A copy of a list of accounts.
pub fn duplicate_accounts(v: &Vec<Account>) -> (r: Vec<Account>)
    ensures
        account_views(r@) == account_views(v@),
{
    let mut r: Vec<Account> = Vec::new();
    let mut i: usize = 0;
    while i < v.len()
        invariant
            0 <= i <= v.len(),
            r.len() == i,
            forall|k: int| 0 <= k < i ==> r@[k]@ == v@[k]@,
        decreases v.len() - i,
    {
        r.push(v[i].duplicate());
        i += 1;
    }
    assert(account_views(r@) =~= account_views(v@));
    r
}

/// A copy of a list of transactions.
pub fn duplicate_transactions(v: &Vec<Transaction>) -> (r: Vec<Transaction>)
    ensures
        transaction_views(r@) == transaction_views(v@),
{
    let mut r: Vec<Transaction> = Vec::new();
    let mut i: usize = 0;
    while i < v.len()
        invariant
            0 <= i <= v.len(),
            r.len() == i,
            forall|k: int| 0 <= k < i ==> r@[k]@ == v@[k]@,
        decreases v.len() - i,
    {
        r.push(v[i].duplicate());
        i += 1;
    }
    assert(transaction_views(r@) =~= transaction_views(v@));
    r
}

} // verus!
