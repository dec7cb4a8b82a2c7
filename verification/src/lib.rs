//! Ledger consistency engine of a personal-finance manager: accounts,
//! transactions, transfer pairs, categorisation rules and currency
//! conversion, with every operation stated as a contract over a
//! mathematical model of the books.
//!
//! Amounts, share counts, prices and rates are fixed-point numbers: `i64`
//! counts of millionths (see [`decimal`]).

pub mod accounts;
pub mod currency;
pub mod decimal;
pub mod laws;
pub mod ledger;
pub mod market;
pub mod models;
pub mod queries;
pub mod rules;
pub mod store;
pub mod text;
pub mod transactions;

pub use crate::accounts::{
    create_account_db, delete_account_db, get_accounts_db, rename_account_db, update_account_db,
};
pub use crate::currency::{calculate_account_balances, resolve_rate, RateEntry, RateTable};
pub use crate::ledger::Ledger;
pub use crate::market::{
    change_percent, daily_prices, history_window, merge_currencies, missing_tickers,
    quote_from_chart, tickers_to_fetch, DailyPrice, MarketError, YahooQuote, YahooSearchQuote,
    YahooSearchResponse,
};
pub use crate::models::{
    default_exchange_rate, Account, LedgerError, Rule, RuleAction, RuleCondition, Transaction,
};
pub use crate::queries::{
    get_accounts_summary_db, get_all_transactions_db, get_categories_db, get_payees_db,
    get_transactions_db, AccountsSummary,
};
pub use crate::rules::apply_rules_to_transaction;
pub use crate::store::{
    create_rule_db, delete_rule_db, get_custom_exchange_rate_db, get_custom_rates_map,
    get_rules_db, set_custom_exchange_rate_db, update_rule_db, update_rules_order_db,
};
pub use crate::transactions::{
    create_investment_transaction_db, create_transaction_db, delete_transaction_db,
    update_investment_transaction_db, update_transaction_db, CreateInvestmentTransactionArgs,
    CreateTransactionArgs, UpdateInvestmentTransactionArgs, UpdateTransactionArgs,
};
