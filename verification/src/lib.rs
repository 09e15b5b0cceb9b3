//! Verified page logic of the Phoskonomia frontend: the decisions, text
//! derivations, orderings and small state machines behind each page, kept
//! apart from rendering.

pub mod text;
pub mod sorting;
pub mod grouping;
pub mod calls;
pub mod cycle;
pub mod analytics;
pub mod approvals;
pub mod budgets;
pub mod categories;
pub mod config;
pub mod dashboard;
pub mod debt_forms;
pub mod debts;
pub mod receipt;
pub mod subscriptions;
pub mod transactions;
