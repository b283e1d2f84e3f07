//! Core of a shorthand-ledger assistant: a shell-like tokenizer, a fuzzy
//! account resolver, an exact decimal amount parser, a transaction builder
//! and a canonical text renderer for double-entry ledger records.

pub mod account;
pub mod amount;
pub mod catalog;
pub mod database;
pub mod text;
pub mod tokenizer;
pub mod transaction;
