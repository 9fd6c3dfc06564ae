//! Decision and bookkeeping core of a spot-trading bot: currency catalog,
//! market snapshots, trade ledger with its derived wallet and books, and the
//! buy / sell decision rules.
pub mod ccy;
pub mod pair;
pub mod decimal;
pub mod snapshot;
pub mod market;
pub mod ledger;
pub mod portfolio;
pub mod engine;
