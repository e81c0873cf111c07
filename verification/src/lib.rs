//! Verified core of the copy-trading desktop back end: rule book upkeep,
//! the bounded trade journal, symbol-list canonicalisation, risk sweeps and
//! the account bookkeeping that the event loop performs.
pub mod model;
pub mod log_ids;
pub mod text;
pub mod order;
pub mod symbols;
pub mod rules;
pub mod journal;
pub mod clock;
pub mod risk;
pub mod accounts;
pub mod plans;
pub mod replies;
pub mod throttle;
