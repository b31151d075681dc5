//! Verified core of a marketplace listing monitor.
//!
//! The library contains the event-driven processing pipeline of the monitor:
//! the listing store and its update state machine, the poll scheduler that
//! rotates fairly over the tracked listings, the price time-series analyzer,
//! the fee-inversion algorithm, and the classification rules that join these
//! into profitability events.  All prices are integer minor-currency units;
//! sub-cent statistics use a fixed micro-dollar scale.

pub mod types;
pub mod prices;
pub mod seq_facts;
pub mod fee;
pub mod csfloat;
pub mod models;
pub mod steam_analyzer;
mod clock;
pub mod storages;
pub mod consts;
pub mod strings;
pub mod textparse;
pub mod events;
pub mod business_logic;
pub mod event_processors;
pub mod csfloat_autobuy;
pub mod stats;
