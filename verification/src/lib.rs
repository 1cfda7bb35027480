//! Detects spikes in what AWS services cost, and tells the channels that are
//! configured.

pub mod accounts;
pub mod anomaly;
pub mod check;
pub mod config;
pub mod cost_explorer;
pub mod dates;
pub mod dedup;
pub mod json;
pub mod notify;
pub mod number;
pub mod ranking;
pub mod telegram;
pub mod text;
