//! One account among several that are watched.

use crate::number::Amount;
use vstd::prelude::*;

verus! {

/// What is handed in about an account, where several are watched. Where one
/// account watches itself this is absent, and everything is read from the
/// environment.
#[derive(Debug)]
pub struct AccountContext {
    pub id: String,
    pub user_id: String,
    pub aws_account_id: String,
    pub role_arn: String,
    pub external_id: String,
    pub spike_threshold: Amount,
    pub telegram_chat_id: Option<String>,
    /// The channels for this account, separated by commas, in place of those
    /// of the environment.
    pub notify_channels: Option<String>,
    pub region: String,
}

} // verus!
