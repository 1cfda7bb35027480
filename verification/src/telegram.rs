//! Telegram on its own, without a configuration: the limits and intervals are
//! the usual ones.

use crate::anomaly::{spikes_view, Spike};
use crate::config::{TelegramConfig, TelegramView};
use crate::cost_explorer::{history_view, SpendHistory};
use crate::notify::format::html_text;
use crate::notify::telegram::{digest_text, message_view, send_telegram, spike_text};
use crate::notify::Delivery;
use crate::number::ten_cents;
use vstd::prelude::*;

verus! {

/// How many hours lie between two checks.
pub const CHECK_INTERVAL_HOURS: u32 = 6;

/// How many services an alert lists.
pub const MAX_SPIKES: usize = 5;

/// How many services a digest lists.
pub const MAX_SERVICES: usize = 10;

/// Writes `&`, `<` and `>` as entities.
pub fn escape_html(s: &str) -> (r: String)
    ensures
        r@ == html_text(s@),
{
    crate::notify::format::escape_html(s)
}

pub fn build_spike_message(spikes: &Vec<Spike>) -> (r: String)
    requires
        spikes@.len() > 0,
    ensures
        r@ == spike_text(spikes_view(spikes@), 6, 5),
{
    crate::notify::telegram::build_spike_message(spikes, CHECK_INTERVAL_HOURS, MAX_SPIKES)
}

pub fn build_digest_message(spend_data: &SpendHistory) -> (r: String)
    ensures
        r@ == digest_text(history_view(spend_data@), ten_cents(), 10),
{
    crate::notify::telegram::build_digest_message(spend_data, ten_cents(), MAX_SERVICES)
}

fn send_message(bot_token: &str, chat_id: &str, message: &str) -> (r: Delivery)
    ensures
        r.deep_view() == message_view(
            TelegramView { bot_token: bot_token@, chat_id: chat_id@ },
            message@,
        ),
{
    let tcfg: TelegramConfig = TelegramConfig {
        bot_token: bot_token.to_string(),
        chat_id: chat_id.to_string(),
    };
    send_telegram(&tcfg, message)
}

/// What to send about spikes, where there are any.
pub fn send_spike_alert(bot_token: &str, chat_id: &str, spikes: &Vec<Spike>) -> (r: Option<Delivery>)
    ensures
        r.deep_view() == (if spikes@.len() == 0 {
            None
        } else {
            Some(
                message_view(
                    TelegramView { bot_token: bot_token@, chat_id: chat_id@ },
                    spike_text(spikes_view(spikes@), 6, 5),
                ),
            )
        }),
{
    if spikes.len() == 0 {
        return None;
    }
    let message: String = build_spike_message(spikes);
    Some(send_message(bot_token, chat_id, message.as_str()))
}

/// What to send as a digest.
pub fn send_daily_digest(bot_token: &str, chat_id: &str, spend_data: &SpendHistory) -> (r: Delivery)
    ensures
        r.deep_view() == message_view(
            TelegramView { bot_token: bot_token@, chat_id: chat_id@ },
            digest_text(history_view(spend_data@), ten_cents(), 10),
        ),
{
    let message: String = build_digest_message(spend_data);
    send_message(bot_token, chat_id, message.as_str())
}

} // verus!
