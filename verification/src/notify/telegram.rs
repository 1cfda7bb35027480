//! Telegram: messages in the HTML that its bots understand.

use super::format::{
    averages, digest_line, escape_html, extras, figures, first_items, html_text,
    lemma_one_more_line, lines, ranked_services, ranking, rest_text, services_view, spike_line,
    total_extra, write_digest_lines, write_figures, write_rest, write_spike_lines,
};
use super::{Delivery, DeliveryView, NotifyChannel};
use crate::anomaly::{spikes_view, Spike, SpikeView};
use crate::config::{Config, ConfigView, TelegramConfig, TelegramView};
use crate::cost_explorer::{history_view, SpendHistory, SpendView};
use crate::json::{field, fields_view, object, text, with, Json, JsonView};
use crate::number::print::{two_decimals, write_cents};
use crate::number::sums::total;
use crate::number::Amount;
use crate::text::{
    decimal, lemma_nothing_added, lemma_occurs_in_front, lemma_put_together, lemma_three_occur,
    occurs, write_decimal,
};
use vstd::prelude::*;

verus! {

pub const TELEGRAM_API: &'static str = "https://api.telegram.org";

#[derive(Debug)]
pub struct Telegram;

/// The message about spikes.
pub open spec fn spike_text(
    spikes: Seq<SpikeView>,
    check_interval_hours: nat,
    max_display: nat,
) -> Seq<char> {
    "⚠️ <b>AWS Cost Spike Detected</b>\n\n"@ + "🔝 <b>"@ + html_text(spikes[0].service)
        + "</b> spiked "@ + figures(spikes[0], "/day avg)\n"@) + "💰 Total extra spend: ~$"@
        + two_decimals(total(extras(spikes))) + "\n\n"@ + "<b>Affected services:</b>\n"@ + lines(
        first_items(spikes, max_display),
        spike_line(true, "• <b>"@, "</b>  "@, " avg)\n"@),
    ) + rest_text(spikes.len(), max_display, "<i>...and "@, " more services</i>\n"@)
        + "\n🔔 StackAlert · Checks every "@ + decimal(check_interval_hours) + "h"@
}

pub fn build_spike_message(spikes: &Vec<Spike>, check_interval_hours: u32, max_display: usize) -> (r:
    String)
    requires
        spikes@.len() > 0,
    ensures
        r@ == spike_text(
            spikes_view(spikes@),
            check_interval_hours as nat,
            max_display as nat,
        ),
{
    let mut msg: String = "⚠️ <b>AWS Cost Spike Detected</b>\n\n".to_string();
    msg.append("🔝 <b>");
    msg.append(escape_html(spikes[0].service.as_str()).as_str());
    msg.append("</b> spiked ");
    msg.append(write_figures(&spikes[0], "/day avg)\n").as_str());
    msg.append("💰 Total extra spend: ~$");
    msg.append(write_cents(total_extra(spikes)).as_str());
    msg.append("\n\n");
    msg.append("<b>Affected services:</b>\n");
    msg.append(
        write_spike_lines(spikes, max_display, true, "• <b>", "</b>  ", " avg)\n").as_str(),
    );
    msg.append(
        write_rest(spikes.len(), max_display, "<i>...and ", " more services</i>\n").as_str(),
    );
    msg.append("\n🔔 StackAlert · Checks every ");
    msg.append(write_decimal(check_interval_hours as u64).as_str());
    msg.append("h");
    msg
}

/// The digest.
pub open spec fn digest_text(
    history: Seq<SpendView>,
    min_avg_daily: Amount,
    max_display: nat,
) -> Seq<char> {
    let services = ranking(history, min_avg_daily);
    "📊 <b>Daily AWS Cost Digest</b>\n\n"@ + "💰 Avg daily spend: <b>$"@ + two_decimals(
        total(averages(services)),
    ) + "</b>\n\n"@ + "<b>Top services (avg/day):</b>\n"@ + lines(
        first_items(services, max_display),
        digest_line(true, "• "@, " — $"@, "/day\n"@),
    ) + rest_text(services.len(), max_display, "<i>...and "@, " more services</i>\n"@)
        + "\n📅 StackAlert Daily Digest"@
}

pub fn build_digest_message(
    spend_data: &SpendHistory,
    min_avg_daily: Amount,
    max_display: usize,
) -> (r: String)
    ensures
        r@ == digest_text(history_view(spend_data@), min_avg_daily, max_display as nat),
{
    let (services, grand_total) = ranked_services(spend_data, min_avg_daily);
    assert(services_view(services@).len() == services@.len());
    let mut msg: String = "📊 <b>Daily AWS Cost Digest</b>\n\n".to_string();
    msg.append("💰 Avg daily spend: <b>$");
    msg.append(write_cents(grand_total).as_str());
    msg.append("</b>\n\n");
    msg.append("<b>Top services (avg/day):</b>\n");
    msg.append(
        write_digest_lines(&services, max_display, true, "• ", " — $", "/day\n").as_str(),
    );
    msg.append(
        write_rest(services.len(), max_display, "<i>...and ", " more services</i>\n").as_str(),
    );
    msg.append("\n📅 StackAlert Daily Digest");
    msg
}

/// The message as it is posted to the bot's address.
pub open spec fn message_view(telegram: TelegramView, message: Seq<char>) -> DeliveryView {
    DeliveryView::Post {
        url: TELEGRAM_API@ + "/bot"@ + telegram.bot_token + "/sendMessage"@,
        body: JsonView::Object(
            seq![
                ("chat_id"@, JsonView::Text(telegram.chat_id)),
                ("text"@, JsonView::Text(message)),
                ("parse_mode"@, JsonView::Text("HTML"@)),
                ("disable_web_page_preview"@, JsonView::Bool(true)),
            ],
        ),
        authorization: None,
    }
}

pub fn send_telegram(tcfg: &TelegramConfig, message: &str) -> (r: Delivery)
    ensures
        r.deep_view() == message_view(tcfg.deep_view(), message@),
{
    let mut url: String = TELEGRAM_API.to_string();
    url.append("/bot");
    url.append(tcfg.bot_token.as_str());
    url.append("/sendMessage");
    let fields = with(
        with(
            with(field("chat_id", text(tcfg.chat_id.as_str())), "text", text(message)),
            "parse_mode",
            text("HTML"),
        ),
        "disable_web_page_preview",
        Json::Bool(true),
    );
    assert(fields_view(fields@) =~= message_view(tcfg.deep_view(), message@)->body->Object_0);
    Delivery::Post { url, body: object(fields), authorization: None }
}

impl NotifyChannel for Telegram {
    open spec fn label(&self) -> Seq<char> {
        "telegram"@
    }

    open spec fn can_alert(&self, cfg: ConfigView, count: nat) -> bool {
        true
    }

    open spec fn alert(&self, cfg: ConfigView, spikes: Seq<SpikeView>, timestamp: Seq<char>) -> Result<
        Option<DeliveryView>,
        Seq<char>,
    > {
        if spikes.len() == 0 {
            Ok(None)
        } else {
            match cfg.telegram {
                None => Err("Telegram channel active but config missing"@),
                Some(telegram) => Ok(
                    Some(
                        message_view(
                            telegram,
                            spike_text(spikes, cfg.dedup_cooldown_hours, cfg.max_spike_display),
                        ),
                    ),
                ),
            }
        }
    }

    open spec fn digest(&self, cfg: ConfigView, history: Seq<SpendView>, timestamp: Seq<char>) -> Result<
        Option<DeliveryView>,
        Seq<char>,
    > {
        match cfg.telegram {
            None => Err("Telegram channel active but config missing"@),
            Some(telegram) => Ok(
                Some(
                    message_view(
                        telegram,
                        digest_text(history, cfg.min_avg_daily_usd, cfg.max_digest_display),
                    ),
                ),
            ),
        }
    }

    open spec fn failure(&self, reason: Seq<char>) -> Seq<char> {
        "Failed to send Telegram message"@
    }

    fn name(&self) -> (r: &'static str) {
        "telegram"
    }

    fn send_spike_alert(&self, cfg: &Config, spikes: &Vec<Spike>, _timestamp: &str) -> (r: Result<
        Option<Delivery>,
        String,
    >) {
        if spikes.len() == 0 {
            return Ok(None);
        }
        match &cfg.telegram {
            None => Err("Telegram channel active but config missing".to_string()),
            Some(tcfg) => {
                let message: String = build_spike_message(
                    spikes,
                    cfg.dedup_cooldown_hours,
                    cfg.max_spike_display,
                );
                Ok(Some(send_telegram(tcfg, message.as_str())))
            },
        }
    }

    fn send_daily_digest(&self, cfg: &Config, spend_data: &SpendHistory, _timestamp: &str) -> (r:
        Result<Option<Delivery>, String>) {
        match &cfg.telegram {
            None => Err("Telegram channel active but config missing".to_string()),
            Some(tcfg) => {
                let message: String = build_digest_message(
                    spend_data,
                    cfg.min_avg_daily_usd,
                    cfg.max_digest_display,
                );
                Ok(Some(send_telegram(tcfg, message.as_str())))
            },
        }
    }

    fn failure_text(&self, _reason: &str) -> (r: String) {
        "Failed to send Telegram message".to_string()
    }
}

// ---- what holds of the messages ----------------------------------------

/// The message about spikes where none of them is listed, word for word: it
/// tells the first one, what all of them cost beyond the averages, and how many
/// there are.
pub proof fn lemma_alert_without_its_list(spikes: Seq<SpikeView>, check_interval_hours: nat)
    requires
        spikes.len() > 0,
    ensures
        ({
            let shown = total(Seq::new(spikes.len(), |i: int| spikes[i].extra_usd));
            let bare = spike_text(spikes, check_interval_hours, 0);
            bare == "⚠️ <b>AWS Cost Spike Detected</b>\n\n"@ + "🔝 <b>"@
                + html_text(spikes[0].service) + "</b> spiked "@
                + figures(spikes[0], "/day avg)\n"@) + "💰 Total extra spend: ~$"@
                + two_decimals(shown) + "\n\n"@ + "<b>Affected services:</b>\n"@ + "<i>...and "@
                + decimal(spikes.len()) + " more services</i>\n"@
                + "\n🔔 StackAlert · Checks every "@ + decimal(check_interval_hours) + "h"@
        }),
{
    let shown = total(Seq::new(spikes.len(), |i: int| spikes[i].extra_usd));
    let line = spike_line(true, "• <b>"@, "</b>  "@, " avg)\n"@);
    lemma_one_more_line(spikes, 0, line);
    assert(extras(spikes) =~= Seq::new(spikes.len(), |i: int| spikes[i].extra_usd));
    let head = "⚠️ <b>AWS Cost Spike Detected</b>\n\n"@ + "🔝 <b>"@ + html_text(spikes[0].service)
        + "</b> spiked "@ + figures(spikes[0], "/day avg)\n"@) + "💰 Total extra spend: ~$"@
        + two_decimals(shown) + "\n\n"@ + "<b>Affected services:</b>\n"@;
    lemma_nothing_added(head);
    let end = head;
    let (a, b, c) = ("<i>...and "@, decimal(spikes.len()), " more services</i>\n"@);
    lemma_put_together(end, a + b, c);
    lemma_put_together(end, a, b);
    lemma_nothing_added(end);
}

/// Where one more spike is listed, its line is added behind the others and the
/// number of those that are not listed goes down, and nothing else changes;
/// beyond the number of spikes nothing changes at all.
pub proof fn lemma_alert_with_one_more(
    spikes: Seq<SpikeView>,
    check_interval_hours: nat,
    max_display: nat,
) -> (around: (Seq<char>, Seq<char>))
    ensures
        ({
            let line = spike_line(true, "• <b>"@, "</b>  "@, " avg)\n"@);
            let (before, after) = around;
            let now = spike_text(
                spikes,
                check_interval_hours,
                max_display,
            );
            let longer = spike_text(
                spikes,
                check_interval_hours,
                max_display + 1,
            );
            &&& max_display < spikes.len() ==> now == before
                + rest_text(spikes.len(), max_display, "<i>...and "@, " more services</i>\n"@)
                + after
            &&& max_display < spikes.len() ==> longer == before + line(spikes[max_display as int])
                + rest_text(spikes.len(), max_display + 1, "<i>...and "@, " more services</i>\n"@)
                + after
            &&& max_display >= spikes.len() ==> longer == now
        }),
{
    let line = spike_line(true, "• <b>"@, "</b>  "@, " avg)\n"@);
    lemma_one_more_line(spikes, max_display, line);
    let head = "⚠️ <b>AWS Cost Spike Detected</b>\n\n"@ + "🔝 <b>"@ + html_text(spikes[0].service)
        + "</b> spiked "@ + figures(spikes[0], "/day avg)\n"@) + "💰 Total extra spend: ~$"@
        + two_decimals(total(extras(spikes))) + "\n\n"@ + "<b>Affected services:</b>\n"@;
    let listed = lines(first_items(spikes, max_display), line);
    let before = head + listed;
    let after = "\n🔔 StackAlert · Checks every "@ + decimal(check_interval_hours) + "h"@;
    if max_display < spikes.len() {
        let next = line(spikes[max_display as int]);
        lemma_put_together(head, listed, next);
        let here = before
            + rest_text(spikes.len(), max_display, "<i>...and "@, " more services</i>\n"@);
        let there = before + next
            + rest_text(spikes.len(), max_display + 1, "<i>...and "@, " more services</i>\n"@);
        let a1 = "\n🔔 StackAlert · Checks every "@ + decimal(check_interval_hours);
        lemma_put_together(here, "\n🔔 StackAlert · Checks every "@, decimal(check_interval_hours));
        lemma_put_together(there, "\n🔔 StackAlert · Checks every "@, decimal(check_interval_hours));
        let a2 = a1 + "h"@;
        lemma_put_together(here, a1, "h"@);
        lemma_put_together(there, a1, "h"@);
    }
    (before, after)
}

/// The total that is shown is that of all spikes, however many are listed.
pub proof fn lemma_alert_shows_the_total(
    spikes: Seq<SpikeView>,
    check_interval_hours: nat,
    max_display: nat,
)
    ensures
        ({
            let shown = total(Seq::new(spikes.len(), |i: int| spikes[i].extra_usd));
            occurs(
                "💰 Total extra spend: ~$"@ + two_decimals(shown) + "\n\n"@,
                spike_text(spikes, check_interval_hours, max_display),
            )
        }),
{
    broadcast use lemma_occurs_in_front;

    assert(extras(spikes) =~= Seq::new(spikes.len(), |i: int| spikes[i].extra_usd));
    let head = "⚠️ <b>AWS Cost Spike Detected</b>\n\n"@ + "🔝 <b>"@ + html_text(spikes[0].service)
        + "</b> spiked "@ + figures(spikes[0], "/day avg)\n"@);
    lemma_three_occur(
        head,
        "💰 Total extra spend: ~$"@,
        two_decimals(total(extras(spikes))),
        "\n\n"@,
    );
}

/// The digest where no service is listed, word for word: it tells what all of
/// them cost together on an average day, and how many there are.
pub proof fn lemma_digest_without_its_list(history: Seq<SpendView>, min_avg_daily: Amount)
    ensures
        ({
            let services = ranking(history, min_avg_daily);
            let shown = total(Seq::new(services.len(), |i: int| services[i].1));
            let bare = digest_text(history, min_avg_daily, 0);
            &&& services.len() > 0 ==> bare == "📊 <b>Daily AWS Cost Digest</b>\n\n"@
                + "💰 Avg daily spend: <b>$"@ + two_decimals(shown) + "</b>\n\n"@
                + "<b>Top services (avg/day):</b>\n"@ + "<i>...and "@ + decimal(services.len())
                + " more services</i>\n"@ + "\n📅 StackAlert Daily Digest"@
            &&& services.len() == 0 ==> bare == "📊 <b>Daily AWS Cost Digest</b>\n\n"@
                + "💰 Avg daily spend: <b>$"@ + two_decimals(shown) + "</b>\n\n"@
                + "<b>Top services (avg/day):</b>\n"@ + "\n📅 StackAlert Daily Digest"@
        }),
{
    let services = ranking(history, min_avg_daily);
    let shown = total(Seq::new(services.len(), |i: int| services[i].1));
    let line = digest_line(true, "• "@, " — $"@, "/day\n"@);
    lemma_one_more_line(services, 0, line);
    assert(averages(services) =~= Seq::new(services.len(), |i: int| services[i].1));
    let head = "📊 <b>Daily AWS Cost Digest</b>\n\n"@ + "💰 Avg daily spend: <b>$"@
        + two_decimals(shown) + "</b>\n\n"@ + "<b>Top services (avg/day):</b>\n"@;
    lemma_nothing_added(head);
    let end = head;
    let (a, b, c) = ("<i>...and "@, decimal(services.len()), " more services</i>\n"@);
    lemma_put_together(end, a + b, c);
    lemma_put_together(end, a, b);
    lemma_nothing_added(end);
}

/// Where one more service is listed, its line is added behind the others and the
/// number of those that are not listed goes down, and nothing else changes;
/// beyond the number of services nothing changes at all.
pub proof fn lemma_digest_with_one_more(
    history: Seq<SpendView>,
    min_avg_daily: Amount,
    max_display: nat,
) -> (around: (Seq<char>, Seq<char>))
    ensures
        ({
            let services = ranking(history, min_avg_daily);
            let line = digest_line(true, "• "@, " — $"@, "/day\n"@);
            let (before, after) = around;
            let now = digest_text(
                history,
                min_avg_daily,
                max_display,
            );
            let longer = digest_text(
                history,
                min_avg_daily,
                max_display + 1,
            );
            &&& max_display < services.len() ==> now == before
                + rest_text(services.len(), max_display, "<i>...and "@, " more services</i>\n"@)
                + after
            &&& max_display < services.len() ==> longer == before
                + line(services[max_display as int])
                + rest_text(services.len(), max_display + 1, "<i>...and "@, " more services</i>\n"@)
                + after
            &&& max_display >= services.len() ==> longer == now
        }),
{
    let services = ranking(history, min_avg_daily);
    let line = digest_line(true, "• "@, " — $"@, "/day\n"@);
    lemma_one_more_line(services, max_display, line);
    let head = "📊 <b>Daily AWS Cost Digest</b>\n\n"@ + "💰 Avg daily spend: <b>$"@
        + two_decimals(total(averages(services))) + "</b>\n\n"@
        + "<b>Top services (avg/day):</b>\n"@;
    let listed = lines(first_items(services, max_display), line);
    let before = head + listed;
    let after = "\n📅 StackAlert Daily Digest"@;
    if max_display < services.len() {
        let next = line(services[max_display as int]);
        lemma_put_together(head, listed, next);
        let here = before
            + rest_text(services.len(), max_display, "<i>...and "@, " more services</i>\n"@);
        let there = before + next
            + rest_text(services.len(), max_display + 1, "<i>...and "@, " more services</i>\n"@);
    }
    (before, after)
}

/// The average day that is shown is that of all services that are ranked,
/// however many are listed.
pub proof fn lemma_digest_shows_the_total(
    history: Seq<SpendView>,
    min_avg_daily: Amount,
    max_display: nat,
)
    ensures
        ({
            let services = ranking(history, min_avg_daily);
            let shown = total(Seq::new(services.len(), |i: int| services[i].1));
            occurs(
                "💰 Avg daily spend: <b>$"@ + two_decimals(shown) + "</b>\n\n"@,
                digest_text(history, min_avg_daily, max_display),
            )
        }),
{
    broadcast use lemma_occurs_in_front;

    let services = ranking(history, min_avg_daily);
    assert(averages(services) =~= Seq::new(services.len(), |i: int| services[i].1));
    let head = "📊 <b>Daily AWS Cost Digest</b>\n\n"@;
    lemma_three_occur(
        head,
        "💰 Avg daily spend: <b>$"@,
        two_decimals(total(averages(services))),
        "</b>\n\n"@,
    );
}

} // verus!
