//! Slack: messages in its own markup.

use super::format::{
    averages, digest_line, escape_mrkdwn, extras, figures, first_items, lemma_one_more_line, lines,
    mrkdwn_text, ranked_services, ranking, rest_text, services_view, spike_line, total_extra,
    write_digest_lines, write_figures, write_rest, write_spike_lines,
};
use super::{Delivery, DeliveryView, NotifyChannel};
use crate::anomaly::{spikes_view, Spike, SpikeView};
use crate::config::{Config, ConfigView};
use crate::cost_explorer::{history_view, SpendHistory, SpendView};
use crate::json::{field, object, text, JsonView};
use crate::number::print::{two_decimals, write_cents};
use crate::number::sums::total;
use crate::number::Amount;
use crate::text::{
    decimal, lemma_nothing_added, lemma_occurs_in_front, lemma_put_together, lemma_three_occur,
    occurs, write_decimal,
};
use vstd::prelude::*;

verus! {

#[derive(Debug)]
pub struct Slack;

/// The message about spikes.
pub open spec fn spike_text(
    spikes: Seq<SpikeView>,
    setup_name: Seq<char>,
    check_interval_hours: nat,
    max_display: nat,
) -> Seq<char> {
    let name = mrkdwn_text(setup_name);
    ":warning: *"@ + name + ": Cost Spike Detected*\n\n"@ + ":chart_with_upwards_trend: *"@
        + spikes[0].service + "* spiked "@ + figures(spikes[0], "/day avg)\n"@)
        + ":moneybag: Total extra spend: ~$"@ + two_decimals(total(extras(spikes))) + "\n\n"@
        + "*Affected services:*\n"@ + lines(
        first_items(spikes, max_display),
        spike_line(false, "• *"@, "*  "@, " avg)\n"@),
    ) + rest_text(spikes.len(), max_display, "_...and "@, " more services_\n"@) + "\n:bell: "@ + name
        + " · Checks every "@ + decimal(check_interval_hours) + "h"@
}

pub fn build_spike_message(
    spikes: &Vec<Spike>,
    setup_name: &str,
    check_interval_hours: u32,
    max_display: usize,
) -> (r: String)
    requires
        spikes@.len() > 0,
    ensures
        r@ == spike_text(
            spikes_view(spikes@),
            setup_name@,
            check_interval_hours as nat,
            max_display as nat,
        ),
{
    let name: String = escape_mrkdwn(setup_name);
    let mut msg: String = ":warning: *".to_string();
    msg.append(name.as_str());
    msg.append(": Cost Spike Detected*\n\n");
    msg.append(":chart_with_upwards_trend: *");
    msg.append(spikes[0].service.as_str());
    msg.append("* spiked ");
    msg.append(write_figures(&spikes[0], "/day avg)\n").as_str());
    msg.append(":moneybag: Total extra spend: ~$");
    msg.append(write_cents(total_extra(spikes)).as_str());
    msg.append("\n\n");
    msg.append("*Affected services:*\n");
    msg.append(write_spike_lines(spikes, max_display, false, "• *", "*  ", " avg)\n").as_str());
    msg.append(write_rest(spikes.len(), max_display, "_...and ", " more services_\n").as_str());
    msg.append("\n:bell: ");
    msg.append(name.as_str());
    msg.append(" · Checks every ");
    msg.append(write_decimal(check_interval_hours as u64).as_str());
    msg.append("h");
    msg
}

/// The digest.
pub open spec fn digest_text(
    history: Seq<SpendView>,
    setup_name: Seq<char>,
    min_avg_daily: Amount,
    max_display: nat,
) -> Seq<char> {
    let name = mrkdwn_text(setup_name);
    let services = ranking(history, min_avg_daily);
    ":bar_chart: *"@ + name + ": Daily Digest*\n\n"@ + ":moneybag: Avg daily spend: *$"@
        + two_decimals(total(averages(services))) + "*\n\n"@ + "*Top services (avg/day):*\n"@
        + lines(
        first_items(services, max_display),
        digest_line(false, "• "@, " — $"@, "/day\n"@),
    ) + rest_text(services.len(), max_display, "_...and "@, " more services_\n"@)
        + "\n:calendar: "@ + name + " Daily Digest"@
}

pub fn build_digest_message(
    spend_data: &SpendHistory,
    setup_name: &str,
    min_avg_daily: Amount,
    max_display: usize,
) -> (r: String)
    ensures
        r@ == digest_text(
            history_view(spend_data@),
            setup_name@,
            min_avg_daily,
            max_display as nat,
        ),
{
    let (services, grand_total) = ranked_services(spend_data, min_avg_daily);
    assert(services_view(services@).len() == services@.len());
    let name: String = escape_mrkdwn(setup_name);
    let mut msg: String = ":bar_chart: *".to_string();
    msg.append(name.as_str());
    msg.append(": Daily Digest*\n\n");
    msg.append(":moneybag: Avg daily spend: *$");
    msg.append(write_cents(grand_total).as_str());
    msg.append("*\n\n");
    msg.append("*Top services (avg/day):*\n");
    msg.append(
        write_digest_lines(&services, max_display, false, "• ", " — $", "/day\n").as_str(),
    );
    msg.append(write_rest(services.len(), max_display, "_...and ", " more services_\n").as_str());
    msg.append("\n:calendar: ");
    msg.append(name.as_str());
    msg.append(" Daily Digest");
    msg
}

/// The message as it is posted to the webhook.
pub open spec fn message_view(webhook_url: Seq<char>, message: Seq<char>) -> DeliveryView {
    DeliveryView::Post {
        url: webhook_url,
        body: JsonView::Object(seq![("text"@, JsonView::Text(message))]),
        authorization: None,
    }
}

pub fn send_slack(webhook_url: &str, message: &str) -> (r: Delivery)
    ensures
        r.deep_view() == message_view(webhook_url@, message@),
{
    Delivery::Post {
        url: webhook_url.to_string(),
        body: object(field("text", text(message))),
        authorization: None,
    }
}

impl NotifyChannel for Slack {
    open spec fn label(&self) -> Seq<char> {
        "slack"@
    }

    open spec fn can_alert(&self, cfg: ConfigView, count: nat) -> bool {
        true
    }

    open spec fn alert(&self, cfg: ConfigView, spikes: Seq<SpikeView>, timestamp: Seq<char>) -> Result<
        Option<DeliveryView>,
        Seq<char>,
    > {
        if spikes.len() == 0 {
            Ok(None)
        } else {
            match cfg.slack {
                None => Err("Slack channel active but config missing"@),
                Some(slack) => Ok(
                    Some(
                        message_view(
                            slack.webhook_url,
                            spike_text(
                                spikes,
                                cfg.setup_name,
                                cfg.dedup_cooldown_hours,
                                cfg.max_spike_display,
                            ),
                        ),
                    ),
                ),
            }
        }
    }

    open spec fn digest(&self, cfg: ConfigView, history: Seq<SpendView>, timestamp: Seq<char>) -> Result<
        Option<DeliveryView>,
        Seq<char>,
    > {
        match cfg.slack {
            None => Err("Slack channel active but config missing"@),
            Some(slack) => Ok(
                Some(
                    message_view(
                        slack.webhook_url,
                        digest_text(
                            history,
                            cfg.setup_name,
                            cfg.min_avg_daily_usd,
                            cfg.max_digest_display,
                        ),
                    ),
                ),
            ),
        }
    }

    open spec fn failure(&self, reason: Seq<char>) -> Seq<char> {
        "Failed to send Slack webhook"@
    }

    fn name(&self) -> (r: &'static str) {
        "slack"
    }

    fn send_spike_alert(&self, cfg: &Config, spikes: &Vec<Spike>, _timestamp: &str) -> (r: Result<
        Option<Delivery>,
        String,
    >) {
        if spikes.len() == 0 {
            return Ok(None);
        }
        match &cfg.slack {
            None => Err("Slack channel active but config missing".to_string()),
            Some(scfg) => {
                let message: String = build_spike_message(
                    spikes,
                    cfg.setup_name.as_str(),
                    cfg.dedup_cooldown_hours,
                    cfg.max_spike_display,
                );
                Ok(Some(send_slack(scfg.webhook_url.as_str(), message.as_str())))
            },
        }
    }

    fn send_daily_digest(&self, cfg: &Config, spend_data: &SpendHistory, _timestamp: &str) -> (r:
        Result<Option<Delivery>, String>) {
        match &cfg.slack {
            None => Err("Slack channel active but config missing".to_string()),
            Some(scfg) => {
                let message: String = build_digest_message(
                    spend_data,
                    cfg.setup_name.as_str(),
                    cfg.min_avg_daily_usd,
                    cfg.max_digest_display,
                );
                Ok(Some(send_slack(scfg.webhook_url.as_str(), message.as_str())))
            },
        }
    }

    fn failure_text(&self, _reason: &str) -> (r: String) {
        "Failed to send Slack webhook".to_string()
    }
}

// ---- what holds of the messages ----------------------------------------

/// The message about spikes where none of them is listed, word for word: it
/// tells the first one, what all of them cost beyond the averages, and how many
/// there are.
pub proof fn lemma_alert_without_its_list(
    spikes: Seq<SpikeView>,
    setup_name: Seq<char>,
    check_interval_hours: nat,
)
    requires
        spikes.len() > 0,
    ensures
        ({
            let shown = total(Seq::new(spikes.len(), |i: int| spikes[i].extra_usd));
            let bare = spike_text(spikes, setup_name, check_interval_hours, 0);
            bare == ":warning: *"@ + mrkdwn_text(setup_name) + ": Cost Spike Detected*\n\n"@
                + ":chart_with_upwards_trend: *"@ + spikes[0].service + "* spiked "@
                + figures(spikes[0], "/day avg)\n"@) + ":moneybag: Total extra spend: ~$"@
                + two_decimals(shown) + "\n\n"@ + "*Affected services:*\n"@ + "_...and "@
                + decimal(spikes.len()) + " more services_\n"@ + "\n:bell: "@
                + mrkdwn_text(setup_name) + " · Checks every "@ + decimal(check_interval_hours)
                + "h"@
        }),
{
    let shown = total(Seq::new(spikes.len(), |i: int| spikes[i].extra_usd));
    let line = spike_line(false, "• *"@, "*  "@, " avg)\n"@);
    lemma_one_more_line(spikes, 0, line);
    assert(extras(spikes) =~= Seq::new(spikes.len(), |i: int| spikes[i].extra_usd));
    let head = ":warning: *"@ + mrkdwn_text(setup_name) + ": Cost Spike Detected*\n\n"@
        + ":chart_with_upwards_trend: *"@ + spikes[0].service + "* spiked "@
        + figures(spikes[0], "/day avg)\n"@) + ":moneybag: Total extra spend: ~$"@
        + two_decimals(shown) + "\n\n"@ + "*Affected services:*\n"@;
    lemma_nothing_added(head);
    let end = head;
    let (a, b, c) = ("_...and "@, decimal(spikes.len()), " more services_\n"@);
    lemma_put_together(end, a + b, c);
    lemma_put_together(end, a, b);
    lemma_nothing_added(end);
}

/// Where one more spike is listed, its line is added behind the others and the
/// number of those that are not listed goes down, and nothing else changes;
/// beyond the number of spikes nothing changes at all.
pub proof fn lemma_alert_with_one_more(
    spikes: Seq<SpikeView>,
    setup_name: Seq<char>,
    check_interval_hours: nat,
    max_display: nat,
) -> (around: (Seq<char>, Seq<char>))
    ensures
        ({
            let line = spike_line(false, "• *"@, "*  "@, " avg)\n"@);
            let (before, after) = around;
            let now = spike_text(
                spikes,
                setup_name,
                check_interval_hours,
                max_display,
            );
            let longer = spike_text(
                spikes,
                setup_name,
                check_interval_hours,
                max_display + 1,
            );
            &&& max_display < spikes.len() ==> now == before
                + rest_text(spikes.len(), max_display, "_...and "@, " more services_\n"@) + after
            &&& max_display < spikes.len() ==> longer == before + line(spikes[max_display as int])
                + rest_text(spikes.len(), max_display + 1, "_...and "@, " more services_\n"@)
                + after
            &&& max_display >= spikes.len() ==> longer == now
        }),
{
    let line = spike_line(false, "• *"@, "*  "@, " avg)\n"@);
    lemma_one_more_line(spikes, max_display, line);
    let head = ":warning: *"@ + mrkdwn_text(setup_name) + ": Cost Spike Detected*\n\n"@
        + ":chart_with_upwards_trend: *"@ + spikes[0].service + "* spiked "@
        + figures(spikes[0], "/day avg)\n"@) + ":moneybag: Total extra spend: ~$"@
        + two_decimals(total(extras(spikes))) + "\n\n"@ + "*Affected services:*\n"@;
    let listed = lines(first_items(spikes, max_display), line);
    let before = head + listed;
    let after = "\n:bell: "@ + mrkdwn_text(setup_name) + " · Checks every "@
        + decimal(check_interval_hours) + "h"@;
    if max_display < spikes.len() {
        let next = line(spikes[max_display as int]);
        lemma_put_together(head, listed, next);
        let here = before
            + rest_text(spikes.len(), max_display, "_...and "@, " more services_\n"@);
        let there = before + next
            + rest_text(spikes.len(), max_display + 1, "_...and "@, " more services_\n"@);
        let a1 = "\n:bell: "@ + mrkdwn_text(setup_name);
        lemma_put_together(here, "\n:bell: "@, mrkdwn_text(setup_name));
        lemma_put_together(there, "\n:bell: "@, mrkdwn_text(setup_name));
        let a2 = a1 + " · Checks every "@;
        lemma_put_together(here, a1, " · Checks every "@);
        lemma_put_together(there, a1, " · Checks every "@);
        let a3 = a2 + decimal(check_interval_hours);
        lemma_put_together(here, a2, decimal(check_interval_hours));
        lemma_put_together(there, a2, decimal(check_interval_hours));
        let a4 = a3 + "h"@;
        lemma_put_together(here, a3, "h"@);
        lemma_put_together(there, a3, "h"@);
    }
    (before, after)
}

/// The total that is shown is that of all spikes, however many are listed.
pub proof fn lemma_alert_shows_the_total(
    spikes: Seq<SpikeView>,
    setup_name: Seq<char>,
    check_interval_hours: nat,
    max_display: nat,
)
    ensures
        ({
            let shown = total(Seq::new(spikes.len(), |i: int| spikes[i].extra_usd));
            occurs(
                ":moneybag: Total extra spend: ~$"@ + two_decimals(shown) + "\n\n"@,
                spike_text(spikes, setup_name, check_interval_hours, max_display),
            )
        }),
{
    broadcast use lemma_occurs_in_front;

    assert(extras(spikes) =~= Seq::new(spikes.len(), |i: int| spikes[i].extra_usd));
    let head = ":warning: *"@ + mrkdwn_text(setup_name) + ": Cost Spike Detected*\n\n"@
        + ":chart_with_upwards_trend: *"@ + spikes[0].service + "* spiked "@
        + figures(spikes[0], "/day avg)\n"@);
    lemma_three_occur(
        head,
        ":moneybag: Total extra spend: ~$"@,
        two_decimals(total(extras(spikes))),
        "\n\n"@,
    );
}

/// The digest where no service is listed, word for word: it tells what all of
/// them cost together on an average day, and how many there are.
pub proof fn lemma_digest_without_its_list(
    history: Seq<SpendView>,
    setup_name: Seq<char>,
    min_avg_daily: Amount,
)
    ensures
        ({
            let services = ranking(history, min_avg_daily);
            let shown = total(Seq::new(services.len(), |i: int| services[i].1));
            let bare = digest_text(history, setup_name, min_avg_daily, 0);
            &&& services.len() > 0 ==> bare == ":bar_chart: *"@ + mrkdwn_text(setup_name)
                + ": Daily Digest*\n\n"@ + ":moneybag: Avg daily spend: *$"@ + two_decimals(shown)
                + "*\n\n"@ + "*Top services (avg/day):*\n"@ + "_...and "@
                + decimal(services.len()) + " more services_\n"@ + "\n:calendar: "@
                + mrkdwn_text(setup_name) + " Daily Digest"@
            &&& services.len() == 0 ==> bare == ":bar_chart: *"@ + mrkdwn_text(setup_name)
                + ": Daily Digest*\n\n"@ + ":moneybag: Avg daily spend: *$"@ + two_decimals(shown)
                + "*\n\n"@ + "*Top services (avg/day):*\n"@ + "\n:calendar: "@
                + mrkdwn_text(setup_name) + " Daily Digest"@
        }),
{
    let services = ranking(history, min_avg_daily);
    let shown = total(Seq::new(services.len(), |i: int| services[i].1));
    let line = digest_line(false, "• "@, " — $"@, "/day\n"@);
    lemma_one_more_line(services, 0, line);
    assert(averages(services) =~= Seq::new(services.len(), |i: int| services[i].1));
    let head = ":bar_chart: *"@ + mrkdwn_text(setup_name) + ": Daily Digest*\n\n"@
        + ":moneybag: Avg daily spend: *$"@ + two_decimals(shown) + "*\n\n"@
        + "*Top services (avg/day):*\n"@;
    lemma_nothing_added(head);
    let end = head;
    let (a, b, c) = ("_...and "@, decimal(services.len()), " more services_\n"@);
    lemma_put_together(end, a + b, c);
    lemma_put_together(end, a, b);
    lemma_nothing_added(end);
}

/// Where one more service is listed, its line is added behind the others and the
/// number of those that are not listed goes down, and nothing else changes;
/// beyond the number of services nothing changes at all.
pub proof fn lemma_digest_with_one_more(
    history: Seq<SpendView>,
    setup_name: Seq<char>,
    min_avg_daily: Amount,
    max_display: nat,
) -> (around: (Seq<char>, Seq<char>))
    ensures
        ({
            let services = ranking(history, min_avg_daily);
            let line = digest_line(false, "• "@, " — $"@, "/day\n"@);
            let (before, after) = around;
            let now = digest_text(
                history,
                setup_name,
                min_avg_daily,
                max_display,
            );
            let longer = digest_text(
                history,
                setup_name,
                min_avg_daily,
                max_display + 1,
            );
            &&& max_display < services.len() ==> now == before
                + rest_text(services.len(), max_display, "_...and "@, " more services_\n"@)
                + after
            &&& max_display < services.len() ==> longer == before
                + line(services[max_display as int])
                + rest_text(services.len(), max_display + 1, "_...and "@, " more services_\n"@)
                + after
            &&& max_display >= services.len() ==> longer == now
        }),
{
    let services = ranking(history, min_avg_daily);
    let line = digest_line(false, "• "@, " — $"@, "/day\n"@);
    lemma_one_more_line(services, max_display, line);
    let head = ":bar_chart: *"@ + mrkdwn_text(setup_name) + ": Daily Digest*\n\n"@
        + ":moneybag: Avg daily spend: *$"@ + two_decimals(total(averages(services))) + "*\n\n"@
        + "*Top services (avg/day):*\n"@;
    let listed = lines(first_items(services, max_display), line);
    let before = head + listed;
    let after = "\n:calendar: "@ + mrkdwn_text(setup_name) + " Daily Digest"@;
    if max_display < services.len() {
        let next = line(services[max_display as int]);
        lemma_put_together(head, listed, next);
        let here = before
            + rest_text(services.len(), max_display, "_...and "@, " more services_\n"@);
        let there = before + next
            + rest_text(services.len(), max_display + 1, "_...and "@, " more services_\n"@);
        let a1 = "\n:calendar: "@ + mrkdwn_text(setup_name);
        lemma_put_together(here, "\n:calendar: "@, mrkdwn_text(setup_name));
        lemma_put_together(there, "\n:calendar: "@, mrkdwn_text(setup_name));
        let a2 = a1 + " Daily Digest"@;
        lemma_put_together(here, a1, " Daily Digest"@);
        lemma_put_together(there, a1, " Daily Digest"@);
    }
    (before, after)
}

/// The average day that is shown is that of all services that are ranked,
/// however many are listed.
pub proof fn lemma_digest_shows_the_total(
    history: Seq<SpendView>,
    setup_name: Seq<char>,
    min_avg_daily: Amount,
    max_display: nat,
)
    ensures
        ({
            let services = ranking(history, min_avg_daily);
            let shown = total(Seq::new(services.len(), |i: int| services[i].1));
            occurs(
                ":moneybag: Avg daily spend: *$"@ + two_decimals(shown) + "*\n\n"@,
                digest_text(history, setup_name, min_avg_daily, max_display),
            )
        }),
{
    broadcast use lemma_occurs_in_front;

    let services = ranking(history, min_avg_daily);
    assert(averages(services) =~= Seq::new(services.len(), |i: int| services[i].1));
    let head = ":bar_chart: *"@ + mrkdwn_text(setup_name) + ": Daily Digest*\n\n"@;
    lemma_three_occur(
        head,
        ":moneybag: Avg daily spend: *$"@,
        two_decimals(total(averages(services))),
        "*\n\n"@,
    );
}

} // verus!
