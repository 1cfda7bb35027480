//! Email through SES: messages in HTML.

use super::format::{
    averages, digest_line, escape_html, extras, figures, first_items, html_text,
    lemma_one_more_line, lines, ranked_services, ranking, rest_text, services_view, spike_line,
    total_extra, write_digest_lines, write_figures, write_rest, write_spike_lines,
};
use super::{Delivery, DeliveryView, NotifyChannel};
use crate::anomaly::{spikes_view, Spike, SpikeView};
use crate::config::{Config, ConfigView, SesConfig, SesView};
use crate::cost_explorer::{history_view, SpendHistory, SpendView};
use crate::number::print::{two_decimals, write_cents};
use crate::number::sums::total;
use crate::number::Amount;
use crate::text::{
    decimal, lemma_nothing_added, lemma_occurs_in_front, lemma_put_together, lemma_three_occur,
    occurs, write_decimal,
};
use vstd::prelude::*;

verus! {

#[derive(Debug)]
pub struct Ses;

/// The message about spikes.
pub open spec fn spike_html(
    spikes: Seq<SpikeView>,
    setup_name: Seq<char>,
    check_interval_hours: nat,
    max_display: nat,
) -> Seq<char> {
    "<h2>"@ + html_text(setup_name) + ": Cost Spike Detected</h2>"@ + "<p><strong>"@ + html_text(
        spikes[0].service,
    ) + "</strong> spiked "@ + figures(spikes[0], "/day avg)</p>"@) + "<p>Total extra spend: ~$"@
        + two_decimals(total(extras(spikes))) + "</p>"@ + "<h3>Affected services</h3><ul>"@ + lines(
        first_items(spikes, max_display),
        spike_line(true, "<li><strong>"@, "</strong> "@, " avg)</li>"@),
    ) + "</ul>"@ + rest_text(
        spikes.len(),
        max_display,
        "<p><em>...and "@,
        " more services</em></p>"@,
    ) + "<hr><p><small>"@ + html_text(setup_name) + " &middot; Checks every "@ + decimal(
        check_interval_hours,
    ) + "h</small></p>"@
}

pub fn build_spike_html(
    spikes: &Vec<Spike>,
    setup_name: &str,
    check_interval_hours: u32,
    max_display: usize,
) -> (r: String)
    requires
        spikes@.len() > 0,
    ensures
        r@ == spike_html(
            spikes_view(spikes@),
            setup_name@,
            check_interval_hours as nat,
            max_display as nat,
        ),
{
    let name: String = escape_html(setup_name);
    let mut html: String = "<h2>".to_string();
    html.append(name.as_str());
    html.append(": Cost Spike Detected</h2>");
    html.append("<p><strong>");
    html.append(escape_html(spikes[0].service.as_str()).as_str());
    html.append("</strong> spiked ");
    html.append(write_figures(&spikes[0], "/day avg)</p>").as_str());
    html.append("<p>Total extra spend: ~$");
    html.append(write_cents(total_extra(spikes)).as_str());
    html.append("</p>");
    html.append("<h3>Affected services</h3><ul>");
    html.append(
        write_spike_lines(
            spikes,
            max_display,
            true,
            "<li><strong>",
            "</strong> ",
            " avg)</li>",
        ).as_str(),
    );
    html.append("</ul>");
    html.append(
        write_rest(
            spikes.len(),
            max_display,
            "<p><em>...and ",
            " more services</em></p>",
        ).as_str(),
    );
    html.append("<hr><p><small>");
    html.append(name.as_str());
    html.append(" &middot; Checks every ");
    html.append(write_decimal(check_interval_hours as u64).as_str());
    html.append("h</small></p>");
    html
}

/// The digest.
pub open spec fn digest_html(
    history: Seq<SpendView>,
    setup_name: Seq<char>,
    min_avg_daily: Amount,
    max_display: nat,
) -> Seq<char> {
    let services = ranking(history, min_avg_daily);
    "<h2>"@ + html_text(setup_name) + ": Daily Digest</h2>"@ + "<p>Avg daily spend: <strong>$"@
        + two_decimals(total(averages(services))) + "</strong></p>"@
        + "<h3>Top services (avg/day)</h3><ul>"@ + lines(
        first_items(services, max_display),
        digest_line(true, "<li>"@, " &mdash; $"@, "/day</li>"@),
    ) + "</ul>"@ + rest_text(
        services.len(),
        max_display,
        "<p><em>...and "@,
        " more services</em></p>"@,
    ) + "<hr><p><small>"@ + html_text(setup_name) + " Daily Digest</small></p>"@
}

pub fn build_digest_html(
    spend_data: &SpendHistory,
    setup_name: &str,
    min_avg_daily: Amount,
    max_display: usize,
) -> (r: String)
    ensures
        r@ == digest_html(
            history_view(spend_data@),
            setup_name@,
            min_avg_daily,
            max_display as nat,
        ),
{
    let (services, grand_total) = ranked_services(spend_data, min_avg_daily);
    assert(services_view(services@).len() == services@.len());
    let name: String = escape_html(setup_name);
    let mut html: String = "<h2>".to_string();
    html.append(name.as_str());
    html.append(": Daily Digest</h2>");
    html.append("<p>Avg daily spend: <strong>$");
    html.append(write_cents(grand_total).as_str());
    html.append("</strong></p>");
    html.append("<h3>Top services (avg/day)</h3><ul>");
    html.append(
        write_digest_lines(
            &services,
            max_display,
            true,
            "<li>",
            " &mdash; $",
            "/day</li>",
        ).as_str(),
    );
    html.append("</ul>");
    html.append(
        write_rest(
            services.len(),
            max_display,
            "<p><em>...and ",
            " more services</em></p>",
        ).as_str(),
    );
    html.append("<hr><p><small>");
    html.append(name.as_str());
    html.append(" Daily Digest</small></p>");
    html
}

/// The message as it is sent to the recipients.
pub open spec fn email_view(ses: SesView, subject: Seq<char>, html: Seq<char>) -> DeliveryView {
    DeliveryView::Email { from: ses.from_address, to: ses.to_addresses, subject, html }
}

fn copy_addresses(addresses: &Vec<String>) -> (r: Vec<String>)
    ensures
        r.deep_view() == addresses.deep_view(),
{
    let mut out: Vec<String> = Vec::new();
    let mut i: usize = 0;
    while i < addresses.len()
        invariant
            i <= addresses@.len(),
            out@.len() == i,
            forall|k: int| 0 <= k < i ==> (#[trigger] out@[k])@ == addresses@[k]@,
        decreases addresses@.len() - i,
    {
        out.push(addresses[i].clone());
        i = i + 1;
    }
    assert(out.deep_view() =~= addresses.deep_view());
    out
}

pub fn send_email(scfg: &SesConfig, subject: String, html_body: String) -> (r: Delivery)
    ensures
        r.deep_view() == email_view(scfg.deep_view(), subject@, html_body@),
{
    Delivery::Email {
        from: scfg.from_address.clone(),
        to: copy_addresses(&scfg.to_addresses),
        subject,
        html: html_body,
    }
}

/// The subject of the message about spikes: the first one.
pub open spec fn spike_subject(setup_name: Seq<char>, spikes: Seq<SpikeView>) -> Seq<char> {
    setup_name + ": Cost Spike — "@ + spikes[0].service + " (+$"@ + two_decimals(
        spikes[0].extra_usd,
    ) + ")"@
}

impl NotifyChannel for Ses {
    open spec fn label(&self) -> Seq<char> {
        "ses"@
    }

    open spec fn can_alert(&self, cfg: ConfigView, count: nat) -> bool {
        true
    }

    open spec fn alert(&self, cfg: ConfigView, spikes: Seq<SpikeView>, timestamp: Seq<char>) -> Result<
        Option<DeliveryView>,
        Seq<char>,
    > {
        if spikes.len() == 0 {
            Ok(None)
        } else {
            match cfg.ses {
                None => Err("SES channel active but config missing"@),
                Some(ses) => Ok(
                    Some(
                        email_view(
                            ses,
                            spike_subject(cfg.setup_name, spikes),
                            spike_html(
                                spikes,
                                cfg.setup_name,
                                cfg.dedup_cooldown_hours,
                                cfg.max_spike_display,
                            ),
                        ),
                    ),
                ),
            }
        }
    }

    open spec fn digest(&self, cfg: ConfigView, history: Seq<SpendView>, timestamp: Seq<char>) -> Result<
        Option<DeliveryView>,
        Seq<char>,
    > {
        match cfg.ses {
            None => Err("SES channel active but config missing"@),
            Some(ses) => Ok(
                Some(
                    email_view(
                        ses,
                        cfg.setup_name + " Daily Digest"@,
                        digest_html(
                            history,
                            cfg.setup_name,
                            cfg.min_avg_daily_usd,
                            cfg.max_digest_display,
                        ),
                    ),
                ),
            ),
        }
    }

    open spec fn failure(&self, reason: Seq<char>) -> Seq<char> {
        "SES send failed: "@ + reason
    }

    fn name(&self) -> (r: &'static str) {
        "ses"
    }

    fn send_spike_alert(&self, cfg: &Config, spikes: &Vec<Spike>, _timestamp: &str) -> (r: Result<
        Option<Delivery>,
        String,
    >) {
        if spikes.len() == 0 {
            return Ok(None);
        }
        match &cfg.ses {
            None => Err("SES channel active but config missing".to_string()),
            Some(scfg) => {
                let mut subject: String = cfg.setup_name.clone();
                subject.append(": Cost Spike — ");
                subject.append(spikes[0].service.as_str());
                subject.append(" (+$");
                subject.append(write_cents(spikes[0].extra_usd).as_str());
                subject.append(")");
                let body: String = build_spike_html(
                    spikes,
                    cfg.setup_name.as_str(),
                    cfg.dedup_cooldown_hours,
                    cfg.max_spike_display,
                );
                Ok(Some(send_email(scfg, subject, body)))
            },
        }
    }

    fn send_daily_digest(&self, cfg: &Config, spend_data: &SpendHistory, _timestamp: &str) -> (r:
        Result<Option<Delivery>, String>) {
        match &cfg.ses {
            None => Err("SES channel active but config missing".to_string()),
            Some(scfg) => {
                let body: String = build_digest_html(
                    spend_data,
                    cfg.setup_name.as_str(),
                    cfg.min_avg_daily_usd,
                    cfg.max_digest_display,
                );
                let mut subject: String = cfg.setup_name.clone();
                subject.append(" Daily Digest");
                Ok(Some(send_email(scfg, subject, body)))
            },
        }
    }

    fn failure_text(&self, reason: &str) -> (r: String) {
        let mut out: String = "SES send failed: ".to_string();
        out.append(reason);
        out
    }
}

// ---- what holds of the messages ----------------------------------------

/// The message about spikes where none of them is listed, word for word: it
/// tells the first one, what all of them cost beyond the averages, and how many
/// there are.
pub proof fn lemma_alert_without_its_list(
    spikes: Seq<SpikeView>,
    setup_name: Seq<char>,
    check_interval_hours: nat,
)
    requires
        spikes.len() > 0,
    ensures
        ({
            let shown = total(Seq::new(spikes.len(), |i: int| spikes[i].extra_usd));
            let bare = spike_html(spikes, setup_name, check_interval_hours, 0);
            bare == "<h2>"@ + html_text(setup_name) + ": Cost Spike Detected</h2>"@
                + "<p><strong>"@ + html_text(spikes[0].service) + "</strong> spiked "@
                + figures(spikes[0], "/day avg)</p>"@) + "<p>Total extra spend: ~$"@
                + two_decimals(shown) + "</p>"@ + "<h3>Affected services</h3><ul>"@ + "</ul>"@
                + "<p><em>...and "@ + decimal(spikes.len()) + " more services</em></p>"@
                + "<hr><p><small>"@ + html_text(setup_name) + " &middot; Checks every "@
                + decimal(check_interval_hours) + "h</small></p>"@
        }),
{
    let shown = total(Seq::new(spikes.len(), |i: int| spikes[i].extra_usd));
    let line = spike_line(true, "<li><strong>"@, "</strong> "@, " avg)</li>"@);
    lemma_one_more_line(spikes, 0, line);
    assert(extras(spikes) =~= Seq::new(spikes.len(), |i: int| spikes[i].extra_usd));
    let head = "<h2>"@ + html_text(setup_name) + ": Cost Spike Detected</h2>"@ + "<p><strong>"@
        + html_text(spikes[0].service) + "</strong> spiked "@
        + figures(spikes[0], "/day avg)</p>"@) + "<p>Total extra spend: ~$"@ + two_decimals(shown)
        + "</p>"@ + "<h3>Affected services</h3><ul>"@;
    lemma_nothing_added(head);
    let end = head + "</ul>"@;
    let (a, b, c) = ("<p><em>...and "@, decimal(spikes.len()), " more services</em></p>"@);
    lemma_put_together(end, a + b, c);
    lemma_put_together(end, a, b);
    lemma_nothing_added(end);
}

/// Where one more spike is listed, its line is added behind the others and the
/// number of those that are not listed goes down, and nothing else changes;
/// beyond the number of spikes nothing changes at all.
pub proof fn lemma_alert_with_one_more(
    spikes: Seq<SpikeView>,
    setup_name: Seq<char>,
    check_interval_hours: nat,
    max_display: nat,
) -> (around: (Seq<char>, Seq<char>))
    ensures
        ({
            let line = spike_line(true, "<li><strong>"@, "</strong> "@, " avg)</li>"@);
            let (before, after) = around;
            let now = spike_html(
                spikes,
                setup_name,
                check_interval_hours,
                max_display,
            );
            let longer = spike_html(
                spikes,
                setup_name,
                check_interval_hours,
                max_display + 1,
            );
            &&& max_display < spikes.len() ==> now == before + "</ul>"@
                + rest_text(spikes.len(), max_display, "<p><em>...and "@, " more services</em></p>"@)
                + after
            &&& max_display < spikes.len() ==> longer == before + line(spikes[max_display as int])
                + "</ul>"@
                + rest_text(spikes.len(), max_display + 1, "<p><em>...and "@, " more services</em></p>"@)
                + after
            &&& max_display >= spikes.len() ==> longer == now
        }),
{
    let line = spike_line(true, "<li><strong>"@, "</strong> "@, " avg)</li>"@);
    lemma_one_more_line(spikes, max_display, line);
    let head = "<h2>"@ + html_text(setup_name) + ": Cost Spike Detected</h2>"@ + "<p><strong>"@
        + html_text(spikes[0].service) + "</strong> spiked "@
        + figures(spikes[0], "/day avg)</p>"@) + "<p>Total extra spend: ~$"@
        + two_decimals(total(extras(spikes))) + "</p>"@ + "<h3>Affected services</h3><ul>"@;
    let listed = lines(first_items(spikes, max_display), line);
    let before = head + listed;
    let after = "<hr><p><small>"@ + html_text(setup_name) + " &middot; Checks every "@
        + decimal(check_interval_hours) + "h</small></p>"@;
    if max_display < spikes.len() {
        let next = line(spikes[max_display as int]);
        lemma_put_together(head, listed, next);
        let here = before + "</ul>"@
            + rest_text(spikes.len(), max_display, "<p><em>...and "@, " more services</em></p>"@);
        let there = before + next + "</ul>"@
            + rest_text(spikes.len(), max_display + 1, "<p><em>...and "@, " more services</em></p>"@);
        let a1 = "<hr><p><small>"@ + html_text(setup_name);
        lemma_put_together(here, "<hr><p><small>"@, html_text(setup_name));
        lemma_put_together(there, "<hr><p><small>"@, html_text(setup_name));
        let a2 = a1 + " &middot; Checks every "@;
        lemma_put_together(here, a1, " &middot; Checks every "@);
        lemma_put_together(there, a1, " &middot; Checks every "@);
        let a3 = a2 + decimal(check_interval_hours);
        lemma_put_together(here, a2, decimal(check_interval_hours));
        lemma_put_together(there, a2, decimal(check_interval_hours));
        let a4 = a3 + "h</small></p>"@;
        lemma_put_together(here, a3, "h</small></p>"@);
        lemma_put_together(there, a3, "h</small></p>"@);
    }
    (before, after)
}

/// The total that is shown is that of all spikes, however many are listed.
pub proof fn lemma_alert_shows_the_total(
    spikes: Seq<SpikeView>,
    setup_name: Seq<char>,
    check_interval_hours: nat,
    max_display: nat,
)
    ensures
        ({
            let shown = total(Seq::new(spikes.len(), |i: int| spikes[i].extra_usd));
            occurs(
                "<p>Total extra spend: ~$"@ + two_decimals(shown) + "</p>"@,
                spike_html(spikes, setup_name, check_interval_hours, max_display),
            )
        }),
{
    broadcast use lemma_occurs_in_front;

    assert(extras(spikes) =~= Seq::new(spikes.len(), |i: int| spikes[i].extra_usd));
    let head = "<h2>"@ + html_text(setup_name) + ": Cost Spike Detected</h2>"@ + "<p><strong>"@
        + html_text(spikes[0].service) + "</strong> spiked "@
        + figures(spikes[0], "/day avg)</p>"@);
    lemma_three_occur(
        head,
        "<p>Total extra spend: ~$"@,
        two_decimals(total(extras(spikes))),
        "</p>"@,
    );
}

/// The digest where no service is listed, word for word: it tells what all of
/// them cost together on an average day, and how many there are.
pub proof fn lemma_digest_without_its_list(
    history: Seq<SpendView>,
    setup_name: Seq<char>,
    min_avg_daily: Amount,
)
    ensures
        ({
            let services = ranking(history, min_avg_daily);
            let shown = total(Seq::new(services.len(), |i: int| services[i].1));
            let bare = digest_html(history, setup_name, min_avg_daily, 0);
            &&& services.len() > 0 ==> bare == "<h2>"@ + html_text(setup_name)
                + ": Daily Digest</h2>"@ + "<p>Avg daily spend: <strong>$"@ + two_decimals(shown)
                + "</strong></p>"@ + "<h3>Top services (avg/day)</h3><ul>"@ + "</ul>"@
                + "<p><em>...and "@ + decimal(services.len()) + " more services</em></p>"@
                + "<hr><p><small>"@ + html_text(setup_name) + " Daily Digest</small></p>"@
            &&& services.len() == 0 ==> bare == "<h2>"@ + html_text(setup_name)
                + ": Daily Digest</h2>"@ + "<p>Avg daily spend: <strong>$"@ + two_decimals(shown)
                + "</strong></p>"@ + "<h3>Top services (avg/day)</h3><ul>"@ + "</ul>"@
                + "<hr><p><small>"@ + html_text(setup_name) + " Daily Digest</small></p>"@
        }),
{
    let services = ranking(history, min_avg_daily);
    let shown = total(Seq::new(services.len(), |i: int| services[i].1));
    let line = digest_line(true, "<li>"@, " &mdash; $"@, "/day</li>"@);
    lemma_one_more_line(services, 0, line);
    assert(averages(services) =~= Seq::new(services.len(), |i: int| services[i].1));
    let head = "<h2>"@ + html_text(setup_name) + ": Daily Digest</h2>"@
        + "<p>Avg daily spend: <strong>$"@ + two_decimals(shown) + "</strong></p>"@
        + "<h3>Top services (avg/day)</h3><ul>"@;
    lemma_nothing_added(head);
    let end = head + "</ul>"@;
    let (a, b, c) = ("<p><em>...and "@, decimal(services.len()), " more services</em></p>"@);
    lemma_put_together(end, a + b, c);
    lemma_put_together(end, a, b);
    lemma_nothing_added(end);
}

/// Where one more service is listed, its line is added behind the others and the
/// number of those that are not listed goes down, and nothing else changes;
/// beyond the number of services nothing changes at all.
pub proof fn lemma_digest_with_one_more(
    history: Seq<SpendView>,
    setup_name: Seq<char>,
    min_avg_daily: Amount,
    max_display: nat,
) -> (around: (Seq<char>, Seq<char>))
    ensures
        ({
            let services = ranking(history, min_avg_daily);
            let line = digest_line(true, "<li>"@, " &mdash; $"@, "/day</li>"@);
            let (before, after) = around;
            let now = digest_html(
                history,
                setup_name,
                min_avg_daily,
                max_display,
            );
            let longer = digest_html(
                history,
                setup_name,
                min_avg_daily,
                max_display + 1,
            );
            &&& max_display < services.len() ==> now == before + "</ul>"@
                + rest_text(services.len(), max_display, "<p><em>...and "@, " more services</em></p>"@)
                + after
            &&& max_display < services.len() ==> longer == before
                + line(services[max_display as int]) + "</ul>"@
                + rest_text(services.len(), max_display + 1, "<p><em>...and "@, " more services</em></p>"@)
                + after
            &&& max_display >= services.len() ==> longer == now
        }),
{
    let services = ranking(history, min_avg_daily);
    let line = digest_line(true, "<li>"@, " &mdash; $"@, "/day</li>"@);
    lemma_one_more_line(services, max_display, line);
    let head = "<h2>"@ + html_text(setup_name) + ": Daily Digest</h2>"@
        + "<p>Avg daily spend: <strong>$"@ + two_decimals(total(averages(services)))
        + "</strong></p>"@ + "<h3>Top services (avg/day)</h3><ul>"@;
    let listed = lines(first_items(services, max_display), line);
    let before = head + listed;
    let after = "<hr><p><small>"@ + html_text(setup_name) + " Daily Digest</small></p>"@;
    if max_display < services.len() {
        let next = line(services[max_display as int]);
        lemma_put_together(head, listed, next);
        let here = before + "</ul>"@
            + rest_text(services.len(), max_display, "<p><em>...and "@, " more services</em></p>"@);
        let there = before + next + "</ul>"@
            + rest_text(services.len(), max_display + 1, "<p><em>...and "@, " more services</em></p>"@);
        let a1 = "<hr><p><small>"@ + html_text(setup_name);
        lemma_put_together(here, "<hr><p><small>"@, html_text(setup_name));
        lemma_put_together(there, "<hr><p><small>"@, html_text(setup_name));
        let a2 = a1 + " Daily Digest</small></p>"@;
        lemma_put_together(here, a1, " Daily Digest</small></p>"@);
        lemma_put_together(there, a1, " Daily Digest</small></p>"@);
    }
    (before, after)
}

/// The average day that is shown is that of all services that are ranked,
/// however many are listed.
pub proof fn lemma_digest_shows_the_total(
    history: Seq<SpendView>,
    setup_name: Seq<char>,
    min_avg_daily: Amount,
    max_display: nat,
)
    ensures
        ({
            let services = ranking(history, min_avg_daily);
            let shown = total(Seq::new(services.len(), |i: int| services[i].1));
            occurs(
                "<p>Avg daily spend: <strong>$"@ + two_decimals(shown) + "</strong></p>"@,
                digest_html(history, setup_name, min_avg_daily, max_display),
            )
        }),
{
    broadcast use lemma_occurs_in_front;

    let services = ranking(history, min_avg_daily);
    assert(averages(services) =~= Seq::new(services.len(), |i: int| services[i].1));
    let head = "<h2>"@ + html_text(setup_name) + ": Daily Digest</h2>"@;
    lemma_three_occur(
        head,
        "<p>Avg daily spend: <strong>$"@,
        two_decimals(total(averages(services))),
        "</strong></p>"@,
    );
}

} // verus!
