//! Microsoft Teams: Adaptive Cards.

use super::format::{
    averages, digest_line, extras, figures, first_items, ranked_services, ranking, rest_text,
    services_view, shown_count, spike_line, total_extra, write_digest_line, write_figures,
    write_rest, write_spike_line,
};
use super::{Delivery, DeliveryView, NotifyChannel};
use crate::anomaly::{spikes_view, Spike, SpikeView};
use crate::config::{Config, ConfigView};
use crate::cost_explorer::{history_view, SpendHistory, SpendView};
use crate::json::{
    field, field_count, fields_view, has_field, object, pair, single, text, with, Json, JsonView,
};
use crate::number::print::{two_decimals, write_cents};
use crate::number::sums::total;
use crate::number::Amount;
use crate::text::{decimal, join, joined, lemma_each_is_joined, occurs, write_decimal};
use vstd::prelude::*;

verus! {

#[derive(Debug)]
pub struct Teams;

/// A line for each item.
pub open spec fn each<A>(items: Seq<A>, line: spec_fn(A) -> Seq<char>) -> Seq<Seq<char>> {
    Seq::new(items.len(), |i: int| line(items[i]))
}

/// A line about the items that are not shown, where there are any.
pub open spec fn rest_line(count: nat, max_display: nat) -> Seq<Seq<char>> {
    if count > max_display {
        seq![rest_text(count, max_display, "_...and "@, " more services_"@)]
    } else {
        Seq::<Seq<char>>::empty()
    }
}

/// A card with a title and a text.
pub open spec fn card_view(title: Seq<char>, body: Seq<char>) -> JsonView {
    JsonView::Object(
        seq![
            ("type"@, JsonView::Text("message"@)),
            (
                "attachments"@,
                JsonView::List(
                    seq![
                        JsonView::Object(
                            seq![
                                (
                                    "contentType"@,
                                    JsonView::Text("application/vnd.microsoft.card.adaptive"@),
                                ),
                                ("content"@, content_view(title, body)),
                            ],
                        ),
                    ],
                ),
            ),
        ],
    )
}

pub open spec fn content_view(title: Seq<char>, body: Seq<char>) -> JsonView {
    JsonView::Object(
        seq![
            (
                "$schema"@,
                JsonView::Text("http://adaptivecards.io/schemas/adaptive-card.json"@),
            ),
            ("type"@, JsonView::Text("AdaptiveCard"@)),
            ("version"@, JsonView::Text("1.4"@)),
            ("body"@, JsonView::List(seq![title_view(title), body_view(body)])),
        ],
    )
}

pub open spec fn title_view(title: Seq<char>) -> JsonView {
    JsonView::Object(
        seq![
            ("type"@, JsonView::Text("TextBlock"@)),
            ("text"@, JsonView::Text(title)),
            ("size"@, JsonView::Text("large"@)),
            ("weight"@, JsonView::Text("bolder"@)),
        ],
    )
}

pub open spec fn body_view(body: Seq<char>) -> JsonView {
    JsonView::Object(
        seq![
            ("type"@, JsonView::Text("TextBlock"@)),
            ("text"@, JsonView::Text(body)),
            ("wrap"@, JsonView::Bool(true)),
        ],
    )
}

fn title_block(title: &str) -> (r: Json)
    ensures
        r@ == title_view(title@),
{
    let fields = with(
        with(
            with(field("type", text("TextBlock")), "text", text(title)),
            "size",
            text("large"),
        ),
        "weight",
        text("bolder"),
    );
    assert(fields_view(fields@) =~= title_view(title@)->Object_0);
    object(fields)
}

fn body_block(body: &str) -> (r: Json)
    ensures
        r@ == body_view(body@),
{
    let fields = with(
        with(field("type", text("TextBlock")), "text", text(body)),
        "wrap",
        Json::Bool(true),
    );
    assert(fields_view(fields@) =~= body_view(body@)->Object_0);
    object(fields)
}

fn card_content(title: &str, body: &str) -> (r: Json)
    ensures
        r@ == content_view(title@, body@),
{
    let fields = with(
        with(
            with(
                field("$schema", text("http://adaptivecards.io/schemas/adaptive-card.json")),
                "type",
                text("AdaptiveCard"),
            ),
            "version",
            text("1.4"),
        ),
        "body",
        pair(title_block(title), body_block(body)),
    );
    assert(fields_view(fields@) =~= content_view(title@, body@)->Object_0);
    object(fields)
}

/// A card with a title and a text.
pub fn wrap_adaptive_card(title: &str, body: &str) -> (r: Json)
    ensures
        r@ == card_view(title@, body@),
{
    let attachment = with(
        field("contentType", text("application/vnd.microsoft.card.adaptive")),
        "content",
        card_content(title, body),
    );
    assert(fields_view(attachment@) =~= seq![
        ("contentType"@, JsonView::Text("application/vnd.microsoft.card.adaptive"@)),
        ("content"@, content_view(title@, body@)),
    ]);
    let fields = with(
        field("type", text("message")),
        "attachments",
        single(object(attachment)),
    );
    assert(fields_view(fields@) =~= card_view(title@, body@)->Object_0);
    object(fields)
}

/// The lines of the card about spikes.
pub open spec fn spike_lines(
    spikes: Seq<SpikeView>,
    setup_name: Seq<char>,
    check_interval_hours: nat,
    max_display: nat,
) -> Seq<Seq<char>> {
    seq![
        "**"@ + spikes[0].service + "** spiked "@ + figures(spikes[0], "/day avg)"@),
        "Total extra spend: ~$"@ + two_decimals(total(extras(spikes))),
        Seq::<char>::empty(),
        "**Affected services:**"@,
    ] + each(
        first_items(spikes, max_display),
        spike_line(false, "- **"@, "** "@, " avg)"@),
    ) + rest_line(spikes.len(), max_display) + seq![
        Seq::<char>::empty(),
        setup_name + " · Checks every "@ + decimal(check_interval_hours) + "h"@,
    ]
}

/// The card about spikes.
pub open spec fn spike_card(
    spikes: Seq<SpikeView>,
    setup_name: Seq<char>,
    check_interval_hours: nat,
    max_display: nat,
) -> JsonView {
    card_view(
        setup_name + ": Cost Spike Detected"@,
        joined(spike_lines(spikes, setup_name, check_interval_hours, max_display), "\n\n"@),
    )
}

fn add_line(lines: Vec<String>, line: String) -> (r: Vec<String>)
    ensures
        r.deep_view() == lines.deep_view().push(line@),
{
    let mut out: Vec<String> = lines;
    out.push(line);
    assert(out.deep_view() =~= lines.deep_view().push(line@));
    out
}

fn add_rest(lines: Vec<String>, count: usize, max_display: usize) -> (r: Vec<String>)
    ensures
        r.deep_view() == lines.deep_view() + rest_line(count as nat, max_display as nat),
{
    let ghost before = lines.deep_view();
    if count > max_display {
        let line: String = write_rest(count, max_display, "_...and ", " more services_");
        assert(before.push(line@) =~= before + rest_line(count as nat, max_display as nat));
        add_line(lines, line)
    } else {
        assert(before =~= before + rest_line(count as nat, max_display as nat));
        lines
    }
}

fn no_lines() -> (r: Vec<String>)
    ensures
        r.deep_view() == Seq::<Seq<char>>::empty(),
{
    let r: Vec<String> = Vec::new();
    assert(r.deep_view() =~= Seq::<Seq<char>>::empty());
    r
}

fn blank_line() -> (r: String)
    ensures
        r@ == Seq::<char>::empty(),
{
    let r: String = String::new();
    assert(r@ =~= Seq::<char>::empty());
    r
}

pub fn build_spike_card(
    spikes: &Vec<Spike>,
    setup_name: &str,
    check_interval_hours: u32,
    max_display: usize,
) -> (r: Json)
    requires
        spikes@.len() > 0,
    ensures
        r@ == spike_card(
            spikes_view(spikes@),
            setup_name@,
            check_interval_hours as nat,
            max_display as nat,
        ),
{
    let ghost all = spikes_view(spikes@);
    let mut top: String = "**".to_string();
    top.append(spikes[0].service.as_str());
    top.append("** spiked ");
    top.append(write_figures(&spikes[0], "/day avg)").as_str());
    let mut extra: String = "Total extra spend: ~$".to_string();
    extra.append(write_cents(total_extra(spikes)).as_str());
    let mut lines: Vec<String> = add_line(
        add_line(add_line(add_line(no_lines(), top), extra), blank_line()),
        "**Affected services:**".to_string(),
    );
    let ghost head = lines.deep_view();
    assert(head =~= seq![top@, extra@, Seq::<char>::empty(), "**Affected services:**"@]);
    let ghost line = spike_line(false, "- **"@, "** "@, " avg)"@);
    let count: usize = shown_count(spikes.len(), max_display);
    let mut i: usize = 0;
    assert(head + each(all.take(0), line) =~= head);
    while i < count
        invariant
            i <= count <= spikes@.len(),
            all == spikes_view(spikes@),
            line == spike_line(false, "- **"@, "** "@, " avg)"@),
            lines.deep_view() == head + each(all.take(i as int), line),
        decreases count - i,
    {
        let next: String = write_spike_line(&spikes[i], false, "- **", "** ", " avg)");
        assert(head + each(all.take(i + 1), line) =~= (head + each(all.take(i as int), line)).push(
            next@,
        ));
        lines = add_line(lines, next);
        i = i + 1;
    }
    lines = add_rest(lines, spikes.len(), max_display);
    let mut foot: String = setup_name.to_string();
    foot.append(" · Checks every ");
    foot.append(write_decimal(check_interval_hours as u64).as_str());
    foot.append("h");
    let ghost body = lines.deep_view();
    lines = add_line(add_line(lines, blank_line()), foot);
    assert(body.push(Seq::<char>::empty()).push(foot@) =~= body + seq![
        Seq::<char>::empty(),
        foot@,
    ]);
    let mut title: String = setup_name.to_string();
    title.append(": Cost Spike Detected");
    wrap_adaptive_card(title.as_str(), join(&lines, "\n\n").as_str())
}

/// The lines of the digest's card.
pub open spec fn digest_lines(
    history: Seq<SpendView>,
    setup_name: Seq<char>,
    min_avg_daily: Amount,
    max_display: nat,
) -> Seq<Seq<char>> {
    let services = ranking(history, min_avg_daily);
    seq![
        "Avg daily spend: **$"@ + two_decimals(total(averages(services))) + "**"@,
        Seq::<char>::empty(),
        "**Top services (avg/day):**"@,
    ] + each(first_items(services, max_display), digest_line(false, "- "@, " — $"@, "/day"@))
        + rest_line(services.len(), max_display) + seq![
        Seq::<char>::empty(),
        setup_name + " Daily Digest"@,
    ]
}

/// The digest's card.
pub open spec fn digest_card(
    history: Seq<SpendView>,
    setup_name: Seq<char>,
    min_avg_daily: Amount,
    max_display: nat,
) -> JsonView {
    card_view(
        setup_name + ": Daily Digest"@,
        joined(digest_lines(history, setup_name, min_avg_daily, max_display), "\n\n"@),
    )
}

pub fn build_digest_card(
    spend_data: &SpendHistory,
    setup_name: &str,
    min_avg_daily: Amount,
    max_display: usize,
) -> (r: Json)
    ensures
        r@ == digest_card(
            history_view(spend_data@),
            setup_name@,
            min_avg_daily,
            max_display as nat,
        ),
{
    let (services, grand_total) = ranked_services(spend_data, min_avg_daily);
    let ghost all = services_view(services@);
    assert(all.len() == services@.len());
    let mut sum: String = "Avg daily spend: **$".to_string();
    sum.append(write_cents(grand_total).as_str());
    sum.append("**");
    let mut lines: Vec<String> = add_line(
        add_line(add_line(no_lines(), sum), blank_line()),
        "**Top services (avg/day):**".to_string(),
    );
    let ghost head = lines.deep_view();
    assert(head =~= seq![sum@, Seq::<char>::empty(), "**Top services (avg/day):**"@]);
    let ghost line = digest_line(false, "- "@, " — $"@, "/day"@);
    let count: usize = shown_count(services.len(), max_display);
    let mut i: usize = 0;
    assert(head + each(all.take(0), line) =~= head);
    while i < count
        invariant
            i <= count <= services@.len(),
            all == services_view(services@),
            line == digest_line(false, "- "@, " — $"@, "/day"@),
            lines.deep_view() == head + each(all.take(i as int), line),
        decreases count - i,
    {
        let next: String = write_digest_line(&services[i], false, "- ", " — $", "/day");
        assert(head + each(all.take(i + 1), line) =~= (head + each(all.take(i as int), line)).push(
            next@,
        ));
        lines = add_line(lines, next);
        i = i + 1;
    }
    lines = add_rest(lines, services.len(), max_display);
    let mut foot: String = setup_name.to_string();
    foot.append(" Daily Digest");
    let ghost body = lines.deep_view();
    lines = add_line(add_line(lines, blank_line()), foot);
    assert(body.push(Seq::<char>::empty()).push(foot@) =~= body + seq![
        Seq::<char>::empty(),
        foot@,
    ]);
    let mut title: String = setup_name.to_string();
    title.append(": Daily Digest");
    wrap_adaptive_card(title.as_str(), join(&lines, "\n\n").as_str())
}

pub fn send_teams(webhook_url: &str, card: Json) -> (r: Delivery)
    ensures
        r.deep_view() == (DeliveryView::Post {
            url: webhook_url@,
            body: card@,
            authorization: None,
        }),
{
    Delivery::Post { url: webhook_url.to_string(), body: card, authorization: None }
}

impl NotifyChannel for Teams {
    open spec fn label(&self) -> Seq<char> {
        "teams"@
    }

    open spec fn can_alert(&self, cfg: ConfigView, count: nat) -> bool {
        true
    }

    open spec fn alert(&self, cfg: ConfigView, spikes: Seq<SpikeView>, timestamp: Seq<char>) -> Result<
        Option<DeliveryView>,
        Seq<char>,
    > {
        if spikes.len() == 0 {
            Ok(None)
        } else {
            match cfg.teams {
                None => Err("Teams channel active but config missing"@),
                Some(teams) => Ok(
                    Some(
                        DeliveryView::Post {
                            url: teams.webhook_url,
                            body: spike_card(
                                spikes,
                                cfg.setup_name,
                                cfg.dedup_cooldown_hours,
                                cfg.max_spike_display,
                            ),
                            authorization: None,
                        },
                    ),
                ),
            }
        }
    }

    open spec fn digest(&self, cfg: ConfigView, history: Seq<SpendView>, timestamp: Seq<char>) -> Result<
        Option<DeliveryView>,
        Seq<char>,
    > {
        match cfg.teams {
            None => Err("Teams channel active but config missing"@),
            Some(teams) => Ok(
                Some(
                    DeliveryView::Post {
                        url: teams.webhook_url,
                        body: digest_card(
                            history,
                            cfg.setup_name,
                            cfg.min_avg_daily_usd,
                            cfg.max_digest_display,
                        ),
                        authorization: None,
                    },
                ),
            ),
        }
    }

    open spec fn failure(&self, reason: Seq<char>) -> Seq<char> {
        "Failed to send Teams webhook"@
    }

    fn name(&self) -> (r: &'static str) {
        "teams"
    }

    fn send_spike_alert(&self, cfg: &Config, spikes: &Vec<Spike>, _timestamp: &str) -> (r: Result<
        Option<Delivery>,
        String,
    >) {
        if spikes.len() == 0 {
            return Ok(None);
        }
        match &cfg.teams {
            None => Err("Teams channel active but config missing".to_string()),
            Some(tcfg) => {
                let card: Json = build_spike_card(
                    spikes,
                    cfg.setup_name.as_str(),
                    cfg.dedup_cooldown_hours,
                    cfg.max_spike_display,
                );
                Ok(Some(send_teams(tcfg.webhook_url.as_str(), card)))
            },
        }
    }

    fn send_daily_digest(&self, cfg: &Config, spend_data: &SpendHistory, _timestamp: &str) -> (r:
        Result<Option<Delivery>, String>) {
        match &cfg.teams {
            None => Err("Teams channel active but config missing".to_string()),
            Some(tcfg) => {
                let card: Json = build_digest_card(
                    spend_data,
                    cfg.setup_name.as_str(),
                    cfg.min_avg_daily_usd,
                    cfg.max_digest_display,
                );
                Ok(Some(send_teams(tcfg.webhook_url.as_str(), card)))
            },
        }
    }

    fn failure_text(&self, _reason: &str) -> (r: String) {
        "Failed to send Teams webhook".to_string()
    }
}

// ---- what holds of the cards -------------------------------------------

/// The lines of the card about spikes where none of them is listed: the first
/// one, what all of them cost beyond the averages, and how many there are.
pub proof fn lemma_alert_without_its_list(
    spikes: Seq<SpikeView>,
    setup_name: Seq<char>,
    check_interval_hours: nat,
)
    requires
        spikes.len() > 0,
    ensures
        ({
            let shown = total(Seq::new(spikes.len(), |i: int| spikes[i].extra_usd));
            spike_lines(spikes, setup_name, check_interval_hours, 0) == seq![
                "**"@ + spikes[0].service + "** spiked "@ + figures(spikes[0], "/day avg)"@),
                "Total extra spend: ~$"@ + two_decimals(shown),
                Seq::<char>::empty(),
                "**Affected services:**"@,
            ] + rest_line(spikes.len(), 0) + seq![
                Seq::<char>::empty(),
                setup_name + " · Checks every "@ + decimal(check_interval_hours) + "h"@,
            ]
        }),
{
    let line = spike_line(false, "- **"@, "** "@, " avg)"@);
    assert(extras(spikes) =~= Seq::new(spikes.len(), |i: int| spikes[i].extra_usd));
    assert(each(first_items(spikes, 0), line) =~= Seq::<Seq<char>>::empty());
}

/// Where one more spike is listed, its line is added behind the others and the
/// number of those that are not listed goes down, and nothing else changes;
/// beyond the number of spikes nothing changes at all.
pub proof fn lemma_alert_with_one_more(
    spikes: Seq<SpikeView>,
    setup_name: Seq<char>,
    check_interval_hours: nat,
    max_display: nat,
) -> (around: (Seq<Seq<char>>, Seq<Seq<char>>))
    ensures
        ({
            let line = spike_line(false, "- **"@, "** "@, " avg)"@);
            let (before, after) = around;
            let now = spike_lines(spikes, setup_name, check_interval_hours, max_display);
            let longer = spike_lines(spikes, setup_name, check_interval_hours, max_display + 1);
            &&& max_display < spikes.len() ==> now == before + rest_line(
                spikes.len(),
                max_display,
            ) + after
            &&& max_display < spikes.len() ==> longer == before.push(
                line(spikes[max_display as int]),
            ) + rest_line(spikes.len(), max_display + 1) + after
            &&& max_display >= spikes.len() ==> longer == now
        }),
{
    let line = spike_line(false, "- **"@, "** "@, " avg)"@);
    let now = spike_lines(spikes, setup_name, check_interval_hours, max_display);
    let longer = spike_lines(spikes, setup_name, check_interval_hours, max_display + 1);
    let listed = each(first_items(spikes, max_display), line);
    let further = each(first_items(spikes, max_display + 1), line);
    let head = now.take(4);
    let after = now.skip(now.len() - 2);
    if max_display < spikes.len() {
        assert(further =~= listed.push(line(spikes[max_display as int])));
        assert(now =~= head + listed + rest_line(spikes.len(), max_display) + after);
        assert(longer =~= head + further + rest_line(spikes.len(), max_display + 1) + after);
        assert(head + further =~= (head + listed).push(line(spikes[max_display as int])));
    } else {
        assert(further =~= listed);
    }
    (head + listed, after)
}

/// The total that a card shows is that of all spikes, however many are listed.
pub proof fn lemma_alert_shows_the_total(
    spikes: Seq<SpikeView>,
    setup_name: Seq<char>,
    check_interval_hours: nat,
    max_display: nat,
)
    ensures
        ({
            let shown = total(Seq::new(spikes.len(), |i: int| spikes[i].extra_usd));
            let text = joined(
                spike_lines(spikes, setup_name, check_interval_hours, max_display),
                "\n\n"@,
            );
            &&& occurs("Total extra spend: ~$"@ + two_decimals(shown), text)
            &&& spike_card(spikes, setup_name, check_interval_hours, max_display) == card_view(
                setup_name + ": Cost Spike Detected"@,
                text,
            )
        }),
{
    assert(extras(spikes) =~= Seq::new(spikes.len(), |i: int| spikes[i].extra_usd));
    let all = spike_lines(spikes, setup_name, check_interval_hours, max_display);
    lemma_each_is_joined(all, "\n\n"@, 1);
}

/// The lines of the digest's card where no service is listed: what all of them
/// cost together on an average day, and how many there are.
pub proof fn lemma_digest_without_its_list(
    history: Seq<SpendView>,
    setup_name: Seq<char>,
    min_avg_daily: Amount,
)
    ensures
        ({
            let services = ranking(history, min_avg_daily);
            let shown = total(Seq::new(services.len(), |i: int| services[i].1));
            digest_lines(history, setup_name, min_avg_daily, 0) == seq![
                "Avg daily spend: **$"@ + two_decimals(shown) + "**"@,
                Seq::<char>::empty(),
                "**Top services (avg/day):**"@,
            ] + rest_line(services.len(), 0) + seq![
                Seq::<char>::empty(),
                setup_name + " Daily Digest"@,
            ]
        }),
{
    let services = ranking(history, min_avg_daily);
    let line = digest_line(false, "- "@, " — $"@, "/day"@);
    assert(averages(services) =~= Seq::new(services.len(), |i: int| services[i].1));
    assert(each(first_items(services, 0), line) =~= Seq::<Seq<char>>::empty());
}

/// Where one more service is listed, its line is added behind the others and the
/// number of those that are not listed goes down, and nothing else changes;
/// beyond the number of services nothing changes at all.
pub proof fn lemma_digest_with_one_more(
    history: Seq<SpendView>,
    setup_name: Seq<char>,
    min_avg_daily: Amount,
    max_display: nat,
) -> (around: (Seq<Seq<char>>, Seq<Seq<char>>))
    ensures
        ({
            let services = ranking(history, min_avg_daily);
            let line = digest_line(false, "- "@, " — $"@, "/day"@);
            let (before, after) = around;
            let now = digest_lines(history, setup_name, min_avg_daily, max_display);
            let longer = digest_lines(history, setup_name, min_avg_daily, max_display + 1);
            &&& max_display < services.len() ==> now == before + rest_line(
                services.len(),
                max_display,
            ) + after
            &&& max_display < services.len() ==> longer == before.push(
                line(services[max_display as int]),
            ) + rest_line(services.len(), max_display + 1) + after
            &&& max_display >= services.len() ==> longer == now
        }),
{
    let services = ranking(history, min_avg_daily);
    let line = digest_line(false, "- "@, " — $"@, "/day"@);
    let now = digest_lines(history, setup_name, min_avg_daily, max_display);
    let longer = digest_lines(history, setup_name, min_avg_daily, max_display + 1);
    let listed = each(first_items(services, max_display), line);
    let further = each(first_items(services, max_display + 1), line);
    let head = now.take(3);
    let after = now.skip(now.len() - 2);
    if max_display < services.len() {
        assert(further =~= listed.push(line(services[max_display as int])));
        assert(now =~= head + listed + rest_line(services.len(), max_display) + after);
        assert(longer =~= head + further + rest_line(services.len(), max_display + 1) + after);
        assert(head + further =~= (head + listed).push(line(services[max_display as int])));
    } else {
        assert(further =~= listed);
    }
    (head + listed, after)
}

/// The average day that a card shows is that of all services that are ranked,
/// however many are listed.
pub proof fn lemma_digest_shows_the_total(
    history: Seq<SpendView>,
    setup_name: Seq<char>,
    min_avg_daily: Amount,
    max_display: nat,
)
    ensures
        ({
            let services = ranking(history, min_avg_daily);
            let shown = total(Seq::new(services.len(), |i: int| services[i].1));
            let text = joined(
                digest_lines(history, setup_name, min_avg_daily, max_display),
                "\n\n"@,
            );
            &&& occurs("Avg daily spend: **$"@ + two_decimals(shown) + "**"@, text)
            &&& digest_card(history, setup_name, min_avg_daily, max_display) == card_view(
                setup_name + ": Daily Digest"@,
                text,
            )
        }),
{
    let services = ranking(history, min_avg_daily);
    assert(averages(services) =~= Seq::new(services.len(), |i: int| services[i].1));
    let all = digest_lines(history, setup_name, min_avg_daily, max_display);
    lemma_each_is_joined(all, "\n\n"@, 0);
}

/// Those that are not listed are counted in one line, where there are any.
pub proof fn lemma_rest_of_a_card(count: nat, max_display: nat)
    ensures
        count <= max_display ==> rest_line(count, max_display) == Seq::<Seq<char>>::empty(),
        count > max_display ==> rest_line(count, max_display) == seq![
            "_...and "@ + decimal((count - max_display) as nat) + " more services_"@,
        ],
{
}

/// A card is a message with one attachment, an adaptive card, which has the
/// title in bold above the text.
pub proof fn lemma_card(title: Seq<char>, body: Seq<char>)
    ensures
        ({
            let above = JsonView::Object(
                seq![
                    ("type"@, JsonView::Text("TextBlock"@)),
                    ("text"@, JsonView::Text(title)),
                    ("size"@, JsonView::Text("large"@)),
                    ("weight"@, JsonView::Text("bolder"@)),
                ],
            );
            let below = JsonView::Object(
                seq![
                    ("type"@, JsonView::Text("TextBlock"@)),
                    ("text"@, JsonView::Text(body)),
                    ("wrap"@, JsonView::Bool(true)),
                ],
            );
            let content = JsonView::Object(
                seq![
                    (
                        "$schema"@,
                        JsonView::Text("http://adaptivecards.io/schemas/adaptive-card.json"@),
                    ),
                    ("type"@, JsonView::Text("AdaptiveCard"@)),
                    ("version"@, JsonView::Text("1.4"@)),
                    ("body"@, JsonView::List(seq![above, below])),
                ],
            );
            let attachment = JsonView::Object(
                seq![
                    ("contentType"@, JsonView::Text("application/vnd.microsoft.card.adaptive"@)),
                    ("content"@, content),
                ],
            );
            let card = card_view(title, body);
            &&& field_count(card) == 2
            &&& has_field(card, "type"@, JsonView::Text("message"@))
            &&& has_field(card, "attachments"@, JsonView::List(seq![attachment]))
        }),
{
    let fields = card_view(title, body)->Object_0;
    assert(fields.contains(fields[0]));
    assert(fields.contains(fields[1]));
}

} // verus!
