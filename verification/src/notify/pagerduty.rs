//! PagerDuty: an event about spikes. Digests are no incidents, so it gets none.

use super::format::{extras, total_extra};
use super::{Delivery, DeliveryView, NotifyChannel};
use crate::anomaly::{spikes_view, Spike, SpikeView};
use crate::config::{Config, ConfigView, PagerDutyConfig, PagerDutyView};
use crate::cost_explorer::{SpendHistory, SpendView};
use crate::json::{
    field, field_count, fields_view, has_field, object, text, with, Json, JsonView,
};
use crate::number::print::{two_decimals, write_cents};
use crate::number::sums::total;
use crate::text::{
    join, joined, lemma_nothing_added, lemma_occurs_behind, lemma_occurs_in_itself,
    lemma_put_together, occurs,
};
use vstd::prelude::*;

verus! {

pub const EVENTS_API: &'static str = "https://events.pagerduty.com/v2/enqueue";

#[derive(Debug)]
pub struct PagerDuty;

/// The names of the spikes after the first one, so many at most, the first one
/// counted.
pub open spec fn other_services(spikes: Seq<SpikeView>, max_display: nat) -> Seq<Seq<char>> {
    let count: nat = if spikes.len() < max_display {
        spikes.len()
    } else {
        max_display
    };
    Seq::new((count - 1) as nat, |i: int| spikes[i + 1].service)
}

/// The event in one line.
pub open spec fn summary_text(spikes: Seq<SpikeView>, max_display: nat) -> Seq<char> {
    let also = if spikes.len() > 1 {
        "Also: "@ + joined(other_services(spikes, max_display), ", "@) + ". "@
    } else {
        Seq::<char>::empty()
    };
    "AWS Cost Spike: "@ + spikes[0].service + " spiked $"@ + two_decimals(spikes[0].today) + " ($"@
        + two_decimals(spikes[0].extra_usd) + " extra). "@ + also + "Total extra: $"@
        + two_decimals(total(extras(spikes)))
}

fn write_others(spikes: &Vec<Spike>, max_display: usize) -> (r: String)
    requires
        spikes@.len() > 0,
        spikes@.len() > 1 ==> max_display > 0,
    ensures
        r@ == (if spikes@.len() > 1 {
            "Also: "@ + joined(other_services(spikes_view(spikes@), max_display as nat), ", "@)
                + ". "@
        } else {
            Seq::<char>::empty()
        }),
{
    if spikes.len() == 1 {
        let r: String = String::new();
        assert(r@ =~= Seq::<char>::empty());
        return r;
    }
    let count: usize = if spikes.len() < max_display {
        spikes.len()
    } else {
        max_display
    };
    let ghost names = other_services(spikes_view(spikes@), max_display as nat);
    let mut others: Vec<String> = Vec::new();
    let mut i: usize = 1;
    while i < count
        invariant
            1 <= i <= count <= spikes@.len(),
            others@.len() == i - 1,
            forall|k: int| 0 <= k < i - 1 ==> (#[trigger] others@[k])@ == spikes@[k + 1].service@,
        decreases count - i,
    {
        others.push(spikes[i].service.clone());
        i = i + 1;
    }
    assert(others.deep_view() =~= names);
    let mut out: String = "Also: ".to_string();
    out.append(join(&others, ", ").as_str());
    out.append(". ");
    out
}

pub fn build_summary(spikes: &Vec<Spike>, max_display: usize) -> (r: String)
    requires
        spikes@.len() > 0,
        spikes@.len() > 1 ==> max_display > 0,
    ensures
        r@ == summary_text(spikes_view(spikes@), max_display as nat),
{
    let mut summary: String = "AWS Cost Spike: ".to_string();
    summary.append(spikes[0].service.as_str());
    summary.append(" spiked $");
    summary.append(write_cents(spikes[0].today).as_str());
    summary.append(" ($");
    summary.append(write_cents(spikes[0].extra_usd).as_str());
    summary.append(" extra). ");
    summary.append(write_others(spikes, max_display).as_str());
    summary.append("Total extra: $");
    summary.append(write_cents(total_extra(spikes)).as_str());
    summary
}

pub open spec fn event_body(pagerduty: PagerDutyView, summary: Seq<char>) -> JsonView {
    JsonView::Object(
        seq![
            ("routing_key"@, JsonView::Text(pagerduty.routing_key)),
            ("event_action"@, JsonView::Text("trigger"@)),
            ("payload"@, event_payload(pagerduty, summary)),
        ],
    )
}

pub open spec fn event_payload(pagerduty: PagerDutyView, summary: Seq<char>) -> JsonView {
    JsonView::Object(
        seq![
            ("summary"@, JsonView::Text(summary)),
            ("severity"@, JsonView::Text(pagerduty.severity)),
            ("source"@, JsonView::Text("stackalert-lambda"@)),
            ("component"@, JsonView::Text("aws-cost-monitor"@)),
            ("group"@, JsonView::Text("cost-spikes"@)),
        ],
    )
}

/// The event as it is posted.
pub open spec fn event_view(pagerduty: PagerDutyView, summary: Seq<char>) -> DeliveryView {
    DeliveryView::Post {
        url: EVENTS_API@,
        body: event_body(pagerduty, summary),
        authorization: None,
    }
}

fn payload(pcfg: &PagerDutyConfig, summary: &str) -> (r: Json)
    ensures
        r@ == event_payload(pcfg.deep_view(), summary@),
{
    let fields = with(
        with(
            with(
                with(field("summary", text(summary)), "severity", text(pcfg.severity.as_str())),
                "source",
                text("stackalert-lambda"),
            ),
            "component",
            text("aws-cost-monitor"),
        ),
        "group",
        text("cost-spikes"),
    );
    assert(fields_view(fields@) =~= event_payload(pcfg.deep_view(), summary@)->Object_0);
    object(fields)
}

pub fn send_event(pcfg: &PagerDutyConfig, summary: &str) -> (r: Delivery)
    ensures
        r.deep_view() == event_view(pcfg.deep_view(), summary@),
{
    let fields = with(
        with(
            field("routing_key", text(pcfg.routing_key.as_str())),
            "event_action",
            text("trigger"),
        ),
        "payload",
        payload(pcfg, summary),
    );
    assert(fields_view(fields@) =~= event_body(pcfg.deep_view(), summary@)->Object_0);
    Delivery::Post { url: EVENTS_API.to_string(), body: object(fields), authorization: None }
}

impl NotifyChannel for PagerDuty {
    open spec fn label(&self) -> Seq<char> {
        "pagerduty"@
    }

    open spec fn can_alert(&self, cfg: ConfigView, count: nat) -> bool {
        cfg.pagerduty is Some && count > 1 ==> cfg.max_spike_display > 0
    }

    open spec fn alert(&self, cfg: ConfigView, spikes: Seq<SpikeView>, timestamp: Seq<char>) -> Result<
        Option<DeliveryView>,
        Seq<char>,
    > {
        if spikes.len() == 0 {
            Ok(None)
        } else {
            match cfg.pagerduty {
                None => Err("PagerDuty channel active but config missing"@),
                Some(pagerduty) => Ok(
                    Some(
                        event_view(pagerduty, summary_text(spikes, cfg.max_spike_display)),
                    ),
                ),
            }
        }
    }

    open spec fn digest(&self, cfg: ConfigView, history: Seq<SpendView>, timestamp: Seq<char>) -> Result<
        Option<DeliveryView>,
        Seq<char>,
    > {
        Ok(None)
    }

    open spec fn failure(&self, reason: Seq<char>) -> Seq<char> {
        "Failed to send PagerDuty event"@
    }

    fn name(&self) -> (r: &'static str) {
        "pagerduty"
    }

    fn send_spike_alert(&self, cfg: &Config, spikes: &Vec<Spike>, _timestamp: &str) -> (r: Result<
        Option<Delivery>,
        String,
    >) {
        if spikes.len() == 0 {
            return Ok(None);
        }
        match &cfg.pagerduty {
            None => Err("PagerDuty channel active but config missing".to_string()),
            Some(pcfg) => {
                let summary: String = build_summary(spikes, cfg.max_spike_display);
                Ok(Some(send_event(pcfg, summary.as_str())))
            },
        }
    }

    fn send_daily_digest(&self, _cfg: &Config, _spend_data: &SpendHistory, _timestamp: &str) -> (r:
        Result<Option<Delivery>, String>) {
        Ok(None)
    }

    fn failure_text(&self, _reason: &str) -> (r: String) {
        "Failed to send PagerDuty event".to_string()
    }
}

// ---- what holds of the events ------------------------------------------

/// The line in full. It tells the first spike, names the others up to the
/// number that is to be listed, and gives the total of what all of them cost
/// beyond the averages.
pub proof fn lemma_summary(spikes: Seq<SpikeView>, max_display: nat)
    requires
        spikes.len() > 0,
        spikes.len() > 1 ==> max_display > 0,
    ensures
        ({
            let sum = total(Seq::new(spikes.len(), |i: int| spikes[i].extra_usd));
            let named: nat = if spikes.len() < max_display {
                (spikes.len() - 1) as nat
            } else {
                (max_display - 1) as nat
            };
            let others = Seq::new(named, |i: int| spikes[i + 1].service);
            let top = "AWS Cost Spike: "@ + spikes[0].service + " spiked $"@ + two_decimals(
                spikes[0].today,
            ) + " ($"@ + two_decimals(spikes[0].extra_usd) + " extra). "@;
            &&& spikes.len() == 1 ==> summary_text(spikes, max_display) == top + "Total extra: $"@
                + two_decimals(sum)
            &&& spikes.len() > 1 ==> summary_text(spikes, max_display) == top + ("Also: "@ + joined(
                others,
                ", "@,
            ) + ". "@) + "Total extra: $"@ + two_decimals(sum)
        }),
{
    assert(extras(spikes) =~= Seq::new(spikes.len(), |i: int| spikes[i].extra_usd));
    if spikes.len() == 1 {
        lemma_nothing_added(
            "AWS Cost Spike: "@ + spikes[0].service + " spiked $"@ + two_decimals(spikes[0].today)
                + " ($"@ + two_decimals(spikes[0].extra_usd) + " extra). "@,
        );
    } else {
        let named: nat = if spikes.len() < max_display {
            (spikes.len() - 1) as nat
        } else {
            (max_display - 1) as nat
        };
        assert(other_services(spikes, max_display) =~= Seq::new(
            named,
            |i: int| spikes[i + 1].service,
        ));
    }
}

/// The total does not rest on how many spikes are named.
pub proof fn lemma_alert_shows_the_total(spikes: Seq<SpikeView>, max_display: nat)
    ensures
        ({
            let sum = total(Seq::new(spikes.len(), |i: int| spikes[i].extra_usd));
            occurs("Total extra: $"@ + two_decimals(sum), summary_text(spikes, max_display))
        }),
{
    assert(extras(spikes) =~= Seq::new(spikes.len(), |i: int| spikes[i].extra_usd));
    let sum = total(extras(spikes));
    let also = if spikes.len() > 1 {
        "Also: "@ + joined(other_services(spikes, max_display), ", "@) + ". "@
    } else {
        Seq::<char>::empty()
    };
    let head = "AWS Cost Spike: "@ + spikes[0].service + " spiked $"@ + two_decimals(
        spikes[0].today,
    ) + " ($"@ + two_decimals(spikes[0].extra_usd) + " extra). "@ + also;
    let part = "Total extra: $"@ + two_decimals(sum);
    lemma_occurs_in_itself(part);
    lemma_occurs_behind(part, head, part);
    lemma_put_together(head, "Total extra: $"@, two_decimals(sum));
}

/// An event triggers an incident under the configured key, with the configured
/// severity and the line that is given.
pub proof fn lemma_event(pagerduty: PagerDutyView, summary: Seq<char>)
    ensures
        ({
            let body = event_body(pagerduty, summary);
            let payload = event_payload(pagerduty, summary);
            &&& field_count(body) == 3
            &&& has_field(body, "routing_key"@, JsonView::Text(pagerduty.routing_key))
            &&& has_field(body, "event_action"@, JsonView::Text("trigger"@))
            &&& has_field(body, "payload"@, payload)
            &&& field_count(payload) == 5
            &&& has_field(payload, "summary"@, JsonView::Text(summary))
            &&& has_field(payload, "severity"@, JsonView::Text(pagerduty.severity))
            &&& has_field(payload, "source"@, JsonView::Text("stackalert-lambda"@))
            &&& has_field(payload, "component"@, JsonView::Text("aws-cost-monitor"@))
            &&& has_field(payload, "group"@, JsonView::Text("cost-spikes"@))
        }),
{
    let body = event_body(pagerduty, summary)->Object_0;
    let own = event_payload(pagerduty, summary)->Object_0;
    assert(body.contains(body[0]) && body.contains(body[1]) && body.contains(body[2]));
    assert(own.contains(own[0]) && own.contains(own[1]) && own.contains(own[2]));
    assert(own.contains(own[3]) && own.contains(own[4]));
}

} // verus!
