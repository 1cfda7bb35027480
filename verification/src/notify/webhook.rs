//! A webhook of one's own: the figures themselves, as JSON.

use super::format::{average, average_of, extras, total_extra};
use super::{Delivery, DeliveryView, NotifyChannel};
use crate::anomaly::{spikes_view, Spike, SpikeView};
use crate::config::{Config, ConfigView, WebhookConfig, WebhookView};
use crate::cost_explorer::{history_view, ServiceSpend, SpendHistory, SpendView};
use crate::json::{
    field, field_count, fields_view, has_field, items_view, list, number, number_view, object,
    text, with, Json, JsonView,
};
use crate::number::arithmetic::number_of;
use crate::number::sums::{total, total_of};
use crate::number::{zero, Amount};
use vstd::prelude::*;

verus! {

#[derive(Debug)]
pub struct Webhook;

/// A spike in a payload.
#[derive(Debug)]
pub struct SpikeEntry {
    pub service: String,
    pub avg_daily: Amount,
    pub today: Amount,
    pub pct_increase: Amount,
    pub extra_usd: Amount,
}

/// What is posted about spikes.
#[derive(Debug)]
pub struct SpikePayload {
    pub event_type: String,
    pub setup_name: String,
    pub timestamp: String,
    pub spikes: Vec<SpikeEntry>,
    pub total_extra_usd: Amount,
}

/// A service in a digest.
#[derive(Debug)]
pub struct DigestEntry {
    pub service: String,
    pub avg_daily: Amount,
    pub total: Amount,
}

/// What is posted as a digest.
#[derive(Debug)]
pub struct DigestPayload {
    pub event_type: String,
    pub setup_name: String,
    pub timestamp: String,
    pub services: Vec<DigestEntry>,
}

pub open spec fn spike_entry_view(entry: SpikeEntry) -> JsonView {
    JsonView::Object(
        seq![
            ("service"@, JsonView::Text(entry.service@)),
            ("avg_daily"@, number_view(entry.avg_daily)),
            ("today"@, number_view(entry.today)),
            ("pct_increase"@, number_view(entry.pct_increase)),
            ("extra_usd"@, number_view(entry.extra_usd)),
        ],
    )
}

pub open spec fn digest_entry_view(entry: DigestEntry) -> JsonView {
    JsonView::Object(
        seq![
            ("service"@, JsonView::Text(entry.service@)),
            ("avg_daily"@, number_view(entry.avg_daily)),
            ("total"@, number_view(entry.total)),
        ],
    )
}

impl SpikePayload {
    pub open spec fn json(self) -> JsonView {
        JsonView::Object(
            seq![
                ("event_type"@, JsonView::Text(self.event_type@)),
                ("setup_name"@, JsonView::Text(self.setup_name@)),
                ("timestamp"@, JsonView::Text(self.timestamp@)),
                (
                    "spikes"@,
                    JsonView::List(
                        Seq::new(
                            self.spikes@.len(),
                            |i: int| spike_entry_view(self.spikes@[i]),
                        ),
                    ),
                ),
                ("total_extra_usd"@, number_view(self.total_extra_usd)),
            ],
        )
    }

    pub fn to_json(&self) -> (r: Json)
        ensures
            r@ == self.json(),
    {
        let mut items: Vec<Json> = Vec::new();
        let mut i: usize = 0;
        while i < self.spikes.len()
            invariant
                i <= self.spikes@.len(),
                items@.len() == i,
                forall|k: int| 0 <= k < i ==> (#[trigger] items@[k])@ == spike_entry_view(
                    self.spikes@[k],
                ),
            decreases self.spikes@.len() - i,
        {
            items.push(spike_entry(&self.spikes[i]));
            i = i + 1;
        }
        assert(items_view(items@) =~= Seq::new(
            self.spikes@.len(),
            |i: int| spike_entry_view(self.spikes@[i]),
        ));
        let fields = with(
            with(
                with(
                    with(
                        field("event_type", text(self.event_type.as_str())),
                        "setup_name",
                        text(self.setup_name.as_str()),
                    ),
                    "timestamp",
                    text(self.timestamp.as_str()),
                ),
                "spikes",
                list(items),
            ),
            "total_extra_usd",
            number(self.total_extra_usd),
        );
        assert(fields_view(fields@) =~= self.json()->Object_0);
        object(fields)
    }
}

impl DigestPayload {
    pub open spec fn json(self) -> JsonView {
        JsonView::Object(
            seq![
                ("event_type"@, JsonView::Text(self.event_type@)),
                ("setup_name"@, JsonView::Text(self.setup_name@)),
                ("timestamp"@, JsonView::Text(self.timestamp@)),
                (
                    "services"@,
                    JsonView::List(
                        Seq::new(
                            self.services@.len(),
                            |i: int| digest_entry_view(self.services@[i]),
                        ),
                    ),
                ),
            ],
        )
    }

    pub fn to_json(&self) -> (r: Json)
        ensures
            r@ == self.json(),
    {
        let mut items: Vec<Json> = Vec::new();
        let mut i: usize = 0;
        while i < self.services.len()
            invariant
                i <= self.services@.len(),
                items@.len() == i,
                forall|k: int| 0 <= k < i ==> (#[trigger] items@[k])@ == digest_entry_view(
                    self.services@[k],
                ),
            decreases self.services@.len() - i,
        {
            items.push(digest_entry(&self.services[i]));
            i = i + 1;
        }
        assert(items_view(items@) =~= Seq::new(
            self.services@.len(),
            |i: int| digest_entry_view(self.services@[i]),
        ));
        let fields = with(
            with(
                with(
                    field("event_type", text(self.event_type.as_str())),
                    "setup_name",
                    text(self.setup_name.as_str()),
                ),
                "timestamp",
                text(self.timestamp.as_str()),
            ),
            "services",
            list(items),
        );
        assert(fields_view(fields@) =~= self.json()->Object_0);
        object(fields)
    }
}

fn spike_entry(entry: &SpikeEntry) -> (r: Json)
    ensures
        r@ == spike_entry_view(*entry),
{
    let fields = with(
        with(
            with(
                with(
                    field("service", text(entry.service.as_str())),
                    "avg_daily",
                    number(entry.avg_daily),
                ),
                "today",
                number(entry.today),
            ),
            "pct_increase",
            number(entry.pct_increase),
        ),
        "extra_usd",
        number(entry.extra_usd),
    );
    assert(fields_view(fields@) =~= spike_entry_view(*entry)->Object_0);
    object(fields)
}

fn digest_entry(entry: &DigestEntry) -> (r: Json)
    ensures
        r@ == digest_entry_view(*entry),
{
    let fields = with(
        with(
            field("service", text(entry.service.as_str())),
            "avg_daily",
            number(entry.avg_daily),
        ),
        "total",
        number(entry.total),
    );
    assert(fields_view(fields@) =~= digest_entry_view(*entry)->Object_0);
    object(fields)
}

/// A spike as it stands in a payload.
pub open spec fn spike_json(spike: SpikeView) -> JsonView {
    JsonView::Object(
        seq![
            ("service"@, JsonView::Text(spike.service)),
            ("avg_daily"@, number_view(spike.avg_daily)),
            ("today"@, number_view(spike.today)),
            ("pct_increase"@, number_view(spike.pct_increase)),
            ("extra_usd"@, number_view(spike.extra_usd)),
        ],
    )
}

/// A service as it stands in a digest: its average and its total.
pub open spec fn spend_json(spend: SpendView) -> JsonView {
    JsonView::Object(
        seq![
            ("service"@, JsonView::Text(spend.service)),
            ("avg_daily"@, number_view(average(spend.costs))),
            ("total"@, number_view(total(spend.costs))),
        ],
    )
}

/// What is posted about spikes.
pub open spec fn alert_json(
    setup_name: Seq<char>,
    timestamp: Seq<char>,
    spikes: Seq<SpikeView>,
) -> JsonView {
    JsonView::Object(
        seq![
            ("event_type"@, JsonView::Text("spike_alert"@)),
            ("setup_name"@, JsonView::Text(setup_name)),
            ("timestamp"@, JsonView::Text(timestamp)),
            ("spikes"@, JsonView::List(Seq::new(spikes.len(), |i: int| spike_json(spikes[i])))),
            ("total_extra_usd"@, number_view(total(extras(spikes)))),
        ],
    )
}

/// What is posted as a digest. All services are in it.
pub open spec fn digest_json(
    setup_name: Seq<char>,
    timestamp: Seq<char>,
    history: Seq<SpendView>,
) -> JsonView {
    JsonView::Object(
        seq![
            ("event_type"@, JsonView::Text("daily_digest"@)),
            ("setup_name"@, JsonView::Text(setup_name)),
            ("timestamp"@, JsonView::Text(timestamp)),
            (
                "services"@,
                JsonView::List(Seq::new(history.len(), |i: int| spend_json(history[i]))),
            ),
        ],
    )
}

pub fn build_spike_payload(spikes: &Vec<Spike>, setup_name: &str, timestamp: &str) -> (r:
    SpikePayload)
    ensures
        r.json() == alert_json(setup_name@, timestamp@, spikes_view(spikes@)),
{
    let mut entries: Vec<SpikeEntry> = Vec::new();
    let mut i: usize = 0;
    while i < spikes.len()
        invariant
            i <= spikes@.len(),
            entries@.len() == i,
            forall|k: int|
                0 <= k < i ==> spike_entry_view(#[trigger] entries@[k]) == spike_json(
                    spikes@[k]@,
                ),
        decreases spikes@.len() - i,
    {
        entries.push(
            SpikeEntry {
                service: spikes[i].service.clone(),
                avg_daily: spikes[i].avg_daily,
                today: spikes[i].today,
                pct_increase: spikes[i].pct_increase,
                extra_usd: spikes[i].extra_usd,
            },
        );
        i = i + 1;
    }
    let payload: SpikePayload = SpikePayload {
        event_type: "spike_alert".to_string(),
        setup_name: setup_name.to_string(),
        timestamp: timestamp.to_string(),
        spikes: entries,
        total_extra_usd: total_extra(spikes),
    };
    assert(Seq::new(payload.spikes@.len(), |i: int| spike_entry_view(payload.spikes@[i]))
        =~= Seq::new(spikes_view(spikes@).len(), |i: int| spike_json(spikes_view(spikes@)[i])));
    payload
}

pub fn build_digest_payload(spend_data: &SpendHistory, setup_name: &str, timestamp: &str) -> (r:
    DigestPayload)
    ensures
        r.json() == digest_json(setup_name@, timestamp@, history_view(spend_data@)),
{
    let mut entries: Vec<DigestEntry> = Vec::new();
    let mut i: usize = 0;
    while i < spend_data.len()
        invariant
            i <= spend_data@.len(),
            entries@.len() == i,
            forall|k: int|
                0 <= k < i ==> digest_entry_view(#[trigger] entries@[k]) == spend_json(
                    spend_data@[k]@,
                ),
        decreases spend_data@.len() - i,
    {
        let spend: &ServiceSpend = &spend_data[i];
        entries.push(
            DigestEntry {
                service: spend.service.clone(),
                avg_daily: average_of(&spend.costs),
                total: total_of(&spend.costs),
            },
        );
        i = i + 1;
    }
    let payload: DigestPayload = DigestPayload {
        event_type: "daily_digest".to_string(),
        setup_name: setup_name.to_string(),
        timestamp: timestamp.to_string(),
        services: entries,
    };
    assert(Seq::new(payload.services@.len(), |i: int| digest_entry_view(payload.services@[i]))
        =~= Seq::new(
        history_view(spend_data@).len(),
        |i: int| spend_json(history_view(spend_data@)[i]),
    ));
    payload
}

/// The payload as it is posted, with the header for authorization where one is
/// configured.
pub open spec fn payload_view(webhook: WebhookView, payload: JsonView) -> DeliveryView {
    DeliveryView::Post {
        url: webhook.url,
        body: payload,
        authorization: webhook.auth_header,
    }
}

pub fn send_webhook(wcfg: &WebhookConfig, payload: Json) -> (r: Delivery)
    ensures
        r.deep_view() == payload_view(wcfg.deep_view(), payload@),
{
    let authorization: Option<String> = match &wcfg.auth_header {
        Some(header) => Some(header.clone()),
        None => None,
    };
    Delivery::Post { url: wcfg.url.clone(), body: payload, authorization }
}

impl NotifyChannel for Webhook {
    open spec fn label(&self) -> Seq<char> {
        "webhook"@
    }

    open spec fn can_alert(&self, cfg: ConfigView, count: nat) -> bool {
        true
    }

    open spec fn alert(&self, cfg: ConfigView, spikes: Seq<SpikeView>, timestamp: Seq<char>) -> Result<
        Option<DeliveryView>,
        Seq<char>,
    > {
        if spikes.len() == 0 {
            Ok(None)
        } else {
            match cfg.webhook {
                None => Err("Webhook channel active but config missing"@),
                Some(webhook) => Ok(
                    Some(
                        payload_view(webhook, alert_json(cfg.setup_name, timestamp, spikes)),
                    ),
                ),
            }
        }
    }

    open spec fn digest(&self, cfg: ConfigView, history: Seq<SpendView>, timestamp: Seq<char>) -> Result<
        Option<DeliveryView>,
        Seq<char>,
    > {
        match cfg.webhook {
            None => Err("Webhook channel active but config missing"@),
            Some(webhook) => Ok(
                Some(
                    payload_view(webhook, digest_json(cfg.setup_name, timestamp, history)),
                ),
            ),
        }
    }

    open spec fn failure(&self, reason: Seq<char>) -> Seq<char> {
        "Failed to send webhook"@
    }

    fn name(&self) -> (r: &'static str) {
        "webhook"
    }

    fn send_spike_alert(&self, cfg: &Config, spikes: &Vec<Spike>, timestamp: &str) -> (r: Result<
        Option<Delivery>,
        String,
    >) {
        if spikes.len() == 0 {
            return Ok(None);
        }
        match &cfg.webhook {
            None => Err("Webhook channel active but config missing".to_string()),
            Some(wcfg) => {
                let payload: SpikePayload = build_spike_payload(
                    spikes,
                    cfg.setup_name.as_str(),
                    timestamp,
                );
                Ok(Some(send_webhook(wcfg, payload.to_json())))
            },
        }
    }

    fn send_daily_digest(&self, cfg: &Config, spend_data: &SpendHistory, timestamp: &str) -> (r:
        Result<Option<Delivery>, String>) {
        match &cfg.webhook {
            None => Err("Webhook channel active but config missing".to_string()),
            Some(wcfg) => {
                let payload: DigestPayload = build_digest_payload(
                    spend_data,
                    cfg.setup_name.as_str(),
                    timestamp,
                );
                Ok(Some(send_webhook(wcfg, payload.to_json())))
            },
        }
    }

    fn failure_text(&self, _reason: &str) -> (r: String) {
        "Failed to send webhook".to_string()
    }
}

// ---- what holds of the payloads ----------------------------------------

/// An alert has all spikes in it, each with its own figures and in their order,
/// and the total of what all of them cost beyond the averages.
pub proof fn lemma_alert_has_every_spike(
    setup_name: Seq<char>,
    timestamp: Seq<char>,
    spikes: Seq<SpikeView>,
) -> (listed: Seq<JsonView>)
    ensures
        ({
            let json = alert_json(setup_name, timestamp, spikes);
            let sum = total(Seq::new(spikes.len(), |i: int| spikes[i].extra_usd));
            &&& field_count(json) == 5
            &&& has_field(json, "event_type"@, JsonView::Text("spike_alert"@))
            &&& has_field(json, "setup_name"@, JsonView::Text(setup_name))
            &&& has_field(json, "timestamp"@, JsonView::Text(timestamp))
            &&& has_field(json, "total_extra_usd"@, number_view(sum))
            &&& has_field(json, "spikes"@, JsonView::List(listed))
        }),
        listed.len() == spikes.len(),
        forall|i: int| #![trigger listed[i]]
            0 <= i < spikes.len() ==> {
                &&& field_count(listed[i]) == 5
                &&& has_field(listed[i], "service"@, JsonView::Text(spikes[i].service))
                &&& has_field(listed[i], "avg_daily"@, number_view(spikes[i].avg_daily))
                &&& has_field(listed[i], "today"@, number_view(spikes[i].today))
                &&& has_field(listed[i], "pct_increase"@, number_view(spikes[i].pct_increase))
                &&& has_field(listed[i], "extra_usd"@, number_view(spikes[i].extra_usd))
            },
{
    assert(extras(spikes) =~= Seq::new(spikes.len(), |i: int| spikes[i].extra_usd));
    let fields = alert_json(setup_name, timestamp, spikes)->Object_0;
    assert(fields.contains(fields[0]) && fields.contains(fields[1]) && fields.contains(fields[2]));
    assert(fields.contains(fields[3]) && fields.contains(fields[4]));
    let listed = Seq::new(spikes.len(), |i: int| spike_json(spikes[i]));
    assert forall|i: int| #![trigger listed[i]] 0 <= i < spikes.len() implies {
        &&& field_count(listed[i]) == 5
        &&& has_field(listed[i], "service"@, JsonView::Text(spikes[i].service))
        &&& has_field(listed[i], "avg_daily"@, number_view(spikes[i].avg_daily))
        &&& has_field(listed[i], "today"@, number_view(spikes[i].today))
        &&& has_field(listed[i], "pct_increase"@, number_view(spikes[i].pct_increase))
        &&& has_field(listed[i], "extra_usd"@, number_view(spikes[i].extra_usd))
    } by {
        let own = listed[i]->Object_0;
        assert(own.contains(own[0]) && own.contains(own[1]) && own.contains(own[2]));
        assert(own.contains(own[3]) && own.contains(own[4]));
    }
    listed
}

/// A digest has all services in it, in their order, each with the total of its
/// costs and with that total over the number of its days, or zero where it has
/// none.
pub proof fn lemma_digest_has_every_service(
    setup_name: Seq<char>,
    timestamp: Seq<char>,
    history: Seq<SpendView>,
) -> (listed: Seq<JsonView>)
    ensures
        ({
            let json = digest_json(setup_name, timestamp, history);
            &&& field_count(json) == 4
            &&& has_field(json, "event_type"@, JsonView::Text("daily_digest"@))
            &&& has_field(json, "setup_name"@, JsonView::Text(setup_name))
            &&& has_field(json, "timestamp"@, JsonView::Text(timestamp))
            &&& has_field(json, "services"@, JsonView::List(listed))
        }),
        listed.len() == history.len(),
        forall|i: int| #![trigger listed[i]]
            0 <= i < history.len() ==> {
                let costs = history[i].costs;
                &&& field_count(listed[i]) == 3
                &&& has_field(listed[i], "service"@, JsonView::Text(history[i].service))
                &&& costs.len() > 0 ==> has_field(
                    listed[i],
                    "avg_daily"@,
                    number_view(total(costs).quotient(number_of(costs.len()))),
                )
                &&& costs.len() == 0 ==> has_field(listed[i], "avg_daily"@, number_view(zero()))
                &&& has_field(listed[i], "total"@, number_view(total(costs)))
            },
{
    let fields = digest_json(setup_name, timestamp, history)->Object_0;
    assert(fields.contains(fields[0]) && fields.contains(fields[1]));
    assert(fields.contains(fields[2]) && fields.contains(fields[3]));
    let listed = Seq::new(history.len(), |i: int| spend_json(history[i]));
    assert forall|i: int| #![trigger listed[i]] 0 <= i < history.len() implies {
        let costs = history[i].costs;
        &&& field_count(listed[i]) == 3
        &&& has_field(listed[i], "service"@, JsonView::Text(history[i].service))
        &&& costs.len() > 0 ==> has_field(
            listed[i],
            "avg_daily"@,
            number_view(total(costs).quotient(number_of(costs.len()))),
        )
        &&& costs.len() == 0 ==> has_field(listed[i], "avg_daily"@, number_view(zero()))
        &&& has_field(listed[i], "total"@, number_view(total(costs)))
    } by {
        let own = listed[i]->Object_0;
        assert(own.contains(own[0]) && own.contains(own[1]) && own.contains(own[2]));
    }
    listed
}

} // verus!
