//! Telling the channels.
//!
//! A channel says what is to be sent, or that nothing is, or that it cannot
//! tell. What comes back from sending makes the channel's result.

pub mod format;
pub mod pagerduty;
pub mod ses;
pub mod slack;
pub mod sns;
pub mod teams;
pub mod telegram;
pub mod webhook;

use crate::anomaly::{spikes_view, Spike, SpikeView};
use crate::config::{known_channel, Config, ConfigView};
use crate::cost_explorer::{history_view, SpendHistory, SpendView};
use crate::json::{field_count, has_field, Json, JsonView};
use crate::number::print::two_decimals;
use crate::text::same;
use pagerduty::PagerDuty;
use ses::Ses;
use slack::Slack;
use sns::Sns;
use teams::Teams;
use telegram::Telegram;
use vstd::prelude::*;
use webhook::Webhook;

verus! {

/// Something to send.
#[derive(Debug)]
pub enum Delivery {
    /// A JSON body to post.
    Post { url: String, body: Json, authorization: Option<String> },
    /// An email in HTML.
    Email { from: String, to: Vec<String>, subject: String, html: String },
    /// A message to publish to a topic.
    Publish { topic_arn: String, subject: String, message: String },
}

/// Something to send, in the abstract.
pub enum DeliveryView {
    Post { url: Seq<char>, body: JsonView, authorization: Option<Seq<char>> },
    Email { from: Seq<char>, to: Seq<Seq<char>>, subject: Seq<char>, html: Seq<char> },
    Publish { topic_arn: Seq<char>, subject: Seq<char>, message: Seq<char> },
}

impl DeepView for Delivery {
    type V = DeliveryView;

    open spec fn deep_view(&self) -> DeliveryView {
        match self {
            Delivery::Post { url, body, authorization } => DeliveryView::Post {
                url: url@,
                body: body@,
                authorization: authorization.deep_view(),
            },
            Delivery::Email { from, to, subject, html } => DeliveryView::Email {
                from: from@,
                to: to.deep_view(),
                subject: subject@,
                html: html@,
            },
            Delivery::Publish { topic_arn, subject, message } => DeliveryView::Publish {
                topic_arn: topic_arn@,
                subject: subject@,
                message: message@,
            },
        }
    }
}

/// What a channel makes of an occasion, in the abstract: something to send,
/// nothing, or what is wrong.
pub open spec fn plan_view(plan: Result<Option<Delivery>, String>) -> Result<
    Option<DeliveryView>,
    Seq<char>,
> {
    match plan {
        Ok(delivery) => Ok(delivery.deep_view()),
        Err(error) => Err(error@),
    }
}

/// A channel that can tell of spikes and send digests.
pub trait NotifyChannel {
    spec fn label(&self) -> Seq<char>;

    /// Whether the channel can tell of so many spikes.
    spec fn can_alert(&self, cfg: ConfigView, count: nat) -> bool;

    /// What the channel sends about spikes.
    spec fn alert(&self, cfg: ConfigView, spikes: Seq<SpikeView>, timestamp: Seq<char>) -> Result<
        Option<DeliveryView>,
        Seq<char>,
    >;

    /// What the channel sends as a digest.
    spec fn digest(&self, cfg: ConfigView, history: Seq<SpendView>, timestamp: Seq<char>) -> Result<
        Option<DeliveryView>,
        Seq<char>,
    >;

    /// What is said when sending has failed.
    spec fn failure(&self, reason: Seq<char>) -> Seq<char>;

    fn name(&self) -> (r: &'static str)
        ensures
            r@ == self.label(),
    ;

    /// What to send about spikes. `timestamp` is the time, for those who want
    /// to have it.
    fn send_spike_alert(&self, cfg: &Config, spikes: &Vec<Spike>, timestamp: &str) -> (r: Result<
        Option<Delivery>,
        String,
    >)
        requires
            self.can_alert(cfg.deep_view(), spikes@.len()),
        ensures
            plan_view(r) == self.alert(cfg.deep_view(), spikes_view(spikes@), timestamp@),
    ;

    /// What to send as a digest.
    fn send_daily_digest(&self, cfg: &Config, spend_data: &SpendHistory, timestamp: &str) -> (r:
        Result<Option<Delivery>, String>)
        ensures
            plan_view(r) == self.digest(cfg.deep_view(), history_view(spend_data@), timestamp@),
    ;

    fn failure_text(&self, reason: &str) -> (r: String)
        ensures
            r@ == self.failure(reason@),
    ;
}

// ---- the channels that there are ---------------------------------------

/// One of the channels.
#[derive(Clone, Copy, Debug, PartialEq, Eq, Structural)]
pub enum Channel {
    Telegram,
    Slack,
    Teams,
    PagerDuty,
    Webhook,
    Ses,
    Sns,
}

impl NotifyChannel for Channel {
    open spec fn label(&self) -> Seq<char> {
        match self {
            Channel::Telegram => Telegram.label(),
            Channel::Slack => Slack.label(),
            Channel::Teams => Teams.label(),
            Channel::PagerDuty => PagerDuty.label(),
            Channel::Webhook => Webhook.label(),
            Channel::Ses => Ses.label(),
            Channel::Sns => Sns.label(),
        }
    }

    open spec fn can_alert(&self, cfg: ConfigView, count: nat) -> bool {
        match self {
            Channel::Telegram => Telegram.can_alert(cfg, count),
            Channel::Slack => Slack.can_alert(cfg, count),
            Channel::Teams => Teams.can_alert(cfg, count),
            Channel::PagerDuty => PagerDuty.can_alert(cfg, count),
            Channel::Webhook => Webhook.can_alert(cfg, count),
            Channel::Ses => Ses.can_alert(cfg, count),
            Channel::Sns => Sns.can_alert(cfg, count),
        }
    }

    open spec fn alert(&self, cfg: ConfigView, spikes: Seq<SpikeView>, timestamp: Seq<char>) -> Result<
        Option<DeliveryView>,
        Seq<char>,
    > {
        match self {
            Channel::Telegram => Telegram.alert(cfg, spikes, timestamp),
            Channel::Slack => Slack.alert(cfg, spikes, timestamp),
            Channel::Teams => Teams.alert(cfg, spikes, timestamp),
            Channel::PagerDuty => PagerDuty.alert(cfg, spikes, timestamp),
            Channel::Webhook => Webhook.alert(cfg, spikes, timestamp),
            Channel::Ses => Ses.alert(cfg, spikes, timestamp),
            Channel::Sns => Sns.alert(cfg, spikes, timestamp),
        }
    }

    open spec fn digest(&self, cfg: ConfigView, history: Seq<SpendView>, timestamp: Seq<char>) -> Result<
        Option<DeliveryView>,
        Seq<char>,
    > {
        match self {
            Channel::Telegram => Telegram.digest(cfg, history, timestamp),
            Channel::Slack => Slack.digest(cfg, history, timestamp),
            Channel::Teams => Teams.digest(cfg, history, timestamp),
            Channel::PagerDuty => PagerDuty.digest(cfg, history, timestamp),
            Channel::Webhook => Webhook.digest(cfg, history, timestamp),
            Channel::Ses => Ses.digest(cfg, history, timestamp),
            Channel::Sns => Sns.digest(cfg, history, timestamp),
        }
    }

    open spec fn failure(&self, reason: Seq<char>) -> Seq<char> {
        match self {
            Channel::Telegram => Telegram.failure(reason),
            Channel::Slack => Slack.failure(reason),
            Channel::Teams => Teams.failure(reason),
            Channel::PagerDuty => PagerDuty.failure(reason),
            Channel::Webhook => Webhook.failure(reason),
            Channel::Ses => Ses.failure(reason),
            Channel::Sns => Sns.failure(reason),
        }
    }

    fn name(&self) -> (r: &'static str) {
        match self {
            Channel::Telegram => Telegram.name(),
            Channel::Slack => Slack.name(),
            Channel::Teams => Teams.name(),
            Channel::PagerDuty => PagerDuty.name(),
            Channel::Webhook => Webhook.name(),
            Channel::Ses => Ses.name(),
            Channel::Sns => Sns.name(),
        }
    }

    fn send_spike_alert(&self, cfg: &Config, spikes: &Vec<Spike>, timestamp: &str) -> (r: Result<
        Option<Delivery>,
        String,
    >) {
        match self {
            Channel::Telegram => Telegram.send_spike_alert(cfg, spikes, timestamp),
            Channel::Slack => Slack.send_spike_alert(cfg, spikes, timestamp),
            Channel::Teams => Teams.send_spike_alert(cfg, spikes, timestamp),
            Channel::PagerDuty => PagerDuty.send_spike_alert(cfg, spikes, timestamp),
            Channel::Webhook => Webhook.send_spike_alert(cfg, spikes, timestamp),
            Channel::Ses => Ses.send_spike_alert(cfg, spikes, timestamp),
            Channel::Sns => Sns.send_spike_alert(cfg, spikes, timestamp),
        }
    }

    fn send_daily_digest(&self, cfg: &Config, spend_data: &SpendHistory, timestamp: &str) -> (r:
        Result<Option<Delivery>, String>) {
        match self {
            Channel::Telegram => Telegram.send_daily_digest(cfg, spend_data, timestamp),
            Channel::Slack => Slack.send_daily_digest(cfg, spend_data, timestamp),
            Channel::Teams => Teams.send_daily_digest(cfg, spend_data, timestamp),
            Channel::PagerDuty => PagerDuty.send_daily_digest(cfg, spend_data, timestamp),
            Channel::Webhook => Webhook.send_daily_digest(cfg, spend_data, timestamp),
            Channel::Ses => Ses.send_daily_digest(cfg, spend_data, timestamp),
            Channel::Sns => Sns.send_daily_digest(cfg, spend_data, timestamp),
        }
    }

    fn failure_text(&self, reason: &str) -> (r: String) {
        match self {
            Channel::Telegram => Telegram.failure_text(reason),
            Channel::Slack => Slack.failure_text(reason),
            Channel::Teams => Teams.failure_text(reason),
            Channel::PagerDuty => PagerDuty.failure_text(reason),
            Channel::Webhook => Webhook.failure_text(reason),
            Channel::Ses => Ses.failure_text(reason),
            Channel::Sns => Sns.failure_text(reason),
        }
    }
}

/// The channel of a name.
pub open spec fn channel_named(name: Seq<char>) -> Option<Channel> {
    if name == "telegram"@ {
        Some(Channel::Telegram)
    } else if name == "slack"@ {
        Some(Channel::Slack)
    } else if name == "teams"@ {
        Some(Channel::Teams)
    } else if name == "pagerduty"@ {
        Some(Channel::PagerDuty)
    } else if name == "webhook"@ {
        Some(Channel::Webhook)
    } else if name == "ses"@ {
        Some(Channel::Ses)
    } else if name == "sns"@ {
        Some(Channel::Sns)
    } else {
        None
    }
}

/// The channels of a list of names. Names of no channel are passed over.
pub open spec fn channels_named(names: Seq<Seq<char>>) -> Seq<Channel>
    decreases names.len(),
{
    if names.len() == 0 {
        Seq::<Channel>::empty()
    } else {
        match channel_named(names.last()) {
            Some(channel) => channels_named(names.drop_last()).push(channel),
            None => channels_named(names.drop_last()),
        }
    }
}

fn find_channel(name: &str) -> (r: Option<Channel>)
    ensures
        r == channel_named(name@),
{
    if same(name, "telegram") {
        Some(Channel::Telegram)
    } else if same(name, "slack") {
        Some(Channel::Slack)
    } else if same(name, "teams") {
        Some(Channel::Teams)
    } else if same(name, "pagerduty") {
        Some(Channel::PagerDuty)
    } else if same(name, "webhook") {
        Some(Channel::Webhook)
    } else if same(name, "ses") {
        Some(Channel::Ses)
    } else if same(name, "sns") {
        Some(Channel::Sns)
    } else {
        None
    }
}

/// The channels that are configured, in the order in which they are listed.
pub fn build_channels(cfg: &Config) -> (r: Vec<Channel>)
    ensures
        r@ == channels_named(cfg.deep_view().notify_channels),
{
    let ghost all = cfg.notify_channels.deep_view();
    let mut channels: Vec<Channel> = Vec::new();
    let mut i: usize = 0;
    assert(channels@ =~= channels_named(all.take(0)));
    while i < cfg.notify_channels.len()
        invariant
            i <= cfg.notify_channels@.len(),
            all == cfg.notify_channels.deep_view(),
            channels@ == channels_named(all.take(i as int)),
        decreases cfg.notify_channels@.len() - i,
    {
        assert(all.take(i + 1).drop_last() =~= all.take(i as int));
        assert(all.take(i + 1).last() == cfg.notify_channels@[i as int]@);
        match find_channel(cfg.notify_channels[i].as_str()) {
            Some(channel) => {
                channels.push(channel);
            },
            None => {},
        }
        i = i + 1;
    }
    assert(all.take(cfg.notify_channels@.len() as int) =~= all);
    channels
}

// ---- telling all of them -----------------------------------------------

/// What one channel makes of an occasion.
#[derive(Debug)]
pub struct Plan {
    pub channel: Channel,
    pub step: Result<Option<Delivery>, String>,
}

pub struct PlanView {
    pub channel: Channel,
    pub step: Result<Option<DeliveryView>, Seq<char>>,
}

impl DeepView for Plan {
    type V = PlanView;

    open spec fn deep_view(&self) -> PlanView {
        PlanView { channel: self.channel, step: plan_view(self.step) }
    }
}

/// Whether all channels can tell of so many spikes.
pub open spec fn all_can_alert(channels: Seq<Channel>, cfg: ConfigView, count: nat) -> bool {
    forall|i: int| 0 <= i < channels.len() ==> (#[trigger] channels[i]).can_alert(cfg, count)
}

/// Whether all channels can tell of so many spikes. PagerDuty, where it is set
/// up, cannot tell of more than one where none is to be listed.
pub fn are_able_to_alert(channels: &Vec<Channel>, cfg: &Config, count: usize) -> (r: bool)
    ensures
        r == all_can_alert(channels@, cfg.deep_view(), count as nat),
{
    let mut i: usize = 0;
    while i < channels.len()
        invariant
            i <= channels@.len(),
            forall|k: int|
                0 <= k < i ==> (#[trigger] channels@[k]).can_alert(cfg.deep_view(), count as nat),
        decreases channels@.len() - i,
    {
        let able: bool = match channels[i] {
            Channel::PagerDuty => cfg.pagerduty.is_none() || count <= 1 || cfg.max_spike_display
                > 0,
            _ => true,
        };
        assert(able == channels@[i as int].can_alert(cfg.deep_view(), count as nat));
        if !able {
            return false;
        }
        i = i + 1;
    }
    true
}

/// What the channels send about spikes, each on its own.
pub open spec fn alert_plans(
    channels: Seq<Channel>,
    cfg: ConfigView,
    spikes: Seq<SpikeView>,
    timestamp: Seq<char>,
) -> Seq<PlanView> {
    Seq::new(
        channels.len(),
        |i: int|
            PlanView { channel: channels[i], step: channels[i].alert(cfg, spikes, timestamp) },
    )
}

/// What the channels send as a digest, each on its own.
pub open spec fn digest_plans(
    channels: Seq<Channel>,
    cfg: ConfigView,
    history: Seq<SpendView>,
    timestamp: Seq<char>,
) -> Seq<PlanView> {
    Seq::new(
        channels.len(),
        |i: int|
            PlanView { channel: channels[i], step: channels[i].digest(cfg, history, timestamp) },
    )
}

/// What all channels send about spikes. None of them stops another.
pub fn fan_out_spike_alert(
    channels: &Vec<Channel>,
    cfg: &Config,
    spikes: &Vec<Spike>,
    timestamp: &str,
) -> (r: Vec<Plan>)
    requires
        all_can_alert(channels@, cfg.deep_view(), spikes@.len()),
    ensures
        r.deep_view() == alert_plans(
            channels@,
            cfg.deep_view(),
            spikes_view(spikes@),
            timestamp@,
        ),
{
    let ghost all = alert_plans(channels@, cfg.deep_view(), spikes_view(spikes@), timestamp@);
    let mut plans: Vec<Plan> = Vec::new();
    let mut i: usize = 0;
    while i < channels.len()
        invariant
            i <= channels@.len(),
            all_can_alert(channels@, cfg.deep_view(), spikes@.len()),
            all == alert_plans(channels@, cfg.deep_view(), spikes_view(spikes@), timestamp@),
            plans@.len() == i,
            forall|k: int| 0 <= k < i ==> (#[trigger] plans@[k]).deep_view() == all[k],
        decreases channels@.len() - i,
    {
        let channel: Channel = channels[i];
        assert(channels@[i as int].can_alert(cfg.deep_view(), spikes@.len()));
        plans.push(Plan { channel, step: channel.send_spike_alert(cfg, spikes, timestamp) });
        i = i + 1;
    }
    assert(plans.deep_view() =~= all);
    plans
}

/// What all channels send as a digest. None of them stops another.
pub fn fan_out_daily_digest(
    channels: &Vec<Channel>,
    cfg: &Config,
    spend_data: &SpendHistory,
    timestamp: &str,
) -> (r: Vec<Plan>)
    ensures
        r.deep_view() == digest_plans(
            channels@,
            cfg.deep_view(),
            history_view(spend_data@),
            timestamp@,
        ),
{
    let ghost all = digest_plans(
        channels@,
        cfg.deep_view(),
        history_view(spend_data@),
        timestamp@,
    );
    let mut plans: Vec<Plan> = Vec::new();
    let mut i: usize = 0;
    while i < channels.len()
        invariant
            i <= channels@.len(),
            all == digest_plans(
                channels@,
                cfg.deep_view(),
                history_view(spend_data@),
                timestamp@,
            ),
            plans@.len() == i,
            forall|k: int| 0 <= k < i ==> (#[trigger] plans@[k]).deep_view() == all[k],
        decreases channels@.len() - i,
    {
        let channel: Channel = channels[i];
        plans.push(Plan { channel, step: channel.send_daily_digest(cfg, spend_data, timestamp) });
        i = i + 1;
    }
    assert(plans.deep_view() =~= all);
    plans
}

// ---- what comes back ---------------------------------------------------

/// What came back from sending something.
#[derive(Debug)]
pub enum Reply {
    /// An HTTP status.
    Status(u16),
    /// A service took it.
    Accepted,
    /// It could not be put together, and what part of it.
    Unmade(String),
    /// It could not be sent, and why.
    Failed(String),
}

pub enum ReplyView {
    Status(int),
    Accepted,
    Unmade(Seq<char>),
    Failed(Seq<char>),
}

impl DeepView for Reply {
    type V = ReplyView;

    open spec fn deep_view(&self) -> ReplyView {
        match self {
            Reply::Status(status) => ReplyView::Status(*status as int),
            Reply::Accepted => ReplyView::Accepted,
            Reply::Unmade(part) => ReplyView::Unmade(part@),
            Reply::Failed(reason) => ReplyView::Failed(reason@),
        }
    }
}

/// What came of telling one channel.
#[derive(Debug)]
pub struct ChannelResult {
    pub channel: &'static str,
    pub sent: bool,
    pub error: Option<String>,
}

pub struct ResultView {
    pub channel: Seq<char>,
    pub sent: bool,
    pub error: Option<Seq<char>>,
}

impl DeepView for ChannelResult {
    type V = ResultView;

    open spec fn deep_view(&self) -> ResultView {
        ResultView {
            channel: self.channel@,
            sent: self.sent,
            error: self.error.deep_view(),
        }
    }
}

/// Whether something is to be sent.
pub open spec fn sends(plan: PlanView) -> bool {
    plan.step matches Ok(Some(_))
}

/// What came of a plan: it was sent where the reply says so, and there is an
/// error where there was none to send, or where it could not be put together or
/// sent.
pub open spec fn result_of(plan: PlanView, reply: Option<ReplyView>) -> ResultView {
    let channel = plan.channel.label();
    match plan.step {
        Err(error) => ResultView { channel, sent: false, error: Some(error) },
        Ok(None) => ResultView { channel, sent: false, error: None },
        Ok(Some(_)) => match reply {
            Some(ReplyView::Status(status)) => ResultView {
                channel,
                sent: 200 <= status < 300,
                error: None,
            },
            Some(ReplyView::Accepted) => ResultView { channel, sent: true, error: None },
            Some(ReplyView::Unmade(part)) => ResultView {
                channel,
                sent: false,
                error: Some(part),
            },
            Some(ReplyView::Failed(reason)) => ResultView {
                channel,
                sent: false,
                error: Some(plan.channel.failure(reason)),
            },
            None => ResultView { channel, sent: false, error: None },
        },
    }
}

pub open spec fn results_of(plans: Seq<PlanView>, replies: Seq<Option<ReplyView>>) -> Seq<
    ResultView,
> {
    Seq::new(plans.len(), |i: int| result_of(plans[i], replies[i]))
}

fn settle_one(plan: &Plan, reply: &Option<Reply>) -> (r: ChannelResult)
    ensures
        r.deep_view() == result_of(plan.deep_view(), reply.deep_view()),
{
    let channel: &'static str = plan.channel.name();
    match &plan.step {
        Err(error) => ChannelResult { channel, sent: false, error: Some(error.clone()) },
        Ok(None) => ChannelResult { channel, sent: false, error: None },
        Ok(Some(_)) => match reply {
            Some(Reply::Status(status)) => ChannelResult {
                channel,
                sent: 200 <= *status && *status < 300,
                error: None,
            },
            Some(Reply::Accepted) => ChannelResult { channel, sent: true, error: None },
            Some(Reply::Unmade(part)) => ChannelResult {
                channel,
                sent: false,
                error: Some(part.clone()),
            },
            Some(Reply::Failed(reason)) => ChannelResult {
                channel,
                sent: false,
                error: Some(plan.channel.failure_text(reason.as_str())),
            },
            None => ChannelResult { channel, sent: false, error: None },
        },
    }
}

/// What came of telling the channels. `replies` holds what came back, for each
/// plan.
pub fn settle(plans: &Vec<Plan>, replies: &Vec<Option<Reply>>) -> (r: Vec<ChannelResult>)
    requires
        replies@.len() == plans@.len(),
    ensures
        r.deep_view() == results_of(plans.deep_view(), replies.deep_view()),
{
    let ghost all = results_of(plans.deep_view(), replies.deep_view());
    let mut results: Vec<ChannelResult> = Vec::new();
    let mut i: usize = 0;
    while i < plans.len()
        invariant
            i <= plans@.len(),
            replies@.len() == plans@.len(),
            all == results_of(plans.deep_view(), replies.deep_view()),
            results@.len() == i,
            forall|k: int| 0 <= k < i ==> (#[trigger] results@[k]).deep_view() == all[k],
        decreases plans@.len() - i,
    {
        results.push(settle_one(&plans[i], &replies[i]));
        i = i + 1;
    }
    assert(results.deep_view() =~= all);
    results
}

/// How many channels were told.
pub open spec fn sent_count(results: Seq<ResultView>) -> nat
    decreases results.len(),
{
    if results.len() == 0 {
        0
    } else if results.last().sent {
        sent_count(results.drop_last()) + 1
    } else {
        sent_count(results.drop_last())
    }
}

pub fn count_sent(results: &Vec<ChannelResult>) -> (r: usize)
    ensures
        r == sent_count(results.deep_view()),
{
    let ghost all = results.deep_view();
    let mut count: usize = 0;
    let mut i: usize = 0;
    while i < results.len()
        invariant
            i <= results@.len(),
            count <= i,
            all == results.deep_view(),
            count == sent_count(all.take(i as int)),
        decreases results@.len() - i,
    {
        assert(all.take(i + 1).drop_last() =~= all.take(i as int));
        assert(all.take(i + 1).last() == results@[i as int].deep_view());
        if results[i].sent {
            count = count + 1;
        }
        i = i + 1;
    }
    assert(all.take(results@.len() as int) =~= all);
    count
}

// ---- what holds of the channels ----------------------------------------

/// Every channel that is listed in a well-formed configuration is told: the
/// channels bear the names that are listed, in their order.
pub proof fn lemma_all_listed_channels(cfg: ConfigView)
    requires
        cfg.well_formed(),
    ensures
        channels_named(cfg.notify_channels).len() == cfg.notify_channels.len(),
        forall|i: int|
            0 <= i < cfg.notify_channels.len() ==> (#[trigger] channels_named(
                cfg.notify_channels,
            )[i]).label() == cfg.notify_channels[i],
{
    lemma_channels_named(cfg.notify_channels);
}

proof fn lemma_channels_named(names: Seq<Seq<char>>)
    requires
        forall|i: int| 0 <= i < names.len() ==> known_channel(#[trigger] names[i]),
    ensures
        channels_named(names).len() == names.len(),
        forall|i: int|
            0 <= i < names.len() ==> (#[trigger] channels_named(names)[i]).label() == names[i],
    decreases names.len(),
{
    if names.len() > 0 {
        let front = names.drop_last();
        assert forall|i: int| 0 <= i < front.len() implies known_channel(#[trigger] front[i]) by {
            assert(front[i] == names[i]);
        }
        lemma_channels_named(front);
        assert(known_channel(names[names.len() - 1]));
        assert forall|i: int| 0 <= i < names.len() implies (#[trigger] channels_named(
            names,
        )[i]).label() == names[i] by {
            if i < front.len() {
                assert(channels_named(names)[i] == channels_named(front)[i]);
                assert(front[i] == names[i]);
            }
        }
    }
}

/// With a well-formed configuration no channel lacks its settings: each one
/// that is listed sends something about spikes, and a digest too, but for
/// PagerDuty, which takes no digests.
pub proof fn lemma_listed_channels_send(
    cfg: ConfigView,
    channel: Channel,
    spikes: Seq<SpikeView>,
    history: Seq<SpendView>,
    timestamp: Seq<char>,
)
    requires
        cfg.well_formed(),
        cfg.notify_channels.contains(channel.label()),
        spikes.len() > 0,
    ensures
        channel.alert(cfg, spikes, timestamp) matches Ok(Some(_)),
        channel != Channel::PagerDuty ==> (channel.digest(cfg, history, timestamp) matches Ok(
            Some(_),
        )),
        channel == Channel::PagerDuty ==> channel.digest(cfg, history, timestamp) == Ok::<
            Option<DeliveryView>,
            Seq<char>,
        >(None),
{
}

/// Without spikes no channel sends anything about them.
pub proof fn lemma_nothing_to_tell(cfg: ConfigView, channel: Channel, timestamp: Seq<char>)
    ensures
        channel.alert(cfg, Seq::<SpikeView>::empty(), timestamp) == Ok::<
            Option<DeliveryView>,
            Seq<char>,
        >(None),
{
}

/// A failure in one channel does not change what comes of the others.
pub proof fn lemma_failures_stay_apart(
    plans: Seq<PlanView>,
    replies: Seq<Option<ReplyView>>,
    at: int,
    other: Option<ReplyView>,
    i: int,
)
    requires
        replies.len() == plans.len(),
        0 <= at < plans.len(),
        0 <= i < plans.len(),
        i != at,
    ensures
        results_of(plans, replies.update(at, other))[i] == results_of(plans, replies)[i],
{
}

/// What a channel sends about spikes goes where the configuration says, under
/// the account's name, and lists as many of them as an alert lists; a channel
/// without its settings says so.
pub proof fn lemma_where_alerts_go(
    cfg: ConfigView,
    spikes: Seq<SpikeView>,
    timestamp: Seq<char>,
)
    requires
        spikes.len() > 0,
    ensures
        match cfg.telegram {
            Some(telegram) => {
                &&& Channel::Telegram.alert(cfg, spikes, timestamp) matches Ok(
                    Some(DeliveryView::Post { url, body, authorization }),
                )
                &&& url == "https://api.telegram.org"@ + "/bot"@ + telegram.bot_token
                    + "/sendMessage"@
                &&& authorization is None
                &&& field_count(body) == 4
                &&& has_field(body, "chat_id"@, JsonView::Text(telegram.chat_id))
                &&& has_field(
                    body,
                    "text"@,
                    JsonView::Text(
                        telegram::spike_text(spikes, cfg.dedup_cooldown_hours, cfg.max_spike_display),
                    ),
                )
                &&& has_field(body, "parse_mode"@, JsonView::Text("HTML"@))
                &&& has_field(body, "disable_web_page_preview"@, JsonView::Bool(true))
            },
            None => Channel::Telegram.alert(cfg, spikes, timestamp) is Err,
        },
        match cfg.slack {
            Some(slack) => {
                &&& Channel::Slack.alert(cfg, spikes, timestamp) matches Ok(
                    Some(DeliveryView::Post { url, body, authorization }),
                )
                &&& url == slack.webhook_url
                &&& authorization is None
                &&& field_count(body) == 1
                &&& has_field(
                    body,
                    "text"@,
                    JsonView::Text(
                        slack::spike_text(
                    spikes,
                            cfg.setup_name,
                            cfg.dedup_cooldown_hours,
                            cfg.max_spike_display,
                        ),
                    ),
                )
            },
            None => Channel::Slack.alert(cfg, spikes, timestamp) is Err,
        },
        match cfg.teams {
            Some(teams) => Channel::Teams.alert(cfg, spikes, timestamp) == Ok::<
                Option<DeliveryView>,
                Seq<char>,
            >(
                Some(
                    DeliveryView::Post {
                        url: teams.webhook_url,
                        body: teams::spike_card(
                    spikes,
                            cfg.setup_name,
                            cfg.dedup_cooldown_hours,
                            cfg.max_spike_display,
                        ),
                        authorization: None,
                    },
                ),
            ),
            None => Channel::Teams.alert(cfg, spikes, timestamp) is Err,
        },
        match cfg.webhook {
            Some(webhook) => Channel::Webhook.alert(cfg, spikes, timestamp) == Ok::<
                Option<DeliveryView>,
                Seq<char>,
            >(
                Some(
                    DeliveryView::Post {
                        url: webhook.url,
                        body: webhook::alert_json(cfg.setup_name, timestamp, spikes),
                        authorization: webhook.auth_header,
                    },
                ),
            ),
            None => Channel::Webhook.alert(cfg, spikes, timestamp) is Err,
        },
        match cfg.ses {
            Some(ses) => {
                &&& Channel::Ses.alert(cfg, spikes, timestamp) matches Ok(
                    Some(DeliveryView::Email { from, to, subject, html }),
                )
                &&& from == ses.from_address
                &&& to == ses.to_addresses
                &&& subject == cfg.setup_name + ": Cost Spike — "@ + spikes[0].service + " (+$"@
                    + two_decimals(spikes[0].extra_usd) + ")"@
                &&& html == ses::spike_html(
                    spikes,
                    cfg.setup_name,
                    cfg.dedup_cooldown_hours,
                    cfg.max_spike_display,
                )
            },
            None => Channel::Ses.alert(cfg, spikes, timestamp) is Err,
        },
        match cfg.sns {
            Some(sns) => {
                &&& Channel::Sns.alert(cfg, spikes, timestamp) matches Ok(
                    Some(DeliveryView::Publish { topic_arn, subject, message }),
                )
                &&& topic_arn == sns.topic_arn
                &&& subject == cfg.setup_name + ": Cost Spike Detected"@
                &&& message == sns::spike_text(
                    spikes,
                    cfg.setup_name,
                    cfg.dedup_cooldown_hours,
                    cfg.max_spike_display,
                )
            },
            None => Channel::Sns.alert(cfg, spikes, timestamp) is Err,
        },
        match cfg.pagerduty {
            Some(pagerduty) => Channel::PagerDuty.alert(cfg, spikes, timestamp) == Ok::<
                Option<DeliveryView>,
                Seq<char>,
            >(
                Some(
                    DeliveryView::Post {
                        url: "https://events.pagerduty.com/v2/enqueue"@,
                        body: pagerduty::event_body(
                            pagerduty,
                            pagerduty::summary_text(spikes, cfg.max_spike_display),
                        ),
                        authorization: None,
                    },
                ),
            ),
            None => Channel::PagerDuty.alert(cfg, spikes, timestamp) is Err,
        },
{
    match cfg.telegram {
        Some(telegram) => {
            let body = telegram::message_view(telegram, 
                telegram::spike_text(spikes, cfg.dedup_cooldown_hours, cfg.max_spike_display),
            )->body->Object_0;
            assert(body.contains(body[0]) && body.contains(body[1]));
            assert(body.contains(body[2]) && body.contains(body[3]));
        },
        None => {},
    }
    match cfg.slack {
        Some(slack) => {
            let body = slack::message_view(slack.webhook_url, 
                slack::spike_text(
                    spikes,
                    cfg.setup_name,
                    cfg.dedup_cooldown_hours,
                    cfg.max_spike_display,
                ),
            )->body->Object_0;
            assert(body.contains(body[0]));
        },
        None => {},
    }
}

/// What a channel sends as a digest goes where the configuration says, leaves
/// out what is below the noise level, and lists as many services as a digest
/// lists; a channel without its settings says so, and PagerDuty gets none.
pub proof fn lemma_where_digests_go(
    cfg: ConfigView,
    history: Seq<SpendView>,
    timestamp: Seq<char>,
)
    ensures
        match cfg.telegram {
            Some(telegram) => {
                &&& Channel::Telegram.digest(cfg, history, timestamp) matches Ok(
                    Some(DeliveryView::Post { url, body, authorization }),
                )
                &&& url == "https://api.telegram.org"@ + "/bot"@ + telegram.bot_token
                    + "/sendMessage"@
                &&& authorization is None
                &&& field_count(body) == 4
                &&& has_field(body, "chat_id"@, JsonView::Text(telegram.chat_id))
                &&& has_field(
                    body,
                    "text"@,
                    JsonView::Text(
                        telegram::digest_text(history, cfg.min_avg_daily_usd, cfg.max_digest_display),
                    ),
                )
                &&& has_field(body, "parse_mode"@, JsonView::Text("HTML"@))
                &&& has_field(body, "disable_web_page_preview"@, JsonView::Bool(true))
            },
            None => Channel::Telegram.digest(cfg, history, timestamp) is Err,
        },
        match cfg.slack {
            Some(slack) => {
                &&& Channel::Slack.digest(cfg, history, timestamp) matches Ok(
                    Some(DeliveryView::Post { url, body, authorization }),
                )
                &&& url == slack.webhook_url
                &&& authorization is None
                &&& field_count(body) == 1
                &&& has_field(
                    body,
                    "text"@,
                    JsonView::Text(
                        slack::digest_text(
                            history,
                            cfg.setup_name,
                            cfg.min_avg_daily_usd,
                            cfg.max_digest_display,
                        ),
                    ),
                )
            },
            None => Channel::Slack.digest(cfg, history, timestamp) is Err,
        },
        match cfg.teams {
            Some(teams) => Channel::Teams.digest(cfg, history, timestamp) == Ok::<
                Option<DeliveryView>,
                Seq<char>,
            >(
                Some(
                    DeliveryView::Post {
                        url: teams.webhook_url,
                        body: teams::digest_card(
                            history,
                            cfg.setup_name,
                            cfg.min_avg_daily_usd,
                            cfg.max_digest_display,
                        ),
                        authorization: None,
                    },
                ),
            ),
            None => Channel::Teams.digest(cfg, history, timestamp) is Err,
        },
        match cfg.webhook {
            Some(webhook) => Channel::Webhook.digest(cfg, history, timestamp) == Ok::<
                Option<DeliveryView>,
                Seq<char>,
            >(
                Some(
                    DeliveryView::Post {
                        url: webhook.url,
                        body: webhook::digest_json(cfg.setup_name, timestamp, history),
                        authorization: webhook.auth_header,
                    },
                ),
            ),
            None => Channel::Webhook.digest(cfg, history, timestamp) is Err,
        },
        match cfg.ses {
            Some(ses) => {
                &&& Channel::Ses.digest(cfg, history, timestamp) matches Ok(
                    Some(DeliveryView::Email { from, to, subject, html }),
                )
                &&& from == ses.from_address
                &&& to == ses.to_addresses
                &&& subject == cfg.setup_name + " Daily Digest"@
                &&& html == ses::digest_html(
                    history,
                    cfg.setup_name,
                    cfg.min_avg_daily_usd,
                    cfg.max_digest_display,
                )
            },
            None => Channel::Ses.digest(cfg, history, timestamp) is Err,
        },
        match cfg.sns {
            Some(sns) => {
                &&& Channel::Sns.digest(cfg, history, timestamp) matches Ok(
                    Some(DeliveryView::Publish { topic_arn, subject, message }),
                )
                &&& topic_arn == sns.topic_arn
                &&& subject == cfg.setup_name + " Daily Digest"@
                &&& message == sns::digest_text(
                    history,
                    cfg.setup_name,
                    cfg.min_avg_daily_usd,
                    cfg.max_digest_display,
                )
            },
            None => Channel::Sns.digest(cfg, history, timestamp) is Err,
        },
        Channel::PagerDuty.digest(cfg, history, timestamp) == Ok::<
            Option<DeliveryView>,
            Seq<char>,
        >(None),
{
    match cfg.telegram {
        Some(telegram) => {
            let body = telegram::message_view(telegram, 
                telegram::digest_text(history, cfg.min_avg_daily_usd, cfg.max_digest_display),
            )->body->Object_0;
            assert(body.contains(body[0]) && body.contains(body[1]));
            assert(body.contains(body[2]) && body.contains(body[3]));
        },
        None => {},
    }
    match cfg.slack {
        Some(slack) => {
            let body = slack::message_view(slack.webhook_url, 
                slack::digest_text(
                    history,
                    cfg.setup_name,
                    cfg.min_avg_daily_usd,
                    cfg.max_digest_display,
                ),
            )->body->Object_0;
            assert(body.contains(body[0]));
        },
        None => {},
    }
}

/// A channel was told exactly where it had something to send and a service took
/// it, or an HTTP status says that it was received. There is an error exactly
/// where the channel lacked its settings or the message could not be put
/// together or sent.
pub proof fn lemma_what_came_of_it(plan: PlanView, reply: Option<ReplyView>)
    ensures
        ({
            let result = result_of(plan, reply);
            let had_something = plan.step matches Ok(Some(_));
            &&& result.channel == plan.channel.label()
            &&& result.sent <==> had_something && (match reply {
                Some(ReplyView::Accepted) => true,
                Some(ReplyView::Status(status)) => 200 <= status && status <= 299,
                _ => false,
            })
            &&& result.error is Some <==> plan.step is Err || (had_something && (reply matches Some(
                ReplyView::Failed(_),
            ) || reply matches Some(ReplyView::Unmade(_))))
            &&& plan.step matches Err(error) ==> result.error == Some(error)
            &&& had_something ==> (reply matches Some(ReplyView::Unmade(part)) ==> result.error
                == Some(part))
            &&& had_something ==> (reply matches Some(ReplyView::Failed(reason)) ==> result.error
                == Some(plan.channel.failure(reason)))
        }),
{
}

/// Each plan has a result of its own, made of what came back for it.
pub proof fn lemma_each_plan_has_its_result(
    plans: Seq<PlanView>,
    replies: Seq<Option<ReplyView>>,
    i: int,
)
    requires
        0 <= i < plans.len(),
    ensures
        results_of(plans, replies).len() == plans.len(),
        results_of(plans, replies)[i] == result_of(plans[i], replies[i]),
{
}

/// What is said where sending has failed. The addresses of webhooks are secrets,
/// and so nothing of what went wrong is said of those.
pub proof fn lemma_what_is_said_of_failures(reason: Seq<char>)
    ensures
        Channel::Telegram.failure(reason) == "Failed to send Telegram message"@,
        Channel::Slack.failure(reason) == "Failed to send Slack webhook"@,
        Channel::Teams.failure(reason) == "Failed to send Teams webhook"@,
        Channel::PagerDuty.failure(reason) == "Failed to send PagerDuty event"@,
        Channel::Webhook.failure(reason) == "Failed to send webhook"@,
        Channel::Ses.failure(reason) == "SES send failed: "@ + reason,
        Channel::Sns.failure(reason) == "SNS publish failed: "@ + reason,
{
}

/// Every channel is told of every occasion, in the order in which they come.
pub proof fn lemma_all_channels_are_told(
    channels: Seq<Channel>,
    cfg: ConfigView,
    spikes: Seq<SpikeView>,
    history: Seq<SpendView>,
    timestamp: Seq<char>,
    i: int,
)
    requires
        0 <= i < channels.len(),
    ensures
        alert_plans(channels, cfg, spikes, timestamp).len() == channels.len(),
        alert_plans(channels, cfg, spikes, timestamp)[i].channel == channels[i],
        alert_plans(channels, cfg, spikes, timestamp)[i].step == channels[i].alert(
            cfg,
            spikes,
            timestamp,
        ),
        digest_plans(channels, cfg, history, timestamp).len() == channels.len(),
        digest_plans(channels, cfg, history, timestamp)[i].channel == channels[i],
        digest_plans(channels, cfg, history, timestamp)[i].step == channels[i].digest(
            cfg,
            history,
            timestamp,
        ),
{
}

/// As many are counted as there are channels that were told.
pub proof fn lemma_told_channels_are_counted(results: Seq<ResultView>)
    ensures
        sent_count(results) == results.filter(|result: ResultView| result.sent).len(),
    decreases results.len(),
{
    reveal(Seq::filter);
    if results.len() > 0 {
        lemma_told_channels_are_counted(results.drop_last());
    }
}

/// The channels of a list bear the names on it that are names of channels, in
/// their order.
pub proof fn lemma_names_of_channels(names: Seq<Seq<char>>)
    ensures
        channels_named(names).map_values(|channel: Channel| channel.label()) == names.filter(
            |name: Seq<char>|
                name == "telegram"@ || name == "slack"@ || name == "teams"@ || name
                    == "pagerduty"@ || name == "webhook"@ || name == "ses"@ || name == "sns"@,
        ),
    decreases names.len(),
{
    let label = |channel: Channel| channel.label();
    let pick = |name: Seq<char>|
        name == "telegram"@ || name == "slack"@ || name == "teams"@ || name == "pagerduty"@ || name
            == "webhook"@ || name == "ses"@ || name == "sns"@;
    reveal(Seq::filter);
    if names.len() == 0 {
        assert(channels_named(names).map_values(label) =~= Seq::<Seq<char>>::empty());
    } else {
        let front = names.drop_last();
        lemma_names_of_channels(front);
        match channel_named(names.last()) {
            Some(channel) => {
                assert(channel.label() == names.last());
                assert(channels_named(names).map_values(label) =~= channels_named(
                    front,
                ).map_values(label).push(names.last()));
            },
            None => {},
        }
    }
}

/// The name of each channel.
pub proof fn lemma_channel_names()
    ensures
        Channel::Telegram.label() == "telegram"@,
        Channel::Slack.label() == "slack"@,
        Channel::Teams.label() == "teams"@,
        Channel::PagerDuty.label() == "pagerduty"@,
        Channel::Webhook.label() == "webhook"@,
        Channel::Ses.label() == "ses"@,
        Channel::Sns.label() == "sns"@,
{
}

/// Every channel can tell of any number of spikes. Only PagerDuty, where it is
/// set up, cannot tell of more than one where none is to be listed.
pub proof fn lemma_who_can_alert(channel: Channel, cfg: ConfigView, count: nat)
    ensures
        !channel.can_alert(cfg, count) <==> channel == Channel::PagerDuty && cfg.pagerduty is Some
            && count > 1 && cfg.max_spike_display == 0,
{
}

} // verus!
