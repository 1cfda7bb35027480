//! One run: a check for spikes, or a digest.
//!
//! A run decides what is to be done next, and is told what came of it.

use crate::anomaly::{detect_spikes, ranked_spikes, spikes_view, Spike, SpikeView};
use crate::config::{Config, ConfigView};
use crate::cost_explorer::{
    can_be_asked_for, fetch_spend, history_view, spend_history, spend_query, DayCosts,
    SpendHistory, SpendQuery, SpendView, DIMENSION, METRIC,
};
use crate::dates::{
    day_number, day_of_time, day_text, in_calendar, is_in_calendar, time_text, write_time,
};
use crate::dedup::{
    fetch_timestamp, filter_new_spikes, key_of, lemma_cooldown, lemma_unknown_is_new,
    mark_alerted, new_spikes, ssm_key, stored_time, times, Mark,
};
use crate::notify::{
    alert_plans, all_can_alert, count_sent, digest_plans, fan_out_daily_digest,
    fan_out_spike_alert, lemma_told_channels_are_counted, results_of, sent_count, settle, Channel,
    ChannelResult, Plan, PlanView, Reply, ReplyView, ResultView,
};
use crate::text::{same, signed_decimal};
use vstd::prelude::*;

verus! {

/// The mode that asks for a digest.
pub const DIGEST_MODE: &'static str = "digest";

/// The mode that asks for a check for spikes.
pub const SPIKE_MODE: &'static str = "spike";

/// Whether an invocation asks for a digest. Anything else, or nothing, asks
/// for a check for spikes.
pub fn wants_digest(mode: Option<&str>) -> (r: bool)
    ensures
        r == (mode matches Some(name) && name@ == "digest"@),
{
    match mode {
        Some(name) => same(name, DIGEST_MODE),
        None => false,
    }
}

/// What is answered in the end.
#[derive(Debug)]
pub struct CheckResponse {
    pub mode: String,
    pub spikes_found: usize,
    pub alerts_sent: usize,
}

/// What is to be done next.
#[derive(Debug)]
pub enum Action {
    /// Ask Cost Explorer.
    Ask(SpendQuery),
    /// Read what is stored under these keys.
    ReadMarks(Vec<String>),
    /// Take the time. So many spikes are to be told.
    TakeTime(usize),
    /// Send what is to be sent, all of it: the run holds the plans.
    Deliver,
    /// Store these.
    StoreMarks(Vec<Mark>),
    /// Nothing more: this is the answer.
    Finish(CheckResponse),
}

/// What came of it.
#[derive(Debug)]
pub enum Event {
    /// The run begins at this time, in seconds.
    Begin { now: i64 },
    /// What Cost Explorer answered.
    Spend(Vec<DayCosts>),
    /// What is stored under the keys, where anything is, and the time in
    /// seconds.
    Marks { stored: Vec<Option<String>>, now: i64 },
    /// The time, in seconds, and the nanoseconds of the second.
    Time { seconds: i64, nanos: u32 },
    /// What came back from sending, for each plan, and the time in seconds.
    Replies { replies: Vec<Option<Reply>>, now: i64 },
    /// All was stored, or could not be.
    Stored,
}

pub struct ResponseView {
    pub mode: Seq<char>,
    pub spikes_found: nat,
    pub alerts_sent: nat,
}

pub enum ActionView {
    Ask { start: Seq<char>, end: Seq<char>, metric: Seq<char>, dimension: Seq<char> },
    ReadMarks(Seq<Seq<char>>),
    TakeTime(nat),
    Deliver,
    StoreMarks(Seq<(Seq<char>, Seq<char>)>),
    Finish(ResponseView),
}

pub enum EventView {
    Begin { now: int },
    Spend(Seq<DayCosts>),
    Marks { stored: Seq<Option<Seq<char>>>, now: int },
    Time { seconds: int, nanos: int },
    Replies { replies: Seq<Option<ReplyView>>, now: int },
    Stored,
}

pub open spec fn marks_view(marks: Seq<Mark>) -> Seq<(Seq<char>, Seq<char>)> {
    Seq::new(marks.len(), |i: int| (marks[i].key@, marks[i].value@))
}

impl DeepView for CheckResponse {
    type V = ResponseView;

    open spec fn deep_view(&self) -> ResponseView {
        ResponseView {
            mode: self.mode@,
            spikes_found: self.spikes_found as nat,
            alerts_sent: self.alerts_sent as nat,
        }
    }
}

impl DeepView for Action {
    type V = ActionView;

    open spec fn deep_view(&self) -> ActionView {
        match self {
            Action::Ask(query) => ActionView::Ask {
                start: query.start@,
                end: query.end@,
                metric: query.metric@,
                dimension: query.dimension@,
            },
            Action::ReadMarks(keys) => ActionView::ReadMarks(keys.deep_view()),
            Action::TakeTime(count) => ActionView::TakeTime(*count as nat),
            Action::Deliver => ActionView::Deliver,
            Action::StoreMarks(marks) => ActionView::StoreMarks(marks_view(marks@)),
            Action::Finish(response) => ActionView::Finish(response.deep_view()),
        }
    }
}

impl DeepView for Event {
    type V = EventView;

    open spec fn deep_view(&self) -> EventView {
        match self {
            Event::Begin { now } => EventView::Begin { now: *now as int },
            Event::Spend(results) => EventView::Spend(results@),
            Event::Marks { stored, now } => EventView::Marks {
                stored: stored.deep_view(),
                now: *now as int,
            },
            Event::Time { seconds, nanos } => EventView::Time {
                seconds: *seconds as int,
                nanos: *nanos as int,
            },
            Event::Replies { replies, now } => EventView::Replies {
                replies: replies.deep_view(),
                now: *now as int,
            },
            Event::Stored => EventView::Stored,
        }
    }
}

/// Whether this is a time: its day is in the calendar, and the nanoseconds are
/// those of one second.
pub open spec fn is_time(seconds: int, nanos: int) -> bool {
    in_calendar(day_number(seconds)) && nanos < 1_000_000_000
}

/// Whether a run that asks for the last `days` days can begin at a time.
pub fn can_begin(now: i64, days: i64) -> (r: bool)
    ensures
        r == can_be_asked_for(day_number(now as int), days as int),
{
    is_in_calendar(now, -1) && days > i64::MIN && is_in_calendar(now, days - 1)
}

// ---- a check for spikes ------------------------------------------------

/// How far a check for spikes has come.
#[derive(Debug)]
pub enum SpikeCheck {
    Idle,
    /// Cost Explorer was asked.
    Asked,
    /// These spikes were found, and the times of earlier alerts are being read.
    Found(Vec<Spike>),
    /// So many spikes were found, of which these are to be told.
    Telling { spikes_found: usize, fresh: Vec<Spike> },
    /// The channels are being told.
    Sending { spikes_found: usize, fresh: Vec<Spike>, plans: Vec<Plan> },
    /// The channels were told, and this is being noted.
    Storing { spikes_found: usize, alerts_sent: usize },
    Over,
}

pub enum SpikeCheckView {
    Idle,
    Asked,
    Found(Seq<SpikeView>),
    Telling { spikes_found: nat, fresh: Seq<SpikeView> },
    Sending { spikes_found: nat, fresh: Seq<SpikeView>, plans: Seq<PlanView> },
    Storing { spikes_found: nat, alerts_sent: nat },
    Over,
}

impl DeepView for SpikeCheck {
    type V = SpikeCheckView;

    open spec fn deep_view(&self) -> SpikeCheckView {
        match self {
            SpikeCheck::Idle => SpikeCheckView::Idle,
            SpikeCheck::Asked => SpikeCheckView::Asked,
            SpikeCheck::Found(spikes) => SpikeCheckView::Found(spikes_view(spikes@)),
            SpikeCheck::Telling { spikes_found, fresh } => SpikeCheckView::Telling {
                spikes_found: *spikes_found as nat,
                fresh: spikes_view(fresh@),
            },
            SpikeCheck::Sending { spikes_found, fresh, plans } => SpikeCheckView::Sending {
                spikes_found: *spikes_found as nat,
                fresh: spikes_view(fresh@),
                plans: plans.deep_view(),
            },
            SpikeCheck::Storing { spikes_found, alerts_sent } => SpikeCheckView::Storing {
                spikes_found: *spikes_found as nat,
                alerts_sent: *alerts_sent as nat,
            },
            SpikeCheck::Over => SpikeCheckView::Over,
        }
    }
}

/// The question for the last `days` days, today included.
pub open spec fn question(today: int, days: nat) -> ActionView {
    ActionView::Ask {
        start: day_text(today + 1 - days),
        end: day_text(today + 1),
        metric: METRIC@,
        dimension: DIMENSION@,
    }
}

pub open spec fn spike_answer(spikes_found: nat, alerts_sent: nat) -> ActionView {
    ActionView::Finish(ResponseView { mode: SPIKE_MODE@, spikes_found, alerts_sent })
}

/// The keys under which the times of earlier alerts are kept.
pub open spec fn keys_of(namespace: Seq<char>, spikes: Seq<SpikeView>) -> Seq<Seq<char>> {
    Seq::new(spikes.len(), |i: int| key_of(namespace, spikes[i].service))
}

/// The times of earlier alerts, out of what is stored.
pub open spec fn stored_times(stored: Seq<Option<Seq<char>>>) -> Seq<Option<int>> {
    Seq::new(stored.len(), |i: int| stored_time(stored[i]))
}

/// What is noted of the alerts that were given.
pub open spec fn marks_of(namespace: Seq<char>, spikes: Seq<SpikeView>, now: int) -> Seq<
    (Seq<char>, Seq<char>),
> {
    Seq::new(
        spikes.len(),
        |i: int| (key_of(namespace, spikes[i].service), signed_decimal(now)),
    )
}

/// What follows in a check for spikes.
///
/// The costs of today and of the days that the average is taken over are asked
/// for.
/// What is found is told unless it was told a short while ago, and where no
/// channel was told, it is not noted.
pub open spec fn spike_step(
    cfg: ConfigView,
    channels: Seq<Channel>,
    state: SpikeCheckView,
    event: EventView,
) -> (SpikeCheckView, ActionView) {
    match (state, event) {
        (SpikeCheckView::Idle, EventView::Begin { now }) => (
            SpikeCheckView::Asked,
            question(day_number(now), cfg.history_days + 1),
        ),
        (SpikeCheckView::Asked, EventView::Spend(results)) => {
            let spikes = ranked_spikes(
                spend_history(results),
                cfg.spike_threshold_pct,
                cfg.history_days,
                cfg.min_avg_daily_usd,
            );
            if spikes.len() == 0 {
                (SpikeCheckView::Over, spike_answer(0, 0))
            } else {
                (
                    SpikeCheckView::Found(spikes),
                    ActionView::ReadMarks(keys_of(cfg.account_namespace, spikes)),
                )
            }
        },
        (SpikeCheckView::Found(spikes), EventView::Marks { stored, now }) => {
            let fresh = new_spikes(spikes, stored_times(stored), now, cfg.dedup_cooldown_hours);
            if fresh.len() == 0 {
                (SpikeCheckView::Over, spike_answer(spikes.len(), 0))
            } else {
                (
                    SpikeCheckView::Telling { spikes_found: spikes.len(), fresh },
                    ActionView::TakeTime(fresh.len()),
                )
            }
        },
        (SpikeCheckView::Telling { spikes_found, fresh }, EventView::Time { seconds, nanos }) => {
            let plans = alert_plans(channels, cfg, fresh, time_text(seconds, nanos));
            (SpikeCheckView::Sending { spikes_found, fresh, plans }, ActionView::Deliver)
        },
        (
            SpikeCheckView::Sending { spikes_found, fresh, plans },
            EventView::Replies { replies, now },
        ) => {
            let alerts_sent = sent_count(results_of(plans, replies));
            if alerts_sent == 0 {
                (SpikeCheckView::Over, spike_answer(spikes_found, 0))
            } else {
                (
                    SpikeCheckView::Storing { spikes_found, alerts_sent },
                    ActionView::StoreMarks(marks_of(cfg.account_namespace, fresh, now)),
                )
            }
        },
        (SpikeCheckView::Storing { spikes_found, alerts_sent }, EventView::Stored) => (
            SpikeCheckView::Over,
            spike_answer(spikes_found, alerts_sent),
        ),
        _ => (SpikeCheckView::Over, spike_answer(0, 0)),
    }
}

/// Whether an event is what the check has been waiting for.
pub open spec fn spike_fits(
    cfg: ConfigView,
    channels: Seq<Channel>,
    state: SpikeCheckView,
    event: EventView,
) -> bool {
    match (state, event) {
        (SpikeCheckView::Idle, EventView::Begin { now }) => can_be_asked_for(
            day_number(now),
            cfg.history_days as int + 1,
        ),
        (SpikeCheckView::Asked, EventView::Spend(_)) => true,
        (SpikeCheckView::Found(spikes), EventView::Marks { stored, .. }) => stored.len()
            == spikes.len(),
        (SpikeCheckView::Telling { fresh, .. }, EventView::Time { seconds, nanos }) => is_time(
            seconds,
            nanos,
        ) && all_can_alert(channels, cfg, fresh.len()),
        (SpikeCheckView::Sending { plans, .. }, EventView::Replies { replies, .. }) => replies.len()
            == plans.len(),
        (SpikeCheckView::Storing { .. }, EventView::Stored) => true,
        _ => false,
    }
}

fn respond(spikes_found: usize, alerts_sent: usize) -> (r: Action)
    ensures
        r.deep_view() == spike_answer(spikes_found as nat, alerts_sent as nat),
{
    Action::Finish(CheckResponse { mode: SPIKE_MODE.to_string(), spikes_found, alerts_sent })
}

fn collect_keys(namespace: &str, spikes: &Vec<Spike>) -> (r: Vec<String>)
    ensures
        r.deep_view() == keys_of(namespace@, spikes_view(spikes@)),
{
    let mut keys: Vec<String> = Vec::new();
    let mut i: usize = 0;
    while i < spikes.len()
        invariant
            i <= spikes@.len(),
            keys@.len() == i,
            forall|k: int|
                0 <= k < i ==> (#[trigger] keys@[k])@ == key_of(namespace@, spikes@[k].service@),
        decreases spikes@.len() - i,
    {
        keys.push(ssm_key(namespace, spikes[i].service.as_str()));
        i = i + 1;
    }
    assert(keys.deep_view() =~= keys_of(namespace@, spikes_view(spikes@)));
    keys
}

fn collect_times(stored: &Vec<Option<String>>) -> (r: Vec<Option<i64>>)
    ensures
        r@.len() == stored@.len(),
        times(r@) == stored_times(stored.deep_view()),
{
    let ghost all = stored_times(stored.deep_view());
    let mut out: Vec<Option<i64>> = Vec::new();
    let mut i: usize = 0;
    while i < stored.len()
        invariant
            i <= stored@.len(),
            all == stored_times(stored.deep_view()),
            out@.len() == i,
            forall|k: int| 0 <= k < i ==> #[trigger] times(out@)[k] == all[k],
        decreases stored@.len() - i,
    {
        let value: Option<&str> = match &stored[i] {
            Some(text) => Some(text.as_str()),
            None => None,
        };
        let ghost before = out@;
        out.push(fetch_timestamp(value));
        assert forall|k: int| 0 <= k < i + 1 implies #[trigger] times(out@)[k] == all[k] by {
            if k < i {
                assert(times(before)[k] == all[k]);
            }
        }
        i = i + 1;
    }
    assert(times(out@) =~= all);
    out
}

/// Takes a check for spikes one step further.
pub fn run_spike_check(
    cfg: &Config,
    channels: &Vec<Channel>,
    state: SpikeCheck,
    event: Event,
) -> (r: (SpikeCheck, Action))
    requires
        spike_fits(cfg.deep_view(), channels@, state.deep_view(), event.deep_view()),
    ensures
        (r.0.deep_view(), r.1.deep_view()) == spike_step(
            cfg.deep_view(),
            channels@,
            state.deep_view(),
            event.deep_view(),
        ),
{
    match (state, event) {
        (SpikeCheck::Idle, Event::Begin { now }) => {
            let today: i32 = day_of_time(now);
            let query: SpendQuery = spend_query(today, cfg.history_days as i64 + 1);
            (SpikeCheck::Asked, Action::Ask(query))
        },
        (SpikeCheck::Asked, Event::Spend(results)) => {
            let history: SpendHistory = fetch_spend(&results);
            let spikes: Vec<Spike> = detect_spikes(
                &history,
                cfg.spike_threshold_pct,
                cfg.history_days,
                cfg.min_avg_daily_usd,
            );
            assert(spikes_view(spikes@).len() == spikes@.len());
            if spikes.len() == 0 {
                (SpikeCheck::Over, respond(0, 0))
            } else {
                let keys: Vec<String> = collect_keys(cfg.account_namespace.as_str(), &spikes);
                (SpikeCheck::Found(spikes), Action::ReadMarks(keys))
            }
        },
        (SpikeCheck::Found(spikes), Event::Marks { stored, now }) => {
            let spikes_found: usize = spikes.len();
            let last_alerted: Vec<Option<i64>> = collect_times(&stored);
            assert(spikes_view(spikes@).len() == spikes@.len());
            assert(stored.deep_view().len() == stored@.len());
            let fresh: Vec<Spike> = filter_new_spikes(
                spikes,
                &last_alerted,
                now,
                cfg.dedup_cooldown_hours,
            );
            assert(spikes_view(fresh@).len() == fresh@.len());
            if fresh.len() == 0 {
                (SpikeCheck::Over, respond(spikes_found, 0))
            } else {
                let count: usize = fresh.len();
                (SpikeCheck::Telling { spikes_found, fresh }, Action::TakeTime(count))
            }
        },
        (SpikeCheck::Telling { spikes_found, fresh }, Event::Time { seconds, nanos }) => {
            let timestamp: String = write_time(seconds, nanos);
            assert(spikes_view(fresh@).len() == fresh@.len());
            let plans: Vec<Plan> = fan_out_spike_alert(channels, cfg, &fresh, timestamp.as_str());
            (SpikeCheck::Sending { spikes_found, fresh, plans }, Action::Deliver)
        },
        (SpikeCheck::Sending { spikes_found, fresh, plans }, Event::Replies { replies, now }) => {
            assert(plans.deep_view().len() == plans@.len());
            assert(replies.deep_view().len() == replies@.len());
            let results: Vec<ChannelResult> = settle(&plans, &replies);
            let alerts_sent: usize = count_sent(&results);
            if alerts_sent == 0 {
                (SpikeCheck::Over, respond(spikes_found, 0))
            } else {
                let marks: Vec<Mark> = mark_alerted(&fresh, cfg.account_namespace.as_str(), now);
                assert(marks_view(marks@) =~= marks_of(
                    cfg.account_namespace@,
                    spikes_view(fresh@),
                    now as int,
                ));
                (SpikeCheck::Storing { spikes_found, alerts_sent }, Action::StoreMarks(marks))
            }
        },
        (SpikeCheck::Storing { spikes_found, alerts_sent }, Event::Stored) => (
            SpikeCheck::Over,
            respond(spikes_found, alerts_sent),
        ),
        _ => (SpikeCheck::Over, respond(0, 0)),
    }
}

// ---- a digest ----------------------------------------------------------

/// How far a digest has come.
#[derive(Debug)]
pub enum DigestRun {
    Idle,
    /// Cost Explorer was asked.
    Asked,
    /// These costs are to be told.
    Telling(SpendHistory),
    /// The channels are being told.
    Sending(Vec<Plan>),
    Over,
}

pub enum DigestRunView {
    Idle,
    Asked,
    Telling(Seq<SpendView>),
    Sending(Seq<PlanView>),
    Over,
}

impl DeepView for DigestRun {
    type V = DigestRunView;

    open spec fn deep_view(&self) -> DigestRunView {
        match self {
            DigestRun::Idle => DigestRunView::Idle,
            DigestRun::Asked => DigestRunView::Asked,
            DigestRun::Telling(history) => DigestRunView::Telling(history_view(history@)),
            DigestRun::Sending(plans) => DigestRunView::Sending(plans.deep_view()),
            DigestRun::Over => DigestRunView::Over,
        }
    }
}

pub open spec fn digest_answer(alerts_sent: nat) -> ActionView {
    ActionView::Finish(ResponseView { mode: DIGEST_MODE@, spikes_found: 0, alerts_sent })
}

/// What follows in a digest. It tells the costs of as many days as the average
/// is taken over, today included, and looks for no spikes.
pub open spec fn digest_step(
    cfg: ConfigView,
    channels: Seq<Channel>,
    state: DigestRunView,
    event: EventView,
) -> (DigestRunView, ActionView) {
    match (state, event) {
        (DigestRunView::Idle, EventView::Begin { now }) => (
            DigestRunView::Asked,
            question(day_number(now), cfg.history_days),
        ),
        (DigestRunView::Asked, EventView::Spend(results)) => (
            DigestRunView::Telling(spend_history(results)),
            ActionView::TakeTime(0),
        ),
        (DigestRunView::Telling(history), EventView::Time { seconds, nanos }) => (
            DigestRunView::Sending(
                digest_plans(channels, cfg, history, time_text(seconds, nanos)),
            ),
            ActionView::Deliver,
        ),
        (DigestRunView::Sending(plans), EventView::Replies { replies, .. }) => (
            DigestRunView::Over,
            digest_answer(sent_count(results_of(plans, replies))),
        ),
        _ => (DigestRunView::Over, digest_answer(0)),
    }
}

/// Whether an event is what the digest has been waiting for.
pub open spec fn digest_fits(cfg: ConfigView, state: DigestRunView, event: EventView) -> bool {
    match (state, event) {
        (DigestRunView::Idle, EventView::Begin { now }) => can_be_asked_for(
            day_number(now),
            cfg.history_days as int,
        ),
        (DigestRunView::Asked, EventView::Spend(_)) => true,
        (DigestRunView::Telling(_), EventView::Time { seconds, nanos }) => is_time(seconds, nanos),
        (DigestRunView::Sending(plans), EventView::Replies { replies, .. }) => replies.len()
            == plans.len(),
        _ => false,
    }
}

fn conclude_digest(alerts_sent: usize) -> (r: Action)
    ensures
        r.deep_view() == digest_answer(alerts_sent as nat),
{
    Action::Finish(CheckResponse { mode: DIGEST_MODE.to_string(), spikes_found: 0, alerts_sent })
}

/// Takes a digest one step further.
pub fn run_digest(
    cfg: &Config,
    channels: &Vec<Channel>,
    state: DigestRun,
    event: Event,
) -> (r: (DigestRun, Action))
    requires
        digest_fits(cfg.deep_view(), state.deep_view(), event.deep_view()),
    ensures
        (r.0.deep_view(), r.1.deep_view()) == digest_step(
            cfg.deep_view(),
            channels@,
            state.deep_view(),
            event.deep_view(),
        ),
{
    match (state, event) {
        (DigestRun::Idle, Event::Begin { now }) => {
            let today: i32 = day_of_time(now);
            let query: SpendQuery = spend_query(today, cfg.history_days as i64);
            (DigestRun::Asked, Action::Ask(query))
        },
        (DigestRun::Asked, Event::Spend(results)) => {
            let history: SpendHistory = fetch_spend(&results);
            (DigestRun::Telling(history), Action::TakeTime(0))
        },
        (DigestRun::Telling(history), Event::Time { seconds, nanos }) => {
            let timestamp: String = write_time(seconds, nanos);
            let plans: Vec<Plan> = fan_out_daily_digest(
                channels,
                cfg,
                &history,
                timestamp.as_str(),
            );
            (DigestRun::Sending(plans), Action::Deliver)
        },
        (DigestRun::Sending(plans), Event::Replies { replies, .. }) => {
            assert(plans.deep_view().len() == plans@.len());
            assert(replies.deep_view().len() == replies@.len());
            let results: Vec<ChannelResult> = settle(&plans, &replies);
            (DigestRun::Over, conclude_digest(count_sent(&results)))
        },
        _ => (DigestRun::Over, conclude_digest(0)),
    }
}

// ---- what holds of runs ------------------------------------------------

/// Nothing is sent where everything that was found is held back.
pub proof fn lemma_held_back_is_not_told(
    cfg: ConfigView,
    channels: Seq<Channel>,
    spikes: Seq<SpikeView>,
    stored: Seq<Option<Seq<char>>>,
    now: int,
)
    requires
        new_spikes(spikes, stored_times(stored), now, cfg.dedup_cooldown_hours).len() == 0,
    ensures
        spike_step(
            cfg,
            channels,
            SpikeCheckView::Found(spikes),
            EventView::Marks { stored, now },
        ) == (SpikeCheckView::Over, spike_answer(spikes.len(), 0)),
{
}

/// Where no earlier alert is known, every channel is told of every spike that
/// was found, the costliest first.
pub proof fn lemma_every_spike_is_told(
    cfg: ConfigView,
    channels: Seq<Channel>,
    results: Seq<DayCosts>,
    stored: Seq<Option<Seq<char>>>,
    now: int,
    seconds: int,
    nanos: int,
)
    requires
        ranked_spikes(
            spend_history(results),
            cfg.spike_threshold_pct,
            cfg.history_days,
            cfg.min_avg_daily_usd,
        ).len() == stored.len(),
        stored.len() > 0,
        forall|i: int| 0 <= i < stored.len() ==> stored_time(#[trigger] stored[i]) is None,
    ensures
        ({
            let spikes = ranked_spikes(
                spend_history(results),
                cfg.spike_threshold_pct,
                cfg.history_days,
                cfg.min_avg_daily_usd,
            );
            let plans = alert_plans(channels, cfg, spikes, time_text(seconds, nanos));
            let found = spike_step(
                cfg,
                channels,
                SpikeCheckView::Asked,
                EventView::Spend(results),
            ).0;
            let telling = spike_step(
                cfg,
                channels,
                found,
                EventView::Marks { stored, now },
            ).0;
            spike_step(cfg, channels, telling, EventView::Time { seconds, nanos }) == (
                SpikeCheckView::Sending { spikes_found: spikes.len(), fresh: spikes, plans },
                ActionView::Deliver,
            )
        }),
{
    let spikes = ranked_spikes(
        spend_history(results),
        cfg.spike_threshold_pct,
        cfg.history_days,
        cfg.min_avg_daily_usd,
    );
    assert forall|i: int|
        0 <= i < spikes.len() implies (#[trigger] stored_times(stored)[i]) is None by {
        assert(stored_time(stored[i]) is None);
    }
    lemma_unknown_is_new(spikes, stored_times(stored), now, cfg.dedup_cooldown_hours);
}

/// Alerts are noted exactly where at least one channel was told, and those
/// that are noted are those that were told.
pub proof fn lemma_only_what_was_told_is_noted(
    cfg: ConfigView,
    channels: Seq<Channel>,
    spikes_found: nat,
    fresh: Seq<SpikeView>,
    plans: Seq<PlanView>,
    replies: Seq<Option<ReplyView>>,
    now: int,
)
    ensures
        ({
            let action = spike_step(
                cfg,
                channels,
                SpikeCheckView::Sending { spikes_found, fresh, plans },
                EventView::Replies { replies, now },
            ).1;
            &&& (action matches ActionView::StoreMarks(_)) <==> exists|i: int|
                0 <= i < plans.len() && (#[trigger] results_of(plans, replies)[i]).sent
            &&& action matches ActionView::StoreMarks(marks) ==> marks == marks_of(
                cfg.account_namespace,
                fresh,
                now,
            )
        }),
{
    lemma_sent_count(results_of(plans, replies));
}

/// As many alerts are counted as channels were told, at most one per channel.
pub proof fn lemma_sent_count(results: Seq<ResultView>)
    ensures
        sent_count(results) <= results.len(),
        sent_count(results) > 0 <==> exists|i: int|
            0 <= i < results.len() && (#[trigger] results[i]).sent,
    decreases results.len(),
{
    if results.len() > 0 {
        let front = results.drop_last();
        lemma_sent_count(front);
        if sent_count(results) > 0 {
            if results.last().sent {
                assert(results[results.len() - 1].sent);
            } else {
                let i = choose|i: int| 0 <= i < front.len() && (#[trigger] front[i]).sent;
                assert(results[i].sent);
            }
        }
        if exists|i: int| 0 <= i < results.len() && (#[trigger] results[i]).sent {
            let i = choose|i: int| 0 <= i < results.len() && (#[trigger] results[i]).sent;
            if i < front.len() {
                assert(front[i].sent);
            }
        }
    }
}

/// What was told and noted is not told again within the cooldown: for a spike
/// of the same service, in the same namespace, what was noted is read back
/// from under the same key, and the spike is held back.
pub proof fn lemma_told_once(
    cfg: ConfigView,
    fresh: Seq<SpikeView>,
    alerted: int,
    i: int,
    again: SpikeView,
    now: int,
)
    requires
        i64::MIN <= alerted <= i64::MAX,
        0 <= i < fresh.len(),
        again.service == fresh[i].service,
        now < alerted + cfg.dedup_cooldown_hours * 3600,
    ensures
        ({
            let (key, value) = marks_of(cfg.account_namespace, fresh, alerted)[i];
            &&& keys_of(cfg.account_namespace, seq![again]) == seq![key]
            &&& new_spikes(
                seq![again],
                stored_times(seq![Some(value)]),
                now,
                cfg.dedup_cooldown_hours,
            ).len() == 0
        }),
{
    let (key, value) = marks_of(cfg.account_namespace, fresh, alerted)[i];
    lemma_cooldown(alerted, now, cfg.dedup_cooldown_hours);
    assert(keys_of(cfg.account_namespace, seq![again]) =~= seq![key]);
    let stored = stored_times(seq![Some(value)]);
    assert(stored[0] == stored_time(Some(value)));
    assert(seq![again].drop_last() =~= Seq::<SpikeView>::empty());
    reveal_with_fuel(new_spikes, 2);
}

/// How far a check has come, in steps.
pub open spec fn progress(state: SpikeCheckView) -> nat {
    match state {
        SpikeCheckView::Idle => 0,
        SpikeCheckView::Asked => 1,
        SpikeCheckView::Found(_) => 2,
        SpikeCheckView::Telling { .. } => 3,
        SpikeCheckView::Sending { .. } => 4,
        SpikeCheckView::Storing { .. } => 5,
        SpikeCheckView::Over => 6,
    }
}

/// Every step of a check leads further, and the answer is given exactly when
/// the check is over.
pub proof fn lemma_check_ends(
    cfg: ConfigView,
    channels: Seq<Channel>,
    state: SpikeCheckView,
    event: EventView,
)
    requires
        spike_fits(cfg, channels, state, event),
    ensures
        ({
            let (next, action) = spike_step(cfg, channels, state, event);
            &&& progress(state) < progress(next)
            &&& (next matches SpikeCheckView::Over) <==> (action matches ActionView::Finish(_))
        }),
{
}

/// What is asked for: the unblended costs by service of today and of as many
/// days before it as the average is taken over, and for a digest of one day
/// less. The day at which the question ends is not included.
pub proof fn lemma_what_is_asked(cfg: ConfigView, channels: Seq<Channel>, now: int)
    ensures
        spike_step(cfg, channels, SpikeCheckView::Idle, EventView::Begin { now }) == (
            SpikeCheckView::Asked,
            ActionView::Ask {
                start: day_text(day_number(now) - cfg.history_days),
                end: day_text(day_number(now) + 1),
                metric: "UnblendedCost"@,
                dimension: "SERVICE"@,
            },
        ),
        digest_step(cfg, channels, DigestRunView::Idle, EventView::Begin { now }) == (
            DigestRunView::Asked,
            ActionView::Ask {
                start: day_text(day_number(now) - cfg.history_days + 1),
                end: day_text(day_number(now) + 1),
                metric: "UnblendedCost"@,
                dimension: "SERVICE"@,
            },
        ),
{
    let days: nat = cfg.history_days;
    assert(day_number(now) + 1 - (days + 1) == day_number(now) - days);
    assert(day_number(now) + 1 - days == day_number(now) - days + 1);
}

/// A check from the answer to the end. All spikes that were found are counted in
/// the answer, also those that are held back. Those that are not held back are
/// told to all channels. They are noted, at the time at which the replies were
/// there, where at least one channel was told, and as many alerts are counted as
/// channels were told.
pub proof fn lemma_a_whole_check(
    cfg: ConfigView,
    channels: Seq<Channel>,
    results: Seq<DayCosts>,
    stored: Seq<Option<Seq<char>>>,
    now: int,
    seconds: int,
    nanos: int,
    replies: Seq<Option<ReplyView>>,
    later: int,
)
    ensures
        ({
            let spikes = ranked_spikes(
                spend_history(results),
                cfg.spike_threshold_pct,
                cfg.history_days,
                cfg.min_avg_daily_usd,
            );
            let times = Seq::new(stored.len(), |i: int| stored_time(stored[i]));
            let fresh = new_spikes(spikes, times, now, cfg.dedup_cooldown_hours);
            let plans = alert_plans(channels, cfg, fresh, time_text(seconds, nanos));
            let told = results_of(plans, replies).filter(|result: ResultView| result.sent).len();
            let begun = SpikeCheckView::Asked;
            let (found, first) = spike_step(cfg, channels, begun, EventView::Spend(results));
            let (telling, second) = spike_step(
                cfg,
                channels,
                found,
                EventView::Marks { stored, now },
            );
            let (sending, third) = spike_step(
                cfg,
                channels,
                telling,
                EventView::Time { seconds, nanos },
            );
            let (storing, fourth) = spike_step(
                cfg,
                channels,
                sending,
                EventView::Replies { replies, now: later },
            );
            let (over, fifth) = spike_step(cfg, channels, storing, EventView::Stored);
            let answer = |found: nat, sent: nat|
                ActionView::Finish(
                    ResponseView { mode: "spike"@, spikes_found: found, alerts_sent: sent },
                );
            &&& spikes.len() == 0 ==> first == answer(0, 0)
            &&& spikes.len() > 0 ==> first == ActionView::ReadMarks(
                Seq::new(
                    spikes.len(),
                    |i: int| key_of(cfg.account_namespace, spikes[i].service),
                ),
            )
            &&& spikes.len() > 0 && fresh.len() == 0 ==> second == answer(spikes.len(), 0)
            &&& spikes.len() > 0 && fresh.len() > 0 ==> {
                &&& second == ActionView::TakeTime(fresh.len())
                &&& third == ActionView::Deliver
                &&& sending == SpikeCheckView::Sending { spikes_found: spikes.len(), fresh, plans }
                &&& told == 0 ==> fourth == answer(spikes.len(), 0)
                &&& told > 0 ==> fourth == ActionView::StoreMarks(
                    Seq::new(
                        fresh.len(),
                        |i: int|
                            (
                                key_of(cfg.account_namespace, fresh[i].service),
                                signed_decimal(later),
                            ),
                    ),
                )
                &&& told > 0 ==> fifth == answer(spikes.len(), told)
            }
        }),
{
    let spikes = ranked_spikes(
        spend_history(results),
        cfg.spike_threshold_pct,
        cfg.history_days,
        cfg.min_avg_daily_usd,
    );
    let times = Seq::new(stored.len(), |i: int| stored_time(stored[i]));
    assert(stored_times(stored) =~= times);
    let fresh = new_spikes(spikes, times, now, cfg.dedup_cooldown_hours);
    let plans = alert_plans(channels, cfg, fresh, time_text(seconds, nanos));
    lemma_told_channels_are_counted(results_of(plans, replies));
    assert(keys_of(cfg.account_namespace, spikes) =~= Seq::new(
        spikes.len(),
        |i: int| key_of(cfg.account_namespace, spikes[i].service),
    ));
    assert(marks_of(cfg.account_namespace, fresh, later) =~= Seq::new(
        fresh.len(),
        |i: int| (key_of(cfg.account_namespace, fresh[i].service), signed_decimal(later)),
    ));
}

/// A digest from the answer to the end. All that was answered is told to all
/// channels, no spikes are counted in the answer, and as many alerts as channels
/// were told.
pub proof fn lemma_a_whole_digest(
    cfg: ConfigView,
    channels: Seq<Channel>,
    results: Seq<DayCosts>,
    seconds: int,
    nanos: int,
    replies: Seq<Option<ReplyView>>,
    later: int,
)
    ensures
        ({
            let plans = digest_plans(
                channels,
                cfg,
                spend_history(results),
                time_text(seconds, nanos),
            );
            let told = results_of(plans, replies).filter(|result: ResultView| result.sent).len();
            let begun = DigestRunView::Asked;
            let (telling, first) = digest_step(cfg, channels, begun, EventView::Spend(results));
            let (sending, second) = digest_step(
                cfg,
                channels,
                telling,
                EventView::Time { seconds, nanos },
            );
            let (over, third) = digest_step(
                cfg,
                channels,
                sending,
                EventView::Replies { replies, now: later },
            );
            &&& first == ActionView::TakeTime(0)
            &&& second == ActionView::Deliver
            &&& sending == DigestRunView::Sending(plans)
            &&& over == DigestRunView::Over
            &&& third == ActionView::Finish(
                ResponseView { mode: "digest"@, spikes_found: 0, alerts_sent: told },
            )
        }),
{
    lemma_told_channels_are_counted(
        results_of(
            digest_plans(channels, cfg, spend_history(results), time_text(seconds, nanos)),
            replies,
        ),
    );
}

/// What a run waits for: each step goes with one sort of event. The days that
/// are asked for must be in the calendar, a time must be one, there must be as
/// many stored values and replies as were asked for, and the channels must be
/// able to tell; nothing else is asked of an event.
pub proof fn lemma_what_a_check_waits_for(
    cfg: ConfigView,
    channels: Seq<Channel>,
    spikes: Seq<SpikeView>,
    plans: Seq<PlanView>,
    results: Seq<DayCosts>,
    stored: Seq<Option<Seq<char>>>,
    replies: Seq<Option<ReplyView>>,
    now: int,
    nanos: int,
    count: nat,
)
    ensures
        ({
            let today = day_number(now);
            let days = cfg.history_days as int;
            let asked = in_calendar(today) && in_calendar(today + 1);
            spike_fits(cfg, channels, SpikeCheckView::Idle, EventView::Begin { now }) <==> asked
                && in_calendar(today - days)
        }),
        ({
            let today = day_number(now);
            let days = cfg.history_days as int;
            let asked = in_calendar(today) && in_calendar(today + 1);
            digest_fits(cfg, DigestRunView::Idle, EventView::Begin { now }) <==> asked
                && in_calendar(today + 1 - days)
        }),
        spike_fits(cfg, channels, SpikeCheckView::Asked, EventView::Spend(results)),
        digest_fits(cfg, DigestRunView::Asked, EventView::Spend(results)),
        spike_fits(
            cfg,
            channels,
            SpikeCheckView::Found(spikes),
            EventView::Marks { stored, now },
        ) <==> stored.len() == spikes.len(),
        spike_fits(
            cfg,
            channels,
            SpikeCheckView::Telling { spikes_found: count, fresh: spikes },
            EventView::Time { seconds: now, nanos },
        ) <==> in_calendar(day_number(now)) && nanos < 1_000_000_000 && forall|i: int|
            0 <= i < channels.len() && #[trigger] channels[i] == Channel::PagerDuty && spikes.len()
                > 1 && cfg.pagerduty is Some ==> cfg.max_spike_display > 0,
        digest_fits(
            cfg,
            DigestRunView::Telling(spend_history(results)),
            EventView::Time { seconds: now, nanos },
        ) <==> in_calendar(day_number(now)) && nanos < 1_000_000_000,
        spike_fits(
            cfg,
            channels,
            SpikeCheckView::Sending { spikes_found: count, fresh: spikes, plans },
            EventView::Replies { replies, now },
        ) <==> replies.len() == plans.len(),
        digest_fits(cfg, DigestRunView::Sending(plans), EventView::Replies { replies, now })
            <==> replies.len() == plans.len(),
        spike_fits(
            cfg,
            channels,
            SpikeCheckView::Storing { spikes_found: count, alerts_sent: count },
            EventView::Stored,
        ),
{
}

} // verus!
