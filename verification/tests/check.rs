use stackalert::check::{
    run_digest, run_spike_check, wants_digest, Action, DigestRun, Event, SpikeCheck,
};
use stackalert::config::{Config, Env, EnvVar, Fetched, Parameter, Stop};
use stackalert::cost_explorer::{CostGroup, CostMetric, DayCosts};
use stackalert::json::Json;
use stackalert::notify::{
    are_able_to_alert, build_channels, count_sent, settle, Channel, Delivery, NotifyChannel, Plan,
    Reply,
};

const NOON: i64 = 1_774_612_800; // 2026-03-27T12:00:00Z

fn config(vars: &[(&str, &str)]) -> Config {
    let env = Env {
        vars: vars
            .iter()
            .map(|(n, v)| EnvVar { name: n.to_string(), value: v.to_string() })
            .collect(),
    };
    let mut params: Vec<Parameter> = Vec::new();
    loop {
        match Config::load(&env, &params) {
            Ok(cfg) => return cfg,
            Err(Stop::Fetch { env_key, param }) => {
                params.push(Parameter { env_key, fetched: Fetched::Value(param) })
            }
            Err(other) => panic!("{other:?}"),
        }
    }
}

fn everything() -> Config {
    config(&[
        ("NOTIFY_CHANNELS", "telegram,slack,teams,pagerduty,webhook,ses,sns"),
        ("TELEGRAM_BOT_TOKEN_SSM_PARAM", "token"),
        ("TELEGRAM_CHAT_ID", "7"),
        ("SLACK_WEBHOOK_URL_SSM_PARAM", "https://slack"),
        ("TEAMS_WEBHOOK_URL_SSM_PARAM", "https://teams"),
        ("PAGERDUTY_ROUTING_KEY_SSM_PARAM", "routing"),
        ("WEBHOOK_URL", "https://hook"),
        ("WEBHOOK_AUTH_HEADER_SSM_PARAM", "Bearer x"),
        ("SES_FROM_ADDRESS", "a@x"),
        ("SES_TO_ADDRESSES", "b@x,c@x"),
        ("SNS_TOPIC_ARN", "arn:topic"),
    ])
}

fn day(start: &str, costs: &[(&str, &str)]) -> DayCosts {
    DayCosts {
        start: Some(start.to_string()),
        groups: costs
            .iter()
            .map(|(service, amount)| CostGroup {
                keys: vec![service.to_string()],
                metrics: vec![CostMetric {
                    name: "UnblendedCost".to_string(),
                    amount: Some(amount.to_string()),
                }],
            })
            .collect(),
    }
}

fn spend() -> Vec<DayCosts> {
    vec![
        day("2026-03-26", &[("Amazon EC2", "18"), ("Amazon RDS", "5"), ("Amazon S3", "1")]),
        day("2026-03-27", &[("Amazon EC2", "75"), ("Amazon RDS", "20"), ("Amazon S3", "1")]),
    ]
}

fn found(cfg: &Config, channels: &Vec<Channel>) -> SpikeCheck {
    let (state, action) =
        run_spike_check(cfg, channels, SpikeCheck::Idle, Event::Begin { now: NOON });
    match action {
        Action::Ask(query) => {
            // Today, and the seven days that the average is taken over.
            assert_eq!(query.start, "2026-03-20");
            assert_eq!(query.end, "2026-03-28");
        }
        other => panic!("{other:?}"),
    }
    let (state, action) = run_spike_check(cfg, channels, state, Event::Spend(spend()));
    match action {
        Action::ReadMarks(keys) => assert_eq!(
            keys,
            vec![
                "/stackalert/last-alerted/self/Amazon_EC2",
                "/stackalert/last-alerted/self/Amazon_RDS",
            ]
        ),
        other => panic!("{other:?}"),
    }
    state
}

#[test]
fn a_mode_is_picked_by_its_name() {
    assert!(wants_digest(Some("digest")));
    assert!(!wants_digest(Some("spike")));
    assert!(!wants_digest(Some("Digest")));
    assert!(!wants_digest(None));
}

#[test]
fn channels_come_in_the_order_in_which_they_are_listed() {
    let cfg = everything();
    let channels = build_channels(&cfg);
    let names: Vec<&str> = channels.iter().map(|c| c.name()).collect();
    assert_eq!(names, cfg.notify_channels);
    let mut other = everything();
    other.notify_channels = vec!["sns".to_string(), "smoke".to_string(), "slack".to_string()];
    assert_eq!(build_channels(&other), vec![Channel::Sns, Channel::Slack]);
}

#[test]
fn a_check_tells_what_it_finds_and_notes_it() {
    let cfg = everything();
    let channels = build_channels(&cfg);
    let state = found(&cfg, &channels);
    // The second one was told an hour ago.
    let stored = vec![None, Some((NOON - 3600).to_string())];
    let (state, action) =
        run_spike_check(&cfg, &channels, state, Event::Marks { stored, now: NOON });
    match action {
        Action::TakeTime(count) => assert!(are_able_to_alert(&channels, &cfg, count)),
        other => panic!("{other:?}"),
    }
    let (state, action) =
        run_spike_check(&cfg, &channels, state, Event::Time { seconds: NOON, nanos: 0 });
    assert!(matches!(action, Action::Deliver));
    let mut replies: Vec<Option<Reply>> = Vec::new();
    match &state {
        SpikeCheck::Sending { spikes_found, fresh, plans } => {
            assert_eq!(*spikes_found, 2);
            assert_eq!(fresh.len(), 1);
            assert_eq!(plans.len(), 7);
            for plan in plans {
                let delivery = plan.step.as_ref().unwrap().as_ref().unwrap();
                replies.push(Some(match (plan.channel, delivery) {
                    (Channel::Telegram, Delivery::Post { url, .. }) => {
                        assert_eq!(url, "https://api.telegram.org/bottoken/sendMessage");
                        Reply::Status(200)
                    }
                    (Channel::Slack, Delivery::Post { url, .. }) => {
                        assert_eq!(url, "https://slack");
                        Reply::Status(404)
                    }
                    (Channel::Teams, Delivery::Post { url, .. }) => {
                        assert_eq!(url, "https://teams");
                        Reply::Failed("timeout".to_string())
                    }
                    (Channel::PagerDuty, Delivery::Post { url, .. }) => {
                        assert_eq!(url, "https://events.pagerduty.com/v2/enqueue");
                        Reply::Status(202)
                    }
                    (Channel::Webhook, Delivery::Post { url, body, authorization }) => {
                        assert_eq!(url, "https://hook");
                        assert_eq!(authorization, &Some("Bearer x".to_string()));
                        match body {
                            Json::Object(fields) => {
                                assert_eq!(fields[2].name, "timestamp");
                                match &fields[2].value {
                                    Json::Text(time) => {
                                        assert_eq!(time, "2026-03-27T12:00:00+00:00")
                                    }
                                    other => panic!("{other:?}"),
                                }
                            }
                            other => panic!("{other:?}"),
                        }
                        Reply::Status(299)
                    }
                    (Channel::Ses, Delivery::Email { from, to, subject, .. }) => {
                        assert_eq!(from, "a@x");
                        assert_eq!(to, &vec!["b@x", "c@x"]);
                        assert_eq!(subject, "StackAlert: Cost Spike — Amazon EC2 (+$57.00)");
                        Reply::Accepted
                    }
                    (Channel::Sns, Delivery::Publish { topic_arn, subject, .. }) => {
                        assert_eq!(topic_arn, "arn:topic");
                        assert_eq!(subject, "StackAlert: Cost Spike Detected");
                        Reply::Failed("denied".to_string())
                    }
                    (channel, other) => panic!("{channel:?}: {other:?}"),
                }));
            }
            let results = settle(plans, &replies);
            assert_eq!(count_sent(&results), 4);
            let sent: Vec<bool> = results.iter().map(|r| r.sent).collect();
            assert_eq!(sent, vec![true, false, false, true, true, true, false]);
            assert_eq!(results[1].error, None);
            assert_eq!(results[2].error, Some("Failed to send Teams webhook".to_string()));
            assert_eq!(results[6].error, Some("SNS publish failed: denied".to_string()));
            assert_eq!(results[6].channel, "sns");
        }
        other => panic!("{other:?}"),
    }
    let (state, action) =
        run_spike_check(&cfg, &channels, state, Event::Replies { replies, now: NOON + 2 });
    match action {
        Action::StoreMarks(marks) => {
            assert_eq!(marks.len(), 1);
            assert_eq!(marks[0].key, "/stackalert/last-alerted/self/Amazon_EC2");
            assert_eq!(marks[0].value, (NOON + 2).to_string());
        }
        other => panic!("{other:?}"),
    }
    let (state, action) = run_spike_check(&cfg, &channels, state, Event::Stored);
    assert!(matches!(state, SpikeCheck::Over));
    match action {
        Action::Finish(response) => {
            assert_eq!(response.mode, "spike");
            assert_eq!(response.spikes_found, 2);
            assert_eq!(response.alerts_sent, 4);
        }
        other => panic!("{other:?}"),
    }
}

fn answer(action: Action) -> (String, usize, usize) {
    match action {
        Action::Finish(response) => (response.mode, response.spikes_found, response.alerts_sent),
        other => panic!("{other:?}"),
    }
}

#[test]
fn a_check_that_finds_nothing_is_over() {
    let cfg = everything();
    let channels = build_channels(&cfg);
    let (state, _) = run_spike_check(&cfg, &channels, SpikeCheck::Idle, Event::Begin { now: NOON });
    let calm = vec![day("2026-03-26", &[("A", "5")]), day("2026-03-27", &[("A", "5")])];
    let (state, action) = run_spike_check(&cfg, &channels, state, Event::Spend(calm));
    assert!(matches!(state, SpikeCheck::Over));
    assert_eq!(answer(action), ("spike".to_string(), 0, 0));
}

#[test]
fn what_is_held_back_is_not_told() {
    let cfg = everything();
    let channels = build_channels(&cfg);
    let state = found(&cfg, &channels);
    let stored = vec![Some(NOON.to_string()), Some((NOON - 100).to_string())];
    let (state, action) =
        run_spike_check(&cfg, &channels, state, Event::Marks { stored, now: NOON });
    assert!(matches!(state, SpikeCheck::Over));
    assert_eq!(answer(action), ("spike".to_string(), 2, 0));
}

#[test]
fn nothing_is_noted_where_no_channel_was_told() {
    let cfg = config(&[
        ("NOTIFY_CHANNELS", "slack"),
        ("SLACK_WEBHOOK_URL_SSM_PARAM", "https://slack"),
    ]);
    let channels = build_channels(&cfg);
    let state = found(&cfg, &channels);
    // What is stored may be unreadable.
    let stored = vec![None, Some("?".to_string())];
    let (state, _) = run_spike_check(&cfg, &channels, state, Event::Marks { stored, now: NOON });
    let (state, _) = run_spike_check(
        &cfg,
        &channels,
        state,
        Event::Time { seconds: NOON, nanos: 1 },
    );
    let replies = vec![Some(Reply::Status(500))];
    let (state, action) =
        run_spike_check(&cfg, &channels, state, Event::Replies { replies, now: NOON });
    assert!(matches!(state, SpikeCheck::Over));
    assert_eq!(answer(action), ("spike".to_string(), 2, 0));
}

#[test]
fn a_digest_tells_all_but_pagerduty() {
    let cfg = everything();
    let channels = build_channels(&cfg);
    let (state, action) = run_digest(&cfg, &channels, DigestRun::Idle, Event::Begin { now: NOON });
    match action {
        Action::Ask(query) => {
            assert_eq!(query.start, "2026-03-21");
            assert_eq!(query.end, "2026-03-28");
        }
        other => panic!("{other:?}"),
    }
    let (state, action) = run_digest(&cfg, &channels, state, Event::Spend(spend()));
    assert!(matches!(action, Action::TakeTime(0)));
    let (state, action) =
        run_digest(&cfg, &channels, state, Event::Time { seconds: NOON, nanos: 500_000_000 });
    assert!(matches!(action, Action::Deliver));
    let mut replies: Vec<Option<Reply>> = Vec::new();
    match &state {
        DigestRun::Sending(plans) => {
            for plan in plans {
                let step = plan.step.as_ref().unwrap();
                assert_eq!(step.is_none(), plan.channel == Channel::PagerDuty);
                replies.push(step.as_ref().map(|d| match d {
                    Delivery::Post { .. } => Reply::Status(200),
                    _ => Reply::Accepted,
                }));
            }
        }
        other => panic!("{other:?}"),
    }
    let (state, action) =
        run_digest(&cfg, &channels, state, Event::Replies { replies, now: NOON });
    assert!(matches!(state, DigestRun::Over));
    assert_eq!(answer(action), ("digest".to_string(), 0, 6));
}

#[test]
fn a_failure_stays_with_its_channel() {
    let cfg = config(&[
        ("NOTIFY_CHANNELS", "slack,webhook"),
        ("SLACK_WEBHOOK_URL_SSM_PARAM", "https://slack"),
        ("WEBHOOK_URL", "https://hook"),
    ]);
    let channels = build_channels(&cfg);
    let state = DigestRun::Telling(Vec::new());
    let (state, _) =
        run_digest(&cfg, &channels, state, Event::Time { seconds: NOON, nanos: 0 });
    match state {
        DigestRun::Sending(plans) => {
            let good = settle(&plans, &vec![Some(Reply::Status(200)), Some(Reply::Status(204))]);
            let bad = settle(
                &plans,
                &vec![Some(Reply::Failed("x".to_string())), Some(Reply::Status(204))],
            );
            assert!(good[0].sent && good[1].sent && bad[1].sent);
            assert!(!bad[0].sent);
            assert_eq!(bad[0].error, Some("Failed to send Slack webhook".to_string()));
        }
        other => panic!("{other:?}"),
    }
}

#[test]
fn what_cannot_be_put_together_is_named() {
    let channel = Channel::Ses;
    let delivery = Delivery::Email {
        from: "a@x".to_string(),
        to: vec!["b@x".to_string()],
        subject: "s".to_string(),
        html: "h".to_string(),
    };
    let plans = vec![Plan { channel, step: Ok(Some(delivery)) }];
    let unmade = settle(&plans, &vec![Some(Reply::Unmade("subject".to_string()))]);
    assert!(!unmade[0].sent);
    assert_eq!(unmade[0].error, Some("subject".to_string()));
    let failed = settle(&plans, &vec![Some(Reply::Failed("denied".to_string()))]);
    assert!(!failed[0].sent);
    assert_eq!(failed[0].error, Some("SES send failed: denied".to_string()));
}

#[test]
fn a_channel_without_its_settings_says_so() {
    let mut cfg = everything();
    cfg.telegram = None;
    cfg.slack = None;
    cfg.teams = None;
    cfg.pagerduty = None;
    cfg.webhook = None;
    cfg.ses = None;
    cfg.sns = None;
    let channels = build_channels(&cfg);
    let labels = ["Telegram", "Slack", "Teams", "PagerDuty", "Webhook", "SES", "SNS"];
    let spikes = match found(&cfg, &channels) {
        SpikeCheck::Found(spikes) => spikes,
        other => panic!("{other:?}"),
    };
    for (channel, label) in channels.iter().zip(labels) {
        let missing = format!("{label} channel active but config missing");
        assert_eq!(channel.send_spike_alert(&cfg, &spikes, "").unwrap_err(), missing);
        assert!(channel.send_spike_alert(&cfg, &Vec::new(), "").unwrap().is_none());
        if *channel == Channel::PagerDuty {
            assert!(channel.send_daily_digest(&cfg, &Vec::new(), "").unwrap().is_none());
        } else {
            assert_eq!(channel.send_daily_digest(&cfg, &Vec::new(), "").unwrap_err(), missing);
        }
    }
}

#[test]
fn failures_are_worded_by_the_channel() {
    let texts: Vec<String> = [
        Channel::Telegram,
        Channel::Slack,
        Channel::Teams,
        Channel::PagerDuty,
        Channel::Webhook,
        Channel::Ses,
        Channel::Sns,
    ]
    .iter()
    .map(|c| c.failure_text("why"))
    .collect();
    assert_eq!(
        texts,
        vec![
            "Failed to send Telegram message",
            "Failed to send Slack webhook",
            "Failed to send Teams webhook",
            "Failed to send PagerDuty event",
            "Failed to send webhook",
            "SES send failed: why",
            "SNS publish failed: why",
        ]
    );
}

#[test]
fn pagerduty_needs_room_for_more_than_one_spike() {
    let mut cfg = everything();
    let channels = build_channels(&cfg);
    assert!(are_able_to_alert(&channels, &cfg, 2));
    cfg.max_spike_display = 0;
    assert!(are_able_to_alert(&channels, &cfg, 1));
    assert!(!are_able_to_alert(&channels, &cfg, 2));
    assert!(are_able_to_alert(&vec![Channel::Slack], &cfg, 2));
    // Without its settings it tells of nothing, and says so.
    cfg.pagerduty = None;
    assert!(are_able_to_alert(&channels, &cfg, 2));
    let channels = vec![Channel::PagerDuty];
    let state = found(&cfg, &channels);
    let stored = vec![None, None];
    let (state, action) =
        run_spike_check(&cfg, &channels, state, Event::Marks { stored, now: NOON });
    assert!(matches!(action, Action::TakeTime(2)));
    let (state, _) =
        run_spike_check(&cfg, &channels, state, Event::Time { seconds: NOON, nanos: 0 });
    match &state {
        SpikeCheck::Sending { plans, .. } => assert_eq!(
            settle(plans, &vec![None])[0].error,
            Some("PagerDuty channel active but config missing".to_string())
        ),
        other => panic!("{other:?}"),
    }
}
