use chrono::{DateTime, Utc};
use stackalert::check::{can_begin, run_digest, Action, DigestRun, Event};
use stackalert::config::{Config, Env, EnvVar};
use stackalert::cost_explorer::{
    build_aws_config, fetch_spend, lay_out, query_between, spend_query, CostGroup, CostMetric, DayCosts, SpendHistory,
};
use stackalert::dates::{is_in_calendar, FIRST_DAY, LAST_DAY};
use stackalert::number::Amount;

fn float(a: Amount) -> f64 {
    f64::from_bits(a.bits)
}

fn metric(name: &str, amount: Option<&str>) -> CostMetric {
    CostMetric { name: name.to_string(), amount: amount.map(String::from) }
}

fn group(keys: &[&str], amount: Option<&str>) -> CostGroup {
    CostGroup {
        keys: keys.iter().map(|k| k.to_string()).collect(),
        metrics: vec![metric("UnblendedCost", amount)],
    }
}

fn day(start: Option<&str>, groups: Vec<CostGroup>) -> DayCosts {
    DayCosts { start: start.map(String::from), groups }
}

fn costs(history: &SpendHistory, service: &str) -> Vec<f64> {
    let found: Vec<Vec<f64>> = history
        .iter()
        .filter(|s| s.service == service)
        .map(|s| s.costs.iter().map(|&a| float(a)).collect())
        .collect();
    assert_eq!(found.len(), 1, "{service}");
    found[0].clone()
}

#[test]
fn costs_are_laid_out_by_day() {
    let results = vec![
        day(
            Some("2026-03-26"),
            vec![group(&["Amazon EC2"], Some("19.2")), group(&["Amazon S3"], Some("0.42"))],
        ),
        day(Some("2026-03-25"), vec![group(&["Amazon EC2"], Some("18.4000000001"))]),
        day(Some("2026-03-27"), vec![group(&["Amazon RDS"], Some("5"))]),
    ];
    let history = fetch_spend(&results);
    assert_eq!(history.len(), 3);
    assert_eq!(costs(&history, "Amazon EC2"), vec![18.4000000001, 19.2, 0.0]);
    assert_eq!(costs(&history, "Amazon S3"), vec![0.0, 0.42, 0.0]);
    assert_eq!(costs(&history, "Amazon RDS"), vec![0.0, 0.0, 5.0]);
}

#[test]
fn days_may_be_given_as_numbers() {
    let results = vec![
        day(None, vec![group(&["A"], Some("2"))]),
        day(None, vec![group(&["A"], Some("1")), group(&["B"], Some("5"))]),
        day(None, vec![group(&["B"], Some("6"))]),
    ];
    let history = lay_out(&vec![Some(12), Some(-3), None], &results);
    assert_eq!(costs(&history, "A"), vec![1.0, 2.0]);
    assert_eq!(costs(&history, "B"), vec![5.0, 0.0]);
    let query = query_between("a".to_string(), "b".to_string());
    assert_eq!((query.start.as_str(), query.end.as_str()), ("a", "b"));
    assert_eq!(query.metric, "UnblendedCost");
}

#[test]
fn noise_is_left_out() {
    let results = vec![day(
        Some("2026-03-26"),
        vec![
            group(&["Below"], Some("0.0099")),
            group(&["Cent"], Some("0.01")),
            group(&["Refund"], Some("-3.5")),
            group(&["Nothing"], None),
            group(&["Words"], Some("a lot")),
            CostGroup { keys: vec!["Other".to_string()], metrics: vec![metric("Usage", Some("7"))] },
        ],
    )];
    let history = fetch_spend(&results);
    assert_eq!(history.len(), 1);
    assert_eq!(costs(&history, "Cent"), vec![0.01]);
}

#[test]
fn a_group_without_a_key_is_unknown() {
    let results = vec![day(
        Some("2026-03-26"),
        vec![group(&[], Some("1.5")), group(&["First", "Second"], Some("2.5"))],
    )];
    let history = fetch_spend(&results);
    assert_eq!(costs(&history, "Unknown"), vec![1.5]);
    assert_eq!(costs(&history, "First"), vec![2.5]);
}

#[test]
fn results_without_a_day_are_left_out() {
    let results = vec![
        day(None, vec![group(&["A"], Some("1"))]),
        day(Some("2026-02-30"), vec![group(&["A"], Some("2"))]),
        day(Some("yesterday"), vec![group(&["A"], Some("3"))]),
        day(Some("2026-03-01"), vec![group(&["A"], Some("4"))]),
        day(Some("2026-02-28"), vec![]),
    ];
    let history = fetch_spend(&results);
    assert_eq!(history.len(), 1);
    assert_eq!(costs(&history, "A"), vec![0.0, 4.0]);
}

#[test]
fn the_last_cost_of_a_day_stands() {
    let results = vec![
        day(Some("2026-03-26"), vec![group(&["A"], Some("1")), group(&["A"], Some("2"))]),
        day(Some("2026-03-26"), vec![group(&["A"], Some("3")), group(&["A"], Some("0.001"))]),
    ];
    let history = fetch_spend(&results);
    assert_eq!(costs(&history, "A"), vec![3.0]);
}

#[test]
fn no_results_make_no_history() {
    assert!(fetch_spend(&Vec::new()).is_empty());
    assert!(fetch_spend(&vec![day(Some("2026-03-26"), vec![])]).is_empty());
}

#[test]
fn a_history_lists_no_service_twice() {
    let results: Vec<DayCosts> = (1..=9)
        .map(|d| {
            day(
                Some(&format!("2026-03-0{d}")),
                vec![group(&["A"], Some("1")), group(&["B"], Some("0.5")), group(&["A"], Some("2"))],
            )
        })
        .collect();
    let history = fetch_spend(&results);
    assert_eq!(history.len(), 2);
    for spend in &history {
        assert_eq!(spend.costs.len(), 9);
        for &cost in &spend.costs {
            assert!(float(cost) == 0.0 || float(cost) >= 0.01);
        }
    }
}

fn ask(now: i64) -> (String, String) {
    let vars = vec![
        EnvVar { name: "NOTIFY_CHANNELS".to_string(), value: ",".to_string() },
        EnvVar { name: "HISTORY_DAYS".to_string(), value: "7".to_string() },
    ];
    let cfg = Config::load(&Env { vars }, &Vec::new()).unwrap();
    match run_digest(&cfg, &Vec::new(), DigestRun::Idle, Event::Begin { now }).1 {
        Action::Ask(query) => (query.start, query.end),
        other => panic!("{other:?}"),
    }
}

#[test]
fn the_question_spans_the_last_days_and_today() {
    // 2026-03-27T12:00:00Z
    let query = ask(1_774_612_800);
    assert_eq!(query, ("2026-03-21".to_string(), "2026-03-28".to_string()));
    // The last second of a day, the first of the next, and a time before 1970.
    assert_eq!(ask(1_774_655_999).1, "2026-03-28");
    assert_eq!(ask(1_774_656_000).1, "2026-03-29");
    assert_eq!(ask(-1).1, "1970-01-01");
    for now in [0, 951_782_400, 4_102_444_800, -86_400, -86_401] {
        // The end is not included: it is tomorrow.
        let tomorrow = DateTime::<Utc>::from_timestamp(now + 86_400, 0).unwrap();
        assert_eq!(ask(now).1, tomorrow.format("%Y-%m-%d").to_string());
    }
}

#[test]
fn a_full_answer_ends_with_today() {
    // Today is day 100: the question is for the days 97 to 100.
    let dates = vec![Some(99), Some(97), Some(100), Some(98)];
    let results = vec![
        day(None, vec![group(&["A"], Some("3"))]),
        day(None, vec![group(&["A"], Some("1"))]),
        day(None, vec![group(&["A"], Some("4")), group(&["B"], Some("9"))]),
        day(None, vec![group(&["A"], Some("2"))]),
    ];
    let history = lay_out(&dates, &results);
    assert_eq!(costs(&history, "A"), vec![1.0, 2.0, 3.0, 4.0]);
    assert_eq!(costs(&history, "B"), vec![0.0, 0.0, 0.0, 9.0]);
    let query = spend_query(100, 4);
    assert_eq!((query.start.as_str(), query.end.as_str()), ("0001-04-07", "0001-04-11"));
}

#[test]
fn days_are_counted_from_the_year_one() {
    let query = spend_query(0, 1);
    assert_eq!(query.start, "0000-12-31");
    assert_eq!(query.end, "0001-01-01");
    assert_eq!(query.metric, "UnblendedCost");
    assert_eq!(query.dimension, "SERVICE");
    assert_eq!(spend_query(719_162, 0).end, "1970-01-01");
    assert_eq!(spend_query(LAST_DAY - 1, 0).end, "+262142-12-31");
    assert_eq!(spend_query(FIRST_DAY - 1, 0).end, "-262143-01-01");
}

#[test]
fn the_calendar_has_ends() {
    let last: i64 = (LAST_DAY as i64 - 719_163) * 86_400 + 86_399;
    let first: i64 = (FIRST_DAY as i64 - 719_163) * 86_400;
    assert!(is_in_calendar(last, 0));
    assert!(!is_in_calendar(last + 1, 0));
    assert!(is_in_calendar(first, 0));
    assert!(!is_in_calendar(first - 1, 0));
    assert!(!is_in_calendar(first, 1));
    assert!(is_in_calendar(last, 191_491_528));
    assert!(!is_in_calendar(last, 191_491_529));
    // A run asks up to tomorrow.
    assert!(can_begin(last - 86_400, 0));
    assert!(!can_begin(last, 0));
    assert!(can_begin(first, 1));
    assert!(!can_begin(first, 2));
    assert!(!can_begin(first - 1, 1));
    assert!(!can_begin(0, i64::MIN));
    assert!(DateTime::<Utc>::from_timestamp(last, 0).is_some());
    assert!(DateTime::<Utc>::from_timestamp(last + 1, 0).is_none());
    assert!(DateTime::<Utc>::from_timestamp(first, 0).is_some());
    assert!(DateTime::<Utc>::from_timestamp(first - 1, 0).is_none());
}

fn env(vars: &[(&str, &str)]) -> Env {
    Env {
        vars: vars
            .iter()
            .map(|(n, v)| EnvVar { name: n.to_string(), value: v.to_string() })
            .collect(),
    }
}

#[test]
fn a_role_is_assumed_where_one_is_configured() {
    let own = Config::load(&env(&[("NOTIFY_CHANNELS", "")]), &Vec::new()).unwrap();
    let access = build_aws_config(&own);
    assert_eq!(access.region, "us-east-1");
    assert!(access.role.is_none());
    let vars = [
        ("NOTIFY_CHANNELS", ""),
        ("CROSS_ACCOUNT_ROLE_ARN", "arn:aws:iam::1:role/R"),
        ("EXTERNAL_ID", "x-1"),
    ];
    let other = Config::load(&env(&vars), &Vec::new()).unwrap();
    let role = build_aws_config(&other).role.unwrap();
    assert_eq!(role.role_arn, "arn:aws:iam::1:role/R");
    assert_eq!(role.session_name, "stackalert-check");
    assert_eq!(role.duration_secs, 900);
    assert_eq!(role.external_id, Some("x-1".to_string()));
}
