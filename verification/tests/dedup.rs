use stackalert::anomaly::Spike;
use stackalert::dedup::{fetch_timestamp, filter_new_spikes, mark_alerted, ssm_key};
use stackalert::number::Amount;

fn amount(x: f64) -> Amount {
    Amount { bits: x.to_bits() }
}

fn spike(service: &str) -> Spike {
    Spike {
        service: service.to_string(),
        avg_daily: amount(10.0),
        today: amount(20.0),
        pct_increase: amount(100.0),
        extra_usd: amount(10.0),
    }
}

#[test]
fn test_ssm_key_sanitizes_service_name() {
    assert_eq!(
        ssm_key("self", "Amazon EC2"),
        "/stackalert/last-alerted/self/Amazon_EC2"
    );
    assert_eq!(
        ssm_key("700483457242", "AWS Lambda"),
        "/stackalert/last-alerted/700483457242/AWS_Lambda"
    );
    assert_eq!(
        ssm_key("self", "Amazon S3"),
        "/stackalert/last-alerted/self/Amazon_S3"
    );
}

#[test]
fn test_ssm_key_allows_hyphens_and_dots() {
    assert_eq!(
        ssm_key("self", "some-service.v2"),
        "/stackalert/last-alerted/self/some-service.v2"
    );
}

#[test]
fn keys_keep_letters_of_any_script() {
    assert_eq!(ssm_key("self", "Größe/日本 (x)"), "/stackalert/last-alerted/self/Größe_日本__x_");
    assert_eq!(ssm_key("self", ""), "/stackalert/last-alerted/self/");
}

#[test]
fn accounts_have_keys_of_their_own() {
    assert_ne!(ssm_key("self", "Amazon EC2"), ssm_key("700483457242", "Amazon EC2"));
    assert_ne!(ssm_key("self", "Amazon EC2"), ssm_key("self", "Amazon RDS"));
    // The last slash parts the namespace from the service, whatever it holds.
    assert_ne!(ssm_key("a", "b/c"), ssm_key("a/b", "c"));
    assert_eq!(ssm_key("a/b", "c"), "/stackalert/last-alerted/a/b/c");
    assert_eq!(ssm_key("a", "b/c"), "/stackalert/last-alerted/a/b_c");
}

#[test]
fn recent_alerts_are_held_back() {
    let now: i64 = 1_774_612_800;
    let hour: i64 = 3600;
    let spikes = vec![spike("A"), spike("B"), spike("C"), spike("D"), spike("E")];
    let known = vec![
        Some(now - hour),
        None,
        Some(now - 6 * hour),
        Some(now - 6 * hour + 1),
        Some(now + hour),
    ];
    let names: Vec<String> = filter_new_spikes(spikes, &known, now, 6)
        .iter()
        .map(|s| s.service.clone())
        .collect();
    assert_eq!(names, vec!["B", "C"]);
}

#[test]
fn nothing_known_holds_nothing_back() {
    let spikes = vec![spike("A"), spike("B")];
    assert_eq!(filter_new_spikes(spikes, &vec![None, None], 0, 6).len(), 2);
    assert!(filter_new_spikes(Vec::new(), &Vec::new(), 0, 6).is_empty());
}

#[test]
fn times_far_apart_are_compared_all_the_same() {
    let known = vec![Some(i64::MIN), Some(i64::MAX)];
    let names: Vec<String> = filter_new_spikes(vec![spike("A"), spike("B")], &known, 0, u32::MAX)
        .iter()
        .map(|s| s.service.clone())
        .collect();
    assert_eq!(names, vec!["A"]);
}

#[test]
fn what_was_noted_is_read_back() {
    let now: i64 = 1_774_612_800;
    let marks = mark_alerted(&vec![spike("Amazon EC2"), spike("Amazon RDS")], "self", now);
    assert_eq!(marks.len(), 2);
    assert_eq!(marks[0].key, "/stackalert/last-alerted/self/Amazon_EC2");
    assert_eq!(marks[1].key, ssm_key("self", "Amazon RDS"));
    assert_eq!(marks[0].value, "1774612800");
    let read = fetch_timestamp(Some(&marks[0].value));
    assert_eq!(read, Some(now));
    // Held back for six hours, and then no longer.
    let again = |at: i64| filter_new_spikes(vec![spike("Amazon EC2")], &vec![read], at, 6).len();
    assert_eq!(again(now + 6 * 3600 - 1), 0);
    assert_eq!(again(now + 6 * 3600), 1);
}

#[test]
fn what_is_no_time_counts_as_no_alert() {
    assert_eq!(fetch_timestamp(None), None);
    assert_eq!(fetch_timestamp(Some("")), None);
    assert_eq!(fetch_timestamp(Some("soon")), None);
    assert_eq!(fetch_timestamp(Some("12.5")), None);
    assert_eq!(fetch_timestamp(Some(" 12")), None);
    assert_eq!(fetch_timestamp(Some("9223372036854775808")), None);
    assert_eq!(fetch_timestamp(Some("+12")), Some(12));
    assert_eq!(fetch_timestamp(Some("-9223372036854775808")), Some(i64::MIN));
}
