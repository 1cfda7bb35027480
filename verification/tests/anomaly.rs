use stackalert::anomaly::{detect_spikes, Spike};
use stackalert::cost_explorer::{ServiceSpend, SpendHistory};
use stackalert::number::Amount;

fn amount(x: f64) -> Amount {
    Amount { bits: x.to_bits() }
}

fn float(a: Amount) -> f64 {
    f64::from_bits(a.bits)
}

fn service(name: &str, days: Vec<f64>) -> ServiceSpend {
    ServiceSpend {
        service: name.to_string(),
        costs: days.into_iter().map(amount).collect(),
    }
}

fn make_history(days: Vec<f64>) -> SpendHistory {
    vec![service("Amazon EC2", days)]
}

fn detect(history: &SpendHistory, threshold: f64, days: u32, min_avg: f64) -> Vec<Spike> {
    detect_spikes(history, amount(threshold), days, amount(min_avg))
}

#[test]
fn test_spike_detected() {
    // 7 days avg ~$18, today $75: a 316% spike.
    let history = make_history(vec![18.0, 19.0, 17.5, 18.5, 18.0, 19.5, 17.0, 75.0]);
    let spikes = detect(&history, 50.0, 7, 0.10);
    assert_eq!(spikes.len(), 1);
    assert!(float(spikes[0].pct_increase) > 300.0);
}

#[test]
fn test_no_spike_normal_variation() {
    // Variation of 10% either way is no spike.
    let history = make_history(vec![18.0, 19.0, 17.5, 18.5, 18.0, 19.5, 17.0, 19.0]);
    let spikes = detect(&history, 50.0, 7, 0.10);
    assert!(spikes.is_empty());
}

#[test]
fn test_new_service_flagged() {
    // The service appeared today for the first time.
    let history = make_history(vec![0.0, 0.0, 0.0, 0.0, 0.0, 0.0, 0.0, 45.0]);
    let spikes = detect(&history, 50.0, 7, 0.10);
    assert_eq!(spikes.len(), 1);
    assert_eq!(float(spikes[0].avg_daily), 0.0);
}

#[test]
fn test_new_service_partial_day_flagged() {
    let history = make_history(vec![0.0, 0.0, 0.0, 0.0, 0.0, 0.0, 0.0, 0.50]);
    let spikes = detect(&history, 50.0, 7, 0.10);
    assert_eq!(spikes.len(), 1);
}

#[test]
fn test_new_service_small_cost_flagged() {
    let history = make_history(vec![0.0, 0.0, 0.0, 0.0, 0.0, 0.0, 0.0, 0.10]);
    let spikes = detect(&history, 50.0, 7, 0.10);
    assert_eq!(spikes.len(), 1);
}

#[test]
fn test_tiny_spend_ignored() {
    // A service of $0.05 a day is noise, whatever it does.
    let history = make_history(vec![0.05, 0.04, 0.06, 0.05, 0.04, 0.05, 0.06, 0.50]);
    let spikes = detect(&history, 50.0, 7, 0.10);
    assert!(spikes.is_empty());
}

#[test]
fn test_spikes_sorted_by_extra_spend() {
    let history = vec![
        service("Amazon RDS", vec![5.0, 5.0, 5.0, 5.0, 5.0, 5.0, 5.0, 20.0]),
        service("Amazon EC2", vec![18.0, 18.0, 18.0, 18.0, 18.0, 18.0, 18.0, 75.0]),
    ];
    let spikes = detect(&history, 50.0, 7, 0.10);
    assert_eq!(spikes.len(), 2);
    assert_eq!(spikes[0].service, "Amazon EC2");
}

#[test]
fn test_single_day_history() {
    // One day is not enough to tell.
    let history = make_history(vec![75.0]);
    let spikes = detect(&history, 50.0, 7, 0.10);
    assert!(spikes.is_empty());
}

#[test]
fn test_threshold_boundary() {
    // Growth of exactly 50% with a threshold of 50%.
    let history = make_history(vec![10.0, 10.0, 10.0, 10.0, 10.0, 10.0, 10.0, 15.0]);
    let spikes = detect(&history, 50.0, 7, 0.10);
    assert!(spikes.is_empty());
}

#[test]
fn test_just_above_threshold() {
    let history = make_history(vec![10.0, 10.0, 10.0, 10.0, 10.0, 10.0, 10.0, 15.01]);
    let spikes = detect(&history, 50.0, 7, 0.10);
    assert_eq!(spikes.len(), 1);
}

#[test]
fn figures_of_a_spike_are_rounded_to_cents() {
    let history = make_history(vec![18.4, 18.4, 75.2]);
    let spikes = detect(&history, 50.0, 7, 0.10);
    assert_eq!(spikes.len(), 1);
    assert_eq!(float(spikes[0].avg_daily), 18.4);
    assert_eq!(float(spikes[0].today), 75.2);
    assert_eq!(float(spikes[0].pct_increase), 308.7);
    assert_eq!(float(spikes[0].extra_usd), 56.8);
    let history = make_history(vec![1.0, 2.0, 2.0, 10.0]);
    let spikes = detect(&history, 50.0, 7, 0.10);
    assert_eq!(float(spikes[0].avg_daily), 1.67);
    assert_eq!(float(spikes[0].pct_increase), 500.0);
    assert_eq!(float(spikes[0].extra_usd), 8.33);
}

#[test]
fn growth_is_measured_against_the_average() {
    assert!(detect(&make_history(vec![5.0, 5.0, 7.0]), 50.0, 7, 0.10).is_empty());
    let bedrock = detect(&make_history(vec![0.80, 0.80, 8.20]), 50.0, 7, 0.10);
    assert_eq!(float(bedrock[0].pct_increase), 925.0);
    let ec2 = detect(&make_history(vec![12.0, 12.0, 18.50]), 50.0, 7, 0.10);
    assert_eq!(float(ec2[0].pct_increase), 54.17);
}

#[test]
fn a_new_service_keeps_its_cost_as_it_is() {
    let history = make_history(vec![0.0, 0.123456]);
    let spikes = detect(&history, 1000.0, 7, 100.0);
    assert_eq!(spikes.len(), 1);
    assert_eq!(float(spikes[0].today), 0.123456);
    assert_eq!(float(spikes[0].extra_usd), 0.123456);
    assert_eq!(float(spikes[0].pct_increase), f64::INFINITY);
    assert!(detect(&make_history(vec![0.0, 0.0]), 50.0, 7, 0.10).is_empty());
}

#[test]
fn only_the_latest_days_count() {
    // Days further back than the window do not change the average.
    let history = make_history(vec![1000.0, 10.0, 10.0, 16.0]);
    assert_eq!(detect(&history, 50.0, 2, 0.10).len(), 1);
    assert!(detect(&history, 50.0, 3, 0.10).is_empty());
    assert!(detect(&history, 50.0, 0, 0.10).is_empty());
}

#[test]
fn days_without_use_do_not_lower_the_average() {
    // A cost of one cent or less is a day without use.
    let history = make_history(vec![0.0, 10.0, 0.01, 0.0, 10.0, 15.0]);
    assert!(detect(&history, 50.0, 7, 0.10).is_empty());
    let history = make_history(vec![0.0, 10.0, 0.01, 0.0, 10.0, 15.5]);
    let spikes = detect(&history, 50.0, 7, 0.10);
    assert_eq!(float(spikes[0].avg_daily), 10.0);
}

#[test]
fn a_lower_threshold_loses_no_spike() {
    let history = vec![
        service("A", vec![10.0, 10.0, 12.0]),
        service("B", vec![10.0, 10.0, 16.0]),
        service("C", vec![10.0, 10.0, 31.0]),
    ];
    assert_eq!(detect(&history, 100.0, 7, 0.10).len(), 1);
    assert_eq!(detect(&history, 50.0, 7, 0.10).len(), 2);
    assert_eq!(detect(&history, 10.0, 7, 0.10).len(), 3);
}

#[test]
fn services_are_looked_at_on_their_own() {
    let alone = detect(&make_history(vec![10.0, 10.0, 31.0]), 50.0, 7, 0.10);
    let among = detect(
        &vec![
            service("A", vec![500.0, 500.0, 400.0]),
            service("Amazon EC2", vec![10.0, 10.0, 31.0]),
            service("B", vec![75.0]),
        ],
        50.0,
        7,
        0.10,
    );
    assert_eq!(among.len(), 1);
    assert_eq!(among[0].service, alone[0].service);
    assert_eq!(among[0].extra_usd, alone[0].extra_usd);
}

#[test]
fn a_cheaper_day_is_no_spike() {
    assert!(detect(&make_history(vec![10.0, 10.0, 9.0]), 0.0, 7, 0.10).is_empty());
    assert!(detect(&make_history(vec![10.0, 10.0, 10.0]), 0.0, 7, 0.10).is_empty());
    assert_eq!(detect(&make_history(vec![10.0, 10.0, 10.01]), 0.0, 7, 0.10).len(), 1);
    assert_eq!(detect(&make_history(vec![10.0, 10.0, 20.0]), 0.0, 7, 0.10).len(), 1);
}

#[test]
fn equal_spikes_keep_their_order() {
    let history = vec![
        service("A", vec![10.0, 20.0]),
        service("B", vec![10.0, 30.0]),
        service("C", vec![10.0, 20.0]),
    ];
    let names: Vec<String> =
        detect(&history, 50.0, 7, 0.10).iter().map(|s| s.service.clone()).collect();
    assert_eq!(names, vec!["B", "A", "C"]);
}
