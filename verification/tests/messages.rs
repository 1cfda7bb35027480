use serde_json::Value;
use stackalert::anomaly::Spike;
use stackalert::cost_explorer::{ServiceSpend, SpendHistory};
use stackalert::json::Json;
use stackalert::notify::format::{escape_html, escape_mrkdwn, fmt_pct, ranked_services};
use stackalert::notify::pagerduty::build_summary;
use stackalert::notify::ses::{build_digest_html, build_spike_html};
use stackalert::notify::slack;
use stackalert::notify::sns::{build_digest_text, build_spike_text};
use stackalert::notify::teams::{build_digest_card, build_spike_card};
use stackalert::notify::telegram as channel;
use stackalert::notify::webhook::{
    build_digest_payload, build_spike_payload, DigestEntry, DigestPayload, SpikeEntry, SpikePayload,
};
use stackalert::notify::Delivery;
use stackalert::number::Amount;
use stackalert::telegram;

fn amount(x: f64) -> Amount {
    Amount { bits: x.to_bits() }
}

fn spike(service: &str, avg: f64, today: f64, pct: f64, extra: f64) -> Spike {
    Spike {
        service: service.to_string(),
        avg_daily: amount(avg),
        today: amount(today),
        pct_increase: amount(pct),
        extra_usd: amount(extra),
    }
}

fn ec2() -> Spike {
    spike("Amazon EC2", 18.0, 75.0, 316.67, 57.0)
}

fn rds() -> Spike {
    spike("Amazon RDS", 5.0, 20.0, 300.0, 15.0)
}

fn seven() -> Vec<Spike> {
    (0..7)
        .map(|i| spike(&format!("Service {}", i), 10.0, 20.0, 100.0, 10.0 - i as f64))
        .collect()
}

fn history(services: Vec<(&str, Vec<f64>)>) -> SpendHistory {
    services
        .into_iter()
        .map(|(service, costs)| ServiceSpend {
            service: service.to_string(),
            costs: costs.into_iter().map(amount).collect(),
        })
        .collect()
}

fn week() -> SpendHistory {
    history(vec![
        ("Amazon EC2", vec![18.0, 19.0, 17.5, 18.5, 18.0, 19.5, 17.0]),
        ("Amazon S3", vec![0.50, 0.45, 0.55, 0.48, 0.52, 0.47, 0.53]),
    ])
}

fn noisy() -> SpendHistory {
    history(vec![
        ("Amazon EC2", vec![18.0, 19.0, 17.5]),
        ("AWS Tax", vec![0.01, 0.02, 0.01]),
    ])
}

fn value(json: &Json) -> Value {
    match json {
        Json::Null => Value::Null,
        Json::Bool(b) => Value::Bool(*b),
        Json::Number(a) => Value::from(f64::from_bits(a.bits)),
        Json::Text(s) => Value::String(s.clone()),
        Json::List(items) => Value::Array(items.iter().map(value).collect()),
        Json::Object(fields) => {
            let mut map = serde_json::Map::new();
            for f in fields {
                assert!(map.insert(f.name.clone(), value(&f.value)).is_none());
            }
            Value::Object(map)
        }
    }
}

fn written(json: &Json) -> String {
    serde_json::to_string(&value(json)).unwrap()
}

// ---- Telegram ----------------------------------------------------------

#[test]
fn test_spike_message_format() {
    let msg = channel::build_spike_message(&vec![ec2(), rds()], 6, 5);
    assert!(msg.contains("AWS Cost Spike Detected"));
    assert!(msg.contains("Amazon EC2"));
    assert!(msg.contains("Amazon RDS"));
    assert!(msg.contains("+317%"));
}

#[test]
fn test_spike_message_new_service() {
    let spikes = vec![spike("Amazon SageMaker", 0.0, 45.0, f64::INFINITY, 45.0)];
    let msg = channel::build_spike_message(&spikes, 6, 5);
    assert!(msg.contains("NEW"));
    assert!(msg.contains("SageMaker"));
}

#[test]
fn test_digest_message_format() {
    let msg = channel::build_digest_message(&week(), amount(0.10), 10);
    assert!(msg.contains("Daily AWS Cost Digest"));
    assert!(msg.contains("Amazon EC2"));
    assert!(msg.contains("Avg daily spend"));
}

#[test]
fn test_digest_filters_noise() {
    let msg = channel::build_digest_message(&noisy(), amount(0.10), 10);
    assert!(msg.contains("Amazon EC2"));
    assert!(!msg.contains("AWS Tax"));
}

#[test]
fn test_escape_html() {
    assert_eq!(escape_html("a < b & c > d"), "a &lt; b &amp; c &gt; d");
}

#[test]
fn test_spike_message_truncates_at_5() {
    let msg = channel::build_spike_message(&seven(), 6, 5);
    assert!(msg.contains("...and 2 more services"));
}

#[test]
fn telegram_test_spike_message_format() {
    let msg = telegram::build_spike_message(&vec![ec2(), rds()]);
    assert!(msg.contains("AWS Cost Spike Detected"));
    assert!(msg.contains("Amazon EC2"));
    assert!(msg.contains("Amazon RDS"));
    assert!(msg.contains("+317%"));
}

#[test]
fn telegram_test_spike_message_new_service() {
    let spikes = vec![spike("Amazon SageMaker", 0.0, 45.0, f64::INFINITY, 45.0)];
    let msg = telegram::build_spike_message(&spikes);
    assert!(msg.contains("NEW"));
    assert!(msg.contains("SageMaker"));
}

#[test]
fn telegram_test_digest_message_format() {
    let msg = telegram::build_digest_message(&week());
    assert!(msg.contains("Daily AWS Cost Digest"));
    assert!(msg.contains("Amazon EC2"));
    assert!(msg.contains("Avg daily spend"));
}

#[test]
fn telegram_test_digest_filters_noise() {
    let msg = telegram::build_digest_message(&noisy());
    assert!(msg.contains("Amazon EC2"));
    assert!(!msg.contains("AWS Tax"));
}

#[test]
fn telegram_test_escape_html() {
    assert_eq!(telegram::escape_html("a < b & c > d"), "a &lt; b &amp; c &gt; d");
}

#[test]
fn telegram_test_spike_message_truncates_at_5() {
    let msg = telegram::build_spike_message(&seven());
    assert!(msg.contains("...and 2 more services"));
}

#[test]
fn telegram_messages_are_exact() {
    assert_eq!(
        channel::build_spike_message(&vec![ec2(), spike("R&D", 0.0, 1.5, f64::INFINITY, 1.5)], 6, 1),
        "⚠️ <b>AWS Cost Spike Detected</b>\n\n\
         🔝 <b>Amazon EC2</b> spiked +317% ($75.00 today vs $18.00/day avg)\n\
         💰 Total extra spend: ~$58.50\n\n\
         <b>Affected services:</b>\n\
         • <b>Amazon EC2</b>  +317% ($75.00 today vs $18.00 avg)\n\
         <i>...and 1 more services</i>\n\
         \n🔔 StackAlert · Checks every 6h"
    );
    assert_eq!(
        channel::build_digest_message(&week(), amount(0.10), 1),
        "📊 <b>Daily AWS Cost Digest</b>\n\n\
         💰 Avg daily spend: <b>$18.71</b>\n\n\
         <b>Top services (avg/day):</b>\n\
         • Amazon EC2 — $18.21/day\n\
         <i>...and 1 more services</i>\n\
         \n📅 StackAlert Daily Digest"
    );
}

#[test]
fn telegram_on_its_own_posts_to_the_bot() {
    assert!(telegram::send_spike_alert("T", "C", &Vec::new()).is_none());
    match telegram::send_spike_alert("T", "C", &vec![ec2()]) {
        Some(Delivery::Post { url, body, authorization }) => {
            assert_eq!(url, "https://api.telegram.org/botT/sendMessage");
            assert_eq!(authorization, None);
            let body = value(&body);
            assert_eq!(body["chat_id"], "C");
            assert_eq!(body["parse_mode"], "HTML");
            assert_eq!(body["disable_web_page_preview"], true);
            assert_eq!(body["text"], telegram::build_spike_message(&vec![ec2()]));
        }
        other => panic!("{other:?}"),
    }
    match telegram::send_daily_digest("T", "C", &week()) {
        Delivery::Post { body, .. } => {
            assert_eq!(value(&body)["text"], telegram::build_digest_message(&week()));
        }
        other => panic!("{other:?}"),
    }
}

// ---- Slack -------------------------------------------------------------

#[test]
fn test_spike_message_uses_mrkdwn() {
    let msg = slack::build_spike_message(&vec![ec2()], "StackAlert", 6, 5);
    assert!(msg.contains("*StackAlert: Cost Spike Detected*"));
    assert!(msg.contains("*Amazon EC2*"));
    assert!(msg.contains("+317%"));
    assert!(!msg.contains("<b>"));
}

#[test]
fn test_digest_message_uses_mrkdwn() {
    let data = history(vec![("Amazon EC2", vec![18.0, 19.0, 17.5])]);
    let msg = slack::build_digest_message(&data, "StackAlert", amount(0.10), 10);
    assert!(msg.contains("*StackAlert: Daily Digest*"));
    assert!(!msg.contains("<b>"));
}

#[test]
fn test_new_service_shows_new() {
    let spikes = vec![spike("SageMaker", 0.0, 45.0, f64::INFINITY, 45.0)];
    let msg = slack::build_spike_message(&spikes, "StackAlert", 6, 5);
    assert!(msg.contains("NEW"));
}

#[test]
fn slack_messages_are_exact() {
    assert_eq!(
        slack::build_spike_message(&vec![ec2(), rds(), rds()], "My_Setup", 12, 2),
        ":warning: *My\u{200B}_Setup: Cost Spike Detected*\n\n\
         :chart_with_upwards_trend: *Amazon EC2* spiked +317% ($75.00 today vs $18.00/day avg)\n\
         :moneybag: Total extra spend: ~$87.00\n\n\
         *Affected services:*\n\
         • *Amazon EC2*  +317% ($75.00 today vs $18.00 avg)\n\
         • *Amazon RDS*  +300% ($20.00 today vs $5.00 avg)\n\
         _...and 1 more services_\n\
         \n:bell: My\u{200B}_Setup · Checks every 12h"
    );
    assert_eq!(
        slack::build_digest_message(&noisy(), "StackAlert", amount(0.001), 1),
        ":bar_chart: *StackAlert: Daily Digest*\n\n\
         :moneybag: Avg daily spend: *$18.18*\n\n\
         *Top services (avg/day):*\n\
         • Amazon EC2 — $18.17/day\n\
         _...and 1 more services_\n\
         \n:calendar: StackAlert Daily Digest"
    );
}

#[test]
fn markup_loses_its_meaning() {
    assert_eq!(
        escape_mrkdwn("*a_b~c`d>e<f&g"),
        "\u{200B}*a\u{200B}_b\u{200B}~c\u{200B}`d\u{200B}>e<f&g"
    );
    assert_eq!(escape_mrkdwn("plain"), "plain");
    assert_eq!(escape_mrkdwn(""), "");
}

// ---- email -------------------------------------------------------------

#[test]
fn test_spike_html() {
    let html = build_spike_html(&vec![ec2()], "StackAlert", 6, 5);
    assert!(html.contains("<h2>StackAlert: Cost Spike Detected</h2>"));
    assert!(html.contains("Amazon EC2"));
    assert!(html.contains("+317%"));
}

#[test]
fn test_digest_html() {
    let data = history(vec![("Amazon EC2", vec![18.0, 19.0])]);
    let html = build_digest_html(&data, "StackAlert", amount(0.10), 10);
    assert!(html.contains("<h2>StackAlert: Daily Digest</h2>"));
    assert!(html.contains("Amazon EC2"));
}

#[test]
fn emails_are_exact() {
    assert_eq!(
        build_spike_html(&vec![ec2(), rds()], "R&D", 6, 1),
        "<h2>R&amp;D: Cost Spike Detected</h2>\
         <p><strong>Amazon EC2</strong> spiked +317% ($75.00 today vs $18.00/day avg)</p>\
         <p>Total extra spend: ~$72.00</p>\
         <h3>Affected services</h3><ul>\
         <li><strong>Amazon EC2</strong> +317% ($75.00 today vs $18.00 avg)</li>\
         </ul>\
         <p><em>...and 1 more services</em></p>\
         <hr><p><small>R&amp;D &middot; Checks every 6h</small></p>"
    );
    assert_eq!(
        build_digest_html(&week(), "StackAlert", amount(0.10), 10),
        "<h2>StackAlert: Daily Digest</h2>\
         <p>Avg daily spend: <strong>$18.71</strong></p>\
         <h3>Top services (avg/day)</h3><ul>\
         <li>Amazon EC2 &mdash; $18.21/day</li>\
         <li>Amazon S3 &mdash; $0.50/day</li>\
         </ul>\
         <hr><p><small>StackAlert Daily Digest</small></p>"
    );
}

#[test]
fn names_cannot_bring_tags_along() {
    let nasty = spike("<b>x</b>&lt;", 1.0, 2.0, 100.0, 1.0);
    let html = build_spike_html(&vec![nasty], "a<i>", 6, 5);
    assert!(html.contains("&lt;b&gt;x&lt;/b&gt;&amp;lt;"));
    assert!(!html.contains("<b>"));
    assert!(!html.contains("<i>"));
    // Texts that differ are still different.
    assert_ne!(escape_html("<"), escape_html("&lt;"));
}

// ---- plain text --------------------------------------------------------

#[test]
fn test_spike_text() {
    let text = build_spike_text(&vec![ec2()], "StackAlert", 6, 5);
    assert!(text.contains("StackAlert: Cost Spike Detected"));
    assert!(text.contains("Amazon EC2"));
    assert!(!text.contains("<b>"));
}

#[test]
fn test_digest_text() {
    let data = history(vec![("Amazon EC2", vec![18.0, 19.0])]);
    let text = build_digest_text(&data, "StackAlert", amount(0.10), 10);
    assert!(text.contains("StackAlert: Daily Digest"));
    assert!(text.contains("Amazon EC2"));
}

#[test]
fn plain_texts_are_exact() {
    assert_eq!(
        build_spike_text(&vec![ec2(), rds()], "StackAlert", 6, 5),
        "StackAlert: Cost Spike Detected\n\n\
         Amazon EC2 spiked +317% ($75.00 today vs $18.00/day avg)\n\
         Total extra spend: ~$72.00\n\n\
         Affected services:\n\
         - Amazon EC2 +317% ($75.00 today vs $18.00 avg)\n\
         - Amazon RDS +300% ($20.00 today vs $5.00 avg)\n\
         \nStackAlert - Checks every 6h"
    );
    assert_eq!(
        build_digest_text(&Vec::new(), "StackAlert", amount(0.10), 10),
        format!(
            "StackAlert: Daily Digest\n\n\
             Avg daily spend: ${:.2}\n\n\
             Top services (avg/day):\n\
             \nStackAlert Daily Digest",
            Vec::<f64>::new().iter().sum::<f64>()
        )
    );
}

// ---- cards -------------------------------------------------------------

#[test]
fn test_spike_card_structure() {
    let card = build_spike_card(&vec![ec2()], "StackAlert", 6, 5);
    let json = written(&card);
    assert!(json.contains("AdaptiveCard"));
    assert!(json.contains("StackAlert: Cost Spike Detected"));
    assert!(json.contains("Amazon EC2"));
}

#[test]
fn test_digest_card_structure() {
    let data = history(vec![("Amazon EC2", vec![18.0, 19.0])]);
    let card = build_digest_card(&data, "StackAlert", amount(0.10), 10);
    let json = written(&card);
    assert!(json.contains("AdaptiveCard"));
    assert!(json.contains("StackAlert: Daily Digest"));
}

#[test]
fn cards_are_exact() {
    let card = value(&build_spike_card(&vec![ec2(), rds()], "StackAlert", 6, 1));
    assert_eq!(card["type"], "message");
    let attachment = &card["attachments"][0];
    assert_eq!(attachment["contentType"], "application/vnd.microsoft.card.adaptive");
    let content = &attachment["content"];
    assert_eq!(content["$schema"], "http://adaptivecards.io/schemas/adaptive-card.json");
    assert_eq!(content["type"], "AdaptiveCard");
    assert_eq!(content["version"], "1.4");
    let title = &content["body"][0];
    assert_eq!(title["type"], "TextBlock");
    assert_eq!(title["text"], "StackAlert: Cost Spike Detected");
    assert_eq!(title["size"], "large");
    assert_eq!(title["weight"], "bolder");
    let body = &content["body"][1];
    assert_eq!(body["type"], "TextBlock");
    assert_eq!(body["wrap"], true);
    assert_eq!(
        body["text"],
        "**Amazon EC2** spiked +317% ($75.00 today vs $18.00/day avg)\n\n\
         Total extra spend: ~$72.00\n\n\
         \n\n\
         **Affected services:**\n\n\
         - **Amazon EC2** +317% ($75.00 today vs $18.00 avg)\n\n\
         _...and 1 more services_\n\n\
         \n\n\
         StackAlert · Checks every 6h"
    );
    let digest = value(&build_digest_card(&week(), "StackAlert", amount(0.10), 10));
    assert_eq!(
        digest["attachments"][0]["content"]["body"][1]["text"],
        "Avg daily spend: **$18.71**\n\n\
         \n\n\
         **Top services (avg/day):**\n\n\
         - Amazon EC2 — $18.21/day\n\n\
         - Amazon S3 — $0.50/day\n\n\
         \n\n\
         StackAlert Daily Digest"
    );
}

// ---- PagerDuty ---------------------------------------------------------

#[test]
fn test_summary_single_spike() {
    let summary = build_summary(&vec![ec2()], 5);
    assert!(summary.contains("Amazon EC2"));
    assert!(summary.contains("$75.00"));
    assert!(summary.contains("$57.00"));
    assert!(!summary.contains("Also:"));
}

#[test]
fn test_summary_multiple_spikes() {
    let summary = build_summary(&vec![ec2(), rds()], 5);
    assert!(summary.contains("Also: Amazon RDS"));
    assert!(summary.contains("$72.00"));
}

#[test]
fn summaries_are_exact() {
    assert_eq!(
        build_summary(&vec![ec2()], 0),
        "AWS Cost Spike: Amazon EC2 spiked $75.00 ($57.00 extra). Total extra: $57.00"
    );
    assert_eq!(
        build_summary(&seven(), 3),
        "AWS Cost Spike: Service 0 spiked $20.00 ($10.00 extra). \
         Also: Service 1, Service 2. Total extra: $49.00"
    );
    assert_eq!(
        build_summary(&vec![ec2(), rds()], 1),
        "AWS Cost Spike: Amazon EC2 spiked $75.00 ($57.00 extra). Also: . Total extra: $72.00"
    );
}

// ---- webhooks ----------------------------------------------------------

#[test]
fn test_spike_payload_serializes() {
    let payload = SpikePayload {
        event_type: "spike_alert".to_string(),
        setup_name: "StackAlert".to_string(),
        timestamp: "2026-03-27T12:00:00Z".to_string(),
        spikes: vec![SpikeEntry {
            service: "Amazon EC2".to_string(),
            avg_daily: amount(18.0),
            today: amount(75.0),
            pct_increase: amount(316.67),
            extra_usd: amount(57.0),
        }],
        total_extra_usd: amount(57.0),
    };
    let json = written(&payload.to_json());
    assert!(json.contains("spike_alert"));
    assert!(json.contains("Amazon EC2"));
    assert!(json.contains("316.67"));
}

#[test]
fn test_digest_payload_serializes() {
    let payload = DigestPayload {
        event_type: "daily_digest".to_string(),
        setup_name: "StackAlert".to_string(),
        timestamp: "2026-03-27T12:00:00Z".to_string(),
        services: vec![DigestEntry {
            service: "Amazon EC2".to_string(),
            avg_daily: amount(18.14),
            total: amount(127.0),
        }],
    };
    let json = written(&payload.to_json());
    assert!(json.contains("daily_digest"));
    assert!(json.contains("18.14"));
}

#[test]
fn payloads_are_exact() {
    let fresh = spike("SageMaker", 0.0, 45.0, f64::INFINITY, 45.0);
    let json = value(&build_spike_payload(&vec![ec2(), fresh], "S", "now").to_json());
    assert_eq!(json["event_type"], "spike_alert");
    assert_eq!(json["setup_name"], "S");
    assert_eq!(json["timestamp"], "now");
    assert_eq!(json["total_extra_usd"], 102.0);
    assert_eq!(json["spikes"].as_array().unwrap().len(), 2);
    assert_eq!(json["spikes"][0]["service"], "Amazon EC2");
    assert_eq!(json["spikes"][0]["avg_daily"], 18.0);
    assert_eq!(json["spikes"][0]["today"], 75.0);
    assert_eq!(json["spikes"][0]["pct_increase"], 316.67);
    assert_eq!(json["spikes"][0]["extra_usd"], 57.0);
    // JSON has no infinity.
    assert_eq!(json["spikes"][1]["pct_increase"], Value::Null);
    let data = history(vec![("A", vec![1.0, 2.0]), ("B", vec![])]);
    let json = value(&build_digest_payload(&data, "S", "now").to_json());
    assert_eq!(json["event_type"], "daily_digest");
    assert_eq!(json["services"][0]["service"], "A");
    assert_eq!(json["services"][0]["avg_daily"], 1.5);
    assert_eq!(json["services"][0]["total"], 3.0);
    assert_eq!(json["services"][1]["avg_daily"], 0.0);
}

// ---- what they share ---------------------------------------------------

#[test]
fn increases_are_shown_in_whole_percent() {
    assert_eq!(fmt_pct(amount(316.67)), "+317%");
    assert_eq!(fmt_pct(amount(50.5)), "+50%");
    assert_eq!(fmt_pct(amount(-3.0)), "+-3%");
    assert_eq!(fmt_pct(amount(f64::INFINITY)), "NEW");
    assert_eq!(fmt_pct(amount(f64::NEG_INFINITY)), "NEW");
    assert_eq!(fmt_pct(amount(f64::NAN)), "+NaN%");
}

#[test]
fn services_are_ranked_by_their_averages() {
    let data = history(vec![
        ("Low", vec![0.05, 0.05]),
        ("Edge", vec![0.1, 0.1]),
        ("High", vec![20.0, 10.0]),
        ("None", vec![]),
        ("Mid", vec![1.0, 3.0]),
    ]);
    let (services, total) = ranked_services(&data, amount(0.10));
    let names: Vec<&str> = services.iter().map(|s| s.0.as_str()).collect();
    assert_eq!(names, vec!["High", "Mid", "Edge"]);
    assert_eq!(f64::from_bits(total.bits), 15.0 + 2.0 + 0.1);
    let (all, _) = ranked_services(&data, amount(0.0));
    assert_eq!(all.len(), 5);
}
