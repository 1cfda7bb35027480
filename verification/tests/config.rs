use stackalert::accounts::AccountContext;
use stackalert::config::{Config, ConfigError, Env, EnvVar, Fetched, Parameter, Stop};
use stackalert::number::Amount;

fn amount(x: f64) -> Amount {
    Amount { bits: x.to_bits() }
}

fn float(a: Amount) -> f64 {
    f64::from_bits(a.bits)
}

fn env(vars: &[(&str, &str)]) -> Env {
    Env {
        vars: vars
            .iter()
            .map(|(n, v)| EnvVar { name: n.to_string(), value: v.to_string() })
            .collect(),
    }
}

fn param(env_key: &str, value: &str) -> Parameter {
    Parameter { env_key: env_key.to_string(), fetched: Fetched::Value(value.to_string()) }
}

fn error(result: Result<Config, Stop>) -> ConfigError {
    match result {
        Err(Stop::Failed(error)) => error,
        other => panic!("{other:?}"),
    }
}

fn message(result: Result<Config, Stop>) -> String {
    let error = error(result);
    let shown = match error.number() {
        Some(number) => format!("{}", float(number)),
        None => String::new(),
    };
    error.message(&shown)
}

fn account() -> AccountContext {
    AccountContext {
        id: "1".to_string(),
        user_id: "u".to_string(),
        aws_account_id: "700483457242".to_string(),
        role_arn: "arn:role".to_string(),
        external_id: "ext".to_string(),
        spike_threshold: amount(75.0),
        telegram_chat_id: Some("-100".to_string()),
        notify_channels: None,
        region: "eu-west-1".to_string(),
    }
}

const QUIET: (&str, &str) = ("NOTIFY_CHANNELS", "");

#[test]
fn defaults_hold_where_nothing_is_set() {
    let cfg = Config::load(&env(&[QUIET]), &Vec::new()).unwrap();
    assert_eq!(cfg.setup_name, "StackAlert");
    assert_eq!(float(cfg.spike_threshold_pct), 50.0);
    assert_eq!(cfg.cross_account_role_arn, None);
    assert_eq!(cfg.external_id, None);
    assert_eq!(cfg.account_namespace, "self");
    assert_eq!(cfg.history_days, 7);
    assert_eq!(float(cfg.min_avg_daily_usd), 0.10);
    assert_eq!(cfg.dedup_cooldown_hours, 6);
    assert_eq!(cfg.max_spike_display, 5);
    assert_eq!(cfg.max_digest_display, 10);
    assert_eq!(cfg.http_timeout_secs, 10);
    assert_eq!(cfg.http_connect_timeout_secs, 5);
    assert!(cfg.notify_channels.is_empty());
    assert!(cfg.telegram.is_none());
}

#[test]
fn variables_override_the_defaults() {
    let vars = [
        QUIET,
        ("SPIKE_THRESHOLD_PCT", "12.5"),
        ("HISTORY_DAYS", "14"),
        ("MIN_AVG_DAILY_USD", "1e-1"),
        ("DEDUP_COOLDOWN_HOURS", "+24"),
        ("MAX_SPIKE_DISPLAY", "0"),
        ("MAX_DIGEST_DISPLAY", "3"),
        ("HTTP_TIMEOUT_SECS", "30"),
        ("TELEGRAM_TIMEOUT_SECS", "99"),
        ("HTTP_CONNECT_TIMEOUT_SECS", "0"),
        ("TELEGRAM_CONNECT_TIMEOUT_SECS", "8"),
    ];
    let cfg = Config::load(&env(&vars), &Vec::new()).unwrap();
    assert_eq!(float(cfg.spike_threshold_pct), 12.5);
    assert_eq!(cfg.history_days, 14);
    assert_eq!(float(cfg.min_avg_daily_usd), 0.1);
    assert_eq!(cfg.dedup_cooldown_hours, 24);
    assert_eq!(cfg.max_spike_display, 0);
    assert_eq!(cfg.max_digest_display, 3);
    assert_eq!(cfg.http_timeout_secs, 30);
    assert_eq!(cfg.http_connect_timeout_secs, 8);
}

#[test]
fn older_timeouts_are_forgiven() {
    let vars = [QUIET, ("TELEGRAM_TIMEOUT_SECS", "never"), ("TELEGRAM_CONNECT_TIMEOUT_SECS", "0")];
    let cfg = Config::load(&env(&vars), &Vec::new()).unwrap();
    assert_eq!(cfg.http_timeout_secs, 10);
    assert_eq!(cfg.http_connect_timeout_secs, 0);
}

#[test]
fn telegram_is_the_default_channel() {
    let vars = [("TELEGRAM_BOT_TOKEN_SSM_PARAM", "/token"), ("TELEGRAM_CHAT_ID", "7")];
    // The token is to be fetched first.
    match Config::load(&env(&vars), &Vec::new()) {
        Err(Stop::Fetch { env_key, param }) => {
            assert_eq!(env_key, "TELEGRAM_BOT_TOKEN_SSM_PARAM");
            assert_eq!(param, "/token");
        }
        other => panic!("{other:?}"),
    }
    let params = vec![param("TELEGRAM_BOT_TOKEN_SSM_PARAM", "secret")];
    let cfg = Config::load(&env(&vars), &params).unwrap();
    assert_eq!(cfg.notify_channels, vec!["telegram"]);
    let telegram = cfg.telegram.unwrap();
    assert_eq!(telegram.bot_token, "secret");
    assert_eq!(telegram.chat_id, "7");
}

#[test]
fn all_channels_get_their_settings() {
    let vars = [
        ("NOTIFY_CHANNELS", "telegram, slack,teams ,pagerduty,webhook,ses,sns"),
        ("TELEGRAM_BOT_TOKEN_SSM_PARAM", "/1"),
        ("TELEGRAM_CHAT_ID", "7"),
        ("SLACK_WEBHOOK_URL_SSM_PARAM", "/2"),
        ("TEAMS_WEBHOOK_URL_SSM_PARAM", "/3"),
        ("PAGERDUTY_ROUTING_KEY_SSM_PARAM", "/4"),
        ("PAGERDUTY_SEVERITY", "critical"),
        ("SES_FROM_ADDRESS", "a@x"),
        ("SES_TO_ADDRESSES", "b@x, c@x,"),
        ("WEBHOOK_URL_SSM_PARAM", "/5"),
        ("WEBHOOK_URL", "https://env"),
        ("WEBHOOK_AUTH_HEADER_SSM_PARAM", "/6"),
        ("SNS_TOPIC_ARN", "arn:topic"),
    ];
    let mut params: Vec<Parameter> = Vec::new();
    let mut asked: Vec<String> = Vec::new();
    let cfg = loop {
        match Config::load(&env(&vars), &params) {
            Ok(cfg) => break cfg,
            Err(Stop::Fetch { env_key, param: name }) => {
                params.push(param(&env_key, &format!("value of {name}")));
                asked.push(name);
            }
            Err(other) => panic!("{other:?}"),
        }
    };
    assert_eq!(asked, vec!["/1", "/2", "/3", "/4", "/5", "/6"]);
    assert_eq!(cfg.slack.unwrap().webhook_url, "value of /2");
    assert_eq!(cfg.teams.unwrap().webhook_url, "value of /3");
    let pagerduty = cfg.pagerduty.unwrap();
    assert_eq!(pagerduty.routing_key, "value of /4");
    assert_eq!(pagerduty.severity, "critical");
    let ses = cfg.ses.unwrap();
    assert_eq!(ses.from_address, "a@x");
    assert_eq!(ses.to_addresses, vec!["b@x", "c@x"]);
    let webhook = cfg.webhook.unwrap();
    assert_eq!(webhook.url, "value of /5");
    assert_eq!(webhook.auth_header, Some("value of /6".to_string()));
    assert_eq!(cfg.sns.unwrap().topic_arn, "arn:topic");
}

#[test]
fn a_webhook_may_do_without_parameters() {
    let vars = [("NOTIFY_CHANNELS", "webhook"), ("WEBHOOK_URL", "https://env")];
    let webhook = Config::load(&env(&vars), &Vec::new()).unwrap().webhook.unwrap();
    assert_eq!(webhook.url, "https://env");
    assert_eq!(webhook.auth_header, None);
    // A parameter without a value is as good as none.
    let vars = [
        ("NOTIFY_CHANNELS", "webhook"),
        ("WEBHOOK_URL", "https://env"),
        ("WEBHOOK_URL_SSM_PARAM", "/5"),
    ];
    let params =
        vec![Parameter { env_key: "WEBHOOK_URL_SSM_PARAM".to_string(), fetched: Fetched::NoValue }];
    let webhook = Config::load(&env(&vars), &params).unwrap().webhook.unwrap();
    assert_eq!(webhook.url, "https://env");
}

#[test]
fn an_account_brings_its_own() {
    let vars = [("NOTIFY_CHANNELS", "slack"), ("TELEGRAM_BOT_TOKEN_SSM_PARAM", "/1")];
    let params = vec![param("TELEGRAM_BOT_TOKEN_SSM_PARAM", "secret")];
    let mut ctx = account();
    ctx.notify_channels = Some(" telegram ,".to_string());
    let cfg = Config::from_account_context(&ctx, &env(&vars), &params).unwrap();
    assert_eq!(float(cfg.spike_threshold_pct), 75.0);
    assert_eq!(cfg.cross_account_role_arn, Some("arn:role".to_string()));
    assert_eq!(cfg.external_id, Some("ext".to_string()));
    assert_eq!(cfg.account_namespace, "700483457242");
    assert_eq!(cfg.notify_channels, vec!["telegram"]);
    assert_eq!(cfg.telegram.unwrap().chat_id, "-100");
    assert!(cfg.slack.is_none());
    // Without channels of its own it has those of the environment.
    ctx.notify_channels = None;
    let result = Config::from_account_context(&ctx, &env(&vars), &params);
    assert_eq!(message(result), "SLACK_WEBHOOK_URL_SSM_PARAM env var not set");
}

#[test]
fn an_empty_chat_is_no_chat() {
    let vars = [("TELEGRAM_BOT_TOKEN_SSM_PARAM", "/1"), ("TELEGRAM_CHAT_ID", "7")];
    let params = vec![param("TELEGRAM_BOT_TOKEN_SSM_PARAM", "secret")];
    let missing = "telegram_chat_id missing from both AccountContext and TELEGRAM_CHAT_ID env var";
    let mut ctx = account();
    ctx.telegram_chat_id = Some(String::new());
    assert_eq!(message(Config::from_account_context(&ctx, &env(&vars), &params)), missing);
    ctx.telegram_chat_id = None;
    let cfg = Config::from_account_context(&ctx, &env(&vars), &params).unwrap();
    assert_eq!(cfg.telegram.unwrap().chat_id, "7");
    assert_eq!(message(Config::load(&env(&vars[..1]), &params)), missing);
}

fn load_with(vars: &[(&str, &str)]) -> Result<Config, Stop> {
    let mut all = vars.to_vec();
    all.push(QUIET);
    Config::load(&env(&all), &Vec::new())
}

#[test]
fn bad_numbers_are_refused() {
    assert_eq!(
        message(load_with(&[("SPIKE_THRESHOLD_PCT", "much")])),
        "SPIKE_THRESHOLD_PCT must be a number"
    );
    assert_eq!(
        message(load_with(&[("HISTORY_DAYS", "a\"b")])),
        "HISTORY_DAYS must be a positive integer, got \"a\\\"b\""
    );
    assert_eq!(
        message(load_with(&[("HISTORY_DAYS", "4294967296")])),
        "HISTORY_DAYS must be a positive integer, got \"4294967296\""
    );
    assert_eq!(
        message(load_with(&[("MIN_AVG_DAILY_USD", "")])),
        "MIN_AVG_DAILY_USD must be a number, got \"\""
    );
    assert_eq!(
        message(load_with(&[("HTTP_TIMEOUT_SECS", "-1")])),
        "HTTP_TIMEOUT_SECS must be a positive integer, got \"-1\""
    );
    for key in ["DEDUP_COOLDOWN_HOURS", "MAX_SPIKE_DISPLAY", "MAX_DIGEST_DISPLAY", "HTTP_CONNECT_TIMEOUT_SECS"] {
        assert!(matches!(error(load_with(&[(key, "x")])), ConfigError::NotAnInteger { .. }));
    }
}

#[test]
fn numbers_out_of_range_are_refused() {
    assert_eq!(message(load_with(&[("HISTORY_DAYS", "0")])), "HISTORY_DAYS must be > 0 (got 0)");
    assert_eq!(
        message(load_with(&[("SPIKE_THRESHOLD_PCT", "-2.5")])),
        "SPIKE_THRESHOLD_PCT must be > 0 (got -2.5)"
    );
    assert_eq!(
        message(load_with(&[("SPIKE_THRESHOLD_PCT", "0")])),
        "SPIKE_THRESHOLD_PCT must be > 0 (got 0)"
    );
    assert_eq!(
        message(load_with(&[("MIN_AVG_DAILY_USD", "-0.01")])),
        "MIN_AVG_DAILY_USD must be >= 0 (got -0.01)"
    );
    assert_eq!(
        message(load_with(&[("DEDUP_COOLDOWN_HOURS", "0")])),
        "DEDUP_COOLDOWN_HOURS must be > 0 (got 0)"
    );
    assert!(load_with(&[("MIN_AVG_DAILY_USD", "0")]).is_ok());
    // What is not a number is not at most zero either.
    assert!(load_with(&[("SPIKE_THRESHOLD_PCT", "nan")]).is_ok());
}

#[test]
fn errors_are_worded_around_what_they_are_about() {
    let error = ConfigError::NotANumber { key: "K".to_string(), value: "v".to_string() };
    assert_eq!(error.describe("<v>", ""), "K must be a number, got <v>");
    assert_eq!(error.message(""), "K must be a number, got \"v\"");
    assert_eq!(error.number(), None);
    let error = ConfigError::NegativeMinimum { number: amount(-1.5) };
    assert_eq!(error.number(), Some(amount(-1.5)));
    assert_eq!(error.message("-1.5"), "MIN_AVG_DAILY_USD must be >= 0 (got -1.5)");
}

#[test]
fn unknown_channels_are_refused() {
    let vars = [("NOTIFY_CHANNELS", "sns,Telegram"), ("SNS_TOPIC_ARN", "arn")];
    assert_eq!(
        message(Config::load(&env(&vars), &Vec::new())),
        "Unknown notification channel: \"Telegram\""
    );
}

#[test]
fn missing_settings_are_named() {
    let only = |channel: &str, vars: &[(&str, &str)]| {
        let mut all = vars.to_vec();
        all.push(("NOTIFY_CHANNELS", channel));
        message(Config::load(&env(&all), &Vec::new()))
    };
    assert_eq!(only("telegram", &[]), "TELEGRAM_BOT_TOKEN_SSM_PARAM env var not set");
    assert_eq!(only("teams", &[]), "TEAMS_WEBHOOK_URL_SSM_PARAM env var not set");
    assert_eq!(only("pagerduty", &[]), "PAGERDUTY_ROUTING_KEY_SSM_PARAM env var not set");
    assert_eq!(only("ses", &[]), "SES_FROM_ADDRESS env var not set");
    assert_eq!(only("ses", &[("SES_FROM_ADDRESS", "a")]), "SES_TO_ADDRESSES env var not set");
    assert_eq!(
        only("ses", &[("SES_FROM_ADDRESS", "a"), ("SES_TO_ADDRESSES", " , ")]),
        "SES_TO_ADDRESSES must contain at least one address"
    );
    assert_eq!(only("webhook", &[]), "WEBHOOK_URL or WEBHOOK_URL_SSM_PARAM must be set");
    assert_eq!(only("sns", &[]), "SNS_TOPIC_ARN env var not set");
}

#[test]
fn parameters_may_fail() {
    let vars = [("NOTIFY_CHANNELS", "slack"), ("SLACK_WEBHOOK_URL_SSM_PARAM", "/2")];
    let with = |fetched: Fetched| {
        let params = vec![Parameter { env_key: "SLACK_WEBHOOK_URL_SSM_PARAM".to_string(), fetched }];
        Config::load(&env(&vars), &params)
    };
    assert_eq!(message(with(Fetched::Failed)), "Failed to fetch SSM parameter: /2");
    assert_eq!(message(with(Fetched::NoValue)), "SSM parameter has no value");
    assert_eq!(with(Fetched::Value("u".to_string())).unwrap().slack.unwrap().webhook_url, "u");
}

#[test]
fn the_first_problem_is_told() {
    let vars = [
        ("SPIKE_THRESHOLD_PCT", "x"),
        ("HISTORY_DAYS", "0"),
        ("MIN_AVG_DAILY_USD", "y"),
        ("NOTIFY_CHANNELS", "nothing"),
    ];
    assert_eq!(message(Config::load(&env(&vars), &Vec::new())), "SPIKE_THRESHOLD_PCT must be a number");
    assert_eq!(
        message(Config::load(&env(&vars[1..]), &Vec::new())),
        "MIN_AVG_DAILY_USD must be a number, got \"y\""
    );
    assert_eq!(
        message(Config::load(&env(&[vars[1], vars[3]]), &Vec::new())),
        "Unknown notification channel: \"nothing\""
    );
}
