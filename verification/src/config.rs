//! The configuration of one run: from environment variables, from secrets that
//! are kept as SSM parameters, and from what is handed in about an account.
//!
//! Parameters are fetched between two attempts: loading stops at the first one
//! that is not there yet and says which it is.

use crate::accounts::AccountContext;
use crate::number::read::{parse_number, read_number};
use crate::number::{ten_cents, zero, Amount};
use crate::text::{list_items, parse_natural, quote, quoted, read_natural, same, split_list};
use vstd::prelude::*;

verus! {

// ---- what a configuration is -------------------------------------------

#[derive(Debug)]
pub struct TelegramConfig {
    pub bot_token: String,
    pub chat_id: String,
}

#[derive(Debug)]
pub struct SlackConfig {
    pub webhook_url: String,
}

#[derive(Debug)]
pub struct TeamsConfig {
    pub webhook_url: String,
}

#[derive(Debug)]
pub struct PagerDutyConfig {
    pub routing_key: String,
    pub severity: String,
}

#[derive(Debug)]
pub struct SesConfig {
    pub from_address: String,
    pub to_addresses: Vec<String>,
}

#[derive(Debug)]
pub struct WebhookConfig {
    pub url: String,
    pub auth_header: Option<String>,
}

#[derive(Debug)]
pub struct SnsConfig {
    pub topic_arn: String,
}

/// The configuration of one run.
#[derive(Debug)]
pub struct Config {
    /// The name under which messages are sent.
    pub setup_name: String,
    /// The growth, in percent of the average, above which a cost is a spike.
    pub spike_threshold_pct: Amount,
    /// The role to assume for another account's costs. Without one, the costs
    /// are those of the own account.
    pub cross_account_role_arn: Option<String>,
    /// Goes with the role.
    pub external_id: Option<String>,
    /// Keeps the alerts of different accounts apart.
    pub account_namespace: String,
    /// How many days the average is taken over. `HISTORY_DAYS`, else 7.
    pub history_days: u32,
    /// Services with a lower average are left out. `MIN_AVG_DAILY_USD`, else
    /// ten cents.
    pub min_avg_daily_usd: Amount,
    /// How long alerts on the same service are held back.
    /// `DEDUP_COOLDOWN_HOURS`, else 6.
    pub dedup_cooldown_hours: u32,
    /// How many services an alert lists. `MAX_SPIKE_DISPLAY`, else 5.
    pub max_spike_display: usize,
    /// How many services a digest lists. `MAX_DIGEST_DISPLAY`, else 10.
    pub max_digest_display: usize,
    /// `HTTP_TIMEOUT_SECS`, else `TELEGRAM_TIMEOUT_SECS`, else 10.
    pub http_timeout_secs: u64,
    /// `HTTP_CONNECT_TIMEOUT_SECS`, else `TELEGRAM_CONNECT_TIMEOUT_SECS`,
    /// else 5.
    pub http_connect_timeout_secs: u64,
    /// The channels that are told. `NOTIFY_CHANNELS`, else Telegram.
    pub notify_channels: Vec<String>,
    pub telegram: Option<TelegramConfig>,
    pub slack: Option<SlackConfig>,
    pub teams: Option<TeamsConfig>,
    pub pagerduty: Option<PagerDutyConfig>,
    pub ses: Option<SesConfig>,
    pub webhook: Option<WebhookConfig>,
    pub sns: Option<SnsConfig>,
}

pub struct TelegramView {
    pub bot_token: Seq<char>,
    pub chat_id: Seq<char>,
}

pub struct SlackView {
    pub webhook_url: Seq<char>,
}

pub struct TeamsView {
    pub webhook_url: Seq<char>,
}

pub struct PagerDutyView {
    pub routing_key: Seq<char>,
    pub severity: Seq<char>,
}

pub struct SesView {
    pub from_address: Seq<char>,
    pub to_addresses: Seq<Seq<char>>,
}

pub struct WebhookView {
    pub url: Seq<char>,
    pub auth_header: Option<Seq<char>>,
}

pub struct SnsView {
    pub topic_arn: Seq<char>,
}

/// A configuration, in the abstract.
pub struct ConfigView {
    pub setup_name: Seq<char>,
    pub spike_threshold_pct: Amount,
    pub cross_account_role_arn: Option<Seq<char>>,
    pub external_id: Option<Seq<char>>,
    pub account_namespace: Seq<char>,
    pub history_days: nat,
    pub min_avg_daily_usd: Amount,
    pub dedup_cooldown_hours: nat,
    pub max_spike_display: nat,
    pub max_digest_display: nat,
    pub http_timeout_secs: nat,
    pub http_connect_timeout_secs: nat,
    pub notify_channels: Seq<Seq<char>>,
    pub telegram: Option<TelegramView>,
    pub slack: Option<SlackView>,
    pub teams: Option<TeamsView>,
    pub pagerduty: Option<PagerDutyView>,
    pub ses: Option<SesView>,
    pub webhook: Option<WebhookView>,
    pub sns: Option<SnsView>,
}

impl DeepView for TelegramConfig {
    type V = TelegramView;

    open spec fn deep_view(&self) -> TelegramView {
        TelegramView { bot_token: self.bot_token@, chat_id: self.chat_id@ }
    }
}

impl DeepView for SlackConfig {
    type V = SlackView;

    open spec fn deep_view(&self) -> SlackView {
        SlackView { webhook_url: self.webhook_url@ }
    }
}

impl DeepView for TeamsConfig {
    type V = TeamsView;

    open spec fn deep_view(&self) -> TeamsView {
        TeamsView { webhook_url: self.webhook_url@ }
    }
}

impl DeepView for PagerDutyConfig {
    type V = PagerDutyView;

    open spec fn deep_view(&self) -> PagerDutyView {
        PagerDutyView { routing_key: self.routing_key@, severity: self.severity@ }
    }
}

impl DeepView for SesConfig {
    type V = SesView;

    open spec fn deep_view(&self) -> SesView {
        SesView {
            from_address: self.from_address@,
            to_addresses: self.to_addresses.deep_view(),
        }
    }
}

impl DeepView for WebhookConfig {
    type V = WebhookView;

    open spec fn deep_view(&self) -> WebhookView {
        WebhookView { url: self.url@, auth_header: self.auth_header.deep_view() }
    }
}

impl DeepView for SnsConfig {
    type V = SnsView;

    open spec fn deep_view(&self) -> SnsView {
        SnsView { topic_arn: self.topic_arn@ }
    }
}

impl DeepView for Config {
    type V = ConfigView;

    open spec fn deep_view(&self) -> ConfigView {
        ConfigView {
            setup_name: self.setup_name@,
            spike_threshold_pct: self.spike_threshold_pct,
            cross_account_role_arn: self.cross_account_role_arn.deep_view(),
            external_id: self.external_id.deep_view(),
            account_namespace: self.account_namespace@,
            history_days: self.history_days as nat,
            min_avg_daily_usd: self.min_avg_daily_usd,
            dedup_cooldown_hours: self.dedup_cooldown_hours as nat,
            max_spike_display: self.max_spike_display as nat,
            max_digest_display: self.max_digest_display as nat,
            http_timeout_secs: self.http_timeout_secs as nat,
            http_connect_timeout_secs: self.http_connect_timeout_secs as nat,
            notify_channels: self.notify_channels.deep_view(),
            telegram: self.telegram.deep_view(),
            slack: self.slack.deep_view(),
            teams: self.teams.deep_view(),
            pagerduty: self.pagerduty.deep_view(),
            ses: self.ses.deep_view(),
            webhook: self.webhook.deep_view(),
            sns: self.sns.deep_view(),
        }
    }
}

/// The channels that there are.
pub open spec fn known_channel(name: Seq<char>) -> bool {
    ||| name == "telegram"@
    ||| name == "slack"@
    ||| name == "teams"@
    ||| name == "pagerduty"@
    ||| name == "webhook"@
    ||| name == "ses"@
    ||| name == "sns"@
}

impl ConfigView {
    /// What holds of every configuration that was loaded: its numbers are in
    /// range, its channels are known, and a channel has its settings exactly
    /// where it is listed.
    pub open spec fn well_formed(self) -> bool {
        &&& self.history_days > 0
        &&& self.dedup_cooldown_hours > 0
        &&& !self.spike_threshold_pct.at_most(zero())
        &&& !self.min_avg_daily_usd.below(zero())
        &&& forall|i: int|
            0 <= i < self.notify_channels.len() ==> known_channel(
                #[trigger] self.notify_channels[i],
            )
        &&& self.telegram is Some <==> self.notify_channels.contains("telegram"@)
        &&& self.slack is Some <==> self.notify_channels.contains("slack"@)
        &&& self.teams is Some <==> self.notify_channels.contains("teams"@)
        &&& self.pagerduty is Some <==> self.notify_channels.contains("pagerduty"@)
        &&& self.ses is Some <==> self.notify_channels.contains("ses"@)
        &&& self.webhook is Some <==> self.notify_channels.contains("webhook"@)
        &&& self.sns is Some <==> self.notify_channels.contains("sns"@)
        &&& self.telegram matches Some(telegram) ==> telegram.chat_id.len() > 0
        &&& self.ses matches Some(ses) ==> ses.to_addresses.len() > 0
    }
}

// ---- what it is loaded from --------------------------------------------

/// A variable of the environment.
#[derive(Debug)]
pub struct EnvVar {
    pub name: String,
    pub value: String,
}

/// The environment.
#[derive(Debug)]
pub struct Env {
    pub vars: Vec<EnvVar>,
}

pub open spec fn look_up(vars: Seq<EnvVar>, name: Seq<char>) -> Option<Seq<char>>
    decreases vars.len(),
{
    if vars.len() == 0 {
        None
    } else if vars[0].name@ == name {
        Some(vars[0].value@)
    } else {
        look_up(vars.drop_first(), name)
    }
}

impl Env {
    /// What a variable holds, where it is set.
    pub open spec fn value(self, name: Seq<char>) -> Option<Seq<char>> {
        look_up(self.vars@, name)
    }

    pub fn get(&self, name: &str) -> (r: Option<String>)
        ensures
            r.deep_view() == self.value(name@),
    {
        let wanted: String = name.to_string();
        let mut i: usize = 0;
        assert(self.vars@.skip(0) =~= self.vars@);
        while i < self.vars.len()
            invariant
                wanted@ == name@,
                i <= self.vars@.len(),
                self.value(name@) == look_up(self.vars@.skip(i as int), name@),
            decreases self.vars@.len() - i,
        {
            let ghost rest = self.vars@.skip(i as int);
            assert(rest[0] == self.vars@[i as int]);
            assert(rest.drop_first() =~= self.vars@.skip(i + 1));
            if self.vars[i].name == wanted {
                return Some(self.vars[i].value.clone());
            }
            i = i + 1;
        }
        None
    }
}

/// What came of fetching a parameter.
#[derive(Debug)]
pub enum Fetched {
    Value(String),
    NoValue,
    Failed,
}

/// A parameter that was fetched, with the variable that names it.
#[derive(Debug)]
pub struct Parameter {
    pub env_key: String,
    pub fetched: Fetched,
}

pub enum FetchedView {
    Value(Seq<char>),
    NoValue,
    Failed,
}

impl DeepView for Fetched {
    type V = FetchedView;

    open spec fn deep_view(&self) -> FetchedView {
        match self {
            Fetched::Value(value) => FetchedView::Value(value@),
            Fetched::NoValue => FetchedView::NoValue,
            Fetched::Failed => FetchedView::Failed,
        }
    }
}

/// What came of fetching the parameter that a variable names, where it was
/// fetched.
pub open spec fn outcome(params: Seq<Parameter>, env_key: Seq<char>) -> Option<FetchedView>
    decreases params.len(),
{
    if params.len() == 0 {
        None
    } else if params[0].env_key@ == env_key {
        Some(params[0].fetched.deep_view())
    } else {
        outcome(params.drop_first(), env_key)
    }
}

fn find_outcome(params: &Vec<Parameter>, env_key: &str) -> (r: usize)
    ensures
        r <= params@.len(),
        r < params@.len() ==> outcome(params@, env_key@) == Some(
            params@[r as int].fetched.deep_view(),
        ),
        r == params@.len() ==> outcome(params@, env_key@) is None,
{
    let wanted: String = env_key.to_string();
    let mut i: usize = 0;
    assert(params@.skip(0) =~= params@);
    while i < params.len()
        invariant
            wanted@ == env_key@,
            i <= params@.len(),
            outcome(params@, env_key@) == outcome(params@.skip(i as int), env_key@),
        decreases params@.len() - i,
    {
        let ghost rest = params@.skip(i as int);
        assert(rest[0] == params@[i as int]);
        assert(rest.drop_first() =~= params@.skip(i + 1));
        if params[i].env_key == wanted {
            return i;
        }
        i = i + 1;
    }
    i
}

// ---- what can go wrong -------------------------------------------------

#[derive(Debug)]
pub enum ConfigError {
    /// The threshold is not a number.
    BadThreshold,
    /// A variable does not hold a natural number that fits.
    NotAnInteger { key: String, value: String },
    /// A variable does not hold a number.
    NotANumber { key: String, value: String },
    /// A variable is not set.
    NotSet { key: String },
    /// A parameter could not be fetched.
    FetchFailed { param: String },
    /// A parameter holds nothing.
    NoValue,
    /// There is no chat to write to.
    NoChat,
    /// There is nobody to write to.
    NoAddresses,
    /// There is no address to post to.
    NoWebhookUrl,
    /// A channel is listed that there is not.
    UnknownChannel { name: String },
    NoHistoryDays,
    ThresholdNotPositive { number: Amount },
    NegativeMinimum { number: Amount },
    NoCooldown,
}

pub enum ErrorView {
    BadThreshold,
    NotAnInteger { key: Seq<char>, value: Seq<char> },
    NotANumber { key: Seq<char>, value: Seq<char> },
    NotSet { key: Seq<char> },
    FetchFailed { param: Seq<char> },
    NoValue,
    NoChat,
    NoAddresses,
    NoWebhookUrl,
    UnknownChannel { name: Seq<char> },
    NoHistoryDays,
    ThresholdNotPositive { number: Amount },
    NegativeMinimum { number: Amount },
    NoCooldown,
}

impl DeepView for ConfigError {
    type V = ErrorView;

    open spec fn deep_view(&self) -> ErrorView {
        match self {
            ConfigError::BadThreshold => ErrorView::BadThreshold,
            ConfigError::NotAnInteger { key, value } => ErrorView::NotAnInteger {
                key: key@,
                value: value@,
            },
            ConfigError::NotANumber { key, value } => ErrorView::NotANumber {
                key: key@,
                value: value@,
            },
            ConfigError::NotSet { key } => ErrorView::NotSet { key: key@ },
            ConfigError::FetchFailed { param } => ErrorView::FetchFailed { param: param@ },
            ConfigError::NoValue => ErrorView::NoValue,
            ConfigError::NoChat => ErrorView::NoChat,
            ConfigError::NoAddresses => ErrorView::NoAddresses,
            ConfigError::NoWebhookUrl => ErrorView::NoWebhookUrl,
            ConfigError::UnknownChannel { name } => ErrorView::UnknownChannel { name: name@ },
            ConfigError::NoHistoryDays => ErrorView::NoHistoryDays,
            ConfigError::ThresholdNotPositive { number } => ErrorView::ThresholdNotPositive {
                number: *number,
            },
            ConfigError::NegativeMinimum { number } => ErrorView::NegativeMinimum { number: *number },
            ConfigError::NoCooldown => ErrorView::NoCooldown,
        }
    }
}

/// Why loading has stopped: a parameter is to be fetched first, or something
/// is wrong.
#[derive(Debug)]
pub enum Stop {
    Fetch { env_key: String, param: String },
    Failed(ConfigError),
}

pub enum StopView {
    Fetch { env_key: Seq<char>, param: Seq<char> },
    Failed(ErrorView),
}

impl DeepView for Stop {
    type V = StopView;

    open spec fn deep_view(&self) -> StopView {
        match self {
            Stop::Fetch { env_key, param } => StopView::Fetch { env_key: env_key@, param: param@ },
            Stop::Failed(error) => StopView::Failed(error.deep_view()),
        }
    }
}

impl ErrorView {
    /// The text that is quoted in what is said about an error.
    pub open spec fn subject(self) -> Seq<char> {
        match self {
            ErrorView::NotAnInteger { value, .. } => value,
            ErrorView::NotANumber { value, .. } => value,
            ErrorView::UnknownChannel { name } => name,
            _ => Seq::<char>::empty(),
        }
    }

    /// What is said about an error. `quotation` is the text that it is about,
    /// in quotes, and `shown` the number, as it is printed.
    pub open spec fn wording(self, quotation: Seq<char>, shown: Seq<char>) -> Seq<char> {
        match self {
            ErrorView::BadThreshold => "SPIKE_THRESHOLD_PCT must be a number"@,
            ErrorView::NotAnInteger { key, .. } => key + " must be a positive integer, got "@
                + quotation,
            ErrorView::NotANumber { key, .. } => key + " must be a number, got "@ + quotation,
            ErrorView::NotSet { key } => key + " env var not set"@,
            ErrorView::FetchFailed { param } => "Failed to fetch SSM parameter: "@ + param,
            ErrorView::NoValue => "SSM parameter has no value"@,
            ErrorView::NoChat =>
                "telegram_chat_id missing from both AccountContext and TELEGRAM_CHAT_ID env var"@,
            ErrorView::NoAddresses => "SES_TO_ADDRESSES must contain at least one address"@,
            ErrorView::NoWebhookUrl => "WEBHOOK_URL or WEBHOOK_URL_SSM_PARAM must be set"@,
            ErrorView::UnknownChannel { .. } => "Unknown notification channel: "@ + quotation,
            ErrorView::NoHistoryDays => "HISTORY_DAYS must be > 0 (got 0)"@,
            ErrorView::ThresholdNotPositive { .. } => "SPIKE_THRESHOLD_PCT must be > 0 (got "@
                + shown + ")"@,
            ErrorView::NegativeMinimum { .. } => "MIN_AVG_DAILY_USD must be >= 0 (got "@ + shown
                + ")"@,
            ErrorView::NoCooldown => "DEDUP_COOLDOWN_HOURS must be > 0 (got 0)"@,
        }
    }
}

impl ConfigError {
    /// The number that the error is about, where it is about one.
    pub fn number(&self) -> (r: Option<Amount>)
        ensures
            r == (match self.deep_view() {
                ErrorView::ThresholdNotPositive { number } => Some(number),
                ErrorView::NegativeMinimum { number } => Some(number),
                _ => None,
            }),
    {
        match self {
            ConfigError::ThresholdNotPositive { number } => Some(*number),
            ConfigError::NegativeMinimum { number } => Some(*number),
            _ => None,
        }
    }

    /// What is said about the error. `quotation` is the text that it is about,
    /// in quotes, and `shown` the number, as it is printed.
    pub fn describe(&self, quotation: &str, shown: &str) -> (r: String)
        ensures
            r@ == self.deep_view().wording(quotation@, shown@),
    {
        match self {
            ConfigError::BadThreshold => "SPIKE_THRESHOLD_PCT must be a number".to_string(),
            ConfigError::NotAnInteger { key, .. } => {
                let mut out: String = key.clone();
                out.append(" must be a positive integer, got ");
                out.append(quotation);
                out
            },
            ConfigError::NotANumber { key, .. } => {
                let mut out: String = key.clone();
                out.append(" must be a number, got ");
                out.append(quotation);
                out
            },
            ConfigError::NotSet { key } => {
                let mut out: String = key.clone();
                out.append(" env var not set");
                out
            },
            ConfigError::FetchFailed { param } => {
                let mut out: String = "Failed to fetch SSM parameter: ".to_string();
                out.append(param.as_str());
                out
            },
            ConfigError::NoValue => "SSM parameter has no value".to_string(),
            ConfigError::NoChat =>
                "telegram_chat_id missing from both AccountContext and TELEGRAM_CHAT_ID env var".to_string(),
            ConfigError::NoAddresses =>
                "SES_TO_ADDRESSES must contain at least one address".to_string(),
            ConfigError::NoWebhookUrl =>
                "WEBHOOK_URL or WEBHOOK_URL_SSM_PARAM must be set".to_string(),
            ConfigError::UnknownChannel { .. } => {
                let mut out: String = "Unknown notification channel: ".to_string();
                out.append(quotation);
                out
            },
            ConfigError::NoHistoryDays => "HISTORY_DAYS must be > 0 (got 0)".to_string(),
            ConfigError::ThresholdNotPositive { .. } => {
                let mut out: String = "SPIKE_THRESHOLD_PCT must be > 0 (got ".to_string();
                out.append(shown);
                out.append(")");
                out
            },
            ConfigError::NegativeMinimum { .. } => {
                let mut out: String = "MIN_AVG_DAILY_USD must be >= 0 (got ".to_string();
                out.append(shown);
                out.append(")");
                out
            },
            ConfigError::NoCooldown => "DEDUP_COOLDOWN_HOURS must be > 0 (got 0)".to_string(),
        }
    }

    /// What is said about the error. `shown` is its number, as it is printed.
    pub fn message(&self, shown: &str) -> (r: String)
        ensures
            r@ == self.deep_view().wording(quoted(self.deep_view().subject()), shown@),
    {
        let quotation: String = match self {
            ConfigError::NotAnInteger { value, .. } => quote(value.as_str()),
            ConfigError::NotANumber { value, .. } => quote(value.as_str()),
            ConfigError::UnknownChannel { name } => quote(name.as_str()),
            _ => String::new(),
        };
        self.describe(quotation.as_str(), shown)
    }
}

// ---- single settings ---------------------------------------------------

/// The name under which messages are sent.
pub const SETUP_NAME: &'static str = "StackAlert";

/// The namespace of an account that watches itself.
pub const OWN_NAMESPACE: &'static str = "self";

pub open spec fn failed<T>(error: ErrorView) -> Result<T, StopView> {
    Err(StopView::Failed(error))
}

/// A variable that holds a natural number of at most `max`.
pub open spec fn natural_setting(env: Env, key: Seq<char>, default: nat, max: nat) -> Result<
    nat,
    StopView,
> {
    match env.value(key) {
        Some(value) => match read_natural(value, max) {
            Some(n) => Ok(n),
            None => failed(ErrorView::NotAnInteger { key, value }),
        },
        None => Ok(default),
    }
}

/// A variable that holds a number.
pub open spec fn number_setting(env: Env, key: Seq<char>, default: Amount) -> Result<
    Amount,
    StopView,
> {
    match env.value(key) {
        Some(value) => match read_number(value) {
            Some(amount) => Ok(amount),
            None => failed(ErrorView::NotANumber { key, value }),
        },
        None => Ok(default),
    }
}

/// The threshold, in percent.
pub open spec fn threshold_setting(env: Env) -> Result<Amount, StopView> {
    let written = match env.value("SPIKE_THRESHOLD_PCT"@) {
        Some(value) => value,
        None => "50"@,
    };
    match read_number(written) {
        Some(amount) => Ok(amount),
        None => failed(ErrorView::BadThreshold),
    }
}

/// The seconds that a variable gives. Where they are zero or not given, those
/// that an older variable gives, and a default where that one is not given or
/// is no natural number.
pub open spec fn seconds_setting(
    env: Env,
    key: Seq<char>,
    older: Seq<char>,
    default: nat,
) -> Result<nat, StopView> {
    match natural_setting(env, key, 0, u64::MAX as nat) {
        Ok(seconds) => if seconds > 0 {
            Ok(seconds)
        } else {
            match natural_setting(env, older, default, u64::MAX as nat) {
                Ok(seconds) => Ok(seconds),
                Err(_) => Ok(default),
            }
        },
        Err(stop) => Err(stop),
    }
}

/// The channels that the environment lists.
pub open spec fn channels_setting(env: Env) -> Seq<Seq<char>> {
    match env.value("NOTIFY_CHANNELS"@) {
        Some(value) => list_items(value),
        None => seq!["telegram"@],
    }
}

/// The parameter that a variable names.
pub open spec fn required_param(env: Env, params: Seq<Parameter>, env_key: Seq<char>) -> Result<
    Seq<char>,
    StopView,
> {
    match env.value(env_key) {
        None => failed(ErrorView::NotSet { key: env_key }),
        Some(param) => match outcome(params, env_key) {
            None => Err(StopView::Fetch { env_key, param }),
            Some(FetchedView::Failed) => failed(ErrorView::FetchFailed { param }),
            Some(FetchedView::NoValue) => failed(ErrorView::NoValue),
            Some(FetchedView::Value(value)) => Ok(value),
        },
    }
}

/// The parameter that a variable names, where it is set.
pub open spec fn optional_param(env: Env, params: Seq<Parameter>, env_key: Seq<char>) -> Result<
    Option<Seq<char>>,
    StopView,
> {
    match env.value(env_key) {
        None => Ok(None),
        Some(param) => match outcome(params, env_key) {
            None => Err(StopView::Fetch { env_key, param }),
            Some(FetchedView::Failed) => failed(ErrorView::FetchFailed { param }),
            Some(FetchedView::NoValue) => Ok(None),
            Some(FetchedView::Value(value)) => Ok(Some(value)),
        },
    }
}

/// A variable that has to be set.
pub open spec fn required_var(env: Env, key: Seq<char>) -> Result<Seq<char>, StopView> {
    match env.value(key) {
        Some(value) => Ok(value),
        None => failed(ErrorView::NotSet { key }),
    }
}

// ---- the settings of the channels --------------------------------------

/// Telegram: the bot's token, and the chat of the account or else of the
/// environment, which must not be empty.
pub open spec fn telegram_setting(
    env: Env,
    params: Seq<Parameter>,
    channels: Seq<Seq<char>>,
    account_chat_id: Option<Seq<char>>,
) -> Result<Option<TelegramView>, StopView> {
    let chat = match account_chat_id {
        Some(chat) => Some(chat),
        None => env.value("TELEGRAM_CHAT_ID"@),
    };
    if !channels.contains("telegram"@) {
        Ok(None)
    } else {
        match required_param(env, params, "TELEGRAM_BOT_TOKEN_SSM_PARAM"@) {
            Err(stop) => Err(stop),
            Ok(bot_token) => match chat {
                Some(chat_id) => if chat_id.len() > 0 {
                    Ok(Some(TelegramView { bot_token, chat_id }))
                } else {
                    failed(ErrorView::NoChat)
                },
                None => failed(ErrorView::NoChat),
            },
        }
    }
}

pub open spec fn slack_setting(
    env: Env,
    params: Seq<Parameter>,
    channels: Seq<Seq<char>>,
) -> Result<Option<SlackView>, StopView> {
    if !channels.contains("slack"@) {
        Ok(None)
    } else {
        match required_param(env, params, "SLACK_WEBHOOK_URL_SSM_PARAM"@) {
            Err(stop) => Err(stop),
            Ok(webhook_url) => Ok(Some(SlackView { webhook_url })),
        }
    }
}

pub open spec fn teams_setting(
    env: Env,
    params: Seq<Parameter>,
    channels: Seq<Seq<char>>,
) -> Result<Option<TeamsView>, StopView> {
    if !channels.contains("teams"@) {
        Ok(None)
    } else {
        match required_param(env, params, "TEAMS_WEBHOOK_URL_SSM_PARAM"@) {
            Err(stop) => Err(stop),
            Ok(webhook_url) => Ok(Some(TeamsView { webhook_url })),
        }
    }
}

pub open spec fn pagerduty_setting(
    env: Env,
    params: Seq<Parameter>,
    channels: Seq<Seq<char>>,
) -> Result<Option<PagerDutyView>, StopView> {
    if !channels.contains("pagerduty"@) {
        Ok(None)
    } else {
        match required_param(env, params, "PAGERDUTY_ROUTING_KEY_SSM_PARAM"@) {
            Err(stop) => Err(stop),
            Ok(routing_key) => Ok(
                Some(
                    PagerDutyView {
                        routing_key,
                        severity: match env.value("PAGERDUTY_SEVERITY"@) {
                            Some(severity) => severity,
                            None => "error"@,
                        },
                    },
                ),
            ),
        }
    }
}

/// Email: who it comes from, and at least one recipient.
pub open spec fn ses_setting(env: Env, channels: Seq<Seq<char>>) -> Result<
    Option<SesView>,
    StopView,
> {
    if !channels.contains("ses"@) {
        Ok(None)
    } else {
        match (required_var(env, "SES_FROM_ADDRESS"@), required_var(env, "SES_TO_ADDRESSES"@)) {
            (Err(stop), _) => Err(stop),
            (_, Err(stop)) => Err(stop),
            (Ok(from_address), Ok(list)) => if list_items(list).len() == 0 {
                failed(ErrorView::NoAddresses)
            } else {
                Ok(Some(SesView { from_address, to_addresses: list_items(list) }))
            },
        }
    }
}

/// A webhook: its address as a parameter or else from the environment, and a
/// header for authorization where one is configured.
pub open spec fn webhook_setting(
    env: Env,
    params: Seq<Parameter>,
    channels: Seq<Seq<char>>,
) -> Result<Option<WebhookView>, StopView> {
    if !channels.contains("webhook"@) {
        Ok(None)
    } else {
        match optional_param(env, params, "WEBHOOK_URL_SSM_PARAM"@) {
            Err(stop) => Err(stop),
            Ok(param) => {
                let url = match param {
                    Some(url) => Some(url),
                    None => env.value("WEBHOOK_URL"@),
                };
                match url {
                    None => failed(ErrorView::NoWebhookUrl),
                    Some(url) => match optional_param(
                        env,
                        params,
                        "WEBHOOK_AUTH_HEADER_SSM_PARAM"@,
                    ) {
                        Err(stop) => Err(stop),
                        Ok(auth_header) => Ok(Some(WebhookView { url, auth_header })),
                    },
                }
            },
        }
    }
}

pub open spec fn sns_setting(env: Env, channels: Seq<Seq<char>>) -> Result<
    Option<SnsView>,
    StopView,
> {
    if !channels.contains("sns"@) {
        Ok(None)
    } else {
        match required_var(env, "SNS_TOPIC_ARN"@) {
            Err(stop) => Err(stop),
            Ok(topic_arn) => Ok(Some(SnsView { topic_arn })),
        }
    }
}

// ---- the whole ---------------------------------------------------------

/// What sets one account apart from another.
pub struct AccountView {
    pub spike_threshold_pct: Amount,
    pub role_arn: Option<Seq<char>>,
    pub external_id: Option<Seq<char>>,
    pub namespace: Seq<char>,
    pub channels: Seq<Seq<char>>,
    pub chat_id: Option<Seq<char>>,
}

pub open spec fn stop_of<T>(setting: Result<T, StopView>) -> Option<StopView> {
    match setting {
        Ok(_) => None,
        Err(stop) => Some(stop),
    }
}

/// The first of two reasons to stop.
pub open spec fn earlier(first: Option<StopView>, second: Option<StopView>) -> Option<StopView> {
    match first {
        Some(stop) => Some(stop),
        None => second,
    }
}

/// What is wrong with the numbers of the environment.
pub open spec fn numbers_stop(env: Env) -> Option<StopView> {
    earlier(
        stop_of(natural_setting(env, "HISTORY_DAYS"@, 7, u32::MAX as nat)),
        earlier(
            stop_of(number_setting(env, "MIN_AVG_DAILY_USD"@, ten_cents())),
            earlier(
                stop_of(natural_setting(env, "DEDUP_COOLDOWN_HOURS"@, 6, u32::MAX as nat)),
                earlier(
                    stop_of(natural_setting(env, "MAX_SPIKE_DISPLAY"@, 5, usize::MAX as nat)),
                    earlier(
                        stop_of(natural_setting(env, "MAX_DIGEST_DISPLAY"@, 10, usize::MAX as nat)),
                        earlier(
                            stop_of(
                                seconds_setting(
                                    env,
                                    "HTTP_TIMEOUT_SECS"@,
                                    "TELEGRAM_TIMEOUT_SECS"@,
                                    10,
                                ),
                            ),
                            stop_of(
                                seconds_setting(
                                    env,
                                    "HTTP_CONNECT_TIMEOUT_SECS"@,
                                    "TELEGRAM_CONNECT_TIMEOUT_SECS"@,
                                    5,
                                ),
                            ),
                        ),
                    ),
                ),
            ),
        ),
    )
}

/// What is wrong with the settings of the channels, or not there yet.
pub open spec fn channels_stop(env: Env, params: Seq<Parameter>, account: AccountView) -> Option<
    StopView,
> {
    let channels = account.channels;
    earlier(
        stop_of(telegram_setting(env, params, channels, account.chat_id)),
        earlier(
            stop_of(slack_setting(env, params, channels)),
            earlier(
                stop_of(teams_setting(env, params, channels)),
                earlier(
                    stop_of(pagerduty_setting(env, params, channels)),
                    earlier(
                        stop_of(ses_setting(env, channels)),
                        earlier(
                            stop_of(webhook_setting(env, params, channels)),
                            stop_of(sns_setting(env, channels)),
                        ),
                    ),
                ),
            ),
        ),
    )
}

/// The configuration that the settings make.
pub open spec fn composed(env: Env, params: Seq<Parameter>, account: AccountView) -> ConfigView {
    let channels = account.channels;
    ConfigView {
        setup_name: SETUP_NAME@,
        spike_threshold_pct: account.spike_threshold_pct,
        cross_account_role_arn: account.role_arn,
        external_id: account.external_id,
        account_namespace: account.namespace,
        history_days: natural_setting(env, "HISTORY_DAYS"@, 7, u32::MAX as nat)->Ok_0,
        min_avg_daily_usd: number_setting(env, "MIN_AVG_DAILY_USD"@, ten_cents())->Ok_0,
        dedup_cooldown_hours: natural_setting(
            env,
            "DEDUP_COOLDOWN_HOURS"@,
            6,
            u32::MAX as nat,
        )->Ok_0,
        max_spike_display: natural_setting(env, "MAX_SPIKE_DISPLAY"@, 5, usize::MAX as nat)->Ok_0,
        max_digest_display: natural_setting(
            env,
            "MAX_DIGEST_DISPLAY"@,
            10,
            usize::MAX as nat,
        )->Ok_0,
        http_timeout_secs: seconds_setting(
            env,
            "HTTP_TIMEOUT_SECS"@,
            "TELEGRAM_TIMEOUT_SECS"@,
            10,
        )->Ok_0,
        http_connect_timeout_secs: seconds_setting(
            env,
            "HTTP_CONNECT_TIMEOUT_SECS"@,
            "TELEGRAM_CONNECT_TIMEOUT_SECS"@,
            5,
        )->Ok_0,
        notify_channels: channels,
        telegram: telegram_setting(env, params, channels, account.chat_id)->Ok_0,
        slack: slack_setting(env, params, channels)->Ok_0,
        teams: teams_setting(env, params, channels)->Ok_0,
        pagerduty: pagerduty_setting(env, params, channels)->Ok_0,
        ses: ses_setting(env, channels)->Ok_0,
        webhook: webhook_setting(env, params, channels)->Ok_0,
        sns: sns_setting(env, channels)->Ok_0,
    }
}

/// The first channel that there is not.
pub open spec fn unknown_channel(channels: Seq<Seq<char>>) -> Option<Seq<char>>
    decreases channels.len(),
{
    if channels.len() == 0 {
        None
    } else if !known_channel(channels[0]) {
        Some(channels[0])
    } else {
        unknown_channel(channels.drop_first())
    }
}

impl ConfigView {
    /// What is wrong with the configuration: the first that applies.
    pub open spec fn flaw(self) -> Option<ErrorView> {
        match unknown_channel(self.notify_channels) {
            Some(name) => Some(ErrorView::UnknownChannel { name }),
            None => if self.history_days == 0 {
                Some(ErrorView::NoHistoryDays)
            } else if self.spike_threshold_pct.at_most(zero()) {
                Some(ErrorView::ThresholdNotPositive { number: self.spike_threshold_pct })
            } else if self.min_avg_daily_usd.below(zero()) {
                Some(ErrorView::NegativeMinimum { number: self.min_avg_daily_usd })
            } else if self.dedup_cooldown_hours == 0 {
                Some(ErrorView::NoCooldown)
            } else {
                None
            },
        }
    }
}

/// The configuration for an account, or why there is none: the numbers come
/// first, then the settings of the channels, then the configuration as a whole.
pub open spec fn configured(env: Env, params: Seq<Parameter>, account: AccountView) -> Result<
    ConfigView,
    StopView,
> {
    match earlier(numbers_stop(env), channels_stop(env, params, account)) {
        Some(stop) => Err(stop),
        None => match composed(env, params, account).flaw() {
            Some(flaw) => failed(flaw),
            None => Ok(composed(env, params, account)),
        },
    }
}

/// An account that watches itself.
pub open spec fn own_account(env: Env) -> AccountView {
    AccountView {
        spike_threshold_pct: threshold_setting(env)->Ok_0,
        role_arn: env.value("CROSS_ACCOUNT_ROLE_ARN"@),
        external_id: env.value("EXTERNAL_ID"@),
        namespace: OWN_NAMESPACE@,
        channels: channels_setting(env),
        chat_id: None,
    }
}

/// An account among several.
pub open spec fn given_account(env: Env, ctx: AccountContext) -> AccountView {
    AccountView {
        spike_threshold_pct: ctx.spike_threshold,
        role_arn: Some(ctx.role_arn@),
        external_id: Some(ctx.external_id@),
        namespace: ctx.aws_account_id@,
        channels: match ctx.notify_channels {
            Some(list) => list_items(list@),
            None => channels_setting(env),
        },
        chat_id: ctx.telegram_chat_id.deep_view(),
    }
}

// ---- loading -----------------------------------------------------------

/// What the loaders share.
struct Account {
    spike_threshold_pct: Amount,
    role_arn: Option<String>,
    external_id: Option<String>,
    namespace: String,
    channels: Vec<String>,
    chat_id: Option<String>,
}

impl DeepView for Account {
    type V = AccountView;

    closed spec fn deep_view(&self) -> AccountView {
        AccountView {
            spike_threshold_pct: self.spike_threshold_pct,
            role_arn: self.role_arn.deep_view(),
            external_id: self.external_id.deep_view(),
            namespace: self.namespace@,
            channels: self.channels.deep_view(),
            chat_id: self.chat_id.deep_view(),
        }
    }
}

fn lists(channels: &Vec<String>, name: &str) -> (r: bool)
    ensures
        r == channels.deep_view().contains(name@),
{
    let wanted: String = name.to_string();
    let ghost all = channels.deep_view();
    let mut i: usize = 0;
    while i < channels.len()
        invariant
            wanted@ == name@,
            all == channels.deep_view(),
            i <= channels@.len(),
            forall|k: int| 0 <= k < i ==> #[trigger] all[k] != name@,
        decreases channels@.len() - i,
    {
        assert(all[i as int] == channels@[i as int]@);
        if channels[i] == wanted {
            return true;
        }
        i = i + 1;
    }
    false
}

fn is_known(name: &String) -> (r: bool)
    ensures
        r == known_channel(name@),
{
    same(name.as_str(), "telegram") || same(name.as_str(), "slack") || same(
        name.as_str(),
        "teams",
    ) || same(name.as_str(), "pagerduty") || same(name.as_str(), "webhook") || same(
        name.as_str(),
        "ses",
    ) || same(name.as_str(), "sns")
}

impl Config {
    fn parse_env_u64(env: &Env, key: &str, default: u64) -> (r: Result<u64, Stop>)
        ensures
            match r {
                Ok(n) => natural_setting(*env, key@, default as nat, u64::MAX as nat) == Ok::<
                    nat,
                    StopView,
                >(n as nat),
                Err(stop) => natural_setting(*env, key@, default as nat, u64::MAX as nat) == Err::<
                    nat,
                    StopView,
                >(stop.deep_view()),
            },
    {
        Self::parse_env_natural(env, key, default, u64::MAX)
    }

    fn parse_env_u32(env: &Env, key: &str, default: u32) -> (r: Result<u32, Stop>)
        ensures
            match r {
                Ok(n) => natural_setting(*env, key@, default as nat, u32::MAX as nat) == Ok::<
                    nat,
                    StopView,
                >(n as nat),
                Err(stop) => natural_setting(*env, key@, default as nat, u32::MAX as nat) == Err::<
                    nat,
                    StopView,
                >(stop.deep_view()),
            },
    {
        match Self::parse_env_natural(env, key, default as u64, u32::MAX as u64) {
            Ok(n) => Ok(n as u32),
            Err(stop) => Err(stop),
        }
    }

    fn parse_env_usize(env: &Env, key: &str, default: usize) -> (r: Result<usize, Stop>)
        ensures
            match r {
                Ok(n) => natural_setting(*env, key@, default as nat, usize::MAX as nat) == Ok::<
                    nat,
                    StopView,
                >(n as nat),
                Err(stop) => natural_setting(*env, key@, default as nat, usize::MAX as nat)
                    == Err::<nat, StopView>(stop.deep_view()),
            },
    {
        match Self::parse_env_natural(env, key, default as u64, usize::MAX as u64) {
            Ok(n) => Ok(n as usize),
            Err(stop) => Err(stop),
        }
    }

    fn parse_env_natural(env: &Env, key: &str, default: u64, max: u64) -> (r: Result<u64, Stop>)
        requires
            default <= max,
        ensures
            match r {
                Ok(n) => n <= max && natural_setting(*env, key@, default as nat, max as nat)
                    == Ok::<nat, StopView>(n as nat),
                Err(stop) => natural_setting(*env, key@, default as nat, max as nat) == Err::<
                    nat,
                    StopView,
                >(stop.deep_view()),
            },
    {
        match env.get(key) {
            Some(value) => match parse_natural(value.as_str(), max) {
                Some(n) => Ok(n),
                None => Err(
                    Stop::Failed(ConfigError::NotAnInteger { key: key.to_string(), value }),
                ),
            },
            None => Ok(default),
        }
    }

    fn parse_env_number(env: &Env, key: &str, default: Amount) -> (r: Result<Amount, Stop>)
        ensures
            match r {
                Ok(amount) => number_setting(*env, key@, default) == Ok::<Amount, StopView>(amount),
                Err(stop) => number_setting(*env, key@, default) == Err::<Amount, StopView>(
                    stop.deep_view(),
                ),
            },
    {
        match env.get(key) {
            Some(value) => match parse_number(value.as_str()) {
                Some(amount) => Ok(amount),
                None => Err(Stop::Failed(ConfigError::NotANumber { key: key.to_string(), value })),
            },
            None => Ok(default),
        }
    }

    fn parse_seconds(env: &Env, key: &str, older: &str, default: u64) -> (r: Result<u64, Stop>)
        ensures
            match r {
                Ok(n) => seconds_setting(*env, key@, older@, default as nat) == Ok::<
                    nat,
                    StopView,
                >(n as nat),
                Err(stop) => seconds_setting(*env, key@, older@, default as nat) == Err::<
                    nat,
                    StopView,
                >(stop.deep_view()),
            },
    {
        match Self::parse_env_u64(env, key, 0) {
            Ok(seconds) => {
                if seconds > 0 {
                    Ok(seconds)
                } else {
                    match Self::parse_env_u64(env, older, default) {
                        Ok(seconds) => Ok(seconds),
                        Err(_) => Ok(default),
                    }
                }
            },
            Err(stop) => Err(stop),
        }
    }

    fn parse_http_timeout(env: &Env) -> (r: Result<u64, Stop>)
        ensures
            match r {
                Ok(n) => seconds_setting(
                    *env,
                    "HTTP_TIMEOUT_SECS"@,
                    "TELEGRAM_TIMEOUT_SECS"@,
                    10,
                ) == Ok::<nat, StopView>(n as nat),
                Err(stop) => seconds_setting(
                    *env,
                    "HTTP_TIMEOUT_SECS"@,
                    "TELEGRAM_TIMEOUT_SECS"@,
                    10,
                ) == Err::<nat, StopView>(stop.deep_view()),
            },
    {
        Self::parse_seconds(env, "HTTP_TIMEOUT_SECS", "TELEGRAM_TIMEOUT_SECS", 10)
    }

    fn parse_http_connect_timeout(env: &Env) -> (r: Result<u64, Stop>)
        ensures
            match r {
                Ok(n) => seconds_setting(
                    *env,
                    "HTTP_CONNECT_TIMEOUT_SECS"@,
                    "TELEGRAM_CONNECT_TIMEOUT_SECS"@,
                    5,
                ) == Ok::<nat, StopView>(n as nat),
                Err(stop) => seconds_setting(
                    *env,
                    "HTTP_CONNECT_TIMEOUT_SECS"@,
                    "TELEGRAM_CONNECT_TIMEOUT_SECS"@,
                    5,
                ) == Err::<nat, StopView>(stop.deep_view()),
            },
    {
        Self::parse_seconds(env, "HTTP_CONNECT_TIMEOUT_SECS", "TELEGRAM_CONNECT_TIMEOUT_SECS", 5)
    }

    fn parse_threshold(env: &Env) -> (r: Result<Amount, Stop>)
        ensures
            match r {
                Ok(amount) => threshold_setting(*env) == Ok::<Amount, StopView>(amount),
                Err(stop) => threshold_setting(*env) == Err::<Amount, StopView>(stop.deep_view()),
            },
    {
        let written: String = match env.get("SPIKE_THRESHOLD_PCT") {
            Some(value) => value,
            None => "50".to_string(),
        };
        match parse_number(written.as_str()) {
            Some(amount) => Ok(amount),
            None => Err(Stop::Failed(ConfigError::BadThreshold)),
        }
    }

    fn parse_notify_channels(env: &Env) -> (r: Vec<String>)
        ensures
            r.deep_view() == channels_setting(*env),
    {
        match env.get("NOTIFY_CHANNELS") {
            Some(value) => split_list(value.as_str()),
            None => {
                let mut channels: Vec<String> = Vec::new();
                channels.push("telegram".to_string());
                assert(channels.deep_view() =~= seq!["telegram"@]);
                channels
            },
        }
    }

    fn load_ssm_param(env: &Env, params: &Vec<Parameter>, env_key: &str) -> (r: Result<
        String,
        Stop,
    >)
        ensures
            match r {
                Ok(value) => required_param(*env, params@, env_key@) == Ok::<Seq<char>, StopView>(
                    value@,
                ),
                Err(stop) => required_param(*env, params@, env_key@) == Err::<Seq<char>, StopView>(
                    stop.deep_view(),
                ),
            },
    {
        match env.get(env_key) {
            None => Err(Stop::Failed(ConfigError::NotSet { key: env_key.to_string() })),
            Some(param) => {
                let at: usize = find_outcome(params, env_key);
                if at == params.len() {
                    return Err(Stop::Fetch { env_key: env_key.to_string(), param });
                }
                match &params[at].fetched {
                    Fetched::Failed => Err(Stop::Failed(ConfigError::FetchFailed { param })),
                    Fetched::NoValue => Err(Stop::Failed(ConfigError::NoValue)),
                    Fetched::Value(value) => Ok(value.clone()),
                }
            },
        }
    }

    fn load_ssm_param_optional(env: &Env, params: &Vec<Parameter>, env_key: &str) -> (r: Result<
        Option<String>,
        Stop,
    >)
        ensures
            match r {
                Ok(value) => optional_param(*env, params@, env_key@) == Ok::<
                    Option<Seq<char>>,
                    StopView,
                >(value.deep_view()),
                Err(stop) => optional_param(*env, params@, env_key@) == Err::<
                    Option<Seq<char>>,
                    StopView,
                >(stop.deep_view()),
            },
    {
        match env.get(env_key) {
            None => Ok(None),
            Some(param) => {
                let at: usize = find_outcome(params, env_key);
                if at == params.len() {
                    return Err(Stop::Fetch { env_key: env_key.to_string(), param });
                }
                match &params[at].fetched {
                    Fetched::Failed => Err(Stop::Failed(ConfigError::FetchFailed { param })),
                    Fetched::NoValue => Ok(None),
                    Fetched::Value(value) => Ok(Some(value.clone())),
                }
            },
        }
    }

    fn load_var(env: &Env, key: &str) -> (r: Result<String, Stop>)
        ensures
            match r {
                Ok(value) => required_var(*env, key@) == Ok::<Seq<char>, StopView>(value@),
                Err(stop) => required_var(*env, key@) == Err::<Seq<char>, StopView>(
                    stop.deep_view(),
                ),
            },
    {
        match env.get(key) {
            Some(value) => Ok(value),
            None => Err(Stop::Failed(ConfigError::NotSet { key: key.to_string() })),
        }
    }

    fn load_telegram_config(
        env: &Env,
        params: &Vec<Parameter>,
        channels: &Vec<String>,
        account_chat_id: &Option<String>,
    ) -> (r: Result<Option<TelegramConfig>, Stop>)
        ensures
            match r {
                Ok(c) => telegram_setting(
                    *env,
                    params@,
                    channels.deep_view(),
                    account_chat_id.deep_view(),
                ) == Ok::<Option<TelegramView>, StopView>(c.deep_view()),
                Err(stop) => telegram_setting(
                    *env,
                    params@,
                    channels.deep_view(),
                    account_chat_id.deep_view(),
                ) == Err::<Option<TelegramView>, StopView>(stop.deep_view()),
            },
    {
        if !lists(channels, "telegram") {
            return Ok(None);
        }
        let bot_token: String = match Self::load_ssm_param(
            env,
            params,
            "TELEGRAM_BOT_TOKEN_SSM_PARAM",
        ) {
            Ok(value) => value,
            Err(stop) => {
                return Err(stop);
            },
        };
        let chat: Option<String> = match account_chat_id {
            Some(chat) => Some(chat.clone()),
            None => env.get("TELEGRAM_CHAT_ID"),
        };
        match chat {
            Some(chat_id) => {
                if chat_id.as_str().is_empty() {
                    Err(Stop::Failed(ConfigError::NoChat))
                } else {
                    Ok(Some(TelegramConfig { bot_token, chat_id }))
                }
            },
            None => Err(Stop::Failed(ConfigError::NoChat)),
        }
    }

    fn load_slack_config(env: &Env, params: &Vec<Parameter>, channels: &Vec<String>) -> (r: Result<
        Option<SlackConfig>,
        Stop,
    >)
        ensures
            match r {
                Ok(c) => slack_setting(*env, params@, channels.deep_view()) == Ok::<
                    Option<SlackView>,
                    StopView,
                >(c.deep_view()),
                Err(stop) => slack_setting(*env, params@, channels.deep_view()) == Err::<
                    Option<SlackView>,
                    StopView,
                >(stop.deep_view()),
            },
    {
        if !lists(channels, "slack") {
            return Ok(None);
        }
        match Self::load_ssm_param(env, params, "SLACK_WEBHOOK_URL_SSM_PARAM") {
            Ok(webhook_url) => Ok(Some(SlackConfig { webhook_url })),
            Err(stop) => Err(stop),
        }
    }

    fn load_teams_config(env: &Env, params: &Vec<Parameter>, channels: &Vec<String>) -> (r: Result<
        Option<TeamsConfig>,
        Stop,
    >)
        ensures
            match r {
                Ok(c) => teams_setting(*env, params@, channels.deep_view()) == Ok::<
                    Option<TeamsView>,
                    StopView,
                >(c.deep_view()),
                Err(stop) => teams_setting(*env, params@, channels.deep_view()) == Err::<
                    Option<TeamsView>,
                    StopView,
                >(stop.deep_view()),
            },
    {
        if !lists(channels, "teams") {
            return Ok(None);
        }
        match Self::load_ssm_param(env, params, "TEAMS_WEBHOOK_URL_SSM_PARAM") {
            Ok(webhook_url) => Ok(Some(TeamsConfig { webhook_url })),
            Err(stop) => Err(stop),
        }
    }

    fn load_pagerduty_config(
        env: &Env,
        params: &Vec<Parameter>,
        channels: &Vec<String>,
    ) -> (r: Result<Option<PagerDutyConfig>, Stop>)
        ensures
            match r {
                Ok(c) => pagerduty_setting(*env, params@, channels.deep_view()) == Ok::<
                    Option<PagerDutyView>,
                    StopView,
                >(c.deep_view()),
                Err(stop) => pagerduty_setting(*env, params@, channels.deep_view()) == Err::<
                    Option<PagerDutyView>,
                    StopView,
                >(stop.deep_view()),
            },
    {
        if !lists(channels, "pagerduty") {
            return Ok(None);
        }
        let routing_key: String = match Self::load_ssm_param(
            env,
            params,
            "PAGERDUTY_ROUTING_KEY_SSM_PARAM",
        ) {
            Ok(value) => value,
            Err(stop) => {
                return Err(stop);
            },
        };
        let severity: String = match env.get("PAGERDUTY_SEVERITY") {
            Some(severity) => severity,
            None => "error".to_string(),
        };
        Ok(Some(PagerDutyConfig { routing_key, severity }))
    }

    fn load_ses_config(env: &Env, channels: &Vec<String>) -> (r: Result<Option<SesConfig>, Stop>)
        ensures
            match r {
                Ok(c) => ses_setting(*env, channels.deep_view()) == Ok::<
                    Option<SesView>,
                    StopView,
                >(c.deep_view()),
                Err(stop) => ses_setting(*env, channels.deep_view()) == Err::<
                    Option<SesView>,
                    StopView,
                >(stop.deep_view()),
            },
    {
        if !lists(channels, "ses") {
            return Ok(None);
        }
        let from_address: String = match Self::load_var(env, "SES_FROM_ADDRESS") {
            Ok(value) => value,
            Err(stop) => {
                return Err(stop);
            },
        };
        let list: String = match Self::load_var(env, "SES_TO_ADDRESSES") {
            Ok(value) => value,
            Err(stop) => {
                return Err(stop);
            },
        };
        let to_addresses: Vec<String> = split_list(list.as_str());
        assert(to_addresses.deep_view().len() == to_addresses@.len());
        if to_addresses.len() == 0 {
            return Err(Stop::Failed(ConfigError::NoAddresses));
        }
        Ok(Some(SesConfig { from_address, to_addresses }))
    }

    fn load_webhook_config(
        env: &Env,
        params: &Vec<Parameter>,
        channels: &Vec<String>,
    ) -> (r: Result<Option<WebhookConfig>, Stop>)
        ensures
            match r {
                Ok(c) => webhook_setting(*env, params@, channels.deep_view()) == Ok::<
                    Option<WebhookView>,
                    StopView,
                >(c.deep_view()),
                Err(stop) => webhook_setting(*env, params@, channels.deep_view()) == Err::<
                    Option<WebhookView>,
                    StopView,
                >(stop.deep_view()),
            },
    {
        if !lists(channels, "webhook") {
            return Ok(None);
        }
        let param: Option<String> = match Self::load_ssm_param_optional(
            env,
            params,
            "WEBHOOK_URL_SSM_PARAM",
        ) {
            Ok(value) => value,
            Err(stop) => {
                return Err(stop);
            },
        };
        let found: Option<String> = match param {
            Some(url) => Some(url),
            None => env.get("WEBHOOK_URL"),
        };
        let url: String = match found {
            Some(url) => url,
            None => {
                return Err(Stop::Failed(ConfigError::NoWebhookUrl));
            },
        };
        match Self::load_ssm_param_optional(env, params, "WEBHOOK_AUTH_HEADER_SSM_PARAM") {
            Ok(auth_header) => Ok(Some(WebhookConfig { url, auth_header })),
            Err(stop) => Err(stop),
        }
    }

    fn load_sns_config(env: &Env, channels: &Vec<String>) -> (r: Result<Option<SnsConfig>, Stop>)
        ensures
            match r {
                Ok(c) => sns_setting(*env, channels.deep_view()) == Ok::<
                    Option<SnsView>,
                    StopView,
                >(c.deep_view()),
                Err(stop) => sns_setting(*env, channels.deep_view()) == Err::<
                    Option<SnsView>,
                    StopView,
                >(stop.deep_view()),
            },
    {
        if !lists(channels, "sns") {
            return Ok(None);
        }
        match Self::load_var(env, "SNS_TOPIC_ARN") {
            Ok(topic_arn) => Ok(Some(SnsConfig { topic_arn })),
            Err(stop) => Err(stop),
        }
    }

    fn validate(&self) -> (r: Result<(), ConfigError>)
        ensures
            match r {
                Ok(_) => self.deep_view().flaw() is None,
                Err(error) => self.deep_view().flaw() == Some(error.deep_view()),
            },
    {
        let ghost all = self.notify_channels.deep_view();
        let mut i: usize = 0;
        assert(all.skip(0) =~= all);
        while i < self.notify_channels.len()
            invariant
                i <= self.notify_channels@.len(),
                all == self.notify_channels.deep_view(),
                unknown_channel(all) == unknown_channel(all.skip(i as int)),
            decreases self.notify_channels@.len() - i,
        {
            assert(all.skip(i as int)[0] == self.notify_channels@[i as int]@);
            assert(all.skip(i as int).drop_first() =~= all.skip(i + 1));
            if !is_known(&self.notify_channels[i]) {
                return Err(
                    ConfigError::UnknownChannel { name: self.notify_channels[i].clone() },
                );
            }
            i = i + 1;
        }
        if self.history_days == 0 {
            return Err(ConfigError::NoHistoryDays);
        }
        if self.spike_threshold_pct.is_at_most(zero()) {
            return Err(ConfigError::ThresholdNotPositive { number: self.spike_threshold_pct });
        }
        if self.min_avg_daily_usd.is_below(zero()) {
            return Err(ConfigError::NegativeMinimum { number: self.min_avg_daily_usd });
        }
        if self.dedup_cooldown_hours == 0 {
            return Err(ConfigError::NoCooldown);
        }
        Ok(())
    }

    fn assemble(env: &Env, params: &Vec<Parameter>, account: Account) -> (r: Result<Config, Stop>)
        ensures
            match r {
                Ok(cfg) => configured(*env, params@, account.deep_view()) == Ok::<
                    ConfigView,
                    StopView,
                >(cfg.deep_view()) && cfg.deep_view().well_formed(),
                Err(stop) => configured(*env, params@, account.deep_view()) == Err::<
                    ConfigView,
                    StopView,
                >(stop.deep_view()),
            },
    {
        let history_days: u32 = match Self::parse_env_u32(env, "HISTORY_DAYS", 7) {
            Ok(n) => n,
            Err(stop) => {
                return Err(stop);
            },
        };
        let min_avg_daily_usd: Amount = match Self::parse_env_number(
            env,
            "MIN_AVG_DAILY_USD",
            ten_cents(),
        ) {
            Ok(amount) => amount,
            Err(stop) => {
                return Err(stop);
            },
        };
        let dedup_cooldown_hours: u32 = match Self::parse_env_u32(env, "DEDUP_COOLDOWN_HOURS", 6) {
            Ok(n) => n,
            Err(stop) => {
                return Err(stop);
            },
        };
        let max_spike_display: usize = match Self::parse_env_usize(env, "MAX_SPIKE_DISPLAY", 5) {
            Ok(n) => n,
            Err(stop) => {
                return Err(stop);
            },
        };
        let max_digest_display: usize = match Self::parse_env_usize(
            env,
            "MAX_DIGEST_DISPLAY",
            10,
        ) {
            Ok(n) => n,
            Err(stop) => {
                return Err(stop);
            },
        };
        let http_timeout_secs: u64 = match Self::parse_http_timeout(env) {
            Ok(n) => n,
            Err(stop) => {
                return Err(stop);
            },
        };
        let http_connect_timeout_secs: u64 = match Self::parse_http_connect_timeout(env) {
            Ok(n) => n,
            Err(stop) => {
                return Err(stop);
            },
        };
        let telegram: Option<TelegramConfig> = match Self::load_telegram_config(
            env,
            params,
            &account.channels,
            &account.chat_id,
        ) {
            Ok(c) => c,
            Err(stop) => {
                return Err(stop);
            },
        };
        let slack: Option<SlackConfig> = match Self::load_slack_config(
            env,
            params,
            &account.channels,
        ) {
            Ok(c) => c,
            Err(stop) => {
                return Err(stop);
            },
        };
        let teams: Option<TeamsConfig> = match Self::load_teams_config(
            env,
            params,
            &account.channels,
        ) {
            Ok(c) => c,
            Err(stop) => {
                return Err(stop);
            },
        };
        let pagerduty: Option<PagerDutyConfig> = match Self::load_pagerduty_config(
            env,
            params,
            &account.channels,
        ) {
            Ok(c) => c,
            Err(stop) => {
                return Err(stop);
            },
        };
        let ses: Option<SesConfig> = match Self::load_ses_config(env, &account.channels) {
            Ok(c) => c,
            Err(stop) => {
                return Err(stop);
            },
        };
        let webhook: Option<WebhookConfig> = match Self::load_webhook_config(
            env,
            params,
            &account.channels,
        ) {
            Ok(c) => c,
            Err(stop) => {
                return Err(stop);
            },
        };
        let sns: Option<SnsConfig> = match Self::load_sns_config(env, &account.channels) {
            Ok(c) => c,
            Err(stop) => {
                return Err(stop);
            },
        };
        let ghost view = account.deep_view();
        let cfg: Config = Config {
            setup_name: SETUP_NAME.to_string(),
            spike_threshold_pct: account.spike_threshold_pct,
            cross_account_role_arn: account.role_arn,
            external_id: account.external_id,
            account_namespace: account.namespace,
            history_days,
            min_avg_daily_usd,
            dedup_cooldown_hours,
            max_spike_display,
            max_digest_display,
            http_timeout_secs,
            http_connect_timeout_secs,
            notify_channels: account.channels,
            telegram,
            slack,
            teams,
            pagerduty,
            ses,
            webhook,
            sns,
        };
        assert(cfg.deep_view() == composed(*env, params@, view));
        match cfg.validate() {
            Ok(_) => {
                proof {
                    lemma_configured_is_well_formed(*env, params@, view);
                }
                Ok(cfg)
            },
            Err(error) => Err(Stop::Failed(error)),
        }
    }

    /// The configuration of an account that watches itself. It has the
    /// threshold from the environment, and its own namespace.
    pub fn load(env: &Env, params: &Vec<Parameter>) -> (r: Result<Config, Stop>)
        ensures
            match r {
                Ok(cfg) => threshold_setting(*env) is Ok && configured(
                    *env,
                    params@,
                    own_account(*env),
                ) == Ok::<ConfigView, StopView>(cfg.deep_view()) && cfg.deep_view().well_formed(),
                Err(stop) => match threshold_setting(*env) {
                    Err(first) => stop.deep_view() == first,
                    Ok(_) => configured(*env, params@, own_account(*env)) == Err::<
                        ConfigView,
                        StopView,
                    >(stop.deep_view()),
                },
            },
    {
        let spike_threshold_pct: Amount = match Self::parse_threshold(env) {
            Ok(amount) => amount,
            Err(stop) => {
                return Err(stop);
            },
        };
        let account: Account = Account {
            spike_threshold_pct,
            role_arn: env.get("CROSS_ACCOUNT_ROLE_ARN"),
            external_id: env.get("EXTERNAL_ID"),
            namespace: OWN_NAMESPACE.to_string(),
            channels: Self::parse_notify_channels(env),
            chat_id: None,
        };
        assert(account.deep_view() == own_account(*env));
        Self::assemble(env, params, account)
    }

    /// The configuration of an account among several. It has the threshold,
    /// the role and the namespace of the account, and the account's channels
    /// where it has any of its own.
    pub fn from_account_context(
        ctx: &AccountContext,
        env: &Env,
        params: &Vec<Parameter>,
    ) -> (r: Result<Config, Stop>)
        ensures
            match r {
                Ok(cfg) => configured(*env, params@, given_account(*env, *ctx)) == Ok::<
                    ConfigView,
                    StopView,
                >(cfg.deep_view()) && cfg.deep_view().well_formed(),
                Err(stop) => configured(*env, params@, given_account(*env, *ctx)) == Err::<
                    ConfigView,
                    StopView,
                >(stop.deep_view()),
            },
    {
        let channels: Vec<String> = match &ctx.notify_channels {
            Some(list) => split_list(list.as_str()),
            None => Self::parse_notify_channels(env),
        };
        let chat_id: Option<String> = match &ctx.telegram_chat_id {
            Some(chat) => Some(chat.clone()),
            None => None,
        };
        let account: Account = Account {
            spike_threshold_pct: ctx.spike_threshold,
            role_arn: Some(ctx.role_arn.clone()),
            external_id: Some(ctx.external_id.clone()),
            namespace: ctx.aws_account_id.clone(),
            channels,
            chat_id,
        };
        assert(account.deep_view() == given_account(*env, *ctx));
        Self::assemble(env, params, account)
    }
}

// ---- what holds of configurations --------------------------------------

proof fn lemma_known_channels(channels: Seq<Seq<char>>)
    requires
        unknown_channel(channels) is None,
    ensures
        forall|i: int| 0 <= i < channels.len() ==> known_channel(#[trigger] channels[i]),
    decreases channels.len(),
{
    if channels.len() > 0 {
        let rest = channels.drop_first();
        lemma_known_channels(rest);
        assert forall|i: int| 0 <= i < channels.len() implies known_channel(
            #[trigger] channels[i],
        ) by {
            if i > 0 {
                assert(channels[i] == rest[i - 1]);
            }
        }
    }
}

/// A configuration that can be loaded is well-formed.
pub proof fn lemma_configured_is_well_formed(
    env: Env,
    params: Seq<Parameter>,
    account: AccountView,
)
    ensures
        configured(env, params, account) matches Ok(cfg) ==> cfg.well_formed(),
{
    if configured(env, params, account) is Ok {
        lemma_known_channels(account.channels);
    }
}

/// An environment in which none of these is set has their defaults.
pub proof fn lemma_defaults(env: Env, params: Seq<Parameter>, account: AccountView)
    requires
        env.value("HISTORY_DAYS"@) is None,
        env.value("MIN_AVG_DAILY_USD"@) is None,
        env.value("DEDUP_COOLDOWN_HOURS"@) is None,
        env.value("MAX_SPIKE_DISPLAY"@) is None,
        env.value("MAX_DIGEST_DISPLAY"@) is None,
        env.value("HTTP_TIMEOUT_SECS"@) is None,
        env.value("TELEGRAM_TIMEOUT_SECS"@) is None,
        env.value("HTTP_CONNECT_TIMEOUT_SECS"@) is None,
        env.value("TELEGRAM_CONNECT_TIMEOUT_SECS"@) is None,
    ensures
        numbers_stop(env) is None,
        ({
            let cfg = composed(env, params, account);
            &&& cfg.history_days == 7
            &&& cfg.min_avg_daily_usd == ten_cents()
            &&& cfg.dedup_cooldown_hours == 6
            &&& cfg.max_spike_display == 5
            &&& cfg.max_digest_display == 10
            &&& cfg.http_timeout_secs == 10
            &&& cfg.http_connect_timeout_secs == 5
        }),
{
}

proof fn lemma_outcome_added(params: Seq<Parameter>, more: Parameter, env_key: Seq<char>)
    ensures
        outcome(params.push(more), env_key) == (match outcome(params, env_key) {
            Some(found) => Some(found),
            None => if more.env_key@ == env_key {
                Some(more.fetched.deep_view())
            } else {
                None
            },
        }),
    decreases params.len(),
{
    let all = params.push(more);
    if params.len() == 0 {
        assert(all.drop_first() =~= Seq::<Parameter>::empty());
        assert(outcome(all.drop_first(), env_key) is None);
    } else {
        lemma_outcome_added(params.drop_first(), more, env_key);
        assert(all.drop_first() =~= params.drop_first().push(more));
    }
}

/// A parameter is asked for once: when loading goes on with what came of
/// fetching it, whatever that is, it does not stop for the same one again.
pub proof fn lemma_fetched_once(
    env: Env,
    params: Seq<Parameter>,
    account: AccountView,
    fetched: Parameter,
)
    requires
        configured(env, params, account) matches Err(StopView::Fetch { env_key, param })
            && env_key == fetched.env_key@,
    ensures
        configured(env, params.push(fetched), account) matches Err(StopView::Fetch { env_key, param })
            ==> env_key != fetched.env_key@,
{
    lemma_stops_for_what_is_not_there(env, params.push(fetched), account);
    lemma_outcome_added(params, fetched, fetched.env_key@);
}

/// Loading stops only for a parameter that was not fetched yet, and asks for
/// the one that the environment names.
pub proof fn lemma_stops_for_what_is_not_there(
    env: Env,
    params: Seq<Parameter>,
    account: AccountView,
)
    ensures
        configured(env, params, account) matches Err(StopView::Fetch { env_key, param })
            ==> outcome(params, env_key) is None && env.value(env_key) == Some(param),
{
}

/// Parameters are fetched for listed channels only, each for its own.
pub proof fn lemma_asks_for_listed_channels(
    env: Env,
    params: Seq<Parameter>,
    account: AccountView,
)
    ensures
        configured(env, params, account) matches Err(StopView::Fetch { env_key, .. }) ==> {
            let channels = account.channels;
            ||| env_key == "TELEGRAM_BOT_TOKEN_SSM_PARAM"@ && channels.contains("telegram"@)
            ||| env_key == "SLACK_WEBHOOK_URL_SSM_PARAM"@ && channels.contains("slack"@)
            ||| env_key == "TEAMS_WEBHOOK_URL_SSM_PARAM"@ && channels.contains("teams"@)
            ||| env_key == "PAGERDUTY_ROUTING_KEY_SSM_PARAM"@ && channels.contains("pagerduty"@)
            ||| env_key == "WEBHOOK_URL_SSM_PARAM"@ && channels.contains("webhook"@)
            ||| env_key == "WEBHOOK_AUTH_HEADER_SSM_PARAM"@ && channels.contains("webhook"@)
        },
{
}

/// Every number of a configuration is the one that its variable holds, or the
/// default where the variable is not set.
pub proof fn lemma_numbers_come_from_their_variables(
    env: Env,
    params: Seq<Parameter>,
    account: AccountView,
)
    ensures
        configured(env, params, account) matches Ok(cfg) ==> {
            &&& match env.value("HISTORY_DAYS"@) {
                Some(value) => read_natural(value, u32::MAX as nat) == Some(cfg.history_days),
                None => cfg.history_days == 7,
            }
            &&& match env.value("DEDUP_COOLDOWN_HOURS"@) {
                Some(value) => read_natural(value, u32::MAX as nat) == Some(cfg.dedup_cooldown_hours),
                None => cfg.dedup_cooldown_hours == 6,
            }
            &&& match env.value("MAX_SPIKE_DISPLAY"@) {
                Some(value) => read_natural(value, usize::MAX as nat) == Some(cfg.max_spike_display),
                None => cfg.max_spike_display == 5,
            }
            &&& match env.value("MAX_DIGEST_DISPLAY"@) {
                Some(value) => read_natural(value, usize::MAX as nat) == Some(cfg.max_digest_display),
                None => cfg.max_digest_display == 10,
            }
            &&& match env.value("MIN_AVG_DAILY_USD"@) {
                Some(value) => read_number(value) == Some(cfg.min_avg_daily_usd),
                None => cfg.min_avg_daily_usd == ten_cents(),
            }
        },
{
}

/// The timeouts are those that their variables give, where they give more than
/// zero. Else they are those that the older variables give, or the defaults
/// where those give none.
pub proof fn lemma_timeouts_come_from_their_variables(
    env: Env,
    params: Seq<Parameter>,
    account: AccountView,
)
    ensures
        configured(env, params, account) matches Ok(cfg) ==> {
            &&& match env.value("HTTP_TIMEOUT_SECS"@) {
                Some(value) => read_natural(value, u64::MAX as nat) is Some,
                None => true,
            }
            &&& ({
                let own = match env.value("HTTP_TIMEOUT_SECS"@) {
                    Some(value) => read_natural(value, u64::MAX as nat),
                    None => None,
                };
                let older = match env.value("TELEGRAM_TIMEOUT_SECS"@) {
                    Some(value) => read_natural(value, u64::MAX as nat),
                    None => None,
                };
                match (own, older) {
                    (Some(n), Some(m)) => cfg.http_timeout_secs == if n > 0 {
                        n
                    } else {
                        m
                    },
                    (Some(n), None) => cfg.http_timeout_secs == if n > 0 {
                        n
                    } else {
                        10
                    },
                    (None, Some(m)) => cfg.http_timeout_secs == m,
                    (None, None) => cfg.http_timeout_secs == 10,
                }
            })
            &&& match env.value("HTTP_CONNECT_TIMEOUT_SECS"@) {
                Some(value) => read_natural(value, u64::MAX as nat) is Some,
                None => true,
            }
            &&& ({
                let own = match env.value("HTTP_CONNECT_TIMEOUT_SECS"@) {
                    Some(value) => read_natural(value, u64::MAX as nat),
                    None => None,
                };
                let older = match env.value("TELEGRAM_CONNECT_TIMEOUT_SECS"@) {
                    Some(value) => read_natural(value, u64::MAX as nat),
                    None => None,
                };
                match (own, older) {
                    (Some(n), Some(m)) => cfg.http_connect_timeout_secs == if n > 0 {
                        n
                    } else {
                        m
                    },
                    (Some(n), None) => cfg.http_connect_timeout_secs == if n > 0 {
                        n
                    } else {
                        5
                    },
                    (None, Some(m)) => cfg.http_connect_timeout_secs == m,
                    (None, None) => cfg.http_connect_timeout_secs == 5,
                }
            })
        },
{
}

/// What sets an account apart is taken over as it is.
pub proof fn lemma_account_is_taken_over(env: Env, params: Seq<Parameter>, account: AccountView)
    ensures
        configured(env, params, account) matches Ok(cfg) ==> {
            &&& cfg.setup_name == "StackAlert"@
            &&& cfg.spike_threshold_pct == account.spike_threshold_pct
            &&& cfg.cross_account_role_arn == account.role_arn
            &&& cfg.external_id == account.external_id
            &&& cfg.account_namespace == account.namespace
            &&& cfg.notify_channels == account.channels
        },
{
}

/// Telegram writes to the chat of the account, where it has one, whatever the
/// environment says, and to that of the environment only where it has none.
/// Either must not be empty: an empty one of the account is not made up for by
/// the environment. The token is what was fetched.
pub proof fn lemma_chat_of_the_account_comes_first(
    env: Env,
    params: Seq<Parameter>,
    account: AccountView,
)
    ensures
        configured(env, params, account) matches Ok(cfg) ==> (cfg.telegram is Some
            <==> account.channels.contains("telegram"@)),
        configured(env, params, account) matches Ok(cfg) ==> (cfg.telegram matches Some(telegram)
            ==> {
            &&& account.chat_id matches Some(chat) ==> telegram.chat_id == chat
            &&& account.chat_id is None ==> env.value("TELEGRAM_CHAT_ID"@) == Some(
                telegram.chat_id,
            )
            &&& telegram.chat_id.len() > 0
            &&& env.value("TELEGRAM_BOT_TOKEN_SSM_PARAM"@) is Some
            &&& outcome(params, "TELEGRAM_BOT_TOKEN_SSM_PARAM"@) == Some(
                FetchedView::Value(telegram.bot_token),
            )
        }),
        account.channels.contains("telegram"@) && (account.chat_id matches Some(chat) && chat.len()
            == 0) ==> configured(env, params, account) is Err,
{
}

/// With a chat of its own, an account is configured alike whatever chat the
/// environment names.
pub proof fn lemma_chat_of_the_environment_makes_no_difference(
    env: Env,
    other: Env,
    params: Seq<Parameter>,
    account: AccountView,
)
    requires
        account.chat_id is Some,
        forall|name: Seq<char>|
            name != "TELEGRAM_CHAT_ID"@ ==> env.value(name) == #[trigger] other.value(name),
    ensures
        configured(env, params, account) == configured(other, params, account),
{
    reveal_strlit("TELEGRAM_CHAT_ID");
    reveal_strlit("HISTORY_DAYS");
    reveal_strlit("MIN_AVG_DAILY_USD");
    reveal_strlit("DEDUP_COOLDOWN_HOURS");
    reveal_strlit("MAX_SPIKE_DISPLAY");
    reveal_strlit("MAX_DIGEST_DISPLAY");
    reveal_strlit("HTTP_TIMEOUT_SECS");
    reveal_strlit("TELEGRAM_TIMEOUT_SECS");
    reveal_strlit("HTTP_CONNECT_TIMEOUT_SECS");
    reveal_strlit("TELEGRAM_CONNECT_TIMEOUT_SECS");
    reveal_strlit("TELEGRAM_BOT_TOKEN_SSM_PARAM");
    reveal_strlit("SLACK_WEBHOOK_URL_SSM_PARAM");
    reveal_strlit("TEAMS_WEBHOOK_URL_SSM_PARAM");
    reveal_strlit("PAGERDUTY_ROUTING_KEY_SSM_PARAM");
    reveal_strlit("PAGERDUTY_SEVERITY");
    reveal_strlit("SES_FROM_ADDRESS");
    reveal_strlit("SES_TO_ADDRESSES");
    reveal_strlit("WEBHOOK_URL_SSM_PARAM");
    reveal_strlit("WEBHOOK_URL");
    reveal_strlit("WEBHOOK_AUTH_HEADER_SSM_PARAM");
    reveal_strlit("SNS_TOPIC_ARN");
    // The names are told apart by their lengths, or by their first character.
    assert("TELEGRAM_CHAT_ID"@[0] != "SES_FROM_ADDRESS"@[0]);
    assert("TELEGRAM_CHAT_ID"@[0] != "SES_TO_ADDRESSES"@[0]);
    assert("TELEGRAM_CHAT_ID"@.len() == 16);
    assert("TELEGRAM_BOT_TOKEN_SSM_PARAM"@.len() == 28);
    assert("TEAMS_WEBHOOK_URL_SSM_PARAM"@.len() == 27);
    assert(env.value("TELEGRAM_BOT_TOKEN_SSM_PARAM"@) == other.value(
        "TELEGRAM_BOT_TOKEN_SSM_PARAM"@,
    ));
    assert(env.value("SLACK_WEBHOOK_URL_SSM_PARAM"@) == other.value(
        "SLACK_WEBHOOK_URL_SSM_PARAM"@,
    ));
    assert(env.value("TEAMS_WEBHOOK_URL_SSM_PARAM"@) == other.value(
        "TEAMS_WEBHOOK_URL_SSM_PARAM"@,
    ));
    assert(env.value("PAGERDUTY_ROUTING_KEY_SSM_PARAM"@) == other.value(
        "PAGERDUTY_ROUTING_KEY_SSM_PARAM"@,
    ));
    assert(env.value("PAGERDUTY_SEVERITY"@) == other.value("PAGERDUTY_SEVERITY"@));
    assert(env.value("SES_FROM_ADDRESS"@) == other.value("SES_FROM_ADDRESS"@));
    assert(env.value("SES_TO_ADDRESSES"@) == other.value("SES_TO_ADDRESSES"@));
    assert(env.value("WEBHOOK_URL_SSM_PARAM"@) == other.value("WEBHOOK_URL_SSM_PARAM"@));
    assert(env.value("WEBHOOK_URL"@) == other.value("WEBHOOK_URL"@));
    assert(env.value("WEBHOOK_AUTH_HEADER_SSM_PARAM"@) == other.value(
        "WEBHOOK_AUTH_HEADER_SSM_PARAM"@,
    ));
    assert(env.value("SNS_TOPIC_ARN"@) == other.value("SNS_TOPIC_ARN"@));
    assert(numbers_stop(env) == numbers_stop(other));
    assert(channels_stop(env, params, account) == channels_stop(other, params, account));
    assert(composed(env, params, account) == composed(other, params, account));
}

/// The other channels have their settings from their own variables, and secrets
/// are what was fetched for them. The address of a webhook is the parameter,
/// where there is one with a value, and else that of the environment.
pub proof fn lemma_channels_have_their_settings(
    env: Env,
    params: Seq<Parameter>,
    account: AccountView,
)
    ensures
        configured(env, params, account) matches Ok(cfg) ==> {
            let channels = account.channels;
            &&& cfg.slack is Some <==> channels.contains("slack"@)
            &&& cfg.teams is Some <==> channels.contains("teams"@)
            &&& cfg.pagerduty is Some <==> channels.contains("pagerduty"@)
            &&& cfg.ses is Some <==> channels.contains("ses"@)
            &&& cfg.webhook is Some <==> channels.contains("webhook"@)
            &&& cfg.sns is Some <==> channels.contains("sns"@)
        },
        configured(env, params, account) matches Ok(cfg) ==> (cfg.slack matches Some(slack)
            ==> outcome(params, "SLACK_WEBHOOK_URL_SSM_PARAM"@) == Some(
            FetchedView::Value(slack.webhook_url),
        )),
        configured(env, params, account) matches Ok(cfg) ==> (cfg.teams matches Some(teams)
            ==> outcome(params, "TEAMS_WEBHOOK_URL_SSM_PARAM"@) == Some(
            FetchedView::Value(teams.webhook_url),
        )),
        configured(env, params, account) matches Ok(cfg) ==> (cfg.pagerduty matches Some(pagerduty)
            ==> {
            &&& outcome(params, "PAGERDUTY_ROUTING_KEY_SSM_PARAM"@) == Some(
                FetchedView::Value(pagerduty.routing_key),
            )
            &&& env.value("PAGERDUTY_SEVERITY"@) is None ==> pagerduty.severity == "error"@
            &&& env.value("PAGERDUTY_SEVERITY"@) is Some ==> env.value("PAGERDUTY_SEVERITY"@)
                == Some(pagerduty.severity)
        }),
        configured(env, params, account) matches Ok(cfg) ==> (cfg.ses matches Some(ses) ==> {
            &&& env.value("SES_FROM_ADDRESS"@) == Some(ses.from_address)
            &&& env.value("SES_TO_ADDRESSES"@) matches Some(list) && ses.to_addresses
                == list_items(list)
            &&& ses.to_addresses.len() > 0
        }),
        configured(env, params, account) matches Ok(cfg) ==> (cfg.webhook matches Some(webhook)
            ==> {
            let fetched = match env.value("WEBHOOK_URL_SSM_PARAM"@) {
                Some(_) => outcome(params, "WEBHOOK_URL_SSM_PARAM"@),
                None => None,
            };
            let header = match env.value("WEBHOOK_AUTH_HEADER_SSM_PARAM"@) {
                Some(_) => outcome(params, "WEBHOOK_AUTH_HEADER_SSM_PARAM"@),
                None => None,
            };
            &&& match fetched {
                Some(FetchedView::Value(url)) => webhook.url == url,
                _ => env.value("WEBHOOK_URL"@) == Some(webhook.url),
            }
            &&& match header {
                Some(FetchedView::Value(value)) => webhook.auth_header == Some(value),
                _ => webhook.auth_header is None,
            }
        }),
        configured(env, params, account) matches Ok(cfg) ==> (cfg.sns matches Some(sns)
            ==> env.value("SNS_TOPIC_ARN"@) == Some(sns.topic_arn)),
{
}

/// Where nothing is wrong, a configuration is loaded: the numbers can be read
/// and are in range, the channels are known, and each that is listed has what it
/// needs.
pub proof fn lemma_loads_where_nothing_is_wrong(
    env: Env,
    params: Seq<Parameter>,
    account: AccountView,
)
    requires
        match env.value("HISTORY_DAYS"@) {
            Some(value) => read_natural(value, u32::MAX as nat) matches Some(n) && n > 0,
            None => true,
        },
        match env.value("DEDUP_COOLDOWN_HOURS"@) {
            Some(value) => read_natural(value, u32::MAX as nat) matches Some(n) && n > 0,
            None => true,
        },
        match env.value("MAX_SPIKE_DISPLAY"@) {
            Some(value) => read_natural(value, usize::MAX as nat) is Some,
            None => true,
        },
        match env.value("MAX_DIGEST_DISPLAY"@) {
            Some(value) => read_natural(value, usize::MAX as nat) is Some,
            None => true,
        },
        match env.value("HTTP_TIMEOUT_SECS"@) {
            Some(value) => read_natural(value, u64::MAX as nat) is Some,
            None => true,
        },
        match env.value("HTTP_CONNECT_TIMEOUT_SECS"@) {
            Some(value) => read_natural(value, u64::MAX as nat) is Some,
            None => true,
        },
        match env.value("MIN_AVG_DAILY_USD"@) {
            Some(value) => read_number(value) matches Some(amount) && !amount.below(zero()),
            None => true,
        },
        !account.spike_threshold_pct.at_most(zero()),
        forall|i: int|
            0 <= i < account.channels.len() ==> {
                let name = #[trigger] account.channels[i];
                name == "telegram"@ || name == "slack"@ || name == "teams"@ || name
                    == "pagerduty"@ || name == "webhook"@ || name == "ses"@ || name == "sns"@
            },
        account.channels.contains("telegram"@) ==> {
            &&& env.value("TELEGRAM_BOT_TOKEN_SSM_PARAM"@) is Some
            &&& outcome(params, "TELEGRAM_BOT_TOKEN_SSM_PARAM"@) matches Some(FetchedView::Value(_))
            &&& match account.chat_id {
                Some(chat) => chat.len() > 0,
                None => env.value("TELEGRAM_CHAT_ID"@) matches Some(chat) && chat.len() > 0,
            }
        },
        account.channels.contains("slack"@) ==> {
            &&& env.value("SLACK_WEBHOOK_URL_SSM_PARAM"@) is Some
            &&& outcome(params, "SLACK_WEBHOOK_URL_SSM_PARAM"@) matches Some(FetchedView::Value(_))
        },
        account.channels.contains("teams"@) ==> {
            &&& env.value("TEAMS_WEBHOOK_URL_SSM_PARAM"@) is Some
            &&& outcome(params, "TEAMS_WEBHOOK_URL_SSM_PARAM"@) matches Some(FetchedView::Value(_))
        },
        account.channels.contains("pagerduty"@) ==> {
            &&& env.value("PAGERDUTY_ROUTING_KEY_SSM_PARAM"@) is Some
            &&& outcome(params, "PAGERDUTY_ROUTING_KEY_SSM_PARAM"@) matches Some(
                FetchedView::Value(_),
            )
        },
        account.channels.contains("ses"@) ==> {
            &&& env.value("SES_FROM_ADDRESS"@) is Some
            &&& env.value("SES_TO_ADDRESSES"@) matches Some(list) && list_items(list).len() > 0
        },
        account.channels.contains("webhook"@) ==> {
            let url = match env.value("WEBHOOK_URL_SSM_PARAM"@) {
                Some(_) => outcome(params, "WEBHOOK_URL_SSM_PARAM"@),
                None => Some(FetchedView::NoValue),
            };
            let header = match env.value("WEBHOOK_AUTH_HEADER_SSM_PARAM"@) {
                Some(_) => outcome(params, "WEBHOOK_AUTH_HEADER_SSM_PARAM"@),
                None => Some(FetchedView::NoValue),
            };
            &&& match url {
                Some(FetchedView::Value(_)) => true,
                Some(FetchedView::NoValue) => env.value("WEBHOOK_URL"@) is Some,
                _ => false,
            }
            &&& match header {
                Some(FetchedView::Value(_)) => true,
                Some(FetchedView::NoValue) => true,
                _ => false,
            }
        },
        account.channels.contains("sns"@) ==> env.value("SNS_TOPIC_ARN"@) is Some,
    ensures
        configured(env, params, account) is Ok,
{
    lemma_no_unknown_channel(account.channels);
}

proof fn lemma_no_unknown_channel(channels: Seq<Seq<char>>)
    requires
        forall|i: int| 0 <= i < channels.len() ==> known_channel(#[trigger] channels[i]),
    ensures
        unknown_channel(channels) is None,
    decreases channels.len(),
{
    if channels.len() > 0 {
        let rest = channels.drop_first();
        assert(known_channel(channels[0]));
        assert forall|i: int| 0 <= i < rest.len() implies known_channel(#[trigger] rest[i]) by {
            assert(rest[i] == channels[i + 1]);
        }
        lemma_no_unknown_channel(rest);
    }
}

proof fn lemma_unknown_is_listed(channels: Seq<Seq<char>>)
    ensures
        unknown_channel(channels) matches Some(name) ==> channels.contains(name) && !known_channel(
            name,
        ),
    decreases channels.len(),
{
    if channels.len() > 0 {
        let rest = channels.drop_first();
        lemma_unknown_is_listed(rest);
        assert(channels.contains(channels[0]));
        if let Some(name) = unknown_channel(rest) {
            let k = choose|k: int| 0 <= k < rest.len() && rest[k] == name;
            assert(channels[k + 1] == name);
        }
    }
}

/// What is said to be wrong is wrong.
pub proof fn lemma_errors_are_true(env: Env, params: Seq<Parameter>, account: AccountView)
    ensures
        configured(env, params, account) matches Err(StopView::Failed(error)) ==> match error {
            ErrorView::BadThreshold => false,
            ErrorView::NotAnInteger { key, value } => env.value(key) == Some(value)
                && read_natural(value, u32::MAX as nat) is None,
            ErrorView::NotANumber { key, value } => env.value(key) == Some(value) && key
                == "MIN_AVG_DAILY_USD"@ && read_number(value) is None,
            ErrorView::NotSet { key } => env.value(key) is None,
            ErrorView::FetchFailed { param } => exists|key: Seq<char>| #[trigger]
                env.value(key) == Some(param) && outcome(params, key) == Some(FetchedView::Failed),
            ErrorView::NoValue => exists|key: Seq<char>| #[trigger]
                outcome(params, key) == Some(FetchedView::NoValue) && env.value(key) is Some,
            ErrorView::NoChat => account.channels.contains("telegram"@) && match account.chat_id {
                Some(chat) => chat.len() == 0,
                None => env.value("TELEGRAM_CHAT_ID"@) matches Some(chat) ==> chat.len() == 0,
            },
            ErrorView::NoAddresses => account.channels.contains("ses"@) && (env.value(
                "SES_TO_ADDRESSES"@,
            ) matches Some(list) && list_items(list).len() == 0),
            ErrorView::NoWebhookUrl => account.channels.contains("webhook"@) && env.value(
                "WEBHOOK_URL"@,
            ) is None,
            ErrorView::UnknownChannel { name } => account.channels.contains(name) && name
                != "telegram"@ && name != "slack"@ && name != "teams"@ && name != "pagerduty"@
                && name != "webhook"@ && name != "ses"@ && name != "sns"@,
            ErrorView::NoHistoryDays => env.value("HISTORY_DAYS"@) matches Some(value)
                && read_natural(value, u32::MAX as nat) == Some(0nat),
            ErrorView::ThresholdNotPositive { number } => number == account.spike_threshold_pct
                && number.at_most(zero()),
            ErrorView::NegativeMinimum { number } => env.value("MIN_AVG_DAILY_USD"@) matches Some(
                value,
            ) && read_number(value) == Some(number) && number.below(zero()),
            ErrorView::NoCooldown => env.value("DEDUP_COOLDOWN_HOURS"@) matches Some(value)
                && read_natural(value, u32::MAX as nat) == Some(0nat),
        },
{
    lemma_unknown_is_listed(account.channels);
    lemma_smaller_numbers_fit();
}

proof fn lemma_smaller_numbers_fit()
    ensures
        forall|s: Seq<char>, max: nat|
            max >= u32::MAX && (#[trigger] read_natural(s, max)) is None ==> read_natural(
                s,
                u32::MAX as nat,
            ) is None,
{
}

/// An account that watches itself has its threshold, its role and its channels
/// from the environment, and no chat of its own.
pub proof fn lemma_own_account(env: Env)
    requires
        threshold_setting(env) is Ok,
    ensures
        ({
            let account = own_account(env);
            let written = match env.value("SPIKE_THRESHOLD_PCT"@) {
                Some(value) => value,
                None => "50"@,
            };
            &&& read_number(written) == Some(account.spike_threshold_pct)
            &&& account.role_arn == env.value("CROSS_ACCOUNT_ROLE_ARN"@)
            &&& account.external_id == env.value("EXTERNAL_ID"@)
            &&& account.namespace == "self"@
            &&& env.value("NOTIFY_CHANNELS"@) matches Some(list) ==> account.channels
                == list_items(list)
            &&& env.value("NOTIFY_CHANNELS"@) is None ==> account.channels == seq!["telegram"@]
            &&& account.chat_id is None
        }),
{
}

/// The threshold of the environment is refused only where it is not a number.
pub proof fn lemma_threshold(env: Env)
    ensures
        threshold_setting(env) is Err <==> (match env.value("SPIKE_THRESHOLD_PCT"@) {
            Some(value) => read_number(value) is None,
            None => read_number("50"@) is None,
        }),
        threshold_setting(env) matches Err(stop) ==> stop == StopView::Failed(
            ErrorView::BadThreshold,
        ),
{
}

/// An account among several has its own threshold, role, external ID, namespace
/// and chat, and its own channels where it lists any.
pub proof fn lemma_given_account(env: Env, ctx: AccountContext)
    ensures
        ({
            let account = given_account(env, ctx);
            &&& account.spike_threshold_pct == ctx.spike_threshold
            &&& account.role_arn == Some(ctx.role_arn@)
            &&& account.external_id == Some(ctx.external_id@)
            &&& account.namespace == ctx.aws_account_id@
            &&& ctx.telegram_chat_id matches Some(chat) ==> account.chat_id == Some(chat@)
            &&& ctx.telegram_chat_id is None ==> account.chat_id is None
            &&& ctx.notify_channels matches Some(list) ==> account.channels == list_items(list@)
            &&& ctx.notify_channels is None ==> (env.value("NOTIFY_CHANNELS"@) matches Some(list)
                ==> account.channels == list_items(list))
            &&& ctx.notify_channels is None && env.value("NOTIFY_CHANNELS"@) is None
                ==> account.channels == seq!["telegram"@]
        }),
{
}

/// A variable holds what the first entry of its name says, and nothing where
/// there is none.
pub proof fn lemma_first_entry_counts(vars: Seq<EnvVar>, name: Seq<char>, i: int)
    ensures
        0 <= i < vars.len() && vars[i].name@ == name && (forall|k: int|
            0 <= k < i ==> (#[trigger] vars[k]).name@ != name) ==> look_up(vars, name) == Some(
            vars[i].value@,
        ),
        (forall|k: int| 0 <= k < vars.len() ==> (#[trigger] vars[k]).name@ != name) ==> look_up(
            vars,
            name,
        ) is None,
    decreases vars.len(),
{
    if vars.len() > 0 {
        let rest = vars.drop_first();
        lemma_first_entry_counts(rest, name, i - 1);
        if vars[0].name@ != name {
            if 0 <= i < vars.len() && vars[i].name@ == name && (forall|k: int|
                0 <= k < i ==> (#[trigger] vars[k]).name@ != name) {
                assert(rest[i - 1] == vars[i]);
                assert forall|k: int| 0 <= k < i - 1 implies (#[trigger] rest[k]).name@ != name by {
                    assert(rest[k] == vars[k + 1]);
                }
            }
            if forall|k: int| 0 <= k < vars.len() ==> (#[trigger] vars[k]).name@ != name {
                assert forall|k: int| 0 <= k < rest.len() implies (#[trigger] rest[k]).name@
                    != name by {
                    assert(rest[k] == vars[k + 1]);
                }
            }
        }
    }
}

/// What came of fetching a parameter is what the first entry for it says.
pub proof fn lemma_first_outcome_counts(params: Seq<Parameter>, env_key: Seq<char>, i: int)
    ensures
        0 <= i < params.len() && params[i].env_key@ == env_key && (forall|k: int|
            0 <= k < i ==> (#[trigger] params[k]).env_key@ != env_key) ==> outcome(params, env_key)
            == Some(params[i].fetched.deep_view()),
        (forall|k: int| 0 <= k < params.len() ==> (#[trigger] params[k]).env_key@ != env_key)
            ==> outcome(params, env_key) is None,
    decreases params.len(),
{
    if params.len() > 0 {
        let rest = params.drop_first();
        lemma_first_outcome_counts(rest, env_key, i - 1);
        if params[0].env_key@ != env_key {
            if 0 <= i < params.len() && params[i].env_key@ == env_key && (forall|k: int|
                0 <= k < i ==> (#[trigger] params[k]).env_key@ != env_key) {
                assert(rest[i - 1] == params[i]);
                assert forall|k: int| 0 <= k < i - 1 implies (#[trigger] rest[k]).env_key@
                    != env_key by {
                    assert(rest[k] == params[k + 1]);
                }
            }
            if forall|k: int| 0 <= k < params.len() ==> (#[trigger] params[k]).env_key@ != env_key {
                assert forall|k: int| 0 <= k < rest.len() implies (#[trigger] rest[k]).env_key@
                    != env_key by {
                    assert(rest[k] == params[k + 1]);
                }
            }
        }
    }
}

/// A number that cannot be read stops everything else: the first one is what is
/// said to be wrong, whatever else is.
pub proof fn lemma_first_unreadable_number(env: Env, params: Seq<Parameter>, account: AccountView)
    ensures
        ({
            let history_days = match env.value("HISTORY_DAYS"@) {
                Some(value) => if read_natural(value, u32::MAX as nat) is None {
                    Some(ErrorView::NotAnInteger { key: "HISTORY_DAYS"@, value })
                } else {
                    None
                },
                None => None,
            };
            let min_avg_daily_usd = match env.value("MIN_AVG_DAILY_USD"@) {
                Some(value) => if read_number(value) is None {
                    Some(ErrorView::NotANumber { key: "MIN_AVG_DAILY_USD"@, value })
                } else {
                    None
                },
                None => None,
            };
            let dedup_cooldown_hours = match env.value("DEDUP_COOLDOWN_HOURS"@) {
                Some(value) => if read_natural(value, u32::MAX as nat) is None {
                    Some(ErrorView::NotAnInteger { key: "DEDUP_COOLDOWN_HOURS"@, value })
                } else {
                    None
                },
                None => None,
            };
            let max_spike_display = match env.value("MAX_SPIKE_DISPLAY"@) {
                Some(value) => if read_natural(value, usize::MAX as nat) is None {
                    Some(ErrorView::NotAnInteger { key: "MAX_SPIKE_DISPLAY"@, value })
                } else {
                    None
                },
                None => None,
            };
            let max_digest_display = match env.value("MAX_DIGEST_DISPLAY"@) {
                Some(value) => if read_natural(value, usize::MAX as nat) is None {
                    Some(ErrorView::NotAnInteger { key: "MAX_DIGEST_DISPLAY"@, value })
                } else {
                    None
                },
                None => None,
            };
            let http_timeout_secs = match env.value("HTTP_TIMEOUT_SECS"@) {
                Some(value) => if read_natural(value, u64::MAX as nat) is None {
                    Some(ErrorView::NotAnInteger { key: "HTTP_TIMEOUT_SECS"@, value })
                } else {
                    None
                },
                None => None,
            };
            let http_connect_timeout_secs = match env.value("HTTP_CONNECT_TIMEOUT_SECS"@) {
                Some(value) => if read_natural(value, u64::MAX as nat) is None {
                    Some(ErrorView::NotAnInteger { key: "HTTP_CONNECT_TIMEOUT_SECS"@, value })
                } else {
                    None
                },
                None => None,
            };
            let (a, b, c) = (history_days, min_avg_daily_usd, dedup_cooldown_hours);
            let (d, e) = (max_spike_display, max_digest_display);
            let (f, g) = (http_timeout_secs, http_connect_timeout_secs);
            let first = if a is Some {
                a
            } else if b is Some {
                b
            } else if c is Some {
                c
            } else if d is Some {
                d
            } else if e is Some {
                e
            } else if f is Some {
                f
            } else {
                g
            };
            first matches Some(error) ==> configured(env, params, account) == failed::<ConfigView>(
                error,
            )
        }),
{
}

/// What is said of each error.
pub proof fn lemma_wording(
    key: Seq<char>,
    value: Seq<char>,
    number: Amount,
    quotation: Seq<char>,
    shown: Seq<char>,
)
    ensures
        ErrorView::BadThreshold.wording(quotation, shown)
            == "SPIKE_THRESHOLD_PCT must be a number"@,
        (ErrorView::NotAnInteger { key, value }).wording(quotation, shown) == key
            + " must be a positive integer, got "@ + quotation,
        (ErrorView::NotANumber { key, value }).wording(quotation, shown) == key
            + " must be a number, got "@ + quotation,
        (ErrorView::NotSet { key }).wording(quotation, shown) == key + " env var not set"@,
        (ErrorView::FetchFailed { param: value }).wording(quotation, shown)
            == "Failed to fetch SSM parameter: "@ + value,
        ErrorView::NoValue.wording(quotation, shown) == "SSM parameter has no value"@,
        ErrorView::NoChat.wording(quotation, shown)
            == "telegram_chat_id missing from both AccountContext and TELEGRAM_CHAT_ID env var"@,
        ErrorView::NoAddresses.wording(quotation, shown)
            == "SES_TO_ADDRESSES must contain at least one address"@,
        ErrorView::NoWebhookUrl.wording(quotation, shown)
            == "WEBHOOK_URL or WEBHOOK_URL_SSM_PARAM must be set"@,
        (ErrorView::UnknownChannel { name: value }).wording(quotation, shown)
            == "Unknown notification channel: "@ + quotation,
        ErrorView::NoHistoryDays.wording(quotation, shown) == "HISTORY_DAYS must be > 0 (got 0)"@,
        (ErrorView::ThresholdNotPositive { number }).wording(quotation, shown)
            == "SPIKE_THRESHOLD_PCT must be > 0 (got "@ + shown + ")"@,
        (ErrorView::NegativeMinimum { number }).wording(quotation, shown)
            == "MIN_AVG_DAILY_USD must be >= 0 (got "@ + shown + ")"@,
        ErrorView::NoCooldown.wording(quotation, shown)
            == "DEDUP_COOLDOWN_HOURS must be > 0 (got 0)"@,
        (ErrorView::NotAnInteger { key, value }).subject() == value,
        (ErrorView::NotANumber { key, value }).subject() == value,
        (ErrorView::UnknownChannel { name: value }).subject() == value,
{
}

/// Of several things that are wrong with the settings of channels, or not there
/// yet, the first one is said, in the order of the channels, and only where the
/// numbers can be read.
pub proof fn lemma_first_channel_that_stops(
    env: Env,
    params: Seq<Parameter>,
    account: AccountView,
)
    requires
        numbers_stop(env) is None,
    ensures
        ({
            let channels = account.channels;
            let telegram = telegram_setting(env, params, channels, account.chat_id);
            let slack = slack_setting(env, params, channels);
            let teams = teams_setting(env, params, channels);
            let pagerduty = pagerduty_setting(env, params, channels);
            let ses = ses_setting(env, channels);
            let webhook = webhook_setting(env, params, channels);
            let sns = sns_setting(env, channels);
            let said = configured(env, params, account);
            if telegram is Err {
                said == Err::<ConfigView, StopView>(telegram->Err_0)
            } else if slack is Err {
                said == Err::<ConfigView, StopView>(slack->Err_0)
            } else if teams is Err {
                said == Err::<ConfigView, StopView>(teams->Err_0)
            } else if pagerduty is Err {
                said == Err::<ConfigView, StopView>(pagerduty->Err_0)
            } else if ses is Err {
                said == Err::<ConfigView, StopView>(ses->Err_0)
            } else if webhook is Err {
                said == Err::<ConfigView, StopView>(webhook->Err_0)
            } else if sns is Err {
                said == Err::<ConfigView, StopView>(sns->Err_0)
            } else {
                said matches Err(StopView::Failed(error)) ==> composed(env, params, account).flaw()
                    == Some(error)
            }
        }),
{
}

/// What a parameter comes to: its variable must be set where the channel cannot
/// do without, it is asked for until it was fetched, and it is used as it is.
pub proof fn lemma_parameters(env: Env, params: Seq<Parameter>, env_key: Seq<char>)
    ensures
        env.value(env_key) is None ==> required_param(env, params, env_key) == failed::<Seq<char>>(
            ErrorView::NotSet { key: env_key },
        ) && optional_param(env, params, env_key) == Ok::<Option<Seq<char>>, StopView>(None),
        env.value(env_key) matches Some(param) ==> match outcome(params, env_key) {
            None => {
                let fetch = StopView::Fetch { env_key, param };
                &&& required_param(env, params, env_key) == Err::<Seq<char>, StopView>(fetch)
                &&& optional_param(env, params, env_key) == Err::<Option<Seq<char>>, StopView>(
                    fetch,
                )
            },
            Some(FetchedView::Failed) => {
                let error = ErrorView::FetchFailed { param };
                &&& required_param(env, params, env_key) == failed::<Seq<char>>(error)
                &&& optional_param(env, params, env_key) == failed::<Option<Seq<char>>>(error)
            },
            Some(FetchedView::NoValue) => {
                &&& required_param(env, params, env_key) == failed::<Seq<char>>(ErrorView::NoValue)
                &&& optional_param(env, params, env_key) == Ok::<Option<Seq<char>>, StopView>(None)
            },
            Some(FetchedView::Value(value)) => {
                &&& required_param(env, params, env_key) == Ok::<Seq<char>, StopView>(value)
                &&& optional_param(env, params, env_key) == Ok::<Option<Seq<char>>, StopView>(
                    Some(value),
                )
            },
        },
{
}

/// A channel that is listed and lacks a setting stops loading, with the setting
/// that it lacks; one that is not listed never does.
pub proof fn lemma_missing_settings(
    env: Env,
    params: Seq<Parameter>,
    channels: Seq<Seq<char>>,
    chat_id: Option<Seq<char>>,
)
    ensures
        !channels.contains("telegram"@) ==> telegram_setting(env, params, channels, chat_id) is Ok,
        !channels.contains("slack"@) ==> slack_setting(env, params, channels) is Ok,
        !channels.contains("teams"@) ==> teams_setting(env, params, channels) is Ok,
        !channels.contains("pagerduty"@) ==> pagerduty_setting(env, params, channels) is Ok,
        !channels.contains("ses"@) ==> ses_setting(env, channels) is Ok,
        !channels.contains("webhook"@) ==> webhook_setting(env, params, channels) is Ok,
        !channels.contains("sns"@) ==> sns_setting(env, channels) is Ok,
        channels.contains("telegram"@) ==> (required_param(
            env,
            params,
            "TELEGRAM_BOT_TOKEN_SSM_PARAM"@,
        ) matches Err(stop) ==> telegram_setting(env, params, channels, chat_id) == Err::<
            Option<TelegramView>,
            StopView,
        >(stop)),
        channels.contains("slack"@) ==> (required_param(
            env,
            params,
            "SLACK_WEBHOOK_URL_SSM_PARAM"@,
        ) matches Err(stop) ==> slack_setting(env, params, channels) == Err::<
            Option<SlackView>,
            StopView,
        >(stop)),
        channels.contains("teams"@) ==> (required_param(
            env,
            params,
            "TEAMS_WEBHOOK_URL_SSM_PARAM"@,
        ) matches Err(stop) ==> teams_setting(env, params, channels) == Err::<
            Option<TeamsView>,
            StopView,
        >(stop)),
        channels.contains("pagerduty"@) ==> (required_param(
            env,
            params,
            "PAGERDUTY_ROUTING_KEY_SSM_PARAM"@,
        ) matches Err(stop) ==> pagerduty_setting(env, params, channels) == Err::<
            Option<PagerDutyView>,
            StopView,
        >(stop)),
        channels.contains("ses"@) && env.value("SES_FROM_ADDRESS"@) is None ==> ses_setting(
            env,
            channels,
        ) == failed::<Option<SesView>>(ErrorView::NotSet { key: "SES_FROM_ADDRESS"@ }),
        channels.contains("ses"@) && env.value("SES_FROM_ADDRESS"@) is Some && env.value(
            "SES_TO_ADDRESSES"@,
        ) is None ==> ses_setting(env, channels) == failed::<Option<SesView>>(
            ErrorView::NotSet { key: "SES_TO_ADDRESSES"@ },
        ),
        channels.contains("webhook"@) ==> (optional_param(
            env,
            params,
            "WEBHOOK_URL_SSM_PARAM"@,
        ) matches Err(stop) ==> webhook_setting(env, params, channels) == Err::<
            Option<WebhookView>,
            StopView,
        >(stop)),
        channels.contains("webhook"@) && optional_param(env, params, "WEBHOOK_URL_SSM_PARAM"@)
            == Ok::<Option<Seq<char>>, StopView>(None) && env.value("WEBHOOK_URL"@) is None
            ==> webhook_setting(env, params, channels) == failed::<Option<WebhookView>>(
            ErrorView::NoWebhookUrl,
        ),
        channels.contains("sns"@) && env.value("SNS_TOPIC_ARN"@) is None ==> sns_setting(
            env,
            channels,
        ) == failed::<Option<SnsView>>(ErrorView::NotSet { key: "SNS_TOPIC_ARN"@ }),
{
}

/// Of several things that are wrong with a configuration as a whole the first
/// one is said: a channel that there is not, the first of them, comes before
/// what is wrong with the numbers.
pub proof fn lemma_first_flaw(cfg: ConfigView, i: int)
    ensures
        0 <= i < cfg.notify_channels.len() && !known_channel(cfg.notify_channels[i]) && (forall|k:
            int|
            0 <= k < i ==> known_channel(#[trigger] cfg.notify_channels[k])) ==> cfg.flaw() == Some(
            ErrorView::UnknownChannel { name: cfg.notify_channels[i] },
        ),
        (forall|k: int|
            0 <= k < cfg.notify_channels.len() ==> known_channel(
                #[trigger] cfg.notify_channels[k],
            )) ==> ({
            let zero_days = cfg.history_days == 0;
            let no_threshold = cfg.spike_threshold_pct.at_most(zero());
            let negative = cfg.min_avg_daily_usd.below(zero());
            let no_cooldown = cfg.dedup_cooldown_hours == 0;
            &&& zero_days ==> cfg.flaw() == Some(ErrorView::NoHistoryDays)
            &&& !zero_days && no_threshold ==> cfg.flaw() == Some(
                ErrorView::ThresholdNotPositive { number: cfg.spike_threshold_pct },
            )
            &&& !zero_days && !no_threshold && negative ==> cfg.flaw() == Some(
                ErrorView::NegativeMinimum { number: cfg.min_avg_daily_usd },
            )
            &&& !zero_days && !no_threshold && !negative && no_cooldown ==> cfg.flaw() == Some(
                ErrorView::NoCooldown,
            )
            &&& !zero_days && !no_threshold && !negative && !no_cooldown ==> cfg.flaw() is None
        }),
{
    lemma_first_unknown(cfg.notify_channels, i);
    if forall|k: int|
        0 <= k < cfg.notify_channels.len() ==> known_channel(#[trigger] cfg.notify_channels[k]) {
        lemma_no_unknown_channel(cfg.notify_channels);
    }
}

proof fn lemma_first_unknown(channels: Seq<Seq<char>>, i: int)
    ensures
        0 <= i < channels.len() && !known_channel(channels[i]) && (forall|k: int|
            0 <= k < i ==> known_channel(#[trigger] channels[k])) ==> unknown_channel(channels)
            == Some(channels[i]),
    decreases channels.len(),
{
    if 0 < i < channels.len() && (forall|k: int|
        0 <= k < i ==> known_channel(#[trigger] channels[k])) {
        let rest = channels.drop_first();
        assert(known_channel(channels[0]));
        assert forall|k: int| 0 <= k < i - 1 implies known_channel(#[trigger] rest[k]) by {
            assert(rest[k] == channels[k + 1]);
        }
        lemma_first_unknown(rest, i - 1);
        assert(rest[i - 1] == channels[i]);
    }
}

} // verus!
