# StackAlert

Watches what AWS services cost and tells the configured channels when a service
costs more today than it used to: Telegram, Slack, Microsoft Teams, PagerDuty,
email (SES), SNS, or a webhook.

- `src/` is the library, verified with Verus. It reads amounts and dates, lays
  out the costs by service and day, finds spikes, holds back alerts that were
  given a short while ago, loads the configuration, words the messages, and
  decides what a run does next.
- `app/` is the Lambda around it: it asks AWS, sends what is to be sent, and
  hands what came of it back to the library.
- `tests/` runs the library.

Amounts are binary64 numbers that the library holds by their encodings and
computes with exactly as IEEE 754 says (`src/number/`), so what is proved of a
spike is proved of the figures that are sent.

A run is a state machine (`src/check.rs`): each step takes what came of the last
one and says what is to be done next.
