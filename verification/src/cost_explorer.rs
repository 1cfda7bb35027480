//! Daily spend per service, out of what Cost Explorer answers.

use crate::config::Config;
use crate::dates::{day_text, days_before, in_calendar, parse_day, parsed_day, write_day};
use crate::number::read::{parse_number, read_number};
use crate::number::sums::lemma_cent_is_positive;
use crate::number::{cent, zero, Amount};
use crate::text::same;
use vstd::prelude::*;

verus! {

/// The metric that is asked for.
pub const METRIC: &'static str = "UnblendedCost";

/// The dimension by which costs are grouped.
pub const DIMENSION: &'static str = "SERVICE";

/// What a group without a key is counted under.
pub const UNKNOWN_SERVICE: &'static str = "Unknown";

/// The costs of one service, one per day, the oldest day first. The last one
/// is today's, which is not over yet.
#[derive(Debug)]
pub struct ServiceSpend {
    pub service: String,
    pub costs: Vec<Amount>,
}

/// The costs of all services, each service once.
pub type SpendHistory = Vec<ServiceSpend>;

/// The costs of one service, in the abstract.
pub struct SpendView {
    pub service: Seq<char>,
    pub costs: Seq<Amount>,
}

impl View for ServiceSpend {
    type V = SpendView;

    open spec fn view(&self) -> SpendView {
        SpendView { service: self.service@, costs: self.costs@ }
    }
}

/// The costs of all services, in the abstract.
pub open spec fn history_view(history: Seq<ServiceSpend>) -> Seq<SpendView> {
    Seq::new(history.len(), |i: int| history[i]@)
}

/// One metric of a group, with the amount as it is written.
#[derive(Debug)]
pub struct CostMetric {
    pub name: String,
    pub amount: Option<String>,
}

/// The costs of one group on one day.
#[derive(Debug)]
pub struct CostGroup {
    pub keys: Vec<String>,
    pub metrics: Vec<CostMetric>,
}

/// The costs of one day, with the day's date as it is written.
#[derive(Debug)]
pub struct DayCosts {
    pub start: Option<String>,
    pub groups: Vec<CostGroup>,
}

// ---- access ------------------------------------------------------------

/// The region in which Cost Explorer is asked.
pub const COST_EXPLORER_REGION: &'static str = "us-east-1";

/// The name of the session in which another account's role is assumed.
pub const SESSION_NAME: &'static str = "stackalert-check";

/// How long that session lasts, in seconds: the shortest time that AWS allows.
pub const STS_SESSION_DURATION_SECS: i32 = 900;

/// A role to assume.
#[derive(Debug)]
pub struct RoleRequest {
    pub role_arn: String,
    pub session_name: String,
    pub duration_secs: i32,
    pub external_id: Option<String>,
}

/// How Cost Explorer is asked: where, and in which role. Without a role, it is
/// asked with the own credentials.
#[derive(Debug)]
pub struct AwsAccess {
    pub region: String,
    pub role: Option<RoleRequest>,
}

/// How to ask for the costs of the configured account.
pub fn build_aws_config(cfg: &Config) -> (r: AwsAccess)
    ensures
        r.region@ == "us-east-1"@,
        match cfg.deep_view().cross_account_role_arn {
            Some(role_arn) => {
                &&& r.role matches Some(role)
                &&& role.role_arn@ == role_arn
                &&& role.session_name@ == "stackalert-check"@
                &&& role.duration_secs == 900
                &&& role.external_id.deep_view() == cfg.deep_view().external_id
            },
            None => r.role is None,
        },
{
    let region: String = COST_EXPLORER_REGION.to_string();
    match &cfg.cross_account_role_arn {
        Some(role_arn) => {
            let external_id: Option<String> = match &cfg.external_id {
                Some(id) => Some(id.clone()),
                None => None,
            };
            let role: RoleRequest = RoleRequest {
                role_arn: role_arn.clone(),
                session_name: SESSION_NAME.to_string(),
                duration_secs: STS_SESSION_DURATION_SECS,
                external_id,
            };
            AwsAccess { region, role: Some(role) }
        },
        None => AwsAccess { region, role: None },
    }
}

// ---- the question ------------------------------------------------------

/// What is asked of Cost Explorer: daily costs from `start` up to, but not
/// including, `end`.
#[derive(Debug)]
pub struct SpendQuery {
    pub start: String,
    pub end: String,
    pub metric: String,
    pub dimension: String,
}

/// Asks for the days from `start` up to `end`.
pub fn query_between(start: String, end: String) -> (r: SpendQuery)
    ensures
        r.start@ == start@,
        r.end@ == end@,
        r.metric@ == METRIC@,
        r.dimension@ == DIMENSION@,
{
    SpendQuery { start, end, metric: METRIC.to_string(), dimension: DIMENSION.to_string() }
}

/// Whether a day is among the last `days` days, today included.
pub open spec fn asked_for(today: int, days: int, day: int) -> bool {
    today + 1 - days <= day < today + 1
}

/// Whether the last `days` days can be asked for: where they begin, today, and
/// tomorrow, where they end, are in the calendar.
pub open spec fn can_be_asked_for(today: int, days: int) -> bool {
    in_calendar(today) && in_calendar(today + 1) && in_calendar(today + 1 - days)
}

/// Asks for the last `days` days, today included.
pub fn spend_query(today: i32, days: i64) -> (r: SpendQuery)
    requires
        in_calendar(today + 1),
        in_calendar(today + 1 - days),
    ensures
        r.start@ == day_text(today + 1 - days),
        r.end@ == day_text(today + 1),
        r.metric@ == METRIC@,
        r.dimension@ == DIMENSION@,
{
    let end: i32 = today + 1;
    let start: i32 = days_before(end, days);
    query_between(write_day(start), write_day(end))
}

// ---- what the answer says ----------------------------------------------

/// The day that a result is about.
pub open spec fn day_of(result: DayCosts) -> Option<int> {
    match result.start {
        Some(start) => parsed_day(start@),
        None => None,
    }
}

/// Puts a day among others in ascending order, unless it is there already.
pub open spec fn with_day(days: Seq<int>, day: int) -> Seq<int>
    decreases days.len(),
{
    if days.len() == 0 || days.last() < day {
        days.push(day)
    } else if days.last() == day {
        days
    } else {
        with_day(days.drop_last(), day).push(days.last())
    }
}

/// The days that the results are about, one by one.
pub open spec fn dates_of(results: Seq<DayCosts>) -> Seq<Option<int>> {
    Seq::new(results.len(), |i: int| day_of(results[i]))
}

pub open spec fn dates_view(dates: Seq<Option<i32>>) -> Seq<Option<int>> {
    Seq::new(
        dates.len(),
        |i: int|
            match dates[i] {
                Some(day) => Some(day as int),
                None => None,
            },
    )
}

/// The days among these, each once, in ascending order.
pub open spec fn days_of(dates: Seq<Option<int>>) -> Seq<int>
    decreases dates.len(),
{
    if dates.len() == 0 {
        Seq::<int>::empty()
    } else {
        match dates.last() {
            Some(day) => with_day(days_of(dates.drop_last()), day),
            None => days_of(dates.drop_last()),
        }
    }
}

/// The service that a group is about: its first key.
pub open spec fn service_of(group: CostGroup) -> Seq<char> {
    if group.keys@.len() > 0 {
        group.keys@[0]@
    } else {
        UNKNOWN_SERVICE@
    }
}

/// The amount that is written for a metric, the first of that name.
pub open spec fn written_amount(metrics: Seq<CostMetric>, name: Seq<char>) -> Option<Seq<char>>
    decreases metrics.len(),
{
    if metrics.len() == 0 {
        None
    } else if metrics[0].name@ == name {
        match metrics[0].amount {
            Some(amount) => Some(amount@),
            None => None,
        }
    } else {
        written_amount(metrics.drop_first(), name)
    }
}

/// The cost of a group. What is not there or is not a number counts as zero.
pub open spec fn amount_of_group(group: CostGroup) -> Amount {
    match written_amount(group.metrics@, METRIC@) {
        Some(written) => match read_number(written) {
            Some(amount) => amount,
            None => zero(),
        },
        None => zero(),
    }
}

/// A cost of a service on a day.
pub struct Posting {
    pub day: int,
    pub service: Seq<char>,
    pub amount: Amount,
}

/// The costs of a day. What is below one cent is noise and left out.
pub open spec fn postings_of_day(day: int, groups: Seq<CostGroup>) -> Seq<Posting>
    decreases groups.len(),
{
    if groups.len() == 0 {
        Seq::<Posting>::empty()
    } else {
        let before = postings_of_day(day, groups.drop_last());
        let amount = amount_of_group(groups.last());
        if amount.below(cent()) {
            before
        } else {
            before.push(Posting { day, service: service_of(groups.last()), amount })
        }
    }
}

/// The costs of all days, as they come. A result without a day is left out.
pub open spec fn postings(dates: Seq<Option<int>>, results: Seq<DayCosts>) -> Seq<Posting>
    decreases results.len(),
{
    if results.len() == 0 {
        Seq::<Posting>::empty()
    } else {
        let before = postings(dates, results.drop_last());
        match dates[results.len() - 1] {
            Some(day) => before + postings_of_day(day, results.last().groups@),
            None => before,
        }
    }
}

/// The services for which there is a cost, each once, as they come.
pub open spec fn services_of(all: Seq<Posting>) -> Seq<Seq<char>>
    decreases all.len(),
{
    if all.len() == 0 {
        Seq::<Seq<char>>::empty()
    } else {
        let before = services_of(all.drop_last());
        if before.contains(all.last().service) {
            before
        } else {
            before.push(all.last().service)
        }
    }
}

/// The cost of a service on a day: the last one that was given, or zero.
pub open spec fn cost_on(all: Seq<Posting>, service: Seq<char>, day: int) -> Amount
    decreases all.len(),
{
    if all.len() == 0 {
        zero()
    } else if all.last().service == service && all.last().day == day {
        all.last().amount
    } else {
        cost_on(all.drop_last(), service, day)
    }
}

/// The costs of a service on each of the days.
pub open spec fn costs_on(all: Seq<Posting>, service: Seq<char>, days: Seq<int>) -> Seq<Amount> {
    Seq::new(days.len(), |k: int| cost_on(all, service, days[k]))
}

/// The costs of each service on each of the days.
pub open spec fn table(all: Seq<Posting>, days: Seq<int>) -> Seq<SpendView> {
    Seq::new(
        services_of(all).len(),
        |i: int|
            SpendView {
                service: services_of(all)[i],
                costs: costs_on(all, services_of(all)[i], days),
            },
    )
}

/// The daily spend per service that results tell of, on these days.
pub open spec fn spend_table(dates: Seq<Option<int>>, results: Seq<DayCosts>) -> Seq<SpendView> {
    table(postings(dates, results), days_of(dates))
}

/// The daily spend per service that the results tell of.
pub open spec fn spend_history(results: Seq<DayCosts>) -> Seq<SpendView> {
    spend_table(dates_of(results), results)
}

/// Whether no service is listed twice.
pub open spec fn each_service_once(history: Seq<SpendView>) -> bool {
    forall|i: int, j: int|
        0 <= i < j < history.len() ==> (#[trigger] history[i]).service != (
        #[trigger] history[j]).service
}

// ---- the days ----------------------------------------------------------

pub open spec fn ascending(days: Seq<int>) -> bool {
    forall|i: int, j: int| 0 <= i < j < days.len() ==> #[trigger] days[i] < #[trigger] days[j]
}

proof fn lemma_with_day(days: Seq<int>, day: int)
    requires
        ascending(days),
    ensures
        ascending(with_day(days, day)),
        forall|d: int| #[trigger]
            with_day(days, day).contains(d) <==> d == day || days.contains(d),
    decreases days.len(),
{
    let after = with_day(days, day);
    if days.len() == 0 || days.last() < day {
        assert forall|i: int, j: int| 0 <= i < j < after.len() implies #[trigger] after[i]
            < #[trigger] after[j] by {
            if j == days.len() && i < days.len() - 1 {
                assert(days[i] < days[days.len() - 1]);
            }
        }
        assert forall|d: int| #[trigger] after.contains(d) <==> d == day || days.contains(d) by {
            assert(after[days.len() as int] == day);
            if days.contains(d) {
                let k = choose|k: int| 0 <= k < days.len() && days[k] == d;
                assert(after[k] == d);
            }
        }
    } else if days.last() == day {
        assert(days[days.len() - 1] == day);
    } else {
        let front = days.drop_last();
        lemma_with_day(front, day);
        let rest = with_day(front, day);
        assert forall|i: int, j: int| 0 <= i < j < after.len() implies #[trigger] after[i]
            < #[trigger] after[j] by {
            if j == rest.len() {
                assert(rest.contains(rest[i]));
                if rest[i] != day {
                    let k = choose|k: int| 0 <= k < front.len() && front[k] == rest[i];
                    assert(days[k] < days[days.len() - 1]);
                }
            }
        }
        assert forall|d: int| #[trigger] after.contains(d) <==> d == day || days.contains(d) by {
            assert(after[rest.len() as int] == days.last());
            assert(rest.contains(d) <==> d == day || front.contains(d));
            if rest.contains(d) {
                let k = choose|k: int| 0 <= k < rest.len() && rest[k] == d;
                assert(after[k] == d);
            }
            if front.contains(d) {
                let k = choose|k: int| 0 <= k < front.len() && front[k] == d;
                assert(days[k] == d);
            }
            if days.contains(d) && d != days.last() {
                let k = choose|k: int| 0 <= k < days.len() && days[k] == d;
                assert(front[k] == d);
            }
            if after.contains(d) && d != days.last() {
                let k = choose|k: int| 0 <= k < after.len() && after[k] == d;
                assert(rest[k] == d);
            }
        }
    }
}

/// The days are in ascending order, each once, and they are the days that
/// there are.
pub proof fn lemma_days(dates: Seq<Option<int>>)
    ensures
        ascending(days_of(dates)),
        forall|d: int| #[trigger]
            days_of(dates).contains(d) <==> exists|i: int|
                0 <= i < dates.len() && #[trigger] dates[i] == Some(d),
    decreases dates.len(),
{
    if dates.len() > 0 {
        let front = dates.drop_last();
        lemma_days(front);
        match dates.last() {
            Some(day) => {
                lemma_with_day(days_of(front), day);
            },
            None => {},
        }
        assert forall|d: int| #[trigger] days_of(dates).contains(d) <==> exists|i: int|
            0 <= i < dates.len() && #[trigger] dates[i] == Some(d) by {
            if days_of(dates).contains(d) {
                if dates.last() == Some(d) {
                    assert(dates[dates.len() - 1] == Some(d));
                } else {
                    assert(days_of(front).contains(d));
                    let i = choose|i: int|
                        0 <= i < front.len() && #[trigger] front[i] == Some(d);
                    assert(dates[i] == Some(d));
                }
            }
            if exists|i: int| 0 <= i < dates.len() && #[trigger] dates[i] == Some(d) {
                let i = choose|i: int| 0 <= i < dates.len() && #[trigger] dates[i] == Some(d);
                if i < front.len() {
                    assert(front[i] == Some(d));
                    assert(days_of(front).contains(d));
                }
            }
        }
    }
}

proof fn lemma_consecutive(days: Seq<int>, first: int, count: nat)
    requires
        ascending(days),
        forall|d: int| #[trigger] days.contains(d) <==> first <= d < first + count,
    ensures
        days.len() == count,
        forall|k: int| 0 <= k < count ==> #[trigger] days[k] == first + k,
    decreases count,
{
    if count == 0 {
        if days.len() > 0 {
            assert(days.contains(days[0]));
        }
    } else {
        let end: int = first + count - 1;
        assert(days.contains(end));
        assert(days.contains(days[days.len() - 1]));
        assert(days.last() == end);
        let front = days.drop_last();
        assert forall|d: int| #[trigger] front.contains(d) <==> first <= d < first + count - 1 by {
            if front.contains(d) {
                let k = choose|k: int| 0 <= k < front.len() && front[k] == d;
                assert(days[k] < days[days.len() - 1]);
                assert(days.contains(days[k]));
            }
            if first <= d < first + count - 1 {
                assert(days.contains(d));
                let k = choose|k: int| 0 <= k < days.len() && days[k] == d;
                assert(front[k] == d);
            }
        }
        lemma_consecutive(front, first, (count - 1) as nat);
        assert forall|k: int| 0 <= k < count implies #[trigger] days[k] == first + k by {
            if k < count - 1 {
                assert(front[k] == first + k);
            }
        }
    }
}

/// Where the answer tells of every day that was asked for and of no other, the
/// history runs day by day, the oldest day first, and its last day is today.
pub proof fn lemma_history_ends_today(
    dates: Seq<Option<int>>,
    results: Seq<DayCosts>,
    today: int,
    days: nat,
)
    requires
        forall|d: int| #[trigger]
            asked_for(today, days as int, d) <==> exists|i: int|
                0 <= i < dates.len() && #[trigger] dates[i] == Some(d),
    ensures
        days_of(dates).len() == days,
        forall|k: int| 0 <= k < days ==> #[trigger] days_of(dates)[k] == today + 1 - days + k,
        days > 0 ==> days_of(dates).last() == today,
        forall|i: int, k: int|
            0 <= i < spend_table(dates, results).len() && 0 <= k < days ==> (
            #[trigger] spend_table(dates, results)[i].costs[k]) == cost_on(
                postings(dates, results),
                spend_table(dates, results)[i].service,
                today + 1 - days + k,
            ),
        forall|i: int|
            0 <= i < spend_table(dates, results).len() ==> {
                let spend = #[trigger] spend_table(dates, results)[i];
                &&& spend.costs.len() == days
                &&& days > 0 ==> spend.costs.last() == cost_on(
                    postings(dates, results),
                    spend.service,
                    today,
                )
            },
{
    lemma_days(dates);
    assert forall|d: int| #[trigger]
        days_of(dates).contains(d) <==> today + 1 - days <= d < today + 1 - days + days by {
        assert(asked_for(today, days as int, d) <==> days_of(dates).contains(d));
    }
    lemma_consecutive(days_of(dates), today + 1 - days, days);
}

spec fn numbers(days: Seq<i32>) -> Seq<int> {
    Seq::new(days.len(), |i: int| days[i] as int)
}

fn insert_day(days: &mut Vec<i32>, day: i32)
    ensures
        numbers(final(days)@) == with_day(numbers(old(days)@), day as int),
{
    let ghost all = numbers(days@);
    let mut at: usize = days.len();
    let ghost mut rest: Seq<int> = Seq::empty();
    assert(all.take(at as int) =~= all);
    assert(with_day(all, day as int) =~= with_day(all.take(at as int), day as int) + rest);
    while at > 0 && days[at - 1] > day
        invariant
            all == numbers(days@),
            at <= days@.len(),
            rest == all.skip(at as int),
            with_day(all, day as int) == with_day(all.take(at as int), day as int) + rest,
        decreases at,
    {
        proof {
            let front = all.take(at as int);
            assert(front.drop_last() =~= all.take(at - 1));
            assert(front.last() == days@[at - 1]);
            assert(with_day(all.take(at - 1), day as int).push(front.last()) + rest
                =~= with_day(all.take(at - 1), day as int) + all.skip(at - 1));
            rest = all.skip(at - 1);
        }
        at = at - 1;
    }
    let ghost front = all.take(at as int);
    if at > 0 && days[at - 1] == day {
        assert(front.last() == day);
        assert(front + rest =~= all);
        return ;
    }
    assert(at > 0 ==> front.last() < day);
    days.insert(at, day);
    assert(numbers(days@) =~= front.push(day as int) + rest);
}

fn parse_start(result: &DayCosts) -> (r: Option<i32>)
    ensures
        match r {
            Some(day) => day_of(*result) == Some(day as int),
            None => day_of(*result) is None,
        },
{
    match &result.start {
        Some(start) => parse_day(start.as_str()),
        None => None,
    }
}

fn read_dates(results: &Vec<DayCosts>) -> (r: Vec<Option<i32>>)
    ensures
        r@.len() == results@.len(),
        dates_view(r@) == dates_of(results@),
{
    let mut dates: Vec<Option<i32>> = Vec::new();
    let mut i: usize = 0;
    while i < results.len()
        invariant
            i <= results@.len(),
            dates@.len() == i,
            forall|k: int| 0 <= k < i ==> #[trigger] dates_view(dates@)[k] == day_of(results@[k]),
        decreases results@.len() - i,
    {
        let ghost before = dates@;
        dates.push(parse_start(&results[i]));
        assert forall|k: int| 0 <= k < i + 1 implies #[trigger] dates_view(dates@)[k] == day_of(
            results@[k],
        ) by {
            if k < i {
                assert(dates_view(before)[k] == day_of(results@[k]));
            }
        }
        i = i + 1;
    }
    assert(dates_view(dates@) =~= dates_of(results@));
    dates
}

fn collect_days(dates: &Vec<Option<i32>>) -> (r: Vec<i32>)
    ensures
        numbers(r@) == days_of(dates_view(dates@)),
{
    let ghost all = dates_view(dates@);
    let mut days: Vec<i32> = Vec::new();
    let mut i: usize = 0;
    assert(numbers(days@) =~= days_of(all.take(0)));
    while i < dates.len()
        invariant
            i <= dates@.len(),
            all == dates_view(dates@),
            numbers(days@) == days_of(all.take(i as int)),
        decreases dates@.len() - i,
    {
        assert(all.take(i + 1).drop_last() =~= all.take(i as int));
        assert(all.take(i + 1).last() == all[i as int]);
        match dates[i] {
            Some(day) => {
                insert_day(&mut days, day);
            },
            None => {},
        }
        i = i + 1;
    }
    assert(all.take(dates@.len() as int) =~= all);
    days
}

// ---- the costs ---------------------------------------------------------

fn group_service(group: &CostGroup) -> (r: String)
    ensures
        r@ == service_of(*group),
{
    if group.keys.len() > 0 {
        group.keys[0].clone()
    } else {
        UNKNOWN_SERVICE.to_string()
    }
}

fn group_amount(group: &CostGroup) -> (r: Amount)
    ensures
        r == amount_of_group(*group),
{
    let mut i: usize = 0;
    assert(group.metrics@.skip(0) =~= group.metrics@);
    while i < group.metrics.len()
        invariant
            i <= group.metrics@.len(),
            written_amount(group.metrics@, METRIC@) == written_amount(
                group.metrics@.skip(i as int),
                METRIC@,
            ),
        decreases group.metrics@.len() - i,
    {
        let ghost rest = group.metrics@.skip(i as int);
        assert(rest[0] == group.metrics@[i as int]);
        assert(rest.drop_first() =~= group.metrics@.skip(i + 1));
        if same(group.metrics[i].name.as_str(), METRIC) {
            match &group.metrics[i].amount {
                Some(written) => {
                    match parse_number(written.as_str()) {
                        Some(amount) => {
                            return amount;
                        },
                        None => {
                            return zero();
                        },
                    }
                },
                None => {
                    return zero();
                },
            }
        }
        i = i + 1;
    }
    zero()
}

proof fn lemma_no_cost(all: Seq<Posting>, service: Seq<char>, day: int)
    requires
        !services_of(all).contains(service),
    ensures
        cost_on(all, service, day) == zero(),
    decreases all.len(),
{
    if all.len() > 0 {
        let before = services_of(all.drop_last());
        if before.contains(service) {
            let k = choose|k: int| 0 <= k < before.len() && before[k] == service;
            assert(services_of(all)[k] == service);
        }
        if all.last().service == service {
            if !before.contains(service) {
                assert(services_of(all)[before.len() as int] == service);
            }
        }
        lemma_no_cost(all.drop_last(), service, day);
    }
}

/// No service is listed twice, and those listed are those with a cost.
proof fn lemma_services(all: Seq<Posting>)
    ensures
        forall|i: int, j: int|
            0 <= i < j < services_of(all).len() ==> services_of(all)[i] != services_of(all)[j],
        forall|s: Seq<char>| #[trigger]
            services_of(all).contains(s) <==> exists|p: int|
                0 <= p < all.len() && (#[trigger] all[p]).service == s,
    decreases all.len(),
{
    if all.len() > 0 {
        let front = all.drop_last();
        lemma_services(front);
        let before = services_of(front);
        let after = services_of(all);
        let last = all.last().service;
        assert forall|i: int, j: int| 0 <= i < j < after.len() implies after[i] != after[j] by {
            if j == before.len() {
                assert(before.contains(before[i]));
            }
        }
        assert forall|s: Seq<char>| #[trigger] after.contains(s) <==> exists|p: int|
            0 <= p < all.len() && (#[trigger] all[p]).service == s by {
            if after.contains(s) {
                if s == last {
                    assert(all[all.len() - 1].service == s);
                } else {
                    let k = choose|k: int| 0 <= k < after.len() && after[k] == s;
                    assert(before[k] == s);
                    assert(before.contains(s));
                    let p = choose|p: int|
                        0 <= p < front.len() && (#[trigger] front[p]).service == s;
                    assert(all[p].service == s);
                }
            }
            if exists|p: int| 0 <= p < all.len() && (#[trigger] all[p]).service == s {
                let p = choose|p: int| 0 <= p < all.len() && (#[trigger] all[p]).service == s;
                if p < front.len() {
                    assert(front[p].service == s);
                    assert(before.contains(s));
                    let k = choose|k: int| 0 <= k < before.len() && before[k] == s;
                    assert(after[k] == s);
                } else if !before.contains(last) {
                    assert(after[before.len() as int] == s);
                }
            }
        }
    }
}

fn zeros(count: usize) -> (r: Vec<Amount>)
    ensures
        r@ == Seq::new(count as nat, |k: int| zero()),
{
    let mut out: Vec<Amount> = Vec::new();
    let mut i: usize = 0;
    while i < count
        invariant
            i <= count,
            out@ == Seq::new(i as nat, |k: int| zero()),
        decreases count - i,
    {
        out.push(zero());
        assert(out@ =~= Seq::new((i + 1) as nat, |k: int| zero()));
        i = i + 1;
    }
    out
}

fn position(history: &Vec<ServiceSpend>, service: &String) -> (r: usize)
    ensures
        r <= history@.len(),
        r < history@.len() ==> history@[r as int].service@ == service@,
        forall|i: int| 0 <= i < r ==> (#[trigger] history@[i]).service@ != service@,
{
    let mut i: usize = 0;
    while i < history.len()
        invariant
            i <= history@.len(),
            forall|k: int| 0 <= k < i ==> (#[trigger] history@[k]).service@ != service@,
        decreases history@.len() - i,
    {
        if history[i].service == *service {
            return i;
        }
        i = i + 1;
    }
    i
}

/// Enters one cost.
fn post(
    history: &mut Vec<ServiceSpend>,
    days: &Vec<i32>,
    at: usize,
    service: String,
    amount: Amount,
    Ghost(all): Ghost<Seq<Posting>>,
)
    requires
        at < days@.len(),
        ascending(numbers(days@)),
        history_view(old(history)@) == table(all, numbers(days@)),
    ensures
        history_view(final(history)@) == table(
            all.push(Posting { day: days@[at as int] as int, service: service@, amount }),
            numbers(days@),
        ),
{
    let ghost posting = Posting { day: days@[at as int] as int, service: service@, amount };
    let ghost more = all.push(posting);
    let ghost listed = services_of(all);
    let ghost calendar = numbers(days@);
    assert(more.drop_last() =~= all);
    let found: usize = position(history, &service);
    proof {
        assert(history@.len() == listed.len()) by {
            assert(history_view(history@).len() == table(all, calendar).len());
        }
        assert forall|i: int| 0 <= i < listed.len() implies history@[i].service@ == #[trigger] listed[i]
            && history@[i].costs@ == costs_on(all, listed[i], calendar) by {
            assert(history_view(history@)[i] == table(all, calendar)[i]);
        }
        if found < history@.len() {
            assert(listed[found as int] == service@);
        } else {
            if listed.contains(service@) {
                let k = choose|k: int| 0 <= k < listed.len() && listed[k] == service@;
                assert(history@[k].service@ == service@);
            }
            assert forall|k: int| 0 <= k < calendar.len() implies cost_on(
                all,
                service@,
                #[trigger] calendar[k],
            ) == zero() by {
                lemma_no_cost(all, service@, calendar[k]);
            }
        }
        lemma_services(all);
    }
    let ghost before = history@;
    if found == history.len() {
        let mut costs: Vec<Amount> = zeros(days.len());
        costs.set(at, amount);
        history.push(ServiceSpend { service, costs });
        assert forall|i: int| 0 <= i < services_of(more).len() implies #[trigger] history_view(history@)[i]
            == table(more, calendar)[i] by {
            if i < listed.len() {
                assert(history@[i] == before[i]);
                assert(services_of(more)[i] == listed[i]);
                assert(listed[i] != posting.service);
                assert(history@[i].costs@ =~= costs_on(more, listed[i], calendar));
            } else {
                assert(history@[i].costs@ =~= costs_on(more, posting.service, calendar)) by {
                    assert forall|k: int| 0 <= k < calendar.len() implies #[trigger] history@[i].costs@[k]
                        == costs_on(more, posting.service, calendar)[k] by {
                        if k < at {
                            assert(calendar[k] < calendar[at as int]);
                        } else if k > at {
                            assert(calendar[at as int] < calendar[k]);
                        }
                        assert(cost_on(all, posting.service, calendar[k]) == zero());
                    }
                }
            }
        }
    } else {
        let mut entry: ServiceSpend = history.remove(found);
        entry.costs.set(at, amount);
        history.insert(found, entry);
        assert forall|i: int| 0 <= i < services_of(more).len() implies #[trigger] history_view(history@)[i]
            == table(more, calendar)[i] by {
            assert(services_of(more)[i] == listed[i]);
            if i != found {
                assert(history@[i] == before[i]);
                assert(listed[i] != listed[found as int]);
                assert(history@[i].costs@ =~= costs_on(more, listed[i], calendar));
            } else {
                assert(history@[i].service@ == listed[i]);
                assert(history@[i].costs@ =~= costs_on(more, listed[i], calendar)) by {
                    assert forall|k: int| 0 <= k < calendar.len() implies #[trigger] history@[i].costs@[k]
                        == costs_on(more, listed[i], calendar)[k] by {
                        if k < at {
                            assert(calendar[k] < calendar[at as int]);
                        } else if k > at {
                            assert(calendar[at as int] < calendar[k]);
                        }
                    }
                }
            }
        }
    }
    assert(services_of(more).len() == history@.len());
    assert(history_view(history@) =~= table(more, calendar));
}

fn find_day(days: &Vec<i32>, day: i32) -> (r: usize)
    requires
        numbers(days@).contains(day as int),
    ensures
        r < days@.len(),
        days@[r as int] == day,
{
    let mut i: usize = 0;
    while i < days.len()
        invariant
            i <= days@.len(),
            forall|k: int| 0 <= k < i ==> #[trigger] days@[k] != day,
        decreases days@.len() - i,
    {
        if days[i] == day {
            return i;
        }
        i = i + 1;
    }
    proof {
        let k = choose|k: int| 0 <= k < numbers(days@).len() && numbers(days@)[k] == day;
        assert(days@[k] == day);
        assert(false);
    }
    0
}

/// Enters the costs of one day.
fn post_day(
    history: &mut Vec<ServiceSpend>,
    days: &Vec<i32>,
    day: i32,
    groups: &Vec<CostGroup>,
    Ghost(all): Ghost<Seq<Posting>>,
)
    requires
        numbers(days@).contains(day as int),
        ascending(numbers(days@)),
        history_view(old(history)@) == table(all, numbers(days@)),
    ensures
        history_view(final(history)@) == table(
            all + postings_of_day(day as int, groups@),
            numbers(days@),
        ),
{
    let at: usize = find_day(days, day);
    let mut i: usize = 0;
    let ghost mut now: Seq<Posting> = all;
    assert(all + postings_of_day(day as int, groups@.take(0)) =~= all);
    while i < groups.len()
        invariant
            at < days@.len(),
            days@[at as int] == day,
            ascending(numbers(days@)),
            i <= groups@.len(),
            now == all + postings_of_day(day as int, groups@.take(i as int)),
            history_view(history@) == table(now, numbers(days@)),
        decreases groups@.len() - i,
    {
        assert(groups@.take(i + 1).drop_last() =~= groups@.take(i as int));
        let service: String = group_service(&groups[i]);
        let amount: Amount = group_amount(&groups[i]);
        if !amount.is_below(cent()) {
            let ghost posting = Posting { day: day as int, service: service@, amount };
            post(history, days, at, service, amount, Ghost(now));
            proof {
                assert(all + postings_of_day(day as int, groups@.take(i as int)).push(posting)
                    =~= now.push(posting));
                now = now.push(posting);
            }
        }
        i = i + 1;
    }
    assert(groups@.take(groups@.len() as int) =~= groups@);
}

/// The daily spend per service, out of the results and the days that they are
/// about.
pub fn lay_out(dates: &Vec<Option<i32>>, results: &Vec<DayCosts>) -> (r: SpendHistory)
    requires
        dates@.len() == results@.len(),
    ensures
        history_view(r@) == spend_table(dates_view(dates@), results@),
        each_service_once(history_view(r@)),
{
    let ghost all = dates_view(dates@);
    let days: Vec<i32> = collect_days(dates);
    let mut history: Vec<ServiceSpend> = Vec::new();
    let mut i: usize = 0;
    proof {
        lemma_days(all);
        assert(postings(all, results@.take(0)) =~= Seq::<Posting>::empty());
        assert(history_view(history@) =~= table(postings(all, results@.take(0)), numbers(days@)));
    }
    while i < results.len()
        invariant
            i <= results@.len(),
            dates@.len() == results@.len(),
            all == dates_view(dates@),
            numbers(days@) == days_of(all),
            ascending(numbers(days@)),
            forall|d: int| #[trigger]
                days_of(all).contains(d) <==> exists|i: int|
                    0 <= i < all.len() && #[trigger] all[i] == Some(d),
            history_view(history@) == table(
                postings(all, results@.take(i as int)),
                numbers(days@),
            ),
        decreases results@.len() - i,
    {
        assert(results@.take(i + 1).drop_last() =~= results@.take(i as int));
        match dates[i] {
            Some(day) => {
                assert(all[i as int] == Some(day as int));
                assert(days_of(all).contains(day as int));
                post_day(
                    &mut history,
                    &days,
                    day,
                    &results[i].groups,
                    Ghost(postings(all, results@.take(i as int))),
                );
            },
            None => {},
        }
        i = i + 1;
    }
    assert(results@.take(results@.len() as int) =~= results@);
    proof {
        lemma_services(postings(all, results@));
    }
    history
}

/// The daily spend per service, out of what was answered.
pub fn fetch_spend(results: &Vec<DayCosts>) -> (r: SpendHistory)
    ensures
        history_view(r@) == spend_history(results@),
        each_service_once(history_view(r@)),
{
    let dates: Vec<Option<i32>> = read_dates(results);
    lay_out(&dates, results)
}

// ---- what holds of a history -------------------------------------------

proof fn lemma_postings_of_day(day: int, groups: Seq<CostGroup>)
    ensures
        forall|p: int|
            0 <= p < postings_of_day(day, groups).len() ==> !(#[trigger] postings_of_day(
                day,
                groups,
            )[p]).amount.below(cent()),
    decreases groups.len(),
{
    if groups.len() > 0 {
        let before = postings_of_day(day, groups.drop_last());
        lemma_postings_of_day(day, groups.drop_last());
        assert forall|p: int| 0 <= p < postings_of_day(day, groups).len() implies !(
        #[trigger] postings_of_day(day, groups)[p]).amount.below(cent()) by {
            if p < before.len() {
                assert(postings_of_day(day, groups)[p] == before[p]);
            }
        }
    }
}

proof fn lemma_postings(dates: Seq<Option<int>>, results: Seq<DayCosts>)
    ensures
        forall|p: int|
            0 <= p < postings(dates, results).len() ==> !(#[trigger] postings(
                dates,
                results,
            )[p]).amount.below(cent()),
    decreases results.len(),
{
    if results.len() > 0 {
        let front = postings(dates, results.drop_last());
        let all = postings(dates, results);
        lemma_postings(dates, results.drop_last());
        match dates[results.len() - 1] {
            Some(day) => {
                let more = postings_of_day(day, results.last().groups@);
                lemma_postings_of_day(day, results.last().groups@);
                assert forall|p: int| 0 <= p < all.len() implies !(
                #[trigger] all[p]).amount.below(cent()) by {
                    if p < front.len() {
                        assert(all[p] == front[p]);
                    } else {
                        assert(all[p] == more[p - front.len()]);
                    }
                }
            },
            None => {},
        }
    }
}

proof fn lemma_cost_on(all: Seq<Posting>, service: Seq<char>, day: int)
    requires
        forall|p: int| 0 <= p < all.len() ==> !(#[trigger] all[p]).amount.below(cent()),
    ensures
        cost_on(all, service, day) == zero() || !cost_on(all, service, day).below(cent()),
    decreases all.len(),
{
    if all.len() > 0 {
        let front = all.drop_last();
        assert(!all[all.len() - 1].amount.below(cent()));
        assert forall|p: int| 0 <= p < front.len() implies !(#[trigger] front[p]).amount.below(
            cent(),
        ) by {
            assert(front[p] == all[p]);
        }
        lemma_cost_on(front, service, day);
    }
}

/// A history lists no service twice. Each service has one cost for each day,
/// which is either zero or not below one cent.
pub proof fn lemma_history(dates: Seq<Option<int>>, results: Seq<DayCosts>)
    ensures
        each_service_once(spend_table(dates, results)),
        forall|i: int|
            0 <= i < spend_table(dates, results).len() ==> (#[trigger] spend_table(
                dates,
                results,
            )[i]).costs.len() == days_of(dates).len(),
        forall|i: int, k: int|
            0 <= i < spend_table(dates, results).len() && 0 <= k < days_of(dates).len() ==> {
                let cost = #[trigger] spend_table(dates, results)[i].costs[k];
                cost == zero() || !cost.below(cent())
            },
{
    let all = postings(dates, results);
    let days = days_of(dates);
    lemma_services(all);
    lemma_postings(dates, results);
    assert forall|i: int, k: int|
        0 <= i < spend_table(dates, results).len() && 0 <= k < days.len() implies {
        let cost = #[trigger] spend_table(dates, results)[i].costs[k];
        cost == zero() || !cost.below(cent())
    } by {
        lemma_cost_on(all, services_of(all)[i], days[k]);
    }
}

/// Whether a group of the answer is a cost of a service on a day: it is among
/// the groups of a result of that day, it is about that service, and what it
/// comes to is that amount and no noise.
pub open spec fn tells(
    dates: Seq<Option<int>>,
    results: Seq<DayCosts>,
    r: int,
    g: int,
    service: Seq<char>,
    day: int,
    amount: Amount,
) -> bool {
    &&& 0 <= r < results.len()
    &&& 0 <= g < results[r].groups@.len()
    &&& dates[r] == Some(day)
    &&& service_of(results[r].groups@[g]) == service
    &&& amount_of_group(results[r].groups@[g]) == amount
    &&& !amount.below(cent())
}

/// Whether no group after this one is a cost of the service on the day.
pub open spec fn is_the_last_word(
    dates: Seq<Option<int>>,
    results: Seq<DayCosts>,
    r: int,
    g: int,
    service: Seq<char>,
    day: int,
) -> bool {
    forall|r2: int, g2: int, amount: Amount|
        r < r2 || (r == r2 && g < g2) ==> !#[trigger] tells(
            dates,
            results,
            r2,
            g2,
            service,
            day,
            amount,
        )
}

/// Each cost of a day comes from a group.
proof fn lemma_postings_come_from_groups(day: int, groups: Seq<CostGroup>, p: int)
    requires
        0 <= p < postings_of_day(day, groups).len(),
    ensures
        postings_of_day(day, groups)[p].day == day,
        exists|g: int|
            0 <= g < groups.len() && service_of(#[trigger] groups[g]) == postings_of_day(
                day,
                groups,
            )[p].service && amount_of_group(groups[g]) == postings_of_day(day, groups)[p].amount
                && !amount_of_group(groups[g]).below(cent()),
    decreases groups.len(),
{
    let all = postings_of_day(day, groups);
    let front = groups.drop_last();
    let before = postings_of_day(day, front);
    if p < before.len() {
        lemma_postings_come_from_groups(day, front, p);
        assert(all[p] == before[p]);
        let g = choose|g: int|
            0 <= g < front.len() && service_of(#[trigger] front[g]) == before[p].service
                && amount_of_group(front[g]) == before[p].amount && !amount_of_group(
                front[g],
            ).below(cent());
        assert(groups[g] == front[g]);
    } else {
        assert(groups[groups.len() - 1] == groups.last());
    }
}

proof fn lemma_later_costs_of_others(
    before: Seq<Posting>,
    more: Seq<Posting>,
    service: Seq<char>,
    day: int,
)
    requires
        forall|p: int|
            0 <= p < more.len() ==> !((#[trigger] more[p]).service == service && more[p].day == day),
    ensures
        cost_on(before + more, service, day) == cost_on(before, service, day),
    decreases more.len(),
{
    if more.len() == 0 {
        assert(before + more =~= before);
    } else {
        let front = more.drop_last();
        assert((before + more).drop_last() =~= before + front);
        assert(!(more[more.len() - 1].service == service && more[more.len() - 1].day == day));
        assert forall|p: int| 0 <= p < front.len() implies !((#[trigger] front[p]).service
            == service && front[p].day == day) by {
            assert(front[p] == more[p]);
        }
        lemma_later_costs_of_others(before, front, service, day);
    }
}

proof fn lemma_posted_on_its_day(before: Seq<Posting>, day: int, groups: Seq<CostGroup>, g: int)
    requires
        0 <= g < groups.len(),
        !amount_of_group(groups[g]).below(cent()),
        forall|g2: int|
            g < g2 < groups.len() && service_of(#[trigger] groups[g2]) == service_of(groups[g])
                ==> amount_of_group(groups[g2]).below(cent()),
    ensures
        cost_on(before + postings_of_day(day, groups), service_of(groups[g]), day)
            == amount_of_group(groups[g]),
    decreases groups.len(),
{
    let front = groups.drop_last();
    let all = before + postings_of_day(day, groups);
    let last = groups.last();
    if !amount_of_group(last).below(cent()) {
        assert(all.drop_last() =~= before + postings_of_day(day, front));
        assert(all.last() == postings_of_day(day, groups).last());
    }
    if g < front.len() {
        assert(front[g] == groups[g]);
        assert forall|g2: int|
            g < g2 < front.len() && service_of(#[trigger] front[g2]) == service_of(
                front[g],
            ) implies amount_of_group(front[g2]).below(cent()) by {
            assert(front[g2] == groups[g2]);
        }
        lemma_posted_on_its_day(before, day, front, g);
        assert(groups[groups.len() - 1] == last);
    }
}

proof fn lemma_posted(
    dates: Seq<Option<int>>,
    results: Seq<DayCosts>,
    r: int,
    g: int,
    service: Seq<char>,
    day: int,
    amount: Amount,
)
    requires
        tells(dates, results, r, g, service, day, amount),
        is_the_last_word(dates, results, r, g, service, day),
    ensures
        cost_on(postings(dates, results), service, day) == amount,
    decreases results.len(),
{
    let end: int = results.len() - 1;
    let front = results.drop_last();
    let before = postings(dates, front);
    let groups = results.last().groups@;
    if r == end {
        assert forall|g2: int|
            g < g2 < groups.len() && service_of(#[trigger] groups[g2]) == service_of(
                groups[g],
            ) implies amount_of_group(groups[g2]).below(cent()) by {
            assert(!tells(dates, results, r, g2, service, day, amount_of_group(groups[g2])));
        }
        lemma_posted_on_its_day(before, day, groups, g);
    } else {
        assert forall|r2: int, g2: int, a: Amount|
            r < r2 || (r == r2 && g < g2) implies !#[trigger] tells(
            dates,
            front,
            r2,
            g2,
            service,
            day,
            a,
        ) by {
            assert(!tells(dates, results, r2, g2, service, day, a));
        }
        lemma_posted(dates, front, r, g, service, day, amount);
        match dates[end] {
            Some(d) => {
                let more = postings_of_day(d, groups);
                assert forall|p: int| 0 <= p < more.len() implies !((#[trigger] more[p]).service
                    == service && more[p].day == day) by {
                    lemma_postings_come_from_groups(d, groups, p);
                    let g2 = choose|g2: int|
                        0 <= g2 < groups.len() && service_of(#[trigger] groups[g2])
                            == more[p].service && amount_of_group(groups[g2]) == more[p].amount
                            && !amount_of_group(groups[g2]).below(cent());
                    assert(!tells(dates, results, end, g2, service, day, more[p].amount));
                }
                lemma_later_costs_of_others(before, more, service, day);
            },
            None => {},
        }
    }
}

/// No cost is lost: what a group tells, however much it is, is in the history,
/// under its service and at the place of its day, unless a later group tells
/// otherwise.
pub proof fn lemma_no_cost_is_lost(
    dates: Seq<Option<int>>,
    results: Seq<DayCosts>,
    r: int,
    g: int,
    service: Seq<char>,
    day: int,
    amount: Amount,
)
    requires
        dates.len() == results.len(),
        tells(dates, results, r, g, service, day, amount),
        is_the_last_word(dates, results, r, g, service, day),
    ensures
        days_of(dates).contains(day),
        exists|i: int|
            0 <= i < spend_table(dates, results).len() && (#[trigger] spend_table(
                dates,
                results,
            )[i]).service == service,
        forall|i: int, k: int|
            0 <= i < spend_table(dates, results).len() && 0 <= k < days_of(dates).len()
                && spend_table(dates, results)[i].service == service && days_of(dates)[k] == day
                ==> #[trigger] spend_table(dates, results)[i].costs[k] == amount,
{
    let all = postings(dates, results);
    let listed = services_of(all);
    lemma_days(dates);
    assert(dates[r] == Some(day));
    lemma_posted(dates, results, r, g, service, day, amount);
    lemma_cent_is_positive();
    if !listed.contains(service) {
        lemma_no_cost(all, service, day);
    }
    let i = choose|i: int| 0 <= i < listed.len() && listed[i] == service;
    assert(spend_table(dates, results)[i].service == service);
}

proof fn lemma_cost_was_posted(all: Seq<Posting>, service: Seq<char>, day: int)
    requires
        cost_on(all, service, day) != zero(),
    ensures
        exists|p: int|
            0 <= p < all.len() && (#[trigger] all[p]).service == service && all[p].day == day
                && all[p].amount == cost_on(all, service, day),
    decreases all.len(),
{
    if all.last().service == service && all.last().day == day {
        assert(all[all.len() - 1] == all.last());
    } else {
        let front = all.drop_last();
        lemma_cost_was_posted(front, service, day);
        let p = choose|p: int|
            0 <= p < front.len() && (#[trigger] front[p]).service == service && front[p].day == day
                && front[p].amount == cost_on(front, service, day);
        assert(all[p] == front[p]);
    }
}

proof fn lemma_posting_was_told(dates: Seq<Option<int>>, results: Seq<DayCosts>, p: int)
    requires
        0 <= p < postings(dates, results).len(),
    ensures
        exists|r: int, g: int| #[trigger]
            tells(
                dates,
                results,
                r,
                g,
                postings(dates, results)[p].service,
                postings(dates, results)[p].day,
                postings(dates, results)[p].amount,
            ),
    decreases results.len(),
{
    let all = postings(dates, results);
    let front = results.drop_last();
    let before = postings(dates, front);
    let end: int = results.len() - 1;
    if p < before.len() {
        assert(all[p] == before[p]);
        lemma_posting_was_told(dates, front, p);
        let (r, g) = choose|r: int, g: int| #[trigger]
            tells(dates, front, r, g, before[p].service, before[p].day, before[p].amount);
        assert(tells(dates, results, r, g, all[p].service, all[p].day, all[p].amount));
    } else {
        let groups = results.last().groups@;
        let day = dates[end]->Some_0;
        let more = postings_of_day(day, groups);
        let q: int = p - before.len();
        assert(all[p] == more[q]);
        lemma_postings_come_from_groups(day, groups, q);
        let g = choose|g: int|
            0 <= g < groups.len() && service_of(#[trigger] groups[g]) == more[q].service
                && amount_of_group(groups[g]) == more[q].amount && !amount_of_group(
                groups[g],
            ).below(cent());
        assert(tells(dates, results, end, g, all[p].service, all[p].day, all[p].amount));
    }
}

/// No cost is made up: a service is listed only where some group tells a cost
/// of it, and where a day is not told of, the cost is zero.
pub proof fn lemma_no_cost_is_made_up(
    dates: Seq<Option<int>>,
    results: Seq<DayCosts>,
    i: int,
)
    requires
        0 <= i < spend_table(dates, results).len(),
    ensures
        exists|r: int, g: int, day: int, amount: Amount| #[trigger]
            tells(dates, results, r, g, spend_table(dates, results)[i].service, day, amount),
        forall|k: int|
            0 <= k < days_of(dates).len() && #[trigger] spend_table(dates, results)[i].costs[k]
                != zero() ==> exists|r: int, g: int| #[trigger]
                tells(
                    dates,
                    results,
                    r,
                    g,
                    spend_table(dates, results)[i].service,
                    days_of(dates)[k],
                    spend_table(dates, results)[i].costs[k],
                ),
{
    let all = postings(dates, results);
    let service = spend_table(dates, results)[i].service;
    lemma_services(all);
    assert(services_of(all)[i] == service);
    assert(services_of(all).contains(service));
    let p = choose|p: int| 0 <= p < all.len() && (#[trigger] all[p]).service == service;
    lemma_posting_was_told(dates, results, p);
    assert forall|k: int|
        0 <= k < days_of(dates).len() && #[trigger] spend_table(dates, results)[i].costs[k]
            != zero() implies exists|r: int, g: int| #[trigger]
        tells(
            dates,
            results,
            r,
            g,
            service,
            days_of(dates)[k],
            spend_table(dates, results)[i].costs[k],
        ) by {
        let day = days_of(dates)[k];
        lemma_cost_was_posted(all, service, day);
        let q = choose|q: int|
            0 <= q < all.len() && (#[trigger] all[q]).service == service && all[q].day == day
                && all[q].amount == cost_on(all, service, day);
        lemma_posting_was_told(dates, results, q);
    }
}

proof fn lemma_written_amount(metrics: Seq<CostMetric>, name: Seq<char>, m: int)
    requires
        0 <= m < metrics.len(),
        metrics[m].name@ == name,
        forall|k: int| 0 <= k < m ==> (#[trigger] metrics[k]).name@ != name,
    ensures
        written_amount(metrics, name) == (match metrics[m].amount {
            Some(amount) => Some(amount@),
            None => None,
        }),
    decreases metrics.len(),
{
    if m > 0 {
        let rest = metrics.drop_first();
        assert(metrics[0].name@ != name);
        assert forall|k: int| 0 <= k < m - 1 implies (#[trigger] rest[k]).name@ != name by {
            assert(rest[k] == metrics[k + 1]);
        }
        lemma_written_amount(rest, name, m - 1);
        assert(rest[m - 1] == metrics[m]);
    }
}

/// What is answered of a service on a day is in the history: the unblended cost
/// of the group, as it is written, under the group's first key, at the place of
/// the day that the result begins with, where it is a number not below one cent
/// and no later group is about the same service on the same day.
pub proof fn lemma_what_is_answered_is_listed(
    results: Seq<DayCosts>,
    r: int,
    g: int,
    m: int,
    day: int,
    amount: Amount,
)
    requires
        0 <= r < results.len(),
        results[r].start matches Some(start) && parsed_day(start@) == Some(day),
        0 <= g < results[r].groups@.len(),
        results[r].groups@[g].keys@.len() > 0,
        ({
            let metrics = results[r].groups@[g].metrics@;
            &&& 0 <= m < metrics.len()
            &&& metrics[m].name@ == "UnblendedCost"@
            &&& forall|k: int|
                0 <= k < m ==> (#[trigger] metrics[k]).name@ != "UnblendedCost"@
            &&& metrics[m].amount matches Some(written) && read_number(written@) == Some(amount)
        }),
        !amount.below(cent()),
        is_the_last_word(
            dates_of(results),
            results,
            r,
            g,
            results[r].groups@[g].keys@[0]@,
            day,
        ),
    ensures
        exists|i: int, k: int|
            0 <= i < spend_history(results).len() && 0 <= k < days_of(dates_of(results)).len() && (
            #[trigger] spend_history(results)[i]).service == results[r].groups@[g].keys@[0]@
                && #[trigger] days_of(dates_of(results))[k] == day && spend_history(
                results,
            )[i].costs[k] == amount,
{
    let dates = dates_of(results);
    let group = results[r].groups@[g];
    let service = group.keys@[0]@;
    lemma_written_amount(group.metrics@, METRIC@, m);
    assert(tells(dates, results, r, g, service, day, amount));
    lemma_no_cost_is_lost(dates, results, r, g, service, day, amount);
    let i = choose|i: int|
        0 <= i < spend_table(dates, results).len() && (#[trigger] spend_table(
            dates,
            results,
        )[i]).service == service;
    let k = choose|k: int|
        0 <= k < days_of(dates).len() && days_of(dates)[k] == day;
    assert(spend_history(results)[i].service == service);
    assert(spend_table(dates, results)[i].costs[k] == amount);
}

/// A group without a key is counted as unknown, and one without the metric, or
/// without an amount that is a number, as nothing.
pub proof fn lemma_incomplete_groups(group: CostGroup)
    ensures
        group.keys@.len() == 0 ==> service_of(group) == "Unknown"@,
        (forall|k: int|
            0 <= k < group.metrics@.len() ==> (#[trigger] group.metrics@[k]).name@
                != "UnblendedCost"@) ==> amount_of_group(group) == zero(),
        forall|m: int|
            0 <= m < group.metrics@.len() && (#[trigger] group.metrics@[m]).name@
                == "UnblendedCost"@ && (forall|k: int|
                0 <= k < m ==> (#[trigger] group.metrics@[k]).name@ != "UnblendedCost"@) && (
            match group.metrics@[m].amount {
                Some(written) => read_number(written@) is None,
                None => true,
            }) ==> amount_of_group(group) == zero(),
{
    if forall|k: int|
        0 <= k < group.metrics@.len() ==> (#[trigger] group.metrics@[k]).name@ != METRIC@ {
        lemma_not_written(group.metrics@, METRIC@);
    }
    assert forall|m: int|
        0 <= m < group.metrics@.len() && (#[trigger] group.metrics@[m]).name@ == METRIC@ && (
        forall|k: int| 0 <= k < m ==> (#[trigger] group.metrics@[k]).name@ != METRIC@) && (
        match group.metrics@[m].amount {
            Some(written) => read_number(written@) is None,
            None => true,
        }) implies amount_of_group(group) == zero() by {
        lemma_written_amount(group.metrics@, METRIC@, m);
    }
}

proof fn lemma_not_written(metrics: Seq<CostMetric>, name: Seq<char>)
    requires
        forall|k: int| 0 <= k < metrics.len() ==> (#[trigger] metrics[k]).name@ != name,
    ensures
        written_amount(metrics, name) is None,
    decreases metrics.len(),
{
    if metrics.len() > 0 {
        let rest = metrics.drop_first();
        assert(metrics[0].name@ != name);
        assert forall|k: int| 0 <= k < rest.len() implies (#[trigger] rest[k]).name@ != name by {
            assert(rest[k] == metrics[k + 1]);
        }
        lemma_not_written(rest, name);
    }
}

} // verus!
