//! Finding the services that cost more today than they used to.

use crate::cost_explorer::{history_view, ServiceSpend, SpendHistory, SpendView};
use crate::number::arithmetic::{lemma_round_zero, number_of, one};
use crate::number::order::{
    lemma_difference_keeps_order, lemma_hundredfold_keeps_order, lemma_quotient_keeps_order,
};
use crate::number::sums::{lemma_mean_of_positive, mean, mean_of, total};
use crate::number::{
    cent, hundred, lemma_magnitudes_grow, lemma_order_of_encodings, lemma_place_follows_order,
    magnitude_units, unbounded, zero, Amount,
};
use crate::ranking::{descending, find_slot, is_descending, lemma_descending, ranks_of};
use vstd::arithmetic::power2::lemma_pow2_pos;
use vstd::prelude::*;

verus! {

/// A spike in the cost of one service.
#[derive(Debug)]
pub struct Spike {
    pub service: String,
    /// Average daily cost over the days that are looked at.
    pub avg_daily: Amount,
    /// Today's cost so far.
    pub today: Amount,
    /// How much more than the average that is, in percent of the average.
    pub pct_increase: Amount,
    /// How much more than the average that is, in dollars.
    pub extra_usd: Amount,
}

/// A spike, in the abstract.
pub struct SpikeView {
    pub service: Seq<char>,
    pub avg_daily: Amount,
    pub today: Amount,
    pub pct_increase: Amount,
    pub extra_usd: Amount,
}

impl View for Spike {
    type V = SpikeView;

    open spec fn view(&self) -> SpikeView {
        SpikeView {
            service: self.service@,
            avg_daily: self.avg_daily,
            today: self.today,
            pct_increase: self.pct_increase,
            extra_usd: self.extra_usd,
        }
    }
}

impl Clone for Spike {
    fn clone(&self) -> (r: Spike)
        ensures
            r@ == self@,
    {
        Spike {
            service: self.service.clone(),
            avg_daily: self.avg_daily,
            today: self.today,
            pct_increase: self.pct_increase,
            extra_usd: self.extra_usd,
        }
    }
}

pub open spec fn spikes_view(spikes: Seq<Spike>) -> Seq<SpikeView> {
    Seq::new(spikes.len(), |i: int| spikes[i]@)
}

// ---- what a spike is ---------------------------------------------------

/// The days that today is held against: those before today, the latest first,
/// at most so many of them.
pub open spec fn window(costs: Seq<Amount>, history_days: nat) -> Seq<Amount> {
    let past = costs.drop_last();
    let count: nat = if history_days < past.len() {
        history_days
    } else {
        past.len()
    };
    Seq::new(count, |i: int| past[past.len() - 1 - i])
}

/// The costs above one cent. On the other days the service was not in use.
pub open spec fn days_in_use(costs: Seq<Amount>) -> Seq<Amount>
    decreases costs.len(),
{
    if costs.len() == 0 {
        costs
    } else if cent().below(costs.last()) {
        days_in_use(costs.drop_last()).push(costs.last())
    } else {
        days_in_use(costs.drop_last())
    }
}

/// How far an amount lies above the average, in percent of the average.
pub open spec fn growth(today: Amount, average: Amount) -> Amount {
    today.difference(average).quotient(average).product(hundred())
}

/// Rounded to two decimals.
pub open spec fn to_cents(amount: Amount) -> Amount {
    amount.product(hundred()).whole().quotient(hundred())
}

/// A service that was not in use on any of the days before: any cost today is
/// a spike.
pub open spec fn new_service(service: Seq<char>, today: Amount) -> Option<SpikeView> {
    if zero().below(today) {
        Some(
            SpikeView {
                service,
                avg_daily: zero(),
                today,
                pct_increase: unbounded(),
                extra_usd: today,
            },
        )
    } else {
        None
    }
}

/// A service with an average: a spike is growth of more than the threshold,
/// unless the average is below the noise level.
pub open spec fn known_service(
    service: Seq<char>,
    today: Amount,
    average: Amount,
    threshold_pct: Amount,
    min_avg_daily: Amount,
) -> Option<SpikeView> {
    if !average.below(min_avg_daily) && threshold_pct.below(growth(today, average)) {
        Some(
            SpikeView {
                service,
                avg_daily: to_cents(average),
                today: to_cents(today),
                pct_increase: to_cents(growth(today, average)),
                extra_usd: to_cents(today.difference(average)),
            },
        )
    } else {
        None
    }
}

/// The spike of a service, where its costs show one. Costs of fewer than two
/// days show none.
pub open spec fn spike_of(
    spend: SpendView,
    threshold_pct: Amount,
    history_days: nat,
    min_avg_daily: Amount,
) -> Option<SpikeView> {
    let past = window(spend.costs, history_days);
    let used = days_in_use(past);
    if spend.costs.len() < 2 || past.len() == 0 {
        None
    } else if used.len() == 0 {
        new_service(spend.service, spend.costs.last())
    } else {
        known_service(
            spend.service,
            spend.costs.last(),
            mean(used),
            threshold_pct,
            min_avg_daily,
        )
    }
}

/// The spikes of all services, as the services come.
pub open spec fn spikes_of(
    history: Seq<SpendView>,
    threshold_pct: Amount,
    history_days: nat,
    min_avg_daily: Amount,
) -> Seq<SpikeView>
    decreases history.len(),
{
    if history.len() == 0 {
        Seq::<SpikeView>::empty()
    } else {
        let before = spikes_of(history.drop_last(), threshold_pct, history_days, min_avg_daily);
        match spike_of(history.last(), threshold_pct, history_days, min_avg_daily) {
            Some(spike) => before.push(spike),
            None => before,
        }
    }
}

/// The rank of a spike: what it costs beyond the average.
pub open spec fn by_extra() -> spec_fn(SpikeView) -> int {
    |spike: SpikeView| spike.extra_usd.place()
}

/// The spikes of all services, the costliest first.
pub open spec fn ranked_spikes(
    history: Seq<SpendView>,
    threshold_pct: Amount,
    history_days: nat,
    min_avg_daily: Amount,
) -> Seq<SpikeView> {
    descending(spikes_of(history, threshold_pct, history_days, min_avg_daily), by_extra())
}

// ---- finding them ------------------------------------------------------

fn take_window(costs: &Vec<Amount>, history_days: u32) -> (r: Vec<Amount>)
    requires
        costs@.len() > 0,
    ensures
        r@ == window(costs@, history_days as nat),
{
    let past: usize = costs.len() - 1;
    let count: usize = if (history_days as u64) < past as u64 {
        history_days as usize
    } else {
        past
    };
    let mut out: Vec<Amount> = Vec::new();
    let mut i: usize = 0;
    assert(window(costs@, history_days as nat).take(0) =~= out@);
    while i < count
        invariant
            past == costs@.len() - 1,
            i <= count <= past,
            count == window(costs@, history_days as nat).len(),
            out@ == window(costs@, history_days as nat).take(i as int),
        decreases count - i,
    {
        out.push(costs[past - 1 - i]);
        assert(window(costs@, history_days as nat).take(i + 1) =~= window(
            costs@,
            history_days as nat,
        ).take(i as int).push(costs@[past - 1 - i]));
        i = i + 1;
    }
    assert(window(costs@, history_days as nat).take(count as int) =~= window(
        costs@,
        history_days as nat,
    ));
    out
}

fn keep_in_use(costs: &Vec<Amount>) -> (r: Vec<Amount>)
    ensures
        r@ == days_in_use(costs@),
{
    let mut out: Vec<Amount> = Vec::new();
    let mut i: usize = 0;
    assert(out@ =~= days_in_use(costs@.take(0)));
    while i < costs.len()
        invariant
            i <= costs@.len(),
            out@ == days_in_use(costs@.take(i as int)),
        decreases costs@.len() - i,
    {
        assert(costs@.take(i + 1).drop_last() =~= costs@.take(i as int));
        if cent().is_below(costs[i]) {
            out.push(costs[i]);
        }
        i = i + 1;
    }
    assert(costs@.take(costs@.len() as int) =~= costs@);
    out
}

fn round2(v: Amount) -> (r: Amount)
    ensures
        r == to_cents(v),
{
    v.times(hundred()).to_whole().over(hundred())
}

fn examine(
    spend: &ServiceSpend,
    threshold_pct: Amount,
    history_days: u32,
    min_avg_daily: Amount,
) -> (r: Option<Spike>)
    ensures
        match r {
            Some(spike) => spike_of(spend@, threshold_pct, history_days as nat, min_avg_daily)
                == Some(spike@),
            None => spike_of(spend@, threshold_pct, history_days as nat, min_avg_daily) is None,
        },
{
    if spend.costs.len() < 2 {
        return None;
    }
    let today: Amount = spend.costs[spend.costs.len() - 1];
    let past: Vec<Amount> = take_window(&spend.costs, history_days);
    if past.len() == 0 {
        return None;
    }
    let used: Vec<Amount> = keep_in_use(&past);
    if used.len() == 0 {
        if zero().is_below(today) {
            return Some(
                Spike {
                    service: spend.service.clone(),
                    avg_daily: zero(),
                    today,
                    pct_increase: unbounded(),
                    extra_usd: today,
                },
            );
        }
        return None;
    }
    let average: Amount = mean_of(&used);
    if average.is_below(min_avg_daily) {
        return None;
    }
    let extra: Amount = today.minus(average);
    let increase: Amount = extra.over(average).times(hundred());
    if threshold_pct.is_below(increase) {
        Some(
            Spike {
                service: spend.service.clone(),
                avg_daily: round2(average),
                today: round2(today),
                pct_increase: round2(increase),
                extra_usd: round2(extra),
            },
        )
    } else {
        None
    }
}

/// The services whose cost today exceeds their average by more than
/// `threshold_pct` percent, the costliest first.
///
/// The average is taken over at most `history_days` days before today, without
/// the days on which the service was not in use. Services with an average
/// below `min_avg_daily` are left out. A service that was not in use on any of
/// those days is flagged for any cost.
pub fn detect_spikes(
    history: &SpendHistory,
    threshold_pct: Amount,
    history_days: u32,
    min_avg_daily: Amount,
) -> (r: Vec<Spike>)
    ensures
        spikes_view(r@) == ranked_spikes(
            history_view(history@),
            threshold_pct,
            history_days as nat,
            min_avg_daily,
        ),
{
    let ghost all = history_view(history@);
    let ghost days: nat = history_days as nat;
    let mut spikes: Vec<Spike> = Vec::new();
    let mut ranks: Vec<i64> = Vec::new();
    let mut i: usize = 0;
    assert(spikes_view(spikes@) =~= ranked_spikes(
        all.take(0),
        threshold_pct,
        days,
        min_avg_daily,
    ));
    while i < history.len()
        invariant
            i <= history@.len(),
            all == history_view(history@),
            days == history_days,
            spikes_view(spikes@) == ranked_spikes(
                all.take(i as int),
                threshold_pct,
                days,
                min_avg_daily,
            ),
            ranks@.len() == spikes@.len(),
            forall|k: int| 0 <= k < ranks@.len() ==> #[trigger] ranks@[k]
                == spikes@[k].extra_usd.place(),
        decreases history@.len() - i,
    {
        assert(all.take(i + 1).drop_last() =~= all.take(i as int));
        let ghost before = spikes_of(all.take(i as int), threshold_pct, days, min_avg_daily);
        match examine(&history[i], threshold_pct, history_days, min_avg_daily) {
            Some(spike) => {
                let rank: i64 = spike.extra_usd.sort_place();
                let at: usize = find_slot(&ranks, rank);
                proof {
                    let after = spikes_of(all.take(i + 1), threshold_pct, days, min_avg_daily);
                    assert(after == before.push(spike@));
                    assert(after.drop_last() =~= before);
                    assert(Seq::new(ranks@.len(), |i: int| ranks@[i] as int) =~= ranks_of(
                        spikes_view(spikes@),
                        by_extra(),
                    ));
                    assert(spikes_view(spikes@.insert(at as int, spike)) =~= spikes_view(
                        spikes@,
                    ).insert(at as int, spike@));
                }
                ranks.insert(at, rank);
                spikes.insert(at, spike);
            },
            None => {},
        }
        i = i + 1;
    }
    assert(all.take(history@.len() as int) =~= all);
    spikes
}

// ---- what holds of spikes ----------------------------------------------

/// The spikes come in descending order of what they cost beyond the average.
pub proof fn lemma_spikes_are_ranked(
    history: Seq<SpendView>,
    threshold_pct: Amount,
    history_days: nat,
    min_avg_daily: Amount,
)
    ensures
        is_descending(
            ranked_spikes(history, threshold_pct, history_days, min_avg_daily),
            by_extra(),
        ),
{
    lemma_descending(
        spikes_of(history, threshold_pct, history_days, min_avg_daily),
        by_extra(),
    );
}

/// Each service is looked at on its own: the spikes are those of the single
/// services, whatever the others cost.
pub proof fn lemma_services_are_independent(
    history: Seq<SpendView>,
    threshold_pct: Amount,
    history_days: nat,
    min_avg_daily: Amount,
    spike: SpikeView,
)
    ensures
        ranked_spikes(history, threshold_pct, history_days, min_avg_daily).contains(spike)
            <==> exists|i: int|
            0 <= i < history.len() && spike_of(
                #[trigger] history[i],
                threshold_pct,
                history_days,
                min_avg_daily,
            ) == Some(spike),
{
    let found = spikes_of(history, threshold_pct, history_days, min_avg_daily);
    let ranked = ranked_spikes(history, threshold_pct, history_days, min_avg_daily);
    lemma_descending(found, by_extra());
    vstd::seq_lib::to_multiset_contains(ranked, spike);
    vstd::seq_lib::to_multiset_contains(found, spike);
    lemma_spikes_of(history, threshold_pct, history_days, min_avg_daily, spike);
}

proof fn lemma_spikes_of(
    history: Seq<SpendView>,
    threshold_pct: Amount,
    history_days: nat,
    min_avg_daily: Amount,
    spike: SpikeView,
)
    ensures
        spikes_of(history, threshold_pct, history_days, min_avg_daily).contains(spike)
            <==> exists|i: int|
            0 <= i < history.len() && spike_of(
                #[trigger] history[i],
                threshold_pct,
                history_days,
                min_avg_daily,
            ) == Some(spike),
    decreases history.len(),
{
    let found = spikes_of(history, threshold_pct, history_days, min_avg_daily);
    if history.len() > 0 {
        let front = history.drop_last();
        let before = spikes_of(front, threshold_pct, history_days, min_avg_daily);
        lemma_spikes_of(front, threshold_pct, history_days, min_avg_daily, spike);
        if found.contains(spike) {
            let k = choose|k: int| 0 <= k < found.len() && found[k] == spike;
            if k < before.len() {
                assert(before[k] == spike);
                let i = choose|i: int|
                    0 <= i < front.len() && spike_of(
                        #[trigger] front[i],
                        threshold_pct,
                        history_days,
                        min_avg_daily,
                    ) == Some(spike);
                assert(history[i] == front[i]);
            } else {
                assert(history[history.len() - 1] == history.last());
            }
        }
        if exists|i: int|
            0 <= i < history.len() && spike_of(
                #[trigger] history[i],
                threshold_pct,
                history_days,
                min_avg_daily,
            ) == Some(spike) {
            let i = choose|i: int|
                0 <= i < history.len() && spike_of(
                    #[trigger] history[i],
                    threshold_pct,
                    history_days,
                    min_avg_daily,
                ) == Some(spike);
            if i < front.len() {
                assert(front[i] == history[i]);
                let k = choose|k: int| 0 <= k < before.len() && before[k] == spike;
                assert(found[k] == spike);
            } else {
                assert(found[before.len() as int] == spike);
            }
        }
    }
}

/// A lower threshold loses no spike.
pub proof fn lemma_lower_threshold(
    spend: SpendView,
    threshold_pct: Amount,
    lower: Amount,
    history_days: nat,
    min_avg_daily: Amount,
)
    requires
        lower.at_most(threshold_pct),
        spike_of(spend, threshold_pct, history_days, min_avg_daily) is Some,
    ensures
        spike_of(spend, lower, history_days, min_avg_daily) == spike_of(
            spend,
            threshold_pct,
            history_days,
            min_avg_daily,
        ),
{
}

/// Growth of exactly the threshold, or less, is no spike.
pub proof fn lemma_threshold_itself_is_no_spike(
    spend: SpendView,
    threshold_pct: Amount,
    history_days: nat,
    min_avg_daily: Amount,
)
    requires
        days_in_use(window(spend.costs, history_days)).len() > 0,
        growth(
            spend.costs.last(),
            mean(days_in_use(window(spend.costs, history_days))),
        ).at_most(threshold_pct),
    ensures
        spike_of(spend, threshold_pct, history_days, min_avg_daily) is None,
{
}

/// A service whose average is below the noise level is never flagged, whatever
/// it costs today.
pub proof fn lemma_noise_is_ignored(
    spend: SpendView,
    threshold_pct: Amount,
    history_days: nat,
    min_avg_daily: Amount,
)
    requires
        days_in_use(window(spend.costs, history_days)).len() > 0,
        mean(days_in_use(window(spend.costs, history_days))).below(min_avg_daily),
    ensures
        spike_of(spend, threshold_pct, history_days, min_avg_daily) is None,
{
}

/// A service that was in use on none of the days before is flagged for any
/// cost at all, whatever the threshold and the noise level.
pub proof fn lemma_new_service_is_flagged(
    spend: SpendView,
    threshold_pct: Amount,
    history_days: nat,
    min_avg_daily: Amount,
)
    requires
        spend.costs.len() >= 2,
        history_days > 0,
        days_in_use(window(spend.costs, history_days)).len() == 0,
        zero().below(spend.costs.last()),
    ensures
        spike_of(spend, threshold_pct, history_days, min_avg_daily) == Some(
            SpikeView {
                service: spend.service,
                avg_daily: zero(),
                today: spend.costs.last(),
                pct_increase: unbounded(),
                extra_usd: spend.costs.last(),
            },
        ),
{
}

proof fn lemma_in_use_are_picked(costs: Seq<Amount>)
    ensures
        days_in_use(costs) == costs.filter(|cost: Amount| cent().below(cost)),
    decreases costs.len(),
{
    reveal(Seq::filter);
    if costs.len() > 0 {
        lemma_in_use_are_picked(costs.drop_last());
    }
}

/// When a service is flagged, exactly, and with which figures.
///
/// The days before today count, the latest of them, at most `history_days`,
/// and of those the ones above one cent. Their average is the total of their
/// costs over their number. The service is flagged exactly where that average
/// is not below the noise level and today lies above it by more than the
/// threshold, in percent of the average: on whatever else the days cost it does
/// not rest. Where none of the days counts, it is flagged for any cost today.
pub proof fn lemma_flagged_exactly(
    spend: SpendView,
    threshold_pct: Amount,
    history_days: nat,
    min_avg_daily: Amount,
)
    requires
        spend.costs.len() >= 2,
        history_days > 0,
    ensures
        ({
            let days: int = spend.costs.len() as int;
            let today = spend.costs[days - 1];
            let count: nat = if history_days < days - 1 {
                history_days
            } else {
                (days - 1) as nat
            };
            let used = Seq::new(count, |i: int| spend.costs[days - 2 - i]).filter(
                |cost: Amount| cent().below(cost),
            );
            let average = total(used).quotient(number_of(used.len()));
            let increase = today.difference(average).quotient(average).product(hundred());
            let found = spike_of(spend, threshold_pct, history_days, min_avg_daily);
            &&& used.len() > 0 ==> (found is Some <==> !average.below(min_avg_daily)
                && threshold_pct.below(increase))
            &&& used.len() == 0 ==> (found is Some <==> zero().below(today))
            &&& found matches Some(spike) ==> spike.service == spend.service
            &&& found matches Some(spike) ==> (used.len() > 0 ==> {
                &&& spike.avg_daily == average.product(hundred()).whole().quotient(hundred())
                &&& spike.today == today.product(hundred()).whole().quotient(hundred())
                &&& spike.pct_increase == increase.product(hundred()).whole().quotient(hundred())
                &&& spike.extra_usd == today.difference(average).product(
                    hundred(),
                ).whole().quotient(hundred())
            })
            &&& found matches Some(spike) ==> (used.len() == 0 ==> {
                &&& spike.avg_daily == zero()
                &&& spike.today == today
                &&& spike.pct_increase == unbounded()
                &&& spike.extra_usd == today
            })
        }),
{
    let days: int = spend.costs.len() as int;
    let count: nat = if history_days < days - 1 {
        history_days
    } else {
        (days - 1) as nat
    };
    let recent = Seq::new(count, |i: int| spend.costs[days - 2 - i]);
    assert(recent =~= window(spend.costs, history_days));
    lemma_in_use_are_picked(recent);
}

/// Costs of fewer than two days show no spike, and with no days to take an
/// average over there is none either.
pub proof fn lemma_nothing_to_hold_against(
    spend: SpendView,
    threshold_pct: Amount,
    history_days: nat,
    min_avg_daily: Amount,
)
    requires
        spend.costs.len() < 2 || history_days == 0,
    ensures
        spike_of(spend, threshold_pct, history_days, min_avg_daily) is None,
{
}

/// What lies further back than `history_days` makes no difference.
pub proof fn lemma_older_days_make_no_difference(
    spend: SpendView,
    older: Seq<Amount>,
    threshold_pct: Amount,
    history_days: nat,
    min_avg_daily: Amount,
)
    requires
        spend.costs.len() > history_days,
        spend.costs.len() >= 2,
    ensures
        spike_of(
            SpendView { service: spend.service, costs: older + spend.costs },
            threshold_pct,
            history_days,
            min_avg_daily,
        ) == spike_of(spend, threshold_pct, history_days, min_avg_daily),
{
    let longer = older + spend.costs;
    assert(longer.last() == spend.costs.last());
    assert(window(longer, history_days) =~= window(spend.costs, history_days));
}

/// A service by any other name is flagged alike.
pub proof fn lemma_names_make_no_difference(
    spend: SpendView,
    name: Seq<char>,
    threshold_pct: Amount,
    history_days: nat,
    min_avg_daily: Amount,
)
    ensures
        spike_of(
            SpendView { service: name, costs: spend.costs },
            threshold_pct,
            history_days,
            min_avg_daily,
        ) == (match spike_of(spend, threshold_pct, history_days, min_avg_daily) {
            Some(spike) => Some(SpikeView { service: name, ..spike }),
            None => None,
        }),
{
}

/// No spike comes before one that costs more beyond the average.
pub proof fn lemma_costliest_first(
    history: Seq<SpendView>,
    threshold_pct: Amount,
    history_days: nat,
    min_avg_daily: Amount,
    i: int,
    j: int,
)
    requires
        0 <= i < j < ranked_spikes(history, threshold_pct, history_days, min_avg_daily).len(),
    ensures
        ({
            let ranked = ranked_spikes(history, threshold_pct, history_days, min_avg_daily);
            !ranked[i].extra_usd.below(ranked[j].extra_usd)
        }),
{
    let ranked = ranked_spikes(history, threshold_pct, history_days, min_avg_daily);
    lemma_spikes_are_ranked(history, threshold_pct, history_days, min_avg_daily);
    assert(by_extra()(ranked[i]) >= by_extra()(ranked[j]));
    if ranked[i].extra_usd.below(ranked[j].extra_usd) {
        lemma_place_follows_order(ranked[i].extra_usd, ranked[j].extra_usd);
    }
}

/// Every service that shows a spike is listed, once for each time it is in the
/// history, and nothing else is.
pub proof fn lemma_as_many_spikes_as_services(
    history: Seq<SpendView>,
    threshold_pct: Amount,
    history_days: nat,
    min_avg_daily: Amount,
)
    ensures
        ranked_spikes(history, threshold_pct, history_days, min_avg_daily).to_multiset()
            == history.filter(
            |spend: SpendView|
                spike_of(spend, threshold_pct, history_days, min_avg_daily) is Some,
        ).map_values(
            |spend: SpendView|
                spike_of(spend, threshold_pct, history_days, min_avg_daily)->Some_0,
        ).to_multiset(),
        ranked_spikes(history, threshold_pct, history_days, min_avg_daily).len() == history.filter(
            |spend: SpendView|
                spike_of(spend, threshold_pct, history_days, min_avg_daily) is Some,
        ).len(),
{
    let found = spikes_of(history, threshold_pct, history_days, min_avg_daily);
    lemma_descending(found, by_extra());
    lemma_spikes_are_picked(history, threshold_pct, history_days, min_avg_daily);
}

proof fn lemma_spikes_are_picked(
    history: Seq<SpendView>,
    threshold_pct: Amount,
    history_days: nat,
    min_avg_daily: Amount,
)
    ensures
        spikes_of(history, threshold_pct, history_days, min_avg_daily) == history.filter(
            |spend: SpendView|
                spike_of(spend, threshold_pct, history_days, min_avg_daily) is Some,
        ).map_values(
            |spend: SpendView|
                spike_of(spend, threshold_pct, history_days, min_avg_daily)->Some_0,
        ),
    decreases history.len(),
{
    let pick = |spend: SpendView|
        spike_of(spend, threshold_pct, history_days, min_avg_daily) is Some;
    let spike = |spend: SpendView|
        spike_of(spend, threshold_pct, history_days, min_avg_daily)->Some_0;
    reveal(Seq::filter);
    if history.len() == 0 {
        assert(history.filter(pick).map_values(spike) =~= Seq::<SpikeView>::empty());
    } else {
        let front = history.drop_last();
        lemma_spikes_are_picked(front, threshold_pct, history_days, min_avg_daily);
        if pick(history.last()) {
            assert(history.filter(pick).map_values(spike) =~= front.filter(pick).map_values(
                spike,
            ).push(spike(history.last())));
        }
    }
}

proof fn lemma_days_in_use(costs: Seq<Amount>)
    ensures
        days_in_use(costs).len() <= costs.len(),
        forall|i: int|
            0 <= i < days_in_use(costs).len() ==> cent().below(#[trigger] days_in_use(costs)[i]),
    decreases costs.len(),
{
    if costs.len() > 0 {
        lemma_days_in_use(costs.drop_last());
    }
}

proof fn lemma_growth_keeps_order(a: Amount, b: Amount, average: Amount)
    requires
        a.at_most(b),
        zero().below(average),
        average.finite(),
    ensures
        growth(a, average).at_most(growth(b, average)),
{
    lemma_difference_keeps_order(a, b, average);
    lemma_quotient_keeps_order(a.difference(average), b.difference(average), average);
    lemma_hundredfold_keeps_order(
        a.difference(average).quotient(average),
        b.difference(average).quotient(average),
    );
}

/// What is no more than an infinite average does not grow by any number.
proof fn lemma_growth_over_infinity(today: Amount, average: Amount)
    requires
        zero().below(average),
        average.infinite(),
    ensures
        growth(today, average).not_a_number(),
{
}

/// The average itself has not grown.
proof fn lemma_average_has_not_grown(average: Amount)
    requires
        zero().below(average),
        average.finite(),
    ensures
        growth(average, average).units() == 0,
{
    let d: int = magnitude_units(average.magnitude());
    assert(magnitude_units(0) == 0);
    lemma_order_of_encodings(zero(), average);
    lemma_magnitudes_grow(0, average.magnitude());
    lemma_round_zero(d);
    lemma_pow2_pos(1074);
    lemma_round_zero(one());
    assert(0 * one() == 0);
    assert(0 * magnitude_units(hundred().magnitude()) == 0);
}

/// With a threshold that is not negative, a service with an average is flagged
/// only where it costs more today than on average.
pub proof fn lemma_spike_is_above_average(
    spend: SpendView,
    threshold_pct: Amount,
    history_days: u32,
    min_avg_daily: Amount,
)
    requires
        zero().at_most(threshold_pct),
        days_in_use(window(spend.costs, history_days as nat)).len() > 0,
        spike_of(spend, threshold_pct, history_days as nat, min_avg_daily) is Some,
    ensures
        mean(days_in_use(window(spend.costs, history_days as nat))).below(spend.costs.last()),
{
    let used = days_in_use(window(spend.costs, history_days as nat));
    let average = mean(used);
    let today = spend.costs.last();
    lemma_days_in_use(window(spend.costs, history_days as nat));
    lemma_mean_of_positive(used);
    if average.infinite() {
        lemma_growth_over_infinity(today, average);
    } else if today.at_most(average) {
        lemma_growth_keeps_order(today, average, average);
        lemma_average_has_not_grown(average);
    }
}

/// A service that is flagged stays flagged when today's cost rises.
pub proof fn lemma_higher_cost_is_still_a_spike(
    spend: SpendView,
    higher: Amount,
    threshold_pct: Amount,
    history_days: u32,
    min_avg_daily: Amount,
)
    requires
        spend.costs.len() >= 2,
        spend.costs.last().at_most(higher),
        spike_of(spend, threshold_pct, history_days as nat, min_avg_daily) is Some,
    ensures
        spike_of(
            SpendView {
                service: spend.service,
                costs: spend.costs.drop_last().push(higher),
            },
            threshold_pct,
            history_days as nat,
            min_avg_daily,
        ) is Some,
{
    let costs = spend.costs.drop_last().push(higher);
    assert(costs.drop_last() =~= spend.costs.drop_last());
    assert(window(costs, history_days as nat) =~= window(spend.costs, history_days as nat));
    let used = days_in_use(window(spend.costs, history_days as nat));
    let today = spend.costs.last();
    if used.len() > 0 {
        let average = mean(used);
        lemma_days_in_use(window(spend.costs, history_days as nat));
        lemma_mean_of_positive(used);
        if average.infinite() {
            lemma_growth_over_infinity(today, average);
        } else {
            lemma_growth_keeps_order(today, higher, average);
        }
    }
}

} // verus!
