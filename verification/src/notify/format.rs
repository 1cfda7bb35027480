//! What the messages of the channels have in common.

use crate::anomaly::{spikes_view, Spike, SpikeView};
use crate::cost_explorer::{history_view, SpendHistory, SpendView};
use crate::number::print::{no_decimals, two_decimals, write_cents, write_whole};
use crate::number::sums::{mean, mean_of, nothing, total};
use crate::number::arithmetic::number_of;
use crate::number::{lemma_place_follows_order, zero, Amount};
use crate::ranking::{descending, find_slot, is_descending, lemma_descending, ranks_of};
use crate::text::{
    characters, decimal, in_order, lemma_in_order_in_front, lemma_occurs_behind,
    lemma_occurs_in_front, lemma_occurs_in_itself, lemma_one_after_the_other, occurs,
    write_decimal,
};
use vstd::prelude::*;

verus! {

// ---- percentages -------------------------------------------------------

/// An increase as it is shown: in whole percent, or as something new.
pub open spec fn pct_text(pct: Amount) -> Seq<char> {
    if pct.infinite() {
        "NEW"@
    } else {
        "+"@ + no_decimals(pct) + "%"@
    }
}

pub fn fmt_pct(pct: Amount) -> (r: String)
    ensures
        r@ == pct_text(pct),
{
    if pct.is_infinite() {
        "NEW".to_string()
    } else {
        let mut out: String = "+".to_string();
        out.append(write_whole(pct).as_str());
        out.append("%");
        out
    }
}

/// What is new is shown as such, and else the increase in whole percent, behind
/// a plus sign.
pub proof fn lemma_increases_are_shown(pct: Amount)
    ensures
        pct.infinite() ==> pct_text(pct) == "NEW"@,
        !pct.infinite() ==> pct_text(pct) == "+"@ + no_decimals(pct) + "%"@,
{
}

// ---- HTML --------------------------------------------------------------

/// A character as HTML has it.
pub open spec fn html_char(c: char) -> Seq<char> {
    if c == '&' {
        "&amp;"@
    } else if c == '<' {
        "&lt;"@
    } else if c == '>' {
        "&gt;"@
    } else {
        seq![c]
    }
}

/// A text as HTML has it.
pub open spec fn html_text(s: Seq<char>) -> Seq<char>
    decreases s.len(),
{
    if s.len() == 0 {
        s
    } else {
        html_char(s[0]) + html_text(s.drop_first())
    }
}

proof fn lemma_html_push(s: Seq<char>, c: char)
    ensures
        html_text(s.push(c)) == html_text(s) + html_char(c),
    decreases s.len(),
{
    if s.len() == 0 {
        assert(s.push(c).drop_first() =~= s);
        assert(s.push(c)[0] == c);
        assert(html_text(s) =~= Seq::<char>::empty());
        assert(html_text(s.push(c)) =~= html_char(c));
        assert(html_text(s) + html_char(c) =~= html_char(c));
    } else {
        lemma_html_push(s.drop_first(), c);
        assert(s.push(c).drop_first() =~= s.drop_first().push(c));
        assert(html_text(s.push(c)) =~= html_text(s) + html_char(c));
    }
}

/// Writes `&`, `<` and `>` as entities.
pub fn escape_html(s: &str) -> (r: String)
    ensures
        r@ == html_text(s@),
{
    let chars: Vec<char> = characters(s);
    let mut out: String = String::new();
    let mut i: usize = 0;
    assert(out@ =~= html_text(s@.take(0)));
    while i < chars.len()
        invariant
            chars@ == s@,
            i <= chars@.len(),
            out@ == html_text(s@.take(i as int)),
        decreases chars@.len() - i,
    {
        let c: char = chars[i];
        proof {
            lemma_html_push(s@.take(i as int), c);
            assert(s@.take(i + 1) =~= s@.take(i as int).push(c));
        }
        if c == '&' {
            out.append("&amp;");
        } else if c == '<' {
            out.append("&lt;");
        } else if c == '>' {
            out.append("&gt;");
        } else {
            out.push(c);
            assert(out@ =~= html_text(s@.take(i as int)) + seq![c]);
        }
        i = i + 1;
    }
    assert(s@.take(s@.len() as int) =~= s@);
    out
}

proof fn lemma_entities()
    ensures
        "&amp;"@ == seq!['&', 'a', 'm', 'p', ';'],
        "&lt;"@ == seq!['&', 'l', 't', ';'],
        "&gt;"@ == seq!['&', 'g', 't', ';'],
{
    reveal_strlit("&amp;");
    reveal_strlit("&lt;");
    reveal_strlit("&gt;");
    assert("&amp;"@ =~= seq!['&', 'a', 'm', 'p', ';']);
    assert("&lt;"@ =~= seq!['&', 'l', 't', ';']);
    assert("&gt;"@ =~= seq!['&', 'g', 't', ';']);
}

/// No text can open or close a tag.
pub proof fn lemma_html_has_no_tags(s: Seq<char>)
    ensures
        !html_text(s).contains('<'),
        !html_text(s).contains('>'),
    decreases s.len(),
{
    if s.len() > 0 {
        lemma_html_has_no_tags(s.drop_first());
        lemma_entities();
        let (head, rest) = (html_char(s[0]), html_text(s.drop_first()));
        assert forall|i: int| 0 <= i < html_text(s).len() implies #[trigger] html_text(s)[i] != '<'
            && html_text(s)[i] != '>' by {
            if i < head.len() {
                assert(html_text(s)[i] == head[i]);
            } else {
                assert(html_text(s)[i] == rest[i - head.len()]);
                assert(rest.contains(rest[i - head.len()]));
            }
        }
    }
}

/// Texts that differ are still different in HTML.
pub proof fn lemma_html_keeps_texts_apart(a: Seq<char>, b: Seq<char>)
    requires
        html_text(a) == html_text(b),
    ensures
        a == b,
    decreases a.len(),
{
    lemma_entities();
    if a.len() == 0 || b.len() == 0 {
        if a.len() > 0 {
            assert(html_char(a[0]).len() > 0);
        }
        if b.len() > 0 {
            assert(html_char(b[0]).len() > 0);
        }
        assert(a =~= b);
    } else {
        let (x, y) = (html_char(a[0]), html_char(b[0]));
        let (s, t) = (html_text(a.drop_first()), html_text(b.drop_first()));
        assert((x + s)[0] == x[0] && (y + t)[0] == y[0]);
        if x.len() > 1 && y.len() > 1 {
            assert((x + s)[1] == x[1] && (y + t)[1] == y[1]);
        }
        assert(a[0] == b[0]);
        assert(s =~= (x + s).skip(x.len() as int));
        assert(t =~= (y + t).skip(y.len() as int));
        lemma_html_keeps_texts_apart(a.drop_first(), b.drop_first());
        assert(a =~= seq![a[0]] + a.drop_first());
        assert(b =~= seq![b[0]] + b.drop_first());
    }
}

/// Each character is escaped on its own: three have entities, and all others
/// stay as they are.
pub proof fn lemma_html_goes_by_characters(s: Seq<char>, t: Seq<char>, c: char)
    ensures
        html_text(s + t) == html_text(s) + html_text(t),
        html_text(seq!['&']) == "&amp;"@,
        html_text(seq!['<']) == "&lt;"@,
        html_text(seq!['>']) == "&gt;"@,
        c != '&' && c != '<' && c != '>' ==> html_text(seq![c]) == seq![c],
        html_text(Seq::<char>::empty()) == Seq::<char>::empty(),
    decreases s.len(),
{
    let none = Seq::<char>::empty();
    assert(html_text(none) =~= none);
    assert forall|x: char| html_text(#[trigger] none.push(x)) == html_char(x) by {
        lemma_html_push(none, x);
        assert(none + html_char(x) =~= html_char(x));
    }
    assert(none.push('&') =~= seq!['&']);
    assert(none.push('<') =~= seq!['<']);
    assert(none.push('>') =~= seq!['>']);
    assert(none.push(c) =~= seq![c]);
    if s.len() == 0 {
        assert(s + t =~= t);
        assert(html_text(s) + html_text(t) =~= html_text(t));
    } else {
        lemma_html_goes_by_characters(s.drop_first(), t, c);
        assert((s + t).drop_first() =~= s.drop_first() + t);
        assert(html_text(s + t) =~= html_text(s) + html_text(t));
    }
}

/// A text without `&`, `<` and `>` stays as it is.
pub proof fn lemma_plain_html(s: Seq<char>)
    requires
        forall|i: int|
            0 <= i < s.len() ==> #[trigger] s[i] != '&' && s[i] != '<' && s[i] != '>',
    ensures
        html_text(s) == s,
    decreases s.len(),
{
    if s.len() > 0 {
        let rest = s.drop_first();
        assert forall|i: int| 0 <= i < rest.len() implies #[trigger] rest[i] != '&' && rest[i] != '<'
            && rest[i] != '>' by {
            assert(rest[i] == s[i + 1]);
        }
        lemma_plain_html(rest);
        assert(s[0] != '&' && s[0] != '<' && s[0] != '>');
        assert(s =~= seq![s[0]] + rest);
    }
}

// ---- Slack -------------------------------------------------------------

/// Characters that mean something in Slack's markup.
pub open spec fn is_markup(c: char) -> bool {
    c == '*' || c == '_' || c == '~' || c == '`' || c == '>'
}

/// A text as Slack has it: before each character of the markup stands a space
/// of no width, which takes its meaning away.
pub open spec fn mrkdwn_text(s: Seq<char>) -> Seq<char>
    decreases s.len(),
{
    if s.len() == 0 {
        s
    } else if is_markup(s.last()) {
        mrkdwn_text(s.drop_last()).push('\u{200B}').push(s.last())
    } else {
        mrkdwn_text(s.drop_last()).push(s.last())
    }
}

/// Takes their meaning from the characters of Slack's markup.
pub fn escape_mrkdwn(s: &str) -> (r: String)
    ensures
        r@ == mrkdwn_text(s@),
{
    let chars: Vec<char> = characters(s);
    let mut out: String = String::new();
    let mut i: usize = 0;
    assert(out@ =~= mrkdwn_text(s@.take(0)));
    while i < chars.len()
        invariant
            chars@ == s@,
            i <= chars@.len(),
            out@ == mrkdwn_text(s@.take(i as int)),
        decreases chars@.len() - i,
    {
        let c: char = chars[i];
        assert(s@.take(i + 1).drop_last() =~= s@.take(i as int));
        if c == '*' || c == '_' || c == '~' || c == '`' || c == '>' {
            out.push('\u{200B}');
        }
        out.push(c);
        i = i + 1;
    }
    assert(s@.take(s@.len() as int) =~= s@);
    out
}

/// No character of the markup keeps its meaning: each one comes after a space
/// of no width.
pub proof fn lemma_mrkdwn_is_escaped(s: Seq<char>)
    ensures
        forall|i: int|
            0 <= i < mrkdwn_text(s).len() && is_markup(#[trigger] mrkdwn_text(s)[i]) ==> i > 0
                && mrkdwn_text(s)[i - 1] == '\u{200B}',
    decreases s.len(),
{
    if s.len() > 0 {
        lemma_mrkdwn_is_escaped(s.drop_last());
        let before = mrkdwn_text(s.drop_last());
        let all = mrkdwn_text(s);
        assert forall|i: int| 0 <= i < all.len() && is_markup(#[trigger] all[i]) implies i > 0
            && all[i - 1] == '\u{200B}' by {
            if i < before.len() {
                assert(all[i] == before[i]);
            }
        }
    }
}

/// A text without characters of the markup stays as it is.
pub proof fn lemma_plain_mrkdwn(s: Seq<char>)
    requires
        forall|i: int| 0 <= i < s.len() ==> !is_markup(#[trigger] s[i]),
    ensures
        mrkdwn_text(s) == s,
    decreases s.len(),
{
    if s.len() > 0 {
        let front = s.drop_last();
        assert forall|i: int| 0 <= i < front.len() implies !is_markup(#[trigger] front[i]) by {
            assert(front[i] == s[i]);
        }
        lemma_plain_mrkdwn(front);
        assert(!is_markup(s[s.len() - 1]));
        assert(s =~= front.push(s.last()));
    }
}

/// Each character is escaped on its own: five get a space of no width before
/// them, and all others stay as they are.
pub proof fn lemma_mrkdwn_goes_by_characters(s: Seq<char>, c: char)
    ensures
        mrkdwn_text(Seq::<char>::empty()) == Seq::<char>::empty(),
        c == '*' || c == '_' || c == '~' || c == '`' || c == '>' ==> mrkdwn_text(s.push(c))
            == mrkdwn_text(s) + seq!['\u{200B}', c],
        c != '*' && c != '_' && c != '~' && c != '`' && c != '>' ==> mrkdwn_text(s.push(c))
            == mrkdwn_text(s) + seq![c],
{
    assert(s.push(c).drop_last() =~= s);
    assert(mrkdwn_text(s).push('\u{200B}').push(c) =~= mrkdwn_text(s) + seq!['\u{200B}', c]);
    assert(mrkdwn_text(s).push(c) =~= mrkdwn_text(s) + seq![c]);
}

// ---- averages ----------------------------------------------------------

/// The average of all days, today included.
pub open spec fn average(costs: Seq<Amount>) -> Amount {
    if costs.len() == 0 {
        zero()
    } else {
        mean(costs)
    }
}

pub fn average_of(costs: &Vec<Amount>) -> (r: Amount)
    ensures
        r == average(costs@),
{
    if costs.len() == 0 {
        zero()
    } else {
        mean_of(costs)
    }
}

/// The services with an average of at least so much, with their averages, as
/// they come.
pub open spec fn services_above(history: Seq<SpendView>, min_avg_daily: Amount) -> Seq<
    (Seq<char>, Amount),
>
    decreases history.len(),
{
    if history.len() == 0 {
        Seq::<(Seq<char>, Amount)>::empty()
    } else {
        let before = services_above(history.drop_last(), min_avg_daily);
        let last = history.last();
        if min_avg_daily.at_most(average(last.costs)) {
            before.push((last.service, average(last.costs)))
        } else {
            before
        }
    }
}

pub open spec fn by_average() -> spec_fn((Seq<char>, Amount)) -> int {
    |service: (Seq<char>, Amount)| service.1.place()
}

/// Those services, the costliest first.
pub open spec fn ranking(history: Seq<SpendView>, min_avg_daily: Amount) -> Seq<
    (Seq<char>, Amount),
> {
    descending(services_above(history, min_avg_daily), by_average())
}

pub open spec fn averages(services: Seq<(Seq<char>, Amount)>) -> Seq<Amount> {
    Seq::new(services.len(), |i: int| services[i].1)
}

pub open spec fn services_view(services: Seq<(String, Amount)>) -> Seq<(Seq<char>, Amount)> {
    Seq::new(services.len(), |i: int| (services[i].0@, services[i].1))
}

/// The services above the noise level, the costliest first, and what they cost
/// together on an average day.
pub fn ranked_services(spend_data: &SpendHistory, min_avg_daily: Amount) -> (r: (
    Vec<(String, Amount)>,
    Amount,
))
    ensures
        services_view(r.0@) == ranking(history_view(spend_data@), min_avg_daily),
        r.1 == total(averages(ranking(history_view(spend_data@), min_avg_daily))),
{
    let ghost all = history_view(spend_data@);
    let mut services: Vec<(String, Amount)> = Vec::new();
    let mut ranks: Vec<i64> = Vec::new();
    let mut i: usize = 0;
    assert(services_view(services@) =~= ranking(all.take(0), min_avg_daily));
    while i < spend_data.len()
        invariant
            i <= spend_data@.len(),
            all == history_view(spend_data@),
            services_view(services@) == ranking(all.take(i as int), min_avg_daily),
            ranks@.len() == services@.len(),
            forall|k: int| 0 <= k < ranks@.len() ==> #[trigger] ranks@[k]
                == services@[k].1.place(),
        decreases spend_data@.len() - i,
    {
        assert(all.take(i + 1).drop_last() =~= all.take(i as int));
        let avg: Amount = average_of(&spend_data[i].costs);
        if min_avg_daily.is_at_most(avg) {
            let rank: i64 = avg.sort_place();
            let at: usize = find_slot(&ranks, rank);
            let name: String = spend_data[i].service.clone();
            proof {
                let before = services_above(all.take(i as int), min_avg_daily);
                let after = services_above(all.take(i + 1), min_avg_daily);
                assert(after == before.push((name@, avg)));
                assert(after.drop_last() =~= before);
                assert(Seq::new(ranks@.len(), |i: int| ranks@[i] as int) =~= ranks_of(
                    services_view(services@),
                    by_average(),
                ));
                assert(services_view(services@.insert(at as int, (name, avg))) =~= services_view(
                    services@,
                ).insert(at as int, (name@, avg)));
            }
            ranks.insert(at, rank);
            services.insert(at, (name, avg));
        }
        i = i + 1;
    }
    assert(all.take(spend_data@.len() as int) =~= all);
    let ghost values = averages(services_view(services@));
    let mut grand_total: Amount = nothing();
    let mut k: usize = 0;
    assert(values.take(0) =~= Seq::<Amount>::empty());
    while k < services.len()
        invariant
            k <= services@.len(),
            values == averages(services_view(services@)),
            grand_total == total(values.take(k as int)),
        decreases services@.len() - k,
    {
        assert(values.take(k + 1).drop_last() =~= values.take(k as int));
        grand_total = grand_total.plus(services[k].1);
        k = k + 1;
    }
    assert(values.take(services@.len() as int) =~= values);
    (services, grand_total)
}

/// The services of a ranking come in descending order of their averages, and
/// none has an average below the noise level.
pub proof fn lemma_ranking(history: Seq<SpendView>, min_avg_daily: Amount)
    ensures
        is_descending(ranking(history, min_avg_daily), by_average()),
        forall|i: int|
            0 <= i < ranking(history, min_avg_daily).len() ==> min_avg_daily.at_most(
                (#[trigger] ranking(history, min_avg_daily)[i]).1,
            ),
{
    let found = services_above(history, min_avg_daily);
    let ranked = ranking(history, min_avg_daily);
    lemma_descending(found, by_average());
    lemma_services_above(history, min_avg_daily);
    assert forall|i: int| 0 <= i < ranked.len() implies min_avg_daily.at_most(
        (#[trigger] ranked[i]).1,
    ) by {
        vstd::seq_lib::to_multiset_contains(ranked, ranked[i]);
        vstd::seq_lib::to_multiset_contains(found, ranked[i]);
        assert(ranked.contains(ranked[i]));
        let k = choose|k: int| 0 <= k < found.len() && found[k] == ranked[i];
        assert(min_avg_daily.at_most(found[k].1));
    }
}

/// The average of a digest is the total of all costs over the number of all
/// days: days that cost nothing count, and so does today.
pub proof fn lemma_every_day_counts(costs: Seq<Amount>)
    ensures
        costs.len() > 0 ==> average(costs) == total(costs).quotient(number_of(costs.len())),
        costs.len() == 0 ==> average(costs) == zero(),
{
}

/// A digest ranks every service whose average is not below the noise level,
/// once for each time it is in the history, with that average, and no other.
pub proof fn lemma_every_service_is_ranked(history: Seq<SpendView>, min_avg_daily: Amount)
    ensures
        ranking(history, min_avg_daily).to_multiset() == history.filter(
            |spend: SpendView| min_avg_daily.at_most(average(spend.costs)),
        ).map_values(
            |spend: SpendView| (spend.service, average(spend.costs)),
        ).to_multiset(),
        ranking(history, min_avg_daily).len() == history.filter(
            |spend: SpendView| min_avg_daily.at_most(average(spend.costs)),
        ).len(),
{
    lemma_descending(services_above(history, min_avg_daily), by_average());
    lemma_services_are_picked(history, min_avg_daily);
}

proof fn lemma_services_are_picked(history: Seq<SpendView>, min_avg_daily: Amount)
    ensures
        services_above(history, min_avg_daily) == history.filter(
            |spend: SpendView| min_avg_daily.at_most(average(spend.costs)),
        ).map_values(
            |spend: SpendView| (spend.service, average(spend.costs)),
        ),
    decreases history.len(),
{
    let pick = |spend: SpendView| min_avg_daily.at_most(average(spend.costs));
    let entry = |spend: SpendView| (spend.service, average(spend.costs));
    reveal(Seq::filter);
    if history.len() == 0 {
        assert(history.filter(pick).map_values(entry) =~= Seq::<(Seq<char>, Amount)>::empty());
    } else {
        let front = history.drop_last();
        lemma_services_are_picked(front, min_avg_daily);
        if pick(history.last()) {
            assert(history.filter(pick).map_values(entry) =~= front.filter(pick).map_values(
                entry,
            ).push(entry(history.last())));
        }
    }
}

/// No service comes before one with a higher average.
pub proof fn lemma_highest_average_first(
    history: Seq<SpendView>,
    min_avg_daily: Amount,
    i: int,
    j: int,
)
    requires
        0 <= i < j < ranking(history, min_avg_daily).len(),
    ensures
        !ranking(history, min_avg_daily)[i].1.below(ranking(history, min_avg_daily)[j].1),
{
    let ranked = ranking(history, min_avg_daily);
    lemma_ranking(history, min_avg_daily);
    assert(by_average()(ranked[i]) >= by_average()(ranked[j]));
    if ranked[i].1.below(ranked[j].1) {
        lemma_place_follows_order(ranked[i].1, ranked[j].1);
    }
}

proof fn lemma_services_above(history: Seq<SpendView>, min_avg_daily: Amount)
    ensures
        forall|i: int|
            0 <= i < services_above(history, min_avg_daily).len() ==> min_avg_daily.at_most(
                (#[trigger] services_above(history, min_avg_daily)[i]).1,
            ),
    decreases history.len(),
{
    if history.len() > 0 {
        let before = services_above(history.drop_last(), min_avg_daily);
        let after = services_above(history, min_avg_daily);
        lemma_services_above(history.drop_last(), min_avg_daily);
        assert forall|i: int| 0 <= i < after.len() implies min_avg_daily.at_most(
            (#[trigger] after[i]).1,
        ) by {
            if i < before.len() {
                assert(after[i] == before[i]);
            }
        }
    }
}

// ---- parts of messages -------------------------------------------------

/// What the spikes cost beyond the averages, one by one.
pub open spec fn extras(spikes: Seq<SpikeView>) -> Seq<Amount> {
    Seq::new(spikes.len(), |i: int| spikes[i].extra_usd)
}

/// What all spikes together cost beyond the averages.
pub fn total_extra(spikes: &Vec<Spike>) -> (r: Amount)
    ensures
        r == total(extras(spikes_view(spikes@))),
{
    let ghost values = extras(spikes_view(spikes@));
    let mut so_far: Amount = nothing();
    let mut i: usize = 0;
    assert(values.take(0) =~= Seq::<Amount>::empty());
    while i < spikes.len()
        invariant
            i <= spikes@.len(),
            values == extras(spikes_view(spikes@)),
            so_far == total(values.take(i as int)),
        decreases spikes@.len() - i,
    {
        assert(values.take(i + 1).drop_last() =~= values.take(i as int));
        so_far = so_far.plus(spikes[i].extra_usd);
        i = i + 1;
    }
    assert(values.take(spikes@.len() as int) =~= values);
    so_far
}

/// How many of so many are shown.
pub open spec fn shown(count: nat, max_display: nat) -> nat {
    if count < max_display {
        count
    } else {
        max_display
    }
}

/// The first items, as many as are shown.
pub open spec fn first_items<A>(items: Seq<A>, max_display: nat) -> Seq<A> {
    items.take(shown(items.len(), max_display) as int)
}

pub fn shown_count(count: usize, max_display: usize) -> (r: usize)
    ensures
        r == shown(count as nat, max_display as nat),
        r <= count,
{
    if count < max_display {
        count
    } else {
        max_display
    }
}

/// The lines of all items, one after another.
pub open spec fn lines<A>(items: Seq<A>, line: spec_fn(A) -> Seq<char>) -> Seq<char>
    decreases items.len(),
{
    if items.len() == 0 {
        Seq::<char>::empty()
    } else {
        lines(items.drop_last(), line) + line(items.last())
    }
}

/// What is said of the items that are not shown, where there are any.
pub open spec fn rest_text(
    count: nat,
    max_display: nat,
    before: Seq<char>,
    after: Seq<char>,
) -> Seq<char> {
    if count > max_display {
        before + decimal((count - max_display) as nat) + after
    } else {
        Seq::<char>::empty()
    }
}

/// Every item is either shown or counted among the rest.
pub proof fn lemma_none_is_forgotten(
    count: nat,
    max_display: nat,
    before: Seq<char>,
    after: Seq<char>,
)
    ensures
        shown(count, max_display) <= max_display,
        count <= max_display ==> shown(count, max_display) == count,
        count > max_display ==> shown(count, max_display) == max_display,
        shown(count, max_display) == count ==> rest_text(count, max_display, before, after).len()
            == 0,
        shown(count, max_display) < count ==> rest_text(count, max_display, before, after)
            == before + decimal((count - shown(count, max_display)) as nat) + after,
{
}

/// As many are shown as there are, at most `max_display`.
pub proof fn lemma_how_many_are_shown<A>(items: Seq<A>, max_display: nat)
    ensures
        first_items(items, max_display).len() <= max_display,
        first_items(items, max_display).len() <= items.len(),
        first_items(items, max_display).len() == max_display || first_items(
            items,
            max_display,
        ).len() == items.len(),
        forall|k: int|
            0 <= k < first_items(items, max_display).len() ==> #[trigger] first_items(
                items,
                max_display,
            )[k] == items[k],
{
}

/// One more that is shown adds its own line behind the others, and nothing
/// else; beyond the number of items nothing is added.
pub proof fn lemma_one_more_line<A>(
    items: Seq<A>,
    max_display: nat,
    line: spec_fn(A) -> Seq<char>,
)
    ensures
        lines(first_items(items, 0), line) == Seq::<char>::empty(),
        max_display < items.len() ==> lines(first_items(items, max_display + 1), line) == lines(
            first_items(items, max_display),
            line,
        ) + line(items[max_display as int]),
        max_display >= items.len() ==> lines(first_items(items, max_display + 1), line) == lines(
            first_items(items, max_display),
            line,
        ),
{
    if max_display < items.len() {
        assert(first_items(items, max_display + 1).drop_last() =~= first_items(
            items,
            max_display,
        ));
    } else {
        assert(first_items(items, max_display + 1) =~= first_items(items, max_display));
    }
}

/// Every item that is shown has its line, and the lines come in the order of
/// the items.
pub proof fn lemma_each_has_its_line<A>(
    items: Seq<A>,
    line: spec_fn(A) -> Seq<char>,
    i: int,
    j: int,
)
    requires
        0 <= i <= j < items.len(),
    ensures
        occurs(line(items[j]), lines(items, line)),
        i < j ==> in_order(line(items[i]), line(items[j]), lines(items, line)),
    decreases items.len(),
{
    broadcast use lemma_occurs_in_front, lemma_occurs_behind, lemma_in_order_in_front;

    let front = items.drop_last();
    if j == items.len() - 1 {
        lemma_occurs_in_itself(line(items.last()));
        if i < j {
            lemma_each_has_its_line(front, line, i, i);
            lemma_one_after_the_other(
                line(items[i]),
                line(items[j]),
                lines(front, line),
                line(items.last()),
            );
        }
    } else {
        lemma_each_has_its_line(front, line, i, j);
    }
}

/// A line about a spike in full: the service, by how much it has gone up or
/// that it is new, what it costs today and what it costs on average.
pub proof fn lemma_spike_line_in_full(
    spike: SpikeView,
    before: Seq<char>,
    after: Seq<char>,
    end: Seq<char>,
)
    ensures
        ({
            let increase = if spike.pct_increase.infinite() {
                "NEW"@
            } else {
                "+"@ + no_decimals(spike.pct_increase) + "%"@
            };
            let costs = " ($"@ + two_decimals(spike.today) + " today vs $"@ + two_decimals(
                spike.avg_daily,
            ) + end;
            &&& figures(spike, end) == increase + costs
            &&& spike_line(false, before, after, end)(spike) == before + spike.service + after
                + increase + costs
            &&& spike_line(true, before, after, end)(spike) == before + html_text(spike.service)
                + after + increase + costs
        }),
{
    let increase = pct_text(spike.pct_increase);
    let costs = " ($"@ + two_decimals(spike.today) + " today vs $"@ + two_decimals(
        spike.avg_daily,
    ) + end;
    assert(figures(spike, end) =~= increase + costs);
    assert(before + spike.service + after + (increase + costs) =~= before + spike.service + after
        + increase + costs);
    let name = html_text(spike.service);
    assert(before + name + after + (increase + costs) =~= before + name + after + increase + costs);
}

/// A line of a digest in full: the service and its average.
pub proof fn lemma_digest_line_in_full(
    service: Seq<char>,
    avg: Amount,
    before: Seq<char>,
    after: Seq<char>,
    end: Seq<char>,
)
    ensures
        digest_line(false, before, after, end)((service, avg)) == before + service + after
            + two_decimals(avg) + end,
        digest_line(true, before, after, end)((service, avg)) == before + html_text(service) + after
            + two_decimals(avg) + end,
{
}

pub fn write_rest(count: usize, max_display: usize, before: &str, after: &str) -> (r: String)
    ensures
        r@ == rest_text(count as nat, max_display as nat, before@, after@),
{
    if count > max_display {
        let mut out: String = before.to_string();
        out.append(write_decimal((count - max_display) as u64).as_str());
        out.append(after);
        out
    } else {
        let out: String = String::new();
        assert(out@ =~= Seq::<char>::empty());
        out
    }
}

/// A spike in figures: the increase, today's cost and the average.
pub open spec fn figures(spike: SpikeView, end: Seq<char>) -> Seq<char> {
    pct_text(spike.pct_increase) + " ($"@ + two_decimals(spike.today) + " today vs $"@
        + two_decimals(spike.avg_daily) + end
}

pub fn write_figures(spike: &Spike, end: &str) -> (r: String)
    ensures
        r@ == figures(spike@, end@),
{
    let mut out: String = fmt_pct(spike.pct_increase);
    out.append(" ($");
    out.append(write_cents(spike.today).as_str());
    out.append(" today vs $");
    out.append(write_cents(spike.avg_daily).as_str());
    out.append(end);
    out
}

/// The name of a service, in HTML or as it is.
pub open spec fn named(service: Seq<char>, escape: bool) -> Seq<char> {
    if escape {
        html_text(service)
    } else {
        service
    }
}

pub fn write_name(service: &String, escape: bool) -> (r: String)
    ensures
        r@ == named(service@, escape),
{
    if escape {
        escape_html(service.as_str())
    } else {
        service.clone()
    }
}

/// How a line about a spike is made.
pub open spec fn spike_line(
    escape: bool,
    before: Seq<char>,
    after: Seq<char>,
    end: Seq<char>,
) -> spec_fn(SpikeView) -> Seq<char> {
    |spike: SpikeView| before + named(spike.service, escape) + after + figures(spike, end)
}

pub fn write_spike_line(spike: &Spike, escape: bool, before: &str, after: &str, end: &str) -> (r:
    String)
    ensures
        r@ == spike_line(escape, before@, after@, end@)(spike@),
{
    let mut out: String = before.to_string();
    out.append(write_name(&spike.service, escape).as_str());
    out.append(after);
    out.append(write_figures(spike, end).as_str());
    out
}

/// The lines about the spikes that are shown.
pub fn write_spike_lines(
    spikes: &Vec<Spike>,
    max_display: usize,
    escape: bool,
    before: &str,
    after: &str,
    end: &str,
) -> (r: String)
    ensures
        r@ == lines(
            first_items(spikes_view(spikes@), max_display as nat),
            spike_line(escape, before@, after@, end@),
        ),
{
    let ghost all = spikes_view(spikes@);
    let ghost line = spike_line(escape, before@, after@, end@);
    let count: usize = shown_count(spikes.len(), max_display);
    let mut out: String = String::new();
    let mut i: usize = 0;
    assert(out@ =~= lines(all.take(0), line));
    while i < count
        invariant
            i <= count <= spikes@.len(),
            all == spikes_view(spikes@),
            line == spike_line(escape, before@, after@, end@),
            out@ == lines(all.take(i as int), line),
        decreases count - i,
    {
        assert(all.take(i + 1).drop_last() =~= all.take(i as int));
        assert(all.take(i + 1).last() == spikes@[i as int]@);
        out.append(write_spike_line(&spikes[i], escape, before, after, end).as_str());
        i = i + 1;
    }
    out
}

/// How a line about the average of a service is made.
pub open spec fn digest_line(
    escape: bool,
    before: Seq<char>,
    after: Seq<char>,
    end: Seq<char>,
) -> spec_fn((Seq<char>, Amount)) -> Seq<char> {
    |service: (Seq<char>, Amount)|
        before + named(service.0, escape) + after + two_decimals(service.1) + end
}

pub fn write_digest_line(
    service: &(String, Amount),
    escape: bool,
    before: &str,
    after: &str,
    end: &str,
) -> (r: String)
    ensures
        r@ == digest_line(escape, before@, after@, end@)((service.0@, service.1)),
{
    let mut out: String = before.to_string();
    out.append(write_name(&service.0, escape).as_str());
    out.append(after);
    out.append(write_cents(service.1).as_str());
    out.append(end);
    out
}

/// The lines about the services that are shown.
pub fn write_digest_lines(
    services: &Vec<(String, Amount)>,
    max_display: usize,
    escape: bool,
    before: &str,
    after: &str,
    end: &str,
) -> (r: String)
    ensures
        r@ == lines(
            first_items(services_view(services@), max_display as nat),
            digest_line(escape, before@, after@, end@),
        ),
{
    let ghost all = services_view(services@);
    let ghost line = digest_line(escape, before@, after@, end@);
    let count: usize = shown_count(services.len(), max_display);
    let mut out: String = String::new();
    let mut i: usize = 0;
    assert(out@ =~= lines(all.take(0), line));
    while i < count
        invariant
            i <= count <= services@.len(),
            all == services_view(services@),
            line == digest_line(escape, before@, after@, end@),
            out@ == lines(all.take(i as int), line),
        decreases count - i,
    {
        assert(all.take(i + 1).drop_last() =~= all.take(i as int));
        assert(all.take(i + 1).last() == (services@[i as int].0@, services@[i as int].1));
        out.append(write_digest_line(&services[i], escape, before, after, end).as_str());
        i = i + 1;
    }
    out
}

} // verus!
