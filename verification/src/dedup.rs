//! Holding back alerts for services that were alerted on a short while ago.
//!
//! For each service of each account the time of the last alert is kept, under
//! a key of its own.

use crate::anomaly::{spikes_view, Spike, SpikeView};
use crate::text::{
    characters, is_letter_or_digit, letter_or_digit, lemma_whole_round_trip, parse_whole,
    read_whole, signed_decimal, write_signed_decimal,
};
use vstd::prelude::*;

verus! {

/// What every key begins with.
pub const SSM_PREFIX: &'static str = "/stackalert/last-alerted/";

/// A character as it stands in a key: letters, digits, hyphens and dots as
/// they are, anything else as an underscore.
pub open spec fn safe_char(c: char) -> char {
    if letter_or_digit(c) || c == '-' || c == '.' {
        c
    } else {
        '_'
    }
}

/// The name of a service as it stands in a key.
pub open spec fn safe_name(service: Seq<char>) -> Seq<char> {
    Seq::new(service.len(), |i: int| safe_char(service[i]))
}

/// The key under which the time of the last alert for a service is kept.
pub open spec fn key_of(namespace: Seq<char>, service: Seq<char>) -> Seq<char> {
    SSM_PREFIX@ + namespace + seq!['/'] + safe_name(service)
}

/// The key for a service in a namespace, such as
/// `/stackalert/last-alerted/self/Amazon_EC2`.
pub fn ssm_key(namespace: &str, service: &str) -> (r: String)
    ensures
        r@ == key_of(namespace@, service@),
{
    let mut out: String = SSM_PREFIX.to_string();
    out.append(namespace);
    out.push('/');
    let ghost head = out@;
    assert(head =~= SSM_PREFIX@ + namespace@ + seq!['/']);
    let chars: Vec<char> = characters(service);
    let mut i: usize = 0;
    assert(head + safe_name(service@).take(0) =~= head);
    while i < chars.len()
        invariant
            chars@ == service@,
            i <= chars@.len(),
            out@ == head + safe_name(service@).take(i as int),
        decreases chars@.len() - i,
    {
        let c: char = chars[i];
        let safe: char = if is_letter_or_digit(c) || c == '-' || c == '.' {
            c
        } else {
            '_'
        };
        out.push(safe);
        assert(head + safe_name(service@).take(i + 1) =~= (head + safe_name(service@).take(
            i as int,
        )).push(safe));
        i = i + 1;
    }
    assert(safe_name(service@).take(chars@.len() as int) =~= safe_name(service@));
    out
}

// ---- holding back ------------------------------------------------------

/// Whether an alert is held back: it was given before, less than the cooldown
/// ago.
pub open spec fn held_back(last_alerted: Option<int>, now: int, cooldown_hours: nat) -> bool {
    match last_alerted {
        Some(time) => now - time < cooldown_hours * 3600,
        None => false,
    }
}

/// The spikes that are not held back, as they come.
pub open spec fn new_spikes(
    spikes: Seq<SpikeView>,
    last_alerted: Seq<Option<int>>,
    now: int,
    cooldown_hours: nat,
) -> Seq<SpikeView>
    decreases spikes.len(),
{
    if spikes.len() == 0 {
        spikes
    } else {
        let before = new_spikes(spikes.drop_last(), last_alerted, now, cooldown_hours);
        if held_back(last_alerted[spikes.len() - 1], now, cooldown_hours) {
            before
        } else {
            before.push(spikes.last())
        }
    }
}

pub open spec fn times(stored: Seq<Option<i64>>) -> Seq<Option<int>> {
    Seq::new(
        stored.len(),
        |i: int|
            match stored[i] {
                Some(time) => Some(time as int),
                None => None,
            },
    )
}

/// Leaves out the spikes of services that were alerted on less than
/// `cooldown_hours` ago. `last_alerted` holds, for each spike, the time of the
/// last alert, in seconds, where one is known.
pub fn filter_new_spikes(
    spikes: Vec<Spike>,
    last_alerted: &Vec<Option<i64>>,
    now: i64,
    cooldown_hours: u32,
) -> (r: Vec<Spike>)
    requires
        last_alerted@.len() == spikes@.len(),
    ensures
        spikes_view(r@) == new_spikes(
            spikes_view(spikes@),
            times(last_alerted@),
            now as int,
            cooldown_hours as nat,
        ),
{
    let ghost all = spikes_view(spikes@);
    let ghost known = times(last_alerted@);
    let mut out: Vec<Spike> = Vec::new();
    let mut i: usize = 0;
    assert(spikes_view(out@) =~= new_spikes(all.take(0), known, now as int, cooldown_hours as nat));
    while i < spikes.len()
        invariant
            i <= spikes@.len(),
            last_alerted@.len() == spikes@.len(),
            all == spikes_view(spikes@),
            known == times(last_alerted@),
            spikes_view(out@) == new_spikes(
                all.take(i as int),
                known,
                now as int,
                cooldown_hours as nat,
            ),
        decreases spikes@.len() - i,
    {
        assert(all.take(i + 1).drop_last() =~= all.take(i as int));
        let recent: bool = match last_alerted[i] {
            Some(time) => (now as i128) - (time as i128) < cooldown_hours as i128 * 3600,
            None => false,
        };
        assert(recent == held_back(known[i as int], now as int, cooldown_hours as nat));
        if !recent {
            let ghost before = out@;
            out.push(spikes[i].clone());
            assert(spikes_view(out@) =~= spikes_view(before).push(all[i as int]));
        }
        i = i + 1;
    }
    assert(all.take(spikes@.len() as int) =~= all);
    out
}

/// The time that is stored under a key, where it is one.
pub open spec fn stored_time(value: Option<Seq<char>>) -> Option<int> {
    match value {
        Some(text) => read_whole(text),
        None => None,
    }
}

/// Reads what is stored under a key. Nothing, or what is not a whole number,
/// counts as no alert.
pub fn fetch_timestamp(value: Option<&str>) -> (r: Option<i64>)
    ensures
        match r {
            Some(time) => stored_time(
                match value {
                    Some(text) => Some(text@),
                    None => None,
                },
            ) == Some(time as int),
            None => stored_time(
                match value {
                    Some(text) => Some(text@),
                    None => None,
                },
            ) is None,
        },
{
    match value {
        Some(text) => parse_whole(text),
        None => None,
    }
}

// ---- taking note -------------------------------------------------------

/// A value to store under a key.
#[derive(Debug)]
pub struct Mark {
    pub key: String,
    pub value: String,
}

/// Takes note of the alerts that were given: the time, for each service.
pub fn mark_alerted(spikes: &Vec<Spike>, namespace: &str, now: i64) -> (r: Vec<Mark>)
    ensures
        r@.len() == spikes@.len(),
        forall|i: int|
            0 <= i < r@.len() ==> (#[trigger] r@[i]).key@ == key_of(
                namespace@,
                spikes@[i].service@,
            ) && r@[i].value@ == signed_decimal(now as int),
{
    let mut out: Vec<Mark> = Vec::new();
    let mut i: usize = 0;
    while i < spikes.len()
        invariant
            i <= spikes@.len(),
            out@.len() == i,
            forall|k: int|
                0 <= k < i ==> (#[trigger] out@[k]).key@ == key_of(
                    namespace@,
                    spikes@[k].service@,
                ) && out@[k].value@ == signed_decimal(now as int),
        decreases spikes@.len() - i,
    {
        out.push(
            Mark {
                key: ssm_key(namespace, spikes[i].service.as_str()),
                value: write_signed_decimal(now),
            },
        );
        i = i + 1;
    }
    out
}

// ---- what holds of alerts that are held back ---------------------------

/// A service that was alerted on is held back until the cooldown is over, and
/// not any longer: what was stored is read back as the time at which it was.
pub proof fn lemma_cooldown(alerted: int, now: int, cooldown_hours: nat)
    requires
        i64::MIN <= alerted <= i64::MAX,
    ensures
        held_back(stored_time(Some(signed_decimal(alerted))), now, cooldown_hours) <==> now
            < alerted + cooldown_hours * 3600,
{
    lemma_whole_round_trip(alerted);
}

/// Where nothing is known of earlier alerts, nothing is held back.
pub proof fn lemma_unknown_is_new(
    spikes: Seq<SpikeView>,
    last_alerted: Seq<Option<int>>,
    now: int,
    cooldown_hours: nat,
)
    requires
        last_alerted.len() == spikes.len(),
        forall|i: int| 0 <= i < spikes.len() ==> (#[trigger] last_alerted[i]) is None,
    ensures
        new_spikes(spikes, last_alerted, now, cooldown_hours) == spikes,
{
    lemma_unknown_up_to(spikes, last_alerted, now, cooldown_hours);
}

proof fn lemma_unknown_up_to(
    spikes: Seq<SpikeView>,
    last_alerted: Seq<Option<int>>,
    now: int,
    cooldown_hours: nat,
)
    requires
        spikes.len() <= last_alerted.len(),
        forall|i: int| 0 <= i < spikes.len() ==> (#[trigger] last_alerted[i]) is None,
    ensures
        new_spikes(spikes, last_alerted, now, cooldown_hours) == spikes,
    decreases spikes.len(),
{
    if spikes.len() > 0 {
        lemma_unknown_up_to(spikes.drop_last(), last_alerted, now, cooldown_hours);
        assert(last_alerted[spikes.len() - 1] is None);
        assert(spikes =~= spikes.drop_last().push(spikes.last()));
    }
}

/// No service holds another one back: whether a spike is new rests on the time
/// that is known for it alone.
pub proof fn lemma_each_on_its_own(
    spikes: Seq<SpikeView>,
    last_alerted: Seq<Option<int>>,
    now: int,
    cooldown_hours: nat,
    spike: SpikeView,
)
    ensures
        new_spikes(spikes, last_alerted, now, cooldown_hours).contains(spike) <==> exists|i: int|
            0 <= i < spikes.len() && #[trigger] spikes[i] == spike && !held_back(
                last_alerted[i],
                now,
                cooldown_hours,
            ),
    decreases spikes.len(),
{
    let found = new_spikes(spikes, last_alerted, now, cooldown_hours);
    if spikes.len() > 0 {
        let front = spikes.drop_last();
        let before = new_spikes(front, last_alerted, now, cooldown_hours);
        lemma_each_on_its_own(front, last_alerted, now, cooldown_hours, spike);
        if found.contains(spike) {
            let k = choose|k: int| 0 <= k < found.len() && found[k] == spike;
            if k < before.len() {
                assert(before[k] == spike);
                let i = choose|i: int|
                    0 <= i < front.len() && #[trigger] front[i] == spike && !held_back(
                        last_alerted[i],
                        now,
                        cooldown_hours,
                    );
                assert(spikes[i] == spike);
            } else {
                assert(spikes[spikes.len() - 1] == spike);
            }
        }
        if exists|i: int|
            0 <= i < spikes.len() && #[trigger] spikes[i] == spike && !held_back(
                last_alerted[i],
                now,
                cooldown_hours,
            ) {
            let i = choose|i: int|
                0 <= i < spikes.len() && #[trigger] spikes[i] == spike && !held_back(
                    last_alerted[i],
                    now,
                    cooldown_hours,
                );
            if i < front.len() {
                assert(front[i] == spike);
                let k = choose|k: int| 0 <= k < before.len() && before[k] == spike;
                assert(found[k] == spike);
            } else {
                assert(found[before.len() as int] == spike);
            }
        }
    }
}

/// What is not held back is what was not alerted on within the last
/// `cooldown_hours` hours, each spike once, in the order in which they come.
pub proof fn lemma_what_is_new(
    spikes: Seq<SpikeView>,
    last_alerted: Seq<Option<int>>,
    now: int,
    cooldown_hours: nat,
)
    ensures
        new_spikes(spikes, last_alerted, now, cooldown_hours) == Seq::new(
            spikes.len(),
            |i: int| (spikes[i], last_alerted[i]),
        ).filter(
            |known: (SpikeView, Option<int>)|
                match known.1 {
                    Some(time) => now >= time + 3600 * cooldown_hours,
                    None => true,
                },
        ).map_values(|known: (SpikeView, Option<int>)| known.0),
    decreases spikes.len(),
{
    let pairs = Seq::new(spikes.len(), |i: int| (spikes[i], last_alerted[i]));
    let pick = |known: (SpikeView, Option<int>)|
        match known.1 {
            Some(time) => now >= time + 3600 * cooldown_hours,
            None => true,
        };
    let spike = |known: (SpikeView, Option<int>)| known.0;
    reveal(Seq::filter);
    if spikes.len() == 0 {
        assert(pairs.filter(pick).map_values(spike) =~= spikes);
    } else {
        let front = spikes.drop_last();
        let before = Seq::new(front.len(), |i: int| (front[i], last_alerted[i]));
        lemma_what_is_new(front, last_alerted, now, cooldown_hours);
        assert(pairs.drop_last() =~= before);
        assert(pairs.last() == (spikes.last(), last_alerted[spikes.len() - 1]));
        if pick(pairs.last()) {
            assert(pairs.filter(pick).map_values(spike) =~= before.filter(pick).map_values(
                spike,
            ).push(spikes.last()));
        }
    }
}

/// A key is the common beginning, the namespace, a slash and the name of the
/// service, in which everything but letters, digits, hyphens and dots is an
/// underscore.
pub proof fn lemma_key(namespace: Seq<char>, service: Seq<char>, i: int)
    ensures
        ({
            let head = "/stackalert/last-alerted/"@ + namespace + seq!['/'];
            let key = key_of(namespace, service);
            let c = service[i];
            &&& key.len() == head.len() + service.len()
            &&& key.take(head.len() as int) == head
            &&& 0 <= i < service.len() && (letter_or_digit(c) || c == '-' || c == '.')
                ==> key[head.len() + i] == c
            &&& 0 <= i < service.len() && !letter_or_digit(c) && c != '-' && c != '.'
                ==> key[head.len() + i] == '_'
        }),
{
    let head = "/stackalert/last-alerted/"@ + namespace + seq!['/'];
    assert(key_of(namespace, service).take(head.len() as int) =~= head);
}

/// What is stored counts as a time exactly where it is a whole number.
pub proof fn lemma_stored_times(text: Seq<char>)
    ensures
        stored_time(Some(text)) == read_whole(text),
        stored_time(None) is None,
{
}

/// Two keys are the same only where the namespace is the same and the services
/// have the same name in a key.
pub proof fn lemma_keys_tell_apart(
    namespace: Seq<char>,
    elsewhere: Seq<char>,
    service: Seq<char>,
    other: Seq<char>,
)
    ensures
        key_of(namespace, service) == key_of(elsewhere, other) <==> namespace == elsewhere
            && safe_name(service) == safe_name(other),
{
    let (a, b) = (key_of(namespace, service), key_of(elsewhere, other));
    if a == b {
        let p: int = SSM_PREFIX@.len() as int;
        let (m, n) = (namespace.len() as int, elsewhere.len() as int);
        assert(a[p + m] == '/');
        assert(b[p + n] == '/');
        lemma_key_characters(namespace, service);
        lemma_key_characters(elsewhere, other);
        assert(m == n);
        assert(namespace =~= a.subrange(p, p + m));
        assert(elsewhere =~= b.subrange(p, p + n));
        assert(safe_name(service) =~= a.skip(p + m + 1));
        assert(safe_name(other) =~= b.skip(p + n + 1));
    }
}

/// Services whose names differ in a key have keys of their own, in the same
/// namespace.
pub proof fn lemma_services_have_their_own_keys(
    namespace: Seq<char>,
    service: Seq<char>,
    other: Seq<char>,
)
    ensures
        key_of(namespace, service) == key_of(namespace, other) <==> safe_name(service)
            == safe_name(other),
{
    lemma_keys_tell_apart(namespace, namespace, service, other);
}

/// Keys in two namespaces are never the same, whatever the services.
pub proof fn lemma_accounts_have_their_own_keys(
    namespace: Seq<char>,
    elsewhere: Seq<char>,
    service: Seq<char>,
    other: Seq<char>,
)
    requires
        namespace != elsewhere,
    ensures
        key_of(namespace, service) != key_of(elsewhere, other),
{
    lemma_keys_tell_apart(namespace, elsewhere, service, other);
}

/// What follows the namespace and a slash in a key are letters, digits,
/// hyphens, dots and underscores, one for each character of the service's name.
pub proof fn lemma_key_characters(namespace: Seq<char>, service: Seq<char>)
    ensures
        ({
            let head: int = (SSM_PREFIX@.len() + namespace.len() + 1) as int;
            let key = key_of(namespace, service);
            &&& key.len() == head + service.len()
            &&& forall|i: int|
                head <= i < key.len() ==> letter_or_digit(#[trigger] key[i]) || key[i] == '-'
                    || key[i] == '.' || key[i] == '_'
        }),
{
    let head: int = (SSM_PREFIX@.len() + namespace.len() + 1) as int;
    let key = key_of(namespace, service);
    assert forall|i: int| head <= i < key.len() implies letter_or_digit(#[trigger] key[i])
        || key[i] == '-' || key[i] == '.' || key[i] == '_' by {
        assert(key[i] == safe_name(service)[i - head]);
    }
}

} // verus!
