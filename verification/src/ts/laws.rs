//! What holds of the daemon's statistics over several steps.

use vstd::prelude::*;

use crate::query::{escaped, law_escaped_is_one_argument};
use crate::text::{decimal, decimal_digits, is_digit, lemma_decimal_digits};
use crate::ts::client::{distinct_ids, ClientView, TsChannelID, TsClDBID, TsConID};
use crate::ts::poke::{
    cooldown_millis, guest_waits, is_poke_target, poke_command, poke_targets, receiver_at_place,
    PokeConfig, COOLDOWN_POKE_S,
};
use crate::ts::stats::{
    activity_pairs, charged_key, flushed, is_charged, is_online, lists, looks_for_guests,
    name_pairs, pokes, resets_cooldown, seconds_between, tick_fits, ticked, time_of,
    times_charged, Date, FlushAction, FlushEvent, Moment, StatView,
};
use crate::ts::tick_steps::{lemma_charged_once, lemma_charged_step};

verus! {

/// The seconds of all entries together.
pub open spec fn total_time(times: Map<(TsClDBID, TsChannelID), i32>) -> int
    decreases times.dom().len(),
    when times.dom().finite()
{
    if times.dom().len() == 0 {
        0
    } else {
        let key = times.dom().choose();
        times[key] + total_time(times.remove(key))
    }
}

/// Any entry can be counted first.
proof fn lemma_total_time_remove(
    times: Map<(TsClDBID, TsChannelID), i32>,
    key: (TsClDBID, TsChannelID),
)
    requires
        times.dom().finite(),
        times.contains_key(key),
    ensures
        total_time(times) == times[key] + total_time(times.remove(key)),
    decreases times.dom().len(),
{
    let first = times.dom().choose();
    assert(times.dom().len() > 0) by {
        if times.dom().len() == 0 {
            assert(times.dom() =~= Set::empty());
        }
    }
    assert(times.dom().contains(first));
    if first != key {
        assert(times.remove(first).dom() =~= times.dom().remove(first));
        assert(times.remove(key).dom() =~= times.dom().remove(key));
        lemma_total_time_remove(times.remove(first), key);
        lemma_total_time_remove(times.remove(key), first);
        assert(times.remove(first).remove(key) =~= times.remove(key).remove(first));
    }
}

proof fn lemma_total_time_insert(
    times: Map<(TsClDBID, TsChannelID), i32>,
    key: (TsClDBID, TsChannelID),
    time: i32,
)
    requires
        times.dom().finite(),
    ensures
        times.insert(key, time).dom().finite(),
        total_time(times.insert(key, time)) == total_time(times) - time_of(times, key) + time,
{
    let after = times.insert(key, time);
    assert(after.dom() =~= times.dom().insert(key));
    lemma_total_time_remove(after, key);
    if times.contains_key(key) {
        lemma_total_time_remove(times, key);
        assert(after.remove(key) =~= times.remove(key));
    } else {
        assert(after.remove(key) =~= times);
    }
}

proof fn lemma_charge_total(
    before: Map<(TsClDBID, TsChannelID), i32>,
    last_channel: Map<TsClDBID, TsChannelID>,
    clients: Seq<ClientView>,
    elapsed: int,
    after: Map<(TsClDBID, TsChannelID), i32>,
)
    requires
        before.dom().finite(),
        distinct_ids(clients),
        times_charged(before, last_channel, clients, elapsed, after),
    ensures
        after.dom().finite(),
        total_time(after) == total_time(before) + elapsed * clients.len(),
    decreases clients.len(),
{
    if clients.len() == 0 {
        assert(after =~= before) by {
            assert forall|key: (TsClDBID, TsChannelID)| #[trigger]
                after.contains_key(key) <==> before.contains_key(key) by {
                assert(!is_charged(last_channel, clients, key));
            }
            assert forall|key: (TsClDBID, TsChannelID)| before.contains_key(key) implies #[trigger]
            after[key] == before[key] by {
                assert(!is_charged(last_channel, clients, key));
            }
        }
    } else {
        let n = clients.len() - 1;
        let front = clients.take(n);
        let key = charged_key(last_channel, clients[n]);
        assert(clients.take(n + 1) =~= clients);
        lemma_charged_once(last_channel, clients, n);
        // the map as it was before the last client
        let mid = if before.contains_key(key) {
            after.insert(key, before[key])
        } else {
            after.remove(key)
        };
        assert(times_charged(before, last_channel, front, elapsed, mid)) by {
            assert forall|i: int| 0 <= i < front.len() implies ({
                let k = charged_key(last_channel, #[trigger] front[i]);
                mid.contains_key(k) && mid[k] == time_of(before, k) + elapsed
            }) by {
                assert(clients[i] == front[i]);
                assert(clients[i].cldbid != clients[n].cldbid);
            }
            assert forall|k: (TsClDBID, TsChannelID)| #[trigger]
                mid.contains_key(k) <==> before.contains_key(k) || is_charged(
                    last_channel,
                    front,
                    k,
                ) by {
                lemma_charged_step(last_channel, clients, n, k);
                assert(after.contains_key(k) <==> before.contains_key(k) || is_charged(
                    last_channel,
                    clients,
                    k,
                ));
            }
            assert forall|k: (TsClDBID, TsChannelID)|
                before.contains_key(k) && !is_charged(last_channel, front, k) implies #[trigger]
            mid[k] == before[k] by {
                lemma_charged_step(last_channel, clients, n, k);
                if k != key {
                    assert(after[k] == before[k]);
                }
            }
        }
        assert(distinct_ids(front)) by {
            assert forall|i: int, j: int| 0 <= i < j < front.len() implies (
            #[trigger] front[i]).cldbid != (#[trigger] front[j]).cldbid by {
                assert(clients[i].cldbid != clients[j].cldbid);
            }
        }
        lemma_charge_total(before, last_channel, front, elapsed, mid);
        assert(charged_key(last_channel, clients[n]) == key);
        assert(after.contains_key(key) && after[key] == time_of(before, key) + elapsed);
        assert(after =~= mid.insert(key, after[key]));
        lemma_total_time_insert(mid, key, after[key]);
        assert(elapsed * (n + 1) == elapsed * n + elapsed) by (nonlinear_arith);
    }
}

/// A look at the clients adds the time since the last one for each client, and no other time.
pub proof fn law_tick_adds_time(
    before: StatView,
    clients: Seq<ClientView>,
    new_timestamp: Moment,
    now: Moment,
    after: StatView,
)
    requires
        before.times.dom().finite(),
        distinct_ids(clients),
        ticked(before, clients, new_timestamp, now, after),
    ensures
        after.times.dom().finite(),
        total_time(after.times) == total_time(before.times) + seconds_between(
            before.last_update,
            now,
        ) * clients.len(),
{
    lemma_charge_total(
        before.times,
        before.last_channel,
        clients,
        seconds_between(before.last_update, now),
        after.times,
    );
}

/// With no time gathered, as at the start and after a flush, any time that can be counted can be
/// added.
pub proof fn law_tick_fits_without_times(stats: StatView, clients: Seq<ClientView>, now: Moment)
    requires
        stats.times == Map::<(TsClDBID, TsChannelID), i32>::empty(),
    ensures
        tick_fits(stats, clients, now) <==> seconds_between(stats.last_update, now) <= i32::MAX,
{
}

/// A look at the clients takes no time away from any entry.
pub proof fn law_tick_keeps_time(
    before: StatView,
    clients: Seq<ClientView>,
    new_timestamp: Moment,
    now: Moment,
    after: StatView,
    key: (TsClDBID, TsChannelID),
)
    requires
        ticked(before, clients, new_timestamp, now, after),
    ensures
        before.times.contains_key(key) ==> after.times.contains_key(key) && before.times[key]
            <= after.times[key],
{
    if before.times.contains_key(key) {
        assert(after.times.contains_key(key));
        if is_charged(before.last_channel, clients, key) {
            let i = choose|i: int|
                0 <= i < clients.len() && charged_key(before.last_channel, #[trigger] clients[i])
                    == key;
            assert(after.times[charged_key(before.last_channel, clients[i])] == time_of(
                before.times,
                key,
            ) + seconds_between(before.last_update, now));
        } else {
            assert(after.times[key] == before.times[key]);
        }
    }
}

/// The time between two looks goes to the channel in which the client was seen at the first.
pub proof fn law_time_goes_to_last_seen_channel(
    s0: StatView,
    first: Seq<ClientView>,
    t1: Moment,
    n1: Moment,
    s1: StatView,
    second: Seq<ClientView>,
    t2: Moment,
    n2: Moment,
    s2: StatView,
    i: int,
    j: int,
)
    requires
        ticked(s0, first, t1, n1, s1),
        ticked(s1, second, t2, n2, s2),
        0 <= i < first.len(),
        0 <= j < second.len(),
        first[i].cldbid == second[j].cldbid,
    ensures
        s2.times.contains_key((first[i].cldbid, first[i].channel)),
        s2.times[(first[i].cldbid, first[i].channel)] == time_of(
            s1.times,
            (first[i].cldbid, first[i].channel),
        ) + seconds_between(t1, n2),
{
    assert(s1.last_channel.contains_key(first[i].cldbid));
    assert(charged_key(s1.last_channel, second[j]) == (first[i].cldbid, first[i].channel));
}

/// A client that was not seen at the first of two looks has the time between them added to the
/// channel in which it is seen at the second.
pub proof fn law_time_of_returning_client(
    s0: StatView,
    first: Seq<ClientView>,
    t1: Moment,
    n1: Moment,
    s1: StatView,
    second: Seq<ClientView>,
    t2: Moment,
    n2: Moment,
    s2: StatView,
    j: int,
)
    requires
        ticked(s0, first, t1, n1, s1),
        ticked(s1, second, t2, n2, s2),
        0 <= j < second.len(),
        !is_online(first, second[j].cldbid),
    ensures
        s2.times.contains_key((second[j].cldbid, second[j].channel)),
        s2.times[(second[j].cldbid, second[j].channel)] == time_of(
            s1.times,
            (second[j].cldbid, second[j].channel),
        ) + seconds_between(t1, n2),
{
    assert(!s1.last_channel.contains_key(second[j].cldbid));
    assert(charged_key(s1.last_channel, second[j]) == (second[j].cldbid, second[j].channel));
}

/// However long a look takes to be answered, no time is lost between two looks but what rounding
/// to whole seconds takes.
pub proof fn law_no_time_lost(start: Moment, t1: Moment, n1: Moment, n2: Moment)
    requires
        start <= n1,
        t1 <= n1 <= n2,
    ensures
        seconds_between(start, n1) + seconds_between(t1, n2) + 1 >= seconds_between(start, n2),
{
}

/// Within the cooldown after a poke, no look leads to another one or starts the cooldown anew.
pub proof fn law_no_poke_within_cooldown(
    stats: StatView,
    poked: Moment,
    clients: Seq<ClientView>,
    now: Moment,
)
    requires
        stats.last_guest_poke == Some(poked),
        seconds_between(poked, now) <= COOLDOWN_POKE_S,
    ensures
        !pokes(stats, clients, now),
        !resets_cooldown(stats, clients, now),
{
}

/// The first poke waits for no cooldown: with a poke config and no poke before, a guest that waits
/// while no poke-receiver is at place leads to one.
pub proof fn law_first_guest_leads_to_a_poke(
    stats: StatView,
    clients: Seq<ClientView>,
    now: Moment,
)
    requires
        stats.last_guest_poke is None,
        stats.poke_config is Some,
        guest_waits(stats.poke_config->0, clients),
        !receiver_at_place(stats.poke_config->0, clients),
    ensures
        pokes(stats, clients, now),
{
}

/// With a poke-receiver at place no look leads to a poke, whoever waits; it starts the cooldown
/// anew, as soon as guests are looked for.
pub proof fn law_receiver_at_place_stops_pokes(
    stats: StatView,
    clients: Seq<ClientView>,
    now: Moment,
)
    requires
        stats.poke_config is Some,
        receiver_at_place(stats.poke_config->0, clients),
    ensures
        !pokes(stats, clients, now),
        looks_for_guests(stats, now) ==> resets_cooldown(stats, clients, now),
{
}

/// Poked is who has the group for it and is not in the channel where guests wait, and nobody else.
pub proof fn law_poke_targets(config: PokeConfig, clients: Seq<ClientView>, conid: TsConID)
    ensures
        poke_targets(config, clients).contains(conid) <==> exists|i: int|
            0 <= i < clients.len() && is_poke_target(config, #[trigger] clients[i])
                && clients[i].conid == conid,
    decreases clients.len(),
{
    reveal(Seq::filter);
    let targets = poke_targets(config, clients);
    if clients.len() > 0 {
        let front = clients.drop_last();
        let n = clients.len() - 1;
        law_poke_targets(config, front, conid);
        let fewer = poke_targets(config, front);
        if is_poke_target(config, clients[n]) {
            assert(targets =~= fewer.push(clients[n].conid));
        } else {
            assert(targets =~= fewer);
        }
        if targets.contains(conid) {
            let k = choose|k: int| 0 <= k < targets.len() && targets[k] == conid;
            if k < fewer.len() {
                assert(fewer[k] == conid);
                let i = choose|i: int|
                    0 <= i < front.len() && is_poke_target(config, #[trigger] front[i])
                        && front[i].conid == conid;
                assert(is_poke_target(config, clients[i]) && clients[i].conid == conid);
            } else {
                assert(is_poke_target(config, clients[n]) && clients[n].conid == conid);
            }
        }
        if exists|i: int|
            0 <= i < clients.len() && is_poke_target(config, #[trigger] clients[i])
                && clients[i].conid == conid {
            let i = choose|i: int|
                0 <= i < clients.len() && is_poke_target(config, #[trigger] clients[i])
                    && clients[i].conid == conid;
            if i < n {
                assert(is_poke_target(config, front[i]) && front[i].conid == conid);
                let k = choose|k: int| 0 <= k < fewer.len() && fewer[k] == conid;
                assert(targets[k] == conid);
            } else {
                assert(targets[targets.len() - 1] == conid);
            }
        }
    } else {
        assert(targets.len() == 0);
    }
}

/// The wait before each command is the longest in whole milliseconds with which the server's limit
/// of commands still fits into a second.
pub proof fn law_cooldown_fits_limit(limit: u16)
    requires
        limit > 0,
    ensures
        cooldown_millis(limit) is Some,
        cooldown_millis(limit)->0 * limit <= 1000 < (cooldown_millis(limit)->0 + 1) * limit,
{
    let l = limit as u64;
    let c = 1000u64 / l;
    assert(c * l <= 1000 < (c + 1) * l) by (nonlinear_arith)
        requires
            l > 0,
            c == 1000u64 / l,
    ;
}

/// A poke is one command, whatever its message: nothing in the message ends it.
pub proof fn law_poke_command_is_one_line(client: TsConID, msg: Seq<char>)
    ensures
        forall|i: int|
            0 <= i < poke_command(client, escaped(msg)).len() ==> (#[trigger] poke_command(
                client,
                escaped(msg),
            )[i]) != '\n' && poke_command(client, escaped(msg))[i] != '\r',
{
    law_escaped_is_one_argument(msg);
    let escaped_msg = escaped(msg);
    reveal_strlit("poke clid=");
    reveal_strlit(" msg=");
    let id = decimal(client as int);
    let command = poke_command(client, escaped_msg);
    lemma_decimal_digits(
        if client < 0 {
            (-client) as nat
        } else {
            client as nat
        },
    );
    let head = "poke clid="@;
    let middle = " msg="@;
    assert forall|i: int| 0 <= i < command.len() implies (#[trigger] command[i]) != '\n'
        && command[i] != '\r' by {
        if i < head.len() {
            assert(command[i] == head[i]);
        } else if i < head.len() + id.len() {
            let k = i - head.len();
            assert(command[i] == id[k]);
            if client < 0 {
                if k > 0 {
                    assert(is_digit(decimal_digits((-client) as nat)[k - 1]));
                }
            } else {
                assert(is_digit(decimal_digits(client as nat)[k]));
            }
        } else if i < head.len() + id.len() + middle.len() {
            assert(command[i] == middle[i - head.len() - id.len()]);
        } else {
            assert(command[i] == escaped_msg[i - head.len() - id.len() - middle.len()]);
        }
    }
}

/// A flush whose steps all succeed hands over every name and every second once, under the date
/// that they belong to, and then holds neither; all else stays.
pub proof fn law_flush_stores_everything(
    s0: StatView,
    a0: FlushAction,
    s1: StatView,
    a1: FlushAction,
    s2: StatView,
    today: Date,
    a2: FlushAction,
    s3: StatView,
)
    requires
        flushed(s0, FlushEvent::Begin, a0, s1),
        flushed(s1, FlushEvent::NamesStored, a1, s2),
        flushed(s2, FlushEvent::ActivityStored(today), a2, s3),
    ensures
        a0 is StoreNames && lists(name_pairs(a0->StoreNames_0@), s0.names),
        a1 is StoreActivity && a1->StoreActivity_0 == s0.last_date && lists(
            activity_pairs(a1->StoreActivity_1@),
            s0.times,
        ),
        a2 is Finish,
        s3 == (StatView { names: Map::empty(), times: Map::empty(), last_date: today, ..s0 }),
{
}

/// Where storing the names fails, nothing is lost; where storing the seconds fails, only the names
/// are gone, which were stored.
pub proof fn law_failed_flush_loses_nothing(
    s0: StatView,
    a0: FlushAction,
    s1: StatView,
    a1: FlushAction,
    s2: StatView,
    abort: FlushAction,
    s3: StatView,
)
    requires
        flushed(s0, FlushEvent::Begin, a0, s1),
        flushed(s1, FlushEvent::NamesStored, a1, s2) || s2 == s1,
        flushed(s2, FlushEvent::Failed, abort, s3),
    ensures
        abort is Abort,
        s3.times == s0.times,
        s3.last_date == s0.last_date,
        s3.names == s0.names || s3.names == Map::<TsClDBID, Seq<char>>::empty(),
        s2 == s1 ==> s3 == s0,
{
}

/// The seconds of a batch together.
pub open spec fn batch_time(batch: Seq<((TsClDBID, TsChannelID), i32)>) -> int
    decreases batch.len(),
{
    if batch.len() == 0 {
        0
    } else {
        batch_time(batch.drop_last()) + batch.last().1
    }
}

/// A batch that lists all entries has all their seconds.
pub proof fn law_batch_has_all_time(
    batch: Seq<((TsClDBID, TsChannelID), i32)>,
    times: Map<(TsClDBID, TsChannelID), i32>,
)
    requires
        times.dom().finite(),
        lists(batch, times),
    ensures
        batch_time(batch) == total_time(times),
    decreases batch.len(),
{
    if batch.len() == 0 {
        assert(times.dom() =~= Set::empty()) by {
            assert forall|k: (TsClDBID, TsChannelID)| !times.dom().contains(k) by {
                if times.contains_key(k) {
                    let i = choose|i: int| 0 <= i < batch.len() && (#[trigger] batch[i]).0 == k;
                }
            }
        }
    } else {
        let n = batch.len() - 1;
        let key = batch[n].0;
        let fewer = batch.drop_last();
        let rest = times.remove(key);
        assert(lists(fewer, rest)) by {
            assert forall|i: int| 0 <= i < fewer.len() implies rest.contains_key(
                (#[trigger] fewer[i]).0,
            ) && rest[fewer[i].0] == fewer[i].1 by {
                assert(batch[i].0 != batch[n].0);
            }
            assert forall|k: (TsClDBID, TsChannelID)| #[trigger]
                rest.contains_key(k) implies exists|i: int|
                0 <= i < fewer.len() && (#[trigger] fewer[i]).0 == k by {
                assert(times.contains_key(k));
                let i = choose|i: int| 0 <= i < batch.len() && (#[trigger] batch[i]).0 == k;
                assert(fewer[i].0 == k);
            }
            assert forall|i: int, j: int| 0 <= i < j < fewer.len() implies (
            #[trigger] fewer[i]).0 != (#[trigger] fewer[j]).0 by {
                assert(batch[i].0 != batch[j].0);
            }
        }
        assert(times.contains_key(batch[n].0));
        lemma_total_time_remove(times, key);
        law_batch_has_all_time(fewer, rest);
    }
}

} // verus!
