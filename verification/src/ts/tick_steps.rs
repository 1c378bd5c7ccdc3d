//! A look at the clients takes them one by one: what holds of the front of the list holds of the
//! next client too.

use vstd::prelude::*;

use crate::ts::client::{distinct_ids, ClientView, TsChannelID, TsClDBID};
use crate::ts::poke::{
    guest_waits, is_poke_target, is_receiver_at_place, is_waiting_guest, poke_targets,
    receiver_at_place, PokeConfig,
};
use crate::ts::stats::{
    channels_remembered, charged_key, is_charged, is_online, names_updated, time_of, times_charged,
};

verus! {

proof fn lemma_online_step(clients: Seq<ClientView>, i: int, id: TsClDBID)
    requires
        0 <= i < clients.len(),
    ensures
        is_online(clients.take(i + 1), id) <==> is_online(clients.take(i), id)
            || clients[i].cldbid == id,
{
    let front = clients.take(i);
    let longer = clients.take(i + 1);
    if is_online(longer, id) {
        let k = choose|k: int| 0 <= k < longer.len() && (#[trigger] longer[k]).cldbid == id;
        if k < i {
            assert(front[k].cldbid == id);
        }
    }
    if is_online(front, id) {
        let k = choose|k: int| 0 <= k < front.len() && (#[trigger] front[k]).cldbid == id;
        assert(longer[k].cldbid == id);
    }
    if clients[i].cldbid == id {
        assert(longer[i].cldbid == id);
    }
}

pub(crate) proof fn lemma_names_step(
    before: Map<TsClDBID, Seq<char>>,
    clients: Seq<ClientView>,
    i: int,
    mid: Map<TsClDBID, Seq<char>>,
)
    requires
        0 <= i < clients.len(),
        distinct_ids(clients),
        names_updated(before, clients.take(i), mid),
    ensures
        names_updated(
            before,
            clients.take(i + 1),
            mid.insert(clients[i].cldbid, clients[i].name),
        ),
{
    let front = clients.take(i);
    let longer = clients.take(i + 1);
    let after = mid.insert(clients[i].cldbid, clients[i].name);
    assert forall|k: int| 0 <= k < longer.len() implies after.contains_key(
        (#[trigger] longer[k]).cldbid,
    ) && after[longer[k].cldbid] == longer[k].name by {
        if k < i {
            assert(front[k] == longer[k]);
            assert(clients[k].cldbid != clients[i].cldbid);
        }
    }
    assert forall|id: TsClDBID| #[trigger]
        after.contains_key(id) <==> before.contains_key(id) || is_online(longer, id) by {
        lemma_online_step(clients, i, id);
        assert(mid.contains_key(id) <==> before.contains_key(id) || is_online(front, id));
    }
    assert forall|id: TsClDBID|
        before.contains_key(id) && !is_online(longer, id) implies #[trigger] after[id]
        == before[id] by {
        lemma_online_step(clients, i, id);
        assert(mid[id] == before[id]);
    }
}

pub(crate) proof fn lemma_channels_step(
    clients: Seq<ClientView>,
    i: int,
    mid: Map<TsClDBID, TsChannelID>,
)
    requires
        0 <= i < clients.len(),
        distinct_ids(clients),
        channels_remembered(clients.take(i), mid),
    ensures
        channels_remembered(
            clients.take(i + 1),
            mid.insert(clients[i].cldbid, clients[i].channel),
        ),
{
    let front = clients.take(i);
    let longer = clients.take(i + 1);
    let after = mid.insert(clients[i].cldbid, clients[i].channel);
    assert forall|k: int| 0 <= k < longer.len() implies after.contains_key(
        (#[trigger] longer[k]).cldbid,
    ) && after[longer[k].cldbid] == longer[k].channel by {
        if k < i {
            assert(front[k] == longer[k]);
            assert(clients[k].cldbid != clients[i].cldbid);
        }
    }
    assert forall|id: TsClDBID| #[trigger] after.contains_key(id) <==> is_online(longer, id) by {
        lemma_online_step(clients, i, id);
        assert(mid.contains_key(id) <==> is_online(front, id));
    }
}

pub(crate) proof fn lemma_charged_step(
    last_channel: Map<TsClDBID, TsChannelID>,
    clients: Seq<ClientView>,
    i: int,
    key: (TsClDBID, TsChannelID),
)
    requires
        0 <= i < clients.len(),
    ensures
        is_charged(last_channel, clients.take(i + 1), key) <==> is_charged(
            last_channel,
            clients.take(i),
            key,
        ) || charged_key(last_channel, clients[i]) == key,
{
    let front = clients.take(i);
    let longer = clients.take(i + 1);
    if is_charged(last_channel, longer, key) {
        let k = choose|k: int|
            0 <= k < longer.len() && charged_key(last_channel, #[trigger] longer[k]) == key;
        if k < i {
            assert(front[k] == longer[k]);
        }
    }
    if is_charged(last_channel, front, key) {
        let k = choose|k: int|
            0 <= k < front.len() && charged_key(last_channel, #[trigger] front[k]) == key;
        assert(longer[k] == front[k]);
    }
    if charged_key(last_channel, clients[i]) == key {
        assert(longer[i] == clients[i]);
    }
}

/// The entry of a client is not among those of the clients before it.
pub(crate) proof fn lemma_charged_once(
    last_channel: Map<TsClDBID, TsChannelID>,
    clients: Seq<ClientView>,
    i: int,
)
    requires
        0 <= i < clients.len(),
        distinct_ids(clients),
    ensures
        !is_charged(last_channel, clients.take(i), charged_key(last_channel, clients[i])),
{
    let front = clients.take(i);
    let key = charged_key(last_channel, clients[i]);
    if is_charged(last_channel, front, key) {
        let k = choose|k: int|
            0 <= k < front.len() && charged_key(last_channel, #[trigger] front[k]) == key;
        assert(clients[k].cldbid != clients[i].cldbid);
    }
}

pub(crate) proof fn lemma_times_step(
    before: Map<(TsClDBID, TsChannelID), i32>,
    last_channel: Map<TsClDBID, TsChannelID>,
    clients: Seq<ClientView>,
    elapsed: int,
    i: int,
    mid: Map<(TsClDBID, TsChannelID), i32>,
    time: i32,
)
    requires
        0 <= i < clients.len(),
        distinct_ids(clients),
        times_charged(before, last_channel, clients.take(i), elapsed, mid),
        time == time_of(before, charged_key(last_channel, clients[i])) + elapsed,
    ensures
        times_charged(
            before,
            last_channel,
            clients.take(i + 1),
            elapsed,
            mid.insert(charged_key(last_channel, clients[i]), time),
        ),
{
    let front = clients.take(i);
    let longer = clients.take(i + 1);
    let last = charged_key(last_channel, clients[i]);
    let after = mid.insert(last, time);
    assert forall|k: int| 0 <= k < longer.len() implies ({
        let key = charged_key(last_channel, #[trigger] longer[k]);
        after.contains_key(key) && after[key] == time_of(before, key) + elapsed
    }) by {
        if k < i {
            assert(front[k] == longer[k]);
            assert(clients[k].cldbid != clients[i].cldbid);
        }
    }
    assert forall|key: (TsClDBID, TsChannelID)| #[trigger]
        after.contains_key(key) <==> before.contains_key(key) || is_charged(
            last_channel,
            longer,
            key,
        ) by {
        lemma_charged_step(last_channel, clients, i, key);
        assert(mid.contains_key(key) <==> before.contains_key(key) || is_charged(
            last_channel,
            front,
            key,
        ));
    }
    assert forall|key: (TsClDBID, TsChannelID)|
        before.contains_key(key) && !is_charged(last_channel, longer, key) implies #[trigger]
    after[key] == before[key] by {
        lemma_charged_step(last_channel, clients, i, key);
        assert(mid[key] == before[key]);
    }
}

pub(crate) proof fn lemma_watch_step(config: PokeConfig, clients: Seq<ClientView>, i: int)
    requires
        0 <= i < clients.len(),
    ensures
        guest_waits(config, clients.take(i + 1)) == (guest_waits(config, clients.take(i))
            || is_waiting_guest(config, clients[i])),
        receiver_at_place(config, clients.take(i + 1)) == (receiver_at_place(
            config,
            clients.take(i),
        ) || is_receiver_at_place(config, clients[i])),
        poke_targets(config, clients.take(i + 1)) == (if is_poke_target(config, clients[i]) {
            poke_targets(config, clients.take(i)).push(clients[i].conid)
        } else {
            poke_targets(config, clients.take(i))
        }),
{
    let front = clients.take(i);
    let longer = clients.take(i + 1);
    if guest_waits(config, longer) {
        let k = choose|k: int| 0 <= k < longer.len() && is_waiting_guest(config, #[trigger] longer[k]);
        if k < i {
            assert(front[k] == longer[k]);
        }
    }
    if guest_waits(config, front) {
        let k = choose|k: int| 0 <= k < front.len() && is_waiting_guest(config, #[trigger] front[k]);
        assert(longer[k] == front[k]);
    }
    if is_waiting_guest(config, clients[i]) {
        assert(longer[i] == clients[i]);
    }
    if receiver_at_place(config, longer) {
        let k = choose|k: int|
            0 <= k < longer.len() && is_receiver_at_place(config, #[trigger] longer[k]);
        if k < i {
            assert(front[k] == longer[k]);
        }
    }
    if receiver_at_place(config, front) {
        let k = choose|k: int|
            0 <= k < front.len() && is_receiver_at_place(config, #[trigger] front[k]);
        assert(longer[k] == front[k]);
    }
    if is_receiver_at_place(config, clients[i]) {
        assert(longer[i] == clients[i]);
    }
    reveal(Seq::filter);
    assert(longer.drop_last() =~= front);
    assert(longer.last() == clients[i]);
    assert(poke_targets(config, longer) =~= (if is_poke_target(config, clients[i]) {
        poke_targets(config, front).push(clients[i].conid)
    } else {
        poke_targets(config, front)
    }));
}

} // verus!
