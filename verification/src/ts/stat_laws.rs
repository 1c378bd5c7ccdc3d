//! What a look at the clients and a flush do to names, times and channels.

use vstd::prelude::*;

use crate::ts::client::{ClientView, TsChannelID, TsClDBID};
use crate::ts::stats::{
    activity_pairs, charged_key, flushed, is_charged, is_online, name_pairs,
    seconds_between, tick_fits, ticked, Date, FlushAction, FlushEvent, Moment, StatView,
    TsStatCtrl,
};

verus! {

/// The statistics are what their fields hold.
pub proof fn law_stats_leave_nothing_out(stats: TsStatCtrl, id: TsClDBID)
    ensures
        stats@.names.contains_key(id) == stats.names@.contains_key(id),
        stats.names@.contains_key(id) ==> stats@.names[id] == stats.names@[id]@,
        stats@.times == stats.times@,
        stats@.last_channel == stats.last_channel@,
        stats@.last_date == stats.last_date,
        stats@.last_update == stats.last_update,
        stats@.last_guest_poke == stats.last_guest_poke,
        stats@.poke_config == stats.poke_config,
{
}

/// Whether `seconds` whole seconds of a clock of nanoseconds lie between two moments, none where the
/// clock ran back.
pub open spec fn lies_between(seconds: int, earlier: Moment, later: Moment) -> bool {
    if later < earlier {
        seconds == 0
    } else {
        seconds * 1_000_000_000 <= later - earlier < (seconds + 1) * 1_000_000_000
    }
}

/// The seconds that are counted between two moments are those that have passed in full, and none
/// where the clock ran back.
pub proof fn law_whole_seconds(earlier: Moment, later: Moment, seconds: int)
    ensures
        lies_between(seconds, earlier, later) <==> seconds_between(earlier, later) == seconds,
{
}

/// The time between a first and a second moment, and from there to a third, is the time from the
/// first to the third, but for a second that is lost in rounding.
pub proof fn law_seconds_add_up(first: Moment, second: Moment, third: Moment)
    requires
        first <= second <= third,
    ensures
        seconds_between(first, second) + seconds_between(second, third) <= seconds_between(
            first,
            third,
        ) <= seconds_between(first, second) + seconds_between(second, third) + 1,
{
}

/// After a look every client in the list has the name that it has there, and of nobody else a name
/// was added, dropped or changed.
pub proof fn law_tick_names(
    before: StatView,
    clients: Seq<ClientView>,
    new_timestamp: Moment,
    now: Moment,
    after: StatView,
    id: TsClDBID,
)
    requires
        ticked(before, clients, new_timestamp, now, after),
    ensures
        forall|i: int|
            0 <= i < clients.len() && (#[trigger] clients[i]).cldbid == id
                ==> after.names.contains_key(id) && after.names[id] == clients[i].name,
        (forall|i: int| 0 <= i < clients.len() ==> (#[trigger] clients[i]).cldbid != id) ==> {
            &&& after.names.contains_key(id) == before.names.contains_key(id)
            &&& before.names.contains_key(id) ==> after.names[id] == before.names[id]
        },
{
    if forall|i: int| 0 <= i < clients.len() ==> (#[trigger] clients[i]).cldbid != id {
        assert(!is_online(clients, id));
        if before.names.contains_key(id) {
            assert(after.names[id] == before.names[id]);
        }
    }
}

/// After a look the channel of every client in the list is remembered, and of nobody else.
pub proof fn law_tick_channels(
    before: StatView,
    clients: Seq<ClientView>,
    new_timestamp: Moment,
    now: Moment,
    after: StatView,
    id: TsClDBID,
)
    requires
        ticked(before, clients, new_timestamp, now, after),
    ensures
        forall|i: int|
            0 <= i < clients.len() && (#[trigger] clients[i]).cldbid == id
                ==> after.last_channel.contains_key(id) && after.last_channel[id]
                == clients[i].channel,
        (forall|i: int| 0 <= i < clients.len() ==> (#[trigger] clients[i]).cldbid != id)
            ==> !after.last_channel.contains_key(id),
{
    if forall|i: int| 0 <= i < clients.len() ==> (#[trigger] clients[i]).cldbid != id {
        assert(!is_online(clients, id));
    }
}

/// A look gives every client in the list the seconds since the last look, in the channel that was
/// remembered of it, or in its own where none was.
pub proof fn law_tick_gives_time(
    before: StatView,
    clients: Seq<ClientView>,
    new_timestamp: Moment,
    now: Moment,
    after: StatView,
    i: int,
    channel: TsChannelID,
    seconds: int,
)
    requires
        ticked(before, clients, new_timestamp, now, after),
        0 <= i < clients.len(),
        lies_between(seconds, before.last_update, now),
        before.last_channel.contains_key(clients[i].cldbid) ==> channel
            == before.last_channel[clients[i].cldbid],
        !before.last_channel.contains_key(clients[i].cldbid) ==> channel == clients[i].channel,
    ensures
        ({
            let key = (clients[i].cldbid, channel);
            &&& after.times.contains_key(key)
            &&& before.times.contains_key(key) ==> after.times[key] == before.times[key] + seconds
            &&& !before.times.contains_key(key) ==> after.times[key] == seconds
        }),
{
    law_whole_seconds(before.last_update, now, seconds);
    assert(charged_key(before.last_channel, clients[i]) == (clients[i].cldbid, channel));
}

/// A look leaves the time of everything else as it was: of clients that are not in the list, and of
/// channels other than the one remembered or, where none was, the client's own.
pub proof fn law_tick_leaves_other_times(
    before: StatView,
    clients: Seq<ClientView>,
    new_timestamp: Moment,
    now: Moment,
    after: StatView,
    key: (TsClDBID, TsChannelID),
)
    requires
        ticked(before, clients, new_timestamp, now, after),
        forall|i: int|
            0 <= i < clients.len() && (#[trigger] clients[i]).cldbid == key.0 ==> {
                if before.last_channel.contains_key(key.0) {
                    before.last_channel[key.0] != key.1
                } else {
                    clients[i].channel != key.1
                }
            },
    ensures
        after.times.contains_key(key) == before.times.contains_key(key),
        before.times.contains_key(key) ==> after.times[key] == before.times[key],
{
    assert(!is_charged(before.last_channel, clients, key)) by {
        if is_charged(before.last_channel, clients, key) {
            let i = choose|i: int|
                0 <= i < clients.len() && charged_key(before.last_channel, #[trigger] clients[i])
                    == key;
            assert(clients[i].cldbid == key.0);
        }
    }
    if before.times.contains_key(key) {
        assert(after.times[key] == before.times[key]);
    }
}

/// A look counts from when it was begun, and touches neither day, last poke nor poke config.
pub proof fn law_tick_leaves_the_rest(
    before: StatView,
    clients: Seq<ClientView>,
    new_timestamp: Moment,
    now: Moment,
    after: StatView,
)
    requires
        ticked(before, clients, new_timestamp, now, after),
    ensures
        after.last_update == new_timestamp,
        after.last_date == before.last_date,
        after.last_guest_poke == before.last_guest_poke,
        after.poke_config == before.poke_config,
{
}

/// A look can be taken in exactly where its seconds fit into 32 bits, alone and on top of what each
/// client in the list already has.
pub proof fn law_when_a_tick_fits(
    stats: StatView,
    clients: Seq<ClientView>,
    now: Moment,
    seconds: int,
)
    requires
        lies_between(seconds, stats.last_update, now),
    ensures
        tick_fits(stats, clients, now) <==> {
            &&& seconds <= 2147483647
            &&& forall|i: int|
                0 <= i < clients.len() ==> {
                    let id = (#[trigger] clients[i]).cldbid;
                    let key = (
                        id,
                        if stats.last_channel.contains_key(id) {
                            stats.last_channel[id]
                        } else {
                            clients[i].channel
                        },
                    );
                    stats.times.contains_key(key) ==> stats.times[key] + seconds <= 2147483647
                }
        },
{
    law_whole_seconds(stats.last_update, now, seconds);
    if seconds <= 2147483647 && forall|i: int|
        0 <= i < clients.len() ==> {
            let id = (#[trigger] clients[i]).cldbid;
            let key = (
                id,
                if stats.last_channel.contains_key(id) {
                    stats.last_channel[id]
                } else {
                    clients[i].channel
                },
            );
            stats.times.contains_key(key) ==> stats.times[key] + seconds <= 2147483647
        } {
        assert(tick_fits(stats, clients, now));
    }
    if tick_fits(stats, clients, now) {
        assert forall|i: int| 0 <= i < clients.len() implies {
            let id = (#[trigger] clients[i]).cldbid;
            let key = (
                id,
                if stats.last_channel.contains_key(id) {
                    stats.last_channel[id]
                } else {
                    clients[i].channel
                },
            );
            stats.times.contains_key(key) ==> stats.times[key] + seconds <= 2147483647
        } by {
            let key = charged_key(stats.last_channel, clients[i]);
        }
    }
}

/// A flush begins with the names: every name that is known stands in the batch, under its identity,
/// and the batch has nothing else and nothing twice. Nothing is given up yet.
pub proof fn law_flush_hands_over_names(
    before: StatView,
    action: FlushAction,
    after: StatView,
    id: TsClDBID,
)
    requires
        flushed(before, FlushEvent::Begin, action, after),
    ensures
        after == before,
        action is StoreNames,
        ({
            let batch = action->StoreNames_0@;
            &&& before.names.contains_key(id) ==> exists|i: int|
                0 <= i < batch.len() && (#[trigger] batch[i]).0 == id && batch[i].1@
                    == before.names[id]
            &&& forall|i: int|
                0 <= i < batch.len() ==> before.names.contains_key((#[trigger] batch[i]).0)
                    && batch[i].1@ == before.names[batch[i].0]
            &&& forall|i: int, j: int|
                0 <= i < j < batch.len() ==> (#[trigger] batch[i]).0 != (#[trigger] batch[j]).0
        }),
{
    let batch = action->StoreNames_0@;
    let pairs = name_pairs(batch);
    if before.names.contains_key(id) {
        let i = choose|i: int| 0 <= i < pairs.len() && (#[trigger] pairs[i]).0 == id;
        assert(before.names[pairs[i].0] == pairs[i].1);
        assert(batch[i].0 == id && batch[i].1@ == before.names[id]);
    }
    assert forall|i: int| 0 <= i < batch.len() implies before.names.contains_key(
        (#[trigger] batch[i]).0,
    ) && batch[i].1@ == before.names[batch[i].0] by {
        assert(before.names.contains_key(pairs[i].0));
    }
    assert forall|i: int, j: int| 0 <= i < j < batch.len() implies (#[trigger] batch[i]).0 != (
    #[trigger] batch[j]).0 by {
        assert(pairs[i].0 != pairs[j].0);
    }
}

/// Once the names are stored they are given up, and the times are next: every time stands in the
/// batch, with its client and its channel, under the day that it was gathered for, and the batch has
/// nothing else and nothing twice.
pub proof fn law_flush_hands_over_times(
    before: StatView,
    action: FlushAction,
    after: StatView,
    client: TsClDBID,
    channel: TsChannelID,
)
    requires
        flushed(before, FlushEvent::NamesStored, action, after),
    ensures
        after.names == Map::<TsClDBID, Seq<char>>::empty(),
        after.times == before.times,
        after.last_channel == before.last_channel,
        after.last_date == before.last_date,
        after.last_update == before.last_update,
        after.last_guest_poke == before.last_guest_poke,
        after.poke_config == before.poke_config,
        action is StoreActivity,
        action->StoreActivity_0 == before.last_date,
        ({
            let batch = action->StoreActivity_1@;
            &&& before.times.contains_key((client, channel)) ==> exists|i: int|
                0 <= i < batch.len() && (#[trigger] batch[i]).client == client && batch[i].channel
                    == channel && batch[i].time == before.times[(client, channel)]
            &&& forall|i: int|
                0 <= i < batch.len() ==> before.times.contains_key(
                    ((#[trigger] batch[i]).client, batch[i].channel),
                ) && batch[i].time == before.times[(batch[i].client, batch[i].channel)]
            &&& forall|i: int, j: int|
                0 <= i < j < batch.len() ==> (#[trigger] batch[i]).client != (
                #[trigger] batch[j]).client || batch[i].channel != batch[j].channel
        }),
{
    let batch = action->StoreActivity_1@;
    let pairs = activity_pairs(batch);
    let key = (client, channel);
    if before.times.contains_key(key) {
        let i = choose|i: int| 0 <= i < pairs.len() && (#[trigger] pairs[i]).0 == key;
        assert(before.times[pairs[i].0] == pairs[i].1);
        assert(batch[i].client == client && batch[i].channel == channel);
    }
    assert forall|i: int| 0 <= i < batch.len() implies before.times.contains_key(
        ((#[trigger] batch[i]).client, batch[i].channel),
    ) && batch[i].time == before.times[(batch[i].client, batch[i].channel)] by {
        assert(before.times.contains_key(pairs[i].0));
    }
    assert forall|i: int, j: int| 0 <= i < j < batch.len() implies (#[trigger] batch[i]).client != (
    #[trigger] batch[j]).client || batch[i].channel != batch[j].channel by {
        assert(pairs[i].0 != pairs[j].0);
    }
}

/// Once the times are stored they are given up, and what comes next is gathered for the new day;
/// nothing else changes, and the flush is over.
pub proof fn law_flush_ends(
    before: StatView,
    today: Date,
    action: FlushAction,
    after: StatView,
)
    requires
        flushed(before, FlushEvent::ActivityStored(today), action, after),
    ensures
        action is Finish,
        after.times == Map::<(TsClDBID, TsChannelID), i32>::empty(),
        after.last_date == today,
        after.names == before.names,
        after.last_channel == before.last_channel,
        after.last_update == before.last_update,
        after.last_guest_poke == before.last_guest_poke,
        after.poke_config == before.poke_config,
{
}

/// A step of a flush that fails ends it, and nothing is given up.
pub proof fn law_failed_step_keeps_everything(
    before: StatView,
    action: FlushAction,
    after: StatView,
)
    requires
        flushed(before, FlushEvent::Failed, action, after),
    ensures
        action is Abort,
        after == before,
{
}

} // verus!
