//! What the daemon knows of the clients: names, time spent in channels, and when it last looked.

use std::collections::{BTreeMap, HashMap};

use vstd::prelude::*;
use vstd::std_specs::iter::IteratorSpec;

use crate::query::{escape_arg, escaped, texts};
use crate::text::decimal;
use crate::ts::client::{
    client_views, distinct_ids, ClientView, OnlineClients, TsChannelID, TsClDBID, TsConID,
};
use crate::ts::poke::{
    command_cooldown, cooldown_millis, guest_waits, poke_command, poke_commands, poke_targets,
    receiver_at_place, GuestWatch, PokeConfig, PokeDecision, PokePlan, COOLDOWN_POKE_S,
};
use crate::ts::tick_steps::{
    lemma_channels_step, lemma_charged_once, lemma_names_step, lemma_times_step, lemma_watch_step,
};

verus! {

broadcast use {vstd::laws_cmp::group_laws_cmp, vstd::std_specs::btree::group_btree_axioms};

/// A reading of the monotonic clock, in nanoseconds.
pub type Moment = u64;

pub const NANOS_PER_SECOND: u64 = 1_000_000_000;

/// A day of the calendar.
#[derive(Clone, Copy, Debug, PartialEq, Eq, Structural)]
pub struct Date {
    pub year: i32,
    pub month: u32,
    pub day: u32,
}

/// Seconds that a client spent in a channel.
#[derive(Clone, Copy, Debug, PartialEq, Eq, Structural)]
pub struct TsActivity {
    pub client: TsClDBID,
    pub channel: TsChannelID,
    pub time: i32,
}

/// Whole seconds from one moment to another, none where the other is not later.
pub open spec fn seconds_between(earlier: Moment, later: Moment) -> int {
    if later <= earlier {
        0
    } else {
        (later - earlier) / 1_000_000_000
    }
}

/// Counts the whole seconds from one moment to another.
pub fn seconds_since(earlier: Moment, later: Moment) -> (seconds: u64)
    ensures
        seconds == seconds_between(earlier, later),
{
    if later <= earlier {
        0
    } else {
        (later - earlier) / NANOS_PER_SECOND
    }
}

/// Holds TS statistics data
#[derive(Debug)]
pub struct TsStatCtrl {
    /// Names to store
    pub names: HashMap<TsClDBID, String>,
    /// Seconds to store, by client and channel
    pub times: BTreeMap<(TsClDBID, TsChannelID), i32>,
    /// Channel of each client that was online at the last look
    pub last_channel: HashMap<TsClDBID, TsChannelID>,
    /// Day that the seconds are stored under
    pub last_date: Date,
    pub last_update: Moment,
    pub last_guest_poke: Option<Moment>,
    /// none also if no poke enabled
    pub poke_config: Option<PokeConfig>,
}

pub ghost struct StatView {
    pub names: Map<TsClDBID, Seq<char>>,
    pub times: Map<(TsClDBID, TsChannelID), i32>,
    pub last_channel: Map<TsClDBID, TsChannelID>,
    pub last_date: Date,
    pub last_update: Moment,
    pub last_guest_poke: Option<Moment>,
    pub poke_config: Option<PokeConfig>,
}

impl View for TsStatCtrl {
    type V = StatView;

    open spec fn view(&self) -> StatView {
        StatView {
            names: self.names@.map_values(|name: String| name@),
            times: self.times@,
            last_channel: self.last_channel@,
            last_date: self.last_date,
            last_update: self.last_update,
            last_guest_poke: self.last_guest_poke,
            poke_config: self.poke_config,
        }
    }
}

/// Whether the identity is in the list.
pub open spec fn is_online(clients: Seq<ClientView>, id: TsClDBID) -> bool {
    exists|i: int| 0 <= i < clients.len() && (#[trigger] clients[i]).cldbid == id
}

/// The entry that a client's time is added to: its channel at the last look, or the current one if
/// no previous is known.
pub open spec fn charged_key(
    last_channel: Map<TsClDBID, TsChannelID>,
    client: ClientView,
) -> (TsClDBID, TsChannelID) {
    (
        client.cldbid,
        if last_channel.contains_key(client.cldbid) {
            last_channel[client.cldbid]
        } else {
            client.channel
        },
    )
}

/// The time of an entry, none where there is no such entry.
pub open spec fn time_of(
    times: Map<(TsClDBID, TsChannelID), i32>,
    key: (TsClDBID, TsChannelID),
) -> int {
    if times.contains_key(key) {
        times[key] as int
    } else {
        0
    }
}

/// Whether time is added to the entry `key`.
pub open spec fn is_charged(
    last_channel: Map<TsClDBID, TsChannelID>,
    clients: Seq<ClientView>,
    key: (TsClDBID, TsChannelID),
) -> bool {
    exists|i: int|
        0 <= i < clients.len() && charged_key(last_channel, #[trigger] clients[i]) == key
}

/// `after` has the current name of every client in the list, and every other name of `before`.
pub open spec fn names_updated(
    before: Map<TsClDBID, Seq<char>>,
    clients: Seq<ClientView>,
    after: Map<TsClDBID, Seq<char>>,
) -> bool {
    &&& forall|i: int|
        0 <= i < clients.len() ==> after.contains_key((#[trigger] clients[i]).cldbid)
            && after[clients[i].cldbid] == clients[i].name
    &&& forall|id: TsClDBID| #[trigger]
        after.contains_key(id) <==> before.contains_key(id) || is_online(clients, id)
    &&& forall|id: TsClDBID|
        before.contains_key(id) && !is_online(clients, id) ==> #[trigger] after[id] == before[id]
}

/// `after` has `elapsed` seconds more than `before` for every client in the list, and is otherwise
/// the same.
pub open spec fn times_charged(
    before: Map<(TsClDBID, TsChannelID), i32>,
    last_channel: Map<TsClDBID, TsChannelID>,
    clients: Seq<ClientView>,
    elapsed: int,
    after: Map<(TsClDBID, TsChannelID), i32>,
) -> bool {
    &&& forall|i: int|
        0 <= i < clients.len() ==> {
            let key = charged_key(last_channel, #[trigger] clients[i]);
            after.contains_key(key) && after[key] == time_of(before, key) + elapsed
        }
    &&& forall|key: (TsClDBID, TsChannelID)| #[trigger]
        after.contains_key(key) <==> before.contains_key(key) || is_charged(
            last_channel,
            clients,
            key,
        )
    &&& forall|key: (TsClDBID, TsChannelID)|
        before.contains_key(key) && !is_charged(last_channel, clients, key) ==> #[trigger]
        after[key] == before[key]
}

/// `channels` holds the current channel of every client in the list and nothing of any other.
pub open spec fn channels_remembered(
    clients: Seq<ClientView>,
    channels: Map<TsClDBID, TsChannelID>,
) -> bool {
    &&& forall|i: int|
        0 <= i < clients.len() ==> channels.contains_key((#[trigger] clients[i]).cldbid)
            && channels[clients[i].cldbid] == clients[i].channel
    &&& forall|id: TsClDBID| #[trigger] channels.contains_key(id) <==> is_online(clients, id)
}

/// Whether the time since the last look can be counted, and added for every client in the list.
pub open spec fn tick_fits(stats: StatView, clients: Seq<ClientView>, now: Moment) -> bool {
    let elapsed = seconds_between(stats.last_update, now);
    &&& elapsed <= i32::MAX
    &&& forall|i: int|
        0 <= i < clients.len() ==> time_of(
            stats.times,
            charged_key(stats.last_channel, #[trigger] clients[i]),
        ) + elapsed <= i32::MAX
}

/// Whether guests are looked for at `now`: there is a poke config, and no poke yet or the last one
/// longer ago than the cooldown.
pub open spec fn looks_for_guests(stats: StatView, now: Moment) -> bool {
    &&& stats.poke_config is Some
    &&& stats.last_guest_poke is None || seconds_between(stats.last_guest_poke->0, now)
        > COOLDOWN_POKE_S
}

/// Whether a look at the clients at `now` leads to a poke: a guest waits, and no poke-receiver is at
/// place.
pub open spec fn pokes(stats: StatView, clients: Seq<ClientView>, now: Moment) -> bool {
    &&& looks_for_guests(stats, now)
    &&& guest_waits(stats.poke_config->0, clients)
    &&& !receiver_at_place(stats.poke_config->0, clients)
}

/// Whether a look at the clients at `now` starts the cooldown anew: a poke-receiver is at place.
pub open spec fn resets_cooldown(stats: StatView, clients: Seq<ClientView>, now: Moment) -> bool {
    looks_for_guests(stats, now) && receiver_at_place(stats.poke_config->0, clients)
}

/// Whether a look at the clients at `now` leads to `decision`.
pub open spec fn decided(
    stats: StatView,
    clients: Seq<ClientView>,
    now: Moment,
    decision: PokeDecision,
) -> bool {
    match decision {
        PokeDecision::Poke(targets) => {
            &&& pokes(stats, clients, now)
            &&& targets@ == poke_targets(stats.poke_config->0, clients)
        },
        PokeDecision::ResetCooldown => resets_cooldown(stats, clients, now),
        PokeDecision::Nothing => {
            &&& !pokes(stats, clients, now)
            &&& !resets_cooldown(stats, clients, now)
        },
    }
}

/// Whether a look at `clients` that was begun at `new_timestamp` and answered at `now` leads from
/// the one state to the other.
pub open spec fn ticked(
    before: StatView,
    clients: Seq<ClientView>,
    new_timestamp: Moment,
    now: Moment,
    after: StatView,
) -> bool {
    &&& names_updated(before.names, clients, after.names)
    &&& times_charged(
        before.times,
        before.last_channel,
        clients,
        seconds_between(before.last_update, now),
        after.times,
    )
    &&& channels_remembered(clients, after.last_channel)
    &&& after.last_update == new_timestamp
    &&& after.last_date == before.last_date
    &&& after.last_guest_poke == before.last_guest_poke
    &&& after.poke_config == before.poke_config
}

/// `batch` lists the entries of `m`, each once.
pub open spec fn lists<K, V>(batch: Seq<(K, V)>, m: Map<K, V>) -> bool {
    &&& forall|i: int|
        0 <= i < batch.len() ==> m.contains_key((#[trigger] batch[i]).0) && m[batch[i].0]
            == batch[i].1
    &&& forall|k: K| #[trigger]
        m.contains_key(k) ==> exists|i: int| 0 <= i < batch.len() && (#[trigger] batch[i]).0 == k
    &&& forall|i: int, j: int|
        0 <= i < j < batch.len() ==> (#[trigger] batch[i]).0 != (#[trigger] batch[j]).0
}

/// The names of a batch as pairs.
pub open spec fn name_pairs(batch: Seq<(TsClDBID, String)>) -> Seq<(TsClDBID, Seq<char>)> {
    batch.map_values(|pair: (TsClDBID, String)| (pair.0, pair.1@))
}

/// The activities of a batch as pairs.
pub open spec fn activity_pairs(batch: Seq<TsActivity>) -> Seq<
    ((TsClDBID, TsChannelID), i32),
> {
    batch.map_values(|a: TsActivity| ((a.client, a.channel), a.time))
}

/// What the settings say about a poke config after they were read: the config that was put together,
/// or none where guests are not watched for.
pub open spec fn poke_config_read<E>(
    enabled: bool,
    read: Result<Option<PokeConfig>, E>,
) -> Option<PokeConfig> {
    if enabled {
        read->Ok_0
    } else {
        None
    }
}

pub const POKE_ENABLED_MSG: &'static str = "Ts-Poke enabled";

pub const POKE_DISABLED_MSG: &'static str = "Ts-Poke disabled";

/// What is logged when the poke config goes from `before` to `after`: whether it is enabled, where
/// that changed or on the first run.
pub open spec fn settings_message(
    before: Option<PokeConfig>,
    after: Option<PokeConfig>,
    first_run: bool,
) -> Option<&'static str> {
    if before is Some == after is Some && !first_run {
        None
    } else if after is Some {
        Some(POKE_ENABLED_MSG)
    } else {
        Some(POKE_DISABLED_MSG)
    }
}

/// How far a flush has come.
#[derive(Debug)]
pub enum FlushEvent {
    /// The database is connected.
    Begin,
    /// The names are stored.
    NamesStored,
    /// The activities are stored, on this day.
    ActivityStored(Date),
    /// The last step failed.
    Failed,
}

/// What a flush does next.
#[derive(Debug)]
pub enum FlushAction {
    StoreNames(Vec<(TsClDBID, String)>),
    /// Store the activities under the date.
    StoreActivity(Date, Vec<TsActivity>),
    Finish,
    Abort,
}

/// What a flush does on `event`: the names first, then the seconds. What was stored is cleared, and
/// only that.
pub open spec fn flushed(
    before: StatView,
    event: FlushEvent,
    action: FlushAction,
    after: StatView,
) -> bool {
    match event {
        FlushEvent::Begin => {
            &&& after == before
            &&& action is StoreNames
            &&& lists(name_pairs(action->StoreNames_0@), before.names)
        },
        FlushEvent::NamesStored => {
            &&& after == (StatView { names: Map::empty(), ..before })
            &&& action is StoreActivity
            &&& action->StoreActivity_0 == before.last_date
            &&& lists(activity_pairs(action->StoreActivity_1@), before.times)
        },
        FlushEvent::ActivityStored(today) => {
            &&& after == (StatView { times: Map::empty(), last_date: today, ..before })
            &&& action is Finish
        },
        FlushEvent::Failed => after == before && action is Abort,
    }
}

/// Pairs made of all the entries of `m`, in the order in which they were walked, list `m` with its
/// values taken by `view`.
proof fn lemma_lists<K, V, W>(
    walked: Seq<(&K, &V)>,
    m: Map<K, V>,
    view: spec_fn(V) -> W,
    pairs: Seq<(K, W)>,
)
    requires
        walked.no_duplicates(),
        forall|i: int|
            0 <= i < walked.len() ==> m.contains_key(*(#[trigger] walked[i]).0) && m[*walked[i].0]
                == *walked[i].1,
        forall|k: K| #[trigger] m.contains_key(k) ==> walked.contains((&k, &m[k])),
        pairs.len() == walked.len(),
        forall|i: int|
            0 <= i < pairs.len() ==> #[trigger] pairs[i] == (*walked[i].0, view(*walked[i].1)),
    ensures
        lists(pairs, m.map_values(view)),
{
    let viewed = m.map_values(view);
    assert forall|k: K| #[trigger] viewed.contains_key(k) implies exists|i: int|
        0 <= i < pairs.len() && (#[trigger] pairs[i]).0 == k by {
        assert(m.contains_key(k));
        let i = choose|i: int| 0 <= i < walked.len() && walked[i] == (&k, &m[k]);
        assert(pairs[i].0 == k);
    }
    assert forall|i: int, j: int| 0 <= i < j < pairs.len() implies (#[trigger] pairs[i]).0 != (
    #[trigger] pairs[j]).0 by {
        assert(walked[i] != walked[j]);
    }
}

impl TsStatCtrl {
    /// Tells whether the time since the last look can be counted and added for `clients`.
    pub fn tick_fits(&self, clients: &OnlineClients, now: Moment) -> (fits: bool)
        ensures
            fits == tick_fits(self@, clients@, now),
    {
        let elapsed: u64 = seconds_since(self.last_update, now);
        if elapsed > 2147483647 {
            return false;
        }
        let entries = clients.entries();
        let len: usize = entries.len();
        let mut i: usize = 0;
        while i < len
            invariant
                len == entries@.len(),
                client_views(entries@) == clients@,
                elapsed == seconds_between(self.last_update, now),
                elapsed <= 2147483647,
                i <= len,
                forall|k: int|
                    0 <= k < i ==> time_of(
                        self.times@,
                        charged_key(self.last_channel@, #[trigger] clients@[k]),
                    ) + elapsed <= i32::MAX,
            decreases len - i,
        {
            assert(clients@[i as int] == entries@[i as int]@);
            let id: i32 = entries[i].cldbid;
            let chan: i32 = match self.last_channel.get(&id) {
                Some(chan) => *chan,
                None => entries[i].channel,
            };
            let time: i32 = match self.times.get(&(id, chan)) {
                Some(time) => *time,
                None => 0,
            };
            if time as i64 + elapsed as i64 > 2147483647 {
                return false;
            }
            i = i + 1;
        }
        true
    }

    /// Takes in the clients that are online: remembers their names, adds the time since the last
    /// look to the channels that they were in, remembers the channels that they are in, and says
    /// what is to be done about guests. The look was begun at `new_timestamp`, and answered at
    /// `now`.
    pub fn tick(
        &mut self,
        new_timestamp: Moment,
        now: Moment,
        clients: &OnlineClients,
    ) -> (decision: PokeDecision)
        requires
            tick_fits(old(self)@, clients@, now),
        ensures
            ticked(old(self)@, clients@, new_timestamp, now, final(self)@),
            decided(old(self)@, clients@, now, decision),
    {
        let elapsed: i32 = seconds_since(self.last_update, now) as i32;
        self.last_update = new_timestamp;
        let looks = match self.last_guest_poke {
            Some(poke) => seconds_since(poke, now) > COOLDOWN_POKE_S,
            None => true,
        };
        let entries = clients.entries();
        let ghost online = clients@;
        let ghost before = old(self)@;
        let len: usize = entries.len();
        let mut new_channel: HashMap<TsClDBID, TsChannelID> = HashMap::with_capacity(len);
        let mut watch = GuestWatch::new();
        let mut i: usize = 0;
        proof {
            assert(online.take(0) =~= Seq::<ClientView>::empty());
            if before.poke_config is Some {
                reveal(Seq::filter);
                assert(watch.poke_clients@ =~= poke_targets(before.poke_config->0, online.take(0)));
            }
        }
        while i < len
            invariant
                len == entries@.len(),
                client_views(entries@) == online,
                online == clients@,
                distinct_ids(online),
                tick_fits(before, online, now),
                elapsed == seconds_between(before.last_update, now),
                looks == (before.last_guest_poke is None || seconds_between(
                    before.last_guest_poke->0,
                    now,
                ) > COOLDOWN_POKE_S),
                i <= len,
                self.last_channel@ == before.last_channel,
                self.last_date == before.last_date,
                self.last_update == new_timestamp,
                self.last_guest_poke == before.last_guest_poke,
                self.poke_config == before.poke_config,
                names_updated(before.names, online.take(i as int), self@.names),
                times_charged(
                    before.times,
                    before.last_channel,
                    online.take(i as int),
                    elapsed as int,
                    self@.times,
                ),
                channels_remembered(online.take(i as int), new_channel@),
                looks_for_guests(before, now) ==> watch.has_lt == receiver_at_place(
                    before.poke_config->0,
                    online.take(i as int),
                ),
                looks_for_guests(before, now) && !watch.has_lt ==> {
                    &&& watch.new_guest == guest_waits(
                        before.poke_config->0,
                        online.take(i as int),
                    )
                    &&& watch.poke_clients@ == poke_targets(
                        before.poke_config->0,
                        online.take(i as int),
                    )
                },
                !looks_for_guests(before, now) ==> !watch.new_guest && !watch.has_lt,
            decreases len - i,
        {
            let client = &entries[i];
            assert(online[i as int] == client@);
            let id: i32 = client.cldbid;
            let ghost names_before = self.names@;
            self.names.insert(id, client.name.clone());
            proof {
                assert(self@.names =~= names_before.map_values(|name: String| name@).insert(
                    id,
                    client@.name,
                ));
                lemma_names_step(
                    before.names,
                    online,
                    i as int,
                    names_before.map_values(|name: String| name@),
                );
            }
            let chan: i32 = match self.last_channel.get(&id) {
                Some(chan) => *chan,
                None => client.channel,
            };
            let k = (id, chan);
            proof {
                assert(k == charged_key(before.last_channel, online[i as int]));
                lemma_charged_once(before.last_channel, online, i as int);
                assert(self.times@.contains_key(k) <==> before.times.contains_key(k));
                if before.times.contains_key(k) {
                    assert(self.times@[k] == before.times[k]);
                }
                assert(time_of(before.times, charged_key(before.last_channel, online[i as int]))
                    + elapsed <= i32::MAX);
            }
            let time: i32 = match self.times.get(&k) {
                Some(time) => *time + elapsed,
                None => elapsed,
            };
            proof {
                lemma_times_step(
                    before.times,
                    before.last_channel,
                    online,
                    elapsed as int,
                    i as int,
                    self.times@,
                    time,
                );
            }
            self.times.insert(k, time);
            if looks {
                if let Some(cfg) = &self.poke_config {
                    watch.observe(cfg, client);
                }
            }
            proof {
                if before.poke_config is Some {
                    lemma_watch_step(before.poke_config->0, online, i as int);
                }
                lemma_channels_step(online, i as int, new_channel@);
            }
            new_channel.insert(id, client.channel);
            i = i + 1;
        }
        assert(online.take(len as int) =~= online);
        self.last_channel = new_channel;
        watch.decide()
    }

    /// Pokes `clients`: notes the time of the poke, and writes down how it is carried out. `limit`
    /// is the number of commands that the server takes in a second.
    pub fn poke_clients(&mut self, now: Moment, clients: &Vec<TsConID>, limit: u16) -> (plan:
        PokePlan)
        requires
            old(self).poke_config is Some,
        ensures
            final(self)@ == (StatView { last_guest_poke: Some(now), ..old(self)@ }),
            plan.cooldown == cooldown_millis(limit),
            texts(plan.commands@) == clients@.map_values(
                |c: TsConID| poke_command(c, escaped(old(self).poke_config->0.poke_msg@)),
            ),
            plan.commands@.len() == clients@.len(),
            forall|i: int|
                0 <= i < clients@.len() ==> (#[trigger] plan.commands@[i])@ == "poke clid="@
                    + decimal(clients@[i] as int) + " msg="@ + escaped(
                    old(self).poke_config->0.poke_msg@,
                ),
    {
        self.last_guest_poke = Some(now);
        let cooldown = command_cooldown(limit);
        let commands = match &self.poke_config {
            Some(cfg) => {
                let escaped_msg = escape_arg(cfg.poke_msg.as_str());
                poke_commands(clients, escaped_msg.as_str())
            },
            None => Vec::new(),
        };
        PokePlan { cooldown, commands }
    }

    /// Starts the time between two pokes anew.
    pub fn reset_cooldown(&mut self, now: Moment)
        ensures
            final(self)@ == (StatView { last_guest_poke: Some(now), ..old(self)@ }),
    {
        self.last_guest_poke = Some(now);
    }

    /// Starts with nothing known, and takes in the settings for the first time. `enabled` is
    /// whether guests are to be watched for, `read` what reading the poke config gave. Returns
    /// what to log beside the new state.
    pub fn new<E>(
        today: Date,
        now: Moment,
        enabled: bool,
        read: Result<Option<PokeConfig>, E>,
    ) -> (stats: Result<(TsStatCtrl, Option<&'static str>), E>)
        ensures
            match stats {
                Ok((data, message)) => {
                    &&& !enabled || read is Ok
                    &&& data@ == (StatView {
                        names: Map::empty(),
                        times: Map::empty(),
                        last_channel: Map::empty(),
                        last_date: today,
                        last_update: now,
                        last_guest_poke: None,
                        poke_config: poke_config_read(enabled, read),
                    })
                    &&& message == settings_message(
                        None,
                        poke_config_read(enabled, read),
                        true,
                    )
                },
                Err(e) => enabled && read == Err::<Option<PokeConfig>, E>(e),
            },
    {
        let mut data = TsStatCtrl {
            names: HashMap::new(),
            times: BTreeMap::new(),
            last_channel: HashMap::new(),
            last_date: today,
            last_update: now,
            last_guest_poke: None,
            poke_config: None,
        };
        assert(data@.names =~= Map::empty());
        match data.inner_update_settings(true, enabled, read) {
            Ok(message) => Ok((data, message)),
            Err(e) => Err(e),
        }
    }

    /// Update dynamic settings from DB
    pub fn update_settings<E>(
        &mut self,
        enabled: bool,
        read: Result<Option<PokeConfig>, E>,
    ) -> (message: Result<Option<&'static str>, E>)
        ensures
            match message {
                Ok(m) => {
                    &&& !enabled || read is Ok
                    &&& final(self)@ == (StatView {
                        poke_config: poke_config_read(enabled, read),
                        ..old(self)@
                    })
                    &&& m == settings_message(
                        old(self).poke_config,
                        poke_config_read(enabled, read),
                        false,
                    )
                },
                Err(e) => {
                    &&& enabled && read == Err::<Option<PokeConfig>, E>(e)
                    &&& final(self)@ == old(self)@
                },
            },
    {
        self.inner_update_settings(false, enabled, read)
    }

    /// Update dynamic settings from DB. first_run controls log-output
    fn inner_update_settings<E>(
        &mut self,
        first_run: bool,
        enabled: bool,
        read: Result<Option<PokeConfig>, E>,
    ) -> (message: Result<Option<&'static str>, E>)
        ensures
            match message {
                Ok(m) => {
                    &&& !enabled || read is Ok
                    &&& final(self)@ == (StatView {
                        poke_config: poke_config_read(enabled, read),
                        ..old(self)@
                    })
                    &&& m == settings_message(
                        old(self).poke_config,
                        poke_config_read(enabled, read),
                        first_run,
                    )
                },
                Err(e) => {
                    &&& enabled && read == Err::<Option<PokeConfig>, E>(e)
                    &&& final(self)@ == old(self)@
                },
            },
    {
        let old_enabled = self.poke_config.is_some();
        let poke_config = if enabled {
            match read {
                Ok(poke_config) => poke_config,
                Err(e) => {
                    return Err(e);
                },
            }
        } else {
            None
        };
        self.poke_config = poke_config;
        let new_enabled = self.poke_config.is_some();
        if new_enabled != old_enabled || first_run {
            if new_enabled {
                Ok(Some(POKE_ENABLED_MSG))
            } else {
                Ok(Some(POKE_DISABLED_MSG))
            }
        } else {
            Ok(None)
        }
    }

    /// Lists the names to store.
    fn names_batch(&self) -> (batch: Vec<(TsClDBID, String)>)
        ensures
            lists(name_pairs(batch@), self@.names),
    {
        let mut batch: Vec<(TsClDBID, String)> = Vec::new();
        let iter = self.names.iter();
        let ghost all = iter.remaining();
        for entry in it: iter
            invariant
                it.seq() == all,
                batch@.len() == it.index(),
                forall|i: int|
                    0 <= i < batch@.len() ==> (#[trigger] batch@[i]).0 == *all[i].0
                        && batch@[i].1 == *all[i].1,
        {
            let (id, name) = entry;
            batch.push((*id, name.clone()));
        }
        proof {
            lemma_lists(all, self.names@, |name: String| name@, name_pairs(batch@));
        }
        batch
    }

    /// Lists the activities to store.
    fn activity_batch(&self) -> (batch: Vec<TsActivity>)
        ensures
            lists(activity_pairs(batch@), self@.times),
    {
        let mut batch: Vec<TsActivity> = Vec::new();
        let iter = self.times.iter();
        let ghost all = iter.remaining();
        for entry in it: iter
            invariant
                it.seq() == all,
                batch@.len() == it.index(),
                forall|i: int|
                    0 <= i < batch@.len() ==> ((#[trigger] batch@[i]).client, batch@[i].channel)
                        == *all[i].0 && batch@[i].time == *all[i].1,
        {
            let (key, time) = entry;
            batch.push(TsActivity { client: key.0, channel: key.1, time: *time });
        }
        proof {
            lemma_lists(all, self.times@, |time: i32| time, activity_pairs(batch@));
            assert(self.times@.map_values(|time: i32| time) =~= self.times@);
        }
        batch
    }

    /// Flush data to DB: takes in what has happened and says what is next. Data is cleared only
    /// after it was stored.
    pub fn flush_data(&mut self, event: FlushEvent) -> (action: FlushAction)
        ensures
            flushed(old(self)@, event, action, final(self)@),
    {
        match event {
            FlushEvent::Begin => FlushAction::StoreNames(self.names_batch()),
            FlushEvent::NamesStored => {
                self.names.clear();
                assert(self@.names =~= Map::empty());
                FlushAction::StoreActivity(self.last_date, self.activity_batch())
            },
            FlushEvent::ActivityStored(today) => {
                self.times.clear();
                self.last_date = today;
                FlushAction::Finish
            },
            FlushEvent::Failed => FlushAction::Abort,
        }
    }
}

} // verus!
