//! Who is poked, when, and with which words.

use vstd::prelude::*;

use crate::query::{
    escaped, is_one_argument, law_escaped_is_one_argument, law_unescaped_escaped, unescaped,
};
use crate::text::{decimal, law_number_of_decimal, lemma_decimal_chars, number_of};
use crate::ts::client::{ClientView, TsConID, TsGroupID};
use crate::ts::poke::{
    cooldown_millis, guest_waits, is_poke_target, is_receiver_at_place, is_waiting_guest,
    poke_command, poke_config_text, poke_targets, receiver_at_place, PokeConfig, PokeDecision,
};
use crate::ts::stats::{decided, poke_config_read, settings_message, Moment, StatView};

verus! {

/// Whether pokes are not cooling down: there was none yet, or the last one was more than twenty
/// minutes ago, in whole seconds of a clock of nanoseconds.
pub open spec fn cooled_down(last_guest_poke: Option<Moment>, now: Moment) -> bool {
    match last_guest_poke {
        None => true,
        Some(poke) => now - poke >= 1201 * 1_000_000_000,
    }
}

/// A group at any place in a client's list makes the client what it stands for.
pub proof fn law_any_group_counts(config: PokeConfig, client: ClientView, k: int)
    requires
        0 <= k < client.groups.len(),
    ensures
        client.channel == config.guest_channel && client.groups[k] == config.guest_group
            ==> is_waiting_guest(config, client) && !is_receiver_at_place(config, client),
        client.channel != config.guest_channel && client.groups[k] == config.poke_group
            ==> is_poke_target(config, client),
        client.channel == config.guest_channel && client.groups[k] == config.poke_group
            ==> is_receiver_at_place(config, client) || is_waiting_guest(config, client),
{
}

/// Nobody is a guest, to be poked, or a receiver without the group for it and the place for it.
pub proof fn law_no_group_no_part(config: PokeConfig, client: ClientView)
    ensures
        is_waiting_guest(config, client) ==> client.channel == config.guest_channel && exists|k: int|
            0 <= k < client.groups.len() && #[trigger] client.groups[k] == config.guest_group,
        is_poke_target(config, client) ==> client.channel != config.guest_channel && exists|k: int|
            0 <= k < client.groups.len() && #[trigger] client.groups[k] == config.poke_group,
        is_receiver_at_place(config, client) ==> client.channel == config.guest_channel && exists|
            k: int,
        |
            0 <= k < client.groups.len() && #[trigger] client.groups[k] == config.poke_group,
        is_receiver_at_place(config, client) ==> forall|k: int|
            0 <= k < client.groups.len() ==> #[trigger] client.groups[k] != config.guest_group,
{
}

/// A client in the guest channel one of whose groups is the guest group makes a look outside the
/// cooldown lead to a poke, where nobody in that channel has the poke group without the guest group.
pub proof fn law_waiting_guest_leads_to_a_poke(
    stats: StatView,
    clients: Seq<ClientView>,
    now: Moment,
    decision: PokeDecision,
    i: int,
    k: int,
)
    requires
        decided(stats, clients, now, decision),
        stats.poke_config is Some,
        cooled_down(stats.last_guest_poke, now),
        0 <= i < clients.len(),
        0 <= k < clients[i].groups.len(),
        clients[i].channel == stats.poke_config->0.guest_channel,
        clients[i].groups[k] == stats.poke_config->0.guest_group,
        forall|j: int, l: int|
            0 <= j < clients.len() && 0 <= l < clients[j].groups.len() && clients[j].channel
                == stats.poke_config->0.guest_channel && #[trigger] clients[j].groups[l]
                == stats.poke_config->0.poke_group ==> clients[j].groups.contains(
                stats.poke_config->0.guest_group,
            ),
    ensures
        decision is Poke,
        decision->Poke_0@ == poke_targets(stats.poke_config->0, clients),
{
    let config = stats.poke_config->0;
    assert(clients[i].groups.contains(config.guest_group));
    assert(is_waiting_guest(config, clients[i]));
    assert(guest_waits(config, clients));
    assert(!receiver_at_place(config, clients)) by {
        if receiver_at_place(config, clients) {
            let j = choose|j: int|
                0 <= j < clients.len() && is_receiver_at_place(config, #[trigger] clients[j]);
            let l = choose|l: int|
                0 <= l < clients[j].groups.len() && clients[j].groups[l] == config.poke_group;
            assert(clients[j].groups[l] == config.poke_group);
        }
    }
}

/// A client in the guest channel that has the poke group, and not the guest group, makes a look
/// outside the cooldown start it anew, whoever waits.
pub proof fn law_receiver_at_place_starts_the_cooldown(
    stats: StatView,
    clients: Seq<ClientView>,
    now: Moment,
    decision: PokeDecision,
    i: int,
    k: int,
)
    requires
        decided(stats, clients, now, decision),
        stats.poke_config is Some,
        cooled_down(stats.last_guest_poke, now),
        0 <= i < clients.len(),
        0 <= k < clients[i].groups.len(),
        clients[i].channel == stats.poke_config->0.guest_channel,
        clients[i].groups[k] == stats.poke_config->0.poke_group,
        forall|l: int|
            0 <= l < clients[i].groups.len() ==> #[trigger] clients[i].groups[l]
                != stats.poke_config->0.guest_group,
    ensures
        decision is ResetCooldown,
{
    let config = stats.poke_config->0;
    assert(clients[i].groups.contains(config.poke_group));
    assert(is_receiver_at_place(config, clients[i]));
    assert(receiver_at_place(config, clients));
}

/// Nothing is done without a poke config, and nothing within twenty minutes of the last poke.
pub proof fn law_no_look_for_guests(
    stats: StatView,
    clients: Seq<ClientView>,
    now: Moment,
    decision: PokeDecision,
)
    requires
        decided(stats, clients, now, decision),
        stats.poke_config is None || !cooled_down(stats.last_guest_poke, now),
    ensures
        decision is Nothing,
{
}

/// Nothing is done where nobody in the guest channel has the guest group or the poke group.
pub proof fn law_empty_guest_channel(
    stats: StatView,
    clients: Seq<ClientView>,
    now: Moment,
    decision: PokeDecision,
)
    requires
        decided(stats, clients, now, decision),
        stats.poke_config is Some ==> forall|i: int, k: int|
            0 <= i < clients.len() && 0 <= k < clients[i].groups.len() && clients[i].channel
                == stats.poke_config->0.guest_channel ==> #[trigger] clients[i].groups[k]
                != stats.poke_config->0.guest_group && clients[i].groups[k]
                != stats.poke_config->0.poke_group,
    ensures
        decision is Nothing,
{
    if stats.poke_config is Some {
        let config = stats.poke_config->0;
        assert forall|i: int| 0 <= i < clients.len() implies !is_waiting_guest(
            config,
            #[trigger] clients[i],
        ) && !is_receiver_at_place(config, clients[i]) by {
            law_no_group_no_part(config, clients[i]);
        }
    }
}

/// A further client is poked behind all others where it is not in the guest channel and has the poke
/// group at any place in its list, and changes nothing otherwise. Without clients nobody is poked.
pub proof fn law_poke_targets_of_longer(
    config: PokeConfig,
    clients: Seq<ClientView>,
    client: ClientView,
)
    ensures
        poke_targets(config, Seq::empty()) == Seq::<TsConID>::empty(),
        client.channel != config.guest_channel && (exists|k: int|
            0 <= k < client.groups.len() && #[trigger] client.groups[k] == config.poke_group)
            ==> poke_targets(config, clients.push(client)) == poke_targets(config, clients).push(
            client.conid,
        ),
        client.channel == config.guest_channel || (forall|k: int|
            0 <= k < client.groups.len() ==> #[trigger] client.groups[k] != config.poke_group)
            ==> poke_targets(config, clients.push(client)) == poke_targets(config, clients),
{
    reveal(Seq::filter);
    let longer = clients.push(client);
    assert(longer.drop_last() =~= clients);
    assert(poke_targets(config, Seq::empty()) =~= Seq::<TsConID>::empty());
    if is_poke_target(config, client) {
        assert(poke_targets(config, longer) =~= poke_targets(config, clients).push(client.conid));
    } else {
        assert(poke_targets(config, longer) =~= poke_targets(config, clients));
    }
}

/// A poke names the connection and carries the whole message: between `clid=` and ` msg=` stands a
/// text that reads back as the connection's number, and behind ` msg=` one that unescapes to the
/// message. Neither holds a space, so that there is no other way to part them.
pub proof fn law_poke_reads_back(client: TsConID, msg: Seq<char>)
    ensures
        exists|id: Seq<char>, text: Seq<char>|
            #![trigger number_of(id), unescaped(text)]
            {
                &&& poke_command(client, escaped(msg)) == "poke clid="@ + id + " msg="@ + text
                &&& number_of(id) == Some(client)
                &&& !id.contains(' ')
                &&& unescaped(text) == msg
                &&& is_one_argument(text)
            },
{
    law_number_of_decimal(client);
    lemma_decimal_chars(client as int, ' ');
    law_unescaped_escaped(msg);
    law_escaped_is_one_argument(msg);
    let id = decimal(client as int);
    let text = escaped(msg);
    assert(number_of(id) == Some(client));
    assert(unescaped(text) == msg);
    assert(poke_command(client, escaped(msg)) =~= "poke clid="@ + id + " msg="@ + text);
}

/// What is behind the head of a poke gives back the message, for a message of any length.
pub proof fn law_poke_ends_with_the_message(client: TsConID, msg: Seq<char>)
    ensures
        ({
            let command = poke_command(client, escaped(msg));
            let head = ("poke clid="@ + decimal(client as int) + " msg="@).len() as int;
            unescaped(command.skip(head)) == msg
        }),
{
    law_unescaped_escaped(msg);
    let command = poke_command(client, escaped(msg));
    let head = ("poke clid="@ + decimal(client as int) + " msg="@).len() as int;
    assert(command.skip(head) =~= escaped(msg));
}

/// A server without a limit of commands is not waited for.
pub proof fn law_no_limit_no_wait()
    ensures
        cooldown_millis(0) is None,
{
}

/// The description of a poke config names the groups, the channel and the whole message.
pub proof fn law_description_is_whole(
    poke_group: TsGroupID,
    guest_group: TsGroupID,
    guest_channel: TsGroupID,
    quoted_msg: Seq<char>,
)
    ensures
        poke_config_text(poke_group, guest_group, guest_channel, quoted_msg)
            == "PokeConfig { poke_group: "@ + decimal(poke_group as int) + ", guest_group: "@
            + decimal(guest_group as int) + ", guest_channel: "@ + decimal(guest_channel as int)
            + ", poke_msg: "@ + quoted_msg + " }"@,
{
}

/// Guests are watched for with the config that was read, and only where that is enabled.
pub proof fn law_settings_take_effect<E>(config: Option<PokeConfig>, unread: E)
    ensures
        poke_config_read(true, Ok::<Option<PokeConfig>, E>(config)) == config,
        poke_config_read(false, Ok::<Option<PokeConfig>, E>(config)) is None,
        poke_config_read(false, Err::<Option<PokeConfig>, E>(unread)) is None,
{
}

/// What is logged tells whether guests are watched for from now on; it is logged at the start and
/// where that changed, and at no other time.
pub proof fn law_settings_are_logged(
    before: Option<PokeConfig>,
    after: Option<PokeConfig>,
    first_run: bool,
)
    ensures
        settings_message(before, after, first_run) is Some <==> first_run || (before is Some
            && after is None) || (before is None && after is Some),
        settings_message(before, after, first_run) is Some && after is Some ==> settings_message(
            before,
            after,
            first_run,
        )->0@ == "Ts-Poke enabled"@,
        settings_message(before, after, first_run) is Some && after is None ==> settings_message(
            before,
            after,
            first_run,
        )->0@ == "Ts-Poke disabled"@,
{
}

} // verus!
