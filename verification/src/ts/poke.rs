//! Telling the right people that a guest waits.

use vstd::prelude::*;

use crate::config::InnerConfig;
use crate::query::texts;
use crate::text::{decimal, decimal_text};
use crate::ts::client::{ClientView, TsClient, TsConID, TsGroupID};

verus! {

/// Seconds that have to pass between two pokes.
pub const COOLDOWN_POKE_S: u64 = 1200;

/// Message of a poke where none is set.
pub const DEFAULT_POKE_MSG: &'static str = "Guest arrived!";

/// Who is poked when who arrives where.
#[derive(Debug)]
pub struct PokeConfig {
    /// Server group that is poked.
    pub poke_group: TsGroupID,
    /// Server group that marks a guest.
    pub guest_group: TsGroupID,
    /// Channel in which guests wait.
    pub guest_channel: TsGroupID,
    pub poke_msg: String,
}

/// Puts a poke config together from its settings. It takes all three IDs; without a message the
/// default one is used.
pub fn read_poke_config(
    poke_group: Option<TsGroupID>,
    guest_group: Option<TsGroupID>,
    guest_channel: Option<TsGroupID>,
    poke_msg: Option<String>,
) -> (config: Option<PokeConfig>)
    ensures
        config is Some == (poke_group is Some && guest_group is Some && guest_channel is Some),
        config is Some ==> {
            &&& config->0.poke_group == poke_group->0
            &&& config->0.guest_group == guest_group->0
            &&& config->0.guest_channel == guest_channel->0
            &&& config->0.poke_msg@ == (match poke_msg {
                Some(msg) => msg@,
                None => DEFAULT_POKE_MSG@,
            })
            &&& poke_msg is None ==> config->0.poke_msg@ == "Guest arrived!"@
        },
{
    let poke_msg = match poke_msg {
        Some(msg) => msg,
        None => DEFAULT_POKE_MSG.to_owned(),
    };
    match (poke_group, guest_group, guest_channel) {
        (Some(poke_group), Some(guest_group), Some(guest_channel)) => Some(
            PokeConfig { poke_group, guest_group, guest_channel, poke_msg },
        ),
        _ => None,
    }
}

/// Whether to watch for guests: what the setting says, or what the config says where the setting
/// has no value or could not be read.
pub fn is_ts3_guest_check_enabled<E>(
    setting: &Result<Option<bool>, E>,
    config: &InnerConfig,
) -> (enabled: bool)
    ensures
        enabled == (match *setting {
            Ok(Some(v)) => v,
            _ => config.ts.unknown_id_check_enabled,
        }),
{
    match setting {
        Ok(Some(v)) => *v,
        Ok(None) => config.ts.unknown_id_check_enabled,
        Err(_) => config.ts.unknown_id_check_enabled,
    }
}

/// What the debug format of std makes of a text: the text in quotes, with escapes.
pub uninterp spec fn quoted(text: Seq<char>) -> Seq<char>;

/// Calls the `Debug` formatting of `str`. Claimed is that the result depends on the text alone.
#[verifier::external_body]
fn quoted_text(text: &str) -> (q: String)
    ensures
        q@ == quoted(text@),
{
    format!("{:?}", text)
}

/// A poke config in words, given its message in quotes.
pub open spec fn poke_config_text(
    poke_group: TsGroupID,
    guest_group: TsGroupID,
    guest_channel: TsGroupID,
    quoted_msg: Seq<char>,
) -> Seq<char> {
    "PokeConfig { poke_group: "@ + decimal(poke_group as int) + ", guest_group: "@ + decimal(
        guest_group as int,
    ) + ", guest_channel: "@ + decimal(guest_channel as int) + ", poke_msg: "@ + quoted_msg + " }"@
}

/// Describes a poke config, given its message in quotes.
pub fn describe_poke_config(config: &PokeConfig, quoted_msg: &str) -> (text: String)
    ensures
        text@ == poke_config_text(
            config.poke_group,
            config.guest_group,
            config.guest_channel,
            quoted_msg@,
        ),
{
    let mut text = "PokeConfig { poke_group: ".to_owned();
    text.append(decimal_text(config.poke_group).as_str());
    text.append(", guest_group: ");
    text.append(decimal_text(config.guest_group).as_str());
    text.append(", guest_channel: ");
    text.append(decimal_text(config.guest_channel).as_str());
    text.append(", poke_msg: ");
    text.append(quoted_msg);
    text.append(" }");
    text
}

/// Says whether guests are watched for, and how. `enabled` is whether they are to be, `config` what
/// the settings make up.
pub fn print_poke_config(enabled: bool, config: &Option<PokeConfig>) -> (text: String)
    ensures
        text@ == (if !enabled {
            "Guest-Poke disabled"@
        } else {
            match *config {
                Some(c) => "Guest-Poke enabled: "@ + poke_config_text(
                    c.poke_group,
                    c.guest_group,
                    c.guest_channel,
                    quoted(c.poke_msg@),
                ),
                None => "Guest-Poke enabled but missing fields!"@,
            }
        }),
{
    if !enabled {
        return "Guest-Poke disabled".to_owned();
    }
    match config {
        Some(c) => {
            let quoted_msg = quoted_text(c.poke_msg.as_str());
            let description = describe_poke_config(c, quoted_msg.as_str());
            let mut text = "Guest-Poke enabled: ".to_owned();
            text.append(description.as_str());
            text
        },
        None => "Guest-Poke enabled but missing fields!".to_owned(),
    }
}

/// Whether the client is a guest in the channel where guests wait.
pub open spec fn is_waiting_guest(config: PokeConfig, client: ClientView) -> bool {
    client.channel == config.guest_channel && client.groups.contains(config.guest_group)
}

/// Whether the client is to be poked: one of the group that gets pokes, and not in the channel
/// where guests wait.
pub open spec fn is_poke_target(config: PokeConfig, client: ClientView) -> bool {
    client.channel != config.guest_channel && client.groups.contains(config.poke_group)
}

/// Whether the client is a poke-receiver at place: one of the group that gets pokes, in the channel
/// where guests wait, and no guest.
pub open spec fn is_receiver_at_place(config: PokeConfig, client: ClientView) -> bool {
    &&& client.channel == config.guest_channel
    &&& !client.groups.contains(config.guest_group)
    &&& client.groups.contains(config.poke_group)
}

/// The connections to poke, in the order of the clients.
pub open spec fn poke_targets(config: PokeConfig, clients: Seq<ClientView>) -> Seq<TsConID> {
    clients.filter(|c: ClientView| is_poke_target(config, c)).map_values(|c: ClientView| c.conid)
}

/// Whether a guest waits.
pub open spec fn guest_waits(config: PokeConfig, clients: Seq<ClientView>) -> bool {
    exists|i: int| 0 <= i < clients.len() && is_waiting_guest(config, #[trigger] clients[i])
}

/// Whether a poke-receiver is at place.
pub open spec fn receiver_at_place(config: PokeConfig, clients: Seq<ClientView>) -> bool {
    exists|i: int| 0 <= i < clients.len() && is_receiver_at_place(config, #[trigger] clients[i])
}

/// What has been seen of a list of clients so far.
#[derive(Debug)]
pub struct GuestWatch {
    /// Connections that would be poked.
    pub poke_clients: Vec<TsConID>,
    /// A guest waits.
    pub new_guest: bool,
    /// A poke-receiver is at place. Once set, nothing more is noted.
    pub has_lt: bool,
}

/// What is to be done about guests.
#[derive(Debug)]
pub enum PokeDecision {
    Nothing,
    /// Poke these connections.
    Poke(Vec<TsConID>),
    /// Start the time between two pokes anew.
    ResetCooldown,
}

/// Whether `group` is one of `groups`.
fn has_group(groups: &Vec<TsGroupID>, group: TsGroupID) -> (has: bool)
    ensures
        has == groups@.contains(group),
{
    let len: usize = groups.len();
    let mut i: usize = 0;
    while i < len
        invariant
            len == groups@.len(),
            i <= len,
            forall|k: int| 0 <= k < i ==> groups@[k] != group,
        decreases len - i,
    {
        if groups[i] == group {
            assert(groups@[i as int] == group);
            return true;
        }
        i = i + 1;
    }
    false
}

impl GuestWatch {
    /// Nothing seen yet.
    pub fn new() -> (watch: GuestWatch)
        ensures
            watch.poke_clients@.len() == 0,
            !watch.new_guest,
            !watch.has_lt,
    {
        GuestWatch { poke_clients: Vec::new(), new_guest: false, has_lt: false }
    }

    /// Takes note of one client.
    pub fn observe(&mut self, config: &PokeConfig, client: &TsClient)
        ensures
            final(self).has_lt == (old(self).has_lt || is_receiver_at_place(*config, client@)),
            final(self).new_guest == (old(self).new_guest || !old(self).has_lt && is_waiting_guest(
                *config,
                client@,
            )),
            final(self).poke_clients@ == (if !old(self).has_lt && is_poke_target(
                *config,
                client@,
            ) {
                old(self).poke_clients@.push(client.conid)
            } else {
                old(self).poke_clients@
            }),
    {
        if !self.has_lt {
            if client.channel == config.guest_channel {
                if has_group(&client.groups, config.guest_group) {
                    self.new_guest = true;
                } else if has_group(&client.groups, config.poke_group) {
                    self.has_lt = true;
                }
            } else if has_group(&client.groups, config.poke_group) {
                self.poke_clients.push(client.conid);
            }
        }
    }

    /// What follows from what was seen: a poke where a guest waits and no poke-receiver is at place,
    /// and the time between two pokes anew where one is.
    pub fn decide(self) -> (decision: PokeDecision)
        ensures
            match decision {
                PokeDecision::Poke(clients) => {
                    self.new_guest && !self.has_lt && clients@ == self.poke_clients@
                },
                PokeDecision::ResetCooldown => self.has_lt,
                PokeDecision::Nothing => !self.new_guest && !self.has_lt,
            },
    {
        if self.new_guest && !self.has_lt {
            PokeDecision::Poke(self.poke_clients)
        } else if self.has_lt {
            PokeDecision::ResetCooldown
        } else {
            PokeDecision::Nothing
        }
    }
}

/// How a poke is carried out.
#[derive(Debug)]
pub struct PokePlan {
    /// Milliseconds to wait before each command.
    pub cooldown: Option<u64>,
    /// The commands, one for each client.
    pub commands: Vec<String>,
}

/// The command that pokes `client`, given the message with escapes.
pub open spec fn poke_command(client: TsConID, escaped_msg: Seq<char>) -> Seq<char> {
    "poke clid="@ + decimal(client as int) + " msg="@ + escaped_msg
}

/// The wait before each command, for a server that takes `limit` commands in a second. No limit, no
/// wait.
pub open spec fn cooldown_millis(limit: u16) -> Option<u64> {
    if limit == 0 {
        None
    } else {
        Some(1000u64 / (limit as u64))
    }
}

/// Works out the wait before each command.
pub fn command_cooldown(limit: u16) -> (cooldown: Option<u64>)
    ensures
        cooldown == cooldown_millis(limit),
{
    match limit {
        0 => None,
        v => Some(1000 / (v as u64)),
    }
}

/// Writes the commands that poke `clients`, given the message with escapes.
pub fn poke_commands(clients: &Vec<TsConID>, escaped_msg: &str) -> (commands: Vec<String>)
    ensures
        texts(commands@) == clients@.map_values(|c: TsConID| poke_command(c, escaped_msg@)),
        commands@.len() == clients@.len(),
        forall|i: int|
            0 <= i < clients@.len() ==> (#[trigger] commands@[i])@ == "poke clid="@ + decimal(
                clients@[i] as int,
            ) + " msg="@ + escaped_msg@,
{
    let len: usize = clients.len();
    let mut commands: Vec<String> = Vec::new();
    let mut i: usize = 0;
    while i < len
        invariant
            len == clients@.len(),
            i <= len,
            commands@.len() == i,
            forall|k: int|
                0 <= k < i ==> (#[trigger] commands@[k])@ == poke_command(
                    clients@[k],
                    escaped_msg@,
                ),
        decreases len - i,
    {
        let mut command = "poke clid=".to_owned();
        command.append(decimal_text(clients[i]).as_str());
        command.append(" msg=");
        command.append(escaped_msg);
        commands.push(command);
        i = i + 1;
    }
    assert(texts(commands@) =~= clients@.map_values(|c: TsConID| poke_command(c, escaped_msg@)));
    commands
}

} // verus!
