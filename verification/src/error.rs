//! What can go wrong.

use vstd::prelude::*;

verus! {

/// The settings that an operator changes while the daemon runs.
#[derive(Clone, Copy, Debug, PartialEq, Eq, Structural)]
pub enum SettingKey {
    /// Server groups whose clients count as members.
    MemberGroup,
    /// Whether guests are watched for at all.
    GuestNotifyEnable,
    /// Server group that is poked when a guest arrives.
    GuestWatcherGroup,
    /// Server group that marks a guest.
    GuestGroup,
    /// Channel in which guests wait.
    GuestChannel,
    /// Message of a poke.
    GuestPokeMsg,
}

#[derive(Debug, PartialEq, Eq)]
pub enum Error {
    /// A record of the query interface lacks this field.
    TsMissingValue(&'static str),
    /// A field or a part of one is not a number of the expected size.
    ParseInt,
    /// This setting has no value.
    MissingKey(SettingKey),
}

} // verus!
