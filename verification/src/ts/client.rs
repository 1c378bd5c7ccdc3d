//! Clients and channels as the query interface lists them.

use vstd::prelude::*;

use crate::error::Error;
use crate::query::{parse_multi_hashmap, unescape_val, Record};
use crate::query::{parsed_records, record_maps, texts, unescaped};
use crate::text::{chars_of, decimal_text, parse_number, parse_number_list, same_text};
use crate::text::{decimal, law_number_of_decimal, number_list_of, number_of};

verus! {

/// Per-identity ID
pub type TsClDBID = i32;

/// Per-connection ID
pub type TsConID = i32;

pub type TsChannelID = i32;

pub type TsGroupID = i32;

pub const CHANNEL_NAME: &'static str = "channel_name";

pub const CHANNEL_ID: &'static str = "cid";

pub const CLIENT_TYPE: &'static str = "client_type";

pub const CLIENT_TYPE_NORMAL: &'static str = "0";

/// Per-identity ID
pub const CLIENT_DB_ID: &'static str = "client_database_id";

/// Per-connection ID
pub const CLIENT_CONN_ID: &'static str = "clid";

pub const CLIENT_GROUPS: &'static str = "client_servergroups";

pub const CLIENT_CHANNEL: &'static str = "cid";

pub const CLIENT_NAME: &'static str = "client_nickname";

/// A client that is online.
#[derive(Debug)]
pub struct TsClient {
    pub name: String,
    pub cldbid: TsClDBID,
    pub conid: TsConID,
    pub channel: TsChannelID,
    pub groups: Vec<TsGroupID>,
}

pub ghost struct ClientView {
    pub name: Seq<char>,
    pub cldbid: TsClDBID,
    pub conid: TsConID,
    pub channel: TsChannelID,
    pub groups: Seq<TsGroupID>,
}

impl View for TsClient {
    type V = ClientView;

    open spec fn view(&self) -> ClientView {
        ClientView {
            name: self.name@,
            cldbid: self.cldbid,
            conid: self.conid,
            channel: self.channel,
            groups: self.groups@,
        }
    }
}

/// A channel of the server.
#[derive(Debug)]
pub struct Channel {
    pub id: TsChannelID,
    pub name: String,
}

pub ghost struct ChannelView {
    pub id: TsChannelID,
    pub name: Seq<char>,
}

impl View for Channel {
    type V = ChannelView;

    open spec fn view(&self) -> ChannelView {
        ChannelView { id: self.id, name: self.name@ }
    }
}

pub open spec fn client_views(clients: Seq<TsClient>) -> Seq<ClientView> {
    clients.map_values(|c: TsClient| c@)
}

/// Whether no identity stands in the list twice.
pub open spec fn distinct_ids(clients: Seq<ClientView>) -> bool {
    forall|i: int, j: int|
        0 <= i < j < clients.len() ==> (#[trigger] clients[i]).cldbid != (
        #[trigger] clients[j]).cldbid
}

/// Whether the identity at `i` stands in the list again, further on.
pub open spec fn superseded(clients: Seq<ClientView>, i: int) -> bool {
    exists|j: int| i < j < clients.len() && (#[trigger] clients[j]).cldbid == clients[i].cldbid
}

/// The last entry of each identity, in the order of the list.
pub open spec fn last_entries(clients: Seq<ClientView>) -> Seq<ClientView>
    decreases clients.len(),
{
    if clients.len() == 0 {
        Seq::empty()
    } else if superseded(clients, 0) {
        last_entries(clients.drop_first())
    } else {
        seq![clients[0]] + last_entries(clients.drop_first())
    }
}

/// Every identity of the list is kept, and no other.
pub proof fn law_last_entries_same_ids(clients: Seq<ClientView>, id: TsClDBID)
    ensures
        (exists|i: int| 0 <= i < clients.len() && (#[trigger] clients[i]).cldbid == id) <==> (
        exists|k: int|
            0 <= k < last_entries(clients).len() && (#[trigger] last_entries(clients)[k]).cldbid
                == id),
    decreases clients.len(),
{
    if clients.len() > 0 {
        let rest = clients.drop_first();
        law_last_entries_same_ids(rest, id);
        let kept = last_entries(rest);
        let all = last_entries(clients);
        if exists|i: int| 0 <= i < clients.len() && (#[trigger] clients[i]).cldbid == id {
            let i = choose|i: int| 0 <= i < clients.len() && (#[trigger] clients[i]).cldbid == id;
            if i > 0 {
                assert(rest[i - 1].cldbid == id);
            } else if superseded(clients, 0) {
                let j = choose|j: int|
                    0 < j < clients.len() && (#[trigger] clients[j]).cldbid == clients[0].cldbid;
                assert(rest[j - 1].cldbid == id);
            }
            if i > 0 || superseded(clients, 0) {
                let k = choose|k: int| 0 <= k < kept.len() && (#[trigger] kept[k]).cldbid == id;
                if superseded(clients, 0) {
                    assert(all[k].cldbid == id);
                } else {
                    assert(all[k + 1].cldbid == id);
                }
            } else {
                assert(all[0].cldbid == id);
            }
        }
        if exists|k: int| 0 <= k < all.len() && (#[trigger] all[k]).cldbid == id {
            let k = choose|k: int| 0 <= k < all.len() && (#[trigger] all[k]).cldbid == id;
            if superseded(clients, 0) {
                assert(kept[k].cldbid == id);
            } else if k > 0 {
                assert(kept[k - 1].cldbid == id);
            } else {
                assert(clients[0].cldbid == id);
            }
            if superseded(clients, 0) || k > 0 {
                let i = choose|i: int| 0 <= i < rest.len() && (#[trigger] rest[i]).cldbid == id;
                assert(clients[i + 1].cldbid == id);
            }
        }
    }
}

/// No identity is kept twice.
pub proof fn law_last_entries_distinct(clients: Seq<ClientView>)
    ensures
        distinct_ids(last_entries(clients)),
    decreases clients.len(),
{
    if clients.len() > 0 {
        let rest = clients.drop_first();
        law_last_entries_distinct(rest);
        if !superseded(clients, 0) {
            let kept = last_entries(rest);
            let all = last_entries(clients);
            law_last_entries_same_ids(rest, clients[0].cldbid);
            assert forall|i: int, j: int| 0 <= i < j < all.len() implies (
            #[trigger] all[i]).cldbid != (#[trigger] all[j]).cldbid by {
                if i == 0 && all[i].cldbid == all[j].cldbid {
                    assert(kept[j - 1].cldbid == clients[0].cldbid);
                    let k = choose|k: int|
                        0 <= k < rest.len() && (#[trigger] rest[k]).cldbid == clients[0].cldbid;
                    assert(clients[k + 1].cldbid == clients[0].cldbid);
                } else if i > 0 {
                    assert(all[i] == kept[i - 1]);
                    assert(all[j] == kept[j - 1]);
                }
            }
        }
    }
}

/// What is kept of an identity is its last entry.
pub proof fn law_last_entries_are_last(clients: Seq<ClientView>, k: int)
    requires
        0 <= k < last_entries(clients).len(),
    ensures
        exists|i: int|
            0 <= i < clients.len() && #[trigger] clients[i] == last_entries(clients)[k]
                && !superseded(clients, i),
    decreases clients.len(),
{
    let rest = clients.drop_first();
    let kept = last_entries(rest);
    if !superseded(clients, 0) && k == 0 {
        assert(clients[0] == last_entries(clients)[0]);
    } else {
        let kk = if superseded(clients, 0) {
            k
        } else {
            k - 1
        };
        law_last_entries_are_last(rest, kk);
        let i = choose|i: int|
            0 <= i < rest.len() && #[trigger] rest[i] == kept[kk] && !superseded(rest, i);
        assert(clients[i + 1] == last_entries(clients)[k]);
        assert(!superseded(clients, i + 1)) by {
            if superseded(clients, i + 1) {
                let j = choose|j: int|
                    i + 1 < j < clients.len() && (#[trigger] clients[j]).cldbid == clients[i
                        + 1].cldbid;
                assert(rest[j - 1].cldbid == rest[i].cldbid);
            }
        }
    }
}

/// A list in which no identity stands twice is kept as it is.
pub proof fn law_last_entries_of_distinct(clients: Seq<ClientView>)
    requires
        distinct_ids(clients),
    ensures
        last_entries(clients) == clients,
    decreases clients.len(),
{
    if clients.len() > 0 {
        let rest = clients.drop_first();
        assert forall|i: int, j: int| 0 <= i < j < rest.len() implies (#[trigger] rest[i]).cldbid
            != (#[trigger] rest[j]).cldbid by {
            assert(clients[i + 1].cldbid != clients[j + 1].cldbid);
        }
        law_last_entries_of_distinct(rest);
        assert(seq![clients[0]] + rest =~= clients);
    }
}

/// The clients that are online, each identity once.
#[derive(Debug)]
pub struct OnlineClients {
    entries: Vec<TsClient>,
}

impl View for OnlineClients {
    type V = Seq<ClientView>;

    closed spec fn view(&self) -> Seq<ClientView> {
        client_views(self.entries@)
    }
}

impl OnlineClients {
    #[verifier::type_invariant]
    spec fn each_identity_once(self) -> bool {
        distinct_ids(client_views(self.entries@))
    }

    /// Collects `clients`. Of an identity with several connections the last entry is kept.
    pub fn new(clients: Vec<TsClient>) -> (online: OnlineClients)
        ensures
            online@ == last_entries(client_views(clients@)),
            distinct_ids(online@),
    {
        let ghost all = client_views(clients@);
        let mut left = clients;
        let mut entries: Vec<TsClient> = Vec::new();
        assert(all.skip(all.len() as int) =~= Seq::<ClientView>::empty());
        assert(client_views(entries@) =~= Seq::<ClientView>::empty());
        while left.len() > 0
            invariant
                left@.len() <= all.len(),
                client_views(left@) == all.take(left@.len() as int),
                client_views(entries@) == last_entries(all.skip(left@.len() as int)),
            decreases left@.len(),
        {
            let ghost tail = all.skip(left@.len() as int);
            let ghost before = left@;
            match left.pop() {
                Some(client) => {
                    let n: usize = entries.len();
                    let mut known = false;
                    let mut i: usize = 0;
                    while i < n
                        invariant
                            i <= n,
                            n == entries@.len(),
                            known == exists|k: int|
                                0 <= k < i && (#[trigger] entries@[k]).cldbid == client.cldbid,
                        decreases n - i,
                    {
                        if entries[i].cldbid == client.cldbid {
                            known = true;
                        }
                        i = i + 1;
                    }
                    proof {
                        let now = all.skip(left@.len() as int);
                        assert(now.drop_first() =~= tail);
                        assert(client_views(before)[before.len() - 1] == client@);
                        assert(now[0] == client@);
                        assert(client_views(left@) =~= all.take(left@.len() as int)) by {
                            assert forall|k: int| 0 <= k < left@.len() implies client_views(
                                left@,
                            )[k] == all[k] by {
                                assert(client_views(before)[k] == all[k]);
                            }
                        }
                        law_last_entries_same_ids(tail, client.cldbid);
                        let kept = last_entries(tail);
                        if known {
                            let k = choose|k: int|
                                0 <= k < n && (#[trigger] entries@[k]).cldbid == client.cldbid;
                            assert(kept[k] == entries@[k]@);
                            let j = choose|j: int|
                                0 <= j < tail.len() && (#[trigger] tail[j]).cldbid
                                    == client.cldbid;
                            assert(now[j + 1].cldbid == now[0].cldbid);
                            assert(superseded(now, 0));
                        } else if superseded(now, 0) {
                            let j = choose|j: int|
                                0 < j < now.len() && (#[trigger] now[j]).cldbid == now[0].cldbid;
                            assert(tail[j - 1].cldbid == client.cldbid);
                            let k = choose|k: int|
                                0 <= k < kept.len() && (#[trigger] kept[k]).cldbid
                                    == client.cldbid;
                            assert(kept[k] == entries@[k]@);
                        }
                    }
                    if !known {
                        let ghost older = entries@;
                        entries.insert(0, client);
                        assert(client_views(entries@) =~= seq![client@] + client_views(older));
                    }
                },
                None => {},
            }
        }
        proof {
            assert(all.skip(0) =~= all);
            law_last_entries_distinct(all);
        }
        OnlineClients { entries }
    }

    pub fn len(&self) -> (n: usize)
        ensures
            n == self@.len(),
    {
        self.entries.len()
    }

    /// The clients, in the order of their last entries.
    pub fn entries(&self) -> (entries: &Vec<TsClient>)
        ensures
            client_views(entries@) == self@,
            distinct_ids(self@),
    {
        proof {
            use_type_invariant(self);
        }
        &self.entries
    }

    /// Gives the clients away.
    pub fn into_entries(self) -> (entries: Vec<TsClient>)
        ensures
            client_views(entries@) == self@,
            distinct_ids(self@),
    {
        proof {
            use_type_invariant(&self);
        }
        self.entries
    }
}

/// The number in the field `key`.
pub open spec fn number_field(
    record: Map<Seq<char>, Seq<char>>,
    key: &'static str,
) -> Result<i32, Error> {
    if !record.contains_key(key@) {
        Err(Error::TsMissingValue(key))
    } else {
        match number_of(record[key@]) {
            Some(n) => Ok(n),
            None => Err(Error::ParseInt),
        }
    }
}

/// The numbers in the field `key`.
pub open spec fn number_list_field(
    record: Map<Seq<char>, Seq<char>>,
    key: &'static str,
) -> Result<Seq<i32>, Error> {
    if !record.contains_key(key@) {
        Err(Error::TsMissingValue(key))
    } else {
        match number_list_of(record[key@]) {
            Some(list) => Ok(list),
            None => Err(Error::ParseInt),
        }
    }
}

/// The text in the field `key`, unescaped.
pub open spec fn text_field(
    record: Map<Seq<char>, Seq<char>>,
    key: &'static str,
) -> Result<Seq<char>, Error> {
    if record.contains_key(key@) {
        Ok(unescaped(record[key@]))
    } else {
        Err(Error::TsMissingValue(key))
    }
}

/// The client that a record describes, or what is wrong with the first field that is in the way:
/// the fields count in the order name, identity, connection, channel, groups.
pub open spec fn client_of(record: Map<Seq<char>, Seq<char>>) -> Result<ClientView, Error> {
    match text_field(record, CLIENT_NAME) {
        Err(e) => Err(e),
        Ok(name) => match number_field(record, CLIENT_DB_ID) {
            Err(e) => Err(e),
            Ok(cldbid) => match number_field(record, CLIENT_CONN_ID) {
                Err(e) => Err(e),
                Ok(conid) => match number_field(record, CLIENT_CHANNEL) {
                    Err(e) => Err(e),
                    Ok(channel) => match number_list_field(record, CLIENT_GROUPS) {
                        Err(e) => Err(e),
                        Ok(groups) => Ok(ClientView { name, cldbid, conid, channel, groups }),
                    },
                },
            },
        },
    }
}

/// The channel that a record describes, or what is wrong with its ID or else with its name.
pub open spec fn channel_of(record: Map<Seq<char>, Seq<char>>) -> Result<ChannelView, Error> {
    match number_field(record, CHANNEL_ID) {
        Err(e) => Err(e),
        Ok(id) => match text_field(record, CHANNEL_NAME) {
            Err(e) => Err(e),
            Ok(name) => Ok(ChannelView { id, name }),
        },
    }
}

/// Whether the record counts as a client: those of ordinary type do, and so does the connection
/// `conn_id` itself.
pub open spec fn counts_as_client(record: Map<Seq<char>, Seq<char>>, conn_id: TsConID) -> bool {
    ||| record.contains_key(CLIENT_TYPE@) && record[CLIENT_TYPE@] == CLIENT_TYPE_NORMAL@
    ||| record.contains_key(CLIENT_CONN_ID@) && record[CLIENT_CONN_ID@] == decimal(conn_id as int)
}

/// The records that count as clients, in their order.
pub open spec fn client_records(
    records: Seq<Map<Seq<char>, Seq<char>>>,
    conn_id: TsConID,
) -> Seq<Map<Seq<char>, Seq<char>>> {
    records.filter(|record: Map<Seq<char>, Seq<char>>| counts_as_client(record, conn_id))
}

/// The outcome of decoding `records` one after the other: every value in order, or the first error.
pub open spec fn decoded<T>(
    records: Seq<Map<Seq<char>, Seq<char>>>,
    decode: spec_fn(Map<Seq<char>, Seq<char>>) -> Result<T, Error>,
) -> Result<Seq<T>, Error>
    decreases records.len(),
{
    if records.len() == 0 {
        Ok(Seq::empty())
    } else {
        match decoded(records.drop_last(), decode) {
            Err(e) => Err(e),
            Ok(values) => match decode(records.last()) {
                Err(e) => Err(e),
                Ok(value) => Ok(values.push(value)),
            },
        }
    }
}

/// The clients that the records list.
pub open spec fn clients_of(
    records: Seq<Map<Seq<char>, Seq<char>>>,
    conn_id: TsConID,
) -> Result<Seq<ClientView>, Error> {
    decoded(
        client_records(records, conn_id),
        |record: Map<Seq<char>, Seq<char>>| client_of(record),
    )
}

/// The channels that the records list.
pub open spec fn channels_of(records: Seq<Map<Seq<char>, Seq<char>>>) -> Result<
    Seq<ChannelView>,
    Error,
> {
    decoded(records, |record: Map<Seq<char>, Seq<char>>| channel_of(record))
}

/// Decoding succeeds where every record decodes, and gives one value for each record, in order.
pub proof fn law_decoded_ok<T>(
    records: Seq<Map<Seq<char>, Seq<char>>>,
    decode: spec_fn(Map<Seq<char>, Seq<char>>) -> Result<T, Error>,
)
    ensures
        decoded(records, decode) is Ok <==> forall|i: int|
            0 <= i < records.len() ==> decode(#[trigger] records[i]) is Ok,
        decoded(records, decode) is Ok ==> {
            let values = decoded(records, decode)->Ok_0;
            &&& values.len() == records.len()
            &&& forall|i: int|
                0 <= i < records.len() ==> decode(#[trigger] records[i]) == Ok::<T, Error>(
                    values[i],
                )
        },
    decreases records.len(),
{
    if records.len() > 0 {
        let init = records.drop_last();
        law_decoded_ok(init, decode);
        let n = records.len() - 1;
        if decoded(records, decode) is Ok {
            assert forall|i: int| 0 <= i < records.len() implies decode(#[trigger] records[i])
                == Ok::<T, Error>(decoded(records, decode)->Ok_0[i]) by {
                if i < n {
                    assert(decode(init[i]) is Ok);
                }
            }
        } else if forall|i: int| 0 <= i < records.len() ==> decode(#[trigger] records[i]) is Ok {
            assert forall|i: int| 0 <= i < init.len() implies decode(#[trigger] init[i]) is Ok by {
                assert(decode(records[i]) is Ok);
            }
            assert(decode(records[n]) is Ok);
        }
    }
}

/// Decoding fails with the error of the first record that does not decode.
pub proof fn law_decoded_first_error<T>(
    records: Seq<Map<Seq<char>, Seq<char>>>,
    decode: spec_fn(Map<Seq<char>, Seq<char>>) -> Result<T, Error>,
    i: int,
)
    requires
        0 <= i < records.len(),
        decode(records[i]) is Err,
        forall|j: int| 0 <= j < i ==> decode(#[trigger] records[j]) is Ok,
    ensures
        decoded(records, decode) is Err,
        decoded(records, decode)->Err_0 == decode(records[i])->Err_0,
    decreases records.len(),
{
    let init = records.drop_last();
    if i < init.len() {
        assert forall|j: int| 0 <= j < i implies decode(#[trigger] init[j]) is Ok by {
            assert(decode(records[j]) is Ok);
        }
        law_decoded_first_error(init, decode, i);
    } else {
        assert forall|j: int| 0 <= j < init.len() implies decode(#[trigger] init[j]) is Ok by {
            assert(decode(records[j]) is Ok);
        }
        law_decoded_ok(init, decode);
    }
}

/// An error stays the outcome, whatever records follow.
pub(crate) proof fn lemma_decoded_prefix_error<T>(
    records: Seq<Map<Seq<char>, Seq<char>>>,
    decode: spec_fn(Map<Seq<char>, Seq<char>>) -> Result<T, Error>,
    k: int,
)
    requires
        0 <= k <= records.len(),
        decoded(records.take(k), decode) is Err,
    ensures
        decoded(records, decode) is Err,
        decoded(records, decode)->Err_0 == decoded(records.take(k), decode)->Err_0,
    decreases records.len(),
{
    if k < records.len() {
        assert(records.drop_last().take(k) =~= records.take(k));
        lemma_decoded_prefix_error(records.drop_last(), decode, k);
    } else {
        assert(records.take(k) =~= records);
    }
}

/// Reads the number in the field `key`.
fn read_number(record: &Record, key: &'static str) -> (n: Result<i32, Error>)
    ensures
        n == number_field(record@, key),
{
    match record.get(key) {
        None => Err(Error::TsMissingValue(key)),
        Some(value) => match parse_number(&chars_of(value.as_str())) {
            Some(n) => Ok(n),
            None => Err(Error::ParseInt),
        },
    }
}

/// Reads the client that a record describes.
pub fn read_client(record: &Record) -> (client: Result<TsClient, Error>)
    ensures
        match client {
            Ok(c) => client_of(record@) == Ok::<ClientView, Error>(c@),
            Err(e) => client_of(record@) == Err::<ClientView, Error>(e),
        },
{
    let name = match record.get(CLIENT_NAME) {
        None => {
            return Err(Error::TsMissingValue(CLIENT_NAME));
        },
        Some(value) => unescape_val(value.as_str()),
    };
    let cldbid: i32 = match read_number(record, CLIENT_DB_ID) {
        Err(e) => {
            return Err(e);
        },
        Ok(n) => n,
    };
    let conid: i32 = match read_number(record, CLIENT_CONN_ID) {
        Err(e) => {
            return Err(e);
        },
        Ok(n) => n,
    };
    let channel: i32 = match read_number(record, CLIENT_CHANNEL) {
        Err(e) => {
            return Err(e);
        },
        Ok(n) => n,
    };
    match record.get(CLIENT_GROUPS) {
        None => Err(Error::TsMissingValue(CLIENT_GROUPS)),
        Some(value) => match parse_number_list(value.as_str()) {
            None => Err(Error::ParseInt),
            Some(groups) => Ok(TsClient { name, cldbid, conid, channel, groups }),
        },
    }
}

/// Reads the channel that a record describes.
pub fn read_channel(record: &Record) -> (channel: Result<Channel, Error>)
    ensures
        match channel {
            Ok(c) => channel_of(record@) == Ok::<ChannelView, Error>(c@),
            Err(e) => channel_of(record@) == Err::<ChannelView, Error>(e),
        },
{
    let id: i32 = match read_number(record, CHANNEL_ID) {
        Err(e) => {
            return Err(e);
        },
        Ok(n) => n,
    };
    match record.get(CHANNEL_NAME) {
        None => Err(Error::TsMissingValue(CHANNEL_NAME)),
        Some(value) => Ok(Channel { id, name: unescape_val(value.as_str()) }),
    }
}

/// Whether the record counts as a client, seen from the connection whose ID in decimal is
/// `conn_id_text`.
fn is_client(record: &Record, Ghost(conn_id): Ghost<TsConID>, conn_id_text: &String) -> (kept: bool)
    requires
        conn_id_text@ == decimal(conn_id as int),
    ensures
        kept == counts_as_client(record@, conn_id),
{
    let normal = match record.get(CLIENT_TYPE) {
        Some(value) => same_text(value.as_str(), CLIENT_TYPE_NORMAL),
        None => false,
    };
    if normal {
        return true;
    }
    match record.get(CLIENT_CONN_ID) {
        Some(value) => same_text(value.as_str(), conn_id_text.as_str()),
        None => false,
    }
}

/// Reads the clients out of the records of a client list. Of an identity with several connections
/// the last entry is kept.
pub fn read_clients(records: &Vec<Record>, conn_id: TsConID) -> (online: Result<
    OnlineClients,
    Error,
>)
    ensures
        match online {
            Ok(o) => {
                &&& clients_of(record_maps(records@), conn_id) is Ok
                &&& o@ == last_entries(clients_of(record_maps(records@), conn_id)->Ok_0)
                &&& distinct_ids(o@)
            },
            Err(e) => clients_of(record_maps(records@), conn_id) == Err::<Seq<ClientView>, Error>(
                e,
            ),
        },
{
    let conn_id_text = decimal_text(conn_id);
    let len: usize = records.len();
    let ghost maps = record_maps(records@);
    let ghost keep = |record: Map<Seq<char>, Seq<char>>| counts_as_client(record, conn_id);
    let ghost decode = |record: Map<Seq<char>, Seq<char>>| client_of(record);
    let mut clients: Vec<TsClient> = Vec::new();
    let mut i: usize = 0;
    proof {
        reveal(Seq::filter);
        assert(maps.take(0).filter(keep) =~= Seq::empty());
        assert(client_views(clients@) =~= Seq::<ClientView>::empty());
    }
    while i < len
        invariant
            len == records@.len(),
            maps == record_maps(records@),
            conn_id_text@ == decimal(conn_id as int),
            keep == (|record: Map<Seq<char>, Seq<char>>| counts_as_client(record, conn_id)),
            decode == (|record: Map<Seq<char>, Seq<char>>| client_of(record)),
            i <= len,
            decoded(maps.take(i as int).filter(keep), decode) == Ok::<Seq<ClientView>, Error>(
                client_views(clients@),
            ),
        decreases len - i,
    {
        let ghost before = maps.take(i as int).filter(keep);
        let ghost after = maps.take(i + 1).filter(keep);
        proof {
            reveal(Seq::filter);
            assert(maps.take(i + 1).drop_last() =~= maps.take(i as int));
            assert(maps[i as int] == records@[i as int]@);
            if keep(maps[i as int]) {
                assert(after == before.push(maps[i as int]));
                assert(after.drop_last() =~= before);
            } else {
                assert(after == before);
            }
        }
        if is_client(&records[i], Ghost(conn_id), &conn_id_text) {
            match read_client(&records[i]) {
                Ok(client) => {
                    let ghost older = clients@;
                    clients.push(client);
                    assert(client_views(clients@) =~= client_views(older).push(client@));
                },
                Err(e) => {
                    proof {
                        lemma_filter_take(maps, keep, i + 1);
                        lemma_decoded_prefix_error(maps.filter(keep), decode, after.len() as int);
                    }
                    return Err(e);
                },
            }
        }
        i = i + 1;
    }
    assert(maps.take(len as int) =~= maps);
    Ok(OnlineClients::new(clients))
}

/// Filtering the front of a list gives the front of the filtered list.
proof fn lemma_filter_take<T>(s: Seq<T>, keep: spec_fn(T) -> bool, k: int)
    requires
        0 <= k <= s.len(),
    ensures
        s.take(k).filter(keep).len() <= s.filter(keep).len(),
        s.filter(keep).take(s.take(k).filter(keep).len() as int) == s.take(k).filter(keep),
    decreases s.len(),
{
    reveal(Seq::filter);
    if k < s.len() {
        lemma_filter_take(s.drop_last(), keep, k);
        assert(s.drop_last().take(k) =~= s.take(k));
        let n = s.take(k).filter(keep).len() as int;
        assert(s.filter(keep).take(n) =~= s.drop_last().filter(keep).take(n));
    } else {
        assert(s.take(k) =~= s);
        assert(s.filter(keep).take(s.filter(keep).len() as int) =~= s.filter(keep));
    }
}

/// Get clients on ts from the response to a client list with groups. Returns last entry for
/// multiple connection of same ID. `conn_id` is the connection that asked.
pub fn get_online_clients(response: Vec<String>, conn_id: TsConID) -> (online: Result<
    OnlineClients,
    Error,
>)
    ensures
        ({
            let clients = clients_of(parsed_records(texts(response@), false), conn_id);
            match online {
                Ok(o) => clients is Ok && o@ == last_entries(clients->Ok_0) && distinct_ids(o@),
                Err(e) => clients == Err::<Seq<ClientView>, Error>(e),
            }
        }),
{
    let records = parse_multi_hashmap(response, false);
    read_clients(&records, conn_id)
}

/// The connection that asked counts whatever its type is, and it is listed under its own ID.
pub proof fn law_own_connection_counts(record: Map<Seq<char>, Seq<char>>, conn_id: TsConID)
    requires
        record.contains_key(CLIENT_CONN_ID@),
        record[CLIENT_CONN_ID@] == decimal(conn_id as int),
    ensures
        counts_as_client(record, conn_id),
        client_of(record) is Ok ==> client_of(record)->Ok_0.conid == conn_id,
{
    law_number_of_decimal(conn_id);
}

pub open spec fn channel_views(channels: Seq<Channel>) -> Seq<ChannelView> {
    channels.map_values(|c: Channel| c@)
}

/// Reads the channels out of the records of a channel list.
pub fn read_channels(records: &Vec<Record>) -> (channels: Result<Vec<Channel>, Error>)
    ensures
        match channels {
            Ok(c) => channels_of(record_maps(records@)) == Ok::<Seq<ChannelView>, Error>(
                channel_views(c@),
            ),
            Err(e) => channels_of(record_maps(records@)) == Err::<Seq<ChannelView>, Error>(e),
        },
{
    let len: usize = records.len();
    let ghost maps = record_maps(records@);
    let ghost decode = |record: Map<Seq<char>, Seq<char>>| channel_of(record);
    let mut channels: Vec<Channel> = Vec::new();
    let mut i: usize = 0;
    proof {
        assert(maps.take(0) =~= Seq::empty());
        assert(channel_views(channels@) =~= Seq::<ChannelView>::empty());
    }
    while i < len
        invariant
            len == records@.len(),
            maps == record_maps(records@),
            decode == (|record: Map<Seq<char>, Seq<char>>| channel_of(record)),
            i <= len,
            decoded(maps.take(i as int), decode) == Ok::<Seq<ChannelView>, Error>(
                channel_views(channels@),
            ),
        decreases len - i,
    {
        proof {
            assert(maps.take(i + 1).drop_last() =~= maps.take(i as int));
            assert(maps[i as int] == records@[i as int]@);
        }
        match read_channel(&records[i]) {
            Ok(channel) => {
                let ghost older = channels@;
                channels.push(channel);
                assert(channel_views(channels@) =~= channel_views(older).push(channel@));
            },
            Err(e) => {
                proof {
                    lemma_decoded_prefix_error(maps, decode, i + 1);
                }
                return Err(e);
            },
        }
        i = i + 1;
    }
    assert(maps.take(len as int) =~= maps);
    Ok(channels)
}

/// Get channels on ts from the response to a channel list.
pub fn get_channels(response: Vec<String>) -> (channels: Result<Vec<Channel>, Error>)
    ensures
        match channels {
            Ok(c) => channels_of(parsed_records(texts(response@), false)) == Ok::<
                Seq<ChannelView>,
                Error,
            >(channel_views(c@)),
            Err(e) => channels_of(parsed_records(texts(response@), false)) == Err::<
                Seq<ChannelView>,
                Error,
            >(e),
        },
{
    let records = parse_multi_hashmap(response, false);
    read_channels(&records)
}

} // verus!
