//! What is read of the lists of clients and channels.

use vstd::prelude::*;

use crate::error::Error;
use crate::query::{escaped, is_white_space, law_unescaped_escaped, parsed_records, unescaped};
use crate::text::{
    decimal, decimal_digits, is_digit, joined, law_number_list_reads_back, law_number_of_decimal,
    lemma_decimal_digits, number_list_of, number_of,
};
use crate::ts::client::{
    channel_of, channel_views, channels_of, client_of, client_records, client_views, clients_of,
    counts_as_client, last_entries, lemma_decoded_prefix_error, superseded, Channel, ChannelView,
    ClientView, TsClient, TsConID,
};
use crate::written::{
    holds_fields, is_plain, law_written_line_reads_back, plain_fields, written_line,
};

verus! {

/// A client and a channel are what their fields say, and lists of them are taken whole, in order.
pub proof fn law_views_leave_nothing_out(
    client: TsClient,
    channel: Channel,
    clients: Seq<TsClient>,
    channels: Seq<Channel>,
)
    ensures
        client@.name == client.name@,
        client@.cldbid == client.cldbid,
        client@.conid == client.conid,
        client@.channel == client.channel,
        client@.groups == client.groups@,
        channel@.id == channel.id,
        channel@.name == channel.name@,
        client_views(clients).len() == clients.len(),
        forall|i: int| 0 <= i < clients.len() ==> #[trigger] client_views(clients)[i] == clients[i]@,
        channel_views(channels).len() == channels.len(),
        forall|i: int|
            0 <= i < channels.len() ==> #[trigger] channel_views(channels)[i] == channels[i]@,
{
}

/// Whether the field `key` of the record is `value`.
pub open spec fn has_field(
    record: Map<Seq<char>, Seq<char>>,
    key: Seq<char>,
    value: Seq<char>,
) -> bool {
    record.contains_key(key) && record[key] == value
}

/// The numbers of a list in decimal, with commas between them.
pub open spec fn written_numbers(list: Seq<i32>) -> Seq<char> {
    joined(list.map_values(|n: i32| decimal(n as int)), ',')
}

/// Whether a server writes such a record for the client.
pub open spec fn describes_client(
    record: Map<Seq<char>, Seq<char>>,
    client: ClientView,
) -> bool {
    &&& has_field(record, "client_nickname"@, escaped(client.name))
    &&& has_field(record, "client_database_id"@, decimal(client.cldbid as int))
    &&& has_field(record, "clid"@, decimal(client.conid as int))
    &&& has_field(record, "cid"@, decimal(client.channel as int))
    &&& has_field(record, "client_servergroups"@, written_numbers(client.groups))
}

/// Whether a server writes such a record for the channel.
pub open spec fn describes_channel(
    record: Map<Seq<char>, Seq<char>>,
    channel: ChannelView,
) -> bool {
    &&& has_field(record, "cid"@, decimal(channel.id as int))
    &&& has_field(record, "channel_name"@, escaped(channel.name))
}

/// A client that is written into a record reads back with its whole name, all its numbers and all
/// its groups.
pub proof fn law_client_reads_back(record: Map<Seq<char>, Seq<char>>, client: ClientView)
    requires
        describes_client(record, client),
        client.groups.len() > 0,
    ensures
        client_of(record) == Ok::<ClientView, Error>(client),
{
    law_unescaped_escaped(client.name);
    law_number_of_decimal(client.cldbid);
    law_number_of_decimal(client.conid);
    law_number_of_decimal(client.channel);
    law_number_list_reads_back(client.groups);
}

/// A channel that is written into a record reads back with its ID and its whole name.
pub proof fn law_channel_reads_back(record: Map<Seq<char>, Seq<char>>, channel: ChannelView)
    requires
        describes_channel(record, channel),
    ensures
        channel_of(record) == Ok::<ChannelView, Error>(channel),
{
    law_unescaped_escaped(channel.name);
    law_number_of_decimal(channel.id);
}

/// A record is a client where it has all five fields and its numbers are numbers; the client has
/// exactly what stands in them.
pub proof fn law_client_fields(record: Map<Seq<char>, Seq<char>>)
    ensures
        client_of(record) is Ok <==> {
            &&& record.contains_key("client_nickname"@)
            &&& record.contains_key("client_database_id"@)
            &&& record.contains_key("clid"@)
            &&& record.contains_key("cid"@)
            &&& record.contains_key("client_servergroups"@)
            &&& number_of(record["client_database_id"@]) is Some
            &&& number_of(record["clid"@]) is Some
            &&& number_of(record["cid"@]) is Some
            &&& number_list_of(record["client_servergroups"@]) is Some
        },
        client_of(record) is Ok ==> {
            let client = client_of(record)->Ok_0;
            &&& client.name == unescaped(record["client_nickname"@])
            &&& number_of(record["client_database_id"@]) == Some(client.cldbid)
            &&& number_of(record["clid"@]) == Some(client.conid)
            &&& number_of(record["cid"@]) == Some(client.channel)
            &&& number_list_of(record["client_servergroups"@]) == Some(client.groups)
        },
{
}

/// A record is a channel where it has both fields and its ID is a number; the channel has exactly
/// what stands in them.
pub proof fn law_channel_fields(record: Map<Seq<char>, Seq<char>>)
    ensures
        channel_of(record) is Ok <==> {
            &&& record.contains_key("cid"@)
            &&& record.contains_key("channel_name"@)
            &&& number_of(record["cid"@]) is Some
        },
        channel_of(record) is Ok ==> {
            let channel = channel_of(record)->Ok_0;
            &&& number_of(record["cid"@]) == Some(channel.id)
            &&& channel.name == unescaped(record["channel_name"@])
        },
{
}

/// A field that is missing is told by its name. Of several that are missing, the first in the order
/// name, identity, connection, channel, groups is told.
pub proof fn law_missing_client_field(record: Map<Seq<char>, Seq<char>>)
    ensures
        ({
            let name = record.contains_key("client_nickname"@);
            let identity = record.contains_key("client_database_id"@) && number_of(
                record["client_database_id"@],
            ) is Some;
            let connection = record.contains_key("clid"@) && number_of(record["clid"@]) is Some;
            let channel = record.contains_key("cid"@) && number_of(record["cid"@]) is Some;
            &&& !name ==> client_of(record) == Err::<ClientView, Error>(
                Error::TsMissingValue("client_nickname"),
            )
            &&& name && !record.contains_key("client_database_id"@) ==> client_of(record) == Err::<
                ClientView,
                Error,
            >(Error::TsMissingValue("client_database_id"))
            &&& name && identity && !record.contains_key("clid"@) ==> client_of(record) == Err::<
                ClientView,
                Error,
            >(Error::TsMissingValue("clid"))
            &&& name && identity && connection && !record.contains_key("cid"@) ==> client_of(
                record,
            ) == Err::<ClientView, Error>(Error::TsMissingValue("cid"))
            &&& name && identity && connection && channel && !record.contains_key(
                "client_servergroups"@,
            ) ==> client_of(record) == Err::<ClientView, Error>(
                Error::TsMissingValue("client_servergroups"),
            )
        }),
{
}

/// Where all fields before are in order, a number that does not read is told as such.
pub proof fn law_broken_client_number(record: Map<Seq<char>, Seq<char>>)
    ensures
        ({
            let name = record.contains_key("client_nickname"@);
            let identity = record.contains_key("client_database_id"@) && number_of(
                record["client_database_id"@],
            ) is Some;
            let connection = record.contains_key("clid"@) && number_of(record["clid"@]) is Some;
            let channel = record.contains_key("cid"@) && number_of(record["cid"@]) is Some;
            let broken = client_of(record) == Err::<ClientView, Error>(Error::ParseInt);
            &&& name && record.contains_key("client_database_id"@) && !identity ==> broken
            &&& name && identity && record.contains_key("clid"@) && !connection ==> broken
            &&& name && identity && connection && record.contains_key("cid"@) && !channel ==> broken
            &&& name && identity && connection && channel && record.contains_key(
                "client_servergroups"@,
            ) && number_list_of(record["client_servergroups"@]) is None ==> broken
        }),
{
}

/// What is wrong with a record of a channel list is told: first its ID, then its name.
pub proof fn law_broken_channel(record: Map<Seq<char>, Seq<char>>)
    ensures
        !record.contains_key("cid"@) ==> channel_of(record) == Err::<ChannelView, Error>(
            Error::TsMissingValue("cid"),
        ),
        record.contains_key("cid"@) && number_of(record["cid"@]) is None ==> channel_of(record)
            == Err::<ChannelView, Error>(Error::ParseInt),
        record.contains_key("cid"@) && number_of(record["cid"@]) is Some && !record.contains_key(
            "channel_name"@,
        ) ==> channel_of(record) == Err::<ChannelView, Error>(
            Error::TsMissingValue("channel_name"),
        ),
{
}

/// Records of type 0 count as clients, and so does the record of the own connection; no others do.
pub proof fn law_who_counts(record: Map<Seq<char>, Seq<char>>, conn_id: TsConID)
    ensures
        has_field(record, "client_type"@, "0"@) ==> counts_as_client(record, conn_id),
        has_field(record, "clid"@, decimal(conn_id as int)) ==> counts_as_client(record, conn_id),
        counts_as_client(record, conn_id) ==> has_field(record, "client_type"@, "0"@) || has_field(
            record,
            "clid"@,
            decimal(conn_id as int),
        ),
{
}

/// Without records there are no clients and no channels.
pub proof fn law_lists_of_nothing(conn_id: TsConID)
    ensures
        clients_of(Seq::empty(), conn_id) == Ok::<Seq<ClientView>, Error>(Seq::empty()),
        channels_of(Seq::empty()) == Ok::<Seq<ChannelView>, Error>(Seq::empty()),
{
    reveal(Seq::filter);
    assert(client_records(Seq::empty(), conn_id) =~= Seq::empty());
}

/// A further record that counts and reads is one more client, behind all others.
pub proof fn law_clients_of_longer(
    records: Seq<Map<Seq<char>, Seq<char>>>,
    record: Map<Seq<char>, Seq<char>>,
    conn_id: TsConID,
)
    requires
        has_field(record, "client_type"@, "0"@) || has_field(
            record,
            "clid"@,
            decimal(conn_id as int),
        ),
        clients_of(records, conn_id) is Ok,
        client_of(record) is Ok,
    ensures
        clients_of(records.push(record), conn_id) == Ok::<Seq<ClientView>, Error>(
            clients_of(records, conn_id)->Ok_0.push(client_of(record)->Ok_0),
        ),
{
    reveal(Seq::filter);
    law_who_counts(record, conn_id);
    let longer = client_records(records.push(record), conn_id);
    assert(records.push(record).drop_last() =~= records);
    assert(longer =~= client_records(records, conn_id).push(record));
    assert(longer.drop_last() =~= client_records(records, conn_id));
}

/// A record that does not count, wherever it stands, changes nothing, whatever it holds.
pub proof fn law_others_change_nothing(
    before: Seq<Map<Seq<char>, Seq<char>>>,
    record: Map<Seq<char>, Seq<char>>,
    behind: Seq<Map<Seq<char>, Seq<char>>>,
    conn_id: TsConID,
)
    requires
        !has_field(record, "client_type"@, "0"@),
        !has_field(record, "clid"@, decimal(conn_id as int)),
    ensures
        clients_of(before + seq![record] + behind, conn_id) == clients_of(before + behind, conn_id),
{
    law_who_counts(record, conn_id);
    let keep = |r: Map<Seq<char>, Seq<char>>| counts_as_client(r, conn_id);
    Seq::filter_distributes_over_add(before + seq![record], behind, keep);
    Seq::filter_distributes_over_add(before, seq![record], keep);
    Seq::filter_distributes_over_add(before, behind, keep);
    assert(seq![record].filter(keep) =~= Seq::empty()) by {
        reveal(Seq::filter);
        assert(seq![record].drop_last() =~= Seq::empty());
        assert(seq![record].drop_last().filter(keep) =~= Seq::empty());
    }
    assert(client_records(before + seq![record] + behind, conn_id) =~= client_records(
        before + behind,
        conn_id,
    ));
}

/// The first record that counts and does not read is what the whole list fails with.
pub proof fn law_first_broken_client(
    before: Seq<Map<Seq<char>, Seq<char>>>,
    record: Map<Seq<char>, Seq<char>>,
    behind: Seq<Map<Seq<char>, Seq<char>>>,
    conn_id: TsConID,
)
    requires
        has_field(record, "client_type"@, "0"@) || has_field(
            record,
            "clid"@,
            decimal(conn_id as int),
        ),
        clients_of(before, conn_id) is Ok,
        client_of(record) is Err,
    ensures
        clients_of(before + seq![record] + behind, conn_id) == Err::<Seq<ClientView>, Error>(
            client_of(record)->Err_0,
        ),
{
    law_who_counts(record, conn_id);
    let keep = |r: Map<Seq<char>, Seq<char>>| counts_as_client(r, conn_id);
    let decode = |r: Map<Seq<char>, Seq<char>>| client_of(r);
    Seq::filter_distributes_over_add(before + seq![record], behind, keep);
    Seq::filter_distributes_over_add(before, seq![record], keep);
    assert(seq![record].filter(keep) =~= seq![record]) by {
        reveal(Seq::filter);
        assert(seq![record].drop_last() =~= Seq::empty());
        assert(seq![record].drop_last().filter(keep) =~= Seq::empty());
    }
    let all = client_records(before + seq![record] + behind, conn_id);
    let front = client_records(before, conn_id);
    let k = (front.len() + 1) as int;
    assert(all =~= front + seq![record] + client_records(behind, conn_id));
    assert(all.take(k) =~= front.push(record));
    assert(all.take(k).drop_last() =~= front);
    lemma_decoded_prefix_error(all, decode, k);
}

/// A further record that reads is one more channel, behind all others.
pub proof fn law_channels_of_longer(
    records: Seq<Map<Seq<char>, Seq<char>>>,
    record: Map<Seq<char>, Seq<char>>,
)
    requires
        channels_of(records) is Ok,
        channel_of(record) is Ok,
    ensures
        channels_of(records.push(record)) == Ok::<Seq<ChannelView>, Error>(
            channels_of(records)->Ok_0.push(channel_of(record)->Ok_0),
        ),
{
    assert(records.push(record).drop_last() =~= records);
}

/// The first record that does not read is what the whole list fails with.
pub proof fn law_first_broken_channel(
    before: Seq<Map<Seq<char>, Seq<char>>>,
    record: Map<Seq<char>, Seq<char>>,
    behind: Seq<Map<Seq<char>, Seq<char>>>,
)
    requires
        channels_of(before) is Ok,
        channel_of(record) is Err,
    ensures
        channels_of(before + seq![record] + behind) == Err::<Seq<ChannelView>, Error>(
            channel_of(record)->Err_0,
        ),
{
    let decode = |r: Map<Seq<char>, Seq<char>>| channel_of(r);
    let all = before + seq![record] + behind;
    let k = (before.len() + 1) as int;
    assert(all.take(k) =~= before.push(record));
    assert(all.take(k).drop_last() =~= before);
    lemma_decoded_prefix_error(all, decode, k);
}

/// Clients that are written into records read back, all of them, in order.
pub proof fn law_clients_read_back(
    records: Seq<Map<Seq<char>, Seq<char>>>,
    clients: Seq<ClientView>,
    conn_id: TsConID,
)
    requires
        records.len() == clients.len(),
        forall|i: int|
            0 <= i < clients.len() ==> describes_client(records[i], #[trigger] clients[i])
                && has_field(records[i], "client_type"@, "0"@) && clients[i].groups.len() > 0,
    ensures
        clients_of(records, conn_id) == Ok::<Seq<ClientView>, Error>(clients),
    decreases clients.len(),
{
    if clients.len() == 0 {
        law_lists_of_nothing(conn_id);
        assert(records =~= Seq::empty());
        assert(clients =~= Seq::empty());
    } else {
        let n = clients.len() - 1;
        let front = records.drop_last();
        let fewer = clients.drop_last();
        assert forall|i: int| 0 <= i < fewer.len() implies describes_client(
            front[i],
            #[trigger] fewer[i],
        ) && has_field(front[i], "client_type"@, "0"@) && fewer[i].groups.len() > 0 by {
            assert(fewer[i] == clients[i]);
        }
        law_clients_read_back(front, fewer, conn_id);
        assert(describes_client(records[n], clients[n]));
        law_client_reads_back(records[n], clients[n]);
        law_clients_of_longer(front, records[n], conn_id);
        assert(front.push(records[n]) =~= records);
        assert(fewer.push(clients[n]) =~= clients);
    }
}

/// Channels that are written into records read back, all of them, in order.
pub proof fn law_channels_read_back(
    records: Seq<Map<Seq<char>, Seq<char>>>,
    channels: Seq<ChannelView>,
)
    requires
        records.len() == channels.len(),
        forall|i: int|
            0 <= i < channels.len() ==> describes_channel(records[i], #[trigger] channels[i]),
    ensures
        channels_of(records) == Ok::<Seq<ChannelView>, Error>(channels),
    decreases channels.len(),
{
    if channels.len() == 0 {
        law_lists_of_nothing(0);
        assert(records =~= Seq::empty());
        assert(channels =~= Seq::empty());
    } else {
        let n = channels.len() - 1;
        let front = records.drop_last();
        let fewer = channels.drop_last();
        assert forall|i: int| 0 <= i < fewer.len() implies describes_channel(
            front[i],
            #[trigger] fewer[i],
        ) by {
            assert(fewer[i] == channels[i]);
        }
        law_channels_read_back(front, fewer);
        assert(describes_channel(records[n], channels[n]));
        law_channel_reads_back(records[n], channels[n]);
        law_channels_of_longer(front, records[n]);
        assert(front.push(records[n]) =~= records);
        assert(fewer.push(channels[n]) =~= channels);
    }
}

/// A further entry goes behind all others, and takes the place of any earlier entry of the same
/// identity; nothing else changes.
pub proof fn law_last_entries_of_longer(clients: Seq<ClientView>, client: ClientView)
    ensures
        last_entries(Seq::empty()) == Seq::<ClientView>::empty(),
        last_entries(clients.push(client)) == last_entries(clients).filter(
            |c: ClientView| c.cldbid != client.cldbid,
        ).push(client),
    decreases clients.len(),
{
    let others = |c: ClientView| c.cldbid != client.cldbid;
    let longer = clients.push(client);
    reveal(Seq::filter);
    if clients.len() == 0 {
        assert(longer.drop_first() =~= Seq::empty());
        assert(last_entries(longer.drop_first()) =~= Seq::empty());
        assert(!superseded(longer, 0));
        assert(last_entries(longer) =~= seq![client]);
        assert(last_entries(clients).filter(others).push(client) =~= seq![client]);
    } else {
        let rest = clients.drop_first();
        law_last_entries_of_longer(rest, client);
        assert(longer.drop_first() =~= rest.push(client));
        let kept = last_entries(rest);
        if superseded(clients, 0) {
            let j = choose|j: int|
                0 < j < clients.len() && (#[trigger] clients[j]).cldbid == clients[0].cldbid;
            assert(longer[j].cldbid == longer[0].cldbid);
            assert(superseded(longer, 0));
        } else if clients[0].cldbid == client.cldbid {
            assert(longer[clients.len() as int].cldbid == longer[0].cldbid);
            assert(superseded(longer, 0));
            kept.lemma_filter_prepend(clients[0], others);
        } else {
            assert(!superseded(longer, 0)) by {
                if superseded(longer, 0) {
                    let j = choose|j: int|
                        0 < j < longer.len() && (#[trigger] longer[j]).cldbid == longer[0].cldbid;
                    assert(clients[j].cldbid == clients[0].cldbid);
                }
            }
            kept.lemma_filter_prepend(clients[0], others);
            assert(last_entries(longer) =~= (seq![clients[0]] + kept.filter(others)).push(client));
        }
    }
}

/// The fields that a server writes for a client.
pub open spec fn client_fields(client: ClientView) -> Seq<(Seq<char>, Seq<char>)> {
    seq![
        ("clid"@, decimal(client.conid as int)),
        ("cid"@, decimal(client.channel as int)),
        ("client_database_id"@, decimal(client.cldbid as int)),
        ("client_nickname"@, escaped(client.name)),
        ("client_type"@, "0"@),
        ("client_servergroups"@, written_numbers(client.groups)),
    ]
}

/// The fields that a server writes for a channel.
pub open spec fn channel_fields(channel: ChannelView) -> Seq<(Seq<char>, Seq<char>)> {
    seq![("cid"@, decimal(channel.id as int)), ("channel_name"@, escaped(channel.name))]
}

proof fn lemma_decimal_plain(n: int)
    ensures
        is_plain(decimal(n)),
{
    let magnitude = if n < 0 {
        (-n) as nat
    } else {
        n as nat
    };
    lemma_decimal_digits(magnitude);
    assert forall|i: int| 0 <= i < decimal(n).len() implies !is_white_space(
        #[trigger] decimal(n)[i],
    ) && decimal(n)[i] != '=' && decimal(n)[i] != '|' by {
        if n >= 0 {
            assert(is_digit(decimal_digits(magnitude)[i]));
        } else if i > 0 {
            assert(is_digit(decimal_digits(magnitude)[i - 1]));
        }
    }
}

proof fn lemma_numbers_plain(list: Seq<i32>)
    ensures
        is_plain(written_numbers(list)),
    decreases list.len(),
{
    let parts = list.map_values(|n: i32| decimal(n as int));
    if list.len() == 1 {
        lemma_decimal_plain(list[0] as int);
    } else if list.len() > 1 {
        let fewer = list.drop_last();
        lemma_numbers_plain(fewer);
        let last = list[list.len() - 1];
        lemma_decimal_plain(last as int);
        assert(parts.drop_last() =~= fewer.map_values(|n: i32| decimal(n as int)));
        let front = written_numbers(fewer);
        let text = written_numbers(list);
        assert(text =~= front + seq![','] + decimal(last as int));
        assert forall|i: int| 0 <= i < text.len() implies !is_white_space(#[trigger] text[i])
            && text[i] != '=' && text[i] != '|' by {
            if i < front.len() {
                assert(text[i] == front[i]);
            } else if i > front.len() {
                assert(text[i] == decimal(last as int)[i - front.len() - 1]);
            }
        }
    }
}

proof fn lemma_client_record(record: Map<Seq<char>, Seq<char>>, client: ClientView)
    requires
        is_plain(escaped(client.name)),
    ensures
        plain_fields(client_fields(client)),
        holds_fields(record, client_fields(client)) ==> describes_client(record, client)
            && has_field(record, "client_type"@, "0"@),
{
    reveal_strlit("clid");
    reveal_strlit("cid");
    reveal_strlit("client_database_id");
    reveal_strlit("client_nickname");
    reveal_strlit("client_type");
    reveal_strlit("client_servergroups");
    reveal_strlit("0");
    let fields = client_fields(client);
    lemma_decimal_plain(client.conid as int);
    lemma_decimal_plain(client.channel as int);
    lemma_decimal_plain(client.cldbid as int);
    lemma_numbers_plain(client.groups);
    assert(fields[0].0.len() == 4);
    assert(fields[1].0.len() == 3);
    assert(fields[2].0.len() == 18);
    assert(fields[3].0.len() == 15);
    assert(fields[4].0.len() == 11);
    assert(fields[5].0.len() == 19);
    if holds_fields(record, fields) {
        assert forall|i: int| 0 <= i < fields.len() implies has_field(
            record,
            (#[trigger] fields[i]).0,
            fields[i].1,
        ) by {
            assert forall|j: int| i < j < fields.len() implies (#[trigger] fields[j]).0
                != fields[i].0 by {
                assert(fields[j].0.len() != fields[i].0.len());
            }
        }
        assert(has_field(record, fields[0].0, fields[0].1));
        assert(has_field(record, fields[1].0, fields[1].1));
        assert(has_field(record, fields[2].0, fields[2].1));
        assert(has_field(record, fields[3].0, fields[3].1));
        assert(has_field(record, fields[4].0, fields[4].1));
        assert(has_field(record, fields[5].0, fields[5].1));
    }
}

proof fn lemma_channel_record(record: Map<Seq<char>, Seq<char>>, channel: ChannelView)
    requires
        is_plain(escaped(channel.name)),
    ensures
        plain_fields(channel_fields(channel)),
        holds_fields(record, channel_fields(channel)) ==> describes_channel(record, channel),
{
    reveal_strlit("cid");
    reveal_strlit("channel_name");
    let fields = channel_fields(channel);
    lemma_decimal_plain(channel.id as int);
    assert(fields[0].0.len() == 3);
    assert(fields[1].0.len() == 12);
    if holds_fields(record, fields) {
        assert(fields[1].0 != fields[0].0);
        assert(has_field(record, fields[0].0, fields[0].1));
        assert(has_field(record, fields[1].0, fields[1].1));
    }
}

/// A client list that a server writes reads back, with every client, name and group in it.
pub proof fn law_written_clients_read_back(clients: Seq<ClientView>, conn_id: TsConID)
    requires
        clients.len() > 0,
        forall|i: int|
            0 <= i < clients.len() ==> is_plain(escaped((#[trigger] clients[i]).name))
                && clients[i].groups.len() > 0,
    ensures
        clients_of(
            parsed_records(
                seq![written_line(clients.map_values(|c: ClientView| client_fields(c)))],
                false,
            ),
            conn_id,
        ) == Ok::<Seq<ClientView>, Error>(clients),
{
    let written = clients.map_values(|c: ClientView| client_fields(c));
    let records = parsed_records(seq![written_line(written)], false);
    assert forall|i: int| 0 <= i < written.len() implies plain_fields(#[trigger] written[i]) by {
        assert(is_plain(escaped(clients[i].name)));
        lemma_client_record(Map::empty(), clients[i]);
    }
    law_written_line_reads_back(written);
    assert forall|i: int| 0 <= i < clients.len() implies describes_client(
        records[i],
        #[trigger] clients[i],
    ) && has_field(records[i], "client_type"@, "0"@) && clients[i].groups.len() > 0 by {
        assert(holds_fields(records[i], written[i]));
        lemma_client_record(records[i], clients[i]);
    }
    law_clients_read_back(records, clients, conn_id);
}

/// A channel list that a server writes reads back, with every channel and its whole name.
pub proof fn law_written_channels_read_back(channels: Seq<ChannelView>)
    requires
        channels.len() > 0,
        forall|i: int|
            0 <= i < channels.len() ==> is_plain(escaped((#[trigger] channels[i]).name)),
    ensures
        channels_of(
            parsed_records(
                seq![written_line(channels.map_values(|c: ChannelView| channel_fields(c)))],
                false,
            ),
        ) == Ok::<Seq<ChannelView>, Error>(channels),
{
    let written = channels.map_values(|c: ChannelView| channel_fields(c));
    let records = parsed_records(seq![written_line(written)], false);
    assert forall|i: int| 0 <= i < written.len() implies plain_fields(#[trigger] written[i]) by {
        assert(is_plain(escaped(channels[i].name)));
        lemma_channel_record(Map::empty(), channels[i]);
    }
    law_written_line_reads_back(written);
    assert forall|i: int| 0 <= i < channels.len() implies describes_channel(
        records[i],
        #[trigger] channels[i],
    ) by {
        assert(holds_fields(records[i], written[i]));
        lemma_channel_record(records[i], channels[i]);
    }
    law_channels_read_back(records, channels);
}

} // verus!
