use clantool::error::Error;
use clantool::query::Record;
use clantool::ts::client::{
    get_channels, get_online_clients, read_channel, read_client, read_clients, OnlineClients,
    TsClient,
};

fn record(fields: &[(&str, &str)]) -> Record {
    Record { fields: fields.iter().map(|(k, v)| (k.to_string(), v.to_string())).collect() }
}

fn client(cldbid: i32, conid: i32, channel: i32) -> TsClient {
    TsClient { name: format!("client {}", conid), cldbid, conid, channel, groups: vec![6] }
}

fn full(name: &str, cldbid: &str, clid: &str, cid: &str, groups: &str, kind: &str) -> Record {
    record(&[
        ("client_nickname", name),
        ("client_database_id", cldbid),
        ("clid", clid),
        ("cid", cid),
        ("client_servergroups", groups),
        ("client_type", kind),
    ])
}

const CLIENT_LIST: &str = "clid=1776 cid=9391 client_database_id=18106 client_nickname=FOOBAR\\s\\p\\sNora client_type=0 client_servergroups=6,8|clid=1775 cid=9402 client_database_id=136830 client_nickname=ASDF\\/FGHJ client_type=0 client_servergroups=8|clid=1 cid=24426 client_database_id=1 client_nickname=bot client_type=1 client_servergroups=2";

#[test]
fn field_lookup_takes_the_first_of_a_name() {
    let r = record(&[("a", "1"), ("b", "2"), ("a", "3")]);
    assert_eq!(r.get("a").map(|s| s.as_str()), Some("1"));
    assert_eq!(r.get("b").map(|s| s.as_str()), Some("2"));
    assert_eq!(r.get("c"), None);
}

#[test]
fn online_clients_of_a_response() {
    let online = get_online_clients(vec![CLIENT_LIST.to_string()], 99).unwrap();
    let entries = online.entries();
    assert_eq!(online.len(), 2);
    assert_eq!(entries[0].name, "FOOBAR | Nora");
    assert_eq!(entries[0].cldbid, 18106);
    assert_eq!(entries[0].conid, 1776);
    assert_eq!(entries[0].channel, 9391);
    assert_eq!(entries[0].groups, vec![6, 8]);
    assert_eq!(entries[1].name, "ASDF/FGHJ");
    assert_eq!(entries[1].cldbid, 136830);
}

#[test]
fn own_connection_is_listed() {
    let online = get_online_clients(vec![CLIENT_LIST.to_string()], 1).unwrap();
    assert_eq!(online.len(), 3);
    assert_eq!(online.entries()[2].name, "bot");
    assert_eq!(online.entries()[2].conid, 1);
}

#[test]
fn own_connection_is_found_by_its_exact_text() {
    let records = vec![full("bot", "1", "01", "2", "2", "1")];
    assert_eq!(read_clients(&records, 1).unwrap().len(), 0);
}

#[test]
fn clients_over_several_lines() {
    let lines: Vec<String> = CLIENT_LIST.split('|').map(|s| s.to_string()).collect();
    assert_eq!(get_online_clients(lines, 99).unwrap().len(), 2);
}

#[test]
fn empty_response_has_no_clients() {
    assert_eq!(get_online_clients(vec![], 1).unwrap().len(), 0);
}

#[test]
fn last_entry_of_an_identity_is_kept() {
    let online = OnlineClients::new(vec![client(1, 10, 5), client(2, 20, 5), client(1, 11, 6)]);
    let kept: Vec<(i32, i32, i32)> =
        online.entries().iter().map(|c| (c.cldbid, c.conid, c.channel)).collect();
    assert_eq!(kept, vec![(2, 20, 5), (1, 11, 6)]);
}

#[test]
fn distinct_identities_stay_in_order() {
    let online = OnlineClients::new(vec![client(3, 1, 1), client(1, 2, 1), client(2, 3, 1)]);
    let ids: Vec<i32> = online.into_entries().iter().map(|c| c.cldbid).collect();
    assert_eq!(ids, vec![3, 1, 2]);
}

#[test]
fn no_clients_no_entries() {
    assert_eq!(OnlineClients::new(vec![]).len(), 0);
}

#[test]
fn last_entry_of_an_identity_in_a_response() {
    let records = vec![
        full("old", "7", "1", "1", "6", "0"),
        full("query", "7", "2", "2", "6", "1"),
        full("new", "7", "3", "3", "6", "0"),
    ];
    let online = read_clients(&records, 99).unwrap();
    assert_eq!(online.len(), 1);
    assert_eq!(online.entries()[0].name, "new");
    assert_eq!(online.entries()[0].conid, 3);
}

#[test]
fn missing_fields_are_named_in_order() {
    let keys = ["client_nickname", "client_database_id", "clid", "cid", "client_servergroups"];
    let mut fields: Vec<(&str, &str)> = vec![];
    for key in keys {
        assert_eq!(read_client(&record(&fields)).unwrap_err(), Error::TsMissingValue(key));
        fields.push((key, "1"));
    }
    assert!(read_client(&record(&fields)).is_ok());
}

#[test]
fn broken_numbers_are_refused() {
    assert_eq!(read_client(&full("a", "x", "1", "1", "1", "0")).unwrap_err(), Error::ParseInt);
    assert_eq!(read_client(&full("a", "1", "", "1", "1", "0")).unwrap_err(), Error::ParseInt);
    assert_eq!(
        read_client(&full("a", "1", "1", "2147483648", "1", "0")).unwrap_err(),
        Error::ParseInt
    );
    assert_eq!(read_client(&full("a", "1", "1", "1", "1,", "0")).unwrap_err(), Error::ParseInt);
}

#[test]
fn first_error_of_a_list_counts() {
    let records = vec![
        full("a", "1", "1", "1", "1", "0"),
        record(&[("client_type", "0")]),
        full("b", "x", "1", "1", "1", "0"),
    ];
    assert_eq!(
        read_clients(&records, 99).unwrap_err(),
        Error::TsMissingValue("client_nickname")
    );
}

#[test]
fn what_does_not_count_cannot_fail() {
    let records = vec![record(&[("client_type", "1")]), record(&[])];
    assert_eq!(read_clients(&records, 99).unwrap().len(), 0);
}

#[test]
fn channels_of_a_response() {
    let response = "cid=1 pid=0 channel_name=Default\\sChannel|cid=42 pid=1 channel_name=Lobby";
    let channels = get_channels(vec![response.to_string()]).unwrap();
    assert_eq!(channels.len(), 2);
    assert_eq!(channels[0].id, 1);
    assert_eq!(channels[0].name, "Default Channel");
    assert_eq!(channels[1].id, 42);
    assert_eq!(channels[1].name, "Lobby");
}

fn names(lines: &[&str]) -> Vec<String> {
    let lines = lines.iter().map(|line| line.to_string()).collect();
    get_channels(lines).unwrap().into_iter().map(|c| c.name).collect()
}

#[test]
fn second_equals_sign_ends_a_value() {
    assert_eq!(names(&["cid=1 channel_name=a=b"]), vec!["a"]);
    assert_eq!(names(&["cid=1 channel_name=="]), vec![""]);
    assert_eq!(names(&["cid=1 channel_name="]), vec![""]);
}

#[test]
fn last_value_of_a_key_counts_in_a_response() {
    assert_eq!(names(&["cid=1 channel_name=a channel_name=b channel_name"]), vec!["b"]);
}

#[test]
fn words_without_equals_sign_are_left_out() {
    assert_eq!(
        get_channels(vec!["cid=1 channel_name".to_string()]).unwrap_err(),
        Error::TsMissingValue("channel_name")
    );
    assert_eq!(names(&["notify cid=1 =x channel_name=a -groups"]), vec!["a"]);
}

#[test]
fn records_go_line_by_line() {
    assert_eq!(
        names(&["cid=1 channel_name=a|cid=2 channel_name=b", "cid=3 channel_name=c"]),
        vec!["a", "b", "c"]
    );
}

#[test]
fn empty_part_is_an_empty_record() {
    for line in ["", " ", "cid=1 channel_name=a|"] {
        assert_eq!(
            get_channels(vec![line.to_string()]).unwrap_err(),
            Error::TsMissingValue("cid")
        );
    }
}

#[test]
fn white_space_ends_a_word() {
    let spaces = "\t\n\u{b}\u{c}\r \u{85}\u{a0}\u{1680}\u{2000}\u{2001}\u{2002}\u{2003}\u{2004}\u{2005}\u{2006}\u{2007}\u{2008}\u{2009}\u{200a}\u{2028}\u{2029}\u{202f}\u{205f}\u{3000}";
    assert_eq!(spaces.chars().count(), 25);
    for c in '\0'..=char::MAX {
        assert_eq!(c.is_whitespace(), spaces.contains(c), "{:?}", c);
    }
    for c in spaces.chars() {
        let line = format!("{c}cid=1{c}{c}channel_name=a{c}b{c}");
        assert_eq!(names(&[line.as_str()]), vec!["a"], "{:?}", c);
    }
    for c in "\u{8}\u{e}!\u{84}\u{86}\u{180e}\u{200b}\u{2060}\u{feff}".chars() {
        let line = format!("cid=1 channel_name=a{c}b");
        assert_eq!(names(&[line.as_str()]), vec![format!("a{c}b")], "{:?}", c);
    }
}

fn channel_name(escaped: &str) -> String {
    read_channel(&record(&[("cid", "1"), ("channel_name", escaped)])).unwrap().name
}

#[test]
fn every_escape_is_undone() {
    assert_eq!(
        channel_name("\\s\\p\\a\\b\\f\\n\\r\\t\\v\\\\\\/"),
        " |\u{7}\u{8}\u{c}\n\r\t\u{b}\\/"
    );
    assert_eq!(channel_name("spabfnrtv"), "spabfnrtv");
}

#[test]
fn escapes_that_mean_nothing_keep_the_character() {
    assert_eq!(channel_name("\\x\\\u{e4}b\\\u{1f600}"), "x\u{e4}b\u{1f600}");
}

#[test]
fn backslash_at_the_end_is_dropped() {
    assert_eq!(channel_name("a\\"), "a");
    assert_eq!(channel_name("\\"), "");
    assert_eq!(channel_name("a\\\\"), "a\\");
}

#[test]
fn escaped_backslash_begins_no_escape() {
    assert_eq!(channel_name("\\\\s"), "\\s");
}

#[test]
fn channel_errors() {
    assert_eq!(read_channel(&record(&[])).unwrap_err(), Error::TsMissingValue("cid"));
    assert_eq!(read_channel(&record(&[("cid", "1x")])).unwrap_err(), Error::ParseInt);
    assert_eq!(
        read_channel(&record(&[("cid", "1")])).unwrap_err(),
        Error::TsMissingValue("channel_name")
    );
    assert_eq!(
        get_channels(vec!["cid=1 channel_name=a|pid=1".to_string()]).unwrap_err(),
        Error::TsMissingValue("cid")
    );
}
