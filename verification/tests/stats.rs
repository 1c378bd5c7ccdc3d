use clantool::ts::client::{OnlineClients, TsClient};
use clantool::ts::poke::{PokeConfig, PokeDecision};
use clantool::ts::stats::{
    seconds_since, Date, FlushAction, FlushEvent, TsActivity, TsStatCtrl,
};

const SECOND: u64 = 1_000_000_000;
const FIRST: Date = Date { year: 2020, month: 5, day: 1 };
const SECOND_DAY: Date = Date { year: 2020, month: 5, day: 2 };

fn poke_config() -> PokeConfig {
    PokeConfig { poke_group: 6, guest_group: 8, guest_channel: 100, poke_msg: "Guest | here".to_string() }
}

fn stats() -> TsStatCtrl {
    TsStatCtrl::new::<()>(FIRST, 0, true, Ok(Some(poke_config()))).unwrap().0
}

fn client(cldbid: i32, conid: i32, channel: i32, groups: Vec<i32>) -> TsClient {
    TsClient { name: format!("client {}", conid), cldbid, conid, channel, groups }
}

fn online(clients: Vec<TsClient>) -> OnlineClients {
    OnlineClients::new(clients)
}

fn times(stats: &TsStatCtrl) -> Vec<((i32, i32), i32)> {
    stats.times.iter().map(|(k, v)| (*k, *v)).collect()
}

fn look(stats: &mut TsStatCtrl, begun: u64, answered: u64, clients: Vec<TsClient>) -> PokeDecision {
    let clients = online(clients);
    assert!(stats.tick_fits(&clients, answered));
    stats.tick(begun, answered, &clients)
}

#[test]
fn whole_seconds_are_counted() {
    assert_eq!(seconds_since(0, 999_999_999), 0);
    assert_eq!(seconds_since(0, SECOND), 1);
    assert_eq!(seconds_since(SECOND / 2, 2 * SECOND), 1);
    assert_eq!(seconds_since(SECOND, 0), 0);
}

#[test]
fn nothing_is_known_at_first() {
    let (stats, message) = TsStatCtrl::new::<()>(FIRST, 5, false, Ok(None)).unwrap();
    assert_eq!(message, Some("Ts-Poke disabled"));
    assert!(stats.names.is_empty() && stats.times.is_empty() && stats.last_channel.is_empty());
    assert_eq!(stats.last_date, FIRST);
    assert_eq!(stats.last_update, 5);
    assert_eq!(stats.last_guest_poke, None);
    assert!(stats.poke_config.is_none());
}

#[test]
fn start_logs_that_pokes_are_enabled() {
    let (stats, message) = TsStatCtrl::new::<()>(FIRST, 5, true, Ok(Some(poke_config()))).unwrap();
    assert_eq!(message, Some("Ts-Poke enabled"));
    assert!(stats.poke_config.is_some());
}

#[test]
fn start_fails_where_settings_cannot_be_read() {
    assert_eq!(TsStatCtrl::new(FIRST, 5, true, Err("db")).unwrap_err(), "db");
    assert!(TsStatCtrl::new(FIRST, 5, false, Err("db")).is_ok());
}

#[test]
fn settings_log_only_changes() {
    let mut s = stats();
    assert_eq!(s.update_settings::<()>(true, Ok(Some(poke_config()))), Ok(None));
    assert_eq!(s.update_settings::<()>(true, Ok(None)), Ok(Some("Ts-Poke disabled")));
    assert_eq!(s.update_settings::<()>(false, Ok(Some(poke_config()))), Ok(None));
    assert!(s.poke_config.is_none());
    assert_eq!(s.update_settings::<()>(true, Ok(Some(poke_config()))), Ok(Some("Ts-Poke enabled")));
    assert_eq!(s.update_settings::<()>(false, Ok(None)), Ok(Some("Ts-Poke disabled")));
}

#[test]
fn settings_stay_where_they_cannot_be_read() {
    let mut s = stats();
    assert_eq!(s.update_settings(true, Err("db")), Err("db"));
    assert!(s.poke_config.is_some());
}

#[test]
fn first_look_counts_for_the_current_channel() {
    let mut s = stats();
    let decision = look(&mut s, 29 * SECOND, 30 * SECOND, vec![client(1, 10, 5, vec![])]);
    assert!(matches!(decision, PokeDecision::Nothing));
    assert_eq!(times(&s), vec![((1, 5), 30)]);
    assert_eq!(s.names[&1], "client 10");
    assert_eq!(s.last_channel[&1], 5);
    assert_eq!(s.last_update, 29 * SECOND);
}

#[test]
fn time_goes_to_the_channel_seen_before() {
    let mut s = stats();
    look(&mut s, 30 * SECOND, 30 * SECOND, vec![client(1, 10, 5, vec![])]);
    look(&mut s, 60 * SECOND, 60 * SECOND, vec![client(1, 11, 6, vec![])]);
    assert_eq!(times(&s), vec![((1, 5), 60)]);
    look(&mut s, 90 * SECOND, 90 * SECOND, vec![client(1, 11, 6, vec![])]);
    assert_eq!(times(&s), vec![((1, 5), 60), ((1, 6), 30)]);
    assert_eq!(s.names[&1], "client 11");
}

#[test]
fn disconnected_clients_are_forgotten() {
    let mut s = stats();
    look(&mut s, 30 * SECOND, 30 * SECOND, vec![client(1, 10, 5, vec![]), client(2, 20, 5, vec![])]);
    look(&mut s, 60 * SECOND, 60 * SECOND, vec![client(2, 20, 5, vec![])]);
    assert!(!s.last_channel.contains_key(&1));
    look(&mut s, 90 * SECOND, 90 * SECOND, vec![client(1, 10, 7, vec![])]);
    assert_eq!(times(&s), vec![((1, 5), 30), ((1, 7), 30), ((2, 5), 60)]);
}

#[test]
fn every_client_gets_the_time() {
    let mut s = stats();
    look(&mut s, 30 * SECOND, 30 * SECOND, vec![client(1, 10, 5, vec![]), client(2, 20, 6, vec![])]);
    look(&mut s, 61 * SECOND, 61 * SECOND, vec![client(1, 10, 5, vec![]), client(3, 30, 6, vec![])]);
    let total: i32 = s.times.values().sum();
    assert_eq!(total, 2 * 30 + 2 * 31);
}

#[test]
fn slow_answers_lose_no_time() {
    let mut s = stats();
    look(&mut s, 10 * SECOND, 25 * SECOND, vec![client(1, 10, 5, vec![])]);
    look(&mut s, 40 * SECOND, 40 * SECOND, vec![client(1, 10, 5, vec![])]);
    assert_eq!(times(&s), vec![((1, 5), 25 + 30)]);
}

#[test]
fn time_that_does_not_fit_is_told() {
    let mut s = stats();
    s.times.insert((1, 5), i32::MAX - 10);
    let clients = online(vec![client(1, 10, 5, vec![])]);
    assert!(s.tick_fits(&clients, 10 * SECOND));
    assert!(!s.tick_fits(&clients, 11 * SECOND));
    assert!(!s.tick_fits(&online(vec![]), 2_147_483_648 * SECOND));
    assert!(s.tick_fits(&online(vec![]), 2_147_483_647 * SECOND));
}

fn guests() -> Vec<TsClient> {
    vec![client(1, 10, 5, vec![6]), client(2, 20, 100, vec![8])]
}

#[test]
fn first_guest_leads_to_a_poke() {
    let mut s = stats();
    assert_eq!(s.last_guest_poke, None);
    match look(&mut s, 0, SECOND, guests()) {
        PokeDecision::Poke(targets) => assert_eq!(targets, vec![10]),
        other => panic!("{:?}", other),
    }
    s.poke_clients(2 * SECOND, &vec![10], 0);
    assert_eq!(s.last_guest_poke, Some(2 * SECOND));
    assert!(matches!(look(&mut s, 0, 1202 * SECOND, guests()), PokeDecision::Nothing));
    assert!(matches!(look(&mut s, 0, 1203 * SECOND, guests()), PokeDecision::Poke(_)));
}

#[test]
fn receiver_at_place_resets_the_cooldown() {
    let mut s = stats();
    let mut clients = guests();
    clients.push(client(3, 30, 100, vec![6]));
    assert!(matches!(look(&mut s, 0, SECOND, clients), PokeDecision::ResetCooldown));
    s.reset_cooldown(SECOND);
    assert_eq!(s.last_guest_poke, Some(SECOND));
    assert!(matches!(look(&mut s, 0, 1201 * SECOND, guests()), PokeDecision::Nothing));
    assert!(matches!(look(&mut s, 0, 1202 * SECOND, guests()), PokeDecision::Poke(_)));
}

#[test]
fn receiver_at_place_within_the_cooldown_changes_nothing() {
    let mut s = stats();
    s.reset_cooldown(0);
    let clients = vec![client(3, 30, 100, vec![6])];
    assert!(matches!(look(&mut s, 0, 1200 * SECOND, clients), PokeDecision::Nothing));
    assert_eq!(s.last_guest_poke, Some(0));
}

#[test]
fn nobody_waits_nobody_is_poked() {
    let mut s = stats();
    let clients = vec![client(1, 10, 5, vec![6]), client(2, 20, 5, vec![8])];
    assert!(matches!(look(&mut s, 0, SECOND, clients), PokeDecision::Nothing));
}

#[test]
fn poke_after_the_cooldown() {
    let mut s = stats();
    s.reset_cooldown(100 * SECOND);
    assert_eq!(s.last_guest_poke, Some(100 * SECOND));
    assert!(matches!(look(&mut s, 0, 1300 * SECOND, guests()), PokeDecision::Nothing));
    match look(&mut s, 0, 1301 * SECOND, guests()) {
        PokeDecision::Poke(targets) => assert_eq!(targets, vec![10]),
        other => panic!("{:?}", other),
    }
}

#[test]
fn no_poke_where_disabled() {
    let mut s = stats();
    s.update_settings::<()>(false, Ok(None)).unwrap();
    assert!(matches!(look(&mut s, 0, 1301 * SECOND, guests()), PokeDecision::Nothing));
}

#[test]
fn poke_is_noted_and_written_out() {
    let mut s = stats();
    let plan = s.poke_clients(77, &vec![10, 11], 4);
    assert_eq!(s.last_guest_poke, Some(77));
    assert_eq!(plan.cooldown, Some(250));
    assert_eq!(
        plan.commands,
        vec!["poke clid=10 msg=Guest\\s\\p\\shere", "poke clid=11 msg=Guest\\s\\p\\shere"]
    );
    assert!(matches!(look(&mut s, 0, 1200 * SECOND, guests()), PokeDecision::Nothing));
}

#[test]
fn every_escape_is_written() {
    let mut s = stats();
    let msg = " |/\\\u{7}\u{8}\u{c}\n\r\t\u{b}sp\u{e4}".to_string();
    s.poke_config = Some(PokeConfig { poke_msg: msg, ..poke_config() });
    assert_eq!(
        s.poke_clients(0, &vec![1], 0).commands,
        vec!["poke clid=1 msg=\\s\\p\\/\\\\\\a\\b\\f\\n\\r\\t\\vsp\u{e4}"]
    );
}

#[test]
fn messages_survive_their_escapes() {
    let msg = "a b|c/d\\e\u{7}\u{8}\u{c}\n\r\t\u{b} \u{e4}\u{1f600}";
    let mut s = stats();
    s.poke_config = Some(PokeConfig { poke_msg: msg.to_string(), ..poke_config() });
    let plan = s.poke_clients(0, &vec![1], 0);
    assert_eq!(plan.cooldown, None);
    let sent = plan.commands[0].strip_prefix("poke clid=1 msg=").unwrap();
    assert!(!sent.contains(|c| matches!(c, ' ' | '|' | '\n' | '\r')));
    assert_eq!(ts3_query::raw::unescape_val(sent), msg);
}

fn filled() -> TsStatCtrl {
    let mut s = stats();
    look(&mut s, 30 * SECOND, 30 * SECOND, vec![client(2, 20, 6, vec![]), client(1, 10, 5, vec![])]);
    s
}

#[test]
fn flush_stores_everything_once() {
    let mut s = filled();
    match s.flush_data(FlushEvent::Begin) {
        FlushAction::StoreNames(mut names) => {
            names.sort();
            assert_eq!(names, vec![(1, "client 10".to_string()), (2, "client 20".to_string())]);
        }
        other => panic!("{:?}", other),
    }
    assert_eq!(s.names.len(), 2);
    match s.flush_data(FlushEvent::NamesStored) {
        FlushAction::StoreActivity(date, activity) => {
            assert_eq!(date, FIRST);
            assert_eq!(
                activity,
                vec![
                    TsActivity { client: 1, channel: 5, time: 30 },
                    TsActivity { client: 2, channel: 6, time: 30 },
                ]
            );
        }
        other => panic!("{:?}", other),
    }
    assert!(s.names.is_empty());
    assert_eq!(s.times.len(), 2);
    assert!(matches!(s.flush_data(FlushEvent::ActivityStored(SECOND_DAY)), FlushAction::Finish));
    assert!(s.times.is_empty());
    assert_eq!(s.last_date, SECOND_DAY);
    assert_eq!(s.last_channel.len(), 2);
    assert_eq!(s.last_update, 30 * SECOND);
}

#[test]
fn failed_flush_keeps_what_was_not_stored() {
    let mut s = filled();
    s.flush_data(FlushEvent::Begin);
    assert!(matches!(s.flush_data(FlushEvent::Failed), FlushAction::Abort));
    assert_eq!(s.names.len(), 2);
    assert_eq!(s.times.len(), 2);
    s.flush_data(FlushEvent::Begin);
    s.flush_data(FlushEvent::NamesStored);
    assert!(matches!(s.flush_data(FlushEvent::Failed), FlushAction::Abort));
    assert!(s.names.is_empty());
    assert_eq!(s.times.len(), 2);
    assert_eq!(s.last_date, FIRST);
}

#[test]
fn flush_of_nothing() {
    let mut s = stats();
    match s.flush_data(FlushEvent::Begin) {
        FlushAction::StoreNames(names) => assert!(names.is_empty()),
        other => panic!("{:?}", other),
    }
    match s.flush_data(FlushEvent::NamesStored) {
        FlushAction::StoreActivity(_, activity) => assert!(activity.is_empty()),
        other => panic!("{:?}", other),
    }
}

#[test]
fn empty_times_take_any_elapsed_time() {
    let s = stats();
    let clients = online(vec![client(1, 10, 5, vec![]), client(2, 20, 5, vec![])]);
    assert!(s.tick_fits(&clients, 2_147_483_647 * SECOND));
    assert!(!s.tick_fits(&clients, 2_147_483_648 * SECOND));
}
