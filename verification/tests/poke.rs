use clantool::config::{default_cfg_testing, Config};
use clantool::ts::client::TsClient;
use clantool::ts::poke::{
    command_cooldown, describe_poke_config, is_ts3_guest_check_enabled, poke_commands,
    print_poke_config, read_poke_config, GuestWatch, PokeConfig, PokeDecision,
};

fn poke_config() -> PokeConfig {
    PokeConfig { poke_group: 6, guest_group: 8, guest_channel: 100, poke_msg: "Hey \"you\"".to_string() }
}

fn client(conid: i32, channel: i32, groups: Vec<i32>) -> TsClient {
    TsClient { name: "name".to_string(), cldbid: conid, conid, channel, groups }
}

#[test]
fn poke_config_takes_all_ids() {
    let config = read_poke_config(Some(6), Some(8), Some(100), Some("hi".to_string())).unwrap();
    assert_eq!((config.poke_group, config.guest_group, config.guest_channel), (6, 8, 100));
    assert_eq!(config.poke_msg, "hi");
    assert!(read_poke_config(None, Some(8), Some(100), None).is_none());
    assert!(read_poke_config(Some(6), None, Some(100), None).is_none());
    assert!(read_poke_config(Some(6), Some(8), None, None).is_none());
}

#[test]
fn poke_message_has_a_default() {
    let config = read_poke_config(Some(6), Some(8), Some(100), None).unwrap();
    assert_eq!(config.poke_msg, "Guest arrived!");
}

#[test]
fn guest_check_setting_goes_before_the_config() {
    let config: Config = default_cfg_testing();
    assert!(config.ts.unknown_id_check_enabled);
    assert!(!is_ts3_guest_check_enabled::<()>(&Ok(Some(false)), &config));
    assert!(is_ts3_guest_check_enabled::<()>(&Ok(Some(true)), &config));
    assert!(is_ts3_guest_check_enabled::<()>(&Ok(None), &config));
    assert!(is_ts3_guest_check_enabled(&Err("db"), &config));
}

#[test]
fn poke_config_prints_as_its_debug_text() {
    let config = Some(poke_config());
    let expected = format!("Guest-Poke enabled: {:?}", poke_config());
    assert_eq!(print_poke_config(true, &config), expected);
    assert_eq!(
        expected,
        "Guest-Poke enabled: PokeConfig { poke_group: 6, guest_group: 8, guest_channel: 100, poke_msg: \"Hey \\\"you\\\"\" }"
    );
    assert_eq!(print_poke_config(true, &None), "Guest-Poke enabled but missing fields!");
    assert_eq!(print_poke_config(false, &config), "Guest-Poke disabled");
    assert_eq!(print_poke_config(false, &None), "Guest-Poke disabled");
}

#[test]
fn description_takes_the_quoted_message() {
    assert_eq!(
        describe_poke_config(&poke_config(), "<msg>"),
        "PokeConfig { poke_group: 6, guest_group: 8, guest_channel: 100, poke_msg: <msg> }"
    );
}

#[test]
fn waiting_guest_leads_to_a_poke() {
    let config = poke_config();
    let mut watch = GuestWatch::new();
    watch.observe(&config, &client(1, 5, vec![6]));
    watch.observe(&config, &client(2, 100, vec![7, 8]));
    watch.observe(&config, &client(3, 5, vec![7]));
    watch.observe(&config, &client(4, 9, vec![7, 6]));
    match watch.decide() {
        PokeDecision::Poke(targets) => assert_eq!(targets, vec![1, 4]),
        other => panic!("{:?}", other),
    }
}

#[test]
fn guest_elsewhere_does_not_count() {
    let config = poke_config();
    let mut watch = GuestWatch::new();
    watch.observe(&config, &client(1, 5, vec![6]));
    watch.observe(&config, &client(2, 5, vec![8]));
    assert!(matches!(watch.decide(), PokeDecision::Nothing));
}

#[test]
fn receiver_beside_the_guest_stops_the_poke() {
    let config = poke_config();
    for order in [[1, 100], [100, 1]] {
        let mut watch = GuestWatch::new();
        watch.observe(&config, &client(3, 5, vec![6]));
        for conid in order {
            let groups = if conid == 1 { vec![6] } else { vec![8] };
            watch.observe(&config, &client(conid, 100, groups));
        }
        assert!(watch.has_lt);
        assert!(matches!(watch.decide(), PokeDecision::ResetCooldown));
    }
}

#[test]
fn receiver_at_place_needs_no_guest() {
    let config = poke_config();
    let mut watch = GuestWatch::new();
    watch.observe(&config, &client(1, 100, vec![7, 6]));
    assert!(watch.has_lt && !watch.new_guest);
    assert!(matches!(watch.decide(), PokeDecision::ResetCooldown));
}

#[test]
fn guest_with_the_poke_group_is_a_guest() {
    let config = poke_config();
    let mut watch = GuestWatch::new();
    watch.observe(&config, &client(1, 100, vec![6, 8]));
    watch.observe(&config, &client(2, 5, vec![6]));
    assert!(watch.new_guest && !watch.has_lt);
    match watch.decide() {
        PokeDecision::Poke(targets) => assert_eq!(targets, vec![2]),
        other => panic!("{:?}", other),
    }
}

#[test]
fn receiver_elsewhere_is_not_at_place() {
    let config = poke_config();
    let mut watch = GuestWatch::new();
    watch.observe(&config, &client(1, 5, vec![6]));
    assert!(!watch.has_lt);
    assert!(matches!(watch.decide(), PokeDecision::Nothing));
}

#[test]
fn nothing_is_noted_with_a_receiver_at_place() {
    let config = poke_config();
    let mut watch = GuestWatch { poke_clients: vec![1], new_guest: false, has_lt: true };
    watch.observe(&config, &client(3, 5, vec![6]));
    watch.observe(&config, &client(4, 100, vec![8]));
    assert_eq!(watch.poke_clients, vec![1]);
    assert!(!watch.new_guest);
    assert!(matches!(watch.decide(), PokeDecision::ResetCooldown));
}

#[test]
fn wait_before_each_command() {
    assert_eq!(command_cooldown(0), None);
    assert_eq!(command_cooldown(1), Some(1000));
    assert_eq!(command_cooldown(3), Some(333));
    assert_eq!(command_cooldown(4), Some(250));
    assert_eq!(command_cooldown(1001), Some(0));
}

#[test]
fn commands_for_each_client() {
    assert_eq!(
        poke_commands(&vec![7, -1], "Guest\\sarrived!"),
        vec!["poke clid=7 msg=Guest\\sarrived!", "poke clid=-1 msg=Guest\\sarrived!"]
    );
    assert!(poke_commands(&vec![], "x").is_empty());
}
