use clantool::config::{default_cfg_testing, TSConfig};
use clantool::error::{Error, SettingKey};
use clantool::ts::daemon::{run_timer, start_daemon, RoundAction, RoundEvent, Task};
use clantool::ts::identities::{
    find_unknown_identities, find_unknown_inner, server_address, IdentitySweep, SearchAction,
    SearchError, SearchEvent, SweepAction, SweepEvent,
};

#[test]
fn timers_of_the_daemon() {
    let config = default_cfg_testing();
    let plans = start_daemon(&config).unwrap();
    assert_eq!(plans.len(), 2);
    assert_eq!(plans[0].interval, 30);
    assert_eq!(plans[0].tasks, vec![Task::Tick]);
    assert_eq!(plans[1].interval, 15 * 60);
    assert_eq!(
        plans[1].tasks,
        vec![Task::FlushData, Task::UpdateSettings, Task::UpdateChannels]
    );
}

#[test]
fn disabled_daemon_has_no_timers() {
    let mut config = default_cfg_testing();
    std::sync::Arc::get_mut(&mut config).unwrap().ts.enabled = false;
    assert!(start_daemon(&config).is_none());
}

#[test]
fn round_goes_on_after_failures() {
    let plans = start_daemon(&default_cfg_testing()).unwrap();
    let plan = &plans[1];
    assert_eq!(
        run_timer::<&str>(plan, RoundEvent::Due),
        (RoundAction::Run(0, Task::FlushData), None)
    );
    assert_eq!(
        run_timer(plan, RoundEvent::Done(0, Err("db"))),
        (RoundAction::Run(1, Task::UpdateSettings), Some("db"))
    );
    assert_eq!(
        run_timer::<&str>(plan, RoundEvent::Done(1, Ok(()))),
        (RoundAction::Run(2, Task::UpdateChannels), None)
    );
    assert_eq!(
        run_timer(plan, RoundEvent::Done(2, Err("ts"))),
        (RoundAction::Wait(900), Some("ts"))
    );
    assert_eq!(
        run_timer::<&str>(&plans[0], RoundEvent::Due),
        (RoundAction::Run(0, Task::Tick), None)
    );
    assert_eq!(
        run_timer(&plans[0], RoundEvent::Done(0, Err("ts"))),
        (RoundAction::Wait(30), Some("ts"))
    );
}

#[test]
fn round_is_over_behind_the_last_task() {
    let plans = start_daemon(&default_cfg_testing()).unwrap();
    for place in [2, 3, usize::MAX] {
        assert_eq!(
            run_timer::<&str>(&plans[1], RoundEvent::Done(place, Ok(()))),
            (RoundAction::Wait(900), None)
        );
    }
}

#[test]
fn search_ends_behind_the_last_try() {
    match find_unknown_identities(u64::MAX, SearchEvent::Searched(Err("ts"))) {
        (u64::MAX, SearchAction::Finish(Err(SearchError::Outside(e)))) => assert_eq!(e, "ts"),
        other => panic!("{:?}", other),
    }
}

#[test]
fn search_reads_the_groups_first() {
    let (attempt, action) = find_unknown_identities::<()>(1, SearchEvent::Ready);
    assert_eq!(attempt, 1);
    assert!(matches!(action, SearchAction::ReadGroups));
}

#[test]
fn search_of_the_groups_read() {
    let event: SearchEvent<()> = SearchEvent::GroupsRead(Ok(Some(vec![6, 7])));
    match find_unknown_identities(2, event) {
        (2, SearchAction::Search(groups)) => assert_eq!(groups, vec![6, 7]),
        other => panic!("{:?}", other),
    }
}

#[test]
fn search_without_groups_is_not_tried_again() {
    let event: SearchEvent<()> = SearchEvent::GroupsRead(Ok(None));
    match find_unknown_identities(1, event) {
        (_, SearchAction::Finish(Err(SearchError::Search(e)))) => {
            assert_eq!(e, Error::MissingKey(SettingKey::MemberGroup))
        }
        other => panic!("{:?}", other),
    }
    match find_unknown_identities(1, SearchEvent::GroupsRead(Err("db"))) {
        (_, SearchAction::Finish(Err(SearchError::Outside(e)))) => assert_eq!(e, "db"),
        other => panic!("{:?}", other),
    }
}

#[test]
fn search_ends_with_the_first_success() {
    match find_unknown_identities::<()>(3, SearchEvent::Searched(Ok(()))) {
        (3, SearchAction::Finish(Ok(()))) => {}
        other => panic!("{:?}", other),
    }
}

#[test]
fn search_ends_with_the_try_that_is_answered() {
    let mut attempt = 1;
    let mut searches = 0;
    loop {
        searches += 1;
        let outcome = if attempt == 4 { Ok(()) } else { Err("ts") };
        match find_unknown_identities(attempt, SearchEvent::Searched(outcome)) {
            (next, SearchAction::Wait(..)) => attempt = next,
            (_, SearchAction::Finish(Ok(()))) => break,
            other => panic!("{:?}", other),
        }
    }
    assert_eq!(searches, 4);
}

#[test]
fn search_is_tried_ten_times() {
    let mut attempt = 1;
    let mut waits = vec![];
    loop {
        match find_unknown_identities(attempt, SearchEvent::Searched(Err("ts"))) {
            (next, SearchAction::Wait(secs, e)) => {
                assert_eq!(e, "ts");
                waits.push(secs);
                attempt = next;
            }
            (_, SearchAction::Finish(Err(SearchError::Outside(e)))) => {
                assert_eq!(e, "ts");
                break;
            }
            other => panic!("{:?}", other),
        }
    }
    assert_eq!(attempt, 10);
    assert_eq!(waits, vec![60, 120, 180, 240, 300, 360, 420, 480, 540]);
    assert_eq!(waits.iter().sum::<u64>(), 30 * 10 * 9);
}

#[test]
fn sweep_lists_each_group_and_stores_all() {
    let mut sweep = IdentitySweep::new(vec![6, 8]);
    assert!(matches!(
        find_unknown_inner(&mut sweep, SweepEvent::Connected),
        SweepAction::ListClients(6)
    ));
    assert!(matches!(
        find_unknown_inner(&mut sweep, SweepEvent::Listed(vec![1, 2])),
        SweepAction::ListClients(8)
    ));
    match find_unknown_inner(&mut sweep, SweepEvent::Listed(vec![2, 3])) {
        SweepAction::Store(ids) => assert_eq!(ids, vec![1, 2, 2, 3]),
        other => panic!("{:?}", other),
    }
}

#[test]
fn sweep_takes_in_nothing_after_the_last_group() {
    let mut sweep = IdentitySweep::new(vec![6]);
    find_unknown_inner(&mut sweep, SweepEvent::Connected);
    find_unknown_inner(&mut sweep, SweepEvent::Listed(vec![1]));
    match find_unknown_inner(&mut sweep, SweepEvent::Listed(vec![2])) {
        SweepAction::Store(ids) => assert_eq!(ids, vec![1]),
        other => panic!("{:?}", other),
    }
}

#[test]
fn sweep_without_groups_stores_nothing() {
    let mut sweep = IdentitySweep::new(vec![]);
    match find_unknown_inner(&mut sweep, SweepEvent::Connected) {
        SweepAction::Store(ids) => assert!(ids.is_empty()),
        other => panic!("{:?}", other),
    }
}

#[test]
fn address_of_the_server() {
    let config = TSConfig {
        ip: "localhost".to_string(),
        port: 11001,
        user: "serveradmin".to_string(),
        password: "1234".to_string(),
        server_port: 6678,
        unknown_id_check_enabled: true,
        afk_move_enabled: false,
        enabled: true,
        cmd_limit_secs: 4,
    };
    assert_eq!(server_address(&config), "localhost:11001");
}
