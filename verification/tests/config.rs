use clantool::config::{
    default_cfg_testing, default_config, init_config, l_expect, ConfigError, ConfigSource,
};

#[test]
fn test_default_parse() {
    let parsed: toml::Value = toml::de::from_str(&default_config()).unwrap();
    let config = default_cfg_testing();

    let db = &parsed["db"];
    assert_eq!(db["user"].as_str(), Some(config.db.user.as_str()));
    assert_eq!(db.get("password").map(|v| v.as_str().unwrap()), config.db.password.as_deref());
    assert_eq!(db["port"].as_integer(), Some(config.db.port as i64));
    assert_eq!(db["db"].as_str(), Some(config.db.db.as_str()));
    assert_eq!(db["ip"].as_str(), Some(config.db.ip.as_str()));
    assert_eq!(db.as_table().unwrap().len(), 4);

    let main = &parsed["main"];
    assert_eq!(main["clan_ajax_url"].as_str(), Some(config.main.clan_ajax_url.as_str()));
    assert_eq!(main["clan_ajax_site_key"].as_str(), Some(config.main.clan_ajax_site_key.as_str()));
    assert_eq!(
        main["clan_ajax_exptected_per_site"].as_integer(),
        Some(config.main.clan_ajax_exptected_per_site as i64)
    );
    assert_eq!(
        main["clan_ajax_start_row_key"].as_str(),
        Some(config.main.clan_ajax_start_row_key.as_str())
    );
    assert_eq!(
        main["clan_ajax_end_row_key"].as_str(),
        Some(config.main.clan_ajax_end_row_key.as_str())
    );
    assert_eq!(
        main["clan_ajax_max_sites"].as_integer(),
        Some(config.main.clan_ajax_max_sites as i64)
    );
    assert_eq!(main["clan_url"].as_str(), Some(config.main.clan_url.as_str()));
    assert_eq!(
        main["auto_fetch_unknown_names"].as_bool(),
        Some(config.main.auto_fetch_unknown_names)
    );
    assert_eq!(main["auto_leave_enabled"].as_bool(), Some(config.main.auto_leave_enabled));
    assert_eq!(
        main["auto_leave_max_age"].as_integer(),
        Some(config.main.auto_leave_max_age as i64)
    );
    assert_eq!(
        main["auto_leave_message_default"].as_str(),
        Some(config.main.auto_leave_message_default.as_str())
    );
    assert_eq!(main["time"].as_str(), Some(config.main.time.as_str()));
    assert_eq!(main["retries"].as_integer(), Some(config.main.retries as i64));
    assert_eq!(main["retry_interval"].as_str(), Some(config.main.retry_interval.as_str()));
    assert_eq!(main["send_error_mail"].as_bool(), Some(config.main.send_error_mail));
    assert_eq!(main["mail"].as_array().unwrap().len(), config.main.mail.len());
    assert_eq!(main["mail_from"].as_str(), Some(config.main.mail_from.as_str()));
    assert_eq!(main.as_table().unwrap().len(), 17);

    let ts = &parsed["ts"];
    assert_eq!(ts["ip"].as_str(), Some(config.ts.ip.as_str()));
    assert_eq!(ts["port"].as_integer(), Some(config.ts.port as i64));
    assert_eq!(ts["user"].as_str(), Some(config.ts.user.as_str()));
    assert_eq!(ts["password"].as_str(), Some(config.ts.password.as_str()));
    assert_eq!(ts["server_port"].as_integer(), Some(config.ts.server_port as i64));
    assert_eq!(
        ts["unknown_id_check_enabled"].as_bool(),
        Some(config.ts.unknown_id_check_enabled)
    );
    assert_eq!(ts["afk_move_enabled"].as_bool(), Some(config.ts.afk_move_enabled));
    assert_eq!(ts["enabled"].as_bool(), Some(config.ts.enabled));
    assert_eq!(ts["cmd_limit_secs"].as_integer(), Some(config.ts.cmd_limit_secs as i64));
    assert_eq!(ts.as_table().unwrap().len(), 9);
    assert_eq!(parsed.as_table().unwrap().len(), 3);
}

#[test]
fn expected_value_is_taken_out() {
    let read: Result<u8, ConfigError> = Ok(7);
    assert_eq!(l_expect(read, "a number"), 7);
}

#[test]
fn config_file_is_read_where_it_exists() {
    assert!(matches!(init_config(true), ConfigSource::File));
}

#[test]
fn config_file_is_written_where_it_is_missing() {
    match init_config(false) {
        ConfigSource::WriteAndExit(text) => assert_eq!(text, default_config()),
        ConfigSource::File => panic!("nothing to read"),
    }
}
