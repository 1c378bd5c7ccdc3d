//! The configuration of the daemon.

use std::sync::Arc;

use vstd::prelude::*;

verus! {

/// Takes the value out of a result that is known to hold one. `msg` says what is expected.
pub fn l_expect<T, E: std::fmt::Debug>(result: Result<T, E>, msg: &'static str) -> (value: T)
    requires
        result is Ok,
    ensures
        result == Ok::<T, E>(value),
{
    result.expect(msg)
}

/// Config Error struct
#[derive(Clone, Copy, Debug, PartialEq, Eq, Structural)]
pub enum ConfigError {
    ReadError,
    WriteError,
    CreateError,
}

/// Config struct
pub type Config = Arc<InnerConfig>;

#[derive(Debug)]
pub struct InnerConfig {
    pub db: DBConfig,
    pub main: MainConfig,
    pub ts: TSConfig,
}

/// TS config struct
#[derive(Debug)]
pub struct TSConfig {
    pub ip: String,
    pub port: u16,
    pub user: String,
    pub password: String,
    pub server_port: u16,
    pub unknown_id_check_enabled: bool,
    pub afk_move_enabled: bool,
    pub enabled: bool,
    pub cmd_limit_secs: u16,
}

/// Main config struct
#[derive(Debug)]
pub struct MainConfig {
    pub clan_ajax_url: String,
    pub clan_ajax_site_key: String,
    pub clan_ajax_exptected_per_site: u8,
    pub clan_ajax_start_row_key: String,
    pub clan_ajax_end_row_key: String,
    pub clan_ajax_max_sites: u8,
    pub clan_url: String,
    pub auto_fetch_unknown_names: bool,
    pub auto_leave_enabled: bool,
    pub auto_leave_max_age: u8,
    pub auto_leave_message_default: String,
    pub time: String,
    pub retries: u32,
    pub retry_interval: String,
    pub send_error_mail: bool,
    pub mail: Vec<String>,
    pub mail_from: String,
}

/// DB Config struct
#[derive(Debug)]
pub struct DBConfig {
    pub user: String,
    pub password: Option<String>,
    pub port: u16,
    pub db: String,
    pub ip: String,
}

/// What a new config file holds.
pub const DEFAULT_CONFIG: &'static str = "# Configuration of the clan tool daemon.

[db]
user = \"clantool\"
# leave the password out for an account without one
# password = \"..\"
ip = \"127.0.0.1\"
port = 3306
db = \"clantool\"

[main]
clan_ajax_url = \"https://example.com/rest/clanmembers.json\"
clan_ajax_site_key = \"page\"
clan_ajax_exptected_per_site = 10
clan_ajax_start_row_key = \"startrow\"
clan_ajax_end_row_key = \"endrow\"
clan_ajax_max_sites = 10
clan_url = \"https://example.com/clan\"
auto_fetch_unknown_names = true
auto_leave_enabled = false
auto_leave_max_age = 14
auto_leave_message_default = \"left the clan\"
time = \"14:00\"
retries = 10
retry_interval = \"00:10\"
send_error_mail = false
mail = []
mail_from = \"clantool@example.com\"

[ts]
ip = \"localhost\"
port = 11001
user = \"serveradmin\"
password = \"1234\"
server_port = 6678
unknown_id_check_enabled = true
afk_move_enabled = false
enabled = true
# commands per second that the server takes from one connection, 0 for no limit
cmd_limit_secs = 4
";

/// Create a new config.
pub fn default_config() -> (toml: String)
    ensures
        toml@ == DEFAULT_CONFIG@,
{
    DEFAULT_CONFIG.to_owned()
}

/// Whether `db` holds what a new config file says of the database.
pub open spec fn is_default_db(db: DBConfig) -> bool {
    &&& db.user@ == "clantool"@
    &&& db.password is None
    &&& db.port == 3306
    &&& db.db@ == "clantool"@
    &&& db.ip@ == "127.0.0.1"@
}

/// Whether `main` holds what a new config file says in its main section.
pub open spec fn is_default_main(main: MainConfig) -> bool {
    &&& main.clan_ajax_url@ == "https://example.com/rest/clanmembers.json"@
    &&& main.clan_ajax_site_key@ == "page"@
    &&& main.clan_ajax_exptected_per_site == 10
    &&& main.clan_ajax_start_row_key@ == "startrow"@
    &&& main.clan_ajax_end_row_key@ == "endrow"@
    &&& main.clan_ajax_max_sites == 10
    &&& main.clan_url@ == "https://example.com/clan"@
    &&& main.auto_fetch_unknown_names
    &&& !main.auto_leave_enabled
    &&& main.auto_leave_max_age == 14
    &&& main.auto_leave_message_default@ == "left the clan"@
    &&& main.time@ == "14:00"@
    &&& main.retries == 10
    &&& main.retry_interval@ == "00:10"@
    &&& !main.send_error_mail
    &&& main.mail@.len() == 0
    &&& main.mail_from@ == "clantool@example.com"@
}

/// Whether `ts` holds what a new config file says of the TeamSpeak server.
pub open spec fn is_default_ts(ts: TSConfig) -> bool {
    &&& ts.ip@ == "localhost"@
    &&& ts.port == 11001
    &&& ts.user@ == "serveradmin"@
    &&& ts.password@ == "1234"@
    &&& ts.server_port == 6678
    &&& ts.unknown_id_check_enabled
    &&& !ts.afk_move_enabled
    &&& ts.enabled
    &&& ts.cmd_limit_secs == 4
}

/// The config of a new config file, for tests.
pub fn default_cfg_testing() -> (config: Config)
    ensures
        is_default_db(config.db),
        is_default_main(config.main),
        is_default_ts(config.ts),
{
    let db = DBConfig {
        user: "clantool".to_owned(),
        password: None,
        port: 3306,
        db: "clantool".to_owned(),
        ip: "127.0.0.1".to_owned(),
    };
    let main = MainConfig {
        clan_ajax_url: "https://example.com/rest/clanmembers.json".to_owned(),
        clan_ajax_site_key: "page".to_owned(),
        clan_ajax_exptected_per_site: 10,
        clan_ajax_start_row_key: "startrow".to_owned(),
        clan_ajax_end_row_key: "endrow".to_owned(),
        clan_ajax_max_sites: 10,
        clan_url: "https://example.com/clan".to_owned(),
        auto_fetch_unknown_names: true,
        auto_leave_enabled: false,
        auto_leave_max_age: 14,
        auto_leave_message_default: "left the clan".to_owned(),
        time: "14:00".to_owned(),
        retries: 10,
        retry_interval: "00:10".to_owned(),
        send_error_mail: false,
        mail: Vec::new(),
        mail_from: "clantool@example.com".to_owned(),
    };
    let ts = TSConfig {
        ip: "localhost".to_owned(),
        port: 11001,
        user: "serveradmin".to_owned(),
        password: "1234".to_owned(),
        server_port: 6678,
        unknown_id_check_enabled: true,
        afk_move_enabled: false,
        enabled: true,
        cmd_limit_secs: 4,
    };
    Arc::new(InnerConfig { db, main, ts })
}

/// What to do for a config at startup.
#[derive(Debug)]
pub enum ConfigSource {
    /// Read the file and parse what it holds.
    File,
    /// Write this text to the file, then stop, so that it can be filled in.
    WriteAndExit(String),
}

/// Init config, reading from file or creating such. `found` is whether the file exists.
pub fn init_config(found: bool) -> (source: ConfigSource)
    ensures
        found ==> source is File,
        !found ==> source is WriteAndExit && source->WriteAndExit_0@ == DEFAULT_CONFIG@,
{
    if found {
        ConfigSource::File
    } else {
        ConfigSource::WriteAndExit(default_config())
    }
}

} // verus!
