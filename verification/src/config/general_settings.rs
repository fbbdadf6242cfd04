use vstd::prelude::*;
use vstd::string::*;

use super::{overlay, SettingDefault};

verus! {

/// How much the console log shows; 2 unless the configuration sets it.
pub struct LoggingLevelSetting(Option<usize>);

impl LoggingLevelSetting {
    /// The value the configuration gives, if it sets this.
    pub closed spec fn value(&self) -> Option<usize> {
        self.0
    }

    /// The default.
    pub open spec fn default_value() -> usize {
        2usize
    }

    /// A setting that holds `value` (unset for `None`).
    pub fn new(value: Option<usize>) -> (s: Self)
        ensures
            s.value() == value,
    {
        LoggingLevelSetting(value)
    }

    /// The configured value, or the default.
    pub fn get(&self) -> (r: usize)
        ensures
            r == (match self.value() {
                Some(v) => v,
                None => Self::default_value(),
            }),
    {
        match self.0 {
            Some(v) => v,
            None => SettingDefault::<usize>::setting_default(2usize),
        }
    }

    /// Whether the configuration sets this.
    pub fn is_set(&self) -> (b: bool)
        ensures
            b == self.value() is Some,
    {
        self.0.is_some()
    }

    /// The value the configuration gives, if it sets this.
    pub fn value_if_set(&self) -> (r: Option<usize>)
        ensures
            r == self.value(),
    {
        self.0
    }

    /// Whether the configuration sets this to its default.
    pub fn is_set_to_default(&self) -> (b: bool)
        ensures
            b == (self.value() == Some(Self::default_value())),
    {
        match self.0 {
            Some(v) => v == SettingDefault::<usize>::setting_default(2usize),
            None => false,
        }
    }
}

impl Default for LoggingLevelSetting {
    fn default() -> (s: Self)
        ensures
            s.value() is None,
    {
        LoggingLevelSetting(None)
    }
}


/// Seconds between writes of the log file; 60 unless the configuration sets it.
pub struct LogWriteIntervalSetting(Option<u64>);

impl LogWriteIntervalSetting {
    /// The value the configuration gives, if it sets this.
    pub closed spec fn value(&self) -> Option<u64> {
        self.0
    }

    /// The default.
    pub open spec fn default_value() -> u64 {
        60u64
    }

    /// A setting that holds `value` (unset for `None`).
    pub fn new(value: Option<u64>) -> (s: Self)
        ensures
            s.value() == value,
    {
        LogWriteIntervalSetting(value)
    }

    /// The configured value, or the default.
    pub fn get(&self) -> (r: u64)
        ensures
            r == (match self.value() {
                Some(v) => v,
                None => Self::default_value(),
            }),
    {
        match self.0 {
            Some(v) => v,
            None => SettingDefault::<u64>::setting_default(60u64),
        }
    }

    /// Whether the configuration sets this.
    pub fn is_set(&self) -> (b: bool)
        ensures
            b == self.value() is Some,
    {
        self.0.is_some()
    }

    /// The value the configuration gives, if it sets this.
    pub fn value_if_set(&self) -> (r: Option<u64>)
        ensures
            r == self.value(),
    {
        self.0
    }

    /// Whether the configuration sets this to its default.
    pub fn is_set_to_default(&self) -> (b: bool)
        ensures
            b == (self.value() == Some(Self::default_value())),
    {
        match self.0 {
            Some(v) => v == SettingDefault::<u64>::setting_default(60u64),
            None => false,
        }
    }
}

impl Default for LogWriteIntervalSetting {
    fn default() -> (s: Self)
        ensures
            s.value() is None,
    {
        LogWriteIntervalSetting(None)
    }
}


/// Seconds between checks that a connection is alive; 60 unless the configuration sets it.
pub struct LiveCheckTimeSetting(Option<u64>);

impl LiveCheckTimeSetting {
    /// The value the configuration gives, if it sets this.
    pub closed spec fn value(&self) -> Option<u64> {
        self.0
    }

    /// The default.
    pub open spec fn default_value() -> u64 {
        60u64
    }

    /// A setting that holds `value` (unset for `None`).
    pub fn new(value: Option<u64>) -> (s: Self)
        ensures
            s.value() == value,
    {
        LiveCheckTimeSetting(value)
    }

    /// The configured value, or the default.
    pub fn get(&self) -> (r: u64)
        ensures
            r == (match self.value() {
                Some(v) => v,
                None => Self::default_value(),
            }),
    {
        match self.0 {
            Some(v) => v,
            None => SettingDefault::<u64>::setting_default(60u64),
        }
    }

    /// Whether the configuration sets this.
    pub fn is_set(&self) -> (b: bool)
        ensures
            b == self.value() is Some,
    {
        self.0.is_some()
    }

    /// The value the configuration gives, if it sets this.
    pub fn value_if_set(&self) -> (r: Option<u64>)
        ensures
            r == self.value(),
    {
        self.0
    }

    /// Whether the configuration sets this to its default.
    pub fn is_set_to_default(&self) -> (b: bool)
        ensures
            b == (self.value() == Some(Self::default_value())),
    {
        match self.0 {
            Some(v) => v == SettingDefault::<u64>::setting_default(60u64),
            None => false,
        }
    }
}

impl Default for LiveCheckTimeSetting {
    fn default() -> (s: Self)
        ensures
            s.value() is None,
    {
        LiveCheckTimeSetting(None)
    }
}


/// The key the servers share; "myserverkey" unless the configuration sets it.
pub struct ServerKeySetting(Option<String>);

impl ServerKeySetting {
    /// The text the configuration gives, if it sets this.
    pub closed spec fn value(&self) -> Option<Seq<char>> {
        match &self.0 {
            Some(s) => Some(s@),
            None => None,
        }
    }

    /// The default.
    pub open spec fn default_value() -> Seq<char> {
        "myserverkey"@
    }

    /// A setting that holds `value` (unset for `None`).
    pub fn new(value: Option<String>) -> (s: Self)
        ensures
            s.value() == (match value {
                Some(v) => Some(v@),
                None => None::<Seq<char>>,
            }),
    {
        ServerKeySetting(value)
    }

    /// The configured text, or the default.
    pub fn get(&self) -> (r: String)
        ensures
            r@ == (match self.value() {
                Some(v) => v,
                None => Self::default_value(),
            }),
    {
        match &self.0 {
            Some(v) => v.clone(),
            None => SettingDefault::<String>::setting_default("myserverkey"),
        }
    }

    /// Whether the configuration sets this.
    pub fn is_set(&self) -> (b: bool)
        ensures
            b == self.value() is Some,
    {
        self.0.is_some()
    }

    /// The text the configuration gives, if it sets this.
    pub fn value_if_set(&self) -> (r: Option<String>)
        ensures
            match r {
                Some(v) => self.value() == Some(v@),
                None => self.value() is None,
            },
    {
        match &self.0 {
            Some(v) => Some(v.clone()),
            None => None,
        }
    }

    /// Whether the configuration sets this to its default.
    pub fn is_set_to_default(&self) -> (b: bool)
        ensures
            b == (self.value() == Some(Self::default_value())),
    {
        match &self.0 {
            Some(v) => {
                let d: String = SettingDefault::<String>::setting_default("myserverkey");
                *v == d
            },
            None => false,
        }
    }
}

impl Default for ServerKeySetting {
    fn default() -> (s: Self)
        ensures
            s.value() is None,
    {
        ServerKeySetting(None)
    }
}


/// The database user; "admin" unless the configuration sets it.
pub struct DbUsernameSetting(Option<String>);

impl DbUsernameSetting {
    /// The text the configuration gives, if it sets this.
    pub closed spec fn value(&self) -> Option<Seq<char>> {
        match &self.0 {
            Some(s) => Some(s@),
            None => None,
        }
    }

    /// The default.
    pub open spec fn default_value() -> Seq<char> {
        "admin"@
    }

    /// A setting that holds `value` (unset for `None`).
    pub fn new(value: Option<String>) -> (s: Self)
        ensures
            s.value() == (match value {
                Some(v) => Some(v@),
                None => None::<Seq<char>>,
            }),
    {
        DbUsernameSetting(value)
    }

    /// The configured text, or the default.
    pub fn get(&self) -> (r: String)
        ensures
            r@ == (match self.value() {
                Some(v) => v,
                None => Self::default_value(),
            }),
    {
        match &self.0 {
            Some(v) => v.clone(),
            None => SettingDefault::<String>::setting_default("admin"),
        }
    }

    /// Whether the configuration sets this.
    pub fn is_set(&self) -> (b: bool)
        ensures
            b == self.value() is Some,
    {
        self.0.is_some()
    }

    /// The text the configuration gives, if it sets this.
    pub fn value_if_set(&self) -> (r: Option<String>)
        ensures
            match r {
                Some(v) => self.value() == Some(v@),
                None => self.value() is None,
            },
    {
        match &self.0 {
            Some(v) => Some(v.clone()),
            None => None,
        }
    }

    /// Whether the configuration sets this to its default.
    pub fn is_set_to_default(&self) -> (b: bool)
        ensures
            b == (self.value() == Some(Self::default_value())),
    {
        match &self.0 {
            Some(v) => {
                let d: String = SettingDefault::<String>::setting_default("admin");
                *v == d
            },
            None => false,
        }
    }
}

impl Default for DbUsernameSetting {
    fn default() -> (s: Self)
        ensures
            s.value() is None,
    {
        DbUsernameSetting(None)
    }
}


/// The database password; "mypassword" unless the configuration sets it.
pub struct DbPasswordSetting(Option<String>);

impl DbPasswordSetting {
    /// The text the configuration gives, if it sets this.
    pub closed spec fn value(&self) -> Option<Seq<char>> {
        match &self.0 {
            Some(s) => Some(s@),
            None => None,
        }
    }

    /// The default.
    pub open spec fn default_value() -> Seq<char> {
        "mypassword"@
    }

    /// A setting that holds `value` (unset for `None`).
    pub fn new(value: Option<String>) -> (s: Self)
        ensures
            s.value() == (match value {
                Some(v) => Some(v@),
                None => None::<Seq<char>>,
            }),
    {
        DbPasswordSetting(value)
    }

    /// The configured text, or the default.
    pub fn get(&self) -> (r: String)
        ensures
            r@ == (match self.value() {
                Some(v) => v,
                None => Self::default_value(),
            }),
    {
        match &self.0 {
            Some(v) => v.clone(),
            None => SettingDefault::<String>::setting_default("mypassword"),
        }
    }

    /// Whether the configuration sets this.
    pub fn is_set(&self) -> (b: bool)
        ensures
            b == self.value() is Some,
    {
        self.0.is_some()
    }

    /// The text the configuration gives, if it sets this.
    pub fn value_if_set(&self) -> (r: Option<String>)
        ensures
            match r {
                Some(v) => self.value() == Some(v@),
                None => self.value() is None,
            },
    {
        match &self.0 {
            Some(v) => Some(v.clone()),
            None => None,
        }
    }

    /// Whether the configuration sets this to its default.
    pub fn is_set_to_default(&self) -> (b: bool)
        ensures
            b == (self.value() == Some(Self::default_value())),
    {
        match &self.0 {
            Some(v) => {
                let d: String = SettingDefault::<String>::setting_default("mypassword");
                *v == d
            },
            None => false,
        }
    }
}

impl Default for DbPasswordSetting {
    fn default() -> (s: Self)
        ensures
            s.value() is None,
    {
        DbPasswordSetting(None)
    }
}


/// The database host; "localhost" unless the configuration sets it.
pub struct DbHostSetting(Option<String>);

impl DbHostSetting {
    /// The text the configuration gives, if it sets this.
    pub closed spec fn value(&self) -> Option<Seq<char>> {
        match &self.0 {
            Some(s) => Some(s@),
            None => None,
        }
    }

    /// The default.
    pub open spec fn default_value() -> Seq<char> {
        "localhost"@
    }

    /// A setting that holds `value` (unset for `None`).
    pub fn new(value: Option<String>) -> (s: Self)
        ensures
            s.value() == (match value {
                Some(v) => Some(v@),
                None => None::<Seq<char>>,
            }),
    {
        DbHostSetting(value)
    }

    /// The configured text, or the default.
    pub fn get(&self) -> (r: String)
        ensures
            r@ == (match self.value() {
                Some(v) => v,
                None => Self::default_value(),
            }),
    {
        match &self.0 {
            Some(v) => v.clone(),
            None => SettingDefault::<String>::setting_default("localhost"),
        }
    }

    /// Whether the configuration sets this.
    pub fn is_set(&self) -> (b: bool)
        ensures
            b == self.value() is Some,
    {
        self.0.is_some()
    }

    /// The text the configuration gives, if it sets this.
    pub fn value_if_set(&self) -> (r: Option<String>)
        ensures
            match r {
                Some(v) => self.value() == Some(v@),
                None => self.value() is None,
            },
    {
        match &self.0 {
            Some(v) => Some(v.clone()),
            None => None,
        }
    }

    /// Whether the configuration sets this to its default.
    pub fn is_set_to_default(&self) -> (b: bool)
        ensures
            b == (self.value() == Some(Self::default_value())),
    {
        match &self.0 {
            Some(v) => {
                let d: String = SettingDefault::<String>::setting_default("localhost");
                *v == d
            },
            None => false,
        }
    }
}

impl Default for DbHostSetting {
    fn default() -> (s: Self)
        ensures
            s.value() is None,
    {
        DbHostSetting(None)
    }
}


/// The database port; 5432 unless the configuration sets it.
pub struct DbPortSetting(Option<u16>);

impl DbPortSetting {
    /// The value the configuration gives, if it sets this.
    pub closed spec fn value(&self) -> Option<u16> {
        self.0
    }

    /// The default.
    pub open spec fn default_value() -> u16 {
        5432u16
    }

    /// A setting that holds `value` (unset for `None`).
    pub fn new(value: Option<u16>) -> (s: Self)
        ensures
            s.value() == value,
    {
        DbPortSetting(value)
    }

    /// The configured value, or the default.
    pub fn get(&self) -> (r: u16)
        ensures
            r == (match self.value() {
                Some(v) => v,
                None => Self::default_value(),
            }),
    {
        match self.0 {
            Some(v) => v,
            None => SettingDefault::<u16>::setting_default(5432u16),
        }
    }

    /// Whether the configuration sets this.
    pub fn is_set(&self) -> (b: bool)
        ensures
            b == self.value() is Some,
    {
        self.0.is_some()
    }

    /// The value the configuration gives, if it sets this.
    pub fn value_if_set(&self) -> (r: Option<u16>)
        ensures
            r == self.value(),
    {
        self.0
    }

    /// Whether the configuration sets this to its default.
    pub fn is_set_to_default(&self) -> (b: bool)
        ensures
            b == (self.value() == Some(Self::default_value())),
    {
        match self.0 {
            Some(v) => v == SettingDefault::<u16>::setting_default(5432u16),
            None => false,
        }
    }
}

impl Default for DbPortSetting {
    fn default() -> (s: Self)
        ensures
            s.value() is None,
    {
        DbPortSetting(None)
    }
}


/// Where the table data lies; "tabledata/" unless the configuration sets it.
pub struct TableDataPathSetting(Option<String>);

impl TableDataPathSetting {
    /// The text the configuration gives, if it sets this.
    pub closed spec fn value(&self) -> Option<Seq<char>> {
        match &self.0 {
            Some(s) => Some(s@),
            None => None,
        }
    }

    /// The default.
    pub open spec fn default_value() -> Seq<char> {
        "tabledata/"@
    }

    /// A setting that holds `value` (unset for `None`).
    pub fn new(value: Option<String>) -> (s: Self)
        ensures
            s.value() == (match value {
                Some(v) => Some(v@),
                None => None::<Seq<char>>,
            }),
    {
        TableDataPathSetting(value)
    }

    /// The configured text, or the default.
    pub fn get(&self) -> (r: String)
        ensures
            r@ == (match self.value() {
                Some(v) => v,
                None => Self::default_value(),
            }),
    {
        match &self.0 {
            Some(v) => v.clone(),
            None => SettingDefault::<String>::setting_default("tabledata/"),
        }
    }

    /// Whether the configuration sets this.
    pub fn is_set(&self) -> (b: bool)
        ensures
            b == self.value() is Some,
    {
        self.0.is_some()
    }

    /// The text the configuration gives, if it sets this.
    pub fn value_if_set(&self) -> (r: Option<String>)
        ensures
            match r {
                Some(v) => self.value() == Some(v@),
                None => self.value() is None,
            },
    {
        match &self.0 {
            Some(v) => Some(v.clone()),
            None => None,
        }
    }

    /// Whether the configuration sets this to its default.
    pub fn is_set_to_default(&self) -> (b: bool)
        ensures
            b == (self.value() == Some(Self::default_value())),
    {
        match &self.0 {
            Some(v) => {
                let d: String = SettingDefault::<String>::setting_default("tabledata/");
                *v == d
            },
            None => false,
        }
    }
}

impl Default for TableDataPathSetting {
    fn default() -> (s: Self)
        ensures
            s.value() is None,
    {
        TableDataPathSetting(None)
    }
}

/// Settings shared by the login and shard servers.
pub struct GeneralConfig {
    pub logging_level_console: LoggingLevelSetting,
    pub logging_level_file: LoggingLevelSetting,
    pub log_write_interval: LogWriteIntervalSetting,
    pub live_check_time: LiveCheckTimeSetting,
    pub server_key: ServerKeySetting,
    pub db_username: DbUsernameSetting,
    pub db_password: DbPasswordSetting,
    pub db_host: DbHostSetting,
    pub db_port: DbPortSetting,
    pub table_data_path: TableDataPathSetting,
}

impl Default for GeneralConfig {
    fn default() -> (c: Self)
        ensures
            c.unset(),
    {
        GeneralConfig {
            logging_level_console: LoggingLevelSetting(None),
            logging_level_file: LoggingLevelSetting(None),
            log_write_interval: LogWriteIntervalSetting(None),
            live_check_time: LiveCheckTimeSetting(None),
            server_key: ServerKeySetting(None),
            db_username: DbUsernameSetting(None),
            db_password: DbPasswordSetting(None),
            db_host: DbHostSetting(None),
            db_port: DbPortSetting(None),
            table_data_path: TableDataPathSetting(None),
        }
    }
}

impl GeneralConfig {
    /// No setting is set.
    pub open spec fn unset(&self) -> bool {
        &&& self.logging_level_console.value() is None
        &&& self.logging_level_file.value() is None
        &&& self.log_write_interval.value() is None
        &&& self.live_check_time.value() is None
        &&& self.server_key.value() is None
        &&& self.db_username.value() is None
        &&& self.db_password.value() is None
        &&& self.db_host.value() is None
        &&& self.db_port.value() is None
        &&& self.table_data_path.value() is None
    }

    /// Each setting of `self` is the one of `top` where `top` sets it, else
    /// the one of `base`.
    pub open spec fn overlays(&self, base: &Self, top: &Self) -> bool {
        &&& self.logging_level_console.value() == overlay(base.logging_level_console.value(), top.logging_level_console.value())
        &&& self.logging_level_file.value() == overlay(base.logging_level_file.value(), top.logging_level_file.value())
        &&& self.log_write_interval.value() == overlay(base.log_write_interval.value(), top.log_write_interval.value())
        &&& self.live_check_time.value() == overlay(base.live_check_time.value(), top.live_check_time.value())
        &&& self.server_key.value() == overlay(base.server_key.value(), top.server_key.value())
        &&& self.db_username.value() == overlay(base.db_username.value(), top.db_username.value())
        &&& self.db_password.value() == overlay(base.db_password.value(), top.db_password.value())
        &&& self.db_host.value() == overlay(base.db_host.value(), top.db_host.value())
        &&& self.db_port.value() == overlay(base.db_port.value(), top.db_port.value())
        &&& self.table_data_path.value() == overlay(base.table_data_path.value(), top.table_data_path.value())
    }

    /// Takes every setting that `other` sets.
    pub fn merge(&mut self, other: Self)
        ensures
            final(self).overlays(old(self), &other),
    {
        let GeneralConfig {
            logging_level_console,
            logging_level_file,
            log_write_interval,
            live_check_time,
            server_key,
            db_username,
            db_password,
            db_host,
            db_port,
            table_data_path,
        } = other;
        if logging_level_console.is_set() {
            self.logging_level_console = logging_level_console;
        }
        if logging_level_file.is_set() {
            self.logging_level_file = logging_level_file;
        }
        if log_write_interval.is_set() {
            self.log_write_interval = log_write_interval;
        }
        if live_check_time.is_set() {
            self.live_check_time = live_check_time;
        }
        if server_key.is_set() {
            self.server_key = server_key;
        }
        if db_username.is_set() {
            self.db_username = db_username;
        }
        if db_password.is_set() {
            self.db_password = db_password;
        }
        if db_host.is_set() {
            self.db_host = db_host;
        }
        if db_port.is_set() {
            self.db_port = db_port;
        }
        if table_data_path.is_set() {
            self.table_data_path = table_data_path;
        }
    }
}

} // verus!
