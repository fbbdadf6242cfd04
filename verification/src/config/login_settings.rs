use vstd::prelude::*;
use vstd::string::*;

use super::{overlay, SettingDefault};
use crate::defines::CN_ACCOUNT_LEVEL__USER;

verus! {

/// Where the login server writes its log; "login.log" unless the configuration sets it.
pub struct LogPathSetting(Option<String>);

impl LogPathSetting {
    /// The text the configuration gives, if it sets this.
    pub closed spec fn value(&self) -> Option<Seq<char>> {
        match &self.0 {
            Some(s) => Some(s@),
            None => None,
        }
    }

    /// The default.
    pub open spec fn default_value() -> Seq<char> {
        "login.log"@
    }

    /// A setting that holds `value` (unset for `None`).
    pub fn new(value: Option<String>) -> (s: Self)
        ensures
            s.value() == (match value {
                Some(v) => Some(v@),
                None => None::<Seq<char>>,
            }),
    {
        LogPathSetting(value)
    }

    /// The configured text, or the default.
    pub fn get(&self) -> (r: String)
        ensures
            r@ == (match self.value() {
                Some(v) => v,
                None => Self::default_value(),
            }),
    {
        match &self.0 {
            Some(v) => v.clone(),
            None => SettingDefault::<String>::setting_default("login.log"),
        }
    }

    /// Whether the configuration sets this.
    pub fn is_set(&self) -> (b: bool)
        ensures
            b == self.value() is Some,
    {
        self.0.is_some()
    }

    /// The text the configuration gives, if it sets this.
    pub fn value_if_set(&self) -> (r: Option<String>)
        ensures
            match r {
                Some(v) => self.value() == Some(v@),
                None => self.value() is None,
            },
    {
        match &self.0 {
            Some(v) => Some(v.clone()),
            None => None,
        }
    }

    /// Whether the configuration sets this to its default.
    pub fn is_set_to_default(&self) -> (b: bool)
        ensures
            b == (self.value() == Some(Self::default_value())),
    {
        match &self.0 {
            Some(v) => {
                let d: String = SettingDefault::<String>::setting_default("login.log");
                *v == d
            },
            None => false,
        }
    }
}

impl Default for LogPathSetting {
    fn default() -> (s: Self)
        ensures
            s.value() is None,
    {
        LogPathSetting(None)
    }
}


/// The address the login server listens on; "127.0.0.1:23000" unless the configuration sets it.
pub struct ListenAddrSetting(Option<String>);

impl ListenAddrSetting {
    /// The text the configuration gives, if it sets this.
    pub closed spec fn value(&self) -> Option<Seq<char>> {
        match &self.0 {
            Some(s) => Some(s@),
            None => None,
        }
    }

    /// The default.
    pub open spec fn default_value() -> Seq<char> {
        "127.0.0.1:23000"@
    }

    /// A setting that holds `value` (unset for `None`).
    pub fn new(value: Option<String>) -> (s: Self)
        ensures
            s.value() == (match value {
                Some(v) => Some(v@),
                None => None::<Seq<char>>,
            }),
    {
        ListenAddrSetting(value)
    }

    /// The configured text, or the default.
    pub fn get(&self) -> (r: String)
        ensures
            r@ == (match self.value() {
                Some(v) => v,
                None => Self::default_value(),
            }),
    {
        match &self.0 {
            Some(v) => v.clone(),
            None => SettingDefault::<String>::setting_default("127.0.0.1:23000"),
        }
    }

    /// Whether the configuration sets this.
    pub fn is_set(&self) -> (b: bool)
        ensures
            b == self.value() is Some,
    {
        self.0.is_some()
    }

    /// The text the configuration gives, if it sets this.
    pub fn value_if_set(&self) -> (r: Option<String>)
        ensures
            match r {
                Some(v) => self.value() == Some(v@),
                None => self.value() is None,
            },
    {
        match &self.0 {
            Some(v) => Some(v.clone()),
            None => None,
        }
    }

    /// Whether the configuration sets this to its default.
    pub fn is_set_to_default(&self) -> (b: bool)
        ensures
            b == (self.value() == Some(Self::default_value())),
    {
        match &self.0 {
            Some(v) => {
                let d: String = SettingDefault::<String>::setting_default("127.0.0.1:23000");
                *v == d
            },
            None => false,
        }
    }
}

impl Default for ListenAddrSetting {
    fn default() -> (s: Self)
        ensures
            s.value() is None,
    {
        ListenAddrSetting(None)
    }
}


/// Whether an unknown user name creates an account; true unless the configuration sets it.
pub struct AutoCreateAccountsSetting(Option<bool>);

impl AutoCreateAccountsSetting {
    /// The value the configuration gives, if it sets this.
    pub closed spec fn value(&self) -> Option<bool> {
        self.0
    }

    /// The default.
    pub open spec fn default_value() -> bool {
        true
    }

    /// A setting that holds `value` (unset for `None`).
    pub fn new(value: Option<bool>) -> (s: Self)
        ensures
            s.value() == value,
    {
        AutoCreateAccountsSetting(value)
    }

    /// The configured value, or the default.
    pub fn get(&self) -> (r: bool)
        ensures
            r == (match self.value() {
                Some(v) => v,
                None => Self::default_value(),
            }),
    {
        match self.0 {
            Some(v) => v,
            None => SettingDefault::<bool>::setting_default(true),
        }
    }

    /// Whether the configuration sets this.
    pub fn is_set(&self) -> (b: bool)
        ensures
            b == self.value() is Some,
    {
        self.0.is_some()
    }

    /// The value the configuration gives, if it sets this.
    pub fn value_if_set(&self) -> (r: Option<bool>)
        ensures
            r == self.value(),
    {
        self.0
    }

    /// Whether the configuration sets this to its default.
    pub fn is_set_to_default(&self) -> (b: bool)
        ensures
            b == (self.value() == Some(Self::default_value())),
    {
        match self.0 {
            Some(v) => v == SettingDefault::<bool>::setting_default(true),
            None => false,
        }
    }
}

impl Default for AutoCreateAccountsSetting {
    fn default() -> (s: Self)
        ensures
            s.value() is None,
    {
        AutoCreateAccountsSetting(None)
    }
}


/// The level new accounts get; CN_ACCOUNT_LEVEL__USER unless the configuration sets it.
pub struct DefaultAccountLevelSetting(Option<u32>);

impl DefaultAccountLevelSetting {
    /// The value the configuration gives, if it sets this.
    pub closed spec fn value(&self) -> Option<u32> {
        self.0
    }

    /// The default.
    pub open spec fn default_value() -> u32 {
        CN_ACCOUNT_LEVEL__USER
    }

    /// A setting that holds `value` (unset for `None`).
    pub fn new(value: Option<u32>) -> (s: Self)
        ensures
            s.value() == value,
    {
        DefaultAccountLevelSetting(value)
    }

    /// The configured value, or the default.
    pub fn get(&self) -> (r: u32)
        ensures
            r == (match self.value() {
                Some(v) => v,
                None => Self::default_value(),
            }),
    {
        match self.0 {
            Some(v) => v,
            None => SettingDefault::<u32>::setting_default(CN_ACCOUNT_LEVEL__USER),
        }
    }

    /// Whether the configuration sets this.
    pub fn is_set(&self) -> (b: bool)
        ensures
            b == self.value() is Some,
    {
        self.0.is_some()
    }

    /// The value the configuration gives, if it sets this.
    pub fn value_if_set(&self) -> (r: Option<u32>)
        ensures
            r == self.value(),
    {
        self.0
    }

    /// Whether the configuration sets this to its default.
    pub fn is_set_to_default(&self) -> (b: bool)
        ensures
            b == (self.value() == Some(Self::default_value())),
    {
        match self.0 {
            Some(v) => v == SettingDefault::<u32>::setting_default(CN_ACCOUNT_LEVEL__USER),
            None => false,
        }
    }
}

impl Default for DefaultAccountLevelSetting {
    fn default() -> (s: Self)
        ensures
            s.value() is None,
    {
        DefaultAccountLevelSetting(None)
    }
}


/// Where the message of the day lies; "motd.txt" unless the configuration sets it.
pub struct MotdPathSetting(Option<String>);

impl MotdPathSetting {
    /// The text the configuration gives, if it sets this.
    pub closed spec fn value(&self) -> Option<Seq<char>> {
        match &self.0 {
            Some(s) => Some(s@),
            None => None,
        }
    }

    /// The default.
    pub open spec fn default_value() -> Seq<char> {
        "motd.txt"@
    }

    /// A setting that holds `value` (unset for `None`).
    pub fn new(value: Option<String>) -> (s: Self)
        ensures
            s.value() == (match value {
                Some(v) => Some(v@),
                None => None::<Seq<char>>,
            }),
    {
        MotdPathSetting(value)
    }

    /// The configured text, or the default.
    pub fn get(&self) -> (r: String)
        ensures
            r@ == (match self.value() {
                Some(v) => v,
                None => Self::default_value(),
            }),
    {
        match &self.0 {
            Some(v) => v.clone(),
            None => SettingDefault::<String>::setting_default("motd.txt"),
        }
    }

    /// Whether the configuration sets this.
    pub fn is_set(&self) -> (b: bool)
        ensures
            b == self.value() is Some,
    {
        self.0.is_some()
    }

    /// The text the configuration gives, if it sets this.
    pub fn value_if_set(&self) -> (r: Option<String>)
        ensures
            match r {
                Some(v) => self.value() == Some(v@),
                None => self.value() is None,
            },
    {
        match &self.0 {
            Some(v) => Some(v.clone()),
            None => None,
        }
    }

    /// Whether the configuration sets this to its default.
    pub fn is_set_to_default(&self) -> (b: bool)
        ensures
            b == (self.value() == Some(Self::default_value())),
    {
        match &self.0 {
            Some(v) => {
                let d: String = SettingDefault::<String>::setting_default("motd.txt");
                *v == d
            },
            None => false,
        }
    }
}

impl Default for MotdPathSetting {
    fn default() -> (s: Self)
        ensures
            s.value() is None,
    {
        MotdPathSetting(None)
    }
}


/// Whether clients may log in with a plaintext password; false unless the configuration sets it.
pub struct AllowPlaintextPasswordsSetting(Option<bool>);

impl AllowPlaintextPasswordsSetting {
    /// The value the configuration gives, if it sets this.
    pub closed spec fn value(&self) -> Option<bool> {
        self.0
    }

    /// The default.
    pub open spec fn default_value() -> bool {
        false
    }

    /// A setting that holds `value` (unset for `None`).
    pub fn new(value: Option<bool>) -> (s: Self)
        ensures
            s.value() == value,
    {
        AllowPlaintextPasswordsSetting(value)
    }

    /// The configured value, or the default.
    pub fn get(&self) -> (r: bool)
        ensures
            r == (match self.value() {
                Some(v) => v,
                None => Self::default_value(),
            }),
    {
        match self.0 {
            Some(v) => v,
            None => SettingDefault::<bool>::setting_default(false),
        }
    }

    /// Whether the configuration sets this.
    pub fn is_set(&self) -> (b: bool)
        ensures
            b == self.value() is Some,
    {
        self.0.is_some()
    }

    /// The value the configuration gives, if it sets this.
    pub fn value_if_set(&self) -> (r: Option<bool>)
        ensures
            r == self.value(),
    {
        self.0
    }

    /// Whether the configuration sets this to its default.
    pub fn is_set_to_default(&self) -> (b: bool)
        ensures
            b == (self.value() == Some(Self::default_value())),
    {
        match self.0 {
            Some(v) => v == SettingDefault::<bool>::setting_default(false),
            None => false,
        }
    }
}

impl Default for AllowPlaintextPasswordsSetting {
    fn default() -> (s: Self)
        ensures
            s.value() is None,
    {
        AllowPlaintextPasswordsSetting(None)
    }
}

/// Settings of the login server.
pub struct LoginConfig {
    pub log_path: LogPathSetting,
    pub listen_addr: ListenAddrSetting,
    pub auto_create_accounts: AutoCreateAccountsSetting,
    pub default_account_level: DefaultAccountLevelSetting,
    pub motd_path: MotdPathSetting,
    pub allow_plaintext_passwords: AllowPlaintextPasswordsSetting,
}

impl Default for LoginConfig {
    fn default() -> (c: Self)
        ensures
            c.unset(),
    {
        LoginConfig {
            log_path: LogPathSetting(None),
            listen_addr: ListenAddrSetting(None),
            auto_create_accounts: AutoCreateAccountsSetting(None),
            default_account_level: DefaultAccountLevelSetting(None),
            motd_path: MotdPathSetting(None),
            allow_plaintext_passwords: AllowPlaintextPasswordsSetting(None),
        }
    }
}

impl LoginConfig {
    /// No setting is set.
    pub open spec fn unset(&self) -> bool {
        &&& self.log_path.value() is None
        &&& self.listen_addr.value() is None
        &&& self.auto_create_accounts.value() is None
        &&& self.default_account_level.value() is None
        &&& self.motd_path.value() is None
        &&& self.allow_plaintext_passwords.value() is None
    }

    /// Each setting of `self` is the one of `top` where `top` sets it, else
    /// the one of `base`.
    pub open spec fn overlays(&self, base: &Self, top: &Self) -> bool {
        &&& self.log_path.value() == overlay(base.log_path.value(), top.log_path.value())
        &&& self.listen_addr.value() == overlay(base.listen_addr.value(), top.listen_addr.value())
        &&& self.auto_create_accounts.value() == overlay(base.auto_create_accounts.value(), top.auto_create_accounts.value())
        &&& self.default_account_level.value() == overlay(base.default_account_level.value(), top.default_account_level.value())
        &&& self.motd_path.value() == overlay(base.motd_path.value(), top.motd_path.value())
        &&& self.allow_plaintext_passwords.value() == overlay(base.allow_plaintext_passwords.value(), top.allow_plaintext_passwords.value())
    }

    /// Takes every setting that `other` sets.
    pub fn merge(&mut self, other: Self)
        ensures
            final(self).overlays(old(self), &other),
    {
        let LoginConfig {
            log_path,
            listen_addr,
            auto_create_accounts,
            default_account_level,
            motd_path,
            allow_plaintext_passwords,
        } = other;
        if log_path.is_set() {
            self.log_path = log_path;
        }
        if listen_addr.is_set() {
            self.listen_addr = listen_addr;
        }
        if auto_create_accounts.is_set() {
            self.auto_create_accounts = auto_create_accounts;
        }
        if default_account_level.is_set() {
            self.default_account_level = default_account_level;
        }
        if motd_path.is_set() {
            self.motd_path = motd_path;
        }
        if allow_plaintext_passwords.is_set() {
            self.allow_plaintext_passwords = allow_plaintext_passwords;
        }
    }
}

} // verus!
