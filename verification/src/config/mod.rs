use vstd::prelude::*;
use vstd::string::*;

pub mod general_settings;
pub mod login_settings;
pub mod shard_settings;
pub mod toml_value;
pub mod overrides;

pub use self::general_settings::GeneralConfig;
pub use self::login_settings::LoginConfig;
pub use self::shard_settings::ShardConfig;

verus! {

/// Turns the default written beside a setting into the setting's value.
pub trait SettingDefault<T> {
    fn setting_default(self) -> T;
}


impl SettingDefault<bool> for bool {
    fn setting_default(self) -> (r: bool)
        ensures
            r == self,
    {
        self
    }
}

impl SettingDefault<u16> for u16 {
    fn setting_default(self) -> (r: u16)
        ensures
            r == self,
    {
        self
    }
}

impl SettingDefault<u32> for u32 {
    fn setting_default(self) -> (r: u32)
        ensures
            r == self,
    {
        self
    }
}

impl SettingDefault<u64> for u64 {
    fn setting_default(self) -> (r: u64)
        ensures
            r == self,
    {
        self
    }
}

impl SettingDefault<usize> for usize {
    fn setting_default(self) -> (r: usize)
        ensures
            r == self,
    {
        self
    }
}

impl SettingDefault<i32> for i32 {
    fn setting_default(self) -> (r: i32)
        ensures
            r == self,
    {
        self
    }
}

impl<'a> SettingDefault<String> for &'a str {
    fn setting_default(self) -> (r: String)
        ensures
            r.view() == self.view(),
    {
        String::from_str(self)
    }
}

/// `top` where it is set, else `base`.
pub open spec fn overlay<T>(base: Option<T>, top: Option<T>) -> Option<T> {
    if top is Some {
        top
    } else {
        base
    }
}

/// The whole configuration, section by section.
pub struct Config {
    pub general: GeneralConfig,
    pub login: LoginConfig,
    pub shard: ShardConfig,
}

impl Default for Config {
    fn default() -> (c: Self)
        ensures
            c.unset(),
    {
        Config { general: GeneralConfig::default(), login: LoginConfig::default(), shard: ShardConfig::default() }
    }
}

impl Config {
    /// No setting of any section is set.
    pub open spec fn unset(&self) -> bool {
        &&& self.general.unset()
        &&& self.login.unset()
        &&& self.shard.unset()
    }

    /// Each setting of `self` is the one of `top` where `top` sets it, else
    /// the one of `base`.
    pub open spec fn overlays(&self, base: &Self, top: &Self) -> bool {
        &&& self.general.overlays(&base.general, &top.general)
        &&& self.login.overlays(&base.login, &top.login)
        &&& self.shard.overlays(&base.shard, &top.shard)
    }

    /// Takes every setting that `other` sets, section by section.
    pub fn merge(&mut self, other: Config)
        ensures
            final(self).overlays(old(self), &other),
    {
        let Config { general, login, shard } = other;
        self.general.merge(general);
        self.login.merge(login);
        self.shard.merge(shard);
    }
}

} // verus!
