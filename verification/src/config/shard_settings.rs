use vstd::prelude::*;
use vstd::string::*;

use super::{overlay, SettingDefault};

verus! {

/// Where the shard server writes its log; "shard.log" unless the configuration sets it.
pub struct LogPathSetting(Option<String>);

impl LogPathSetting {
    /// The text the configuration gives, if it sets this.
    pub closed spec fn value(&self) -> Option<Seq<char>> {
        match &self.0 {
            Some(s) => Some(s@),
            None => None,
        }
    }

    /// The default.
    pub open spec fn default_value() -> Seq<char> {
        "shard.log"@
    }

    /// A setting that holds `value` (unset for `None`).
    pub fn new(value: Option<String>) -> (s: Self)
        ensures
            s.value() == (match value {
                Some(v) => Some(v@),
                None => None::<Seq<char>>,
            }),
    {
        LogPathSetting(value)
    }

    /// The configured text, or the default.
    pub fn get(&self) -> (r: String)
        ensures
            r@ == (match self.value() {
                Some(v) => v,
                None => Self::default_value(),
            }),
    {
        match &self.0 {
            Some(v) => v.clone(),
            None => SettingDefault::<String>::setting_default("shard.log"),
        }
    }

    /// Whether the configuration sets this.
    pub fn is_set(&self) -> (b: bool)
        ensures
            b == self.value() is Some,
    {
        self.0.is_some()
    }

    /// The text the configuration gives, if it sets this.
    pub fn value_if_set(&self) -> (r: Option<String>)
        ensures
            match r {
                Some(v) => self.value() == Some(v@),
                None => self.value() is None,
            },
    {
        match &self.0 {
            Some(v) => Some(v.clone()),
            None => None,
        }
    }

    /// Whether the configuration sets this to its default.
    pub fn is_set_to_default(&self) -> (b: bool)
        ensures
            b == (self.value() == Some(Self::default_value())),
    {
        match &self.0 {
            Some(v) => {
                let d: String = SettingDefault::<String>::setting_default("shard.log");
                *v == d
            },
            None => false,
        }
    }
}

impl Default for LogPathSetting {
    fn default() -> (s: Self)
        ensures
            s.value() is None,
    {
        LogPathSetting(None)
    }
}


/// The number of this shard; 1 unless the configuration sets it.
pub struct ShardIDSetting(Option<i32>);

impl ShardIDSetting {
    /// The value the configuration gives, if it sets this.
    pub closed spec fn value(&self) -> Option<i32> {
        self.0
    }

    /// The default.
    pub open spec fn default_value() -> i32 {
        1i32
    }

    /// A setting that holds `value` (unset for `None`).
    pub fn new(value: Option<i32>) -> (s: Self)
        ensures
            s.value() == value,
    {
        ShardIDSetting(value)
    }

    /// The configured value, or the default.
    pub fn get(&self) -> (r: i32)
        ensures
            r == (match self.value() {
                Some(v) => v,
                None => Self::default_value(),
            }),
    {
        match self.0 {
            Some(v) => v,
            None => SettingDefault::<i32>::setting_default(1i32),
        }
    }

    /// Whether the configuration sets this.
    pub fn is_set(&self) -> (b: bool)
        ensures
            b == self.value() is Some,
    {
        self.0.is_some()
    }

    /// The value the configuration gives, if it sets this.
    pub fn value_if_set(&self) -> (r: Option<i32>)
        ensures
            r == self.value(),
    {
        self.0
    }

    /// Whether the configuration sets this to its default.
    pub fn is_set_to_default(&self) -> (b: bool)
        ensures
            b == (self.value() == Some(Self::default_value())),
    {
        match self.0 {
            Some(v) => v == SettingDefault::<i32>::setting_default(1i32),
            None => false,
        }
    }
}

impl Default for ShardIDSetting {
    fn default() -> (s: Self)
        ensures
            s.value() is None,
    {
        ShardIDSetting(None)
    }
}


/// The address the shard listens on; "127.0.0.1:23001" unless the configuration sets it.
pub struct ListenAddrSetting(Option<String>);

impl ListenAddrSetting {
    /// The text the configuration gives, if it sets this.
    pub closed spec fn value(&self) -> Option<Seq<char>> {
        match &self.0 {
            Some(s) => Some(s@),
            None => None,
        }
    }

    /// The default.
    pub open spec fn default_value() -> Seq<char> {
        "127.0.0.1:23001"@
    }

    /// A setting that holds `value` (unset for `None`).
    pub fn new(value: Option<String>) -> (s: Self)
        ensures
            s.value() == (match value {
                Some(v) => Some(v@),
                None => None::<Seq<char>>,
            }),
    {
        ListenAddrSetting(value)
    }

    /// The configured text, or the default.
    pub fn get(&self) -> (r: String)
        ensures
            r@ == (match self.value() {
                Some(v) => v,
                None => Self::default_value(),
            }),
    {
        match &self.0 {
            Some(v) => v.clone(),
            None => SettingDefault::<String>::setting_default("127.0.0.1:23001"),
        }
    }

    /// Whether the configuration sets this.
    pub fn is_set(&self) -> (b: bool)
        ensures
            b == self.value() is Some,
    {
        self.0.is_some()
    }

    /// The text the configuration gives, if it sets this.
    pub fn value_if_set(&self) -> (r: Option<String>)
        ensures
            match r {
                Some(v) => self.value() == Some(v@),
                None => self.value() is None,
            },
    {
        match &self.0 {
            Some(v) => Some(v.clone()),
            None => None,
        }
    }

    /// Whether the configuration sets this to its default.
    pub fn is_set_to_default(&self) -> (b: bool)
        ensures
            b == (self.value() == Some(Self::default_value())),
    {
        match &self.0 {
            Some(v) => {
                let d: String = SettingDefault::<String>::setting_default("127.0.0.1:23001");
                *v == d
            },
            None => false,
        }
    }
}

impl Default for ListenAddrSetting {
    fn default() -> (s: Self)
        ensures
            s.value() is None,
    {
        ListenAddrSetting(None)
    }
}


/// The address clients reach the shard at; "127.0.0.1:23001" unless the configuration sets it.
pub struct ExternalAddrSetting(Option<String>);

impl ExternalAddrSetting {
    /// The text the configuration gives, if it sets this.
    pub closed spec fn value(&self) -> Option<Seq<char>> {
        match &self.0 {
            Some(s) => Some(s@),
            None => None,
        }
    }

    /// The default.
    pub open spec fn default_value() -> Seq<char> {
        "127.0.0.1:23001"@
    }

    /// A setting that holds `value` (unset for `None`).
    pub fn new(value: Option<String>) -> (s: Self)
        ensures
            s.value() == (match value {
                Some(v) => Some(v@),
                None => None::<Seq<char>>,
            }),
    {
        ExternalAddrSetting(value)
    }

    /// The configured text, or the default.
    pub fn get(&self) -> (r: String)
        ensures
            r@ == (match self.value() {
                Some(v) => v,
                None => Self::default_value(),
            }),
    {
        match &self.0 {
            Some(v) => v.clone(),
            None => SettingDefault::<String>::setting_default("127.0.0.1:23001"),
        }
    }

    /// Whether the configuration sets this.
    pub fn is_set(&self) -> (b: bool)
        ensures
            b == self.value() is Some,
    {
        self.0.is_some()
    }

    /// The text the configuration gives, if it sets this.
    pub fn value_if_set(&self) -> (r: Option<String>)
        ensures
            match r {
                Some(v) => self.value() == Some(v@),
                None => self.value() is None,
            },
    {
        match &self.0 {
            Some(v) => Some(v.clone()),
            None => None,
        }
    }

    /// Whether the configuration sets this to its default.
    pub fn is_set_to_default(&self) -> (b: bool)
        ensures
            b == (self.value() == Some(Self::default_value())),
    {
        match &self.0 {
            Some(v) => {
                let d: String = SettingDefault::<String>::setting_default("127.0.0.1:23001");
                *v == d
            },
            None => false,
        }
    }
}

impl Default for ExternalAddrSetting {
    fn default() -> (s: Self)
        ensures
            s.value() is None,
    {
        ExternalAddrSetting(None)
    }
}


/// The address of the login server; "127.0.0.1:23000" unless the configuration sets it.
pub struct LoginServerAddrSetting(Option<String>);

impl LoginServerAddrSetting {
    /// The text the configuration gives, if it sets this.
    pub closed spec fn value(&self) -> Option<Seq<char>> {
        match &self.0 {
            Some(s) => Some(s@),
            None => None,
        }
    }

    /// The default.
    pub open spec fn default_value() -> Seq<char> {
        "127.0.0.1:23000"@
    }

    /// A setting that holds `value` (unset for `None`).
    pub fn new(value: Option<String>) -> (s: Self)
        ensures
            s.value() == (match value {
                Some(v) => Some(v@),
                None => None::<Seq<char>>,
            }),
    {
        LoginServerAddrSetting(value)
    }

    /// The configured text, or the default.
    pub fn get(&self) -> (r: String)
        ensures
            r@ == (match self.value() {
                Some(v) => v,
                None => Self::default_value(),
            }),
    {
        match &self.0 {
            Some(v) => v.clone(),
            None => SettingDefault::<String>::setting_default("127.0.0.1:23000"),
        }
    }

    /// Whether the configuration sets this.
    pub fn is_set(&self) -> (b: bool)
        ensures
            b == self.value() is Some,
    {
        self.0.is_some()
    }

    /// The text the configuration gives, if it sets this.
    pub fn value_if_set(&self) -> (r: Option<String>)
        ensures
            match r {
                Some(v) => self.value() == Some(v@),
                None => self.value() is None,
            },
    {
        match &self.0 {
            Some(v) => Some(v.clone()),
            None => None,
        }
    }

    /// Whether the configuration sets this to its default.
    pub fn is_set_to_default(&self) -> (b: bool)
        ensures
            b == (self.value() == Some(Self::default_value())),
    {
        match &self.0 {
            Some(v) => {
                let d: String = SettingDefault::<String>::setting_default("127.0.0.1:23000");
                *v == d
            },
            None => false,
        }
    }
}

impl Default for LoginServerAddrSetting {
    fn default() -> (s: Self)
        ensures
            s.value() is None,
    {
        LoginServerAddrSetting(None)
    }
}


/// Seconds between attempts to reach the login server; 10 unless the configuration sets it.
pub struct LoginServerConnIntervalSetting(Option<u64>);

impl LoginServerConnIntervalSetting {
    /// The value the configuration gives, if it sets this.
    pub closed spec fn value(&self) -> Option<u64> {
        self.0
    }

    /// The default.
    pub open spec fn default_value() -> u64 {
        10u64
    }

    /// A setting that holds `value` (unset for `None`).
    pub fn new(value: Option<u64>) -> (s: Self)
        ensures
            s.value() == value,
    {
        LoginServerConnIntervalSetting(value)
    }

    /// The configured value, or the default.
    pub fn get(&self) -> (r: u64)
        ensures
            r == (match self.value() {
                Some(v) => v,
                None => Self::default_value(),
            }),
    {
        match self.0 {
            Some(v) => v,
            None => SettingDefault::<u64>::setting_default(10u64),
        }
    }

    /// Whether the configuration sets this.
    pub fn is_set(&self) -> (b: bool)
        ensures
            b == self.value() is Some,
    {
        self.0.is_some()
    }

    /// The value the configuration gives, if it sets this.
    pub fn value_if_set(&self) -> (r: Option<u64>)
        ensures
            r == self.value(),
    {
        self.0
    }

    /// Whether the configuration sets this to its default.
    pub fn is_set_to_default(&self) -> (b: bool)
        ensures
            b == (self.value() == Some(Self::default_value())),
    {
        match self.0 {
            Some(v) => v == SettingDefault::<u64>::setting_default(10u64),
            None => false,
        }
    }
}

impl Default for LoginServerConnIntervalSetting {
    fn default() -> (s: Self)
        ensures
            s.value() is None,
    {
        LoginServerConnIntervalSetting(None)
    }
}


/// How many channels the shard runs; 1 unless the configuration sets it.
pub struct NumChannelsSetting(Option<usize>);

impl NumChannelsSetting {
    /// The value the configuration gives, if it sets this.
    pub closed spec fn value(&self) -> Option<usize> {
        self.0
    }

    /// The default.
    pub open spec fn default_value() -> usize {
        1usize
    }

    /// A setting that holds `value` (unset for `None`).
    pub fn new(value: Option<usize>) -> (s: Self)
        ensures
            s.value() == value,
    {
        NumChannelsSetting(value)
    }

    /// The configured value, or the default.
    pub fn get(&self) -> (r: usize)
        ensures
            r == (match self.value() {
                Some(v) => v,
                None => Self::default_value(),
            }),
    {
        match self.0 {
            Some(v) => v,
            None => SettingDefault::<usize>::setting_default(1usize),
        }
    }

    /// Whether the configuration sets this.
    pub fn is_set(&self) -> (b: bool)
        ensures
            b == self.value() is Some,
    {
        self.0.is_some()
    }

    /// The value the configuration gives, if it sets this.
    pub fn value_if_set(&self) -> (r: Option<usize>)
        ensures
            r == self.value(),
    {
        self.0
    }

    /// Whether the configuration sets this to its default.
    pub fn is_set_to_default(&self) -> (b: bool)
        ensures
            b == (self.value() == Some(Self::default_value())),
    {
        match self.0 {
            Some(v) => v == SettingDefault::<usize>::setting_default(1usize),
            None => false,
        }
    }
}

impl Default for NumChannelsSetting {
    fn default() -> (s: Self)
        ensures
            s.value() is None,
    {
        NumChannelsSetting(None)
    }
}


/// How many players a channel holds; 100 unless the configuration sets it.
pub struct MaxChannelPopSetting(Option<usize>);

impl MaxChannelPopSetting {
    /// The value the configuration gives, if it sets this.
    pub closed spec fn value(&self) -> Option<usize> {
        self.0
    }

    /// The default.
    pub open spec fn default_value() -> usize {
        100usize
    }

    /// A setting that holds `value` (unset for `None`).
    pub fn new(value: Option<usize>) -> (s: Self)
        ensures
            s.value() == value,
    {
        MaxChannelPopSetting(value)
    }

    /// The configured value, or the default.
    pub fn get(&self) -> (r: usize)
        ensures
            r == (match self.value() {
                Some(v) => v,
                None => Self::default_value(),
            }),
    {
        match self.0 {
            Some(v) => v,
            None => SettingDefault::<usize>::setting_default(100usize),
        }
    }

    /// Whether the configuration sets this.
    pub fn is_set(&self) -> (b: bool)
        ensures
            b == self.value() is Some,
    {
        self.0.is_some()
    }

    /// The value the configuration gives, if it sets this.
    pub fn value_if_set(&self) -> (r: Option<usize>)
        ensures
            r == self.value(),
    {
        self.0
    }

    /// Whether the configuration sets this to its default.
    pub fn is_set_to_default(&self) -> (b: bool)
        ensures
            b == (self.value() == Some(Self::default_value())),
    {
        match self.0 {
            Some(v) => v == SettingDefault::<usize>::setting_default(100usize),
            None => false,
        }
    }
}

impl Default for MaxChannelPopSetting {
    fn default() -> (s: Self)
        ensures
            s.value() is None,
    {
        MaxChannelPopSetting(None)
    }
}


/// How many chunks players see in each direction; 1 unless the configuration sets it.
pub struct VisibilityRangeSetting(Option<usize>);

impl VisibilityRangeSetting {
    /// The value the configuration gives, if it sets this.
    pub closed spec fn value(&self) -> Option<usize> {
        self.0
    }

    /// The default.
    pub open spec fn default_value() -> usize {
        1usize
    }

    /// A setting that holds `value` (unset for `None`).
    pub fn new(value: Option<usize>) -> (s: Self)
        ensures
            s.value() == value,
    {
        VisibilityRangeSetting(value)
    }

    /// The configured value, or the default.
    pub fn get(&self) -> (r: usize)
        ensures
            r == (match self.value() {
                Some(v) => v,
                None => Self::default_value(),
            }),
    {
        match self.0 {
            Some(v) => v,
            None => SettingDefault::<usize>::setting_default(1usize),
        }
    }

    /// Whether the configuration sets this.
    pub fn is_set(&self) -> (b: bool)
        ensures
            b == self.value() is Some,
    {
        self.0.is_some()
    }

    /// The value the configuration gives, if it sets this.
    pub fn value_if_set(&self) -> (r: Option<usize>)
        ensures
            r == self.value(),
    {
        self.0
    }

    /// Whether the configuration sets this to its default.
    pub fn is_set_to_default(&self) -> (b: bool)
        ensures
            b == (self.value() == Some(Self::default_value())),
    {
        match self.0 {
            Some(v) => v == SettingDefault::<usize>::setting_default(1usize),
            None => false,
        }
    }
}

impl Default for VisibilityRangeSetting {
    fn default() -> (s: Self)
        ensures
            s.value() is None,
    {
        VisibilityRangeSetting(None)
    }
}


/// Minutes between saves of all players; 5 unless the configuration sets it.
pub struct AutosaveIntervalSetting(Option<u64>);

impl AutosaveIntervalSetting {
    /// The value the configuration gives, if it sets this.
    pub closed spec fn value(&self) -> Option<u64> {
        self.0
    }

    /// The default.
    pub open spec fn default_value() -> u64 {
        5u64
    }

    /// A setting that holds `value` (unset for `None`).
    pub fn new(value: Option<u64>) -> (s: Self)
        ensures
            s.value() == value,
    {
        AutosaveIntervalSetting(value)
    }

    /// The configured value, or the default.
    pub fn get(&self) -> (r: u64)
        ensures
            r == (match self.value() {
                Some(v) => v,
                None => Self::default_value(),
            }),
    {
        match self.0 {
            Some(v) => v,
            None => SettingDefault::<u64>::setting_default(5u64),
        }
    }

    /// Whether the configuration sets this.
    pub fn is_set(&self) -> (b: bool)
        ensures
            b == self.value() is Some,
    {
        self.0.is_some()
    }

    /// The value the configuration gives, if it sets this.
    pub fn value_if_set(&self) -> (r: Option<u64>)
        ensures
            r == self.value(),
    {
        self.0
    }

    /// Whether the configuration sets this to its default.
    pub fn is_set_to_default(&self) -> (b: bool)
        ensures
            b == (self.value() == Some(Self::default_value())),
    {
        match self.0 {
            Some(v) => v == SettingDefault::<u64>::setting_default(5u64),
            None => false,
        }
    }
}

impl Default for AutosaveIntervalSetting {
    fn default() -> (s: Self)
        ensures
            s.value() is None,
    {
        AutosaveIntervalSetting(None)
    }
}


/// How many sliders run; 20 unless the configuration sets it.
pub struct NumSlidersSetting(Option<usize>);

impl NumSlidersSetting {
    /// The value the configuration gives, if it sets this.
    pub closed spec fn value(&self) -> Option<usize> {
        self.0
    }

    /// The default.
    pub open spec fn default_value() -> usize {
        20usize
    }

    /// A setting that holds `value` (unset for `None`).
    pub fn new(value: Option<usize>) -> (s: Self)
        ensures
            s.value() == value,
    {
        NumSlidersSetting(value)
    }

    /// The configured value, or the default.
    pub fn get(&self) -> (r: usize)
        ensures
            r == (match self.value() {
                Some(v) => v,
                None => Self::default_value(),
            }),
    {
        match self.0 {
            Some(v) => v,
            None => SettingDefault::<usize>::setting_default(20usize),
        }
    }

    /// Whether the configuration sets this.
    pub fn is_set(&self) -> (b: bool)
        ensures
            b == self.value() is Some,
    {
        self.0.is_some()
    }

    /// The value the configuration gives, if it sets this.
    pub fn value_if_set(&self) -> (r: Option<usize>)
        ensures
            r == self.value(),
    {
        self.0
    }

    /// Whether the configuration sets this to its default.
    pub fn is_set_to_default(&self) -> (b: bool)
        ensures
            b == (self.value() == Some(Self::default_value())),
    {
        match self.0 {
            Some(v) => v == SettingDefault::<usize>::setting_default(20usize),
            None => false,
        }
    }
}

impl Default for NumSlidersSetting {
    fn default() -> (s: Self)
        ensures
            s.value() is None,
    {
        NumSlidersSetting(None)
    }
}


/// Minutes a rented vehicle lasts; 10080 unless the configuration sets it.
pub struct VehicleDurationSetting(Option<u64>);

impl VehicleDurationSetting {
    /// The value the configuration gives, if it sets this.
    pub closed spec fn value(&self) -> Option<u64> {
        self.0
    }

    /// The default.
    pub open spec fn default_value() -> u64 {
        10080u64
    }

    /// A setting that holds `value` (unset for `None`).
    pub fn new(value: Option<u64>) -> (s: Self)
        ensures
            s.value() == value,
    {
        VehicleDurationSetting(value)
    }

    /// The configured value, or the default.
    pub fn get(&self) -> (r: u64)
        ensures
            r == (match self.value() {
                Some(v) => v,
                None => Self::default_value(),
            }),
    {
        match self.0 {
            Some(v) => v,
            None => SettingDefault::<u64>::setting_default(10080u64),
        }
    }

    /// Whether the configuration sets this.
    pub fn is_set(&self) -> (b: bool)
        ensures
            b == self.value() is Some,
    {
        self.0.is_some()
    }

    /// The value the configuration gives, if it sets this.
    pub fn value_if_set(&self) -> (r: Option<u64>)
        ensures
            r == self.value(),
    {
        self.0
    }

    /// Whether the configuration sets this to its default.
    pub fn is_set_to_default(&self) -> (b: bool)
        ensures
            b == (self.value() == Some(Self::default_value())),
    {
        match self.0 {
            Some(v) => v == SettingDefault::<u64>::setting_default(10080u64),
            None => false,
        }
    }
}

impl Default for VehicleDurationSetting {
    fn default() -> (s: Self)
        ensures
            s.value() is None,
    {
        VehicleDurationSetting(None)
    }
}

/// Settings of a shard server.
pub struct ShardConfig {
    pub log_path: LogPathSetting,
    pub shard_id: ShardIDSetting,
    pub listen_addr: ListenAddrSetting,
    pub external_addr: ExternalAddrSetting,
    pub login_server_addr: LoginServerAddrSetting,
    pub login_server_conn_interval: LoginServerConnIntervalSetting,
    pub num_channels: NumChannelsSetting,
    pub max_channel_pop: MaxChannelPopSetting,
    pub visibility_range: VisibilityRangeSetting,
    pub autosave_interval: AutosaveIntervalSetting,
    pub num_sliders: NumSlidersSetting,
    pub vehicle_duration: VehicleDurationSetting,
}

impl Default for ShardConfig {
    fn default() -> (c: Self)
        ensures
            c.unset(),
    {
        ShardConfig {
            log_path: LogPathSetting(None),
            shard_id: ShardIDSetting(None),
            listen_addr: ListenAddrSetting(None),
            external_addr: ExternalAddrSetting(None),
            login_server_addr: LoginServerAddrSetting(None),
            login_server_conn_interval: LoginServerConnIntervalSetting(None),
            num_channels: NumChannelsSetting(None),
            max_channel_pop: MaxChannelPopSetting(None),
            visibility_range: VisibilityRangeSetting(None),
            autosave_interval: AutosaveIntervalSetting(None),
            num_sliders: NumSlidersSetting(None),
            vehicle_duration: VehicleDurationSetting(None),
        }
    }
}

impl ShardConfig {
    /// No setting is set.
    pub open spec fn unset(&self) -> bool {
        &&& self.log_path.value() is None
        &&& self.shard_id.value() is None
        &&& self.listen_addr.value() is None
        &&& self.external_addr.value() is None
        &&& self.login_server_addr.value() is None
        &&& self.login_server_conn_interval.value() is None
        &&& self.num_channels.value() is None
        &&& self.max_channel_pop.value() is None
        &&& self.visibility_range.value() is None
        &&& self.autosave_interval.value() is None
        &&& self.num_sliders.value() is None
        &&& self.vehicle_duration.value() is None
    }

    /// Each setting of `self` is the one of `top` where `top` sets it, else
    /// the one of `base`.
    pub open spec fn overlays(&self, base: &Self, top: &Self) -> bool {
        &&& self.log_path.value() == overlay(base.log_path.value(), top.log_path.value())
        &&& self.shard_id.value() == overlay(base.shard_id.value(), top.shard_id.value())
        &&& self.listen_addr.value() == overlay(base.listen_addr.value(), top.listen_addr.value())
        &&& self.external_addr.value() == overlay(base.external_addr.value(), top.external_addr.value())
        &&& self.login_server_addr.value() == overlay(base.login_server_addr.value(), top.login_server_addr.value())
        &&& self.login_server_conn_interval.value() == overlay(base.login_server_conn_interval.value(), top.login_server_conn_interval.value())
        &&& self.num_channels.value() == overlay(base.num_channels.value(), top.num_channels.value())
        &&& self.max_channel_pop.value() == overlay(base.max_channel_pop.value(), top.max_channel_pop.value())
        &&& self.visibility_range.value() == overlay(base.visibility_range.value(), top.visibility_range.value())
        &&& self.autosave_interval.value() == overlay(base.autosave_interval.value(), top.autosave_interval.value())
        &&& self.num_sliders.value() == overlay(base.num_sliders.value(), top.num_sliders.value())
        &&& self.vehicle_duration.value() == overlay(base.vehicle_duration.value(), top.vehicle_duration.value())
    }

    /// Takes every setting that `other` sets.
    pub fn merge(&mut self, other: Self)
        ensures
            final(self).overlays(old(self), &other),
    {
        let ShardConfig {
            log_path,
            shard_id,
            listen_addr,
            external_addr,
            login_server_addr,
            login_server_conn_interval,
            num_channels,
            max_channel_pop,
            visibility_range,
            autosave_interval,
            num_sliders,
            vehicle_duration,
        } = other;
        if log_path.is_set() {
            self.log_path = log_path;
        }
        if shard_id.is_set() {
            self.shard_id = shard_id;
        }
        if listen_addr.is_set() {
            self.listen_addr = listen_addr;
        }
        if external_addr.is_set() {
            self.external_addr = external_addr;
        }
        if login_server_addr.is_set() {
            self.login_server_addr = login_server_addr;
        }
        if login_server_conn_interval.is_set() {
            self.login_server_conn_interval = login_server_conn_interval;
        }
        if num_channels.is_set() {
            self.num_channels = num_channels;
        }
        if max_channel_pop.is_set() {
            self.max_channel_pop = max_channel_pop;
        }
        if visibility_range.is_set() {
            self.visibility_range = visibility_range;
        }
        if autosave_interval.is_set() {
            self.autosave_interval = autosave_interval;
        }
        if num_sliders.is_set() {
            self.num_sliders = num_sliders;
        }
        if vehicle_duration.is_set() {
            self.vehicle_duration = vehicle_duration;
        }
    }
}

} // verus!
