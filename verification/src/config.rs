//! The main configuration, `mandel_core.toml`: its sections, their built-in
//! defaults, the checks a loaded configuration must pass, and the default
//! locations under the HAAVK home directory.
use vstd::prelude::*;

use crate::text::{
    after_last, after_last_start, chars_of, concat2, decimal, join_path, owned, parse_u32_chars,
    parse_unsigned, path_join, push_decimal, push_str,
};

verus! {

/// Name of the HAAVK home directory under the user's home.
pub open spec fn haavk_home_name() -> Seq<char> {
    ".haavk"@
}

/// File name of the main configuration.
pub open spec fn default_config_name() -> Seq<char> {
    "mandel_core.toml"@
}

/// The whole configuration.
#[derive(Debug)]
pub struct MandelConfig {
    pub core: CoreConfig,
    pub hardware: HardwareConfig,
    pub relink_bus: RelinkConfig,
    pub vfs: VfsConfig,
    pub window_manager: WindowManagerConfig,
    pub security: SecurityConfig,
    pub network: NetworkConfig,
}

/// `[core]`
#[derive(Debug)]
pub struct CoreConfig {
    pub version: String,
    pub node_id: String,
    pub log_level: String,
    pub daemon: bool,
    pub max_app_count: u32,
}

/// `[hardware]`
#[derive(Debug)]
pub struct HardwareConfig {
    pub read_dmi: bool,
    pub dmi_timeout: u64,
    pub memory_limit_mb: u64,
    pub storage_quota_mb: u64,
}

/// `[relink_bus]`
#[derive(Debug)]
pub struct RelinkConfig {
    pub enable: bool,
    pub node_discovery: bool,
    pub discovery_port: u16,
    pub relay_server_enable: bool,
    pub max_connections: u32,
}

/// `[vfs]`
#[derive(Debug)]
pub struct VfsConfig {
    pub enable: bool,
    pub root_prefix: String,
    pub auto_mount_host: bool,
    pub isolate_mode: bool,
    pub image_path: String,
}

/// `[window_manager]`
#[derive(Debug)]
pub struct WindowManagerConfig {
    pub enable: bool,
    pub max_windows: u32,
    pub alt_tab_switch: bool,
    pub animations: bool,
    pub render_backend: String,
}

/// `[security]`
#[derive(Debug)]
pub struct SecurityConfig {
    pub default_permission: String,
    pub allow_file_access: bool,
    pub allow_network_access: bool,
    pub allow_input_hook: bool,
}

/// `[network]`
#[derive(Debug)]
pub struct NetworkConfig {
    pub proxy_network: bool,
    pub internet_access: bool,
}

impl Default for CoreConfig {
    fn default() -> (r: Self)
        ensures
            r.version@ == "0.1.0-mvp"@,
            r.node_id@ == Seq::<char>::empty(),
            r.log_level@ == "info"@,
            r.daemon,
            r.max_app_count == 64,
    {
        CoreConfig {
            version: owned("0.1.0-mvp"),
            node_id: String::new(),
            log_level: owned("info"),
            daemon: true,
            max_app_count: 64,
        }
    }
}

impl Default for HardwareConfig {
    fn default() -> (r: Self)
        ensures
            r.read_dmi,
            r.dmi_timeout == 1000,
            r.memory_limit_mb == 16384,
            r.storage_quota_mb == 102400,
    {
        HardwareConfig { read_dmi: true, dmi_timeout: 1000, memory_limit_mb: 16384, storage_quota_mb: 102400 }
    }
}

impl Default for RelinkConfig {
    fn default() -> (r: Self)
        ensures
            r.enable,
            r.node_discovery,
            r.discovery_port == 42069,
            !r.relay_server_enable,
            r.max_connections == 32,
    {
        RelinkConfig {
            enable: true,
            node_discovery: true,
            discovery_port: 42069,
            relay_server_enable: false,
            max_connections: 32,
        }
    }
}

impl Default for VfsConfig {
    fn default() -> (r: Self)
        ensures
            r.enable,
            r.root_prefix@ == "haavk://"@,
            r.auto_mount_host,
            !r.isolate_mode,
            r.image_path@ == "./haavk_storage.mandel"@,
    {
        VfsConfig {
            enable: true,
            root_prefix: owned("haavk://"),
            auto_mount_host: true,
            isolate_mode: false,
            image_path: owned("./haavk_storage.mandel"),
        }
    }
}

impl Default for WindowManagerConfig {
    fn default() -> (r: Self)
        ensures
            r.enable,
            r.max_windows == 48,
            r.alt_tab_switch,
            r.animations,
            r.render_backend@ == "auto"@,
    {
        WindowManagerConfig {
            enable: true,
            max_windows: 48,
            alt_tab_switch: true,
            animations: true,
            render_backend: owned("auto"),
        }
    }
}

impl Default for SecurityConfig {
    fn default() -> (r: Self)
        ensures
            r.default_permission@ == "restricted"@,
            r.allow_file_access,
            r.allow_network_access,
            !r.allow_input_hook,
    {
        SecurityConfig {
            default_permission: owned("restricted"),
            allow_file_access: true,
            allow_network_access: true,
            allow_input_hook: false,
        }
    }
}

impl Default for NetworkConfig {
    fn default() -> (r: Self)
        ensures
            r.proxy_network,
            r.internet_access,
    {
        NetworkConfig { proxy_network: true, internet_access: true }
    }
}

/// The built-in configuration, used where no file exists.
pub open spec fn is_builtin_default(c: MandelConfig) -> bool {
    &&& c.core.version@ == "0.1.0-mvp"@
    &&& c.core.node_id@ == Seq::<char>::empty()
    &&& c.core.log_level@ == "info"@
    &&& c.core.daemon
    &&& c.core.max_app_count == 64
    &&& c.hardware.read_dmi
    &&& c.hardware.dmi_timeout == 1000
    &&& c.hardware.memory_limit_mb == 16384
    &&& c.hardware.storage_quota_mb == 102400
    &&& c.relink_bus.enable
    &&& c.relink_bus.node_discovery
    &&& c.relink_bus.discovery_port == 42069
    &&& !c.relink_bus.relay_server_enable
    &&& c.relink_bus.max_connections == 32
    &&& c.vfs.enable
    &&& c.vfs.root_prefix@ == "haavk://"@
    &&& c.vfs.auto_mount_host
    &&& !c.vfs.isolate_mode
    &&& c.vfs.image_path@ == "./haavk_storage.mandel"@
    &&& c.window_manager.enable
    &&& c.window_manager.max_windows == 48
    &&& c.window_manager.alt_tab_switch
    &&& c.window_manager.animations
    &&& c.window_manager.render_backend@ == "auto"@
    &&& c.security.default_permission@ == "restricted"@
    &&& c.security.allow_file_access
    &&& c.security.allow_network_access
    &&& !c.security.allow_input_hook
    &&& c.network.proxy_network
    &&& c.network.internet_access
}

impl Default for MandelConfig {
    fn default() -> (r: Self)
        ensures
            is_builtin_default(r),
    {
        MandelConfig {
            core: CoreConfig::default(),
            hardware: HardwareConfig::default(),
            relink_bus: RelinkConfig::default(),
            vfs: VfsConfig::default(),
            window_manager: WindowManagerConfig::default(),
            security: SecurityConfig::default(),
            network: NetworkConfig::default(),
        }
    }
}

/// Why a loaded configuration is refused.
#[derive(Debug, Clone, Copy, PartialEq, Eq, Structural)]
pub enum ConfigError {
    /// `core.node_id` is empty.
    EmptyNodeId,
    /// The node number at the end of `core.node_id` is above 9999.
    NodeNumberTooLarge(u32),
}

impl ConfigError {
    /// The error as the text the user sees.
    pub fn message(&self) -> (r: String)
        ensures
            r@ == match self {
                ConfigError::EmptyNodeId => "配置中 node_id 为空，请检查 mandel_core.toml"@,
                ConfigError::NodeNumberTooLarge(n) => "DMI 节点编号 "@ + decimal(*n as nat) + " 超出上限 9999"@,
            },
    {
        match self {
            ConfigError::EmptyNodeId => owned("配置中 node_id 为空，请检查 mandel_core.toml"),
            ConfigError::NodeNumberTooLarge(n) => {
                let mut r = owned("DMI 节点编号 ");
                push_decimal(&mut r, *n as u64);
                push_str(&mut r, " 超出上限 9999");
                r
            },
        }
    }
}

/// The node number of a node id: what follows its last `-`, read as a `u32`.
pub open spec fn node_num_spec(node_id: Seq<char>) -> Option<u32> {
    match parse_unsigned(after_last(node_id, '-'), u32::MAX as nat) {
        Some(n) => Some(n as u32),
        None => None,
    }
}

/// The number at the end of a node id (`HAAVK-NODE-00001` gives 1).
pub fn parse_node_num(node_id: &str) -> (r: Option<u32>)
    ensures
        r == node_num_spec(node_id@),
{
    let v = chars_of(node_id);
    let k = after_last_start(&v, '-');
    assert(v@.subrange(k as int, v.len() as int) =~= v@.skip(k as int));
    parse_u32_chars(&v, k, v.len())
}

/// What checking a loaded configuration gives.
pub open spec fn check_outcome(node_id: Seq<char>) -> Option<ConfigError> {
    if node_id.len() == 0 {
        Some(ConfigError::EmptyNodeId)
    } else {
        match node_num_spec(node_id) {
            Some(n) => if n > 9999 {
                Some(ConfigError::NodeNumberTooLarge(n))
            } else {
                None
            },
            None => None,
        }
    }
}

/// Checks a configuration read from a file: its node id must not be empty,
/// and a node number at its end must not exceed 9999.
pub fn check_loaded_config(cfg: MandelConfig) -> (r: Result<MandelConfig, ConfigError>)
    ensures
        match check_outcome(cfg.core.node_id@) {
            Some(e) => r == Err::<MandelConfig, ConfigError>(e),
            None => r == Ok::<MandelConfig, ConfigError>(cfg),
        },
{
    if cfg.core.node_id.as_str().is_empty() {
        return Err(ConfigError::EmptyNodeId);
    }
    match parse_node_num(cfg.core.node_id.as_str()) {
        Some(num) => {
            if num > 9999 {
                return Err(ConfigError::NodeNumberTooLarge(num));
            }
        },
        None => {},
    }
    Ok(cfg)
}

/// The HAAVK home directory: `$HAAVK_HOME` where set and not empty, else
/// `.haavk` under the user's home (`$HOME`, or `.` where that is unset).
pub open spec fn haavk_home_spec(haavk_home_env: Option<Seq<char>>, home_env: Option<Seq<char>>) -> Seq<char> {
    match haavk_home_env {
        Some(h) if h.len() > 0 => h,
        _ => match home_env {
            Some(u) => path_join(u, haavk_home_name()),
            None => path_join("."@, haavk_home_name()),
        },
    }
}

/// The HAAVK home directory, from the values of `$HAAVK_HOME` and `$HOME`
/// (an empty `$HAAVK_HOME` counts as unset). It is never empty.
pub fn haavk_home(haavk_home_env: Option<&str>, home_env: Option<&str>) -> (r: String)
    ensures
        r@ == haavk_home_spec(
            match haavk_home_env {
                Some(h) => Some(h@),
                None => None,
            },
            match home_env {
                Some(u) => Some(u@),
                None => None,
            },
        ),
        r@.len() > 0,
{
    proof {
        reveal_strlit(".haavk");
    }
    match haavk_home_env {
        Some(h) if !h.is_empty() => owned(h),
        _ => match home_env {
            Some(u) => join_path(u, ".haavk"),
            None => join_path(".", ".haavk"),
        },
    }
}

/// The core data directory (logs, configuration, node id): the HAAVK home.
pub fn core_dir(haavk_home_env: Option<&str>, home_env: Option<&str>) -> (r: String)
    ensures
        r@ == haavk_home_spec(
            match haavk_home_env {
                Some(h) => Some(h@),
                None => None,
            },
            match home_env {
                Some(u) => Some(u@),
                None => None,
            },
        ),
        r@.len() > 0,
{
    haavk_home(haavk_home_env, home_env)
}

/// The default configuration file: `config/mandel_core.toml` under the HAAVK home.
pub fn default_config_path(home: &str) -> (r: String)
    ensures
        r@ == path_join(path_join(home@, "config"@), default_config_name()),
{
    let c = join_path(home, "config");
    join_path(c.as_str(), "mandel_core.toml")
}

} // verus!
