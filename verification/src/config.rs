//! The service's settings and the checks they must pass before it starts.

use vstd::prelude::*;
use vstd::string::*;

verus! {

/// The service's settings (`config/config.toml`).
#[derive(Debug, Clone)]
pub struct Config {
    pub uuid: String,
    pub main_net: String,
    pub main_net_mask: String,
    pub server_port: u16,
    pub server_public_ip: String,
    pub wireguard_conf: String,
    pub wireguard_bin: String,
    pub error_log: String,
}

/// The first setting found wanting.
#[derive(Debug, Clone, Copy, PartialEq, Eq, Structural)]
pub enum ConfigError {
    EmptyServerPublicIp,
    EmptyMainNet,
    EmptyMainNetMask,
    EmptyUuid,
    MissingWireguardConf,
    MissingWireguardBin,
    ZeroServerPort,
}

/// The first failing check, in the order the settings are checked: the
/// server's public address, the main network, its mask and the uuid must be
/// non-empty; the WireGuard configuration file and the `wg` binary must be
/// named and exist; the port must not be 0.
pub open spec fn config_error_spec(c: Config, wireguard_conf_exists: bool, wireguard_bin_exists: bool) -> Option<ConfigError> {
    if c.server_public_ip@.len() == 0 {
        Some(ConfigError::EmptyServerPublicIp)
    } else if c.main_net@.len() == 0 {
        Some(ConfigError::EmptyMainNet)
    } else if c.main_net_mask@.len() == 0 {
        Some(ConfigError::EmptyMainNetMask)
    } else if c.uuid@.len() == 0 {
        Some(ConfigError::EmptyUuid)
    } else if c.wireguard_conf@.len() == 0 || !wireguard_conf_exists {
        Some(ConfigError::MissingWireguardConf)
    } else if c.wireguard_bin@.len() == 0 || !wireguard_bin_exists {
        Some(ConfigError::MissingWireguardBin)
    } else if c.server_port == 0 {
        Some(ConfigError::ZeroServerPort)
    } else {
        None
    }
}

/// Checks the settings. `wireguard_conf_exists` and `wireguard_bin_exists`
/// tell whether the paths named by `wireguard_conf` and `wireguard_bin`
/// exist on disk.
pub fn validate_config(config: &Config, wireguard_conf_exists: bool, wireguard_bin_exists: bool) -> (r: Result<(), ConfigError>)
    ensures
        r == (match config_error_spec(*config, wireguard_conf_exists, wireguard_bin_exists) {
            Some(e) => Err(e),
            None => Ok(()),
        }),
{
    if config.server_public_ip.as_str().is_empty() {
        Err(ConfigError::EmptyServerPublicIp)
    } else if config.main_net.as_str().is_empty() {
        Err(ConfigError::EmptyMainNet)
    } else if config.main_net_mask.as_str().is_empty() {
        Err(ConfigError::EmptyMainNetMask)
    } else if config.uuid.as_str().is_empty() {
        Err(ConfigError::EmptyUuid)
    } else if config.wireguard_conf.as_str().is_empty() || !wireguard_conf_exists {
        Err(ConfigError::MissingWireguardConf)
    } else if config.wireguard_bin.as_str().is_empty() || !wireguard_bin_exists {
        Err(ConfigError::MissingWireguardBin)
    } else if config.server_port == 0 {
        Err(ConfigError::ZeroServerPort)
    } else {
        Ok(())
    }
}

impl ConfigError {
    pub open spec fn message_spec(self) -> Seq<char> {
        match self {
            ConfigError::EmptyServerPublicIp => "Config: server_public_ip endpoint can't be empty!"@,
            ConfigError::EmptyMainNet => "Config: main_net can't be empty!"@,
            ConfigError::EmptyMainNetMask => "Config: main_net_mask can't be empty!"@,
            ConfigError::EmptyUuid => "Config: uuid can't be empty!"@,
            ConfigError::MissingWireguardConf => "Config: wireguard_conf has to be path to wg0.conf and has to exist!"@,
            ConfigError::MissingWireguardBin => "Config: wireguard_bin has to be path to wg binary!"@,
            ConfigError::ZeroServerPort => "Config: server_port can't be 0!"@,
        }
    }

    /// The message the service stops with.
    pub fn message(&self) -> (s: String)
        ensures
            s@ == self.message_spec(),
    {
        match self {
            ConfigError::EmptyServerPublicIp => String::from_str("Config: server_public_ip endpoint can't be empty!"),
            ConfigError::EmptyMainNet => String::from_str("Config: main_net can't be empty!"),
            ConfigError::EmptyMainNetMask => String::from_str("Config: main_net_mask can't be empty!"),
            ConfigError::EmptyUuid => String::from_str("Config: uuid can't be empty!"),
            ConfigError::MissingWireguardConf => String::from_str("Config: wireguard_conf has to be path to wg0.conf and has to exist!"),
            ConfigError::MissingWireguardBin => String::from_str("Config: wireguard_bin has to be path to wg binary!"),
            ConfigError::ZeroServerPort => String::from_str("Config: server_port can't be 0!"),
        }
    }
}

} // verus!
