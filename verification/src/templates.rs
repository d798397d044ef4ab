//! The values filled into the service's text templates: the WireGuard
//! configurations and the shell commands that apply them.

use vstd::prelude::*;

verus! {

/// A workstation's WireGuard configuration (`workstation.conf`).
#[derive(Debug)]
pub struct WireguardWorkstationTemplate<'a> {
    pub user_name: &'a str,
    pub user_private_key: &'a str,
    pub user_nets: &'a str,
    pub server_public_key: &'a str,
    pub default_server_endpoint: &'a str,
}

/// The head of the server's WireGuard configuration (`server.conf`).
#[derive(Debug)]
pub struct WireguardServerConfigurationTemplate<'a> {
    pub server_port: &'a str,
    pub server_private_key: &'a str,
}

/// One peer section of the server's configuration (`server-entry.conf`).
#[derive(Debug)]
pub struct WireguardServerConfigurationEntryTemplate<'a> {
    pub user_name: &'a str,
    pub user_public_key: &'a str,
    pub user_ips: &'a str,
    pub modified_at: &'a str,
}

/// The command that gives the bridge the router's address (`bridge-setup.sh`).
#[derive(Debug)]
pub struct BridgeRouterAliasTemplate<'a> {
    pub router_ip_address: &'a str,
    pub net_mask: &'a str,
}

/// The command that routes a workstation's address into the tunnel
/// (`route-add.sh`).
#[derive(Debug)]
pub struct RouteAddTemplate<'a> {
    pub ipv4_address: &'a str,
}

/// The command that drops a workstation's route (`route-del.sh`).
#[derive(Debug)]
pub struct RouteDelTemplate<'a> {
    pub ipv4_address: &'a str,
}

/// The command that loads the server configuration into the running
/// interface (`wg-syncconf.sh`).
#[derive(Debug)]
pub struct WireguardSyncConfigTemplate<'a> {
    pub wireguard_bin: &'a str,
    pub wireguard_conf: &'a str,
}

} // verus!
