//! Address bookkeeping, entry files, keys and command lines of a service
//! that hands out WireGuard configurations.

use vstd::prelude::*;

pub mod command;
pub mod config;
pub mod decimal;
pub mod entries;
pub mod ipv4;
pub mod keys;
pub mod random;
pub mod templates;
pub mod text;
pub mod workstation;

verus! {

/// Where the entry files live.
pub const ENTRIES_DIR: &'static str = "entries/";

/// The subdirectory of the entries that belong to workstations.
pub const WORKSTATIONS_DIR: &'static str = "workstations/";

/// The server's public key file.
pub const SERVER_PUBLIC_KEY: &'static str = "/Services/Wireguard-tools/pub.key";

/// The server's private key file.
pub const SERVER_PRIVATE_KEY: &'static str = "/Services/Wireguard-tools/private.key";

/// Where command output goes when nobody reads it.
pub const NULL_LOG: &'static str = "/dev/null";

} // verus!
