//! Sanctum: the verified core of a DNS- and hosts-level content blocker.
//!
//! The pure, testable pieces live here: domain normalization and suffix
//! matching, blocklist and keyword parsing, hosts-section management, the
//! SafeSearch map, the lock ("Cold Turkey") invariants, the intervention
//! debouncer, and the construction of every command, message and request
//! the service sends. Privileged effects (sockets, files, the registry,
//! the database, the Windows service) are carried out around this crate.

use vstd::prelude::*;

pub mod approval;
pub mod blocklist;
pub mod browser_apply;
pub mod browser_policy;
pub mod config;
pub mod dns;
pub mod domain;
pub mod domain_laws;
pub mod engine;
pub mod error;
pub mod firewall;
pub mod fmt;
pub mod heartbeat;
pub mod hosts;
pub mod hosts_laws;
pub mod hostsfile;
pub mod intervention;
pub mod ipc;
pub mod keyword;
pub mod lifecycle;
pub mod lists;
pub mod netcfg;
pub mod notifier;
pub mod packet;
pub mod password;
pub mod paths;
pub mod policy;
pub mod safesearch;
pub mod sorting;
pub mod stats;
pub mod text;

verus! {

/// Default IPv4 sinkhole address for blocked domains.
pub const SINK_IPV4: &'static str = "0.0.0.0";

/// Default IPv6 sinkhole address for blocked domains.
pub const SINK_IPV6: &'static str = "::";

/// Markers that delimit Sanctum's owned region of the hosts file.
/// These are load-bearing: the integrity check verifies they are balanced.
pub const HOSTS_START: &'static str = "# >>> SANCTUM START";

pub const HOSTS_END: &'static str = "# <<< SANCTUM END";

} // verus!
