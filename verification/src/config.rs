//! Node configuration: the recognized keys and their defaults.
//!
//! Loading overrides from a file or from the environment is I/O and happens
//! outside the crate; the defaults themselves and the shape of the
//! configuration are fixed here.

use vstd::prelude::*;

verus! {

/// Multicast discovery and failure-detector settings.
#[derive(Debug, Clone)]
pub struct DiscoveryConfig {
    pub multicast_group: String,
    pub multicast_port: u16,
    pub fanout: u32,
    pub rate_ms: u64,
    pub probe_timeout_ms: u64,
    pub probe_req_timeout_ms: u64,
}

/// Gossip dissemination settings.
#[derive(Debug, Clone)]
pub struct BroadcastConfig {
    pub fanout: u32,
    pub rate_ms: u64,
    pub message_keep: i32,
}

/// The full node configuration.
#[derive(Debug, Clone)]
pub struct HoverConfig {
    pub address: String,
    pub port: u16,
    pub discovery: DiscoveryConfig,
    pub broadcast: BroadcastConfig,
}

/// Failure to assemble a configuration.
#[derive(Debug)]
pub struct ConfigError {
    pub message: String,
}

/// Holds exactly when every field of `c` carries its documented default.
pub open spec fn spec_is_default_config(c: HoverConfig) -> bool {
    &&& c.address@ == "127.0.0.1"@
    &&& c.port == 6202u16
    &&& c.discovery.multicast_group@ == "228.0.0.1"@
    &&& c.discovery.multicast_port == 2403u16
    &&& c.discovery.fanout == 2u32
    &&& c.discovery.rate_ms == 500u64
    &&& c.discovery.probe_timeout_ms == 500u64
    &&& c.discovery.probe_req_timeout_ms == 700u64
    &&& c.broadcast.fanout == 2u32
    &&& c.broadcast.rate_ms == 500u64
    &&& c.broadcast.message_keep == 500i32
}

/// Overwrites every field of `conf` with its documented default.
pub fn apply_default(conf: &mut HoverConfig)
    ensures
        spec_is_default_config(*final(conf)),
{
    conf.address = "127.0.0.1".to_owned();
    conf.port = 6202;
    conf.discovery.multicast_group = "228.0.0.1".to_owned();
    conf.discovery.multicast_port = 2403;
    conf.discovery.fanout = 2;
    conf.discovery.rate_ms = 500;
    conf.discovery.probe_timeout_ms = 500;
    conf.discovery.probe_req_timeout_ms = 700;
    conf.broadcast.fanout = 2;
    conf.broadcast.rate_ms = 500;
    conf.broadcast.message_keep = 500;
}

/// Connection settings for an application embedding a node: where the
/// application's own service listens.  Overrides from the environment are
/// applied outside the crate.
#[derive(Debug, Clone)]
pub struct Settings {
    pub host: String,
    pub port: u16,
}

impl Settings {
    /// The default application settings.
    pub fn new() -> (r: Result<Settings, ConfigError>)
        ensures
            r is Ok,
            r->Ok_0.host@ == "127.0.0.1"@,
            r->Ok_0.port == 1111u16,
    {
        Ok(Settings { host: "127.0.0.1".to_owned(), port: 1111 })
    }
}

impl HoverConfig {
    /// The configuration with every key at its documented default.
    pub fn default() -> (r: Result<HoverConfig, ConfigError>)
        ensures
            r is Ok,
            spec_is_default_config(r->Ok_0),
    {
        let mut conf = HoverConfig {
            address: String::new(),
            port: 0,
            discovery: DiscoveryConfig {
                multicast_group: String::new(),
                multicast_port: 0,
                fanout: 0,
                rate_ms: 0,
                probe_timeout_ms: 0,
                probe_req_timeout_ms: 0,
            },
            broadcast: BroadcastConfig { fanout: 0, rate_ms: 0, message_keep: 0 },
        };
        apply_default(&mut conf);
        Ok(conf)
    }
}

} // verus!
