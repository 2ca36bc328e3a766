//! The configuration record. Defaults live here, verified; the file and
//! environment overlays are applied outside the library and handed in as
//! a finished record.

use vstd::prelude::*;

verus! {

use vstd::string::StringExecFns;

/// Runtime configuration.
pub struct Settings {
    /// Server bind hostname.
    pub hostname: String,
    /// Server bind port.
    pub port: u16,
    /// Hard cap on simultaneous members per channel.
    pub max_channel_connections: u8,
    /// Total connection lifespan, in seconds.
    pub conn_lifespan: u64,
    /// Idle deadline (no ping/pong/text), in seconds.
    pub client_timeout: u64,
    /// Per-session message count cap; 0 disables.
    pub max_exchanges: u8,
    /// Per-session byte cap and per-message size cap; 0 disables.
    pub max_data: u64,
    /// Debug mode.
    pub debug: bool,
    /// Verbose errors.
    pub verbose: bool,
    /// MaxMind database path.
    pub mmdb_loc: String,
    /// StatsD host; empty disables metrics.
    pub statsd_host: String,
    /// Comma-delimited CIDRs or bare addresses trusted as proxies.
    pub trusted_proxy_list: String,
    /// IP reputation server; empty disables.
    pub ip_reputation_server: String,
    /// Minimum IP reputation to accept.
    pub iprep_min: u8,
    /// Name of the abuse violation to report.
    pub ip_violation: String,
    /// Server ping interval, in seconds.
    pub heartbeat: u64,
    /// Pretty rather than structured logs.
    pub human_logs: bool,
    /// Fallback language for localized lookups.
    pub default_lang: String,
}

impl Default for Settings {
    /// The compiled-in defaults, before any file or environment overlay.
    fn default() -> (r: Settings)
        ensures
            r.hostname@ == "0.0.0.0"@,
            r.port == 8000,
            r.max_channel_connections == 3,
            r.conn_lifespan == 300,
            r.client_timeout == 30,
            r.max_exchanges == 3,
            r.max_data == 0,
            !r.debug,
            !r.verbose,
            r.mmdb_loc@ == "mmdb/latest/GeoLite2-City.mmdb"@,
            r.statsd_host@ == "localhost:8125"@,
            r.trusted_proxy_list@ == ""@,
            r.ip_reputation_server@ == ""@,
            r.iprep_min == 0,
            r.ip_violation@ == "channel_abuse"@,
            r.heartbeat == 5,
            !r.human_logs,
            r.default_lang@ == "en"@,
    {
        Settings {
            hostname: String::from_str("0.0.0.0"),
            port: 8000,
            max_channel_connections: 3,
            conn_lifespan: 300,
            client_timeout: 30,
            max_exchanges: 3,
            max_data: 0,
            debug: false,
            verbose: false,
            mmdb_loc: String::from_str("mmdb/latest/GeoLite2-City.mmdb"),
            statsd_host: String::from_str("localhost:8125"),
            trusted_proxy_list: String::from_str(""),
            ip_reputation_server: String::from_str(""),
            iprep_min: 0,
            ip_violation: String::from_str("channel_abuse"),
            heartbeat: 5,
            human_logs: false,
            default_lang: String::from_str("en"),
        }
    }
}

} // verus!
