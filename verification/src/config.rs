//! Server configuration: logging level and the two listening ports.

use vstd::prelude::*;

verus! {

/// Knobs read at startup. Defaults apply when the configuration file
/// does not override them.
pub struct Config {
    /// Minimum severity that is logged.
    pub log_level: String,
    /// Address the transport and the broadcast listener bind to.
    pub listen_address: String,
    /// Port of the connection-oriented transport.
    pub listen_port: u16,
    /// Port of the UDP broadcast discovery listener.
    pub broadcast_port: u16,
}

impl Default for Config {
    /// The stock configuration: info-level logging, all interfaces,
    /// transport on 9022 and discovery on 9020.
    fn default() -> (c: Config)
        ensures
            c.log_level@ == "info"@,
            c.listen_address@ == "0.0.0.0"@,
            c.listen_port == 9022,
            c.broadcast_port == 9020,
    {
        Config {
            log_level: "info".to_owned(),
            listen_address: "0.0.0.0".to_owned(),
            listen_port: 9022,
            broadcast_port: 9020,
        }
    }
}

} // verus!
