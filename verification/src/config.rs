//! The configuration of the server.

use vstd::prelude::*;

verus! {

/// Where the store is, where the server listens, and how much it logs.
#[derive(Debug, Clone)]
pub struct Config {
    pub database_url: String,
    pub server_host: String,
    pub server_port: u16,
    pub rust_log: String,
}

impl Config {
    /// The configuration that the settings give. The address of the store
    /// must be set; the host defaults to `127.0.0.1`, the port to 8080 and
    /// the log level to `info`.
    pub fn from_values(
        database_url: Option<String>,
        server_host: Option<String>,
        server_port: Option<u16>,
        rust_log: Option<String>,
    ) -> (config: Option<Config>)
        ensures
            config is Some <==> database_url is Some,
            config is Some ==> {
                &&& config.unwrap().database_url@ == database_url.unwrap()@
                &&& config.unwrap().server_host@ == (match server_host {
                    Some(host) => host@,
                    None => "127.0.0.1"@,
                })
                &&& config.unwrap().server_port == (match server_port {
                    Some(port) => port,
                    None => 8080,
                })
                &&& config.unwrap().rust_log@ == (match rust_log {
                    Some(level) => level@,
                    None => "info"@,
                })
            },
    {
        let database_url = match database_url {
            Some(url) => url,
            None => {
                return None;
            },
        };
        let server_host = match server_host {
            Some(host) => host,
            None => "127.0.0.1".to_owned(),
        };
        let server_port = match server_port {
            Some(port) => port,
            None => 8080,
        };
        let rust_log = match rust_log {
            Some(level) => level,
            None => "info".to_owned(),
        };
        Some(Config { database_url, server_host, server_port, rust_log })
    }

    /// The address that the server binds: the host, a colon, the port.
    pub fn server_address(&self, port_text: &str) -> (address: String)
        ensures
            address@ == self.server_host@ + ":"@ + port_text@,
    {
        let head = crate::text::joined(self.server_host.as_str(), ":");
        let address = crate::text::joined(head.as_str(), port_text);
        assert(address@ =~= self.server_host@ + ":"@ + port_text@);
        address
    }
}

} // verus!
