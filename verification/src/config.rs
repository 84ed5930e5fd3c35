//! Application configuration: the values and their defaults. Reading the
//! configuration file and the environment belongs to the embedding layer,
//! which hands the resolved overrides to [`Config::with_overrides`].

use vstd::prelude::*;

verus! {

/// Application configuration.
pub struct Config {
    pub server: ServerConfig,
    pub storage: StorageConfig,
    pub logging: LoggingConfig,
    pub es_version: String,
}

/// Server address configuration.
pub struct ServerConfig {
    pub host: String,
    pub port: u16,
}

/// Storage location configuration.
pub struct StorageConfig {
    pub data_dir: String,
}

/// Logging verbosity configuration.
pub struct LoggingConfig {
    pub level: String,
}

/// The default bind host.
pub fn default_host() -> (r: String)
    ensures
        r@ == "0.0.0.0"@,
{
    "0.0.0.0".to_owned()
}

/// The default port.
pub fn default_port() -> (r: u16)
    ensures
        r == 9200,
{
    9200
}

/// The default data directory.
pub fn default_data_dir() -> (r: String)
    ensures
        r@ == "./data"@,
{
    "./data".to_owned()
}

/// The default log level.
pub fn default_log_level() -> (r: String)
    ensures
        r@ == "info"@,
{
    "info".to_owned()
}

/// The compatibility version reported to clients.
pub fn default_es_version() -> (r: String)
    ensures
        r@ == "6.4.0"@,
{
    "6.4.0".to_owned()
}

impl Default for Config {
    /// The built-in configuration, used when no file and no overrides are
    /// given.
    fn default() -> (r: Config)
        ensures
            r.server.host@ == "0.0.0.0"@,
            r.server.port == 9200,
            r.storage.data_dir@ == "./data"@,
            r.logging.level@ == "info"@,
            r.es_version@ == "6.4.0"@,
    {
        Config {
            server: ServerConfig { host: default_host(), port: default_port() },
            storage: StorageConfig { data_dir: default_data_dir() },
            logging: LoggingConfig { level: default_log_level() },
            es_version: default_es_version(),
        }
    }
}

impl Config {
    /// The configuration with each given override applied; an absent
    /// override keeps the present value.
    pub fn with_overrides(
        self,
        host: Option<String>,
        port: Option<u16>,
        data_dir: Option<String>,
        log_level: Option<String>,
        es_version: Option<String>,
    ) -> (r: Config)
        ensures
            r.server.host@ == (match host {
                Option::Some(h) => h@,
                Option::None => self.server.host@,
            }),
            r.server.port == (match port {
                Option::Some(p) => p,
                Option::None => self.server.port,
            }),
            r.storage.data_dir@ == (match data_dir {
                Option::Some(d) => d@,
                Option::None => self.storage.data_dir@,
            }),
            r.logging.level@ == (match log_level {
                Option::Some(l) => l@,
                Option::None => self.logging.level@,
            }),
            r.es_version@ == (match es_version {
                Option::Some(v) => v@,
                Option::None => self.es_version@,
            }),
    {
        let mut c = self;
        if let Some(h) = host {
            c.server.host = h;
        }
        if let Some(p) = port {
            c.server.port = p;
        }
        if let Some(d) = data_dir {
            c.storage.data_dir = d;
        }
        if let Some(l) = log_level {
            c.logging.level = l;
        }
        if let Some(v) = es_version {
            c.es_version = v;
        }
        c
    }
}

} // verus!
