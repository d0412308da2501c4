//! Connection and retry settings, and their fluent builder.

use vstd::prelude::*;
use vstd::string::StringExecFns;

verus! {

/// Settings for a client connection.
///
/// Durations are carried as whole milliseconds.  A configuration is
/// immutable once built; build a new one to change any field.
#[derive(Debug, Clone)]
pub struct Config {
    /// Hostname or address of the server.
    pub host: String,
    /// Port of the server.
    pub port: u16,
    /// Maximum time to wait for a single request, in milliseconds.
    pub timeout_ms: u64,
    /// Maximum number of retry attempts for failed operations.
    pub max_retries: u32,
    /// Base delay between retry attempts, in milliseconds.
    pub retry_delay_ms: u64,
}

impl Config {
    /// The default settings: `localhost:1337`, a 30 second timeout,
    /// 3 retries, and a 100 millisecond base delay.
    pub open spec fn is_default(self) -> bool {
        &&& self.host@ == "localhost"@
        &&& self.port == 1337
        &&& self.timeout_ms == 30000
        &&& self.max_retries == 3
        &&& self.retry_delay_ms == 100
    }
}

impl Default for Config {
    fn default() -> (c: Config)
        ensures
            c.is_default(),
    {
        Config {
            host: String::from_str("localhost"),
            port: 1337,
            timeout_ms: 30000,
            max_retries: 3,
            retry_delay_ms: 100,
        }
    }
}

/// Builder for [`Config`] values; every setter returns the builder so calls
/// chain, and [`ConfigBuilder::build`] yields the finished configuration.
#[derive(Debug)]
pub struct ConfigBuilder {
    /// The configuration assembled so far.
    pub config: Config,
}

impl ConfigBuilder {
    /// Starts from the default settings.
    pub fn new() -> (b: ConfigBuilder)
        ensures
            b.config.is_default(),
    {
        ConfigBuilder { config: Config::default() }
    }

    /// Sets the server host name.
    pub fn host(self, host: &str) -> (b: ConfigBuilder)
        ensures
            b.config.host@ == host@,
            b.config.port == self.config.port,
            b.config.timeout_ms == self.config.timeout_ms,
            b.config.max_retries == self.config.max_retries,
            b.config.retry_delay_ms == self.config.retry_delay_ms,
    {
        let mut config = self.config;
        config.host = String::from_str(host);
        ConfigBuilder { config }
    }

    /// Sets the server port.
    pub fn port(self, port: u16) -> (b: ConfigBuilder)
        ensures
            b.config.port == port,
            b.config.host@ == self.config.host@,
            b.config.timeout_ms == self.config.timeout_ms,
            b.config.max_retries == self.config.max_retries,
            b.config.retry_delay_ms == self.config.retry_delay_ms,
    {
        let mut config = self.config;
        config.port = port;
        ConfigBuilder { config }
    }

    /// Sets the per-request timeout, in milliseconds.
    pub fn timeout(self, timeout_ms: u64) -> (b: ConfigBuilder)
        ensures
            b.config.timeout_ms == timeout_ms,
            b.config.host@ == self.config.host@,
            b.config.port == self.config.port,
            b.config.max_retries == self.config.max_retries,
            b.config.retry_delay_ms == self.config.retry_delay_ms,
    {
        let mut config = self.config;
        config.timeout_ms = timeout_ms;
        ConfigBuilder { config }
    }

    /// Sets the per-request timeout, in milliseconds; a convenience alias
    /// of [`ConfigBuilder::timeout`].
    pub fn timeout_ms(self, ms: u64) -> (b: ConfigBuilder)
        ensures
            b.config.timeout_ms == ms,
            b.config.host@ == self.config.host@,
            b.config.port == self.config.port,
            b.config.max_retries == self.config.max_retries,
            b.config.retry_delay_ms == self.config.retry_delay_ms,
    {
        self.timeout(ms)
    }

    /// Sets the maximum number of retry attempts (0 disables retries).
    pub fn max_retries(self, retries: u32) -> (b: ConfigBuilder)
        ensures
            b.config.max_retries == retries,
            b.config.host@ == self.config.host@,
            b.config.port == self.config.port,
            b.config.timeout_ms == self.config.timeout_ms,
            b.config.retry_delay_ms == self.config.retry_delay_ms,
    {
        let mut config = self.config;
        config.max_retries = retries;
        ConfigBuilder { config }
    }

    /// Sets the base delay for exponential backoff, in milliseconds.
    pub fn retry_delay(self, delay_ms: u64) -> (b: ConfigBuilder)
        ensures
            b.config.retry_delay_ms == delay_ms,
            b.config.host@ == self.config.host@,
            b.config.port == self.config.port,
            b.config.timeout_ms == self.config.timeout_ms,
            b.config.max_retries == self.config.max_retries,
    {
        let mut config = self.config;
        config.retry_delay_ms = delay_ms;
        ConfigBuilder { config }
    }

    /// Sets the base delay for exponential backoff, in milliseconds; a
    /// convenience alias of [`ConfigBuilder::retry_delay`].
    pub fn retry_delay_ms(self, ms: u64) -> (b: ConfigBuilder)
        ensures
            b.config.retry_delay_ms == ms,
            b.config.host@ == self.config.host@,
            b.config.port == self.config.port,
            b.config.timeout_ms == self.config.timeout_ms,
            b.config.max_retries == self.config.max_retries,
    {
        self.retry_delay(ms)
    }

    /// Returns the finished configuration.
    pub fn build(self) -> (c: Config)
        ensures
            c == self.config,
    {
        self.config
    }
}

impl Default for ConfigBuilder {
    fn default() -> (b: ConfigBuilder)
        ensures
            b.config.is_default(),
    {
        ConfigBuilder::new()
    }
}

} // verus!
