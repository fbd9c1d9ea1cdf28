//! Settings: the configuration record with its defaults, the listener and
//! status-endpoint settings, and the pool options taken from them.
use vstd::prelude::*;
use vstd::string::StringExecFns;
use crate::pool::PoolOptions;

verus! {

/// The whole configuration.
#[derive(Debug, Clone)]
pub struct Config {
    /// Default per-operation timeout in milliseconds.
    pub timeout_ms: u64,
    /// Pool capacity.
    pub max_connections: usize,
    pub retry_count: usize,
    pub proxy: ProxySettings,
    /// Upstreams given inline.
    pub proxies: Vec<ProxyConfig>,
    /// Canary URLs for probing.
    pub test_urls: Vec<String>,
    pub server: ServerConfig,
    pub log: LogConfig,
}

/// Settings of the pool's upkeep.
#[derive(Debug, Clone)]
pub struct ProxySettings {
    /// Path of the upstream list file.
    pub proxy_file: String,
    /// Seconds a startup probe may take.
    pub test_timeout: u64,
    /// Seconds between health checks.
    pub health_check_interval: u64,
    /// Consecutive failed health checks before eviction.
    pub retry_times: u32,
    /// Whether the rotation cursor advances on its own.
    pub auto_switch: bool,
    /// Seconds between automatic advances.
    pub switch_interval: u64,
}

/// One upstream given in the configuration.
#[derive(Debug, Clone)]
pub struct ProxyConfig {
    pub host: String,
    pub port: u16,
    pub username: Option<String>,
    pub password: Option<String>,
    pub location: Option<String>,
    pub proxy_type: String,
}

/// Where the listener binds.
#[derive(Debug, Clone)]
pub struct ServerConfig {
    pub bind_host: String,
    pub bind_port: u16,
}

/// What gets logged.
#[derive(Debug, Clone, Copy, PartialEq, Eq, Structural)]
pub struct LogConfig {
    pub show_connection_log: bool,
    pub show_error_log: bool,
}

/// Settings of the SOCKS5 listener.
#[derive(Debug, Clone)]
pub struct SocksServerConfig {
    pub bind_address: String,
    pub bind_port: u16,
}

/// Settings of the read-only status endpoint.
#[derive(Debug, Clone)]
pub struct ApiConfig {
    pub bind_address: String,
    pub bind_port: u16,
    pub enable_cors: bool,
}

pub fn default_timeout_ms() -> (r: u64)
    ensures
        r == 10000,
{
    10000
}

pub fn default_max_connections() -> (r: usize)
    ensures
        r == 100,
{
    100
}

pub fn default_retry_count() -> (r: usize)
    ensures
        r == 3,
{
    3
}

pub fn default_test_urls() -> (r: Vec<String>)
    ensures
        r@.len() == 1,
        r@[0]@ == "http://www.baidu.com"@,
{
    let mut v: Vec<String> = Vec::new();
    v.push(String::from_str("http://www.baidu.com"));
    v
}

pub fn default_proxy_file() -> (r: String)
    ensures
        r@ == "proxies.txt"@,
{
    String::from_str("proxies.txt")
}

pub fn default_test_timeout() -> (r: u64)
    ensures
        r == 10,
{
    10
}

pub fn default_health_check_interval() -> (r: u64)
    ensures
        r == 300,
{
    300
}

pub fn default_retry_times() -> (r: u32)
    ensures
        r == 3,
{
    3
}

pub fn default_proxy_type() -> (r: String)
    ensures
        r@ == "socks5"@,
{
    String::from_str("socks5")
}

impl Default for ProxySettings {
    fn default() -> (r: Self)
        ensures
            r.proxy_file@ == "proxies.txt"@,
            r.test_timeout == 10,
            r.health_check_interval == 300,
            r.retry_times == 3,
            !r.auto_switch,
            r.switch_interval == 300,
    {
        ProxySettings {
            proxy_file: default_proxy_file(),
            test_timeout: default_test_timeout(),
            health_check_interval: default_health_check_interval(),
            retry_times: default_retry_times(),
            auto_switch: false,
            switch_interval: 300,
        }
    }
}

impl Default for ServerConfig {
    fn default() -> (r: Self)
        ensures
            r.bind_host@ == "127.0.0.1"@,
            r.bind_port == 1080,
    {
        ServerConfig { bind_host: String::from_str("127.0.0.1"), bind_port: 1080 }
    }
}

impl Default for LogConfig {
    fn default() -> (r: Self)
        ensures
            r.show_connection_log,
            !r.show_error_log,
    {
        LogConfig { show_connection_log: true, show_error_log: false }
    }
}

impl Default for SocksServerConfig {
    fn default() -> (r: Self)
        ensures
            r.bind_address@ == "127.0.0.1"@,
            r.bind_port == 1080,
    {
        SocksServerConfig { bind_address: String::from_str("127.0.0.1"), bind_port: 1080 }
    }
}

impl Default for ApiConfig {
    fn default() -> (r: Self)
        ensures
            r.bind_address@ == "127.0.0.1"@,
            r.bind_port == 3000,
            !r.enable_cors,
    {
        ApiConfig { bind_address: String::from_str("127.0.0.1"), bind_port: 3000, enable_cors: false }
    }
}

impl Default for Config {
    fn default() -> (r: Self)
        ensures
            r.timeout_ms == 10000,
            r.max_connections == 100,
            r.retry_count == 3,
            r.proxy.proxy_file@ == "proxies.txt"@,
            r.proxy.test_timeout == 10,
            r.proxy.health_check_interval == 300,
            r.proxy.retry_times == 3,
            !r.proxy.auto_switch,
            r.proxy.switch_interval == 300,
            r.proxies@.len() == 0,
            r.test_urls@.len() == 1,
            r.test_urls@[0]@ == "http://www.baidu.com"@,
            r.server.bind_host@ == "127.0.0.1"@,
            r.server.bind_port == 1080,
            r.log.show_connection_log,
            !r.log.show_error_log,
    {
        Config {
            timeout_ms: default_timeout_ms(),
            max_connections: default_max_connections(),
            retry_count: default_retry_count(),
            proxy: ProxySettings::default(),
            proxies: Vec::new(),
            test_urls: default_test_urls(),
            server: ServerConfig::default(),
            log: LogConfig::default(),
        }
    }
}

impl ProxyConfig {
    /// A socks5 upstream without credentials.
    pub fn plain(host: &str, port: u16, location: Option<String>) -> (r: Self)
        ensures
            r.host@ == host@,
            r.port == port,
            r.username is None,
            r.password is None,
            r.location == location,
            r.proxy_type@ == "socks5"@,
    {
        ProxyConfig {
            host: host.to_owned(),
            port,
            username: None,
            password: None,
            location,
            proxy_type: default_proxy_type(),
        }
    }
}

impl Config {
    /// When no upstream is configured, adds `127.0.0.1:1080` so the system
    /// can start; returns whether it did.
    pub fn ensure_upstream(&mut self) -> (added: bool)
        ensures
            added == (old(self).proxies@.len() == 0),
            !added ==> *final(self) == *old(self),
            added ==> final(self).proxies@.len() == 1,
            added ==> final(self).proxies@[0].host@ == "127.0.0.1"@,
            added ==> final(self).proxies@[0].port == 1080,
            added ==> (final(self).proxies@[0].location matches Some(l) && l@ == "Local Default"@),
            added ==> final(self).proxies@[0].username is None,
            added ==> final(self).proxies@[0].password is None,
            added ==> final(self).proxies@[0].proxy_type@ == "socks5"@,
            final(self).timeout_ms == old(self).timeout_ms,
            final(self).max_connections == old(self).max_connections,
            final(self).retry_count == old(self).retry_count,
            final(self).proxy == old(self).proxy,
            final(self).test_urls == old(self).test_urls,
            final(self).server == old(self).server,
            final(self).log == old(self).log,
    {
        if self.proxies.len() == 0 {
            let loc = String::from_str("Local Default");
            self.proxies.push(ProxyConfig::plain("127.0.0.1", 1080, Some(loc)));
            true
        } else {
            false
        }
    }
}

/// The configuration written out when none exists: the defaults plus one
/// local upstream on port 12333.
pub fn create_example_config() -> (r: Config)
    ensures
        r.proxies@.len() == 1,
        r.proxies@[0].host@ == "127.0.0.1"@,
        r.proxies@[0].port == 12333,
        r.proxies@[0].location matches Some(l) && l@ == "Local"@,
        r.proxies@[0].username is None,
        r.proxies@[0].password is None,
        r.proxies@[0].proxy_type@ == "socks5"@,
        r.timeout_ms == 10000,
        r.max_connections == 100,
        r.retry_count == 3,
        r.proxy.proxy_file@ == "proxies.txt"@,
        r.proxy.test_timeout == 10,
        r.proxy.health_check_interval == 300,
        r.proxy.retry_times == 3,
        !r.proxy.auto_switch,
        r.proxy.switch_interval == 300,
        r.test_urls@.len() == 1,
        r.test_urls@[0]@ == "http://www.baidu.com"@,
        r.server.bind_host@ == "127.0.0.1"@,
        r.server.bind_port == 1080,
        r.log.show_connection_log,
        !r.log.show_error_log,
{
    let mut config = Config::default();
    config.proxies.push(ProxyConfig::plain("127.0.0.1", 12333, Some(String::from_str("Local"))));
    config
}

impl PoolOptions {
    /// Pool options from the configuration: its capacity, health-check
    /// cadence, failure limit and startup probe timeout.
    pub fn from_config(config: &Config) -> (r: Self)
        ensures
            r.max_size == config.max_connections,
            r.auto_test,
            r.test_interval == config.proxy.health_check_interval,
            r.max_failures == config.proxy.retry_times,
            r.probe_timeout == config.proxy.test_timeout,
    {
        PoolOptions {
            max_size: config.max_connections,
            auto_test: true,
            test_interval: config.proxy.health_check_interval,
            max_failures: config.proxy.retry_times,
            probe_timeout: config.proxy.test_timeout,
        }
    }
}

/// The fields read from one `[[proxies]]` table, each absent when missing or
/// of the wrong type.
#[derive(Debug, Clone)]
pub struct ProxyFields {
    pub host: Option<String>,
    pub port: Option<i64>,
    pub username: Option<String>,
    pub password: Option<String>,
    pub location: Option<String>,
    pub proxy_type: Option<String>,
}

/// The fields read one by one from a configuration file that did not parse
/// as a whole, each absent when missing or of the wrong type.
#[derive(Debug, Clone)]
pub struct ConfigFields {
    pub timeout_ms: Option<i64>,
    pub max_connections: Option<i64>,
    pub retry_count: Option<i64>,
    /// The string entries of `test_urls`.
    pub test_urls: Option<Vec<String>>,
    pub proxy_file: Option<String>,
    pub test_timeout: Option<i64>,
    pub health_check_interval: Option<i64>,
    pub retry_times: Option<i64>,
    pub auto_switch: Option<bool>,
    pub switch_interval: Option<i64>,
    pub bind_host: Option<String>,
    pub bind_port: Option<i64>,
    pub proxies: Vec<ProxyFields>,
}

/// A field's value when it is present and in `0..=max`, else the default.
pub open spec fn field_or(v: Option<i64>, max: int, default: int) -> int {
    match v {
        Some(x) => if 0 <= x <= max {
            x as int
        } else {
            default
        },
        None => default,
    }
}

fn int_or(v: Option<i64>, max: u64, default: u64) -> (r: u64)
    requires
        default <= max,
    ensures
        r as int == field_or(v, max as int, default as int),
{
    match v {
        Some(x) => if 0 <= x && x as u64 <= max {
            x as u64
        } else {
            default
        },
        None => default,
    }
}

fn text_or(v: &Option<String>, default: &str) -> (r: String)
    ensures
        r@ == match v {
            Some(s) => s@,
            None => default@,
        },
{
    match v {
        Some(s) => s.clone(),
        None => default.to_owned(),
    }
}

/// `c` is the upstream read from the fields `f`: host `127.0.0.1`, port
/// 1080 and type `socks5` where they are missing or out of range.
pub open spec fn upstream_from(c: ProxyConfig, f: ProxyFields) -> bool {
    &&& c.host@ == match f.host {
        Some(h) => h@,
        None => "127.0.0.1"@,
    }
    &&& c.port as int == field_or(f.port, 65535, 1080)
    &&& c.username == f.username
    &&& c.password == f.password
    &&& c.location == f.location
    &&& c.proxy_type@ == match f.proxy_type {
        Some(t) => t@,
        None => "socks5"@,
    }
}

impl ProxyConfig {
    /// An upstream from the fields of its table.
    pub fn from_fields(f: &ProxyFields) -> (r: Self)
        ensures
            upstream_from(r, *f),
    {
        ProxyConfig {
            host: text_or(&f.host, "127.0.0.1"),
            port: int_or(f.port, 65535, 1080) as u16,
            username: crate::proxy::clone_opt_string(&f.username),
            password: crate::proxy::clone_opt_string(&f.password),
            location: crate::proxy::clone_opt_string(&f.location),
            proxy_type: text_or(&f.proxy_type, "socks5"),
        }
    }
}

impl Config {
    /// The configuration from fields read one by one: each field present and
    /// in range is taken, every other keeps its default; an empty list of
    /// URLs keeps the default one; and when no upstream results,
    /// `127.0.0.1:1080` is added.
    pub fn from_fields(f: &ConfigFields) -> (r: Self)
        ensures
            r.timeout_ms as int == field_or(f.timeout_ms, 0xffff_ffff_ffff_ffff, 10000),
            r.max_connections as int == field_or(f.max_connections, usize::MAX as int, 100),
            r.retry_count as int == field_or(f.retry_count, usize::MAX as int, 3),
            r.proxy.test_timeout as int == field_or(f.test_timeout, 0xffff_ffff_ffff_ffff, 10),
            r.proxy.health_check_interval as int == field_or(
                f.health_check_interval,
                0xffff_ffff_ffff_ffff,
                300,
            ),
            r.proxy.retry_times as int == field_or(f.retry_times, 0xffff_ffff, 3),
            r.proxy.switch_interval as int == field_or(f.switch_interval, 0xffff_ffff_ffff_ffff, 300),
            r.proxy.auto_switch == match f.auto_switch {
                Some(b) => b,
                None => false,
            },
            r.proxy.proxy_file@ == match f.proxy_file {
                Some(p) => p@,
                None => "proxies.txt"@,
            },
            r.server.bind_host@ == match f.bind_host {
                Some(h) => h@,
                None => "127.0.0.1"@,
            },
            r.server.bind_port as int == field_or(f.bind_port, 65535, 1080),
            match f.test_urls {
                Some(u) if u@.len() > 0 => r.test_urls@ == u@,
                _ => r.test_urls@.len() == 1 && r.test_urls@[0]@ == "http://www.baidu.com"@,
            },
            f.proxies@.len() > 0 ==> r.proxies@.len() == f.proxies@.len() && forall|k: int|
                0 <= k < f.proxies@.len() ==> upstream_from(#[trigger] r.proxies@[k], f.proxies@[k]),
            f.proxies@.len() == 0 ==> r.proxies@.len() == 1 && r.proxies@[0].host@ == "127.0.0.1"@
                && r.proxies@[0].port == 1080 && r.proxies@[0].username is None
                && r.proxies@[0].password is None && r.proxies@[0].proxy_type@ == "socks5"@
                && (r.proxies@[0].location matches Some(l) && l@ == "Local Default"@),
    {
        let mut c = Config::default();
        c.timeout_ms = int_or(f.timeout_ms, 0xffff_ffff_ffff_ffff, 10000);
        c.max_connections = int_or(f.max_connections, usize::MAX as u64, 100) as usize;
        c.retry_count = int_or(f.retry_count, usize::MAX as u64, 3) as usize;
        c.proxy.test_timeout = int_or(f.test_timeout, 0xffff_ffff_ffff_ffff, 10);
        c.proxy.health_check_interval = int_or(f.health_check_interval, 0xffff_ffff_ffff_ffff, 300);
        c.proxy.retry_times = int_or(f.retry_times, 0xffff_ffff, 3) as u32;
        c.proxy.switch_interval = int_or(f.switch_interval, 0xffff_ffff_ffff_ffff, 300);
        c.proxy.auto_switch = match f.auto_switch {
            Some(b) => b,
            None => false,
        };
        c.proxy.proxy_file = text_or(&f.proxy_file, "proxies.txt");
        c.server.bind_host = text_or(&f.bind_host, "127.0.0.1");
        c.server.bind_port = int_or(f.bind_port, 65535, 1080) as u16;
        match &f.test_urls {
            Some(u) => {
                if u.len() > 0 {
                    c.test_urls = clone_strings(u);
                }
            },
            None => {},
        }
        let mut ps: Vec<ProxyConfig> = Vec::new();
        let mut i: usize = 0;
        while i < f.proxies.len()
            invariant
                i <= f.proxies@.len(),
                ps@.len() == i,
                forall|k: int| 0 <= k < i ==> upstream_from(#[trigger] ps@[k], f.proxies@[k]),
            decreases f.proxies@.len() - i,
        {
            ps.push(ProxyConfig::from_fields(&f.proxies[i]));
            i = i + 1;
        }
        c.proxies = ps;
        c.ensure_upstream();
        c
    }
}

fn clone_strings(v: &Vec<String>) -> (r: Vec<String>)
    ensures
        r@ == v@,
{
    let mut out: Vec<String> = Vec::new();
    let mut i: usize = 0;
    while i < v.len()
        invariant
            i <= v@.len(),
            out@ == v@.subrange(0, i as int),
        decreases v@.len() - i,
    {
        out.push(v[i].clone());
        assert(out@ =~= v@.subrange(0, i + 1));
        i = i + 1;
    }
    assert(out@ =~= v@);
    out
}

} // verus!
