//! A SOCKS5 front-end over a pool of upstream SOCKS5 proxies: wire codec,
//! latency-ordered pool with rotation, health-check eviction, the upstream
//! list file, and the per-session handshake decisions.

pub mod codec;
pub mod proxy;
pub mod text;
pub mod error;
pub mod tester;
pub mod pool;
pub mod config;
pub mod session;
pub mod listfile;
pub mod cli;
pub mod manager;

pub use cli::{CliConfig, Command};
pub use config::{ApiConfig, Config, LogConfig, ProxyConfig, ProxySettings, ServerConfig, SocksServerConfig};
pub use error::Error;
pub use manager::PoolManager;
pub use pool::{HealthProbe, HealthVerdict, Pool, PoolOptions};
pub use proxy::{Proxy, ProxyInfo, ProxyStatus};
pub use tester::{ProbeVerdict, TestOptions, TestResult, Tester};
