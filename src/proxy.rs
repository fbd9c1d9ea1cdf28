//! Upstream entries: address, credentials, status, latency and failure count.
use vstd::prelude::*;
use vstd::string::StringExecFns;

verus! {

/// Latency of an entry that has never been measured.
pub const LATENCY_UNMEASURED: u64 = 0xffff_ffff_ffff_ffff;

/// Status of an upstream entry.
#[derive(Debug, Clone, Copy, PartialEq, Eq, Structural)]
pub enum ProxyStatus {
    Available,
    InUse,
    Failed,
    Untested,
    Unknown,
}

impl Default for ProxyStatus {
    fn default() -> (r: Self)
        ensures
            r == ProxyStatus::Untested,
    {
        ProxyStatus::Untested
    }
}

impl ProxyStatus {
    /// The name shown to operators.
    pub fn as_str(&self) -> (r: &'static str)
        ensures
            *self == ProxyStatus::Available ==> r@ == "Available"@,
            *self == ProxyStatus::InUse ==> r@ == "In Use"@,
            *self == ProxyStatus::Failed ==> r@ == "Failed"@,
            *self == ProxyStatus::Untested ==> r@ == "Untested"@,
            *self == ProxyStatus::Unknown ==> r@ == "Unknown"@,
    {
        match self {
            ProxyStatus::Available => "Available",
            ProxyStatus::InUse => "In Use",
            ProxyStatus::Failed => "Failed",
            ProxyStatus::Untested => "Untested",
            ProxyStatus::Unknown => "Unknown",
        }
    }
}

/// Address, credentials and last measurement of an upstream.
#[derive(Debug, Clone)]
pub struct ProxyInfo {
    pub host: String,
    pub port: u16,
    pub username: Option<String>,
    pub password: Option<String>,
    /// Always "socks5".
    pub proxy_type: String,
    pub location: Option<String>,
    /// Last measured latency in milliseconds.
    pub last_latency: Option<u64>,
    /// When it was last checked, in milliseconds since the Unix epoch.
    pub last_checked: Option<i64>,
    pub status: ProxyStatus,
}

/// An upstream entry of the pool, keyed by `id`.
#[derive(Debug, Clone)]
pub struct Proxy {
    pub id: String,
    pub info: ProxyInfo,
    pub status: ProxyStatus,
    /// Latency in milliseconds; `LATENCY_UNMEASURED` when never measured.
    pub latency: u64,
    /// Consecutive failed health checks.
    pub fail_count: u32,
    /// When it was last probed, in milliseconds since the Unix epoch.
    pub last_tested: Option<i64>,
}

/// Relies on uuid::Uuid::new_v4 and its `Display`, which writes the
/// hyphenated form: 32 hex digits and 4 hyphens. The value is random.
#[verifier::external_body]
pub(crate) fn fresh_id() -> (r: String)
    ensures
        r@.len() == 36,
{
    uuid::Uuid::new_v4().to_string()
}

/// Relies on chrono::Utc::now and DateTime::timestamp_millis: the current
/// time in milliseconds since the Unix epoch. Nothing is promised of it.
#[verifier::external_body]
fn now_millis() -> (r: i64) {
    chrono::Utc::now().timestamp_millis()
}

pub fn clone_opt_string(o: &Option<String>) -> (r: Option<String>)
    ensures
        r == *o,
{
    match o {
        Some(s) => Some(s.clone()),
        None => None,
    }
}

impl ProxyInfo {
    /// Info for an untested socks5 upstream.
    pub fn new(host: &str, port: u16, username: Option<String>, password: Option<String>) -> (r:
        Self)
        ensures
            r.host@ == host@,
            r.port == port,
            r.username == username,
            r.password == password,
            r.proxy_type@ == "socks5"@,
            r.location is None,
            r.last_latency is None,
            r.last_checked is None,
            r.status == ProxyStatus::Untested,
    {
        ProxyInfo {
            host: host.to_owned(),
            port,
            username,
            password,
            proxy_type: String::from_str("socks5"),
            location: None,
            last_latency: None,
            last_checked: None,
            status: ProxyStatus::Untested,
        }
    }

    pub fn duplicate(&self) -> (r: Self)
        ensures
            r == *self,
    {
        ProxyInfo {
            host: self.host.clone(),
            port: self.port,
            username: clone_opt_string(&self.username),
            password: clone_opt_string(&self.password),
            proxy_type: self.proxy_type.clone(),
            location: clone_opt_string(&self.location),
            last_latency: self.last_latency,
            last_checked: self.last_checked,
            status: self.status,
        }
    }
}

impl Proxy {
    /// An available entry has been measured.
    pub open spec fn wf(&self) -> bool {
        self.status == ProxyStatus::Available ==> self.latency != LATENCY_UNMEASURED
    }

    /// A fresh untested entry under a new random id.
    pub fn new(host: String, port: u16, username: Option<String>, password: Option<String>) -> (r:
        Self)
        ensures
            r.id@.len() == 36,
            r.info.host == host,
            r.info.port == port,
            r.info.username == username,
            r.info.password == password,
            r.info.proxy_type@ == "socks5"@,
            r.info.location is None,
            r.info.status == ProxyStatus::Untested,
            r.status == ProxyStatus::Untested,
            r.latency == LATENCY_UNMEASURED,
            r.fail_count == 0,
            r.last_tested is None,
            r.wf(),
    {
        Proxy::with_id(fresh_id(), host, port, username, password)
    }

    /// A fresh untested entry under the given id.
    pub fn with_id(
        id: String,
        host: String,
        port: u16,
        username: Option<String>,
        password: Option<String>,
    ) -> (r: Self)
        ensures
            r.id == id,
            r.info.host == host,
            r.info.port == port,
            r.info.username == username,
            r.info.password == password,
            r.info.proxy_type@ == "socks5"@,
            r.info.location is None,
            r.info.last_latency is None,
            r.info.last_checked is None,
            r.info.status == ProxyStatus::Untested,
            r.status == ProxyStatus::Untested,
            r.latency == LATENCY_UNMEASURED,
            r.fail_count == 0,
            r.last_tested is None,
            r.wf(),
    {
        let info = ProxyInfo {
            host,
            port,
            username,
            password,
            proxy_type: String::from_str("socks5"),
            location: None,
            last_latency: None,
            last_checked: None,
            status: ProxyStatus::Untested,
        };
        Proxy {
            id,
            info,
            status: ProxyStatus::Untested,
            latency: LATENCY_UNMEASURED,
            fail_count: 0,
            last_tested: None,
        }
    }

    pub fn duplicate(&self) -> (r: Self)
        ensures
            r == *self,
    {
        Proxy {
            id: self.id.clone(),
            info: self.info.duplicate(),
            status: self.status,
            latency: self.latency,
            fail_count: self.fail_count,
            last_tested: self.last_tested,
        }
    }

    /// Sets the status of the entry and of its info.
    pub fn update_status(&mut self, status: ProxyStatus)
        ensures
            *final(self) == (Proxy {
                status,
                info: ProxyInfo { status, ..old(self).info },
                ..*old(self)
            }),
    {
        self.status = status;
        self.info.status = status;
    }

    /// Records a latency measured now.
    pub fn update_latency(&mut self, latency_ms: u64)
        ensures
            final(self).info.last_latency == Some(latency_ms),
            final(self).info.last_checked is Some,
            *final(self) == (Proxy {
                info: ProxyInfo {
                    last_latency: Some(latency_ms),
                    last_checked: final(self).info.last_checked,
                    ..old(self).info
                },
                ..*old(self)
            }),
    {
        self.info.last_latency = Some(latency_ms);
        self.info.last_checked = Some(now_millis());
    }

    /// Sets the status and, when given, the latency, of a probe made now.
    pub fn update_status_and_latency(&mut self, status: ProxyStatus, latency: Option<u64>)
        ensures
            final(self).status == status,
            final(self).info.status == status,
            final(self).last_tested is Some,
            final(self).id == old(self).id,
            final(self).fail_count == old(self).fail_count,
            final(self).info.host == old(self).info.host,
            final(self).info.port == old(self).info.port,
            final(self).info.username == old(self).info.username,
            final(self).info.password == old(self).info.password,
            final(self).info.location == old(self).info.location,
            final(self).info.proxy_type == old(self).info.proxy_type,
            match latency {
                Some(l) => final(self).latency == l && final(self).info.last_latency == Some(l)
                    && final(self).info.last_checked is Some,
                None => final(self).latency == old(self).latency && final(self).info.last_latency
                    == old(self).info.last_latency && final(self).info.last_checked
                    == old(self).info.last_checked,
            },
    {
        self.update_status(status);
        if let Some(lat) = latency {
            self.latency = lat;
            self.update_latency(lat);
        }
        self.last_tested = Some(now_millis());
    }

    /// `host:port`, the form the upstream list file holds.
    pub fn address(&self) -> (r: String)
        ensures
            r@ == self.info.host@ + ":"@ + crate::text::decimal(self.info.port as nat),
    {
        let mut s = self.info.host.clone();
        s.append(":");
        let digits = crate::text::u16_to_decimal(self.info.port);
        s.append(digits.as_str());
        s
    }

    /// `socks5://[user:pass@]host:port` as characters.
    pub fn url(&self) -> (r: String)
        ensures
            r@ == url_of(*self),
    {
        let mut s = self.info.proxy_type.clone();
        s.append("://");
        match (&self.info.username, &self.info.password) {
            (Some(user), Some(pass)) => {
                s.append(user.as_str());
                s.append(":");
                s.append(pass.as_str());
                s.append("@");
            },
            _ => {},
        }
        s.append(self.info.host.as_str());
        s.append(":");
        let digits = crate::text::u16_to_decimal(self.info.port);
        s.append(digits.as_str());
        s
    }
}

pub open spec fn url_of(p: Proxy) -> Seq<char> {
    let auth = match (p.info.username, p.info.password) {
        (Some(u), Some(w)) => u@ + ":"@ + w@ + "@"@,
        _ => Seq::empty(),
    };
    p.info.proxy_type@ + "://"@ + auth + p.info.host@ + ":"@ + crate::text::decimal(
        p.info.port as nat,
    )
}

} // verus!
