//! Probe settings and probe results.
use vstd::prelude::*;
use vstd::string::StringExecFns;
use crate::proxy::LATENCY_UNMEASURED;

verus! {

/// Settings of an upstream probe.
#[derive(Debug, Clone)]
pub struct TestOptions {
    /// The canary URL fetched through the upstream.
    pub target_url: String,
    /// Connect timeout in seconds.
    pub connect_timeout: u64,
    /// Whole-request timeout in seconds.
    pub request_timeout: u64,
    pub max_retries: u32,
}

impl Default for TestOptions {
    fn default() -> (r: Self)
        ensures
            r.target_url@ == "http://www.baidu.com"@,
            r.connect_timeout == 10,
            r.request_timeout == 30,
            r.max_retries == 3,
    {
        TestOptions {
            target_url: String::from_str("http://www.baidu.com"),
            connect_timeout: 10,
            request_timeout: 30,
            max_retries: 3,
        }
    }
}

/// The outcome of probing one entry. A latency is present exactly when the
/// probe succeeded, an error exactly when it failed.
#[derive(Debug, Clone)]
pub struct TestResult {
    pub proxy_id: String,
    pub success: bool,
    /// Milliseconds from the start of the connect to the end of the body.
    pub latency: Option<u64>,
    pub error: Option<String>,
    /// Milliseconds since the Unix epoch.
    pub timestamp: i64,
}

impl TestResult {
    pub open spec fn wf(&self) -> bool {
        &&& self.success <==> self.latency is Some
        &&& self.success <==> self.error is None
        &&& (self.latency matches Some(l) ==> l < LATENCY_UNMEASURED)
    }

    /// The result of a probe of `proxy_id` that ended with `outcome`: the
    /// latency in milliseconds, or the reason it failed. A latency at the
    /// sentinel is kept one below it.
    pub fn from_probe(proxy_id: String, outcome: Result<u64, String>, timestamp: i64) -> (r: Self)
        ensures
            r.wf(),
            r.proxy_id == proxy_id,
            r.timestamp == timestamp,
            match outcome {
                Ok(l) => r.success && r.latency == Some(
                    if l == LATENCY_UNMEASURED {
                        (l - 1) as u64
                    } else {
                        l
                    },
                ),
                Err(e) => !r.success && r.error == Some(e),
            },
    {
        match outcome {
            Ok(l) => {
                let l = if l == LATENCY_UNMEASURED {
                    l - 1
                } else {
                    l
                };
                TestResult { proxy_id, success: true, latency: Some(l), error: None, timestamp }
            },
            Err(e) => TestResult {
                proxy_id,
                success: false,
                latency: None,
                error: Some(e),
                timestamp,
            },
        }
    }
}

/// Verdict on one probe: the latency when it finished in time with a 2xx
/// status, else why not.
#[derive(Debug, Clone, Copy, PartialEq, Eq, Structural)]
pub enum ProbeVerdict {
    Passed(u64),
    BadStatus(u16),
    TimedOut,
}

/// Probes upstreams with its options.
pub struct Tester {
    pub options: TestOptions,
}

impl Tester {
    pub fn new(options: TestOptions) -> (r: Self)
        ensures
            r.options == options,
    {
        Tester { options }
    }

    /// Judges a finished probe: `status` is the HTTP status of the canary
    /// request and `elapsed_ms` the wall time it took. A probe that took
    /// longer than the request timeout has failed, whatever its status.
    pub fn judge(&self, status: u16, elapsed_ms: u64) -> (r: ProbeVerdict)
        ensures
            elapsed_ms as int > self.options.request_timeout as int * 1000 ==> r
                == ProbeVerdict::TimedOut,
            elapsed_ms as int <= self.options.request_timeout as int * 1000 && 200 <= status < 300
                ==> r == ProbeVerdict::Passed(elapsed_ms),
            elapsed_ms as int <= self.options.request_timeout as int * 1000 && !(200 <= status
                < 300) ==> r == ProbeVerdict::BadStatus(status),
    {
        if (elapsed_ms as u128) > (self.options.request_timeout as u128) * 1000 {
            ProbeVerdict::TimedOut
        } else if 200 <= status && status < 300 {
            ProbeVerdict::Passed(elapsed_ms)
        } else {
            ProbeVerdict::BadStatus(status)
        }
    }
}

} // verus!
