//! Rate-limited, cached liveness checks of named backends.
//!
//! A check answers from the result cache while it is fresh; otherwise, where
//! the last probe of that backend is too recent, from the last known result
//! (or a synthesized "no data" status); otherwise it asks the caller to probe
//! the backend's health endpoint and to record what came back. Times are
//! milliseconds of a monotonic clock read by the caller.
use vstd::prelude::*;
use crate::table::{keyed, keys_distinct, has_key, lookup, put, find_key, put_key, lemma_put_distinct};

verus! {

/// The least time between two probes of one backend, by default.
pub const DEFAULT_RATE_LIMIT_MS: u64 = 5000;

/// How long a probe result answers checks, by default.
pub const DEFAULT_CACHE_TTL_MS: u64 = 300000;

/// What a probe found out about a backend.
#[derive(Debug, Clone)]
pub struct HealthStatus {
    pub is_healthy: bool,
    /// When the probe was made, in seconds since the epoch.
    pub last_check: Option<u64>,
    pub response_time_ms: Option<u64>,
    pub error_message: Option<String>,
}

/// How a probe request ended.
#[derive(Debug, Clone)]
pub enum ProbeOutcome {
    /// The backend answered with this status code, shown as `status_text`.
    Responded { status: u16, status_text: String },
    /// No answer; `error` describes the failure.
    Unreachable { error: String },
}

/// What a health check comes to.
#[derive(Debug, Clone)]
pub enum HealthCheck {
    /// The answer, with no probe needed.
    Known(HealthStatus),
    /// Probe this URL and record the result.
    Probe(String),
}

/// Milliseconds from `since` to `now`; zero where the clock reads earlier.
pub open spec fn ms_since(now: u64, since: u64) -> int {
    if now >= since {
        now - since
    } else {
        0
    }
}

/// The cached status of `name` while it is younger than `ttl`.
pub open spec fn fresh_status(
    cache: Seq<(Seq<char>, (HealthStatus, u64))>,
    ttl: u64,
    name: Seq<char>,
    now: u64,
) -> Option<HealthStatus> {
    match lookup(cache, name) {
        Some(entry) => if ms_since(now, entry.1) < ttl {
            Some(entry.0)
        } else {
            None
        },
        None => None,
    }
}

/// A probe of `name` is allowed: none yet, or the last one `rate_limit` ago or longer.
pub open spec fn may_probe(
    last_checks: Seq<(Seq<char>, u64)>,
    rate_limit: u64,
    name: Seq<char>,
    now: u64,
) -> bool {
    match lookup(last_checks, name) {
        Some(t) => ms_since(now, t) >= rate_limit,
        None => true,
    }
}

/// The status given where nothing is known and no probe is allowed.
pub open spec fn is_no_data(s: HealthStatus) -> bool {
    &&& !s.is_healthy
    &&& s.last_check is None
    &&& s.response_time_ms is None
    &&& s.error_message matches Some(m) && m@ == "No health data available"@
}

/// The base URL of `name`: the registered one, or one made from the name.
pub open spec fn base_url(urls: Seq<(Seq<char>, String)>, name: Seq<char>) -> Seq<char> {
    match lookup(urls, name) {
        Some(u) => u@,
        None => "http://"@ + name + "-processor:8080"@,
    }
}

/// The health endpoint of `name`.
pub open spec fn endpoint_url(urls: Seq<(Seq<char>, String)>, name: Seq<char>) -> Seq<char> {
    base_url(urls, name) + "/payments/service-health"@
}

/// A result recorded at `t0` answers every check of the same name before `t0 + ttl`.
pub proof fn lemma_probe_result_cached(
    cache: Seq<(Seq<char>, (HealthStatus, u64))>,
    ttl: u64,
    name: Seq<char>,
    status: HealthStatus,
    t0: u64,
    t1: u64,
)
    requires
        keys_distinct(cache),
        ms_since(t1, t0) < ttl,
    ensures
        fresh_status(put(cache, name, (status, t0)), ttl, name, t1) == Some(status),
{
    lemma_put_distinct(cache, name, (status, t0));
}

/// A copy of a status.
fn copy_status(s: &HealthStatus) -> (r: HealthStatus)
    ensures
        r == *s,
{
    HealthStatus {
        is_healthy: s.is_healthy,
        last_check: s.last_check,
        response_time_ms: s.response_time_ms,
        error_message: match &s.error_message {
            Some(m) => Some(m.clone()),
            None => None,
        },
    }
}

/// The status a probe yields: healthy exactly on a success status code.
pub fn status_from_probe(outcome: ProbeOutcome, response_time_ms: u64, checked_at: u64) -> (r:
    HealthStatus)
    ensures
        r.last_check == Some(checked_at),
        r.response_time_ms == Some(response_time_ms),
        match outcome {
            ProbeOutcome::Responded { status, status_text } => {
                &&& r.is_healthy == (200 <= status < 300)
                &&& r.is_healthy ==> r.error_message is None
                &&& !r.is_healthy ==> (r.error_message matches Some(m) && m@ == "HTTP "@
                    + status_text@)
            },
            ProbeOutcome::Unreachable { error } => !r.is_healthy && r.error_message == Some(error),
        },
{
    match outcome {
        ProbeOutcome::Responded { status, status_text } => {
            let healthy = 200 <= status && status < 300;
            let message = if healthy {
                None
            } else {
                let mut m = String::from_str("HTTP ");
                m.append(status_text.as_str());
                Some(m)
            };
            HealthStatus {
                is_healthy: healthy,
                last_check: Some(checked_at),
                response_time_ms: Some(response_time_ms),
                error_message: message,
            }
        },
        ProbeOutcome::Unreachable { error } => HealthStatus {
            is_healthy: false,
            last_check: Some(checked_at),
            response_time_ms: Some(response_time_ms),
            error_message: Some(error),
        },
    }
}

/// Probe results and probe times per backend, with the backends' base URLs.
pub struct HealthCheckService {
    rate_limit_ms: u64,
    cache_ttl_ms: u64,
    last_checks: Vec<(String, u64)>,
    health_cache: Vec<(String, (HealthStatus, u64))>,
    processor_urls: Vec<(String, String)>,
}

impl HealthCheckService {
    /// The least time between two probes of one backend.
    pub closed spec fn rate_limit(&self) -> u64 {
        self.rate_limit_ms
    }

    /// How long a probe result answers checks.
    pub closed spec fn cache_ttl(&self) -> u64 {
        self.cache_ttl_ms
    }

    /// When each backend was last probed.
    pub closed spec fn last_checks(&self) -> Seq<(Seq<char>, u64)> {
        keyed(self.last_checks@)
    }

    /// Each backend's last probe result, with the time it was recorded.
    pub closed spec fn health_cache(&self) -> Seq<(Seq<char>, (HealthStatus, u64))> {
        keyed(self.health_cache@)
    }

    /// The registered base URLs.
    pub closed spec fn urls(&self) -> Seq<(Seq<char>, String)> {
        keyed(self.processor_urls@)
    }

    /// Every table has distinct keys.
    pub open spec fn wf(&self) -> bool {
        &&& keys_distinct(self.last_checks())
        &&& keys_distinct(self.health_cache())
        &&& keys_distinct(self.urls())
    }

    /// A service for `default` and `fallback`, probing each at most every 5 s
    /// and trusting a result for 300 s.
    pub fn new(default_url: String, fallback_url: String) -> (r: Self)
        ensures
            r.wf(),
            r.rate_limit() == DEFAULT_RATE_LIMIT_MS,
            r.cache_ttl() == DEFAULT_CACHE_TTL_MS,
            r.urls() == seq![("default"@, default_url), ("fallback"@, fallback_url)],
            lookup(r.urls(), "default"@) == Some(default_url),
            lookup(r.urls(), "fallback"@) == Some(fallback_url),
            r.last_checks().len() == 0,
            r.health_cache().len() == 0,
    {
        let mut urls: Vec<(String, String)> = Vec::new();
        let ghost e = keyed(urls@);
        assert(e =~= Seq::<(Seq<char>, String)>::empty());
        put_key(&mut urls, "default", default_url);
        let ghost u0 = keyed(urls@);
        put_key(&mut urls, "fallback", fallback_url);
        proof {
            reveal_strlit("default");
            reveal_strlit("fallback");
            assert("default"@[0] != "fallback"@[0]);
            assert(!has_key(e, "default"@));
            assert(u0 =~= seq![("default"@, default_url)]);
            assert(!has_key(u0, "fallback"@)) by {
                if has_key(u0, "fallback"@) {
                    let j = crate::table::index_of(u0, "fallback"@);
                    assert(u0[j].0 == "fallback"@);
                }
            }
            lemma_put_distinct(u0, "fallback"@, fallback_url);
            assert(keyed(urls@) =~= seq![("default"@, default_url), ("fallback"@, fallback_url)]);
            assert(keyed(urls@)[0] == ("default"@, default_url));
            crate::table::lemma_index_of(keyed(urls@), 0);
        }
        Self::with_settings(urls, DEFAULT_RATE_LIMIT_MS, DEFAULT_CACHE_TTL_MS)
    }

    /// A service for the given base URLs, probing each backend at most every
    /// `rate_limit_ms` and trusting a result for `cache_ttl_ms`.
    pub fn with_settings(urls: Vec<(String, String)>, rate_limit_ms: u64, cache_ttl_ms: u64) -> (r:
        Self)
        requires
            keys_distinct(keyed(urls@)),
        ensures
            r.wf(),
            r.rate_limit() == rate_limit_ms,
            r.cache_ttl() == cache_ttl_ms,
            r.urls() == keyed(urls@),
            r.last_checks().len() == 0,
            r.health_cache().len() == 0,
    {
        HealthCheckService {
            rate_limit_ms,
            cache_ttl_ms,
            last_checks: Vec::new(),
            health_cache: Vec::new(),
            processor_urls: urls,
        }
    }

    /// The least time between two probes of one backend, in milliseconds.
    pub fn get_rate_limit(&self) -> (r: u64)
        ensures
            r == self.rate_limit(),
    {
        self.rate_limit_ms
    }

    /// How long a probe result answers checks, in milliseconds.
    pub fn get_cache_ttl(&self) -> (r: u64)
        ensures
            r == self.cache_ttl(),
    {
        self.cache_ttl_ms
    }

    /// Sets the least time between two probes of one backend.
    pub fn set_rate_limit(&mut self, rate_limit_ms: u64)
        requires
            old(self).wf(),
        ensures
            final(self).wf(),
            final(self).rate_limit() == rate_limit_ms,
            final(self).cache_ttl() == old(self).cache_ttl(),
            final(self).last_checks() == old(self).last_checks(),
            final(self).health_cache() == old(self).health_cache(),
            final(self).urls() == old(self).urls(),
    {
        self.rate_limit_ms = rate_limit_ms;
    }

    /// Sets how long a probe result answers checks.
    pub fn set_cache_ttl(&mut self, cache_ttl_ms: u64)
        requires
            old(self).wf(),
        ensures
            final(self).wf(),
            final(self).cache_ttl() == cache_ttl_ms,
            final(self).rate_limit() == old(self).rate_limit(),
            final(self).last_checks() == old(self).last_checks(),
            final(self).health_cache() == old(self).health_cache(),
            final(self).urls() == old(self).urls(),
    {
        self.cache_ttl_ms = cache_ttl_ms;
    }

    /// Decides a health check of `name` at `now_ms`: a fresh cached result; or,
    /// where probing is too soon, the last known result or a "no data" status;
    /// or else a probe of the health endpoint.
    pub fn check_processor_health(&self, name: &str, now_ms: u64) -> (r: HealthCheck)
        requires
            self.wf(),
        ensures
            match fresh_status(self.health_cache(), self.cache_ttl(), name@, now_ms) {
                Some(s) => r == HealthCheck::Known(s),
                None => if !may_probe(self.last_checks(), self.rate_limit(), name@, now_ms) {
                    match lookup(self.health_cache(), name@) {
                        Some(entry) => r == HealthCheck::Known(entry.0),
                        None => r matches HealthCheck::Known(s) && is_no_data(s),
                    }
                } else {
                    r matches HealthCheck::Probe(u) && u@ == endpoint_url(self.urls(), name@)
                },
            },
    {
        let cached = find_key(&self.health_cache, name);
        if let Some(i) = cached {
            let entry = &self.health_cache[i].1;
            if Self::elapsed_ms(now_ms, entry.1) < self.cache_ttl_ms {
                return HealthCheck::Known(copy_status(&entry.0));
            }
        }
        if !self.can_perform_health_check(name, now_ms) {
            return match cached {
                Some(i) => HealthCheck::Known(copy_status(&self.health_cache[i].1.0)),
                None => {
                    let s = HealthStatus {
                        is_healthy: false,
                        last_check: None,
                        response_time_ms: None,
                        error_message: Some(String::from_str("No health data available")),
                    };
                    HealthCheck::Known(s)
                },
            };
        }
        HealthCheck::Probe(self.get_health_endpoint_url(name))
    }

    /// Records a probe result for `name` made at `now_ms`: it is cached, and
    /// the probe time is noted, whatever the result.
    pub fn record_health_check(&mut self, name: &str, status: HealthStatus, now_ms: u64)
        requires
            old(self).wf(),
        ensures
            final(self).wf(),
            final(self).health_cache() == put(old(self).health_cache(), name@, (status, now_ms)),
            final(self).last_checks() == put(old(self).last_checks(), name@, now_ms),
            final(self).rate_limit() == old(self).rate_limit(),
            final(self).cache_ttl() == old(self).cache_ttl(),
            final(self).urls() == old(self).urls(),
    {
        put_key(&mut self.health_cache, name, (status, now_ms));
        put_key(&mut self.last_checks, name, now_ms);
    }

    /// The cached status of `name` while it is fresh.
    pub fn get_processor_status(&self, name: &str, now_ms: u64) -> (r: Option<HealthStatus>)
        requires
            self.wf(),
        ensures
            r == fresh_status(self.health_cache(), self.cache_ttl(), name@, now_ms),
    {
        match find_key(&self.health_cache, name) {
            Some(i) => {
                let entry = &self.health_cache[i].1;
                if Self::elapsed_ms(now_ms, entry.1) < self.cache_ttl_ms {
                    Some(copy_status(&entry.0))
                } else {
                    None
                }
            },
            None => None,
        }
    }

    /// When `name` was last probed, in milliseconds of the caller's clock.
    pub fn get_last_check_time(&self, name: &str) -> (r: Option<u64>)
        requires
            self.wf(),
        ensures
            r == lookup(self.last_checks(), name@),
    {
        match find_key(&self.last_checks, name) {
            Some(i) => Some(self.last_checks[i].1),
            None => None,
        }
    }

    /// The health endpoint of `name`: its base URL followed by
    /// `/payments/service-health`.
    pub fn get_health_endpoint_url(&self, name: &str) -> (r: String)
        requires
            self.wf(),
        ensures
            r@ == endpoint_url(self.urls(), name@),
    {
        let mut url = match find_key(&self.processor_urls, name) {
            Some(i) => self.processor_urls[i].1.clone(),
            None => {
                let mut u = String::from_str("http://");
                u.append(name);
                u.append("-processor:8080");
                u
            },
        };
        url.append("/payments/service-health");
        url
    }

    /// Whether a probe of `name` is allowed at `now_ms`.
    fn can_perform_health_check(&self, name: &str, now_ms: u64) -> (r: bool)
        requires
            self.wf(),
        ensures
            r == may_probe(self.last_checks(), self.rate_limit(), name@, now_ms),
    {
        match find_key(&self.last_checks, name) {
            Some(i) => Self::elapsed_ms(now_ms, self.last_checks[i].1) >= self.rate_limit_ms,
            None => true,
        }
    }

    /// Milliseconds from `since` to `now`; zero where the clock reads earlier.
    fn elapsed_ms(now: u64, since: u64) -> (r: u64)
        ensures
            r == ms_since(now, since),
    {
        if now >= since {
            now - since
        } else {
            0
        }
    }
}

} // verus!
