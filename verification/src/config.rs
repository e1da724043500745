//! Runtime configuration, built from the values of the environment
//! variables (see `.env.example`). Reading the environment is the caller's
//! part; every default and parse rule is decided here.

use vstd::prelude::*;
use crate::text::{list_items, parse_u32, parse_u64, parsed_int, split_list, trim, trimmed};

verus! {

/// Per-IP token buckets and quotas. A value of 0 disables that limit.
pub struct RateLimits {
    /// Sustained read requests per second per IP.
    pub read_per_sec: u32,
    /// Read burst size per IP.
    pub read_burst: u32,
    /// Sustained write requests per second per IP.
    pub write_per_sec: u32,
    /// Write burst size per IP.
    pub write_burst: u32,
    /// Max concurrent SSE connections per IP.
    pub sse_per_ip: u32,
    /// Max concurrent SSE connections in total.
    pub sse_global: u32,
    /// Max credential deliveries per issuer per hour.
    pub issuer_deliveries_per_hour: u32,
}

/// Runtime configuration.
pub struct Config {
    pub database_url: String,
    pub bind_addr: String,
    pub soroban_rpc_url: String,
    pub network_passphrase: String,
    pub pool_contract_ids: Vec<String>,
    pub registry_contract_id: Option<String>,
    pub indexer_poll_secs: u64,
    pub artifacts_dir: String,
    /// Days after `claimed_at` before a claimed delivery is deleted.
    /// 0 disables deletion of claimed rows.
    pub credential_retention_claimed_days: u32,
    /// Days after `created_at` before an unclaimed delivery is deleted.
    /// 0 disables deletion of unclaimed rows.
    pub credential_retention_unclaimed_days: u32,
    /// Abuse-protection knobs; every limit can be disabled (0).
    pub rate_limits: RateLimits,
    /// Origins allowed for browser (CORS) access. Empty = no CORS layer.
    /// `*` = any origin.
    pub cors_allowed_origins: Vec<String>,
    /// /health/ready also fails if no indexer cursor was updated within
    /// this many seconds. 0 disables the staleness check.
    pub ready_max_indexer_staleness_secs: u32,
    /// Seconds the assembled /v1/stats answer is cached. 0 disables caching.
    pub stats_cache_ttl_secs: u32,
}

/// The values of the configuration's environment variables (`None` where a
/// variable is unset or not valid Unicode).
pub struct EnvVars {
    pub database_url: Option<String>,
    pub bind_addr: Option<String>,
    pub soroban_rpc_url: Option<String>,
    pub network_passphrase: Option<String>,
    pub pool_contract_ids: Option<String>,
    pub registry_contract_id: Option<String>,
    pub indexer_poll_secs: Option<String>,
    pub artifacts_dir: Option<String>,
    pub credential_retention_claimed_days: Option<String>,
    pub credential_retention_unclaimed_days: Option<String>,
    pub rate_limit_read_per_sec: Option<String>,
    pub rate_limit_read_burst: Option<String>,
    pub rate_limit_write_per_sec: Option<String>,
    pub rate_limit_write_burst: Option<String>,
    pub rate_limit_sse_per_ip: Option<String>,
    pub rate_limit_sse_global: Option<String>,
    pub rate_limit_issuer_deliveries_per_hour: Option<String>,
    pub cors_allowed_origins: Option<String>,
    pub ready_max_indexer_staleness_secs: Option<String>,
    pub stats_cache_ttl_secs: Option<String>,
}

/// Why the configuration could not be built.
pub struct ConfigError {
    pub message: String,
}

/// The value of a numeric variable: its parse when it parses, else the
/// default.
pub open spec fn u32_or(raw: Option<String>, default: u32) -> u32 {
    match raw {
        Some(s) => match parsed_int(s@, false, 0, u32::MAX as int) {
            Some(v) => v as u32,
            None => default,
        },
        None => default,
    }
}

pub open spec fn u64_or(raw: Option<String>, default: u64) -> u64 {
    match raw {
        Some(s) => match parsed_int(s@, false, 0, u64::MAX as int) {
            Some(v) => v as u64,
            None => default,
        },
        None => default,
    }
}

pub open spec fn text_or(raw: Option<String>, default: Seq<char>) -> Seq<char> {
    match raw {
        Some(s) => s@,
        None => default,
    }
}

pub open spec fn list_or_empty(raw: Option<String>) -> Seq<Seq<char>> {
    match raw {
        Some(s) => list_items(s@),
        None => list_items(Seq::empty()),
    }
}

/// A numeric variable, or its default when unset or unparsable.
pub fn env_u32(raw: &Option<String>, default: u32) -> (v: u32)
    ensures
        v == u32_or(*raw, default),
{
    match raw {
        Some(s) => match parse_u32(s.as_str()) {
            Some(v) => v,
            None => default,
        },
        None => default,
    }
}

fn env_u64(raw: &Option<String>, default: u64) -> (v: u64)
    ensures
        v == u64_or(*raw, default),
{
    match raw {
        Some(s) => match parse_u64(s.as_str()) {
            Some(v) => v,
            None => default,
        },
        None => default,
    }
}

fn text_or_default(raw: &Option<String>, default: &str) -> (v: String)
    ensures
        v@ == text_or(*raw, default@),
{
    match raw {
        Some(s) => s.clone(),
        None => String::from_str(default),
    }
}

fn list_or_empty_exec(raw: &Option<String>) -> (v: Vec<String>)
    ensures
        v.deep_view() == list_or_empty(*raw),
{
    match raw {
        Some(s) => split_list(s.as_str()),
        None => {
            let v: Vec<String> = Vec::new();
            assert(Seq::<char>::empty().subrange(0, 0) =~= Seq::<char>::empty());
            assert(trimmed(Seq::<char>::empty()).len() == 0);
            assert(v.deep_view() =~= list_items(Seq::empty()));
            v
        },
    }
}

impl Config {
    /// Build the configuration. `DATABASE_URL` is required; every other
    /// variable has a default.
    pub fn from_vars(vars: &EnvVars) -> (r: Result<Config, ConfigError>)
        ensures
            vars.database_url is None <==> r is Err,
            r matches Err(e) ==> e.message@ == "DATABASE_URL must be set"@,
            r matches Ok(c) ==> {
                &&& Some(c.database_url@) == match vars.database_url {
                    Some(s) => Some(s@),
                    None => None::<Seq<char>>,
                }
                &&& c.bind_addr@ == text_or(vars.bind_addr, "0.0.0.0:8080"@)
                &&& c.soroban_rpc_url@ == text_or(vars.soroban_rpc_url, "https://soroban-testnet.stellar.org"@)
                &&& c.network_passphrase@ == text_or(vars.network_passphrase, "Test SDF Network ; September 2015"@)
                &&& c.pool_contract_ids.deep_view() == list_or_empty(vars.pool_contract_ids)
                &&& match vars.registry_contract_id {
                    Some(s) => if trimmed(s@).len() > 0 {
                        c.registry_contract_id matches Some(x) && x@ == s@
                    } else {
                        c.registry_contract_id is None
                    },
                    None => c.registry_contract_id is None,
                }
                &&& c.indexer_poll_secs == u64_or(vars.indexer_poll_secs, 5)
                &&& c.artifacts_dir@ == text_or(vars.artifacts_dir, "./artifacts"@)
                &&& c.credential_retention_claimed_days == u32_or(vars.credential_retention_claimed_days, 30)
                &&& c.credential_retention_unclaimed_days == u32_or(vars.credential_retention_unclaimed_days, 180)
                &&& c.rate_limits.read_per_sec == u32_or(vars.rate_limit_read_per_sec, 50)
                &&& c.rate_limits.read_burst == u32_or(vars.rate_limit_read_burst, 200)
                &&& c.rate_limits.write_per_sec == u32_or(vars.rate_limit_write_per_sec, 2)
                &&& c.rate_limits.write_burst == u32_or(vars.rate_limit_write_burst, 20)
                &&& c.rate_limits.sse_per_ip == u32_or(vars.rate_limit_sse_per_ip, 10)
                &&& c.rate_limits.sse_global == u32_or(vars.rate_limit_sse_global, 1000)
                &&& c.rate_limits.issuer_deliveries_per_hour == u32_or(vars.rate_limit_issuer_deliveries_per_hour, 600)
                &&& c.cors_allowed_origins.deep_view() == list_or_empty(vars.cors_allowed_origins)
                &&& c.ready_max_indexer_staleness_secs == u32_or(vars.ready_max_indexer_staleness_secs, 0)
                &&& c.stats_cache_ttl_secs == u32_or(vars.stats_cache_ttl_secs, 10)
            },
    {
        let database_url = match &vars.database_url {
            Some(s) => s.clone(),
            None => return Err(ConfigError { message: String::from_str("DATABASE_URL must be set") }),
        };
        let registry_contract_id = match &vars.registry_contract_id {
            Some(s) => if trim(s.as_str()).unicode_len() > 0 {
                Some(s.clone())
            } else {
                None
            },
            None => None,
        };
        Ok(
            Config {
                database_url,
                bind_addr: text_or_default(&vars.bind_addr, "0.0.0.0:8080"),
                soroban_rpc_url: text_or_default(
                    &vars.soroban_rpc_url,
                    "https://soroban-testnet.stellar.org",
                ),
                network_passphrase: text_or_default(
                    &vars.network_passphrase,
                    "Test SDF Network ; September 2015",
                ),
                pool_contract_ids: list_or_empty_exec(&vars.pool_contract_ids),
                registry_contract_id,
                indexer_poll_secs: env_u64(&vars.indexer_poll_secs, 5),
                artifacts_dir: text_or_default(&vars.artifacts_dir, "./artifacts"),
                credential_retention_claimed_days: env_u32(&vars.credential_retention_claimed_days, 30),
                credential_retention_unclaimed_days: env_u32(
                    &vars.credential_retention_unclaimed_days,
                    180,
                ),
                rate_limits: RateLimits {
                    read_per_sec: env_u32(&vars.rate_limit_read_per_sec, 50),
                    read_burst: env_u32(&vars.rate_limit_read_burst, 200),
                    write_per_sec: env_u32(&vars.rate_limit_write_per_sec, 2),
                    write_burst: env_u32(&vars.rate_limit_write_burst, 20),
                    sse_per_ip: env_u32(&vars.rate_limit_sse_per_ip, 10),
                    sse_global: env_u32(&vars.rate_limit_sse_global, 1000),
                    issuer_deliveries_per_hour: env_u32(&vars.rate_limit_issuer_deliveries_per_hour, 600),
                },
                cors_allowed_origins: list_or_empty_exec(&vars.cors_allowed_origins),
                ready_max_indexer_staleness_secs: env_u32(&vars.ready_max_indexer_staleness_secs, 0),
                stats_cache_ttl_secs: env_u32(&vars.stats_cache_ttl_secs, 10),
            },
        )
    }
}

} // verus!
