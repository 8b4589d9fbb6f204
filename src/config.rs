use vstd::prelude::*;
use crate::ip::{ip_literal_of, parse_ip};

verus! {

/// The settings that a run of checks reads.
#[derive(Debug, Clone)]
pub struct Config {
    /// Timeout for ping and DNS operations, in milliseconds.
    pub timeout_ms: u64,
    /// Number of retry attempts.
    pub retry_count: u32,
    /// Seconds between the starts of two cycles in watch mode, when no other
    /// value is given.
    pub interval: u64,
    /// The hosts to check, in order.
    pub hosts: Vec<HostConfig>,
}

/// One host to check.
#[derive(Debug, Clone)]
pub struct HostConfig {
    /// Display name for the host.
    pub name: String,
    /// IP address or hostname.
    pub address: String,
    /// Whether to perform the ping check.
    pub ping: bool,
    /// Whether to perform the DNS check (meaningful for hostnames only).
    pub dns: bool,
}

impl HostConfig {
    pub open spec fn spec_is_ip_address(&self) -> bool {
        ip_literal_of(self.address@) is Some
    }

    pub open spec fn spec_has_checks(&self) -> bool {
        self.ping || self.dns
    }

    pub open spec fn spec_should_resolve_dns(&self) -> bool {
        self.dns && !self.spec_is_ip_address()
    }

    /// Whether the address is an IP literal rather than a hostname.
    pub fn is_ip_address(&self) -> (r: bool)
        ensures
            r == self.spec_is_ip_address(),
    {
        parse_ip(self.address.as_str()).is_some()
    }

    /// Whether this host has any check enabled.
    pub fn has_checks(&self) -> (r: bool)
        ensures
            r == self.spec_has_checks(),
    {
        self.ping || self.dns
    }

    /// Whether a DNS check is made: it is asked for, and the address is not
    /// already an IP.
    pub fn should_resolve_dns(&self) -> (r: bool)
        ensures
            r == self.spec_should_resolve_dns(),
    {
        self.dns && !self.is_ip_address()
    }
}

pub open spec fn default_timeout_ms() -> u64 {
    1000
}

pub open spec fn default_retry_count() -> u32 {
    3
}

pub open spec fn default_interval() -> u64 {
    5
}

impl Default for Config {
    fn default() -> (r: Self)
        ensures
            r.timeout_ms == default_timeout_ms(),
            r.retry_count == default_retry_count(),
            r.interval == default_interval(),
            r.hosts@.len() == 0,
    {
        Config { timeout_ms: 1000, retry_count: 3, interval: 5, hosts: Vec::new() }
    }
}

} // verus!
