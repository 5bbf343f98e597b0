//! Session configuration.
use vstd::prelude::*;

use crate::timing::Duration;

verus! {

/// Whether a session runs a test or ends after negotiation.
#[derive(Debug, Clone, Copy, PartialEq, Eq, Structural)]
pub enum RunMode {
    Normal,
    NoTest,
}

/// How far a server may change what the client asked for.
#[derive(Debug, Clone, Copy, PartialEq, Eq, Structural)]
pub enum NegotiationPolicy {
    Strict,
    Loose,
}

#[derive(Debug, Clone, Copy, PartialEq, Eq, Structural)]
pub struct SocketConfig {
    pub ipv4_only: bool,
    pub ipv6_only: bool,
    pub ttl: Option<u32>,
    pub recv_timeout: Option<Duration>,
}

/// What one session is opened with.
#[derive(Debug, PartialEq, Eq)]
pub struct ClientConfig {
    pub server_addr: String,
    pub hmac_key: Option<Vec<u8>>,
    pub duration: Option<Duration>,
    pub interval: Duration,
    pub dscp: u8,
    pub run_mode: RunMode,
    pub negotiation_policy: NegotiationPolicy,
    pub open_timeouts: Vec<Duration>,
    pub probe_timeout: Duration,
    pub max_pending_probes: usize,
    pub socket_config: SocketConfig,
}

/// Authentication that overrides the shared configuration for one target.
#[derive(Debug, PartialEq, Eq)]
pub struct ClientAuthConfig {
    pub hmac_key: Option<Vec<u8>>,
}

/// A session configuration, as contracts speak of it.
pub ghost struct ClientConfigView {
    pub server_addr: Seq<char>,
    pub hmac_key: Option<Seq<u8>>,
    pub duration: Option<Duration>,
    pub interval: Duration,
    pub dscp: u8,
    pub run_mode: RunMode,
    pub negotiation_policy: NegotiationPolicy,
    pub open_timeouts: Seq<Duration>,
    pub probe_timeout: Duration,
    pub max_pending_probes: usize,
    pub socket_config: SocketConfig,
}

pub open spec fn key_view(key: Option<Vec<u8>>) -> Option<Seq<u8>> {
    match key {
        Some(key) => Some(key@),
        None => None,
    }
}

impl View for ClientConfig {
    type V = ClientConfigView;

    open spec fn view(&self) -> ClientConfigView {
        ClientConfigView {
            server_addr: self.server_addr@,
            hmac_key: key_view(self.hmac_key),
            duration: self.duration,
            interval: self.interval,
            dscp: self.dscp,
            run_mode: self.run_mode,
            negotiation_policy: self.negotiation_policy,
            open_timeouts: self.open_timeouts@,
            probe_timeout: self.probe_timeout,
            max_pending_probes: self.max_pending_probes,
            socket_config: self.socket_config,
        }
    }
}

impl View for ClientAuthConfig {
    type V = Option<Seq<u8>>;

    open spec fn view(&self) -> Option<Seq<u8>> {
        key_view(self.hmac_key)
    }
}

fn bytes_copy(bytes: &Vec<u8>) -> (result: Vec<u8>)
    ensures
        result@ == bytes@,
{
    let mut result: Vec<u8> = Vec::new();
    let mut i: usize = 0;
    while i < bytes.len()
        invariant
            i <= bytes@.len(),
            result@ == bytes@.take(i as int),
        decreases bytes@.len() - i,
    {
        result.push(bytes[i]);
        assert(bytes@.take(i as int).push(bytes@[i as int]) =~= bytes@.take(i as int + 1));
        i += 1;
    }
    assert(bytes@.take(i as int) =~= bytes@);
    result
}

pub fn key_copy(key: &Option<Vec<u8>>) -> (result: Option<Vec<u8>>)
    ensures
        key_view(result) == key_view(*key),
{
    match key {
        Some(key) => Some(bytes_copy(key)),
        None => None,
    }
}

fn bytes_equal(first: &Vec<u8>, second: &Vec<u8>) -> (result: bool)
    ensures
        result == (first@ == second@),
{
    if first.len() != second.len() {
        return false;
    }
    let mut i: usize = 0;
    while i < first.len()
        invariant
            i <= first@.len(),
            first@.len() == second@.len(),
            forall|j: int| 0 <= j < i ==> first@[j] == second@[j],
        decreases first@.len() - i,
    {
        if first[i] != second[i] {
            return false;
        }
        i += 1;
    }
    assert(first@ =~= second@);
    true
}

impl ClientAuthConfig {
    /// Whether both hold the same key, or both none.
    pub fn same(&self, other: &ClientAuthConfig) -> (result: bool)
        ensures
            result == (self@ == other@),
    {
        match (&self.hmac_key, &other.hmac_key) {
            (Some(first), Some(second)) => bytes_equal(first, second),
            (None, None) => true,
            _ => false,
        }
    }

    pub fn copy(&self) -> (result: ClientAuthConfig)
        ensures
            result@ == self@,
    {
        ClientAuthConfig { hmac_key: key_copy(&self.hmac_key) }
    }
}

impl ClientConfig {
    pub fn copy(&self) -> (result: ClientConfig)
        ensures
            result@ == self@,
    {
        let mut open_timeouts: Vec<Duration> = Vec::new();
        let mut i: usize = 0;
        while i < self.open_timeouts.len()
            invariant
                i <= self.open_timeouts@.len(),
                open_timeouts@ == self.open_timeouts@.take(i as int),
            decreases self.open_timeouts@.len() - i,
        {
            open_timeouts.push(self.open_timeouts[i]);
            assert(self.open_timeouts@.take(i as int).push(self.open_timeouts@[i as int])
                =~= self.open_timeouts@.take(i as int + 1));
            i += 1;
        }
        assert(self.open_timeouts@.take(i as int) =~= self.open_timeouts@);
        ClientConfig {
            server_addr: self.server_addr.clone(),
            hmac_key: key_copy(&self.hmac_key),
            duration: self.duration,
            interval: self.interval,
            dscp: self.dscp,
            run_mode: self.run_mode,
            negotiation_policy: self.negotiation_policy,
            open_timeouts,
            probe_timeout: self.probe_timeout,
            max_pending_probes: self.max_pending_probes,
            socket_config: self.socket_config,
        }
    }
}

/// A key is the bytes it holds, and no key is none. All else of a configuration
/// is what its fields hold.
pub proof fn law_configuration_is_its_fields(config: ClientConfig, auth: ClientAuthConfig)
    ensures
        config.hmac_key is None <==> config@.hmac_key is None,
        config.hmac_key matches Some(key) ==> config@.hmac_key == Some(key@),
        auth.hmac_key is None <==> auth@ is None,
        auth.hmac_key matches Some(key) ==> auth@ == Some(key@),
        config@.server_addr == config.server_addr@,
        config@.duration == config.duration,
        config@.interval == config.interval,
        config@.dscp == config.dscp,
        config@.run_mode == config.run_mode,
        config@.negotiation_policy == config.negotiation_policy,
        config@.open_timeouts == config.open_timeouts@,
        config@.probe_timeout == config.probe_timeout,
        config@.max_pending_probes == config.max_pending_probes,
        config@.socket_config == config.socket_config,
{
}

} // verus!
