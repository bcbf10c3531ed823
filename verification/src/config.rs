//! The relay's configuration, as read from its configuration file, and the
//! settings derived from it.

use vstd::prelude::*;
use crate::state::Setting;

verus! {

#[derive(Clone, Debug)]
pub struct RelayConfig {
    pub listen_addr: String,
    pub lmdb_path: String,
    pub blob_dir: String,
    pub siwe: SiweConfig,
    pub gc: GcConfig,
    pub connection: ConnectionConfig,
    pub metrics: MetricsConfig,
    pub tls: TlsConfig,
}

#[derive(Clone, Debug)]
pub struct TlsConfig {
    pub enabled: bool,
    pub cert_path: Option<String>,
    pub key_path: Option<String>,
}

#[derive(Clone, Debug)]
pub struct MetricsConfig {
    pub enabled: bool,
    /// The HTTP path metrics are served on, such as `/metrics`.
    pub endpoint: String,
}

#[derive(Clone, Debug)]
pub struct SiweConfig {
    pub domain: String,
    pub uri: String,
    pub chain_id: u64,
}

#[derive(Clone, Debug)]
pub struct GcConfig {
    pub enabled: bool,
    pub interval_seconds: u64,
}

#[derive(Clone, Debug)]
pub struct ConnectionConfig {
    pub max_connections: usize,
    pub max_subscriptions_per_conn: usize,
    pub event_ttl_seconds: u64,
}

/// The relay's settings taken from its configuration.
pub fn setting_from_config(config: &RelayConfig) -> (s: Setting)
    ensures
        s.listen_addr == config.listen_addr,
        s.siwe_domain == config.siwe.domain,
        s.siwe_uri == config.siwe.uri,
        s.siwe_chain_id == config.siwe.chain_id,
        s.max_subscriptions_per_conn == config.connection.max_subscriptions_per_conn,
        s.max_connections == config.connection.max_connections,
        s.event_ttl_seconds == config.connection.event_ttl_seconds,
        s.blob_dir == config.blob_dir,
{
    Setting {
        listen_addr: config.listen_addr.clone(),
        siwe_domain: config.siwe.domain.clone(),
        siwe_uri: config.siwe.uri.clone(),
        siwe_chain_id: config.siwe.chain_id,
        max_subscriptions_per_conn: config.connection.max_subscriptions_per_conn,
        max_connections: config.connection.max_connections,
        event_ttl_seconds: config.connection.event_ttl_seconds,
        blob_dir: config.blob_dir.clone(),
    }
}

} // verus!
