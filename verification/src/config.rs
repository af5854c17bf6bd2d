//! Engine configuration.

use vstd::prelude::*;
use vstd::string::StringExecFns;

verus! {

/// SASL mechanisms offered when authenticating against an SMTP relay.
#[derive(Debug, Clone, Copy, PartialEq, Eq, Structural)]
pub enum Mechanism {
    /// The PLAIN mechanism.
    Plain,
    /// The LOGIN mechanism (obsolete but widely deployed).
    Login,
    /// The non-standard XOAUTH2 mechanism.
    Xoauth2,
}

/// Authentication settings for an SMTP relay.
#[derive(Debug, Clone)]
pub struct SmtpAuth {
    pub mechanism: Mechanism,
    pub username: String,
    pub password: String,
}

/// Delivery configuration needed if using an SMTP relay.
#[derive(Debug, Clone)]
pub struct RelayConfig {
    /// The host name of the relay.
    pub domain_name: String,
    /// The port of the relay; 25 when absent.
    pub port: Option<u16>,
    /// Whether to negotiate STARTTLS with the relay.
    pub use_tls: bool,
    /// Optional relay authentication.
    pub auth: Option<SmtpAuth>,
}

/// Transport protocols for a specifically configured DNS name server.
#[derive(Debug, Clone, Copy, PartialEq, Eq, Structural)]
pub enum DnsProtocol {
    Udp,
    Tcp,
}

/// How the DNS resolver for direct-to-MX delivery is set up.
#[derive(Debug, Clone)]
pub enum ResolverSetup {
    /// Use the system resolver configuration.
    SystemConf,
    /// Use Google's public name servers.
    Google,
    /// Use Cloudflare's public name servers.
    Cloudflare,
    /// Use Quad9's public name servers.
    Quad9,
    /// Use one specific name server.
    Specific {
        /// The socket address of the name server, e.g. "192.0.2.53:53".
        socket: String,
        /// The transport protocol to use.
        protocol: DnsProtocol,
        /// The TLS name of the server, where the protocol needs one.
        tls_dns_name: Option<String>,
    },
}

impl Default for ResolverSetup {
    fn default() -> (r: ResolverSetup)
        ensures
            r is SystemConf,
    {
        ResolverSetup::SystemConf
    }
}

/// Delivery configuration needed if delivering directly to recipient MX
/// servers.
#[derive(Debug, Clone)]
pub struct RemoteDeliveryConfig {
    pub resolver_setup: ResolverSetup,
}

impl Default for RemoteDeliveryConfig {
    fn default() -> (r: RemoteDeliveryConfig)
        ensures
            r.resolver_setup is SystemConf,
    {
        RemoteDeliveryConfig { resolver_setup: ResolverSetup::SystemConf }
    }
}

/// Delivery configuration: exactly one of the two ways of delivering mail.
#[derive(Debug, Clone)]
pub enum DeliveryConfig {
    /// Deliver everything through an SMTP relay.
    Relay(RelayConfig),
    /// Deliver directly to recipient domain MX servers.
    Remote(RemoteDeliveryConfig),
}

impl Default for DeliveryConfig {
    fn default() -> (r: DeliveryConfig)
        ensures
            r matches DeliveryConfig::Remote(rdc) && rdc.resolver_setup is SystemConf,
    {
        DeliveryConfig::Remote(RemoteDeliveryConfig { resolver_setup: ResolverSetup::SystemConf })
    }
}

/// Engine configuration settings.
#[derive(Debug, Clone)]
pub struct Config {
    /// The argument of the SMTP EHLO command.
    pub helo_name: String,
    /// Timeout, in seconds, of each SMTP socket operation.
    pub smtp_timeout_secs: u64,
    /// Base, in seconds, of the exponential retry backoff.
    pub base_resend_delay_secs: u64,
    /// If true, STARTTLS must succeed on every session.
    pub require_tls: bool,
    /// How mail leaves the engine.
    pub delivery: DeliveryConfig,
}

impl Default for Config {
    fn default() -> (r: Config)
        ensures
            r.helo_name@ == "localhost"@,
            r.smtp_timeout_secs == 60,
            r.base_resend_delay_secs == 60,
            !r.require_tls,
            r.delivery matches DeliveryConfig::Remote(rdc) && rdc.resolver_setup is SystemConf,
    {
        Config {
            helo_name: String::from_str("localhost"),
            smtp_timeout_secs: 60,
            base_resend_delay_secs: 60,
            require_tls: false,
            delivery: DeliveryConfig::Remote(
                RemoteDeliveryConfig { resolver_setup: ResolverSetup::SystemConf },
            ),
        }
    }
}

} // verus!
