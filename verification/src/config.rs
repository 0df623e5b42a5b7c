//! Configuration of the gateway server.

use crate::path::UnixPath;
use crate::text::owned;
use vstd::prelude::*;

verus! {

/// Port of the main listener where none is configured.
pub const DEFAULT_SERVER_PORT: u16 = 8080;

/// Port of the health listener where none is configured.
pub const DEFAULT_HEALTH_SERVER_PORT: u16 = 9090;

/// An IPv4 address and a port to listen on.
#[derive(Debug, Clone, Copy, PartialEq, Eq)]
pub struct BindAddress {
    pub octets: (u8, u8, u8, u8),
    pub port: u16,
}

impl BindAddress {
    /// The given port on all interfaces.
    pub fn any(port: u16) -> (r: BindAddress)
        ensures
            r.octets == (0u8, 0u8, 0u8, 0u8),
            r.port == port,
    {
        BindAddress { octets: (0, 0, 0, 0), port }
    }
}

/// Server identity and client CA of the main listener.
#[derive(Debug, PartialEq, Eq)]
pub struct TlsConfig {
    pub cert_path: UnixPath,
    pub key_path: UnixPath,
    pub client_ca_path: UnixPath,
    /// Whether connections without a client certificate are accepted.
    pub allow_unauthenticated: bool,
}

/// Configuration of the gateway server.
#[derive(Debug)]
pub struct Config {
    pub bind_address: BindAddress,
    pub health_bind_address: BindAddress,
    pub log_level: String,
    pub tls: Option<TlsConfig>,
    pub database_url: String,
    pub compute_drivers: Vec<String>,
    pub sandbox_namespace: String,
    pub sandbox_image: String,
    pub sandbox_image_pull_policy: String,
    pub grpc_endpoint: String,
    pub ssh_gateway_host: String,
    pub ssh_gateway_port: u16,
    pub ssh_connect_path: String,
    pub sandbox_ssh_port: u16,
    pub ssh_handshake_secret: String,
    pub ssh_handshake_skew_secs: u64,
    pub client_tls_secret_name: String,
    pub host_gateway_ip: String,
}

impl Config {
    /// A configuration with the given TLS material and nothing else set.
    pub fn new(tls: Option<TlsConfig>) -> (r: Config)
        ensures
            r.tls == tls,
            r.bind_address == (BindAddress { octets: (0, 0, 0, 0), port: DEFAULT_SERVER_PORT }),
            r.health_bind_address == (BindAddress {
                octets: (0, 0, 0, 0),
                port: DEFAULT_HEALTH_SERVER_PORT,
            }),
            r.log_level@ == "info"@,
            r.database_url@ == ""@,
            r.compute_drivers@.len() == 0,
            r.sandbox_namespace@ == "default"@,
            r.sandbox_image@ == ""@,
            r.sandbox_image_pull_policy@ == ""@,
            r.grpc_endpoint@ == ""@,
            r.ssh_gateway_host@ == "127.0.0.1"@,
            r.ssh_gateway_port == DEFAULT_SERVER_PORT,
            r.ssh_connect_path@ == "/connect/ssh"@,
            r.sandbox_ssh_port == 2222,
            r.ssh_handshake_secret@ == ""@,
            r.ssh_handshake_skew_secs == 300,
            r.client_tls_secret_name@ == ""@,
            r.host_gateway_ip@ == ""@,
    {
        Config {
            bind_address: BindAddress::any(DEFAULT_SERVER_PORT),
            health_bind_address: BindAddress::any(DEFAULT_HEALTH_SERVER_PORT),
            log_level: owned("info"),
            tls,
            database_url: owned(""),
            compute_drivers: Vec::new(),
            sandbox_namespace: owned("default"),
            sandbox_image: owned(""),
            sandbox_image_pull_policy: owned(""),
            grpc_endpoint: owned(""),
            ssh_gateway_host: owned("127.0.0.1"),
            ssh_gateway_port: DEFAULT_SERVER_PORT,
            ssh_connect_path: owned("/connect/ssh"),
            sandbox_ssh_port: 2222,
            ssh_handshake_secret: owned(""),
            ssh_handshake_skew_secs: 300,
            client_tls_secret_name: owned(""),
            host_gateway_ip: owned(""),
        }
    }

    /// This configuration with another main listener.
    pub fn with_bind_address(self, bind_address: BindAddress) -> (r: Config)
        ensures
            r == (Config { bind_address, ..self }),
    {
        Config { bind_address, ..self }
    }

    /// This configuration with another health listener.
    pub fn with_health_bind_address(self, health_bind_address: BindAddress) -> (r: Config)
        ensures
            r == (Config { health_bind_address, ..self }),
    {
        Config { health_bind_address, ..self }
    }

    /// This configuration with another log level.
    pub fn with_log_level(self, log_level: String) -> (r: Config)
        ensures
            r == (Config { log_level, ..self }),
    {
        Config { log_level, ..self }
    }

    /// This configuration with another database.
    pub fn with_database_url(self, database_url: String) -> (r: Config)
        ensures
            r == (Config { database_url, ..self }),
    {
        Config { database_url, ..self }
    }

    /// This configuration with other compute drivers.
    pub fn with_compute_drivers(self, compute_drivers: Vec<String>) -> (r: Config)
        ensures
            r == (Config { compute_drivers, ..self }),
    {
        Config { compute_drivers, ..self }
    }

    /// This configuration with another namespace for sandboxes.
    pub fn with_sandbox_namespace(self, sandbox_namespace: String) -> (r: Config)
        ensures
            r == (Config { sandbox_namespace, ..self }),
    {
        Config { sandbox_namespace, ..self }
    }

    /// This configuration with another default image for sandboxes.
    pub fn with_sandbox_image(self, sandbox_image: String) -> (r: Config)
        ensures
            r == (Config { sandbox_image, ..self }),
    {
        Config { sandbox_image, ..self }
    }

    /// This configuration with another pull policy for sandbox images.
    pub fn with_sandbox_image_pull_policy(self, sandbox_image_pull_policy: String) -> (r: Config)
        ensures
            r == (Config { sandbox_image_pull_policy, ..self }),
    {
        Config { sandbox_image_pull_policy, ..self }
    }

    /// This configuration with another endpoint for callbacks of sandboxes.
    pub fn with_grpc_endpoint(self, grpc_endpoint: String) -> (r: Config)
        ensures
            r == (Config { grpc_endpoint, ..self }),
    {
        Config { grpc_endpoint, ..self }
    }

    /// This configuration with another public host for SSH.
    pub fn with_ssh_gateway_host(self, ssh_gateway_host: String) -> (r: Config)
        ensures
            r == (Config { ssh_gateway_host, ..self }),
    {
        Config { ssh_gateway_host, ..self }
    }

    /// This configuration with another public port for SSH.
    pub fn with_ssh_gateway_port(self, ssh_gateway_port: u16) -> (r: Config)
        ensures
            r == (Config { ssh_gateway_port, ..self }),
    {
        Config { ssh_gateway_port, ..self }
    }

    /// This configuration with another HTTP path for SSH.
    pub fn with_ssh_connect_path(self, ssh_connect_path: String) -> (r: Config)
        ensures
            r == (Config { ssh_connect_path, ..self }),
    {
        Config { ssh_connect_path, ..self }
    }

    /// This configuration with another SSH port inside sandboxes.
    pub fn with_sandbox_ssh_port(self, sandbox_ssh_port: u16) -> (r: Config)
        ensures
            r == (Config { sandbox_ssh_port, ..self }),
    {
        Config { sandbox_ssh_port, ..self }
    }

    /// This configuration with another secret for the SSH handshake.
    pub fn with_ssh_handshake_secret(self, ssh_handshake_secret: String) -> (r: Config)
        ensures
            r == (Config { ssh_handshake_secret, ..self }),
    {
        Config { ssh_handshake_secret, ..self }
    }

    /// This configuration with another clock skew for the SSH handshake.
    pub fn with_ssh_handshake_skew_secs(self, ssh_handshake_skew_secs: u64) -> (r: Config)
        ensures
            r == (Config { ssh_handshake_skew_secs, ..self }),
    {
        Config { ssh_handshake_skew_secs, ..self }
    }

    /// This configuration with another secret for client TLS material.
    pub fn with_client_tls_secret_name(self, client_tls_secret_name: String) -> (r: Config)
        ensures
            r == (Config { client_tls_secret_name, ..self }),
    {
        Config { client_tls_secret_name, ..self }
    }

    /// This configuration with another gateway address for host aliases.
    pub fn with_host_gateway_ip(self, host_gateway_ip: String) -> (r: Config)
        ensures
            r == (Config { host_gateway_ip, ..self }),
    {
        Config { host_gateway_ip, ..self }
    }
}

} // verus!
