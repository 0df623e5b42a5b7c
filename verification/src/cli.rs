//! From the gateway's command line to its configuration.

use crate::compute::vm::{
    driver_argv, law_driver_told_all, reads_as, sets, VmComputeConfig, VmGuestTlsPaths,
};
use crate::config::{BindAddress, Config, TlsConfig};
use crate::path::UnixPath;
use crate::text::{lemma_occurs_at, occurs_in, owned};
use vstd::prelude::*;
use vstd::utf8::*;

verus! {

/// TLS options of the main listener.
#[derive(Debug)]
pub struct ServerTlsArgs {
    pub cert: Option<UnixPath>,
    pub key: Option<UnixPath>,
    pub client_ca: Option<UnixPath>,
    /// Plaintext HTTP: no gateway TLS.
    pub disable: bool,
    /// TLS connections need no client certificate.
    pub disable_gateway_auth: bool,
}

/// Options of the main listener.
#[derive(Debug)]
pub struct ServerArgs {
    pub port: u16,
    pub tls: ServerTlsArgs,
}

/// Options of the health listener.
#[derive(Debug)]
pub struct HealthArgs {
    pub port: u16,
}

/// Options of the gateway.
#[derive(Debug)]
pub struct GatewayArgs {
    pub server: ServerArgs,
    pub health: HealthArgs,
    pub log_level: String,
    pub db_url: String,
    pub drivers: Vec<String>,
    pub sandbox_namespace: String,
    pub sandbox_image: Option<String>,
    pub sandbox_image_pull_policy: Option<String>,
    pub grpc_endpoint: Option<String>,
    pub ssh_gateway_host: String,
    pub ssh_gateway_port: u16,
    pub ssh_connect_path: String,
    pub sandbox_ssh_port: u16,
    pub ssh_handshake_secret: Option<String>,
    pub ssh_handshake_skew_secs: u64,
    pub client_tls_secret_name: Option<String>,
    pub host_gateway_ip: Option<String>,
    pub vm_driver_state_dir: UnixPath,
    pub driver_dir: Option<UnixPath>,
    pub vm_krun_log_level: u32,
    pub vm_vcpus: u8,
    pub vm_mem_mib: u32,
    pub vm_tls_ca: Option<UnixPath>,
    pub vm_tls_cert: Option<UnixPath>,
    pub vm_tls_key: Option<UnixPath>,
}

/// A TLS option that is required and missing.
#[derive(Debug, Clone, Copy, PartialEq, Eq, Structural)]
pub enum CliError {
    MissingCert,
    MissingKey,
    MissingClientCa,
}

impl CliError {
    /// The error as text.
    pub open spec fn text(self) -> Seq<char> {
        match self {
            CliError::MissingCert =>
                "--server.tls.cert is required when TLS is enabled (use --server.tls.disable / --disable-tls for plaintext)"@,
            CliError::MissingKey =>
                "--server.tls.key is required when TLS is enabled (use --server.tls.disable / --disable-tls for plaintext)"@,
            CliError::MissingClientCa =>
                "--server.tls.client-ca is required when TLS is enabled (use --server.tls.disable / --disable-tls for plaintext)"@,
        }
    }

    /// The error as text.
    pub fn message(&self) -> (r: String)
        ensures
            r@ == self.text(),
    {
        match self {
            CliError::MissingCert => owned(
                "--server.tls.cert is required when TLS is enabled (use --server.tls.disable / --disable-tls for plaintext)",
            ),
            CliError::MissingKey => owned(
                "--server.tls.key is required when TLS is enabled (use --server.tls.disable / --disable-tls for plaintext)",
            ),
            CliError::MissingClientCa => owned(
                "--server.tls.client-ca is required when TLS is enabled (use --server.tls.disable / --disable-tls for plaintext)",
            ),
        }
    }
}

/// The TLS material that the options come to.
pub open spec fn tls_of(tls: ServerTlsArgs) -> Result<Option<TlsConfig>, CliError> {
    if tls.disable {
        Ok(None)
    } else {
        match (tls.cert, tls.key, tls.client_ca) {
            (None, _, _) => Err(CliError::MissingCert),
            (_, None, _) => Err(CliError::MissingKey),
            (_, _, None) => Err(CliError::MissingClientCa),
            (Some(cert_path), Some(key_path), Some(client_ca_path)) => Ok(
                Some(
                    (TlsConfig {
                        cert_path,
                        key_path,
                        client_ca_path,
                        allow_unauthenticated: tls.disable_gateway_auth,
                    }),
                ),
            ),
        }
    }
}

/// The text of an option; empty where it is not given.
pub open spec fn given(option: Option<String>) -> Seq<char> {
    match option {
        Some(text) => text@,
        None => ""@,
    }
}

/// Whether a server and a driver configuration are what the options come to.
pub open spec fn configures(args: GatewayArgs, config: Config, vm_config: VmComputeConfig) -> bool {
    &&& tls_of(args.server.tls) == Ok::<Option<TlsConfig>, CliError>(config.tls)
    &&& config.bind_address == (BindAddress { octets: (0, 0, 0, 0), port: args.server.port })
    &&& config.health_bind_address == (BindAddress { octets: (0, 0, 0, 0), port: args.health.port })
    &&& config.log_level == args.log_level
    &&& config.database_url == args.db_url
    &&& config.compute_drivers == args.drivers
    &&& config.sandbox_namespace == args.sandbox_namespace
    &&& config.sandbox_image@ == given(args.sandbox_image)
    &&& config.sandbox_image_pull_policy@ == given(args.sandbox_image_pull_policy)
    &&& config.grpc_endpoint@ == given(args.grpc_endpoint)
    &&& config.ssh_gateway_host == args.ssh_gateway_host
    &&& config.ssh_gateway_port == args.ssh_gateway_port
    &&& config.ssh_connect_path == args.ssh_connect_path
    &&& config.sandbox_ssh_port == args.sandbox_ssh_port
    &&& config.ssh_handshake_secret@ == given(args.ssh_handshake_secret)
    &&& config.ssh_handshake_skew_secs == args.ssh_handshake_skew_secs
    &&& config.client_tls_secret_name@ == given(args.client_tls_secret_name)
    &&& config.host_gateway_ip@ == given(args.host_gateway_ip)
    &&& vm_config.state_dir == args.vm_driver_state_dir
    &&& vm_config.compute_driver_bin is None
    &&& vm_config.driver_dir == args.driver_dir
    &&& vm_config.krun_log_level == args.vm_krun_log_level
    &&& vm_config.vcpus == args.vm_vcpus
    &&& vm_config.mem_mib == args.vm_mem_mib
    &&& vm_config.guest_tls_ca == args.vm_tls_ca
    &&& vm_config.guest_tls_cert == args.vm_tls_cert
    &&& vm_config.guest_tls_key == args.vm_tls_key
    &&& vm_config.mksquashfs_bin is None
}

fn server_tls(tls: ServerTlsArgs) -> (r: Result<Option<TlsConfig>, CliError>)
    ensures
        r == tls_of(tls),
{
    if tls.disable {
        return Ok(None);
    }
    let cert_path: UnixPath = match tls.cert {
        Some(path) => path,
        None => {
            return Err(CliError::MissingCert);
        },
    };
    let key_path: UnixPath = match tls.key {
        Some(path) => path,
        None => {
            return Err(CliError::MissingKey);
        },
    };
    let client_ca_path: UnixPath = match tls.client_ca {
        Some(path) => path,
        None => {
            return Err(CliError::MissingClientCa);
        },
    };
    Ok(
        Some(
            TlsConfig {
                cert_path,
                key_path,
                client_ca_path,
                allow_unauthenticated: tls.disable_gateway_auth,
            },
        ),
    )
}

/// The configurations that the options come to; an error where TLS is on and
/// one of its files is not given.
pub fn run_from_args(args: GatewayArgs) -> (r: Result<(Config, VmComputeConfig), CliError>)
    ensures
        match r {
            Ok((config, vm_config)) => configures(args, config, vm_config),
            Err(e) => tls_of(args.server.tls) == Err::<Option<TlsConfig>, CliError>(e),
        },
{
    let tls: Option<TlsConfig> = match server_tls(args.server.tls) {
        Ok(tls) => tls,
        Err(e) => {
            return Err(e);
        },
    };
    let mut config: Config = Config::new(tls).with_bind_address(
        BindAddress::any(args.server.port),
    ).with_health_bind_address(BindAddress::any(args.health.port)).with_log_level(
        args.log_level,
    ).with_database_url(args.db_url).with_compute_drivers(args.drivers).with_sandbox_namespace(
        args.sandbox_namespace,
    ).with_ssh_gateway_host(args.ssh_gateway_host).with_ssh_gateway_port(
        args.ssh_gateway_port,
    ).with_ssh_connect_path(args.ssh_connect_path).with_sandbox_ssh_port(
        args.sandbox_ssh_port,
    ).with_ssh_handshake_skew_secs(args.ssh_handshake_skew_secs);
    match args.sandbox_image {
        Some(image) => {
            config = config.with_sandbox_image(image);
        },
        None => {},
    }
    match args.sandbox_image_pull_policy {
        Some(policy) => {
            config = config.with_sandbox_image_pull_policy(policy);
        },
        None => {},
    }
    match args.grpc_endpoint {
        Some(endpoint) => {
            config = config.with_grpc_endpoint(endpoint);
        },
        None => {},
    }
    match args.ssh_handshake_secret {
        Some(secret) => {
            config = config.with_ssh_handshake_secret(secret);
        },
        None => {},
    }
    match args.client_tls_secret_name {
        Some(name) => {
            config = config.with_client_tls_secret_name(name);
        },
        None => {},
    }
    match args.host_gateway_ip {
        Some(ip) => {
            config = config.with_host_gateway_ip(ip);
        },
        None => {},
    }
    let vm_config: VmComputeConfig = VmComputeConfig {
        state_dir: args.vm_driver_state_dir,
        compute_driver_bin: None,
        driver_dir: args.driver_dir,
        krun_log_level: args.vm_krun_log_level,
        vcpus: args.vm_vcpus,
        mem_mib: args.vm_mem_mib,
        guest_tls_ca: args.vm_tls_ca,
        guest_tls_cert: args.vm_tls_cert,
        guest_tls_key: args.vm_tls_key,
        mksquashfs_bin: None,
    };
    Ok((config, vm_config))
}

// ---------------------------------------------------------------------
// Laws
// ---------------------------------------------------------------------
/// When the main listener has TLS: it has none exactly where that is asked for;
/// else the certificate, the key and the client CA must all be given, each is
/// used as what it is, and clients need a certificate of their own unless that is
/// switched off. The error names the first option that is missing.
pub proof fn law_server_tls(tls: ServerTlsArgs)
    ensures
        tls.disable <==> tls_of(tls) == Ok::<Option<TlsConfig>, CliError>(None),
        tls_of(tls) is Ok <==> tls.disable || (tls.cert is Some && tls.key is Some && tls.client_ca
            is Some),
        tls_of(tls) matches Ok(Some(t)) ==> tls.cert == Some(t.cert_path) && tls.key == Some(
            t.key_path,
        ) && tls.client_ca == Some(t.client_ca_path) && t.allow_unauthenticated
            == tls.disable_gateway_auth,
        tls_of(tls) matches Err(e) ==> if tls.cert is None {
            occurs_in("--server.tls.cert "@, e.text())
        } else if tls.key is None {
            occurs_in("--server.tls.key "@, e.text())
        } else {
            occurs_in("--server.tls.client-ca "@, e.text())
        },
{
    reveal_strlit("--server.tls.cert ");
    reveal_strlit("--server.tls.key ");
    reveal_strlit("--server.tls.client-ca ");
    reveal_strlit(
        "--server.tls.cert is required when TLS is enabled (use --server.tls.disable / --disable-tls for plaintext)",
    );
    reveal_strlit(
        "--server.tls.key is required when TLS is enabled (use --server.tls.disable / --disable-tls for plaintext)",
    );
    reveal_strlit(
        "--server.tls.client-ca is required when TLS is enabled (use --server.tls.disable / --disable-tls for plaintext)",
    );
    match tls_of(tls) {
        Err(e) => {
            if tls.cert is None {
                lemma_occurs_at("--server.tls.cert "@, e.text(), 0);
            } else if tls.key is None {
                lemma_occurs_at("--server.tls.key "@, e.text(), 0);
            } else {
                lemma_occurs_at("--server.tls.client-ca "@, e.text(), 0);
            }
        },
        _ => {},
    }
}

/// Whether an option's text is the configured one; none counts as empty.
pub open spec fn option_is(option: Option<String>, text: Seq<char>) -> bool {
    match option {
        Some(t) => text == t@,
        None => text.len() == 0,
    }
}

/// Every option reaches its own setting: both listeners take all interfaces with
/// their own ports, and what is not given is empty.
pub proof fn law_options_reach_the_config(
    args: GatewayArgs,
    config: Config,
    vm_config: VmComputeConfig,
)
    requires
        configures(args, config, vm_config),
    ensures
        config.bind_address.port == args.server.port,
        config.bind_address.octets == (0u8, 0u8, 0u8, 0u8),
        config.health_bind_address.port == args.health.port,
        config.health_bind_address.octets == (0u8, 0u8, 0u8, 0u8),
        config.tls is None <==> args.server.tls.disable,
        config.log_level@ == args.log_level@,
        config.database_url@ == args.db_url@,
        config.compute_drivers@ == args.drivers@,
        config.sandbox_namespace@ == args.sandbox_namespace@,
        config.ssh_gateway_host@ == args.ssh_gateway_host@,
        config.ssh_gateway_port == args.ssh_gateway_port,
        config.ssh_connect_path@ == args.ssh_connect_path@,
        config.sandbox_ssh_port == args.sandbox_ssh_port,
        config.ssh_handshake_skew_secs == args.ssh_handshake_skew_secs,
        option_is(args.sandbox_image, config.sandbox_image@),
        option_is(args.sandbox_image_pull_policy, config.sandbox_image_pull_policy@),
        option_is(args.grpc_endpoint, config.grpc_endpoint@),
        option_is(args.ssh_handshake_secret, config.ssh_handshake_secret@),
        option_is(args.client_tls_secret_name, config.client_tls_secret_name@),
        option_is(args.host_gateway_ip, config.host_gateway_ip@),
        vm_config.state_dir@ == args.vm_driver_state_dir@,
        vm_config.driver_dir == args.driver_dir,
        vm_config.krun_log_level == args.vm_krun_log_level,
        vm_config.vcpus == args.vm_vcpus,
        vm_config.mem_mib == args.vm_mem_mib,
        vm_config.guest_tls_ca == args.vm_tls_ca,
        vm_config.guest_tls_cert == args.vm_tls_cert,
        vm_config.guest_tls_key == args.vm_tls_key,
{
    reveal_strlit("");
    law_server_tls(args.server.tls);
}

/// From the gateway's command line to the driver's: the CPUs, the memory and the
/// log levels, the endpoint, the image and the secret that the gateway was given
/// are what it hands to its driver.
pub proof fn law_options_reach_the_driver(
    args: GatewayArgs,
    config: Config,
    vm_config: VmComputeConfig,
    socket: Seq<u8>,
    tls: Option<VmGuestTlsPaths>,
)
    requires
        configures(args, config, vm_config),
    ensures
        ({
            let argv = driver_argv(config, vm_config, socket, tls);
            &&& sets(argv, "--log-level"@, encode_utf8(args.log_level@))
            &&& sets(argv, "--state-dir"@, args.vm_driver_state_dir@)
            &&& args.grpc_endpoint matches Some(t) ==> sets(
                argv,
                "--openshell-endpoint"@,
                encode_utf8(t@),
            )
            &&& args.sandbox_image matches Some(t) ==> sets(
                argv,
                "--default-image"@,
                encode_utf8(t@),
            )
            &&& args.ssh_handshake_secret matches Some(t) ==> sets(
                argv,
                "--ssh-handshake-secret"@,
                encode_utf8(t@),
            )
            &&& exists|v: Seq<u8>| #[trigger]
                sets(argv, "--vcpus"@, v) && reads_as(v, args.vm_vcpus as nat)
            &&& exists|v: Seq<u8>| #[trigger]
                sets(argv, "--mem-mib"@, v) && reads_as(v, args.vm_mem_mib as nat)
            &&& exists|v: Seq<u8>| #[trigger]
                sets(argv, "--krun-log-level"@, v) && reads_as(v, args.vm_krun_log_level as nat)
        }),
{
    lemma_told(args, config, vm_config, driver_argv(config, vm_config, socket, tls), socket, tls);
}

proof fn lemma_told(
    args: GatewayArgs,
    config: Config,
    vm_config: VmComputeConfig,
    argv: Seq<Seq<u8>>,
    socket: Seq<u8>,
    tls: Option<VmGuestTlsPaths>,
)
    requires
        configures(args, config, vm_config),
        argv == driver_argv(config, vm_config, socket, tls),
    ensures
        sets(argv, "--log-level"@, encode_utf8(args.log_level@)),
        sets(argv, "--state-dir"@, args.vm_driver_state_dir@),
        args.grpc_endpoint matches Some(t) ==> sets(
            argv,
            "--openshell-endpoint"@,
            encode_utf8(t@),
        ),
        args.sandbox_image matches Some(t) ==> sets(argv, "--default-image"@, encode_utf8(t@)),
        args.ssh_handshake_secret matches Some(t) ==> sets(
            argv,
            "--ssh-handshake-secret"@,
            encode_utf8(t@),
        ),
        exists|v: Seq<u8>| #[trigger]
            sets(argv, "--vcpus"@, v) && reads_as(v, args.vm_vcpus as nat),
        exists|v: Seq<u8>| #[trigger]
            sets(argv, "--mem-mib"@, v) && reads_as(v, args.vm_mem_mib as nat),
        exists|v: Seq<u8>| #[trigger]
            sets(argv, "--krun-log-level"@, v) && reads_as(v, args.vm_krun_log_level as nat),
{
    law_driver_told_all(config, vm_config, socket, tls);
}

} // verus!
