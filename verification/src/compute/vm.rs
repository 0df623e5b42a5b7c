//! Launching the VM compute driver and waiting for it.
//!
//! The gateway runs `openshell-driver-vm` as a child process and speaks to it
//! over a Unix domain socket. What follows resolves the driver binary, checks
//! the guest's TLS material, puts the driver's arguments together, and decides
//! how long to wait for the driver.

use crate::config::{Config, TlsConfig};
use crate::path::{
    byte_lists, components, copy_bytes, copy_path_opt, join_text, law_join_adds_a_step,
    law_parent_drops_last_step, lemma_utf8_injective, lossy_text, parent_path, path_opt, Part,
    UnixPath,
};
use crate::text::{
    chars_of, concat3, decimal, decimal_text, law_trimmed, lemma_occurs, lemma_occurs_at,
    lemma_parse_of_decimal, occurs_in, owned, parsed_number, starts_with, trim, trimmed, white_space,
};
use vstd::prelude::*;
use vstd::utf8::*;

verus! {

/// Configuration of the VM compute driver.
#[derive(Debug)]
pub struct VmComputeConfig {
    /// Directory for the state of sandboxes.
    pub state_dir: UnixPath,
    /// Path of the `openshell-driver-vm` binary, where it is given.
    pub compute_driver_bin: Option<UnixPath>,
    /// Directory with driver binaries, used where no binary is given.
    pub driver_dir: Option<UnixPath>,
    /// libkrun log level of the driver.
    pub krun_log_level: u32,
    /// vCPUs of a sandbox.
    pub vcpus: u8,
    /// Memory of a sandbox, in MiB.
    pub mem_mib: u32,
    /// CA certificate of the guest's client bundle.
    pub guest_tls_ca: Option<UnixPath>,
    /// Client certificate of the guest's client bundle.
    pub guest_tls_cert: Option<UnixPath>,
    /// Private key of the guest's client bundle.
    pub guest_tls_key: Option<UnixPath>,
    /// Path of the `mksquashfs` binary. Where it is not given the driver goes
    /// by its environment.
    pub mksquashfs_bin: Option<UnixPath>,
}

impl VmComputeConfig {
    /// Directory for the state of sandboxes where none is configured.
    pub fn default_state_dir() -> (r: UnixPath)
        ensures
            r@ == encode_utf8("target/openshell-vm-driver"@),
    {
        UnixPath::new("target/openshell-vm-driver")
    }

    /// libkrun log level where none is configured.
    pub fn default_krun_log_level() -> (r: u32)
        ensures
            r == 1,
    {
        1
    }

    /// vCPUs where none are configured.
    pub fn default_vcpus() -> (r: u8)
        ensures
            r == 2,
    {
        2
    }

    /// Memory in MiB where none is configured.
    pub fn default_mem_mib() -> (r: u32)
        ensures
            r == 2048,
    {
        2048
    }
}

impl Default for VmComputeConfig {
    fn default() -> (r: Self)
        ensures
            r.state_dir@ == encode_utf8("target/openshell-vm-driver"@),
            r.compute_driver_bin is None,
            r.driver_dir is None,
            r.krun_log_level == 1,
            r.vcpus == 2,
            r.mem_mib == 2048,
            r.guest_tls_ca is None,
            r.guest_tls_cert is None,
            r.guest_tls_key is None,
            r.mksquashfs_bin is None,
    {
        VmComputeConfig {
            state_dir: VmComputeConfig::default_state_dir(),
            compute_driver_bin: None,
            driver_dir: None,
            krun_log_level: VmComputeConfig::default_krun_log_level(),
            vcpus: VmComputeConfig::default_vcpus(),
            mem_mib: VmComputeConfig::default_mem_mib(),
            guest_tls_ca: None,
            guest_tls_cert: None,
            guest_tls_key: None,
            mksquashfs_bin: None,
        }
    }
}

/// Why the driver cannot be used.
#[derive(Debug, PartialEq, Eq)]
pub enum DriverError {
    /// The configuration does not allow it.
    Config(String),
    /// Running it failed.
    Execution(String),
}

impl DriverError {
    /// The error as text.
    pub open spec fn text(self) -> Seq<char> {
        match self {
            DriverError::Config(message) => message@,
            DriverError::Execution(message) => message@,
        }
    }

    /// The error as text.
    pub fn message(&self) -> (r: String)
        ensures
            r@ == self.text(),
    {
        match self {
            DriverError::Config(message) => message.clone(),
            DriverError::Execution(message) => message.clone(),
        }
    }
}

/// Whether an error is one of configuration with the given text.
pub open spec fn config_error(e: DriverError, text: Seq<char>) -> bool {
    e matches DriverError::Config(message) && message@ == text
}

/// Whether an error is one of execution with the given text.
pub open spec fn execution_error(e: DriverError, text: Seq<char>) -> bool {
    e matches DriverError::Execution(message) && message@ == text
}

// ---------------------------------------------------------------------
// Driver binary
// ---------------------------------------------------------------------
/// Where the driver binary should be: the path that is given, else in the
/// driver directory, else beside the gateway's own executable. `current_exe`
/// is the path of that executable, or why it is not known.
///
/// No other directory is searched: a gateway runs the driver that it was
/// installed with, whatever another installation has left on the host.
pub open spec fn driver_bin(
    vm_config: VmComputeConfig,
    current_exe: Result<UnixPath, String>,
) -> Result<Seq<u8>, Seq<char>> {
    match vm_config.compute_driver_bin {
        Some(path) => Ok(path@),
        None => match vm_config.driver_dir {
            Some(dir) => Ok(join_text(dir@, "openshell-driver-vm"@)),
            None => match current_exe {
                Err(e) => Err("failed to resolve current executable: "@ + e@),
                Ok(exe) => match parent_path(exe@) {
                    Some(parent) => Ok(join_text(parent, "openshell-driver-vm"@)),
                    None => Err(
                        "current executable '"@ + lossy_text(exe@) + "' has no parent directory"@,
                    ),
                },
            },
        },
    }
}

/// Where the driver binary should be.
pub fn driver_bin_path(
    vm_config: &VmComputeConfig,
    current_exe: &Result<UnixPath, String>,
) -> (r: Result<UnixPath, DriverError>)
    ensures
        match r {
            Ok(path) => driver_bin(*vm_config, *current_exe) == Ok::<Seq<u8>, Seq<char>>(path@),
            Err(e) => driver_bin(*vm_config, *current_exe) matches Err(text) && config_error(
                e,
                text,
            ),
        },
{
    match &vm_config.compute_driver_bin {
        Some(path) => {
            return Ok(path.clone());
        },
        None => {},
    }
    match &vm_config.driver_dir {
        Some(dir) => {
            return Ok(dir.join("openshell-driver-vm"));
        },
        None => {},
    }
    match current_exe {
        Err(e) => Err(
            DriverError::Config(
                crate::text::concat("failed to resolve current executable: ", e.as_str()),
            ),
        ),
        Ok(exe) => match exe.parent() {
            Some(parent) => Ok(parent.join("openshell-driver-vm")),
            None => Err(
                DriverError::Config(
                    concat3(
                        "current executable '",
                        exe.display().as_str(),
                        "' has no parent directory",
                    ),
                ),
            ),
        },
    }
}

/// The text that there is no driver binary.
pub open spec fn missing_bin_text(path: Seq<u8>) -> Seq<char> {
    "vm compute driver binary '"@ + lossy_text(path)
        + "' does not exist; set --vm-compute-driver-bin or OPENSHELL_VM_COMPUTE_DRIVER_BIN"@
}

/// Resolves the driver binary. `is_file` says whether a file stands where the
/// binary should be.
pub fn resolve_compute_driver_bin(
    vm_config: &VmComputeConfig,
    current_exe: &Result<UnixPath, String>,
    is_file: bool,
) -> (r: Result<UnixPath, DriverError>)
    ensures
        match driver_bin(*vm_config, *current_exe) {
            Err(text) => r matches Err(e) && config_error(e, text),
            Ok(path) => if is_file {
                r matches Ok(p) && p@ == path
            } else {
                r matches Err(e) && config_error(e, missing_bin_text(path))
            },
        },
{
    let path: UnixPath = match driver_bin_path(vm_config, current_exe) {
        Ok(path) => path,
        Err(e) => {
            return Err(e);
        },
    };
    if !is_file {
        return Err(
            DriverError::Config(
                concat3(
                    "vm compute driver binary '",
                    path.display().as_str(),
                    "' does not exist; set --vm-compute-driver-bin or OPENSHELL_VM_COMPUTE_DRIVER_BIN",
                ),
            ),
        );
    }
    Ok(path)
}

/// Path of the socket that the driver listens on.
pub fn compute_driver_socket_path(vm_config: &VmComputeConfig) -> (r: UnixPath)
    ensures
        r@ == join_text(vm_config.state_dir@, "compute-driver.sock"@),
{
    vm_config.state_dir.join("compute-driver.sock")
}

// ---------------------------------------------------------------------
// Guest TLS
// ---------------------------------------------------------------------
/// The guest's client bundle.
#[derive(Debug, PartialEq, Eq)]
pub struct VmGuestTlsPaths {
    pub ca: UnixPath,
    pub cert: UnixPath,
    pub key: UnixPath,
}

/// Which paths of the guest's client bundle are files.
#[derive(Debug, Clone, Copy, PartialEq, Eq, Structural)]
pub struct TlsFileFacts {
    pub ca_is_file: bool,
    pub cert_is_file: bool,
    pub key_is_file: bool,
}

/// Whether the gateway's endpoint asks guests for TLS.
pub open spec fn endpoint_uses_tls(endpoint: Seq<char>) -> bool {
    "https://"@.is_prefix_of(endpoint)
}

/// The text that a file of the bundle is missing.
pub open spec fn missing_tls_text(path: Seq<u8>) -> Seq<char> {
    "vm guest TLS material '"@ + lossy_text(path) + "' does not exist or is not a file"@
}

/// Why the guest's client bundle cannot be used, where the endpoint asks for
/// one.
pub open spec fn guest_tls_fault(vm_config: VmComputeConfig, facts: TlsFileFacts) -> Option<
    Seq<char>,
> {
    match (vm_config.guest_tls_ca, vm_config.guest_tls_cert, vm_config.guest_tls_key) {
        (None, None, None) => Some(
            "vm compute driver requires --vm-tls-ca, --vm-tls-cert, and --vm-tls-key when OPENSHELL_GRPC_ENDPOINT uses https://"@,
        ),
        (None, _, _) => Some(
            "--vm-tls-ca is required when VM guest TLS materials are configured"@,
        ),
        (_, None, _) => Some(
            "--vm-tls-cert is required when VM guest TLS materials are configured"@,
        ),
        (_, _, None) => Some(
            "--vm-tls-key is required when VM guest TLS materials are configured"@,
        ),
        (Some(ca), Some(cert), Some(key)) => if !facts.ca_is_file {
            Some(missing_tls_text(ca@))
        } else if !facts.cert_is_file {
            Some(missing_tls_text(cert@))
        } else if !facts.key_is_file {
            Some(missing_tls_text(key@))
        } else {
            None
        },
    }
}

fn missing_tls(path: &UnixPath) -> (r: DriverError)
    ensures
        config_error(r, missing_tls_text(path@)),
{
    DriverError::Config(
        concat3(
            "vm guest TLS material '",
            path.display().as_str(),
            "' does not exist or is not a file",
        ),
    )
}

/// The guest's client bundle: none where the endpoint asks for none, else the
/// configured one, whose three files must be there.
pub fn compute_driver_guest_tls_paths(
    config: &Config,
    vm_config: &VmComputeConfig,
    facts: TlsFileFacts,
) -> (r: Result<Option<VmGuestTlsPaths>, DriverError>)
    ensures
        if !endpoint_uses_tls(config.grpc_endpoint@) {
            r matches Ok(None)
        } else {
            match guest_tls_fault(*vm_config, facts) {
                Some(text) => r matches Err(e) && config_error(e, text),
                None => r matches Ok(Some(paths)) && Some(paths.ca@) == path_opt(
                    vm_config.guest_tls_ca,
                ) && Some(paths.cert@) == path_opt(vm_config.guest_tls_cert) && Some(paths.key@)
                    == path_opt(vm_config.guest_tls_key),
            }
        },
{
    if !starts_with(config.grpc_endpoint.as_str(), "https://") {
        return Ok(None);
    }
    if vm_config.guest_tls_ca.is_none() && vm_config.guest_tls_cert.is_none()
        && vm_config.guest_tls_key.is_none() {
        return Err(
            DriverError::Config(
                owned(
                    "vm compute driver requires --vm-tls-ca, --vm-tls-cert, and --vm-tls-key when OPENSHELL_GRPC_ENDPOINT uses https://",
                ),
            ),
        );
    }
    let ca: UnixPath = match copy_path_opt(&vm_config.guest_tls_ca) {
        Some(path) => path,
        None => {
            return Err(
                DriverError::Config(
                    owned("--vm-tls-ca is required when VM guest TLS materials are configured"),
                ),
            );
        },
    };
    let cert: UnixPath = match copy_path_opt(&vm_config.guest_tls_cert) {
        Some(path) => path,
        None => {
            return Err(
                DriverError::Config(
                    owned("--vm-tls-cert is required when VM guest TLS materials are configured"),
                ),
            );
        },
    };
    let key: UnixPath = match copy_path_opt(&vm_config.guest_tls_key) {
        Some(path) => path,
        None => {
            return Err(
                DriverError::Config(
                    owned("--vm-tls-key is required when VM guest TLS materials are configured"),
                ),
            );
        },
    };
    if !facts.ca_is_file {
        return Err(missing_tls(&ca));
    }
    if !facts.cert_is_file {
        return Err(missing_tls(&cert));
    }
    if !facts.key_is_file {
        return Err(missing_tls(&key));
    }
    Ok(Some(VmGuestTlsPaths { ca, cert, key }))
}

// ---------------------------------------------------------------------
// Driver arguments
// ---------------------------------------------------------------------
/// A flag and its value.
pub open spec fn flag_value(flag: Seq<char>, value: Seq<u8>) -> Seq<Seq<u8>> {
    seq![encode_utf8(flag), value]
}

/// The arguments for the guest's client bundle.
pub open spec fn tls_args(tls: Option<VmGuestTlsPaths>) -> Seq<Seq<u8>> {
    match tls {
        Some(paths) => flag_value("--guest-tls-ca"@, paths.ca@) + flag_value(
            "--guest-tls-cert"@,
            paths.cert@,
        ) + flag_value("--guest-tls-key"@, paths.key@),
        None => Seq::empty(),
    }
}

/// The arguments for the `mksquashfs` binary.
pub open spec fn mksquashfs_args(path: Option<UnixPath>) -> Seq<Seq<u8>> {
    match path {
        Some(p) => flag_value("--mksquashfs-bin"@, p@),
        None => Seq::empty(),
    }
}

/// The arguments of the driver.
pub open spec fn driver_argv(
    config: Config,
    vm_config: VmComputeConfig,
    socket: Seq<u8>,
    tls: Option<VmGuestTlsPaths>,
) -> Seq<Seq<u8>> {
    flag_value("--bind-socket"@, socket) + flag_value(
        "--log-level"@,
        encode_utf8(config.log_level@),
    ) + flag_value("--openshell-endpoint"@, encode_utf8(config.grpc_endpoint@)) + flag_value(
        "--state-dir"@,
        vm_config.state_dir@,
    ) + flag_value("--ssh-handshake-secret"@, encode_utf8(config.ssh_handshake_secret@))
        + flag_value(
        "--ssh-handshake-skew-secs"@,
        encode_utf8(decimal(config.ssh_handshake_skew_secs as nat)),
    ) + flag_value("--krun-log-level"@, encode_utf8(decimal(vm_config.krun_log_level as nat)))
        + flag_value("--vcpus"@, encode_utf8(decimal(vm_config.vcpus as nat))) + flag_value(
        "--mem-mib"@,
        encode_utf8(decimal(vm_config.mem_mib as nat)),
    ) + tls_args(tls) + flag_value("--default-image"@, encode_utf8(config.sandbox_image@))
        + mksquashfs_args(vm_config.mksquashfs_bin)
}

fn push_flag(argv: &mut Vec<Vec<u8>>, flag: &str, value: Vec<u8>)
    ensures
        byte_lists(final(argv)@) == byte_lists(old(argv)@) + flag_value(flag@, value@),
{
    let ghost before = argv@;
    argv.push(flag.as_bytes_vec());
    argv.push(value);
    assert(byte_lists(argv@) =~= byte_lists(before) + flag_value(flag@, value@));
}

/// Puts the arguments of the driver together, without the program itself.
///
/// The sandbox image is passed in any case; an empty one means that there is
/// no default image.
pub fn build_driver_argv(
    config: &Config,
    vm_config: &VmComputeConfig,
    socket_path: &UnixPath,
    guest_tls_paths: &Option<VmGuestTlsPaths>,
) -> (r: Vec<Vec<u8>>)
    ensures
        byte_lists(r@) == driver_argv(*config, *vm_config, socket_path@, *guest_tls_paths),
{
    let mut argv: Vec<Vec<u8>> = Vec::new();
    assert(byte_lists(argv@) =~= Seq::<Seq<u8>>::empty());
    push_flag(&mut argv, "--bind-socket", copy_bytes(&socket_path.bytes));
    assert(byte_lists(argv@) =~= flag_value("--bind-socket"@, socket_path@));
    push_flag(&mut argv, "--log-level", config.log_level.as_str().as_bytes_vec());
    push_flag(&mut argv, "--openshell-endpoint", config.grpc_endpoint.as_str().as_bytes_vec());
    push_flag(&mut argv, "--state-dir", copy_bytes(&vm_config.state_dir.bytes));
    push_flag(
        &mut argv,
        "--ssh-handshake-secret",
        config.ssh_handshake_secret.as_str().as_bytes_vec(),
    );
    push_flag(
        &mut argv,
        "--ssh-handshake-skew-secs",
        decimal_text(config.ssh_handshake_skew_secs).as_str().as_bytes_vec(),
    );
    push_flag(
        &mut argv,
        "--krun-log-level",
        decimal_text(vm_config.krun_log_level as u64).as_str().as_bytes_vec(),
    );
    push_flag(
        &mut argv,
        "--vcpus",
        decimal_text(vm_config.vcpus as u64).as_str().as_bytes_vec(),
    );
    push_flag(
        &mut argv,
        "--mem-mib",
        decimal_text(vm_config.mem_mib as u64).as_str().as_bytes_vec(),
    );
    let ghost before_tls = byte_lists(argv@);
    match guest_tls_paths {
        Some(tls) => {
            push_flag(&mut argv, "--guest-tls-ca", copy_bytes(&tls.ca.bytes));
            push_flag(&mut argv, "--guest-tls-cert", copy_bytes(&tls.cert.bytes));
            push_flag(&mut argv, "--guest-tls-key", copy_bytes(&tls.key.bytes));
        },
        None => {},
    }
    assert(byte_lists(argv@) =~= before_tls + tls_args(*guest_tls_paths));
    push_flag(&mut argv, "--default-image", config.sandbox_image.as_str().as_bytes_vec());
    let ghost before_bin = byte_lists(argv@);
    match &vm_config.mksquashfs_bin {
        Some(path) => {
            push_flag(&mut argv, "--mksquashfs-bin", copy_bytes(&path.bytes));
        },
        None => {},
    }
    assert(byte_lists(argv@) =~= before_bin + mksquashfs_args(vm_config.mksquashfs_bin));
    argv
}

// ---------------------------------------------------------------------
// Starting the driver
// ---------------------------------------------------------------------
/// What the gateway's surroundings say when the driver is started.
#[derive(Debug)]
pub struct SpawnFacts {
    /// The gateway's own executable, or why it is not known.
    pub current_exe: Result<UnixPath, String>,
    /// A file stands where the driver binary should be.
    pub bin_is_file: bool,
    pub tls_files: TlsFileFacts,
}

/// How the driver is started: create the directory, remove the stale socket,
/// run the program.
#[derive(Debug)]
pub struct SpawnPlan {
    pub create: Option<UnixPath>,
    pub socket: UnixPath,
    pub program: UnixPath,
    pub args: Vec<Vec<u8>>,
}

/// Why the driver cannot be started, by the configuration and the gateway's
/// surroundings.
pub open spec fn spawn_fault(
    config: Config,
    vm_config: VmComputeConfig,
    facts: SpawnFacts,
) -> Option<Seq<char>> {
    if trimmed(config.grpc_endpoint@).len() == 0 {
        Some("grpc_endpoint is required when using the vm compute driver"@)
    } else {
        match driver_bin(vm_config, facts.current_exe) {
            Err(text) => Some(text),
            Ok(path) => if !facts.bin_is_file {
                Some(missing_bin_text(path))
            } else if endpoint_uses_tls(config.grpc_endpoint@) {
                guest_tls_fault(vm_config, facts.tls_files)
            } else {
                None
            },
        }
    }
}

/// Whether a plan starts the driver as it is configured: the program is the
/// driver binary, the socket stands in the state directory, whose directory is
/// created first, and the guest's bundle is passed exactly where the endpoint
/// asks for TLS.
pub open spec fn starts(
    config: Config,
    vm_config: VmComputeConfig,
    facts: SpawnFacts,
    plan: SpawnPlan,
) -> bool {
    let socket = join_text(vm_config.state_dir@, "compute-driver.sock"@);
    &&& driver_bin(vm_config, facts.current_exe) == Ok::<Seq<u8>, Seq<char>>(plan.program@)
    &&& plan.socket@ == socket
    &&& path_opt(plan.create) == parent_path(socket)
    &&& exists|tls: Option<VmGuestTlsPaths>| #[trigger]
        driver_argv(config, vm_config, socket, tls) == byte_lists(plan.args@) && (
        if endpoint_uses_tls(config.grpc_endpoint@) {
            tls matches Some(paths) && Some(paths.ca@) == path_opt(vm_config.guest_tls_ca) && Some(
                paths.cert@,
            ) == path_opt(vm_config.guest_tls_cert) && Some(paths.key@) == path_opt(
                vm_config.guest_tls_key,
            )
        } else {
            tls is None
        })
}

/// How to start the driver, or why it cannot be started.
pub fn spawn(config: &Config, vm_config: &VmComputeConfig, facts: &SpawnFacts) -> (r: Result<
    SpawnPlan,
    DriverError,
>)
    ensures
        match spawn_fault(*config, *vm_config, *facts) {
            Some(text) => r matches Err(e) && config_error(e, text),
            None => r matches Ok(plan) && starts(*config, *vm_config, *facts, plan),
        },
{
    if chars_of(trim(config.grpc_endpoint.as_str())).len() == 0 {
        return Err(
            DriverError::Config(
                owned("grpc_endpoint is required when using the vm compute driver"),
            ),
        );
    }
    let program: UnixPath = match resolve_compute_driver_bin(
        vm_config,
        &facts.current_exe,
        facts.bin_is_file,
    ) {
        Ok(path) => path,
        Err(e) => {
            return Err(e);
        },
    };
    let socket: UnixPath = compute_driver_socket_path(vm_config);
    let tls: Option<VmGuestTlsPaths> = match compute_driver_guest_tls_paths(
        config,
        vm_config,
        facts.tls_files,
    ) {
        Ok(tls) => tls,
        Err(e) => {
            return Err(e);
        },
    };
    let args: Vec<Vec<u8>> = build_driver_argv(config, vm_config, &socket, &tls);
    assert(driver_argv(*config, *vm_config, socket@, tls) == byte_lists(args@));
    Ok(SpawnPlan { create: socket.parent(), socket, program, args })
}

/// What can fail while the driver is started.
#[derive(Debug, Clone, Copy, PartialEq, Eq, Structural)]
pub enum SpawnStage {
    /// Creating the directory of the socket.
    CreateDir,
    /// Removing the stale socket.
    RemoveSocket,
    /// Running the program.
    Launch,
    /// Connecting to the socket.
    Connect,
}

/// The text of a failure while the driver is started. `path` is the directory,
/// the socket or the program, whichever the stage works on.
pub open spec fn stage_text(stage: SpawnStage, path: Seq<u8>, error: Seq<char>) -> Seq<char> {
    (match stage {
        SpawnStage::CreateDir => "failed to create vm compute driver socket dir '"@,
        SpawnStage::RemoveSocket => "failed to remove stale vm compute driver socket '"@,
        SpawnStage::Launch => "failed to launch vm compute driver '"@,
        SpawnStage::Connect => "failed to connect to vm compute driver socket '"@,
    }) + lossy_text(path) + "': "@ + error
}

/// The error for a failure while the driver is started.
pub fn spawn_failure(stage: SpawnStage, path: &UnixPath, error: &str) -> (r: DriverError)
    ensures
        execution_error(r, stage_text(stage, path@, error@)),
{
    let mut message: String = match stage {
        SpawnStage::CreateDir => owned("failed to create vm compute driver socket dir '"),
        SpawnStage::RemoveSocket => owned("failed to remove stale vm compute driver socket '"),
        SpawnStage::Launch => owned("failed to launch vm compute driver '"),
        SpawnStage::Connect => owned("failed to connect to vm compute driver socket '"),
    };
    message.append(path.display().as_str());
    message.append("': ");
    message.append(error);
    DriverError::Execution(message)
}

// ---------------------------------------------------------------------
// Waiting for the driver
// ---------------------------------------------------------------------
/// How often the driver is asked whether it is ready.
pub const DRIVER_ATTEMPTS: u32 = 100;

/// Pause between two attempts, in milliseconds.
pub const DRIVER_PAUSE_MS: u64 = 100;

/// How far the wait for the driver has come.
#[derive(Debug)]
pub struct DriverWait {
    /// Attempts made.
    pub attempts: u32,
    /// Why the last attempt failed.
    pub last_error: Option<String>,
}

/// What an attempt found.
#[derive(Debug)]
pub enum DriverProbe {
    /// The process could not be asked for its status.
    PollFailed { error: String },
    /// The process has ended.
    Exited { status: String },
    /// The driver answered.
    Ready,
    /// The driver could not be reached, or did not answer.
    NotReady { error: String },
}

/// Where an attempt leads.
#[derive(Debug)]
pub enum DriverStep {
    /// The driver is ready.
    Ready,
    /// Pause, and go on.
    Wait { state: DriverWait },
    /// The wait is over.
    Failed { error: DriverError },
}

/// The text that the wait took too long.
pub open spec fn timeout_text(socket: Seq<u8>, last_error: Option<String>) -> Seq<char> {
    "timed out waiting for vm compute driver socket '"@ + lossy_text(socket) + "': "@ + (
    match last_error {
        Some(e) => e@,
        None => "unknown error"@,
    })
}

impl DriverWait {
    /// The wait before its first attempt.
    pub fn start() -> (r: DriverWait)
        ensures
            r.attempts == 0,
            r.last_error is None,
    {
        DriverWait { attempts: 0, last_error: None }
    }

    /// Whether the wait goes on with another attempt, or how it ends.
    pub fn proceed(&self, socket_path: &UnixPath) -> (r: Result<(), DriverError>)
        ensures
            match r {
                Ok(_) => self.attempts < DRIVER_ATTEMPTS,
                Err(e) => self.attempts >= DRIVER_ATTEMPTS && execution_error(
                    e,
                    timeout_text(socket_path@, self.last_error),
                ),
            },
    {
        if self.attempts < DRIVER_ATTEMPTS {
            return Ok(());
        }
        let mut message: String = owned("timed out waiting for vm compute driver socket '");
        message.append(socket_path.display().as_str());
        message.append("': ");
        match &self.last_error {
            Some(e) => {
                message.append(e.as_str());
            },
            None => {
                message.append("unknown error");
            },
        }
        Err(DriverError::Execution(message))
    }
}

/// Whether an attempt that found `probe` leads to `step`.
pub open spec fn wait_leads(state: DriverWait, probe: DriverProbe, step: DriverStep) -> bool {
    match probe {
        DriverProbe::PollFailed { error } => step matches DriverStep::Failed { error: e }
            && execution_error(e, "failed to poll vm compute driver process: "@ + error@),
        DriverProbe::Exited { status } => step matches DriverStep::Failed { error: e }
            && execution_error(
            e,
            "vm compute driver exited before becoming ready with status "@ + status@,
        ),
        DriverProbe::Ready => step == DriverStep::Ready,
        DriverProbe::NotReady { error } => step matches DriverStep::Wait { state: next }
            && next.attempts == state.attempts + 1 && next.last_error == Some(error),
    }
}

/// Where an attempt leads.
pub fn wait_for_compute_driver(state: DriverWait, probe: DriverProbe) -> (r: DriverStep)
    requires
        state.attempts < DRIVER_ATTEMPTS,
    ensures
        wait_leads(state, probe, r),
{
    match probe {
        DriverProbe::PollFailed { error } => DriverStep::Failed {
            error: DriverError::Execution(
                crate::text::concat("failed to poll vm compute driver process: ", error.as_str()),
            ),
        },
        DriverProbe::Exited { status } => DriverStep::Failed {
            error: DriverError::Execution(
                crate::text::concat(
                    "vm compute driver exited before becoming ready with status ",
                    status.as_str(),
                ),
            ),
        },
        DriverProbe::Ready => DriverStep::Ready,
        DriverProbe::NotReady { error } => DriverStep::Wait {
            state: DriverWait { attempts: state.attempts + 1, last_error: Some(error) },
        },
    }
}

// ---------------------------------------------------------------------
// Laws
// ---------------------------------------------------------------------
/// The wait ends: after [`DRIVER_ATTEMPTS`] attempts there is no other.
pub proof fn law_driver_wait_ends(state: DriverWait, probe: DriverProbe, next: DriverWait)
    requires
        state.attempts < DRIVER_ATTEMPTS,
        wait_leads(state, probe, DriverStep::Wait { state: next }),
    ensures
        DRIVER_ATTEMPTS - next.attempts < DRIVER_ATTEMPTS - state.attempts,
        DRIVER_ATTEMPTS - next.attempts >= 0,
        next.last_error is Some,
{
}

/// The guest's bundle is never the gateway's own identity: what the driver is
/// handed does not depend on the gateway's certificate and key.
pub proof fn law_guest_bundle_apart(
    config: Config,
    identity: Option<TlsConfig>,
    vm_config: VmComputeConfig,
    socket: Seq<u8>,
    tls: Option<VmGuestTlsPaths>,
)
    ensures
        driver_argv((Config { tls: identity, ..config }), vm_config, socket, tls) == driver_argv(
            config,
            vm_config,
            socket,
            tls,
        ),
{
}

/// The flags of the driver, in order.
pub open spec fn driver_flags(tls: bool, mksquashfs: bool) -> Seq<Seq<char>> {
    seq![
        "--bind-socket"@,
        "--log-level"@,
        "--openshell-endpoint"@,
        "--state-dir"@,
        "--ssh-handshake-secret"@,
        "--ssh-handshake-skew-secs"@,
        "--krun-log-level"@,
        "--vcpus"@,
        "--mem-mib"@,
    ] + (if tls {
        seq!["--guest-tls-ca"@, "--guest-tls-cert"@, "--guest-tls-key"@]
    } else {
        Seq::<Seq<char>>::empty()
    }) + seq!["--default-image"@] + if mksquashfs {
        seq!["--mksquashfs-bin"@]
    } else {
        Seq::<Seq<char>>::empty()
    }
}

/// Every second argument is a flag, and each flag stands once: the guest's
/// bundle is passed whole or not at all, the default image is passed in any
/// case, and `--mksquashfs-bin` exactly where it is configured.
pub proof fn law_driver_flags(
    config: Config,
    vm_config: VmComputeConfig,
    socket: Seq<u8>,
    tls: Option<VmGuestTlsPaths>,
)
    ensures
        ({
            let argv = driver_argv(config, vm_config, socket, tls);
            let flags = driver_flags(tls is Some, vm_config.mksquashfs_bin is Some);
            &&& argv.len() == 2 * flags.len()
            &&& forall|i: int|
                0 <= i < flags.len() ==> argv[2 * i] == encode_utf8(#[trigger] flags[i])
            &&& argv[2 * (flags.len() - (if vm_config.mksquashfs_bin is Some {
                2int
            } else {
                1
            })) + 1] == encode_utf8(config.sandbox_image@)
        }),
{
    let argv = driver_argv(config, vm_config, socket, tls);
    let flags = driver_flags(tls is Some, vm_config.mksquashfs_bin is Some);
    assert forall|i: int| 0 <= i < flags.len() implies argv[2 * i] == encode_utf8(
        #[trigger] flags[i],
    ) by {
        assert(i == 0 || i == 1 || i == 2 || i == 3 || i == 4 || i == 5 || i == 6 || i == 7 || i
            == 8 || i == 9 || i == 10 || i == 11 || i == 12 || i == 13);
    }
}

/// Whether a flag stands among the arguments, at a place for flags, and `value`
/// is the argument behind it.
pub open spec fn sets(argv: Seq<Seq<u8>>, flag: Seq<char>, value: Seq<u8>) -> bool {
    exists|i: int| #[trigger] flag_at(argv, i, flag, value)
}

/// Whether the flag with number `i` and the argument behind it are these.
pub open spec fn flag_at(argv: Seq<Seq<u8>>, i: int, flag: Seq<char>, value: Seq<u8>) -> bool {
    0 <= i && 2 * i + 1 < argv.len() && argv[2 * i] == encode_utf8(flag) && argv[2 * i + 1] == value
}

/// Whether bytes are a number in decimal digits.
pub open spec fn reads_as(bytes: Seq<u8>, n: nat) -> bool {
    exists|text: Seq<char>| #[trigger]
        encode_utf8(text) == bytes && parsed_number(text) == Some(n)
}

/// What stands behind a flag of the driver is its own setting: the socket, the
/// log level, the endpoint, the state directory, the secret, the image and the
/// bundle as they are configured, and the numbers as texts that read as the
/// configured numbers.
pub proof fn law_driver_settings(
    config: Config,
    vm_config: VmComputeConfig,
    socket: Seq<u8>,
    tls: Option<VmGuestTlsPaths>,
    i: int,
)
    requires
        0 <= i && 2 * i + 1 < driver_argv(config, vm_config, socket, tls).len(),
    ensures
        ({
            let argv = driver_argv(config, vm_config, socket, tls);
            let flag = argv[2 * i];
            let value = argv[2 * i + 1];
            ||| flag == encode_utf8("--bind-socket"@) && value == socket
            ||| flag == encode_utf8("--log-level"@) && value == encode_utf8(config.log_level@)
            ||| flag == encode_utf8("--openshell-endpoint"@) && value == encode_utf8(
                config.grpc_endpoint@,
            )
            ||| flag == encode_utf8("--state-dir"@) && value == vm_config.state_dir@
            ||| flag == encode_utf8("--ssh-handshake-secret"@) && value == encode_utf8(
                config.ssh_handshake_secret@,
            )
            ||| flag == encode_utf8("--ssh-handshake-skew-secs"@) && reads_as(
                value,
                config.ssh_handshake_skew_secs as nat,
            )
            ||| flag == encode_utf8("--krun-log-level"@) && reads_as(
                value,
                vm_config.krun_log_level as nat,
            )
            ||| flag == encode_utf8("--vcpus"@) && reads_as(value, vm_config.vcpus as nat)
            ||| flag == encode_utf8("--mem-mib"@) && reads_as(value, vm_config.mem_mib as nat)
            ||| flag == encode_utf8("--default-image"@) && value == encode_utf8(
                config.sandbox_image@,
            )
            ||| flag == encode_utf8("--guest-tls-ca"@) && (tls matches Some(paths) && value
                == paths.ca@)
            ||| flag == encode_utf8("--guest-tls-cert"@) && (tls matches Some(paths) && value
                == paths.cert@)
            ||| flag == encode_utf8("--guest-tls-key"@) && (tls matches Some(paths) && value
                == paths.key@)
            ||| flag == encode_utf8("--mksquashfs-bin"@) && (
            vm_config.mksquashfs_bin matches Some(path) && value == path@)
        }),
{
    lemma_reads(config, vm_config);
    let argv = driver_argv(config, vm_config, socket, tls);
    assert(argv.len() <= 28);
    assert(i == 0 || i == 1 || i == 2 || i == 3 || i == 4 || i == 5 || i == 6 || i == 7 || i == 8
        || i == 9 || i == 10 || i == 11 || i == 12 || i == 13);
}

proof fn lemma_reads(config: Config, vm_config: VmComputeConfig)
    ensures
        reads_as(
            encode_utf8(decimal(config.ssh_handshake_skew_secs as nat)),
            config.ssh_handshake_skew_secs as nat,
        ),
        reads_as(
            encode_utf8(decimal(vm_config.krun_log_level as nat)),
            vm_config.krun_log_level as nat,
        ),
        reads_as(encode_utf8(decimal(vm_config.vcpus as nat)), vm_config.vcpus as nat),
        reads_as(encode_utf8(decimal(vm_config.mem_mib as nat)), vm_config.mem_mib as nat),
{
    lemma_parse_of_decimal(config.ssh_handshake_skew_secs as nat);
    lemma_parse_of_decimal(vm_config.krun_log_level as nat);
    lemma_parse_of_decimal(vm_config.vcpus as nat);
    lemma_parse_of_decimal(vm_config.mem_mib as nat);
}

/// Every setting of the driver is among its arguments, behind its flag.
pub proof fn law_driver_told_all(
    config: Config,
    vm_config: VmComputeConfig,
    socket: Seq<u8>,
    tls: Option<VmGuestTlsPaths>,
)
    ensures
        ({
            let argv = driver_argv(config, vm_config, socket, tls);
            &&& sets(argv, "--bind-socket"@, socket)
            &&& sets(argv, "--log-level"@, encode_utf8(config.log_level@))
            &&& sets(argv, "--openshell-endpoint"@, encode_utf8(config.grpc_endpoint@))
            &&& sets(argv, "--state-dir"@, vm_config.state_dir@)
            &&& sets(argv, "--ssh-handshake-secret"@, encode_utf8(config.ssh_handshake_secret@))
            &&& sets(argv, "--default-image"@, encode_utf8(config.sandbox_image@))
            &&& exists|v: Seq<u8>| #[trigger]
                sets(argv, "--ssh-handshake-skew-secs"@, v) && reads_as(
                    v,
                    config.ssh_handshake_skew_secs as nat,
                )
            &&& exists|v: Seq<u8>| #[trigger]
                sets(argv, "--krun-log-level"@, v) && reads_as(v, vm_config.krun_log_level as nat)
            &&& exists|v: Seq<u8>| #[trigger]
                sets(argv, "--vcpus"@, v) && reads_as(v, vm_config.vcpus as nat)
            &&& exists|v: Seq<u8>| #[trigger]
                sets(argv, "--mem-mib"@, v) && reads_as(v, vm_config.mem_mib as nat)
            &&& tls matches Some(paths) ==> sets(argv, "--guest-tls-ca"@, paths.ca@) && sets(
                argv,
                "--guest-tls-cert"@,
                paths.cert@,
            ) && sets(argv, "--guest-tls-key"@, paths.key@)
            &&& vm_config.mksquashfs_bin matches Some(path) ==> sets(
                argv,
                "--mksquashfs-bin"@,
                path@,
            )
        }),
{
    lemma_reads(config, vm_config);
    let argv = driver_argv(config, vm_config, socket, tls);
    assert(flag_at(argv, 0, "--bind-socket"@, argv[2int * 0 + 1]));
    assert(flag_at(argv, 1, "--log-level"@, argv[2int * 1 + 1]));
    assert(flag_at(argv, 2, "--openshell-endpoint"@, argv[2int * 2 + 1]));
    assert(flag_at(argv, 3, "--state-dir"@, argv[2int * 3 + 1]));
    assert(flag_at(argv, 4, "--ssh-handshake-secret"@, argv[2int * 4 + 1]));
    assert(flag_at(argv, 5, "--ssh-handshake-skew-secs"@, argv[2int * 5 + 1]));
    assert(sets(argv, "--ssh-handshake-skew-secs"@, argv[11]));
    assert(flag_at(argv, 6, "--krun-log-level"@, argv[2int * 6 + 1]));
    assert(sets(argv, "--krun-log-level"@, argv[13]));
    assert(flag_at(argv, 7, "--vcpus"@, argv[2int * 7 + 1]));
    assert(sets(argv, "--vcpus"@, argv[15]));
    assert(flag_at(argv, 8, "--mem-mib"@, argv[2int * 8 + 1]));
    assert(sets(argv, "--mem-mib"@, argv[17]));
    let n: int = if tls is Some {
        12
    } else {
        9
    };
    if tls is Some {
        assert(flag_at(argv, 9, "--guest-tls-ca"@, argv[2int * 9 + 1]));
        assert(flag_at(argv, 10, "--guest-tls-cert"@, argv[2int * 10 + 1]));
        assert(flag_at(argv, 11, "--guest-tls-key"@, argv[2int * 11 + 1]));
    }
    assert(flag_at(argv, n, "--default-image"@, argv[2int * n + 1]));
    if vm_config.mksquashfs_bin is Some {
        assert(flag_at(argv, n + 1, "--mksquashfs-bin"@, argv[2int * (n + 1) + 1]));
    }
}

/// Two configurations that differ in a setting of the driver give it different
/// arguments.
#[verifier::rlimit(40)]
#[verifier::spinoff_prover]
pub proof fn law_driver_arguments_tell_configs_apart(
    a: Config,
    vm_a: VmComputeConfig,
    socket_a: Seq<u8>,
    tls_a: Option<VmGuestTlsPaths>,
    b: Config,
    vm_b: VmComputeConfig,
    socket_b: Seq<u8>,
    tls_b: Option<VmGuestTlsPaths>,
)
    requires
        driver_argv(a, vm_a, socket_a, tls_a) == driver_argv(b, vm_b, socket_b, tls_b),
        tls_a is Some <==> tls_b is Some,
        vm_a.mksquashfs_bin is Some <==> vm_b.mksquashfs_bin is Some,
    ensures
        socket_a == socket_b,
        a.log_level@ == b.log_level@,
        a.grpc_endpoint@ == b.grpc_endpoint@,
        vm_a.state_dir@ == vm_b.state_dir@,
        a.ssh_handshake_secret@ == b.ssh_handshake_secret@,
        a.ssh_handshake_skew_secs == b.ssh_handshake_skew_secs,
        vm_a.krun_log_level == vm_b.krun_log_level,
        vm_a.vcpus == vm_b.vcpus,
        vm_a.mem_mib == vm_b.mem_mib,
        a.sandbox_image@ == b.sandbox_image@,
        path_opt(vm_a.mksquashfs_bin) == path_opt(vm_b.mksquashfs_bin),
        match (tls_a, tls_b) {
            (Some(x), Some(y)) => x.ca@ == y.ca@ && x.cert@ == y.cert@ && x.key@ == y.key@,
            _ => true,
        },
{
    let x = driver_argv(a, vm_a, socket_a, tls_a);
    let y = driver_argv(b, vm_b, socket_b, tls_b);
    assert(x[1] == socket_a && y[1] == socket_b);
    assert(x[3] == encode_utf8(a.log_level@) && y[3] == encode_utf8(b.log_level@));
    lemma_utf8_injective(a.log_level@, b.log_level@);
    assert(x[5] == encode_utf8(a.grpc_endpoint@) && y[5] == encode_utf8(b.grpc_endpoint@));
    lemma_utf8_injective(a.grpc_endpoint@, b.grpc_endpoint@);
    assert(x[7] == vm_a.state_dir@ && y[7] == vm_b.state_dir@);
    assert(x[9] == encode_utf8(a.ssh_handshake_secret@));
    assert(y[9] == encode_utf8(b.ssh_handshake_secret@));
    lemma_utf8_injective(a.ssh_handshake_secret@, b.ssh_handshake_secret@);
    lemma_same_number(a.ssh_handshake_skew_secs as nat, b.ssh_handshake_skew_secs as nat, x[11]);
    lemma_same_number(vm_a.krun_log_level as nat, vm_b.krun_log_level as nat, x[13]);
    lemma_same_number(vm_a.vcpus as nat, vm_b.vcpus as nat, x[15]);
    lemma_same_number(vm_a.mem_mib as nat, vm_b.mem_mib as nat, x[17]);
    let n: int = if tls_a is Some {
        24
    } else {
        18
    };
    if tls_a is Some {
        assert(x[19] == (tls_a->0).ca@ && y[19] == (tls_b->0).ca@);
        assert(x[21] == (tls_a->0).cert@ && y[21] == (tls_b->0).cert@);
        assert(x[23] == (tls_a->0).key@ && y[23] == (tls_b->0).key@);
    }
    assert(x[n + 1] == encode_utf8(a.sandbox_image@) && y[n + 1] == encode_utf8(b.sandbox_image@));
    lemma_utf8_injective(a.sandbox_image@, b.sandbox_image@);
    if vm_a.mksquashfs_bin is Some {
        assert(x[n + 3] == (vm_a.mksquashfs_bin->0)@ && y[n + 3] == (vm_b.mksquashfs_bin->0)@);
    }
}

proof fn lemma_same_number(a: nat, b: nat, bytes: Seq<u8>)
    requires
        bytes == encode_utf8(decimal(a)),
        bytes == encode_utf8(decimal(b)),
    ensures
        a == b,
{
    lemma_utf8_injective(decimal(a), decimal(b));
    lemma_parse_of_decimal(a);
    lemma_parse_of_decimal(b);
}

/// Which driver binary is run: the configured one before the one in the driver
/// directory, and that before the one beside the gateway's own executable; the
/// last two are called `openshell-driver-vm`. Only where the executable decides
/// can it fail, and the text then names what is known of the executable.
pub proof fn law_driver_binary(
    vm_config: VmComputeConfig,
    current_exe: Result<UnixPath, String>,
)
    ensures
        vm_config.compute_driver_bin matches Some(path) ==> driver_bin(vm_config, current_exe)
            == Ok::<Seq<u8>, Seq<char>>(path@),
        vm_config.compute_driver_bin is None ==> (vm_config.driver_dir matches Some(dir) ==> (
        driver_bin(vm_config, current_exe) matches Ok(path) && components(path) == components(
            dir@,
        ).push(Part::Name(encode_utf8("openshell-driver-vm"@))))),
        vm_config.compute_driver_bin is None && vm_config.driver_dir is None ==> match current_exe {
            Ok(exe) => if components(exe@).len() == 0 || components(exe@) == seq![
                Part::<Seq<u8>>::Root,
            ] {
                driver_bin(vm_config, current_exe) matches Err(text) && occurs_in(
                    lossy_text(exe@),
                    text,
                )
            } else {
                driver_bin(vm_config, current_exe) matches Ok(path) && components(path)
                    == components(exe@).drop_last().push(
                    Part::Name(encode_utf8("openshell-driver-vm"@)),
                )
            },
            Err(e) => driver_bin(vm_config, current_exe) matches Err(text) && e@.is_suffix_of(text),
        },
{
    reveal_strlit("openshell-driver-vm");
    match vm_config.driver_dir {
        Some(dir) => {
            law_join_adds_a_step(dir@, "openshell-driver-vm"@);
        },
        None => {},
    }
    match current_exe {
        Ok(exe) => {
            law_parent_drops_last_step(exe@);
            lemma_occurs(
                "current executable '"@,
                lossy_text(exe@),
                "' has no parent directory"@,
            );
            match parent_path(exe@) {
                Some(parent) => {
                    law_join_adds_a_step(parent, "openshell-driver-vm"@);
                },
                None => {},
            }
        },
        Err(e) => {
            let text = "failed to resolve current executable: "@ + e@;
            assert(e@ =~= text.subrange(text.len() - e@.len(), text.len() as int));
        },
    }
}

/// When the guest's bundle can be used: all three paths are configured, and a
/// file stands at each. Else the text names the flag of the first path that is
/// not configured, all three flags where none is, or the first file that is
/// missing.
pub proof fn law_guest_bundle(vm_config: VmComputeConfig, facts: TlsFileFacts)
    ensures
        guest_tls_fault(vm_config, facts) is None <==> vm_config.guest_tls_ca is Some
            && vm_config.guest_tls_cert is Some && vm_config.guest_tls_key is Some
            && facts.ca_is_file && facts.cert_is_file && facts.key_is_file,
        guest_tls_fault(vm_config, facts) matches Some(text) ==> {
            let ca = vm_config.guest_tls_ca;
            let cert = vm_config.guest_tls_cert;
            let key = vm_config.guest_tls_key;
            if ca is None || cert is None || key is None {
                &&& ca is None ==> occurs_in("--vm-tls-ca"@, text)
                &&& ca is Some && cert is None ==> occurs_in("--vm-tls-cert"@, text)
                &&& ca is Some && cert is Some ==> occurs_in("--vm-tls-key"@, text)
                &&& ca is None && cert is None && key is None ==> occurs_in("--vm-tls-cert"@, text)
                    && occurs_in("--vm-tls-key"@, text)
            } else if !facts.ca_is_file {
                occurs_in(lossy_text((ca->0)@), text)
            } else if !facts.cert_is_file {
                occurs_in(lossy_text((cert->0)@), text)
            } else {
                occurs_in(lossy_text((key->0)@), text)
            }
        },
{
    let ca = vm_config.guest_tls_ca;
    let cert = vm_config.guest_tls_cert;
    let key = vm_config.guest_tls_key;
    reveal_strlit("--vm-tls-ca");
    reveal_strlit("--vm-tls-cert");
    reveal_strlit("--vm-tls-key");
    if ca is None || cert is None || key is None {
        let text = guest_tls_fault(vm_config, facts)->0;
        reveal_strlit(
            "vm compute driver requires --vm-tls-ca, --vm-tls-cert, and --vm-tls-key when OPENSHELL_GRPC_ENDPOINT uses https://",
        );
        reveal_strlit("--vm-tls-ca is required when VM guest TLS materials are configured");
        reveal_strlit("--vm-tls-cert is required when VM guest TLS materials are configured");
        reveal_strlit("--vm-tls-key is required when VM guest TLS materials are configured");
        if ca is None && cert is None && key is None {
            lemma_occurs_at("--vm-tls-ca"@, text, 27);
            lemma_occurs_at("--vm-tls-cert"@, text, 40);
            lemma_occurs_at("--vm-tls-key"@, text, 59);
        } else if ca is None {
            lemma_occurs_at("--vm-tls-ca"@, text, 0);
        } else if cert is None {
            lemma_occurs_at("--vm-tls-cert"@, text, 0);
        } else {
            lemma_occurs_at("--vm-tls-key"@, text, 0);
        }
    } else {
        let front = "vm guest TLS material '"@;
        let back = "' does not exist or is not a file"@;
        lemma_occurs(front, lossy_text((ca->0)@), back);
        lemma_occurs(front, lossy_text((cert->0)@), back);
        lemma_occurs(front, lossy_text((key->0)@), back);
    }
}

/// When the driver is started: the endpoint holds more than white space, a file
/// stands where the driver binary should be, and the guest's bundle can be used
/// where the endpoint begins with `https://`.
pub proof fn law_spawn_conditions(config: Config, vm_config: VmComputeConfig, facts: SpawnFacts)
    ensures
        spawn_fault(config, vm_config, facts) is None <==> {
            &&& exists|i: int|
                0 <= i < config.grpc_endpoint@.len() && !white_space(
                    #[trigger] config.grpc_endpoint@[i],
                )
            &&& driver_bin(vm_config, facts.current_exe) is Ok
            &&& facts.bin_is_file
            &&& "https://"@.is_prefix_of(config.grpc_endpoint@) ==> vm_config.guest_tls_ca is Some
                && vm_config.guest_tls_cert is Some && vm_config.guest_tls_key is Some
                && facts.tls_files.ca_is_file && facts.tls_files.cert_is_file
                && facts.tls_files.key_is_file
        },
        match (driver_bin(vm_config, facts.current_exe), spawn_fault(config, vm_config, facts)) {
            (Ok(path), Some(text)) => !facts.bin_is_file ==> occurs_in(lossy_text(path), text)
                || trimmed(config.grpc_endpoint@).len() == 0,
            _ => true,
        },
{
    law_trimmed(config.grpc_endpoint@);
    match driver_bin(vm_config, facts.current_exe) {
        Ok(path) => {
            lemma_occurs(
                "vm compute driver binary '"@,
                lossy_text(path),
                "' does not exist; set --vm-compute-driver-bin or OPENSHELL_VM_COMPUTE_DRIVER_BIN"@,
            );
        },
        Err(_) => {},
    }
}

/// What a started driver is told: its socket is `compute-driver.sock` in the
/// state directory, the gateway creates that directory and waits at that socket,
/// and the paths of the guest's bundle are among the arguments where the
/// endpoint begins with `https://`, and no bundle is where it does not.
#[verifier::spinoff_prover]
pub proof fn law_spawn_hands_over(
    config: Config,
    vm_config: VmComputeConfig,
    facts: SpawnFacts,
    plan: SpawnPlan,
)
    requires
        starts(config, vm_config, facts, plan),
    ensures
        components(plan.socket@) == components(vm_config.state_dir@).push(
            Part::Name(encode_utf8("compute-driver.sock"@)),
        ),
        plan.create matches Some(dir) && components(dir@) == components(vm_config.state_dir@),
        driver_bin(vm_config, facts.current_exe) == Ok::<Seq<u8>, Seq<char>>(plan.program@),
        sets(byte_lists(plan.args@), "--bind-socket"@, plan.socket@),
        sets(byte_lists(plan.args@), "--state-dir"@, vm_config.state_dir@),
        sets(
            byte_lists(plan.args@),
            "--openshell-endpoint"@,
            encode_utf8(config.grpc_endpoint@),
        ),
        "https://"@.is_prefix_of(config.grpc_endpoint@) ==> vm_config.guest_tls_ca is Some && sets(
            byte_lists(plan.args@),
            "--guest-tls-ca"@,
            (vm_config.guest_tls_ca->0)@,
        ) && vm_config.guest_tls_cert is Some && sets(
            byte_lists(plan.args@),
            "--guest-tls-cert"@,
            (vm_config.guest_tls_cert->0)@,
        ) && vm_config.guest_tls_key is Some && sets(
            byte_lists(plan.args@),
            "--guest-tls-key"@,
            (vm_config.guest_tls_key->0)@,
        ),
        !"https://"@.is_prefix_of(config.grpc_endpoint@) ==> plan.args@.len() == 20 + (
        if vm_config.mksquashfs_bin is Some {
            2int
        } else {
            0
        }),
{
    let socket = join_text(vm_config.state_dir@, "compute-driver.sock"@);
    lemma_driver_socket(vm_config.state_dir@);
    let tls = choose|tls: Option<VmGuestTlsPaths>| #[trigger]
        driver_argv(config, vm_config, socket, tls) == byte_lists(plan.args@) && (
        if endpoint_uses_tls(config.grpc_endpoint@) {
            tls matches Some(paths) && Some(paths.ca@) == path_opt(vm_config.guest_tls_ca) && Some(
                paths.cert@,
            ) == path_opt(vm_config.guest_tls_cert) && Some(paths.key@) == path_opt(
                vm_config.guest_tls_key,
            )
        } else {
            tls is None
        });
    lemma_argv_told(config, vm_config, socket, tls, byte_lists(plan.args@));
    assert(byte_lists(plan.args@).len() == plan.args@.len());
}

proof fn lemma_driver_socket(state_dir: Seq<u8>)
    ensures
        ({
            let socket = join_text(state_dir, "compute-driver.sock"@);
            &&& components(socket) == components(state_dir).push(
                Part::Name(encode_utf8("compute-driver.sock"@)),
            )
            &&& parent_path(socket) matches Some(dir) && components(dir) == components(state_dir)
        }),
{
    reveal_strlit("compute-driver.sock");
    let socket = join_text(state_dir, "compute-driver.sock"@);
    law_join_adds_a_step(state_dir, "compute-driver.sock"@);
    law_parent_drops_last_step(socket);
    assert(components(socket).drop_last() =~= components(state_dir));
    assert(components(socket).last() is Name);
    assert(seq![Part::<Seq<u8>>::Root].last() is Root);
}

proof fn lemma_argv_told(
    config: Config,
    vm_config: VmComputeConfig,
    socket: Seq<u8>,
    tls: Option<VmGuestTlsPaths>,
    argv: Seq<Seq<u8>>,
)
    requires
        argv == driver_argv(config, vm_config, socket, tls),
    ensures
        sets(argv, "--bind-socket"@, socket),
        sets(argv, "--state-dir"@, vm_config.state_dir@),
        sets(argv, "--openshell-endpoint"@, encode_utf8(config.grpc_endpoint@)),
        tls matches Some(paths) ==> sets(argv, "--guest-tls-ca"@, paths.ca@) && sets(
            argv,
            "--guest-tls-cert"@,
            paths.cert@,
        ) && sets(argv, "--guest-tls-key"@, paths.key@),
        tls is None ==> argv.len() == 20 + (if vm_config.mksquashfs_bin is Some {
            2int
        } else {
            0
        }),
{
    law_driver_told_all(config, vm_config, socket, tls);
}

/// Every failure while the driver is started is told with the path that it is
/// about and the reason, and no two stages are told alike.
pub proof fn law_stage_texts(stage: SpawnStage, other: SpawnStage, path: Seq<u8>, error: Seq<char>)
    ensures
        error.is_suffix_of(stage_text(stage, path, error)),
        occurs_in(lossy_text(path), stage_text(stage, path, error)),
        stage_text(stage, path, error) == stage_text(other, path, error) ==> stage == other,
{
    reveal_strlit("failed to create vm compute driver socket dir '");
    reveal_strlit("failed to remove stale vm compute driver socket '");
    reveal_strlit("failed to launch vm compute driver '");
    reveal_strlit("failed to connect to vm compute driver socket '");
    reveal_strlit("': ");
    let text = stage_text(stage, path, error);
    assert(error =~= text.subrange(text.len() - error.len(), text.len() as int));
    let front = text.take(text.len() - error.len() - 3 - lossy_text(path).len());
    assert(text =~= front + lossy_text(path) + ("': "@ + error));
    lemma_occurs(front, lossy_text(path), "': "@ + error);
    let there = stage_text(other, path, error);
    assert(text[10] == (match stage {
        SpawnStage::CreateDir => 'c',
        SpawnStage::RemoveSocket => 'r',
        SpawnStage::Launch => 'l',
        SpawnStage::Connect => 'c',
    }));
    assert(text[11] == (match stage {
        SpawnStage::CreateDir => 'r',
        SpawnStage::RemoveSocket => 'e',
        SpawnStage::Launch => 'a',
        SpawnStage::Connect => 'o',
    }));
    assert(there[10] == (match other {
        SpawnStage::CreateDir => 'c',
        SpawnStage::RemoveSocket => 'r',
        SpawnStage::Launch => 'l',
        SpawnStage::Connect => 'c',
    }));
    assert(there[11] == (match other {
        SpawnStage::CreateDir => 'r',
        SpawnStage::RemoveSocket => 'e',
        SpawnStage::Launch => 'a',
        SpawnStage::Connect => 'o',
    }));
}

/// The gateway waits ten seconds for its driver. It stops at once where the
/// process is gone or cannot be asked, and says why; it is done at once where
/// the driver answers; and it goes on, remembering the latest reason, where the
/// driver does not answer yet. After the wait the text holds the socket and that
/// reason.
pub proof fn law_driver_wait(
    state: DriverWait,
    probe: DriverProbe,
    step: DriverStep,
    socket: Seq<u8>,
)
    requires
        wait_leads(state, probe, step),
    ensures
        DRIVER_ATTEMPTS * DRIVER_PAUSE_MS == 10_000,
        step is Ready <==> probe is Ready,
        step is Wait <==> probe is NotReady,
        probe matches DriverProbe::PollFailed { error } ==> (step matches DriverStep::Failed {
            error: e,
        } && error@.is_suffix_of(e.text())),
        probe matches DriverProbe::Exited { status } ==> (step matches DriverStep::Failed {
            error: e,
        } && status@.is_suffix_of(e.text())),
        probe matches DriverProbe::NotReady { error } ==> (step matches DriverStep::Wait {
            state: next,
        } && next.attempts == state.attempts + 1 && error@.is_suffix_of(
            timeout_text(socket, next.last_error),
        ) && occurs_in(lossy_text(socket), timeout_text(socket, next.last_error))),
{
    match (probe, step) {
        (DriverProbe::PollFailed { error }, DriverStep::Failed { error: e }) => {
            let t = e.text();
            assert(error@ =~= t.subrange(t.len() - error@.len(), t.len() as int));
        },
        (DriverProbe::Exited { status }, DriverStep::Failed { error: e }) => {
            let t = e.text();
            assert(status@ =~= t.subrange(t.len() - status@.len(), t.len() as int));
        },
        (DriverProbe::NotReady { error }, DriverStep::Wait { state: next }) => {
            let t = timeout_text(socket, next.last_error);
            assert(error@ =~= t.subrange(t.len() - error@.len(), t.len() as int));
            let front = "timed out waiting for vm compute driver socket '"@;
            assert(t =~= front + lossy_text(socket) + ("': "@ + error@));
            lemma_occurs(front, lossy_text(socket), "': "@ + error@);
        },
        _ => {},
    }
}

/// An error of configuration or of execution has its text.
pub proof fn law_driver_errors(e: DriverError, text: Seq<char>)
    ensures
        config_error(e, text) ==> e is Config && e.text() == text,
        execution_error(e, text) ==> e is Execution && e.text() == text,
        e matches DriverError::Config(message) ==> e.text() == message@,
        e matches DriverError::Execution(message) ==> e.text() == message@,
{
}

} // verus!
