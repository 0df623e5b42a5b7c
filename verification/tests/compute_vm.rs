use openshell_vm::cli::{
    run_from_args, CliError, GatewayArgs, HealthArgs, ServerArgs, ServerTlsArgs,
};
use openshell_vm::compute::vm::{
    build_driver_argv, compute_driver_guest_tls_paths, compute_driver_socket_path, driver_bin_path,
    resolve_compute_driver_bin, spawn, spawn_failure, wait_for_compute_driver, DriverError,
    DriverProbe, DriverStep, DriverWait, SpawnFacts, SpawnStage, TlsFileFacts, VmComputeConfig,
    VmGuestTlsPaths, DRIVER_ATTEMPTS,
};
use openshell_vm::config::{BindAddress, Config, TlsConfig};
use openshell_vm::path::UnixPath;

fn text(bytes: &[u8]) -> String {
    String::from_utf8(bytes.to_vec()).unwrap()
}

fn argv_contains_pair(argv: &[Vec<u8>], flag: &str, value: &str) -> bool {
    argv.windows(2)
        .any(|pair| text(&pair[0]) == flag && text(&pair[1]) == value)
}

fn argv_contains_flag(argv: &[Vec<u8>], flag: &str) -> bool {
    argv.iter().any(|arg| text(arg) == flag)
}

fn p(path: &str) -> UnixPath {
    UnixPath::new(path)
}

fn all_files() -> TlsFileFacts {
    TlsFileFacts {
        ca_is_file: true,
        cert_is_file: true,
        key_is_file: true,
    }
}

fn server_identity() -> TlsConfig {
    TlsConfig {
        cert_path: p("/t/server.crt"),
        key_path: p("/t/server.key"),
        client_ca_path: p("/t/client-ca.crt"),
        allow_unauthenticated: false,
    }
}

#[test]
fn vm_compute_driver_tls_requires_explicit_guest_bundle() {
    let config = Config::new(Some(server_identity()))
        .with_grpc_endpoint("https://gateway.internal:8443".to_string());

    let err = compute_driver_guest_tls_paths(&config, &VmComputeConfig::default(), all_files())
        .expect_err("https vm endpoints should require an explicit guest client bundle");
    assert!(err
        .message()
        .contains("--vm-tls-ca, --vm-tls-cert, and --vm-tls-key"));
}

#[test]
fn vm_compute_driver_tls_uses_guest_bundle_not_gateway_server_identity() {
    let config = Config::new(Some(server_identity()))
        .with_grpc_endpoint("https://gateway.internal:8443".to_string());
    let vm_config = VmComputeConfig {
        guest_tls_ca: Some(p("/t/guest-ca.crt")),
        guest_tls_cert: Some(p("/t/guest.crt")),
        guest_tls_key: Some(p("/t/guest.key")),
        ..Default::default()
    };

    let guest_paths = compute_driver_guest_tls_paths(&config, &vm_config, all_files())
        .unwrap()
        .expect("https vm endpoints should pass an explicit guest client bundle");
    assert_eq!(guest_paths.ca, p("/t/guest-ca.crt"));
    assert_eq!(guest_paths.cert, p("/t/guest.crt"));
    assert_eq!(guest_paths.key, p("/t/guest.key"));
    assert_ne!(guest_paths.cert, server_identity().cert_path);
    assert_ne!(guest_paths.key, server_identity().key_path);
}

#[test]
fn guest_tls_faults_name_what_is_missing() {
    let config = Config::new(None).with_grpc_endpoint("https://g".to_string());
    let full = || VmComputeConfig {
        guest_tls_ca: Some(p("/ca")),
        guest_tls_cert: Some(p("/cert")),
        guest_tls_key: Some(p("/key")),
        ..Default::default()
    };
    let message = |vm: &VmComputeConfig, facts: TlsFileFacts| {
        compute_driver_guest_tls_paths(&config, vm, facts)
            .expect_err("fault")
            .message()
    };
    let mut vm = full();
    vm.guest_tls_ca = None;
    assert_eq!(
        message(&vm, all_files()),
        "--vm-tls-ca is required when VM guest TLS materials are configured"
    );
    let mut vm = full();
    vm.guest_tls_cert = None;
    assert_eq!(
        message(&vm, all_files()),
        "--vm-tls-cert is required when VM guest TLS materials are configured"
    );
    let mut vm = full();
    vm.guest_tls_key = None;
    assert_eq!(
        message(&vm, all_files()),
        "--vm-tls-key is required when VM guest TLS materials are configured"
    );
    let mut facts = all_files();
    facts.key_is_file = false;
    assert_eq!(
        message(&full(), facts),
        "vm guest TLS material '/key' does not exist or is not a file"
    );
    facts.ca_is_file = false;
    assert_eq!(
        message(&full(), facts),
        "vm guest TLS material '/ca' does not exist or is not a file"
    );
    let plain = Config::new(None).with_grpc_endpoint("http://g".to_string());
    assert_eq!(
        compute_driver_guest_tls_paths(&plain, &full(), facts),
        Ok(None)
    );
}

#[test]
fn build_driver_argv_passes_configured_sandbox_image_as_default_image() {
    let config = Config::new(None)
        .with_grpc_endpoint("http://127.0.0.1:8080".to_string())
        .with_sandbox_image("docker.io/library/alpine:3.20".to_string());
    let vm_config = VmComputeConfig::default();
    let socket = p("/tmp/drv.sock");

    let argv = build_driver_argv(&config, &vm_config, &socket, &None);

    assert!(
        argv_contains_pair(&argv, "--default-image", "docker.io/library/alpine:3.20"),
        "expected --default-image to be plumbed from sandbox_image: {argv:?}"
    );
}

#[test]
fn build_driver_argv_passes_empty_default_image_when_gateway_has_no_sandbox_image() {
    let config = Config::new(None).with_grpc_endpoint("http://127.0.0.1:8080".to_string());
    let vm_config = VmComputeConfig::default();
    let socket = p("/tmp/drv.sock");

    let argv = build_driver_argv(&config, &vm_config, &socket, &None);

    assert!(
        argv_contains_pair(&argv, "--default-image", ""),
        "expected --default-image '' to be passed explicitly: {argv:?}"
    );
}

#[test]
fn build_driver_argv_passes_mksquashfs_bin_when_configured() {
    let config = Config::new(None).with_grpc_endpoint("http://127.0.0.1:8080".to_string());
    let vm_config = VmComputeConfig {
        mksquashfs_bin: Some(p("/usr/local/bin/mksquashfs")),
        ..Default::default()
    };
    let socket = p("/tmp/drv.sock");

    let argv = build_driver_argv(&config, &vm_config, &socket, &None);

    assert!(
        argv_contains_pair(&argv, "--mksquashfs-bin", "/usr/local/bin/mksquashfs"),
        "expected --mksquashfs-bin flag: {argv:?}"
    );
}

#[test]
fn build_driver_argv_omits_mksquashfs_bin_when_unconfigured() {
    let config = Config::new(None).with_grpc_endpoint("http://127.0.0.1:8080".to_string());
    let vm_config = VmComputeConfig::default();
    let socket = p("/tmp/drv.sock");

    let argv = build_driver_argv(&config, &vm_config, &socket, &None);

    assert!(
        !argv_contains_flag(&argv, "--mksquashfs-bin"),
        "--mksquashfs-bin should be absent when vm_config.mksquashfs_bin is None: {argv:?}"
    );
}

#[test]
fn build_driver_argv_passes_guest_tls_triplet_when_present() {
    let config =
        Config::new(None).with_grpc_endpoint("https://gateway.internal:8443".to_string());
    let vm_config = VmComputeConfig::default();
    let tls = VmGuestTlsPaths {
        ca: p("/tls/ca.crt"),
        cert: p("/tls/tls.crt"),
        key: p("/tls/tls.key"),
    };
    let socket = p("/tmp/drv.sock");

    let argv = build_driver_argv(&config, &vm_config, &socket, &Some(tls));

    assert!(argv_contains_pair(&argv, "--guest-tls-ca", "/tls/ca.crt"));
    assert!(argv_contains_pair(&argv, "--guest-tls-cert", "/tls/tls.crt"));
    assert!(argv_contains_pair(&argv, "--guest-tls-key", "/tls/tls.key"));
}

#[test]
fn build_driver_argv_socket_flag_points_at_provided_path() {
    let config = Config::new(None).with_grpc_endpoint("http://127.0.0.1:8080".to_string());
    let vm_config = VmComputeConfig::default();
    let socket = p("/var/run/openshell/driver.sock");

    let argv = build_driver_argv(&config, &vm_config, &socket, &None);

    assert!(argv_contains_pair(
        &argv,
        "--bind-socket",
        "/var/run/openshell/driver.sock"
    ));
}

#[test]
fn the_whole_driver_argv() {
    let config = Config::new(None)
        .with_grpc_endpoint("http://g".to_string())
        .with_log_level("debug".to_string())
        .with_ssh_handshake_secret("s3".to_string())
        .with_ssh_handshake_skew_secs(12);
    let argv: Vec<String> = build_driver_argv(
        &config,
        &VmComputeConfig::default(),
        &p("/x.sock"),
        &None,
    )
    .iter()
    .map(|a| text(a))
    .collect();
    assert_eq!(
        argv,
        vec![
            "--bind-socket",
            "/x.sock",
            "--log-level",
            "debug",
            "--openshell-endpoint",
            "http://g",
            "--state-dir",
            "target/openshell-vm-driver",
            "--ssh-handshake-secret",
            "s3",
            "--ssh-handshake-skew-secs",
            "12",
            "--krun-log-level",
            "1",
            "--vcpus",
            "2",
            "--mem-mib",
            "2048",
            "--default-image",
            "",
        ]
    );
}

#[test]
fn the_driver_binary_is_given_or_in_the_driver_dir_or_beside_the_gateway() {
    let exe: Result<UnixPath, String> = Ok(p("/opt/bin/openshell-gateway"));
    let mut vm = VmComputeConfig::default();
    assert_eq!(
        driver_bin_path(&vm, &exe),
        Ok(p("/opt/bin/openshell-driver-vm"))
    );
    let err = resolve_compute_driver_bin(&vm, &exe, false).expect_err("missing");
    assert_eq!(
        err,
        DriverError::Config(
            "vm compute driver binary '/opt/bin/openshell-driver-vm' does not exist; set --vm-compute-driver-bin or OPENSHELL_VM_COMPUTE_DRIVER_BIN"
                .to_string()
        )
    );
    let unknown: Result<UnixPath, String> = Err("gone".to_string());
    assert_eq!(
        driver_bin_path(&vm, &unknown).expect_err("unknown").message(),
        "failed to resolve current executable: gone"
    );
    let root: Result<UnixPath, String> = Ok(p("/"));
    assert_eq!(
        driver_bin_path(&vm, &root).expect_err("no parent").message(),
        "current executable '/' has no parent directory"
    );
    vm.driver_dir = Some(p("/usr/libexec"));
    assert_eq!(
        driver_bin_path(&vm, &unknown),
        Ok(p("/usr/libexec/openshell-driver-vm"))
    );
    vm.compute_driver_bin = Some(p("/mine"));
    assert_eq!(
        resolve_compute_driver_bin(&vm, &unknown, true),
        Ok(p("/mine"))
    );
}

#[test]
fn spawn_checks_the_endpoint_first() {
    let facts = SpawnFacts {
        current_exe: Err("gone".to_string()),
        bin_is_file: false,
        tls_files: all_files(),
    };
    let blank = Config::new(None).with_grpc_endpoint(" \t".to_string());
    let err = spawn(&blank, &VmComputeConfig::default(), &facts).expect_err("blank endpoint");
    assert_eq!(
        err.message(),
        "grpc_endpoint is required when using the vm compute driver"
    );
    let config = Config::new(None).with_grpc_endpoint("http://g".to_string());
    let err = spawn(&config, &VmComputeConfig::default(), &facts).expect_err("no binary");
    assert_eq!(err.message(), "failed to resolve current executable: gone");
    let facts = SpawnFacts {
        current_exe: Ok(p("/opt/gw")),
        bin_is_file: true,
        tls_files: all_files(),
    };
    let plan = spawn(&config, &VmComputeConfig::default(), &facts).unwrap();
    assert_eq!(plan.program, p("/opt/openshell-driver-vm"));
    assert_eq!(
        plan.socket,
        compute_driver_socket_path(&VmComputeConfig::default())
    );
    assert_eq!(
        plan.socket,
        p("target/openshell-vm-driver/compute-driver.sock")
    );
    assert_eq!(plan.create, Some(p("target/openshell-vm-driver")));
    assert_eq!(text(&plan.args[0]), "--bind-socket");
}

#[test]
fn spawn_failures_name_stage_and_path() {
    let path = p("/d/x");
    let message = |stage| spawn_failure(stage, &path, "e").message();
    assert_eq!(
        message(SpawnStage::CreateDir),
        "failed to create vm compute driver socket dir '/d/x': e"
    );
    assert_eq!(
        message(SpawnStage::RemoveSocket),
        "failed to remove stale vm compute driver socket '/d/x': e"
    );
    assert_eq!(
        message(SpawnStage::Launch),
        "failed to launch vm compute driver '/d/x': e"
    );
    assert_eq!(
        message(SpawnStage::Connect),
        "failed to connect to vm compute driver socket '/d/x': e"
    );
}

#[test]
fn the_wait_for_the_driver_ends_with_the_last_error() {
    let socket = p("/s.sock");
    let mut state = DriverWait::start();
    let mut probes = 0;
    while state.proceed(&socket).is_ok() {
        probes += 1;
        let probe = DriverProbe::NotReady {
            error: format!("refused {probes}"),
        };
        state = match wait_for_compute_driver(state, probe) {
            DriverStep::Wait { state } => state,
            other => panic!("unexpected step {other:?}"),
        };
    }
    assert_eq!(probes, DRIVER_ATTEMPTS);
    assert_eq!(
        state.proceed(&socket).expect_err("timed out").message(),
        "timed out waiting for vm compute driver socket '/s.sock': refused 100"
    );
    let never = DriverWait {
        attempts: 100,
        last_error: None,
    };
    assert_eq!(
        never.proceed(&socket).expect_err("timed out").message(),
        "timed out waiting for vm compute driver socket '/s.sock': unknown error"
    );
}

#[test]
fn the_wait_for_the_driver_stops_when_it_is_ready_or_gone() {
    assert!(matches!(
        wait_for_compute_driver(DriverWait::start(), DriverProbe::Ready),
        DriverStep::Ready
    ));
    match wait_for_compute_driver(
        DriverWait::start(),
        DriverProbe::Exited {
            status: "exit status: 3".to_string(),
        },
    ) {
        DriverStep::Failed { error } => assert_eq!(
            error.message(),
            "vm compute driver exited before becoming ready with status exit status: 3"
        ),
        other => panic!("unexpected step {other:?}"),
    }
    match wait_for_compute_driver(
        DriverWait::start(),
        DriverProbe::PollFailed {
            error: "e".to_string(),
        },
    ) {
        DriverStep::Failed { error } => assert_eq!(
            error.message(),
            "failed to poll vm compute driver process: e"
        ),
        other => panic!("unexpected step {other:?}"),
    }
}

fn gateway_args() -> GatewayArgs {
    GatewayArgs {
        server: ServerArgs {
            port: 8443,
            tls: ServerTlsArgs {
                cert: Some(p("/c")),
                key: Some(p("/k")),
                client_ca: Some(p("/ca")),
                disable: false,
                disable_gateway_auth: true,
            },
        },
        health: HealthArgs { port: 9000 },
        log_level: "warn".to_string(),
        db_url: "sqlite://x".to_string(),
        drivers: vec!["vm".to_string()],
        sandbox_namespace: "ns".to_string(),
        sandbox_image: Some("img".to_string()),
        sandbox_image_pull_policy: None,
        grpc_endpoint: Some("https://e".to_string()),
        ssh_gateway_host: "h".to_string(),
        ssh_gateway_port: 22,
        ssh_connect_path: "/ssh".to_string(),
        sandbox_ssh_port: 2222,
        ssh_handshake_secret: None,
        ssh_handshake_skew_secs: 300,
        client_tls_secret_name: Some("sec".to_string()),
        host_gateway_ip: None,
        vm_driver_state_dir: p("/state"),
        driver_dir: Some(p("/drv")),
        vm_krun_log_level: 4,
        vm_vcpus: 3,
        vm_mem_mib: 512,
        vm_tls_ca: None,
        vm_tls_cert: Some(p("/gc")),
        vm_tls_key: None,
    }
}

#[test]
fn options_become_configurations() {
    let (config, vm) = run_from_args(gateway_args()).unwrap();
    assert_eq!(config.bind_address, BindAddress::any(8443));
    assert_eq!(config.bind_address.octets, (0, 0, 0, 0));
    assert_eq!(config.health_bind_address.port, 9000);
    let tls = config.tls.unwrap();
    assert_eq!(tls.cert_path, p("/c"));
    assert_eq!(tls.key_path, p("/k"));
    assert_eq!(tls.client_ca_path, p("/ca"));
    assert!(tls.allow_unauthenticated);
    assert_eq!(config.sandbox_image, "img");
    assert_eq!(config.sandbox_image_pull_policy, "");
    assert_eq!(config.grpc_endpoint, "https://e");
    assert_eq!(config.client_tls_secret_name, "sec");
    assert_eq!(config.host_gateway_ip, "");
    assert_eq!(config.database_url, "sqlite://x");
    assert_eq!(config.compute_drivers, vec!["vm"]);
    assert_eq!(vm.state_dir, p("/state"));
    assert_eq!(vm.driver_dir, Some(p("/drv")));
    assert_eq!(vm.vcpus, 3);
    assert_eq!(vm.mem_mib, 512);
    assert_eq!(vm.krun_log_level, 4);
    assert_eq!(vm.guest_tls_cert, Some(p("/gc")));
    assert_eq!(vm.mksquashfs_bin, None);
}

#[test]
fn tls_options_are_required_unless_tls_is_off() {
    let mut args = gateway_args();
    args.server.tls.client_ca = None;
    let err = run_from_args(args).expect_err("client ca");
    assert_eq!(err, CliError::MissingClientCa);
    assert_eq!(
        err.message(),
        "--server.tls.client-ca is required when TLS is enabled (use --server.tls.disable / --disable-tls for plaintext)"
    );
    let mut args = gateway_args();
    args.server.tls.key = None;
    args.server.tls.client_ca = None;
    let err = run_from_args(args).expect_err("key");
    assert_eq!(
        err.message(),
        "--server.tls.key is required when TLS is enabled (use --server.tls.disable / --disable-tls for plaintext)"
    );
    let mut args = gateway_args();
    args.server.tls.cert = None;
    args.server.tls.key = None;
    let err = run_from_args(args).expect_err("cert");
    assert_eq!(
        err.message(),
        "--server.tls.cert is required when TLS is enabled (use --server.tls.disable / --disable-tls for plaintext)"
    );
    let mut args = gateway_args();
    args.server.tls.cert = None;
    args.server.tls.disable = true;
    let (config, _) = run_from_args(args).unwrap();
    assert_eq!(config.tls, None);
}
