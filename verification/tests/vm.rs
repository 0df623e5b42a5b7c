use openshell_vm::path::UnixPath;
use openshell_vm::vm::bootstrap::{
    apply_args, apply_tls_secrets, bootstrap_gateway, gateway_metadata, kubeconfig_text,
    kubectl_apply, namespace_args, render_secret, wait_for_namespace, waiting_line, ApplyRun,
    BootstrapStage, BootstrapStep, PkiBundle,
};
use openshell_vm::vm::config::{
    default_env, ensure_krunfw_path, find_gvproxy, homebrew_lib_dir, GvproxyFacts, LibraryPath,
    NetBackend, ToolOutput, VmConfig,
};
use openshell_vm::vm::cstring::{c_string_array, path_to_cstring, text_to_cstring};
use openshell_vm::vm::error::{check, VmError};
use openshell_vm::vm::exit::{exit_code, exit_line};
use openshell_vm::vm::gvproxy::{
    announced_port, expose_body, expose_request, forward_port, gvproxy_expose, parse_port_mapping,
    ExposeReply, Forward,
};
use openshell_vm::vm::launch::{
    console_log, launch, step_outcome, LaunchStep, StepReport, COMPAT_NET_FEATURES,
};
use openshell_vm::vm::poll::{PollRule, PollStep};
use openshell_vm::vm::running::{
    bring_up, copy_lines, kubeconfig_copy, kubeconfig_ready, running, BringUp, BringUpEvent,
    CopyOutcome, RunStep,
};
use openshell_vm::vm::session::{begin, followed, reported, RunOutcome, Session};

fn p(path: &str) -> UnixPath {
    UnixPath::new(path)
}

fn small(net: NetBackend) -> VmConfig {
    VmConfig {
        rootfs: p("/vm/rootfs"),
        vcpus: 1,
        mem_mib: 256,
        exec_path: "/bin/sh".to_string(),
        args: vec!["-c".to_string(), "true".to_string()],
        env: vec!["A=1".to_string()],
        workdir: "/".to_string(),
        port_map: vec!["8080:80".to_string()],
        log_level: 2,
        console_output: None,
        net,
    }
}

fn bytes(list: &[&str]) -> Vec<Vec<u8>> {
    list.iter().map(|s| s.as_bytes().to_vec()).collect()
}

#[test]
fn gateway_configuration_boots_k3s() {
    let config = VmConfig::gateway(p("/r"), None);
    assert_eq!(config.vcpus, 4);
    assert_eq!(config.mem_mib, 8192);
    assert_eq!(config.exec_path, "/srv/gateway-init.sh");
    assert!(config.args.is_empty());
    assert_eq!(config.env, default_env());
    assert_eq!(config.workdir, "/");
    assert_eq!(config.port_map, vec!["6443:6444", "30051:30051"]);
    assert_eq!(config.log_level, 3);
    assert_eq!(
        config.net,
        NetBackend::Gvproxy {
            binary: p("/opt/podman/bin/gvproxy")
        }
    );
    let config = VmConfig::gateway(p("/r"), Some(p("/g")));
    assert_eq!(config.net, NetBackend::Gvproxy { binary: p("/g") });
    assert_eq!(config.net.clone(), config.net);
}

#[test]
fn a_tsi_launch_hands_the_port_map_to_libkrun() {
    let steps = launch(&small(NetBackend::Tsi));
    assert_eq!(
        steps,
        vec![
            LaunchStep::RequireRootfs {
                path: p("/vm/rootfs")
            },
            LaunchStep::EnsureLibrary,
            LaunchStep::SetLogLevel { level: 2 },
            LaunchStep::CreateContext,
            LaunchStep::SetVmConfig {
                vcpus: 1,
                mem_mib: 256
            },
            LaunchStep::SetRoot {
                root: b"/vm/rootfs".to_vec()
            },
            LaunchStep::SetWorkdir { dir: b"/".to_vec() },
            LaunchStep::SetPortMap {
                entries: bytes(&["8080:80"])
            },
            LaunchStep::SetConsole {
                file: b"/vm/console.log".to_vec()
            },
            LaunchStep::SetExec {
                program: b"/bin/sh".to_vec(),
                argv: bytes(&["-c", "true"]),
                env: bytes(&["A=1"]),
            },
            LaunchStep::Boot,
        ]
    );
}

#[test]
fn a_launch_without_network_disables_the_implicit_vsock() {
    let mut config = small(NetBackend::Disabled);
    config.console_output = Some(p("/tmp/c"));
    config.env.clear();
    let steps = launch(&config);
    assert_eq!(steps[7], LaunchStep::DisableImplicitVsock);
    assert_eq!(steps[8], LaunchStep::AddVsock { features: 0 });
    assert_eq!(
        steps[9],
        LaunchStep::SetConsole {
            file: b"/tmp/c".to_vec()
        }
    );
    match &steps[10] {
        LaunchStep::SetExec { env, .. } => assert_eq!(
            env,
            &bytes(&[
                "HOME=/root",
                "PATH=/usr/local/sbin:/usr/local/bin:/usr/sbin:/usr/bin:/sbin:/bin",
                "TERM=xterm",
            ])
        ),
        other => panic!("unexpected step {other:?}"),
    }
    assert_eq!(steps[11], LaunchStep::Boot);
    assert_eq!(steps.len(), 12);
}

#[test]
fn a_gvproxy_launch_starts_gvproxy_before_it_adds_the_interface() {
    let steps = launch(&small(NetBackend::Gvproxy { binary: p("/g") }));
    assert_eq!(
        steps[7..15],
        [
            LaunchStep::RequireBinary { path: p("/g") },
            LaunchStep::RemoveFile {
                path: p("/vm/gvproxy-vfkit.sock")
            },
            LaunchStep::RemoveFile {
                path: p("/vm/gvproxy-api.sock")
            },
            LaunchStep::StartGvproxy {
                binary: p("/g"),
                args: vec![
                    "-listen-vfkit".to_string(),
                    "unixgram:///vm/gvproxy-vfkit.sock".to_string(),
                    "-listen".to_string(),
                    "unix:///vm/gvproxy-api.sock".to_string(),
                ],
                log: p("/vm/gvproxy.log"),
            },
            LaunchStep::AwaitSocket {
                path: p("/vm/gvproxy-vfkit.sock")
            },
            LaunchStep::DisableImplicitVsock,
            LaunchStep::AddVsock { features: 0 },
            LaunchStep::AddNet {
                socket: b"/vm/gvproxy-vfkit.sock".to_vec(),
                fd: -1,
                mac: vec![0x5a, 0x94, 0xef, 0xe4, 0x0c, 0xee],
                features: (1 << 0) | (1 << 1) | (1 << 7) | (1 << 10) | (1 << 11) | (1 << 14),
                flags: 1,
            },
        ]
    );
    assert_eq!(COMPAT_NET_FEATURES, 19587);
    assert!(!steps
        .iter()
        .any(|s| matches!(s, LaunchStep::SetPortMap { .. })));
    assert_eq!(steps.last(), Some(&LaunchStep::Boot));
}

#[test]
fn a_launch_ends_at_the_first_text_that_is_no_c_string() {
    let mut config = small(NetBackend::Tsi);
    config.workdir = "/a\0b".to_string();
    config.exec_path = "\0".to_string();
    let steps = launch(&config);
    assert_eq!(steps.len(), 7);
    assert_eq!(
        steps[6],
        LaunchStep::Fail {
            error: VmError::CString { position: 2 }
        }
    );
    let mut config = small(NetBackend::Tsi);
    config.rootfs = UnixPath {
        bytes: vec![b'/', 0xff],
    };
    let steps = launch(&config);
    assert_eq!(steps.len(), 6);
    assert_eq!(
        steps[5],
        LaunchStep::Fail {
            error: VmError::InvalidPath("/\u{fffd}".to_string())
        }
    );
    let mut config = small(NetBackend::Tsi);
    config.env.push("X=\0".to_string());
    assert_eq!(
        launch(&config).last(),
        Some(&LaunchStep::Fail {
            error: VmError::CString { position: 2 }
        })
    );
}

#[test]
fn c_strings_hold_no_nul() {
    assert_eq!(text_to_cstring("ab"), Ok(b"ab".to_vec()));
    assert_eq!(
        text_to_cstring("\u{e9}\0"),
        Err(VmError::CString { position: 2 })
    );
    assert_eq!(path_to_cstring(&p("/x")), Ok(b"/x".to_vec()));
    assert_eq!(
        c_string_array(&vec!["a".to_string(), "b\0".to_string(), "\0".to_string()]),
        Err(VmError::CString { position: 1 })
    );
    assert_eq!(c_string_array(&Vec::new()), Ok(Vec::new()));
}

#[test]
fn step_reports_become_errors() {
    let fail = |step, report| step_outcome(step, report).expect_err("failure").message();
    assert_eq!(
        fail(
            LaunchStep::RequireRootfs { path: p("/no") },
            StepReport::Missing
        ),
        "rootfs directory not found: /no\nRun: ./crates/openshell-vm/scripts/build-rootfs.sh"
    );
    assert_eq!(
        fail(LaunchStep::CreateContext, StepReport::Code { code: -22 }),
        "krun_create_ctx failed with error code -22"
    );
    assert_eq!(
        fail(
            LaunchStep::SetConsole { file: Vec::new() },
            StepReport::Code { code: -1 }
        ),
        "krun_set_console_output failed with error code -1"
    );
    assert_eq!(
        fail(
            LaunchStep::RequireBinary { path: p("/g") },
            StepReport::Missing
        ),
        "required binary not found: /g\nInstall Podman Desktop or place gvproxy in PATH"
    );
    let start = || LaunchStep::StartGvproxy {
        binary: p("/g"),
        args: Vec::new(),
        log: p("/l"),
    };
    let error = || "e".to_string();
    assert_eq!(
        fail(start(), StepReport::LogFailed { error: error() }),
        "fork() failed: failed to create gvproxy log: e"
    );
    assert_eq!(
        fail(start(), StepReport::SpawnFailed { error: error() }),
        "fork() failed: failed to start gvproxy: e"
    );
    assert_eq!(
        fail(
            LaunchStep::AwaitSocket { path: p("/s") },
            StepReport::Missing
        ),
        "fork() failed: gvproxy socket did not appear within 5s"
    );
    assert_eq!(
        fail(LaunchStep::Boot, StepReport::ForkFailed { error: error() }),
        "fork() failed: e"
    );
    assert_eq!(
        fail(
            LaunchStep::EnsureLibrary,
            StepReport::RerunFailed { error: error() }
        ),
        "fork() failed: re-exec failed: e"
    );
    assert_eq!(
        fail(
            LaunchStep::EnsureLibrary,
            StepReport::ExeUnknown { error: error() }
        ),
        "fork() failed: e"
    );
    assert_eq!(
        fail(
            LaunchStep::Fail {
                error: VmError::CString { position: 4 }
            },
            StepReport::Done
        ),
        "invalid C string: nul byte found in provided data at position: 4"
    );
    assert!(step_outcome(LaunchStep::CreateContext, StepReport::Code { code: 5 }).is_ok());
    assert!(step_outcome(LaunchStep::Boot, StepReport::Done).is_ok());
}

#[test]
fn negative_codes_are_errors() {
    assert!(check(0, "f").is_ok());
    assert!(check(3, "f").is_ok());
    assert_eq!(
        check(i32::MIN, "f").expect_err("negative").message(),
        "f failed with error code -2147483648"
    );
    assert_eq!(
        VmError::InvalidPath("x".to_string()).message(),
        "path is not valid UTF-8: x"
    );
    assert_eq!(
        VmError::Bootstrap("x".to_string()).message(),
        "bootstrap failed: x"
    );
}

#[test]
fn exit_codes_follow_the_shell() {
    assert_eq!(exit_code(0), 0);
    assert_eq!(exit_code(3 << 8), 3);
    assert_eq!(exit_code(255 << 8), 255);
    assert_eq!(exit_code(9), 137);
    assert_eq!(exit_code(15 | 0x80), 143);
    assert_eq!(exit_code(0x137f), 0x137f);
    assert_eq!(exit_line(3 << 8), Some("VM exited with code 3".to_string()));
    assert_eq!(exit_line(9), Some("VM killed by signal 9".to_string()));
    assert_eq!(exit_line(0x137f), None);
}

#[test]
fn gvproxy_is_found_on_the_path_or_in_the_usual_places() {
    let nowhere = GvproxyFacts {
        opt_podman: false,
        opt_homebrew: false,
        usr_local: false,
    };
    let which = |success: bool, out: &str| {
        Some(ToolOutput {
            success,
            stdout: out.as_bytes().to_vec(),
        })
    };
    assert_eq!(
        find_gvproxy(&which(true, "/usr/bin/gvproxy\n"), nowhere),
        Some(p("/usr/bin/gvproxy"))
    );
    assert_eq!(find_gvproxy(&which(true, " \n"), nowhere), None);
    assert_eq!(find_gvproxy(&which(false, "/x"), nowhere), None);
    let mut facts = nowhere;
    facts.usr_local = true;
    assert_eq!(
        find_gvproxy(&None, facts),
        Some(p("/usr/local/bin/gvproxy"))
    );
    facts.opt_homebrew = true;
    assert_eq!(
        find_gvproxy(&None, facts),
        Some(p("/opt/homebrew/bin/gvproxy"))
    );
    facts.opt_podman = true;
    assert_eq!(
        find_gvproxy(&None, facts),
        Some(p("/opt/podman/bin/gvproxy"))
    );
}

#[test]
fn the_library_path_is_set_once() {
    let brew = |success: bool, out: &[u8]| {
        homebrew_lib_dir(Some(ToolOutput {
            success,
            stdout: out.to_vec(),
        }))
    };
    assert_eq!(brew(true, b"/usr/local\n"), "/usr/local/lib");
    assert_eq!(brew(false, b"/usr/local\n"), "/opt/homebrew/lib");
    assert_eq!(brew(true, &[0xff]), "/opt/homebrew/lib");
    assert_eq!(homebrew_lib_dir(None), "/opt/homebrew/lib");

    let first = ensure_krunfw_path(Some("/a:/b".to_string()), "/lib");
    assert_eq!(
        first,
        LibraryPath::Rerun {
            value: "/lib:/a:/b".to_string()
        }
    );
    assert_eq!(
        ensure_krunfw_path(Some("/lib:/a:/b".to_string()), "/lib"),
        LibraryPath::Ready
    );
    assert_eq!(
        ensure_krunfw_path(None, "/lib"),
        LibraryPath::Rerun {
            value: "/lib".to_string()
        }
    );
}

#[test]
fn port_mappings_become_expose_requests() {
    assert_eq!(
        parse_port_mapping("6443:6444"),
        Some(("6443".to_string(), "6444".to_string()))
    );
    assert_eq!(
        parse_port_mapping("80"),
        Some(("80".to_string(), "80".to_string()))
    );
    assert_eq!(parse_port_mapping("1:2:3"), None);
    assert_eq!(announced_port("1:2:3"), "1");
    let body = expose_body("6443", "6444");
    assert_eq!(
        body,
        r#"{"local":":6443","remote":"192.168.127.2:6444","protocol":"tcp"}"#
    );
    assert_eq!(
        expose_request("{}"),
        "POST /services/forwarder/expose HTTP/1.1\r\nHost: localhost\r\nContent-Type: application/json\r\nContent-Length: 2\r\nConnection: close\r\n\r\n{}"
    );
    assert!(expose_request("\u{e9}").contains("Content-Length: 2\r\n"));
    let forward = forward_port("6443:6444");
    match &forward {
        Forward::Expose { request, .. } => assert_eq!(request, &expose_request(&body)),
        other => panic!("unexpected forward {other:?}"),
    }
    assert_eq!(
        forward.line(&None),
        "  port 6443 -> 192.168.127.2:6444"
    );
    assert_eq!(
        forward.line(&Some("busy".to_string())),
        "  port 6443: busy"
    );
    assert_eq!(
        forward_port("1:2:3").line(&None),
        "  skipping invalid port mapping: 1:2:3"
    );
}

#[test]
fn expose_replies_go_by_the_status_line() {
    let reply = |text: &str| {
        gvproxy_expose(&ExposeReply::Response {
            bytes: text.as_bytes().to_vec(),
        })
    };
    assert_eq!(reply("HTTP/1.1 200 OK\r\n\r\n"), Ok(()));
    assert_eq!(reply("HTTP/1.1 204 No Content\r\n"), Ok(()));
    assert_eq!(
        reply("HTTP/1.1 500 Internal\r\nx"),
        Err("gvproxy API: HTTP/1.1 500 Internal".to_string())
    );
    assert_eq!(reply("2000"), Err("gvproxy API: 2000".to_string()));
    assert_eq!(reply(""), Err("gvproxy API: <empty>".to_string()));
    let error = || "e".to_string();
    assert_eq!(
        gvproxy_expose(&ExposeReply::ConnectFailed { error: error() }),
        Err("connect to gvproxy API socket: e".to_string())
    );
    assert_eq!(
        gvproxy_expose(&ExposeReply::WriteFailed { error: error() }),
        Err("write to gvproxy API: e".to_string())
    );
    assert_eq!(
        gvproxy_expose(&ExposeReply::ReadFailed { error: error() }),
        Err("read from gvproxy API: e".to_string())
    );
}

#[test]
fn waits_look_as_often_as_their_rule_says() {
    for (rule, looks, pauses) in [
        (PollRule::gvproxy_socket(), 51, 50),
        (PollRule::kubeconfig(), 120, 120),
        (PollRule::namespace(), 120, 120),
    ] {
        let mut made = 0;
        let mut paused = 0;
        let mut state = 0;
        while rule.goes_on(state) {
            made += 1;
            match rule.look(state, false) {
                PollStep::Wait { looks } => {
                    paused += 1;
                    state = looks;
                }
                PollStep::GiveUp => state += 1,
                PollStep::Ready => panic!("nothing is there"),
            }
        }
        assert_eq!(made, looks);
        assert_eq!(paused, pauses);
        assert_eq!(rule.look(0, true), PollStep::Ready);
    }
}

fn say(line: &str) -> RunStep {
    RunStep::Say {
        line: line.to_string(),
    }
}

#[test]
fn a_running_vm_is_announced_and_forwarded() {
    let mut config = small(NetBackend::Gvproxy { binary: p("/g") });
    config.port_map.push("x:y:z".to_string());
    let forward = |mapping: &str| RunStep::Forward {
        api_sock: p("/vm/gvproxy-api.sock"),
        forward: forward_port(mapping),
    };
    assert_eq!(
        running(&config, 77),
        vec![
            say("VM started (child pid 77)"),
            say("  port 8080:80 -> http://localhost:8080"),
            say("  port x:y:z -> http://localhost:x"),
            say("Console output: /vm/console.log"),
            RunStep::Pause { ms: 500 },
            say("Setting up gvproxy port forwarding..."),
            forward("8080:80"),
            forward("x:y:z"),
            say("Press Ctrl+C to stop."),
            RunStep::ForwardSignals,
            RunStep::AwaitExit,
            RunStep::StopGvproxy,
            say("gvproxy stopped"),
        ]
    );
    assert_eq!(console_log(&config), p("/vm/console.log"));
}

#[test]
fn a_running_vm_without_gvproxy_forwards_nothing() {
    assert_eq!(
        running(&small(NetBackend::Tsi), 1),
        vec![
            say("VM started (child pid 1)"),
            say("  port 8080:80 -> http://localhost:8080"),
            say("Console output: /vm/console.log"),
            say("Press Ctrl+C to stop."),
            RunStep::ForwardSignals,
            RunStep::AwaitExit,
        ]
    );
}

#[test]
fn a_running_gateway_is_bootstrapped() {
    let steps = running(&VmConfig::gateway(p("/vm/rootfs"), None), 1);
    let at = steps
        .iter()
        .position(|s| {
            *s == RunStep::Bootstrap {
                kubeconfig: p("/vm/rootfs/etc/rancher/k3s/k3s.yaml"),
            }
        })
        .unwrap();
    assert_eq!(steps[at - 1], say("Waiting for kubeconfig..."));
    assert_eq!(steps[at + 1], say("Press Ctrl+C to stop."));
}

#[test]
fn the_kubeconfig_is_copied_to_the_home_directory() {
    assert!(kubeconfig_ready(true, Some(1)));
    assert!(!kubeconfig_ready(true, Some(0)));
    assert!(!kubeconfig_ready(true, None));
    assert!(!kubeconfig_ready(false, Some(1)));
    assert_eq!(
        kubeconfig_copy(&Some("/home/u".to_string())),
        (p("/home/u/.kube"), p("/home/u/.kube/gateway.yaml"))
    );
    assert_eq!(kubeconfig_copy(&None).1, p("/tmp/.kube/gateway.yaml"));
    let dest = p("/k");
    assert_eq!(
        copy_lines(&dest, &CopyOutcome::Copied),
        vec!["Kubeconfig: /k", "  export KUBECONFIG=/k"]
    );
    assert_eq!(
        copy_lines(
            &dest,
            &CopyOutcome::WriteFailed {
                error: "e".to_string()
            }
        ),
        vec!["  failed to write kubeconfig: e"]
    );
    assert_eq!(
        copy_lines(
            &dest,
            &CopyOutcome::ReadFailed {
                error: "e".to_string()
            }
        ),
        vec!["  failed to read kubeconfig: e"]
    );
}

/// Goes through a session: `report` says what comes of each launch step and
/// `outcome` what comes of each step of the running VM. Gives the result, the
/// number of launch steps and the steps of the running VM.
fn go_through(
    config: &VmConfig,
    report: impl Fn(&LaunchStep) -> StepReport,
    outcome: impl Fn(&RunStep) -> RunOutcome,
) -> (Result<(i32, Option<String>), VmError>, usize, Vec<RunStep>) {
    let mut session = begin(config);
    let mut launched = 0;
    let mut taken = Vec::new();
    loop {
        session = match session {
            Session::Launching { step, rest } => {
                launched += 1;
                let report = report(&step);
                reported(config, step, rest, report, 77)
            }
            Session::Running {
                task,
                tasks,
                status,
            } => {
                let outcome = outcome(&task);
                taken.push(match &task {
                    RunStep::Say { line } => say(line),
                    RunStep::Bootstrap { kubeconfig } => RunStep::Bootstrap {
                        kubeconfig: kubeconfig.clone(),
                    },
                    RunStep::AwaitExit => RunStep::AwaitExit,
                    RunStep::StopGvproxy => RunStep::StopGvproxy,
                    _ => RunStep::ForwardSignals,
                });
                followed(task, tasks, status, outcome)
            }
            Session::Failed { error } => return (Err(error), launched, taken),
            Session::Ended { code, line } => return (Ok((code, line)), launched, taken),
        };
    }
}

fn all_done(step: &RunStep, status: i32) -> RunOutcome {
    match step {
        RunStep::AwaitExit => RunOutcome::Exited { status },
        RunStep::Bootstrap { .. } => RunOutcome::BroughtUp { up: true },
        RunStep::Forward { .. } => RunOutcome::Forwarded { fault: None },
        _ => RunOutcome::Done,
    }
}

#[test]
fn a_session_ends_with_the_code_of_the_wait_status() {
    let config = small(NetBackend::Tsi);
    let done = |_: &LaunchStep| StepReport::Done;
    for (status, code, line) in [
        (0, 0, Some("VM exited with code 0")),
        (3 << 8, 3, Some("VM exited with code 3")),
        (15, 143, Some("VM killed by signal 15")),
        (0x7f, 0x7f, None),
    ] {
        let (result, launched, taken) = go_through(&config, done, |step| all_done(step, status));
        assert_eq!(result, Ok((code, line.map(str::to_string))));
        assert_eq!(launched, launch(&config).len());
        assert_eq!(taken[0], say("VM started (child pid 77)"));
        assert_eq!(taken.len(), running(&config, 77).len());
        assert_eq!(taken.last(), Some(&RunStep::AwaitExit));
    }
    // Where the wait gives no status, it stays zero.
    let (result, _, _) = go_through(&config, done, |_| RunOutcome::Done);
    assert_eq!(result, Ok((0, Some("VM exited with code 0".to_string()))));
}

#[test]
fn the_first_launch_step_that_fails_ends_a_session() {
    let config = small(NetBackend::Tsi);
    let (result, launched, taken) = go_through(
        &config,
        |step| match step {
            LaunchStep::SetRoot { .. } => StepReport::Code { code: -22 },
            LaunchStep::Boot => StepReport::ForkFailed {
                error: "e".to_string(),
            },
            _ => StepReport::Done,
        },
        |step| all_done(step, 0),
    );
    assert_eq!(
        result,
        Err(VmError::Krun {
            func: "krun_set_root",
            code: -22
        })
    );
    let at = launch(&config)
        .iter()
        .position(|step| matches!(step, LaunchStep::SetRoot { .. }))
        .unwrap();
    assert_eq!(launched, at + 1);
    assert_eq!(taken, vec![]);

    let (result, launched, taken) = go_through(
        &config,
        |step| match step {
            LaunchStep::Boot => StepReport::ForkFailed {
                error: "e".to_string(),
            },
            _ => StepReport::Code { code: 0 },
        },
        |step| all_done(step, 0),
    );
    assert_eq!(result, Err(VmError::Fork("e".to_string())));
    assert_eq!(launched, launch(&config).len());
    assert_eq!(taken, vec![]);

    // A text that is no C string fails the launch, whatever is reported.
    let mut config = small(NetBackend::Tsi);
    config.workdir = "a\0".to_string();
    let (result, _, _) = go_through(
        &config,
        |_| StepReport::Code { code: 0 },
        |step| all_done(step, 0),
    );
    assert_eq!(result, Err(VmError::CString { position: 1 }));
}

#[test]
fn what_follows_the_boot_does_not_change_the_result() {
    let mut config = VmConfig::gateway(p("/vm/rootfs"), None);
    config.net = NetBackend::Gvproxy { binary: p("/g") };
    let done = |_: &LaunchStep| StepReport::Done;
    let (well, _, steps) = go_through(&config, done, |step| all_done(step, 7 << 8));
    let (badly, _, same_steps) = go_through(&config, done, |step| match step {
        RunStep::AwaitExit => RunOutcome::Exited { status: 7 << 8 },
        RunStep::Forward { .. } => RunOutcome::Forwarded {
            fault: Some("refused".to_string()),
        },
        RunStep::Bootstrap { .. } => RunOutcome::BroughtUp { up: false },
        // Only the wait for the end of the VM gives its status.
        _ => RunOutcome::Exited { status: 1 << 8 },
    });
    assert_eq!(well, Ok((7, Some("VM exited with code 7".to_string()))));
    assert_eq!(badly, well);
    assert_eq!(steps, same_steps);
    assert_eq!(steps.last(), Some(&say("gvproxy stopped")));
}

#[test]
fn the_control_plane_is_brought_up_step_by_step() {
    let waited = |found: bool| BringUpEvent::Waited {
        found,
        home: Some("/home/u".to_string()),
    };
    let lost = vec!["  kubeconfig not found after 120s (k3s may still be starting)".to_string()];
    assert_eq!(
        bring_up(BringUp::Awaiting, waited(false)),
        (BringUp::Over { up: false }, lost)
    );

    let dest = || p("/home/u/.kube/gateway.yaml");
    let copying = || BringUp::Copying {
        dir: p("/home/u/.kube"),
        dest: dest(),
    };
    let bootstrapping = || BringUp::Bootstrapping { dest: dest() };
    assert_eq!(
        bring_up(BringUp::Awaiting, waited(true)),
        (copying(), vec![])
    );
    // The bootstrap is tried after a copy that failed, too.
    for outcome in [
        CopyOutcome::Copied,
        CopyOutcome::WriteFailed {
            error: "e".to_string(),
        },
        CopyOutcome::ReadFailed {
            error: "e".to_string(),
        },
    ] {
        let lines = copy_lines(&dest(), &outcome);
        assert_eq!(
            bring_up(copying(), BringUpEvent::Copied { outcome }),
            (bootstrapping(), lines)
        );
    }
    assert_eq!(
        bring_up(bootstrapping(), BringUpEvent::Bootstrapped { fault: None }),
        (BringUp::Over { up: true }, vec![])
    );
    assert_eq!(
        bring_up(
            bootstrapping(),
            BringUpEvent::Bootstrapped {
                fault: Some("no".to_string())
            }
        ),
        (
            BringUp::Over { up: false },
            vec![
                "Bootstrap failed: no".to_string(),
                "  The VM is running but NemoClaw may not be fully operational.".to_string(),
            ]
        )
    );
    assert_eq!(bring_up(copying(), waited(false)), (copying(), vec![]));
}

fn bundle() -> PkiBundle {
    PkiBundle {
        ca_cert_pem: "ca".to_string(),
        server_cert_pem: "abc".to_string(),
        server_key_pem: "".to_string(),
        client_cert_pem: "d".to_string(),
        client_key_pem: "\u{ff}\u{ff}".to_string(),
    }
}

#[test]
fn tls_secrets_are_rendered_as_compact_json() {
    let bundle = bundle();
    assert!(bundle.fits_in_memory());
    let secrets = apply_tls_secrets(&bundle);
    assert_eq!(secrets.len(), 3);
    assert_eq!(secrets[0].name, "navigator-server-tls");
    assert_eq!(
        secrets[0].manifest,
        r#"{"apiVersion":"v1","data":{"tls.crt":"YWJj","tls.key":""},"kind":"Secret","metadata":{"name":"navigator-server-tls","namespace":"navigator"},"type":"kubernetes.io/tls"}"#
    );
    assert_eq!(
        secrets[1].manifest,
        r#"{"apiVersion":"v1","data":{"ca.crt":"Y2E="},"kind":"Secret","metadata":{"name":"navigator-server-client-ca","namespace":"navigator"},"type":"Opaque"}"#
    );
    assert_eq!(
        secrets[2].manifest,
        r#"{"apiVersion":"v1","data":{"ca.crt":"Y2E=","tls.crt":"ZA==","tls.key":"w7/Dvw=="},"kind":"Secret","metadata":{"name":"navigator-client-tls","namespace":"navigator"},"type":"Opaque"}"#
    );
    for secret in &secrets {
        let value: serde_json::Value = serde_json::from_str(&secret.manifest).unwrap();
        assert_eq!(
            value["metadata"]["name"].as_str(),
            Some(secret.name.as_str())
        );
        assert_eq!(value["metadata"]["namespace"].as_str(), Some("navigator"));
        assert_eq!(value.to_string(), secret.manifest);
    }
}

#[test]
fn manifest_texts_are_escaped() {
    let data = vec![("k\"".to_string(), "v\n".to_string())];
    assert_eq!(
        render_secret("n\\", "t", &data),
        r#"{"apiVersion":"v1","data":{"k\"":"v\n"},"kind":"Secret","metadata":{"name":"n\\","namespace":"navigator"},"type":"t"}"#
    );
    assert_eq!(
        render_secret("n", "t", &Vec::new()),
        r#"{"apiVersion":"v1","data":{},"kind":"Secret","metadata":{"name":"n","namespace":"navigator"},"type":"t"}"#
    );
}

#[test]
fn control_characters_in_manifests_are_escaped() {
    let manifest = render_secret("\u{8}\t\u{c}\r\u{0}\u{1f}\u{7f}/\u{e9}", "t", &Vec::new());
    assert!(manifest.contains("\"name\":\"\\b\\t\\f\\r\\u0000\\u001f\u{7f}/\u{e9}\""));
}

#[test]
fn the_namespace_is_there_when_kubectl_prints_it() {
    let out = |success: bool, text: &str| {
        Some(ToolOutput {
            success,
            stdout: text.as_bytes().to_vec(),
        })
    };
    assert!(wait_for_namespace(&out(true, "namespace/navigator\n")));
    assert!(!wait_for_namespace(&out(false, "namespace/navigator\n")));
    assert!(!wait_for_namespace(&out(true, "")));
    assert!(!wait_for_namespace(&None));
    assert_eq!(
        namespace_args("/k"),
        vec![
            "--kubeconfig",
            "/k",
            "get",
            "namespace",
            "navigator",
            "-o",
            "name"
        ]
    );
    assert_eq!(waiting_line(0, 120), None);
    assert_eq!(
        waiting_line(9, 120),
        Some("  still waiting for navigator namespace (10/120)".to_string())
    );
    assert_eq!(
        waiting_line(119, 120),
        Some("  still waiting for navigator namespace (120/120)".to_string())
    );
}

#[test]
fn kubectl_runs_are_judged() {
    assert_eq!(
        apply_args("/k"),
        vec!["--kubeconfig", "/k", "apply", "-f", "-"]
    );
    let error = || "e".to_string();
    assert_eq!(
        kubectl_apply(&ApplyRun::SpawnFailed { error: error() }),
        Err("failed to spawn kubectl: e".to_string())
    );
    assert_eq!(
        kubectl_apply(&ApplyRun::WriteFailed { error: error() }),
        Err("failed to write manifest to kubectl stdin: e".to_string())
    );
    assert_eq!(
        kubectl_apply(&ApplyRun::WaitFailed { error: error() }),
        Err("failed to wait for kubectl: e".to_string())
    );
    let ended = |success: bool| ApplyRun::Ended {
        success,
        stderr: b"denied\n".to_vec(),
    };
    assert_eq!(
        kubectl_apply(&ended(false)),
        Err("kubectl apply failed: denied\n".to_string())
    );
    assert_eq!(kubectl_apply(&ended(true)), Ok(()));
}

#[test]
fn the_bootstrap_goes_through_its_stages() {
    let mut stage = BootstrapStage::Namespace;
    let mut seen = vec![stage];
    loop {
        match bootstrap_gateway(stage, &Ok(())) {
            BootstrapStep::Next { stage: next } => {
                seen.push(next);
                stage = next;
            }
            BootstrapStep::Complete => break,
            BootstrapStep::Failed { error } => panic!("unexpected failure {error:?}"),
        }
    }
    assert_eq!(
        seen,
        vec![
            BootstrapStage::Namespace,
            BootstrapStage::Pki,
            BootstrapStage::ServerSecret,
            BootstrapStage::ClientCaSecret,
            BootstrapStage::ClientSecret,
            BootstrapStage::Metadata,
            BootstrapStage::Mtls,
            BootstrapStage::Active,
        ]
    );
    let texts: Vec<String> = seen
        .into_iter()
        .map(|stage| match bootstrap_gateway(stage, &Err("e".to_string())) {
            BootstrapStep::Failed { error } => error.message(),
            other => panic!("unexpected step {other:?}"),
        })
        .collect();
    assert_eq!(
        texts,
        vec![
            "bootstrap failed: timed out waiting for navigator namespace (240s). Check console.log for k3s errors.",
            "bootstrap failed: PKI generation failed: e",
            "bootstrap failed: failed to create secret navigator-server-tls: e",
            "bootstrap failed: failed to create secret navigator-server-client-ca: e",
            "bootstrap failed: failed to create secret navigator-client-tls: e",
            "bootstrap failed: failed to store cluster metadata: e",
            "bootstrap failed: failed to store mTLS credentials: e",
            "bootstrap failed: failed to set active cluster: e",
        ]
    );
}

#[test]
fn cluster_metadata_points_at_the_forwarded_ports() {
    let meta = gateway_metadata();
    assert_eq!(meta.name, "gateway");
    assert_eq!(meta.gateway_endpoint, "https://127.0.0.1:30051");
    assert_eq!(meta.gateway_port, 30051);
    assert_eq!(meta.kube_port, Some(6443));
    assert!(!meta.is_remote);
    assert_eq!(kubeconfig_text(&p("/k")), Ok("/k".to_string()));
    assert!(matches!(
        kubeconfig_text(&UnixPath { bytes: vec![0xff] }),
        Err(VmError::InvalidPath(_))
    ));
}
