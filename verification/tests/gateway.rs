use openshell_vm::gateway::{
    command_exit_code, configure_clean_env, default_rootfs_dir, exec_with_gateway_kubeconfig, filtered_path,
    gateway_kubeconfig_path, is_openshell_kubectl_wrapper, kubectl_candidates, net_backend,
    openshell_kubectl_wrapper_path, resolve_kubectl_binary, run, workspace_root, Candidate,
    HostEnv, RunArgs, RunDefaults,
};
use openshell_vm::path::UnixPath;
use openshell_vm::vm::config::NetBackend;

fn p(path: &str) -> UnixPath {
    UnixPath::new(path)
}

fn b(text: &str) -> Option<Vec<u8>> {
    Some(text.as_bytes().to_vec())
}

fn defaults() -> RunDefaults {
    RunDefaults {
        gvproxy: p("/rt/gvproxy"),
        rootfs: Ok(p("/data/rootfs")),
    }
}

fn args(net: &str) -> RunArgs {
    RunArgs {
        rootfs: None,
        exec_path: None,
        args: Vec::new(),
        env: Vec::new(),
        workdir: "/w".to_string(),
        port: Vec::new(),
        vcpus: None,
        mem: None,
        krun_log_level: 1,
        net: net.to_string(),
    }
}

fn host() -> HostEnv {
    HostEnv {
        home: b("/h"),
        term: None,
        colorterm: b("truecolor"),
        no_color: None,
        lang: None,
        lc_all: None,
        lc_ctype: None,
        tmpdir: b("/t"),
        path: b("/usr/bin:/ws/scripts/bin/:/bin"),
    }
}

fn strings(list: &[&str]) -> Vec<String> {
    list.iter().map(|s| (*s).to_string()).collect()
}

#[test]
fn a_run_is_the_gateway_unless_an_executable_is_given() {
    let config = run(args("gvproxy"), defaults()).unwrap();
    assert_eq!(config.exec_path, "/srv/gateway-init.sh");
    assert_eq!(config.rootfs, p("/data/rootfs"));
    assert_eq!(config.vcpus, 4);
    assert_eq!(config.mem_mib, 8192);
    assert_eq!(config.log_level, 1);
    assert_eq!(config.workdir, "/");
    assert_eq!(
        config.net,
        NetBackend::Gvproxy {
            binary: p("/rt/gvproxy")
        }
    );
    assert_eq!(config.port_map, vec!["6443:6444", "30051:30051"]);

    let mut a = args("tsi");
    a.port = strings(&["1:2"]);
    a.vcpus = Some(8);
    a.mem = Some(99);
    a.rootfs = Some(p("/mine"));
    let config = run(a, defaults()).unwrap();
    assert_eq!(config.rootfs, p("/mine"));
    assert_eq!(config.port_map, vec!["1:2"]);
    assert_eq!(config.vcpus, 8);
    assert_eq!(config.mem_mib, 99);
    assert_eq!(config.net, NetBackend::Tsi);

    let mut a = args("none");
    a.exec_path = Some("/bin/sh".to_string());
    a.args = strings(&["-l"]);
    let config = run(a, defaults()).unwrap();
    assert_eq!(config.exec_path, "/bin/sh");
    assert_eq!(config.args, vec!["-l"]);
    assert_eq!(config.vcpus, 2);
    assert_eq!(config.mem_mib, 2048);
    assert_eq!(config.workdir, "/w");
    assert!(config.env.is_empty());
    assert!(config.port_map.is_empty());
    assert_eq!(config.net, NetBackend::Disabled);
}

#[test]
fn a_run_needs_a_known_backend_and_a_root_file_system() {
    assert_eq!(
        run(args("bridge"), defaults()).expect_err("backend"),
        "unknown --net backend: bridge (expected: gvproxy, tsi, none)"
    );
    assert!(net_backend("", &defaults()).is_err());
    let lost = || RunDefaults {
        gvproxy: p("/g"),
        rootfs: Err("no home".to_string()),
    };
    assert_eq!(
        run(args("tsi"), lost()).expect_err("rootfs"),
        "no home"
    );
    let mut a = args("tsi");
    a.rootfs = Some(p("/r"));
    assert!(run(a, lost()).is_ok());
}

#[test]
fn workspace_paths() {
    let manifest = p("/ws/crates/openshell-vm");
    assert_eq!(workspace_root(&manifest), p("/ws"));
    assert_eq!(
        openshell_kubectl_wrapper_path(&manifest),
        p("/ws/scripts/bin/kubectl")
    );
    assert_eq!(
        gateway_kubeconfig_path(Ok("/h".to_string())),
        Ok(p("/h/.kube/gateway.yaml"))
    );
    assert_eq!(
        gateway_kubeconfig_path(Err("environment variable not found".to_string())),
        Err("environment variable not found".to_string())
    );
    assert_eq!(
        default_rootfs_dir(Ok("/h".to_string())),
        Ok(p("/h/.local/share/openshell/gateway/rootfs"))
    );
    assert_eq!(
        default_rootfs_dir(Err("environment variable not found".to_string())),
        Err("environment variable not found".to_string())
    );
}

#[test]
fn the_wrapper_is_known_by_its_canonical_path() {
    let wrapper = Some(p("/ws/scripts/bin/kubectl"));
    assert!(is_openshell_kubectl_wrapper(
        &Some(p("/ws/scripts//bin/./kubectl")),
        &wrapper
    ));
    assert!(!is_openshell_kubectl_wrapper(
        &Some(p("/usr/bin/kubectl")),
        &wrapper
    ));
    assert!(!is_openshell_kubectl_wrapper(&None, &wrapper));
    assert!(is_openshell_kubectl_wrapper(&None, &None));
}

#[test]
fn the_search_path_loses_the_wrapper() {
    let dir = p("/ws/scripts/bin");
    assert_eq!(
        filtered_path(&b("/a:/ws/scripts/bin/:/b::/ws/./scripts/bin"), &dir),
        b"/a:/b:".to_vec()
    );
    assert_eq!(filtered_path(&b("/ws/scripts/bin"), &dir), b"".to_vec());
    assert_eq!(filtered_path(&None, &dir), b"".to_vec());
}

#[test]
fn the_first_real_kubectl_is_taken() {
    let wrapper = Some(p("/ws/scripts/bin/kubectl"));
    let candidates: Vec<Candidate> = kubectl_candidates(&b("/ws/scripts/bin:/none:/usr/bin:/bin"))
        .into_iter()
        .map(|path| Candidate {
            is_file: path != p("/none/kubectl"),
            canonical: Some(path.clone()),
            path,
        })
        .collect();
    assert_eq!(candidates.len(), 4);
    assert_eq!(
        resolve_kubectl_binary(&None, &candidates, &wrapper),
        Ok(p("/usr/bin/kubectl"))
    );
    assert_eq!(
        resolve_kubectl_binary(&b("/my/kubectl"), &candidates, &wrapper),
        Ok(p("/my/kubectl"))
    );
    assert_eq!(
        resolve_kubectl_binary(&None, &Vec::new(), &wrapper),
        Err("could not find a real kubectl binary on PATH; install kubectl or set OPENSHELL_GATEWAY_KUBECTL".to_string())
    );
    assert_eq!(kubectl_candidates(&None), vec![p("kubectl")]);
}

#[test]
fn a_command_sees_a_clean_environment() {
    let env: Vec<(String, String)> =
        configure_clean_env(&p("/k"), &host(), &p("/ws/scripts/bin"))
            .into_iter()
            .map(|(k, v)| (k, String::from_utf8(v).unwrap()))
            .collect();
    let expected: Vec<(String, String)> = [
        ("KUBECONFIG", "/k"),
        ("HOME", "/h"),
        ("COLORTERM", "truecolor"),
        ("TMPDIR", "/t"),
        ("PATH", "/usr/bin:/bin"),
    ]
    .into_iter()
    .map(|(k, v)| (k.to_string(), v.to_string()))
    .collect();
    assert_eq!(env, expected);
}

fn planned(command: &[&str]) -> (UnixPath, Vec<String>) {
    let plan = exec_with_gateway_kubeconfig(
        &strings(command),
        &p("/k"),
        true,
        Ok(p("/usr/bin/kubectl")),
        &host(),
        &p("/ws/scripts/bin"),
    )
    .unwrap();
    let args = plan
        .args
        .into_iter()
        .map(|a| String::from_utf8(a).unwrap())
        .collect();
    (plan.program, args)
}

#[test]
fn kubectl_gets_the_gateway_kubeconfig() {
    assert_eq!(
        planned(&["kubectl", "get", "pods"]),
        (
            p("/usr/bin/kubectl"),
            strings(&["--kubeconfig", "/k", "get", "pods"])
        )
    );
    assert_eq!(
        planned(&["kubectl", "--kubeconfig=/other", "get"]).1,
        strings(&["--kubeconfig=/other", "get"])
    );
    assert_eq!(
        planned(&["kubectl", "get", "--kubeconfig", "/other"]).1,
        strings(&["get", "--kubeconfig", "/other"])
    );
    assert_eq!(
        planned(&["kubectl", "--kubeconfigs"]).1,
        strings(&["--kubeconfig", "/k", "--kubeconfigs"])
    );
    assert_eq!(planned(&["sh", "-c", "x"]), (p("sh"), strings(&["-c", "x"])));
}

#[test]
fn a_command_needs_a_kubeconfig_and_kubectl_a_binary() {
    let exec = |command: &[&str], is_file: bool| {
        exec_with_gateway_kubeconfig(
            &strings(command),
            &p("/k"),
            is_file,
            Err("no kubectl".to_string()),
            &host(),
            &p("/ws/scripts/bin"),
        )
    };
    assert_eq!(
        exec(&["sh"], false).expect_err("kubeconfig"),
        "gateway kubeconfig not found: /k\nStart the VM first with `gateway` or `mise run vm`."
    );
    assert_eq!(
        exec(&["kubectl"], true).expect_err("binary"),
        "no kubectl"
    );
    assert!(exec(&["sh"], true).is_ok());
    assert_eq!(command_exit_code(Some(4)), 4);
    assert_eq!(command_exit_code(None), 1);
}
