use openshell_vm::oci::compat::{
    append_user_db_entry, ensure_group_entry, ensure_passwd_entry, inject, pick_shell, RootFacts,
    ShellFacts, TreeStep, SANDBOX_GID, SANDBOX_UID, SANDBOX_USER,
};
use openshell_vm::path::UnixPath;
use std::collections::{BTreeMap, BTreeSet};

/// A tree in memory: files with their contents, and directories.
struct Root {
    files: BTreeMap<String, String>,
    dirs: BTreeSet<String>,
    modes: BTreeMap<String, u32>,
}

fn text(path: &UnixPath) -> String {
    path.to_str().unwrap()
}

impl Root {
    fn fresh() -> Root {
        Root {
            files: BTreeMap::new(),
            dirs: BTreeSet::new(),
            modes: BTreeMap::new(),
        }
    }

    fn write(&mut self, path: &str, contents: &str) {
        self.files.insert(format!("/r/{path}"), contents.to_string());
    }

    fn read(&self, path: &str) -> String {
        self.files[&format!("/r/{path}")].clone()
    }

    fn holds(&self, path: &str) -> bool {
        let full = format!("/r/{path}");
        self.files.contains_key(&full) || self.dirs.contains(&full)
    }

    fn facts(&self) -> RootFacts {
        RootFacts {
            shells: ShellFacts {
                bin_sh: self.holds("bin/sh"),
                sbin_nologin: self.holds("sbin/nologin"),
                usr_sbin_nologin: self.holds("usr/sbin/nologin"),
                bin_false: self.holds("bin/false"),
            },
            passwd: self.files.get("/r/etc/passwd").cloned().unwrap_or_default(),
            group: self.files.get("/r/etc/group").cloned().unwrap_or_default(),
            sandbox_dir: self.holds("sandbox"),
            tmp_dir: self.holds("tmp"),
            hosts_file: self.holds("etc/hosts"),
            resolv_conf_file: self.holds("etc/resolv.conf"),
        }
    }

    fn inject(&mut self) -> usize {
        let steps = inject(&UnixPath::new("/r"), &self.facts());
        let mut writes = 0;
        for step in steps {
            match step {
                TreeStep::CreateDirAll { path } => {
                    self.dirs.insert(text(&path));
                }
                TreeStep::Write { path, contents } => {
                    writes += 1;
                    self.files.insert(text(&path), contents);
                }
                TreeStep::SetMode { path, mode } => {
                    self.modes.insert(text(&path), mode);
                }
            }
        }
        writes
    }
}

#[test]
fn inject_populates_passwd_group_and_dirs_on_empty_root() {
    let mut root = Root::fresh();
    root.inject();

    let passwd = root.read("etc/passwd");
    assert!(passwd.contains(&format!("{SANDBOX_USER}:x:{SANDBOX_UID}:{SANDBOX_GID}:")));
    let group = root.read("etc/group");
    assert!(group.contains(&format!("{SANDBOX_USER}:x:{SANDBOX_GID}:")));
    assert!(root.dirs.contains("/r/sandbox"));
    assert!(root.dirs.contains("/r/tmp"));
    assert_eq!(root.modes["/r/tmp"], 0o1777);
    assert_eq!(root.modes["/r/sandbox"], 0o755);
    assert!(root.holds("etc/hosts"));
    assert!(root.holds("etc/resolv.conf"));
}

#[test]
fn inject_is_idempotent_and_does_not_duplicate_entries() {
    let mut root = Root::fresh();
    root.inject();
    assert_eq!(root.inject(), 0);
    let passwd = root.read("etc/passwd");
    let count = passwd
        .lines()
        .filter(|line| line.starts_with(&format!("{SANDBOX_USER}:")))
        .count();
    assert_eq!(count, 1, "sandbox user should appear exactly once");
}

#[test]
fn inject_preserves_existing_passwd_entries() {
    let mut root = Root::fresh();
    root.write("etc/passwd", "root:x:0:0:root:/root:/bin/sh\n");
    root.inject();
    let passwd = root.read("etc/passwd");
    assert!(passwd.contains("root:x:0:0:"));
    assert!(passwd.contains(&format!("{SANDBOX_USER}:x:{SANDBOX_UID}:")));
}

#[test]
fn inject_uses_nologin_when_no_shell_present() {
    let mut root = Root::fresh();
    root.inject();
    let passwd = root.read("etc/passwd");
    assert!(
        passwd.contains(":/sbin/nologin"),
        "expected nologin fallback, got: {passwd}"
    );
}

#[test]
fn inject_uses_bin_sh_when_available() {
    let mut root = Root::fresh();
    root.write("bin/sh", "");
    root.inject();
    let passwd = root.read("etc/passwd");
    assert!(passwd.contains(":/bin/sh"));
}

#[test]
fn inject_does_not_truncate_existing_etc_hosts() {
    let mut root = Root::fresh();
    root.write("etc/hosts", "127.0.0.1 localhost\n");
    root.inject();
    assert!(root.read("etc/hosts").contains("127.0.0.1"));
}

#[test]
fn user_database_lines_are_exact() {
    let none = ShellFacts {
        bin_sh: false,
        sbin_nologin: false,
        usr_sbin_nologin: false,
        bin_false: true,
    };
    let root = UnixPath::new("/r");
    let steps = ensure_passwd_entry(&root, none, "root:x:0:0::/:/bin/sh");
    assert_eq!(
        steps,
        vec![
            TreeStep::CreateDirAll {
                path: UnixPath::new("/r/etc")
            },
            TreeStep::Write {
                path: UnixPath::new("/r/etc/passwd"),
                contents: "root:x:0:0::/:/bin/sh\nsandbox:x:10001:10001:OpenShell Sandbox:/sandbox:/bin/false\n"
                    .to_string(),
            },
            TreeStep::SetMode {
                path: UnixPath::new("/r/etc/passwd"),
                mode: 0o644
            },
        ]
    );
    let steps = ensure_group_entry(&root, "");
    assert_eq!(
        steps[1],
        TreeStep::Write {
            path: UnixPath::new("/r/etc/group"),
            contents: "sandbox:x:10001:\n".to_string(),
        }
    );
    assert_eq!(ensure_group_entry(&root, "sandbox:x:5:\n").len(), 1);
}

#[test]
fn entries_are_known_by_their_line_start() {
    assert_eq!(append_user_db_entry("a:1\nkey:2\n", "key", "key:3\n"), None);
    assert_eq!(
        append_user_db_entry("a:1\nxkey:2\n", "key", "key:3\n"),
        Some("a:1\nxkey:2\nkey:3\n".to_string())
    );
    assert_eq!(
        append_user_db_entry("keys:1", "key", "key:3\n"),
        Some("keys:1\nkey:3\n".to_string())
    );
}

#[test]
fn shells_are_preferred_in_order() {
    let mut facts = ShellFacts {
        bin_sh: true,
        sbin_nologin: true,
        usr_sbin_nologin: true,
        bin_false: true,
    };
    assert_eq!(pick_shell(facts), "/bin/sh");
    facts.bin_sh = false;
    assert_eq!(pick_shell(facts), "/sbin/nologin");
    facts.sbin_nologin = false;
    assert_eq!(pick_shell(facts), "/bin/false");
    facts.bin_false = false;
    assert_eq!(pick_shell(facts), "/usr/sbin/nologin");
    facts.usr_sbin_nologin = false;
    assert_eq!(pick_shell(facts), "/sbin/nologin");
}

#[test]
fn a_second_injection_repeats_changes_of_the_first() {
    let mut root = Root::fresh();
    let at = UnixPath::new("/r");
    let first = inject(&at, &root.facts());
    root.inject();
    let second = inject(&at, &root.facts());
    let etc = || TreeStep::CreateDirAll {
        path: UnixPath::new("/r/etc"),
    };
    let mode = |path: &str, mode: u32| TreeStep::SetMode {
        path: UnixPath::new(path),
        mode,
    };
    assert_eq!(
        second,
        vec![
            etc(),
            etc(),
            mode("/r/sandbox", 0o755),
            mode("/r/tmp", 0o1777),
            etc(),
            mode("/r/etc/hosts", 0o644),
            etc(),
            mode("/r/etc/resolv.conf", 0o644),
        ]
    );
    for step in &second {
        assert!(first.contains(step));
    }
}
