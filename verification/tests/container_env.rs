use openshell_vm::container_env::{
    apply_clean_container_baseline, is_container_mode, parse_kv, read_container_env,
    CONTAINER_ENV_COUNT, CONTAINER_ENV_PREFIX, CONTAINER_MODE_ENV, DEFAULT_CONTAINER_PATH,
};
use openshell_vm::string_map::StringMap;

struct EnvGuard {
    environ: StringMap,
}

impl EnvGuard {
    fn new() -> Self {
        Self {
            environ: StringMap::new(),
        }
    }

    fn set(&mut self, key: &str, value: &str) {
        self.environ.insert(key.to_string(), value.to_string());
    }
}

#[test]
fn is_container_mode_matches_only_when_env_is_one() {
    let mut guard = EnvGuard::new();
    assert!(!is_container_mode(&guard.environ), "default should be off");
    guard.set(CONTAINER_MODE_ENV, "0");
    assert!(!is_container_mode(&guard.environ));
    guard.set(CONTAINER_MODE_ENV, "1");
    assert!(is_container_mode(&guard.environ));
}

#[test]
fn read_container_env_decodes_ordered_pairs() {
    let mut guard = EnvGuard::new();
    guard.set(CONTAINER_ENV_COUNT, "3");
    guard.set(&format!("{CONTAINER_ENV_PREFIX}0"), "A=1");
    guard.set(&format!("{CONTAINER_ENV_PREFIX}1"), "B=2");
    guard.set(&format!("{CONTAINER_ENV_PREFIX}2"), "PATH=/custom/bin");

    let entries = read_container_env(&guard.environ);
    assert_eq!(
        entries,
        vec![
            ("A".to_string(), "1".to_string()),
            ("B".to_string(), "2".to_string()),
            ("PATH".to_string(), "/custom/bin".to_string()),
        ]
    );
}

#[test]
fn read_container_env_skips_malformed_or_missing_entries() {
    let mut guard = EnvGuard::new();
    guard.set(CONTAINER_ENV_COUNT, "3");
    guard.set(&format!("{CONTAINER_ENV_PREFIX}0"), "A=1");
    // index 1 is missing
    guard.set(&format!("{CONTAINER_ENV_PREFIX}2"), "no-equals-sign");

    let entries = read_container_env(&guard.environ);
    assert_eq!(entries, vec![("A".to_string(), "1".to_string())]);
}

#[test]
fn apply_clean_baseline_clears_existing_env_and_seeds_defaults() {
    let mut guard = EnvGuard::new();
    guard.set(CONTAINER_ENV_COUNT, "1");
    guard.set(&format!("{CONTAINER_ENV_PREFIX}0"), "FROM_IMAGE=yes");
    guard.set("LEAKED_FROM_PARENT", "should-be-cleared");
    guard.set("OPENSHELL_CONTROL_SECRET", "must-not-leak");

    let env = StringMap::from_pairs(&apply_clean_container_baseline(&guard.environ));
    assert_eq!(env.get("HOME"), Some("/sandbox".to_string()));
    assert_eq!(env.get("TERM"), Some("xterm".to_string()));
    assert_eq!(env.get("FROM_IMAGE"), Some("yes".to_string()));
    assert_eq!(env.get("OPENSHELL_SANDBOX"), Some("1".to_string()));
    assert!(
        env.get("LEAKED_FROM_PARENT").is_none(),
        "pre-existing env must be cleared before baseline"
    );
    assert!(
        env.get("OPENSHELL_CONTROL_SECRET").is_none(),
        "control-plane env must not leak"
    );
    assert_eq!(env.get("PATH"), Some(DEFAULT_CONTAINER_PATH.to_string()));
    assert_eq!(env.len(), 5);
}

#[test]
fn container_env_cannot_override_openshell_sandbox_marker() {
    let mut guard = EnvGuard::new();
    guard.set(CONTAINER_ENV_COUNT, "1");
    guard.set(
        &format!("{CONTAINER_ENV_PREFIX}0"),
        "OPENSHELL_SANDBOX=hijacked",
    );

    let env = StringMap::from_pairs(&apply_clean_container_baseline(&guard.environ));
    assert_eq!(env.get("OPENSHELL_SANDBOX"), Some("1".to_string()));
}

#[test]
fn container_env_overrides_the_shell_defaults() {
    let mut guard = EnvGuard::new();
    guard.set(CONTAINER_ENV_COUNT, "2");
    guard.set(&format!("{CONTAINER_ENV_PREFIX}0"), "PATH=/first");
    guard.set(&format!("{CONTAINER_ENV_PREFIX}1"), "PATH=/second");
    let env = StringMap::from_pairs(&apply_clean_container_baseline(&guard.environ));
    assert_eq!(env.get("PATH"), Some("/second".to_string()));
}

#[test]
fn parse_kv_splits_on_first_equals() {
    assert_eq!(
        parse_kv("A=hello=world"),
        Some(("A".to_string(), "hello=world".to_string()))
    );
    assert_eq!(parse_kv("A="), Some(("A".to_string(), String::new())));
    assert!(parse_kv("no-equals").is_none());
    assert!(parse_kv("=value").is_none());
}

#[test]
fn a_count_that_is_no_number_counts_nothing() {
    for text in ["", "-1", "x", "1 ", "99999999999999999999999"] {
        let mut guard = EnvGuard::new();
        guard.set(CONTAINER_ENV_COUNT, text);
        guard.set(&format!("{CONTAINER_ENV_PREFIX}0"), "A=1");
        assert!(read_container_env(&guard.environ).is_empty(), "{text}");
    }
    let mut guard = EnvGuard::new();
    guard.set(CONTAINER_ENV_COUNT, "+01");
    guard.set(&format!("{CONTAINER_ENV_PREFIX}0"), "A=1");
    assert_eq!(read_container_env(&guard.environ).len(), 1);
}
