use openshell_vm::path::UnixPath;
use openshell_vm::state_disk::{
    check_owner, ensure_state_disk, prepare_import_socket_dir, verify_import_socket_path,
    NodeFacts, SandboxStatePaths, DEFAULT_STATE_DISK_SIZE_BYTES, GUEST_SSH_PORT,
    IMPORT_VSOCK_PORT, STATE_DISK_BLOCK_ID,
};

fn node(uid: u32, mode: u32) -> NodeFacts {
    NodeFacts {
        is_symlink: false,
        uid,
        mode,
    }
}

#[test]
fn sandbox_state_paths_places_files_inside_state_dir() {
    let paths = SandboxStatePaths::for_state_dir(&UnixPath::new("/srv/state/abc"));
    assert_eq!(
        paths.state_disk,
        UnixPath::new("/srv/state/abc/sandbox-state.raw")
    );
    assert_eq!(
        paths.import_socket,
        UnixPath::new("/srv/state/abc/oci-import.sock")
    );
}

#[test]
fn ensure_state_disk_creates_sparse_file_of_requested_size() {
    let disk = UnixPath::new("/s/state.raw");
    let plan = ensure_state_disk(&disk, 1024 * 1024, 0);
    assert_eq!(plan.set_len, Some(1024 * 1024));
    assert_eq!(plan.create, Some(UnixPath::new("/s")));
    assert_eq!(plan.open, disk);
}

#[test]
fn ensure_state_disk_grows_but_does_not_shrink() {
    let disk = UnixPath::new("/s/state.raw");
    let mut len: u64 = 0;
    for (size, expected) in [(4096, 4096), (8192, 8192), (2048, 8192)] {
        if let Some(n) = ensure_state_disk(&disk, size, len).set_len {
            len = n;
        }
        assert_eq!(len, expected);
    }
}

#[test]
fn prepare_import_socket_dir_creates_0700_dir_when_absent() {
    let socket = UnixPath::new("/s/run/oci-import.sock");
    let plan = prepare_import_socket_dir(&socket, None, 1000).expect("prepare");
    assert_eq!(plan.create, Some(UnixPath::new("/s/run")));
    assert_eq!(plan.mode & 0o777, 0o700);
    assert_eq!(plan.remove, socket);
    let again = prepare_import_socket_dir(&socket, Some(node(1000, 0o40700)), 1000);
    assert!(again.is_ok());
}

#[test]
fn prepare_import_socket_dir_removes_stale_socket_file() {
    let socket = UnixPath::new("/s/oci-import.sock");
    let plan =
        prepare_import_socket_dir(&socket, Some(node(1000, 0o700)), 1000).expect("prepare");
    assert_eq!(plan.create, None);
    assert_eq!(plan.remove, socket);
}

#[test]
fn prepare_import_socket_dir_rejects_world_writable_dir() {
    let socket = UnixPath::new("/s/oci-import.sock");
    let err = prepare_import_socket_dir(&socket, Some(node(1000, 0o40755)), 1000)
        .expect_err("loose dir should be rejected");
    assert!(err.message.contains("permissions"));
    assert_eq!(
        err.message,
        "import socket directory /s has permissions 755; expected 0700"
    );
}

#[test]
fn verify_import_socket_path_rejects_symlink() {
    let socket = UnixPath::new("/s/oci-import.sock");
    let link = NodeFacts {
        is_symlink: true,
        uid: 1000,
        mode: 0o120777,
    };
    let err = verify_import_socket_path(&socket, link, node(1000, 0o700), 1000)
        .expect_err("symlinked socket should be rejected");
    assert!(err.message.contains("symlink"));
    assert_eq!(
        err.message,
        "import socket path /s/oci-import.sock is a symlink; refusing to use it"
    );
}

#[test]
fn a_socket_must_be_private_and_so_must_its_directory() {
    let socket = UnixPath::new("/s/sock");
    let own = node(7, 0o140600);
    assert!(verify_import_socket_path(&socket, own, node(7, 0o40500), 7).is_ok());
    let err = verify_import_socket_path(&socket, node(7, 0o140755), node(7, 0o700), 7)
        .expect_err("others can connect");
    assert_eq!(
        err.message,
        "import socket path /s/sock has permissions 755; expected 0700"
    );
    let err = verify_import_socket_path(&socket, own, node(7, 0o40710), 7)
        .expect_err("others can enter");
    assert_eq!(
        err.message,
        "import socket directory /s has permissions 710; expected 0700"
    );
    let err = verify_import_socket_path(&socket, node(8, 0o600), node(7, 0o700), 7)
        .expect_err("not ours");
    assert_eq!(
        err.message,
        "/s/sock is owned by uid 8 but we are uid 7"
    );
    let link = NodeFacts {
        is_symlink: true,
        uid: 7,
        mode: 0o700,
    };
    let err = verify_import_socket_path(&socket, own, link, 7).expect_err("linked directory");
    assert_eq!(
        err.message,
        "import socket directory /s is a symlink; refusing to use it"
    );
}

#[test]
fn a_socket_path_needs_a_directory() {
    let err = prepare_import_socket_dir(&UnixPath::new("/"), None, 1).expect_err("no parent");
    assert_eq!(err.message, "import socket path has no parent directory");
    assert!(check_owner(&UnixPath::new("/x"), node(1, 0o777), 1).is_ok());
}

#[test]
fn state_constants() {
    assert_eq!(DEFAULT_STATE_DISK_SIZE_BYTES, 16 * 1024 * 1024 * 1024);
    assert_eq!(STATE_DISK_BLOCK_ID, "sandbox-state");
    assert_eq!(IMPORT_VSOCK_PORT, 10778);
    assert_eq!(GUEST_SSH_PORT, 2222);
}
