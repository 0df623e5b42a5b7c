use openshell_vm::fault::FaultKind;
use openshell_vm::oci::archive::is_walkable;
use openshell_vm::oci::flatten::{
    apply_layer, apply_layer_bytes, apply_tar_stream, layer_encoding, plan_entries, remove_any,
    sanitize_relative, survives_clear, Encoding, LayerError, LayerPlan, LayerStep, Removal,
    Standing,
};
use openshell_vm::path::UnixPath;
use std::collections::BTreeMap;
use std::io::{Read, Write};

/// Build an in-memory tar stream from a list of (path, contents) pairs.
fn build_tar(entries: &[(&str, &[u8])]) -> Vec<u8> {
    let mut buf = Vec::new();
    {
        let mut builder = tar::Builder::new(&mut buf);
        for (path, contents) in entries {
            let mut header = tar::Header::new_gnu();
            header.set_path(path).unwrap();
            header.set_size(contents.len() as u64);
            if path.ends_with('/') {
                header.set_mode(0o755);
                header.set_entry_type(tar::EntryType::Directory);
            } else {
                header.set_mode(0o644);
                header.set_entry_type(tar::EntryType::Regular);
            }
            header.set_cksum();
            builder.append(&header, *contents).unwrap();
        }
        builder.finish().unwrap();
    }
    buf
}

fn gzip(bytes: &[u8]) -> Vec<u8> {
    let mut gz = Vec::new();
    let mut enc = flate2::write::GzEncoder::new(&mut gz, flate2::Compression::fast());
    enc.write_all(bytes).unwrap();
    enc.finish().unwrap();
    gz
}

/// A tree in memory: contents of files, none for directories.
struct Tree {
    nodes: BTreeMap<String, Option<Vec<u8>>>,
}

fn text(path: &UnixPath) -> String {
    let mut s = path.to_str().unwrap();
    while s.len() > 1 && s.ends_with('/') {
        s.pop();
    }
    s
}

impl Tree {
    fn new() -> Tree {
        Tree {
            nodes: BTreeMap::new(),
        }
    }

    fn holds(&self, path: &str) -> bool {
        self.nodes.contains_key(&format!("/root/{path}"))
    }

    fn read(&self, path: &str) -> String {
        let bytes = self.nodes[&format!("/root/{path}")].clone().unwrap();
        String::from_utf8(bytes).unwrap()
    }

    fn remove(&mut self, at: &str) {
        let below = format!("{at}/");
        self.nodes
            .retain(|k, _| k.as_str() != at && !k.starts_with(&below));
    }

    fn run(&mut self, plan: &LayerPlan, layer: &[u8]) {
        assert_eq!(plan.fault, None);
        let mut archive = tar::Archive::new(layer);
        let mut count = 0;
        for (entry, step) in archive.entries().unwrap().zip(plan.steps.iter()) {
            let mut entry = entry.unwrap();
            count += 1;
            match step {
                LayerStep::Skip => {}
                LayerStep::Clear { path, keep } => {
                    let below = format!("{}/", text(path));
                    self.nodes.retain(|k, _| {
                        !k.starts_with(&below) || survives_clear(&UnixPath::new(k), keep)
                    });
                }
                LayerStep::Remove { path } => match remove_any(Standing::Directory) {
                    Removal::RemoveTree => self.remove(&text(path)),
                    _ => panic!("a directory is removed as a tree"),
                },
                LayerStep::Unpack { parent, path } => {
                    if let Some(dir) = parent {
                        let mut at = String::new();
                        for name in text(dir).split('/').skip(1) {
                            at = format!("{at}/{name}");
                            self.nodes.entry(at.clone()).or_insert(None);
                        }
                    }
                    if entry.header().entry_type() == tar::EntryType::Directory {
                        self.nodes.entry(text(path)).or_insert(None);
                    } else {
                        let mut contents = Vec::new();
                        entry.read_to_end(&mut contents).unwrap();
                        self.nodes.insert(text(path), Some(contents));
                    }
                }
            }
        }
        assert_eq!(count, plan.steps.len());
    }

    fn apply(&mut self, layer: Vec<u8>) {
        let plan = apply_tar_stream(&UnixPath::new("/root"), &layer);
        self.run(&plan, &layer);
    }
}

#[test]
fn whiteout_removes_file_from_lower_layer() {
    let mut root = Tree::new();
    root.apply(build_tar(&[
        ("app/", b""),
        ("app/a.txt", b"a"),
        ("app/b.txt", b"b"),
    ]));
    assert!(root.holds("app/a.txt"));

    root.apply(build_tar(&[("app/.wh.a.txt", b"")]));

    assert!(!root.holds("app/a.txt"), "whiteout should remove a");
    assert!(root.holds("app/b.txt"), "b should still exist");
    assert!(
        !root.holds("app/.wh.a.txt"),
        "marker should not be materialized"
    );
}

#[test]
fn opaque_whiteout_clears_directory_before_additions() {
    let mut root = Tree::new();
    root.apply(build_tar(&[
        ("data/", b""),
        ("data/keep.txt", b"lower"),
        ("data/gone.txt", b"lower"),
    ]));
    root.apply(build_tar(&[
        ("data/", b""),
        ("data/.wh..wh..opq", b""),
        ("data/new.txt", b"upper"),
    ]));

    assert!(!root.holds("data/keep.txt"));
    assert!(!root.holds("data/gone.txt"));
    assert!(root.holds("data/new.txt"));
    assert_eq!(root.read("data/new.txt"), "upper");
}

#[test]
fn opaque_whiteout_keeps_additions_that_precede_it() {
    let mut root = Tree::new();
    root.apply(build_tar(&[
        ("data/", b""),
        ("data/old.txt", b"lower"),
        ("data/sub/", b""),
        ("data/sub/old.txt", b"lower"),
    ]));
    root.apply(build_tar(&[
        ("data/new.txt", b"upper"),
        ("data/sub/new.txt", b"upper"),
        ("data/.wh..wh..opq", b""),
    ]));
    assert!(!root.holds("data/old.txt"));
    assert!(!root.holds("data/sub/old.txt"));
    assert_eq!(root.read("data/new.txt"), "upper");
    assert_eq!(root.read("data/sub/new.txt"), "upper");
    assert!(root.holds("data"));
}

#[test]
fn opaque_whiteout_at_the_top_clears_the_whole_tree() {
    let mut root = Tree::new();
    root.apply(build_tar(&[("a.txt", b"1"), ("d/b.txt", b"2")]));
    root.apply(build_tar(&[(".wh..wh..opq", b""), ("c.txt", b"3")]));
    assert!(!root.holds("a.txt"));
    assert!(!root.holds("d"));
    assert_eq!(root.read("c.txt"), "3");
}

#[test]
fn whiteout_removes_directory_recursively() {
    let mut root = Tree::new();
    root.apply(build_tar(&[
        ("dir/", b""),
        ("dir/a.txt", b"a"),
        ("dir/sub/", b""),
        ("dir/sub/b.txt", b"b"),
    ]));
    root.apply(build_tar(&[(".wh.dir", b"")]));
    assert!(!root.holds("dir"));
}

#[test]
fn layers_apply_in_order_with_later_overwriting_earlier() {
    let mut root = Tree::new();
    root.apply(build_tar(&[("x.txt", b"v1")]));
    root.apply(build_tar(&[("x.txt", b"v2")]));
    assert_eq!(root.read("x.txt"), "v2");
}

#[test]
fn sanitize_relative_rejects_absolute_paths() {
    assert!(sanitize_relative(&UnixPath::new("/etc/passwd")).is_none());
}

#[test]
fn sanitize_relative_rejects_parent_traversal() {
    assert!(sanitize_relative(&UnixPath::new("../escape.txt")).is_none());
    assert!(sanitize_relative(&UnixPath::new("a/../../etc/passwd")).is_none());
}

#[test]
fn sanitize_relative_strips_curdir_and_keeps_clean_paths() {
    assert_eq!(
        sanitize_relative(&UnixPath::new("./etc/hosts")).unwrap(),
        UnixPath::new("etc/hosts")
    );
    assert_eq!(
        sanitize_relative(&UnixPath::new("app/bin/sh")).unwrap(),
        UnixPath::new("app/bin/sh")
    );
}

#[test]
fn sanitize_relative_rejects_empty_and_root_only_paths() {
    assert!(sanitize_relative(&UnixPath::new("")).is_none());
    assert!(sanitize_relative(&UnixPath::new("/")).is_none());
    assert!(sanitize_relative(&UnixPath::new(".")).is_none());
}

#[test]
fn apply_layer_bytes_dispatches_on_media_type() {
    let mut root = Tree::new();
    let dest = UnixPath::new("/root");

    let tarball = build_tar(&[("plain.txt", b"v")]);
    let plan = apply_layer_bytes(&dest, "application/vnd.oci.image.layer.v1.tar", &tarball);
    root.run(&plan, &tarball);
    assert!(root.holds("plain.txt"));

    let inner = build_tar(&[("gz.txt", b"v")]);
    let plan = apply_layer_bytes(
        &dest,
        "application/vnd.oci.image.layer.v1.tar+gzip",
        &gzip(&inner),
    );
    root.run(&plan, &inner);
    assert!(root.holds("gz.txt"));
}

#[test]
fn apply_layer_bytes_rejects_zstd_in_v1() {
    let plan = apply_layer_bytes(
        &UnixPath::new("/root"),
        "application/vnd.oci.image.layer.v1.tar+zstd",
        &Vec::new(),
    );
    assert!(plan.steps.is_empty());
    let err = plan.fault.expect("zstd should be rejected");
    assert!(err.message().contains("zstd"));
    assert_eq!(
        err.message(),
        "unsupported layer media type (zstd not supported in v1): application/vnd.oci.image.layer.v1.tar+zstd"
    );
}

#[test]
fn apply_layer_bytes_rejects_unknown_media_type() {
    let plan = apply_layer_bytes(&UnixPath::new("/root"), "application/bogus", &Vec::new());
    assert!(plan.steps.is_empty());
    let err = plan.fault.expect("unknown media type should fail");
    assert!(err.message().contains("unknown"));
    assert_eq!(err.message(), "unknown layer media type: application/bogus");
}

#[test]
fn apply_layer_handles_gzip_streams() {
    let tarball = build_tar(&[("hello.txt", b"world")]);
    let plan = apply_layer(&UnixPath::new("/root"), &gzip(&tarball));
    let mut root = Tree::new();
    root.run(&plan, &tarball);
    assert_eq!(root.read("hello.txt"), "world");
}

#[test]
fn media_types_name_their_encoding() {
    assert_eq!(
        layer_encoding(" application/vnd.docker.image.rootfs.diff.tar.gzip ; x=y"),
        Encoding::Gzip
    );
    assert_eq!(layer_encoding("application/x-tar"), Encoding::Plain);
    assert_eq!(layer_encoding("x+tar"), Encoding::Plain);
    assert_eq!(layer_encoding("x+zstd"), Encoding::Zstd);
    assert_eq!(layer_encoding(""), Encoding::Unknown);
}

#[test]
fn an_unsafe_path_ends_the_plan_after_the_entries_before_it() {
    let paths = vec![
        UnixPath::new("ok.txt"),
        UnixPath::new("../up"),
        UnixPath::new("never.txt"),
    ];
    let plan = plan_entries(&UnixPath::new("/root"), &paths, None);
    assert_eq!(
        plan.steps,
        vec![LayerStep::Unpack {
            parent: Some(UnixPath::new("/root")),
            path: UnixPath::new("/root/ok.txt"),
        }]
    );
    assert_eq!(
        plan.fault,
        Some(LayerError::UnsafePath("../up".to_string()))
    );
    assert_eq!(
        plan.fault.unwrap().message(),
        "layer tar contains unsafe path: ../up"
    );
}

#[test]
fn a_name_that_is_no_text_is_skipped() {
    let paths = vec![UnixPath {
        bytes: vec![b'd', b'/', 0xff],
    }];
    let plan = plan_entries(&UnixPath::new("/root"), &paths, None);
    assert_eq!(plan.steps, vec![LayerStep::Skip]);
    assert_eq!(plan.fault, None);
}

#[test]
fn a_broken_archive_is_a_fault_behind_the_entries_read() {
    let mut tarball = build_tar(&[("a.txt", b"1"), ("b.txt", b"2")]);
    tarball.truncate(512 + 512 + 100);
    let plan = apply_tar_stream(&UnixPath::new("/root"), &tarball);
    assert_eq!(plan.steps.len(), 1);
    assert!(matches!(plan.fault, Some(LayerError::Archive(_))));

    let plan = apply_layer(&UnixPath::new("/root"), &vec![1, 2, 3]);
    assert!(plan.steps.is_empty());
    assert!(matches!(plan.fault, Some(LayerError::Archive(_))));
}

#[test]
fn removal_goes_by_what_stands_there() {
    assert_eq!(remove_any(Standing::Missing), Removal::Done);
    assert_eq!(remove_any(Standing::Directory), Removal::RemoveTree);
    assert_eq!(remove_any(Standing::Other), Removal::RemoveFile);
}

/// The header of a sparse file whose map goes on in the next block, with the
/// given size field, and that block.
fn extended_sparse(size: [u8; 12]) -> Vec<u8> {
    let mut header = tar::Header::new_gnu();
    header.set_path("sparse").unwrap();
    header.set_entry_type(tar::EntryType::GNUSparse);
    {
        let gnu = header.as_gnu_mut().unwrap();
        gnu.size = size;
        gnu.set_is_extended(true);
    }
    header.set_cksum();
    let mut bytes = header.as_bytes().to_vec();
    bytes.extend_from_slice(&[0u8; 512]);
    bytes
}

const FAR: [u8; 12] = [
    0x80, 0, 0, 0, 0xff, 0xff, 0xff, 0xff, 0xff, 0xff, 0xfc, 0x00,
];

/// As far, for a header with two blocks before it.
const FAR_BEHIND: [u8; 12] = [
    0x80, 0, 0, 0, 0xff, 0xff, 0xff, 0xff, 0xff, 0xff, 0xf8, 0x00,
];

fn octal(text: &[u8; 11]) -> [u8; 12] {
    let mut field = [0u8; 12];
    field[..11].copy_from_slice(text);
    field
}

#[test]
fn a_sparse_file_beyond_all_sizes_is_refused() {
    let archive = extended_sparse(FAR);
    assert_eq!(archive.len(), 1024);
    assert!(!is_walkable(&archive));
    let refused = Some(LayerError::Archive("size overflow".to_string()));
    let plan = apply_tar_stream(&UnixPath::new("/root"), &archive);
    assert!(plan.steps.is_empty());
    assert_eq!(plan.fault, refused);
    let plan = apply_layer(&UnixPath::new("/root"), &gzip(&archive));
    assert!(plan.steps.is_empty());
    assert_eq!(plan.fault, refused);

    let mut broken = gzip(&archive);
    broken.truncate(broken.len() - 8);
    let plan = apply_layer(&UnixPath::new("/root"), &broken);
    assert!(plan.steps.is_empty());
    assert!(matches!(plan.fault, Some(LayerError::Archive(_))));
}

#[test]
fn the_entries_before_a_file_beyond_all_sizes_are_listed() {
    let mut archive = build_tar(&[("a.txt", b"1")]);
    archive.truncate(1024);
    archive.extend_from_slice(&extended_sparse(FAR_BEHIND));
    assert!(!is_walkable(&archive));
    let plan = apply_tar_stream(&UnixPath::new("/root"), &archive);
    assert_eq!(
        plan.steps,
        vec![LayerStep::Unpack {
            parent: Some(UnixPath::new("/root")),
            path: UnixPath::new("/root/a.txt"),
        }]
    );
    assert_eq!(
        plan.fault,
        Some(LayerError::Archive("size overflow".to_string()))
    );
}

#[test]
fn a_size_record_beyond_all_sizes_counts_for_its_own_entry() {
    let near = extended_sparse(octal(b"00000000000"));
    let mut archive = Vec::new();
    {
        let mut builder = tar::Builder::new(&mut archive);
        builder
            .append_pax_extensions([("size", "18446744073709549568".as_bytes())])
            .unwrap();
        builder.finish().unwrap();
    }
    archive.truncate(1024);
    archive.extend_from_slice(&near);
    assert!(!is_walkable(&archive));
    assert_eq!(
        apply_tar_stream(&UnixPath::new("/root"), &archive).fault,
        Some(LayerError::Archive("size overflow".to_string()))
    );

    // The same bytes in the contents of a file are no record.
    let mut archive = build_tar(&[("note", b"30 size=18446744073709550592\n")]);
    archive.truncate(1024);
    archive.extend_from_slice(&near);
    assert!(is_walkable(&archive));
    let plan = apply_tar_stream(&UnixPath::new("/root"), &archive);
    assert_eq!(plan.steps.len(), 1);
    assert_ne!(
        plan.fault,
        Some(LayerError::Archive("size overflow".to_string()))
    );
}

#[test]
fn an_archive_inside_a_file_is_contents() {
    let inner = extended_sparse(FAR);
    let archive = build_tar(&[("inner.tar", inner.as_slice()), ("b.txt", b"2")]);
    assert!(is_walkable(&archive));
    let plan = apply_tar_stream(&UnixPath::new("/root"), &archive);
    assert_eq!(plan.steps.len(), 2);
    assert_eq!(plan.fault, None);
    assert_eq!(
        apply_layer(&UnixPath::new("/root"), &gzip(&archive)),
        plan
    );
}

#[test]
fn a_sparse_file_of_a_size_is_walked() {
    let archive = extended_sparse(octal(b"00000000000"));
    assert!(is_walkable(&archive));
    let plan = apply_tar_stream(&UnixPath::new("/root"), &archive);
    assert_ne!(
        plan.fault,
        Some(LayerError::Archive("size overflow".to_string()))
    );
}

#[test]
fn a_gzip_stream_may_break_off_behind_the_archive() {
    let tarball = build_tar(&[("a.txt", b"1")]);
    let mut gz = gzip(&tarball);
    let whole = apply_layer(&UnixPath::new("/root"), &gz);
    assert_eq!(whole.fault, None);
    // The checksum behind the stream is cut off.
    gz.truncate(gz.len() - 8);
    let plan = apply_layer(&UnixPath::new("/root"), &gz);
    assert_eq!(plan, whole);

    // The stream ends in the middle of an entry.
    let cut = gzip(&tarball[..700]);
    let plan = apply_layer(&UnixPath::new("/root"), &cut);
    assert_eq!(plan.steps.len(), 1);
    assert!(matches!(plan.fault, Some(LayerError::Archive(_))));
    let mut broken = gzip(&tarball[..700]);
    broken.truncate(broken.len() - 8);
    let plan = apply_layer(&UnixPath::new("/root"), &broken);
    assert!(matches!(plan.fault, Some(LayerError::Archive(_))));
}

#[test]
fn the_top_of_the_tree_is_skipped() {
    let tarball = build_tar(&[("./", b""), ("./a.txt", b"1")]);
    let plan = apply_tar_stream(&UnixPath::new("/root"), &tarball);
    assert_eq!(plan.fault, None);
    assert_eq!(
        plan.steps,
        vec![
            LayerStep::Skip,
            LayerStep::Unpack {
                parent: Some(UnixPath::new("/root")),
                path: UnixPath::new("/root/a.txt"),
            },
        ]
    );
    let plan = plan_entries(&UnixPath::new("/root"), &vec![UnixPath::new("")], None);
    assert_eq!(plan.fault, Some(LayerError::UnsafePath(String::new())));
}

#[test]
fn a_deletion_stays_in_its_directory() {
    for path in [".wh...", "d/.wh..."] {
        let plan = plan_entries(&UnixPath::new("/root"), &vec![UnixPath::new(path)], None);
        assert!(plan.steps.is_empty());
        assert_eq!(plan.fault, Some(LayerError::UnsafePath(path.to_string())));
    }
    // A marker that names nothing, or `.`, means the directory that holds it.
    for (path, gone) in [
        ("d/.wh....", "/root/d/..."),
        ("d/.wh.", "/root/d/"),
        ("d/.wh..", "/root/d/."),
        ("d/.wh.a", "/root/d/a"),
    ] {
        let plan = plan_entries(&UnixPath::new("/root"), &vec![UnixPath::new(path)], None);
        assert_eq!(
            plan.steps,
            vec![LayerStep::Remove {
                path: UnixPath::new(gone),
            }]
        );
        assert_eq!(plan.fault, None);
    }
}

#[test]
fn errors_tell_their_kind() {
    let text = || "x".to_string();
    assert_eq!(LayerError::UnsafePath(text()).kind(), FaultKind::InvalidData);
    assert_eq!(
        LayerError::UnsupportedZstd(text()).kind(),
        FaultKind::InvalidData
    );
    assert_eq!(
        LayerError::UnknownMediaType(text()).kind(),
        FaultKind::InvalidData
    );
    assert_eq!(LayerError::Archive(text()).kind(), FaultKind::Other);
}
