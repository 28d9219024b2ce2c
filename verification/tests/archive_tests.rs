//! The archive stream: building, reading back, member ordering, metadata
//! fidelity, and the executable heuristic.

use installer::archive::apply_exec_heuristic;
use installer::archive::build_archive;
use installer::reader::parse_archive;
use installer::sort::sort_paths;
use installer::tarballer::plan_members;
use installer::ArchiveMember;
use installer::MemberKind;

fn dir(path: &[u8]) -> ArchiveMember {
    ArchiveMember {
        path: path.to_vec(),
        kind: MemberKind::Directory,
        mode: 0o755,
        uid: 1000,
        gid: 1000,
        mtime: 1700000000,
        link_target: Vec::new(),
        content: Vec::new(),
    }
}

fn file(path: &[u8], content: &[u8]) -> ArchiveMember {
    ArchiveMember {
        path: path.to_vec(),
        kind: MemberKind::RegularFile,
        mode: 0o644,
        uid: 1000,
        gid: 1000,
        mtime: 1700000001,
        link_target: Vec::new(),
        content: content.to_vec(),
    }
}

fn symlink(path: &[u8], target: &[u8]) -> ArchiveMember {
    ArchiveMember {
        path: path.to_vec(),
        kind: MemberKind::Symlink,
        mode: 0o777,
        uid: 1000,
        gid: 1000,
        mtime: 1700000002,
        link_target: target.to_vec(),
        content: Vec::new(),
    }
}

fn sample_members() -> Vec<ArchiveMember> {
    vec![
        dir(b"pkg"),
        dir(b"pkg/sub"),
        file(b"pkg/a.txt", b"hello world"),
        file(b"pkg/sub/empty", b""),
        symlink(b"pkg/link", b"a.txt"),
    ]
}

#[test]
fn roundtrip_recovers_members() {
    let members = sample_members();
    let bytes = build_archive(&members);
    assert_eq!(bytes.len() % 512, 0);
    let back = parse_archive(&bytes).expect("own archive must parse");
    assert_eq!(back.len(), members.len());
    for (a, b) in members.iter().zip(back.iter()) {
        assert_eq!(a, b);
    }
}

#[test]
fn symlink_fidelity() {
    // The link target is preserved verbatim even though it points nowhere,
    // and a symlink member carries no content bytes.
    let members = vec![symlink(b"dangling", b"no/such/target")];
    let bytes = build_archive(&members);
    let back = parse_archive(&bytes).unwrap();
    assert_eq!(back.len(), 1);
    assert_eq!(back[0].kind, MemberKind::Symlink);
    assert_eq!(back[0].link_target, b"no/such/target".to_vec());
    assert_eq!(back[0].content, Vec::<u8>::new());
}

#[test]
fn tar_reader_accepts_the_stream() {
    let members = sample_members();
    let bytes = build_archive(&members);
    let mut ar = tar::Archive::new(&bytes[..]);
    let mut seen: Vec<(String, u64, bool)> = Vec::new();
    for entry in ar.entries().unwrap() {
        let mut entry = entry.unwrap();
        let path = entry.path().unwrap().to_string_lossy().into_owned();
        let size = entry.header().size().unwrap();
        let is_symlink = entry.header().entry_type().is_symlink();
        if path == "pkg/a.txt" {
            let mut content = Vec::new();
            std::io::Read::read_to_end(&mut entry, &mut content).unwrap();
            assert_eq!(content, b"hello world".to_vec());
            assert_eq!(entry.header().mode().unwrap(), 0o644);
            assert_eq!(entry.header().mtime().unwrap(), 1700000001);
            assert_eq!(entry.header().uid().unwrap(), 1000);
        }
        if is_symlink {
            let link = entry.link_name().unwrap().unwrap();
            assert_eq!(link.to_string_lossy(), "a.txt");
        }
        seen.push((path, size, is_symlink));
    }
    assert_eq!(seen.len(), 5);
    assert_eq!(seen[0].0, "pkg");
    assert_eq!(seen[2], ("pkg/a.txt".to_string(), 11, false));
    assert_eq!(seen[4], ("pkg/link".to_string(), 0, true));
}

#[test]
fn reverse_byte_sort_groups_suffixes() {
    // Files sharing the suffix `x.txt` stay adjacent; no unrelated
    // extension comes between them.
    let paths: Vec<Vec<u8>> = vec![
        b"a/x.txt".to_vec(),
        b"c.log".to_vec(),
        b"b/x.txt".to_vec(),
        b"d.txt".to_vec(),
    ];
    let sorted = sort_paths(&paths);
    assert_eq!(
        sorted,
        vec![
            b"c.log".to_vec(),
            b"d.txt".to_vec(),
            b"a/x.txt".to_vec(),
            b"b/x.txt".to_vec(),
        ]
    );
}

#[test]
fn build_is_deterministic() {
    let one = build_archive(&sample_members());
    let two = build_archive(&sample_members());
    assert_eq!(one, two);
}

#[test]
fn plan_orders_dirs_first_then_sorted_files() {
    let entries = vec![
        file(b"pkg/z.txt", b"z"),
        dir(b"pkg"),
        file(b"pkg/a.log", b"a"),
        dir(b"pkg/sub"),
        file(b"pkg/b.txt", b"b"),
    ];
    let plan = plan_members(&entries, true).unwrap();
    let got: Vec<Vec<u8>> = plan.iter().map(|m| m.path.clone()).collect();
    // Directories keep collection order; files follow in reverse-byte
    // order, which groups the `.txt` files after the `.log` one.
    assert_eq!(
        got,
        vec![
            b"pkg".to_vec(),
            b"pkg/sub".to_vec(),
            b"pkg/a.log".to_vec(),
            b"pkg/b.txt".to_vec(),
            b"pkg/z.txt".to_vec(),
        ]
    );
}

#[test]
fn exec_heuristic_marks_scripts_runnable() {
    // On a platform without native executable bits, `install.sh` becomes
    // executable; `readme.txt` does not.
    assert_eq!(apply_exec_heuristic(&b"install.sh".to_vec(), 0o644, false), 0o755);
    assert_eq!(apply_exec_heuristic(&b"readme.txt".to_vec(), 0o644, false), 0o644);
    assert_eq!(apply_exec_heuristic(&b"tool.exe".to_vec(), 0o600, false), 0o711);
    assert_eq!(apply_exec_heuristic(&b"lib.dll".to_vec(), 0o644, false), 0o755);
    assert_eq!(apply_exec_heuristic(&b"run.py".to_vec(), 0o644, false), 0o755);
    // With native bits, modes pass through unchanged.
    assert_eq!(apply_exec_heuristic(&b"install.sh".to_vec(), 0o644, true), 0o644);
}

#[test]
fn plan_applies_heuristic_to_files() {
    let entries = vec![file(b"install.sh", b"#!/bin/sh\n"), file(b"readme.txt", b"hi")];
    let plan = plan_members(&entries, false).unwrap();
    let sh = plan.iter().find(|m| m.path == b"install.sh".to_vec()).unwrap();
    let txt = plan.iter().find(|m| m.path == b"readme.txt".to_vec()).unwrap();
    assert_eq!(sh.mode, 0o755);
    assert_eq!(txt.mode, 0o644);
}

#[test]
fn long_paths_travel_in_long_name_records() {
    let mut long_path = b"dir/".to_vec();
    long_path.extend(std::iter::repeat(b'x').take(146));
    assert_eq!(long_path.len(), 150);
    let members = vec![dir(b"dir"), file(&long_path, b"deep content")];
    let bytes = build_archive(&members);
    assert_eq!(bytes.len() % 512, 0);
    let back = parse_archive(&bytes).expect("archive with long name must parse");
    assert_eq!(back, members);
    // The real tar reader resolves the long-name record to the full path.
    let mut ar = tar::Archive::new(&bytes[..]);
    let mut seen: Vec<(String, u64)> = Vec::new();
    for entry in ar.entries().unwrap() {
        let entry = entry.unwrap();
        seen.push((
            entry.path().unwrap().to_string_lossy().into_owned(),
            entry.header().size().unwrap(),
        ));
    }
    assert_eq!(seen.len(), 2);
    assert_eq!(seen[1].0, String::from_utf8(long_path).unwrap());
    assert_eq!(seen[1].1, 12);
}

#[test]
fn parse_rejects_garbage_and_truncation() {
    assert!(parse_archive(&b"short".to_vec()).is_none());
    let mut corrupt = build_archive(&sample_members());
    corrupt[260] = 0; // breaks the magic
    assert!(parse_archive(&corrupt).is_none());
    let whole = build_archive(&sample_members());
    let truncated = whole[..whole.len() - 1024].to_vec();
    assert!(parse_archive(&truncated).is_none());
}

#[test]
fn parse_detects_checksum_damage() {
    let members = vec![file(b"a", b"data")];
    let mut bytes = build_archive(&members);
    bytes[0] = b'b'; // name changed, checksum now wrong
    assert!(parse_archive(&bytes).is_none());
}

#[test]
fn empty_member_list_gives_empty_archive() {
    let bytes = build_archive(&Vec::new());
    assert_eq!(bytes.len(), 1024);
    assert!(bytes.iter().all(|b| *b == 0));
    let back = parse_archive(&bytes).unwrap();
    assert!(back.is_empty());
}
