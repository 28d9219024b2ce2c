//! The whole pipeline: producing every format from one member list,
//! cross-format equivalence, rerun behavior, validation errors, and the
//! script and combiner helpers.

use installer::combiner::check_package_version;
use installer::combiner::is_expected_version;
use installer::combiner::package_dir_name;
use installer::combiner::parse_u32;
use installer::combiner::split_list;
use installer::combiner::split_whitespace_bytes;
use installer::generator::filter_bulk;
use installer::generator::manifest_content;
use installer::generator::path_starts_with;
use installer::generator::split_bulk_dirs;
use installer::scripter::generate_script;
use installer::scripter::sh_quote;
use installer::tarballer::check_input_path;
use installer::tarballer::output_name;
use installer::tarballer::output_names;
use installer::tarballer::plan_members;
use installer::tarballer::produce_archives;
use installer::tarballer::read_back_archives;
use installer::tarballer::roundtrip_archives;
use installer::tarballer::validate_member;
use installer::util::long_path;
use installer::util::normalize_rest;
use installer::util::PathPart;
use installer::util::WinPrefix;
use installer::archive::build_archive;
use installer::ArchiveMember;
use installer::CompressionFormat;
use installer::CompressionFormats;
use installer::Error;
use installer::MemberKind;

fn file(path: &[u8], content: &[u8]) -> ArchiveMember {
    ArchiveMember {
        path: path.to_vec(),
        kind: MemberKind::RegularFile,
        mode: 0o644,
        uid: 0,
        gid: 0,
        mtime: 1700000000,
        link_target: Vec::new(),
        content: content.to_vec(),
    }
}

#[test]
fn all_formats_encode_the_same_stream() {
    let entries = vec![file(b"pkg/data.bin", &[7u8; 2000]), file(b"pkg/text", b"abc")];
    let plan = plan_members(&entries, true).unwrap();
    let formats = CompressionFormats::try_from(&b"gz,xz,zst".to_vec()).unwrap();
    let outs = produce_archives(&b"dist/pkg".to_vec(), &plan, &formats).unwrap();
    assert_eq!(outs.len(), 3);
    assert_eq!(outs[0].name, b"dist/pkg.tar.gz".to_vec());
    assert_eq!(outs[1].name, b"dist/pkg.tar.xz".to_vec());
    assert_eq!(outs[2].name, b"dist/pkg.tar.zst".to_vec());
    let tar = build_archive(&plan);
    for (out, fmt) in outs.iter().zip([
        CompressionFormat::Gz,
        CompressionFormat::Xz,
        CompressionFormat::Zstd,
    ]) {
        let decoded = fmt.decode(&out.bytes).unwrap();
        assert_eq!(decoded, tar, "{:?} output differs after decoding", fmt);
        let members = installer::reader::parse_archive(&decoded).unwrap();
        assert_eq!(members, plan);
    }
}

#[test]
fn roundtrip_archives_returns_identical_streams() {
    let entries = vec![file(b"x", b"payload")];
    let plan = plan_members(&entries, true).unwrap();
    let formats = CompressionFormats::try_from(&b"gz,xz,zst".to_vec()).unwrap();
    let streams = roundtrip_archives(&b"out".to_vec(), &plan, &formats).unwrap();
    assert_eq!(streams.len(), 3);
    assert_eq!(streams[0], streams[1]);
    assert_eq!(streams[1], streams[2]);
    assert_eq!(streams[0], build_archive(&plan));
}

#[test]
fn read_back_recovers_members_in_every_format() {
    let mut link = file(b"pkg/alias", b"");
    link.kind = MemberKind::Symlink;
    link.link_target = b"data.bin".to_vec();
    let entries = vec![file(b"pkg/data.bin", &[3u8; 777]), link];
    let plan = plan_members(&entries, true).unwrap();
    let formats = CompressionFormats::try_from(&b"gz,xz,zst".to_vec()).unwrap();
    let recovered = read_back_archives(&b"out/pkg".to_vec(), &plan, &formats).unwrap();
    assert_eq!(recovered.len(), 3);
    for members in recovered {
        assert_eq!(members, plan);
    }
}

#[test]
fn two_runs_over_the_same_prefix_agree() {
    // The names a run writes are the names it would delete first, so a
    // second run over the same prefix plans the very same files and
    // succeeds like the first.
    let formats = CompressionFormats::try_from(&b"gz,zst".to_vec()).unwrap();
    let stale = output_names(&b"dist/app".to_vec(), &formats);
    let entries = vec![file(b"a", b"1")];
    let plan = plan_members(&entries, true).unwrap();
    let first = produce_archives(&b"dist/app".to_vec(), &plan, &formats).unwrap();
    let second = produce_archives(&b"dist/app".to_vec(), &plan, &formats).unwrap();
    let first_names: Vec<Vec<u8>> = first.iter().map(|o| o.name.clone()).collect();
    let second_names: Vec<Vec<u8>> = second.iter().map(|o| o.name.clone()).collect();
    assert_eq!(stale, first_names);
    assert_eq!(first_names, second_names);
}

#[test]
fn gzip_only_runs_are_owed_success() {
    let entries = vec![file(b"steady", b"bytes")];
    let plan = plan_members(&entries, true).unwrap();
    let formats = CompressionFormats::try_from(&b"gz".to_vec()).unwrap();
    assert!(produce_archives(&b"out/gzonly".to_vec(), &plan, &formats).is_ok());
    assert!(roundtrip_archives(&b"out/gzonly".to_vec(), &plan, &formats).is_ok());
}

#[test]
fn output_name_appends_archive_suffix() {
    assert_eq!(
        output_name(&b"dist/rust".to_vec(), CompressionFormat::Xz),
        b"dist/rust.tar.xz".to_vec()
    );
}

#[test]
fn validation_rejects_bad_members() {
    let ok = file(b"fine", b"x");
    assert!(validate_member(&ok).is_ok());

    let mut absolute = file(b"/etc/passwd", b"");
    absolute.content.clear();
    match validate_member(&absolute).unwrap_err() {
        Error::InvalidPath(p) => assert_eq!(p, b"/etc/passwd".to_vec()),
        other => panic!("wrong error: {:?}", other),
    }

    let mut empty_path = file(b"", b"");
    empty_path.content.clear();
    assert!(matches!(validate_member(&empty_path), Err(Error::InvalidPath(_))));

    // A path beyond one name field is fine: it travels in a long-name
    // record.  A parent step inside a member path is not.
    let long_name = vec![b'a'; 101];
    let long_member = file(&long_name, b"");
    assert!(validate_member(&long_member).is_ok());
    let dotted = file(b"a/../b", b"");
    match validate_member(&dotted).unwrap_err() {
        Error::InvalidPath(p) => assert_eq!(p, b"a/../b".to_vec()),
        other => panic!("wrong error: {:?}", other),
    }
    assert!(matches!(validate_member(&file(b"..", b"")), Err(Error::InvalidPath(_))));

    let mut with_target = file(b"notalink", b"");
    with_target.link_target = b"somewhere".to_vec();
    match validate_member(&with_target).unwrap_err() {
        Error::InvalidLinkTarget(p) => assert_eq!(p, b"notalink".to_vec()),
        other => panic!("wrong error: {:?}", other),
    }

    let mut bare_link = file(b"badlink", b"");
    bare_link.kind = MemberKind::Symlink;
    assert!(matches!(validate_member(&bare_link), Err(Error::InvalidLinkTarget(_))));

    let mut huge_time = file(b"late", b"");
    huge_time.mtime = u64::MAX;
    match validate_member(&huge_time).unwrap_err() {
        Error::FieldTooLarge(p) => assert_eq!(p, b"late".to_vec()),
        other => panic!("wrong error: {:?}", other),
    }

    let mut big_mode = file(b"modey", b"");
    big_mode.mode = 0o10000000;
    assert!(matches!(validate_member(&big_mode), Err(Error::FieldTooLarge(_))));
}

#[test]
fn plan_rejects_duplicate_paths() {
    let entries = vec![file(b"same", b"1"), file(b"other", b""), file(b"same", b"2")];
    match plan_members(&entries, true).unwrap_err() {
        Error::DuplicatePath(p) => assert_eq!(p, b"same".to_vec()),
        other => panic!("wrong error: {:?}", other),
    }
    // Two members whose contents differ but whose paths agree cannot stand
    // in one archive even when every member is well-formed on its own.
    let twins = vec![file(b"a/x", b""), file(b"a/x", b"")];
    assert!(matches!(plan_members(&twins, true), Err(Error::DuplicatePath(_))));
}

#[test]
fn plan_reports_first_bad_member() {
    let entries = vec![file(b"good", b""), file(b"/bad", b""), file(b"", b"")];
    match plan_members(&entries, true).unwrap_err() {
        Error::InvalidPath(p) => assert_eq!(p, b"/bad".to_vec()),
        other => panic!("wrong error: {:?}", other),
    }
}

#[test]
fn sh_quote_escapes_single_quotes() {
    assert_eq!(sh_quote(&b"plain".to_vec()), b"'plain'".to_vec());
    assert_eq!(sh_quote(&b"it's".to_vec()), b"'it'\"'\"'s'".to_vec());
    assert_eq!(sh_quote(&b"".to_vec()), b"''".to_vec());
}

#[test]
fn script_substitutes_every_token() {
    let template = b"name=%%TEMPLATE_PRODUCT_NAME%%\n\
rel=%%TEMPLATE_REL_MANIFEST_DIR%%\n\
msg=%%TEMPLATE_SUCCESS_MESSAGE%%\n\
legacy=%%TEMPLATE_LEGACY_MANIFEST_DIRS%%\n\
ver=%%TEMPLATE_RUST_INSTALLER_VERSION%%\n"
        .to_vec();
    let script = generate_script(
        &template,
        &b"My-Product".to_vec(),
        &b"productlib".to_vec(),
        &b"All-done".to_vec(),
        &b"old1,old2".to_vec(),
    );
    let expected = b"name='My Product'\nrel=productlib\nmsg='All done'\nlegacy='old1,old2'\nver='3'\n"
        .to_vec();
    assert_eq!(script, expected);
}

#[test]
fn tarball_list_is_trimmed_and_nonempty() {
    let items = split_list(&b" a.tar.gz , ,b.tar.gz,".to_vec());
    assert_eq!(items, vec![b"a.tar.gz".to_vec(), b"b.tar.gz".to_vec()]);
}

#[test]
fn package_dir_name_strips_archive_suffix() {
    assert_eq!(package_dir_name(&b"dist/rust-std.tar.gz".to_vec()), b"rust-std".to_vec());
    assert_eq!(package_dir_name(&b"plain".to_vec()), b"plain".to_vec());
    assert_eq!(package_dir_name(&b"x.tar.gz.tar.gz".to_vec()), b"x".to_vec());
}

#[test]
fn decimal_rendering() {
    let mut v: Vec<u8> = Vec::new();
    installer::scripter::push_decimal(&mut v, 1234567890);
    assert_eq!(v, b"1234567890".to_vec());
    let mut z: Vec<u8> = Vec::new();
    installer::scripter::push_decimal(&mut z, 0);
    assert_eq!(z, b"0".to_vec());
}

#[test]
fn input_path_check() {
    // Accepted: nonempty relative subpaths that stay inside the work
    // directory, parent steps included as long as they never escape it.
    assert!(check_input_path(&b"package".to_vec()).is_ok());
    assert!(check_input_path(&b"a/b/c".to_vec()).is_ok());
    assert!(check_input_path(&b"a/../b".to_vec()).is_ok());
    assert!(check_input_path(&b"a/./b/".to_vec()).is_ok());
    // Rejected: empty, absolute (even under the work directory), and any
    // path whose parent steps climb above the work directory.
    for bad in [
        &b""[..],
        &b"/elsewhere"[..],
        &b"/work/pkg"[..],
        &b".."[..],
        &b"../x"[..],
        &b"a/../../b"[..],
    ] {
        match check_input_path(&bad.to_vec()).unwrap_err() {
            Error::InputNotRelative(p) => assert_eq!(p, bad.to_vec()),
            other => panic!("wrong error: {:?}", other),
        }
    }
}

#[test]
fn package_version_errors_carry_the_text() {
    assert!(check_package_version(&b"3
".to_vec()).is_ok());
    match check_package_version(&b" 4 ".to_vec()).unwrap_err() {
        Error::BadVersion(v) => assert_eq!(v, b"4".to_vec()),
        other => panic!("wrong error: {:?}", other),
    }
}

#[test]
fn version_checks() {
    assert!(is_expected_version(&b"3".to_vec()));
    assert!(is_expected_version(&b" 3\n".to_vec()));
    assert!(is_expected_version(&b"+3".to_vec()));
    assert!(is_expected_version(&b"03".to_vec()));
    assert!(!is_expected_version(&b"2".to_vec()));
    assert!(!is_expected_version(&b"".to_vec()));
    assert!(!is_expected_version(&b"3a".to_vec()));
}

#[test]
fn parse_u32_bounds() {
    assert_eq!(parse_u32(&b"4294967295".to_vec()), Some(u32::MAX));
    assert_eq!(parse_u32(&b"4294967296".to_vec()), None);
    assert_eq!(parse_u32(&b"0".to_vec()), Some(0));
    assert_eq!(parse_u32(&b"+".to_vec()), None);
    assert_eq!(parse_u32(&b"-1".to_vec()), None);
}

#[test]
fn components_split_on_whitespace() {
    let toks = split_whitespace_bytes(&b"  rustc\n cargo\tdocs ".to_vec());
    assert_eq!(toks, vec![b"rustc".to_vec(), b"cargo".to_vec(), b"docs".to_vec()]);
    assert_eq!(split_whitespace_bytes(&b"   ".to_vec()), Vec::<Vec<u8>>::new());
}

#[test]
fn bulk_dirs_filtering_is_component_wise() {
    assert!(path_starts_with(&b"share/doc/x".to_vec(), &b"share/doc".to_vec()));
    assert!(path_starts_with(&b"share/doc".to_vec(), &b"share/doc".to_vec()));
    assert!(!path_starts_with(&b"share/docs".to_vec(), &b"share/doc".to_vec()));
    // Trailing slashes on a bulk directory carry no meaning.
    assert!(path_starts_with(&b"share/doc/x".to_vec(), &b"share/doc/".to_vec()));
    assert!(path_starts_with(&b"share/doc".to_vec(), &b"share/doc//".to_vec()));
    assert!(!path_starts_with(&b"share/docs".to_vec(), &b"share/doc/".to_vec()));
    assert!(!path_starts_with(&b"x".to_vec(), &b"/".to_vec()));
    let bulk = split_bulk_dirs(&b"share/doc,,lib".to_vec());
    assert_eq!(bulk, vec![b"share/doc".to_vec(), b"lib".to_vec()]);
    let files = vec![
        b"share/doc/readme".to_vec(),
        b"share/docs".to_vec(),
        b"lib/a.so".to_vec(),
        b"bin/tool".to_vec(),
    ];
    let kept = filter_bulk(&files, &bulk);
    assert_eq!(kept, vec![b"share/docs".to_vec(), b"bin/tool".to_vec()]);
}

#[test]
fn manifest_lists_files_then_bulk_dirs() {
    let files = vec![b"bin/tool".to_vec()];
    let dirs = vec![b"share/doc".to_vec()];
    assert_eq!(manifest_content(&files, &dirs), b"file:bin/tool\ndir:share/doc\n".to_vec());
}

#[test]
fn normalize_rest_resolves_components() {
    let parts = vec![
        PathPart::Normal(b"a".to_vec()),
        PathPart::ParentDir,
        PathPart::Normal(b"b".to_vec()),
        PathPart::CurDir,
        PathPart::Normal(b"c".to_vec()),
    ];
    assert_eq!(normalize_rest(&parts), vec![b"b".to_vec(), b"c".to_vec()]);
    let with_root = vec![
        PathPart::Normal(b"a".to_vec()),
        PathPart::RootDir,
        PathPart::Normal(b"b".to_vec()),
    ];
    assert_eq!(normalize_rest(&with_root), vec![b"b".to_vec()]);
}

#[test]
fn long_path_builds_verbatim_form() {
    let rest = vec![PathPart::Normal(b"dir".to_vec()), PathPart::Normal(b"file".to_vec())];
    let disk = long_path(&WinPrefix::Disk(b"C:".to_vec()), &rest).unwrap();
    assert_eq!(disk, b"\\\\?\\C:\\dir\\file".to_vec());
    let unc = long_path(&WinPrefix::Unc(b"host".to_vec(), b"share".to_vec()), &rest).unwrap();
    assert_eq!(unc, b"\\\\?\\UNC\\host\\share\\dir\\file".to_vec());
    assert!(long_path(&WinPrefix::Verbatim, &rest).is_none());
}
