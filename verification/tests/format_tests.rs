//! The compression-format registry: token parsing, extensions, detection.

use installer::CompressionFormat;
use installer::CompressionFormats;
use installer::Error;

#[test]
fn parse_two_formats() {
    let fs = CompressionFormats::try_from(&b"gz,xz".to_vec()).unwrap();
    assert_eq!(fs.len(), 2);
    assert!(matches!(fs.get(0), CompressionFormat::Gz));
    assert!(matches!(fs.get(1), CompressionFormat::Xz));
}

#[test]
fn parse_single_zstd() {
    let fs = CompressionFormats::try_from(&b"zst".to_vec()).unwrap();
    assert_eq!(fs.len(), 1);
    assert!(matches!(fs.get(0), CompressionFormat::Zstd));
}

#[test]
fn parse_trims_tokens() {
    let fs = CompressionFormats::try_from(&b" gz , zst ".to_vec()).unwrap();
    assert_eq!(fs.len(), 2);
    assert!(matches!(fs.get(0), CompressionFormat::Gz));
    assert!(matches!(fs.get(1), CompressionFormat::Zstd));
}

#[test]
fn parse_deduplicates_keeping_first() {
    let fs = CompressionFormats::try_from(&b"xz,gz,xz".to_vec()).unwrap();
    assert_eq!(fs.len(), 2);
    assert!(matches!(fs.get(0), CompressionFormat::Xz));
    assert!(matches!(fs.get(1), CompressionFormat::Gz));
}

#[test]
fn parse_rejects_unknown_token() {
    let err = CompressionFormats::try_from(&b"gz,bogus,xz".to_vec()).unwrap_err();
    match err {
        Error::UnknownFormat(t) => assert_eq!(t, b"bogus".to_vec()),
        other => panic!("wrong error: {:?}", other),
    }
}

#[test]
fn parse_rejects_empty_string() {
    let err = CompressionFormats::try_from(&b"".to_vec()).unwrap_err();
    match err {
        Error::UnknownFormat(t) => assert_eq!(t, b"".to_vec()),
        other => panic!("wrong error: {:?}", other),
    }
}

#[test]
fn parse_rejects_trailing_comma() {
    let err = CompressionFormats::try_from(&b"gz,".to_vec()).unwrap_err();
    match err {
        Error::UnknownFormat(t) => assert_eq!(t, b"".to_vec()),
        other => panic!("wrong error: {:?}", other),
    }
}

#[test]
fn extensions_are_the_tokens() {
    assert_eq!(CompressionFormat::Gz.extension(), b"gz".to_vec());
    assert_eq!(CompressionFormat::Xz.extension(), b"xz".to_vec());
    assert_eq!(CompressionFormat::Zstd.extension(), b"zst".to_vec());
}

#[test]
fn default_formats_are_gz_and_xz() {
    let fs = CompressionFormats::default();
    assert_eq!(fs.len(), 2);
    assert!(matches!(fs.get(0), CompressionFormat::Gz));
    assert!(matches!(fs.get(1), CompressionFormat::Xz));
}

#[test]
fn format_list_round_trips_through_parse() {
    let fs = CompressionFormats::try_from(&b"zst,gz".to_vec()).unwrap();
    let rendered = fs.format_list();
    assert_eq!(rendered, b"zst,gz".to_vec());
    let again = CompressionFormats::try_from(&rendered).unwrap();
    assert_eq!(again.len(), 2);
    assert!(matches!(again.get(0), CompressionFormat::Zstd));
    assert!(matches!(again.get(1), CompressionFormat::Gz));
}

#[test]
fn detect_from_path_by_extension() {
    assert!(matches!(
        CompressionFormat::detect_from_path(&b"dist/pkg.tar.gz".to_vec()),
        Some(CompressionFormat::Gz)
    ));
    assert!(matches!(
        CompressionFormat::detect_from_path(&b"pkg.tar.xz".to_vec()),
        Some(CompressionFormat::Xz)
    ));
    assert!(matches!(
        CompressionFormat::detect_from_path(&b"a/b/c.zst".to_vec()),
        Some(CompressionFormat::Zstd)
    ));
    assert!(CompressionFormat::detect_from_path(&b"pkg.tar".to_vec()).is_none());
    assert!(CompressionFormat::detect_from_path(&b"noext".to_vec()).is_none());
    assert!(CompressionFormat::detect_from_path(&b"dir/.gz".to_vec()).is_none());
}

#[test]
fn compression_is_not_identity_and_decodes_back() {
    let data: Vec<u8> = (0u32..4096).map(|i| (i % 251) as u8).collect();
    for fmt in [CompressionFormat::Gz, CompressionFormat::Xz, CompressionFormat::Zstd] {
        let packed = fmt.encode(&data).unwrap();
        assert_ne!(packed, data, "{:?} encoder returned its input", fmt);
        let unpacked = fmt.decode(&packed).unwrap();
        assert_eq!(unpacked, data, "{:?} round trip failed", fmt);
    }
}

#[test]
fn zstd_worker_count_is_capped() {
    let t = installer::compression::zstd_threads();
    assert!(t >= 1);
    assert!(t <= 12);
}

#[test]
fn decoding_garbage_fails() {
    let garbage = b"this is not a compressed stream at all".to_vec();
    for fmt in [CompressionFormat::Gz, CompressionFormat::Xz, CompressionFormat::Zstd] {
        match fmt.decode(&garbage) {
            Err(Error::Compression(_)) => {}
            Err(other) => panic!("wrong error kind: {:?}", other),
            Ok(v) => assert!(v.is_empty(), "{:?} decoded garbage to data", fmt),
        }
    }
}
