use preflightx::scanner::archives::{
    extract, looks_like_archive, over_ratio, safe_member_path, Limits,
};
use std::io::{Cursor, Write};
use zip::write::SimpleFileOptions;
use zip::ZipWriter;

fn limits() -> Limits {
    Limits {
        depth: 4,
        members: 128,
        expanded_bytes: 1024 * 1024,
        member_bytes: 64 * 1024,
        time_limit_ms: 5000,
    }
}

fn zip(entries: &[(&str, &[u8])]) -> Vec<u8> {
    let mut writer = ZipWriter::new(Cursor::new(Vec::new()));
    for (path, content) in entries {
        writer.start_file(*path, SimpleFileOptions::default()).unwrap();
        writer.write_all(content).unwrap();
    }
    writer.finish().unwrap().into_inner()
}

#[test]
fn rejects_traversal_and_absolute_paths() {
    for path in ["../escape", "/absolute", "C:\\outside", "a/../../b"] {
        assert!(safe_member_path(path.as_bytes()).is_err());
    }
    assert_eq!(safe_member_path(b"folder/file.js").unwrap(), "folder/file.js");
}

#[test]
fn malformed_zip_is_incomplete() {
    let result = extract("bad.zip", b"PK\x03\x04broken", limits());
    assert!(result.files.is_empty());
    assert!(!result.incomplete_reasons.is_empty());
}

#[test]
fn scans_members_and_reports_traversal_and_depth_limits() {
    let nested = zip(&[("payload.ps1", b"DownloadString FromBase64String Invoke-Expression")]);
    let outer = zip(&[("../escape.ps1", b"ignored"), ("nested.zip", &nested)]);
    let result = extract("outer.zip", &outer, Limits { depth: 1, ..limits() });
    assert_eq!(result.files.len(), 1);
    assert!(result.files[0].path.ends_with("nested.zip"));
    assert!(result.incomplete_reasons.iter().any(|reason| reason.contains("traversal path")));
    assert!(result.incomplete_reasons.iter().any(|reason| reason.contains("recursion limit")));
}

#[test]
fn enforces_member_count_before_extracting_more_content() {
    let archive = zip(&[("one.txt", b"1"), ("two.txt", b"2")]);
    let result = extract("many.zip", &archive, Limits { members: 1, ..limits() });
    assert_eq!(result.files.len(), 1);
    assert!(!result.incomplete_reasons.is_empty());
}

#[test]
fn reports_an_expired_archive_time_budget() {
    let archive = zip(&[("one.txt", b"1")]);
    let result = extract("slow.zip", &archive, Limits { time_limit_ms: 0, ..limits() });
    assert!(result.files.is_empty());
    assert!(result.incomplete_reasons.iter().any(|reason| reason.contains("time limit")));
}

#[test]
fn member_paths_are_normalized_and_checked() {
    assert_eq!(safe_member_path(b"dir\\file.txt").unwrap(), "dir/file.txt");
    assert_eq!(
        safe_member_path(b"").unwrap_err(),
        "archive member has an invalid path length"
    );
    assert_eq!(
        safe_member_path(&[0xff, 0xfe]).unwrap_err(),
        "archive member path is not valid UTF-8"
    );
    assert_eq!(
        safe_member_path(b"a\x07b").unwrap_err(),
        "archive traversal path rejected: a\x07b"
    );
    assert_eq!(
        safe_member_path(b"C:\\outside").unwrap_err(),
        "archive traversal path rejected: C:\\outside"
    );
}

#[test]
fn compression_ratio_and_magic() {
    assert!(over_ratio(1, 0));
    assert!(!over_ratio(0, 0));
    assert!(over_ratio(1001, 1));
    assert!(!over_ratio(1000, 1));
    assert!(!over_ratio(u64::MAX, u64::MAX / 2));
    assert!(looks_like_archive(b"PK\x03\x04rest"));
    assert!(looks_like_archive(&[0x1f, 0x8b, 0]));
    assert!(!looks_like_archive(b"plain text"));
    let mut tar = vec![0u8; 512];
    tar[257..262].copy_from_slice(b"ustar");
    assert!(looks_like_archive(&tar));
}

#[test]
fn members_are_named_under_the_archive_and_sized() {
    let archive = zip(&[("dir/a.txt", b"alpha"), ("b.txt", b"beta")]);
    let result = extract("pkg.zip", &archive, limits());
    assert!(result.incomplete_reasons.is_empty());
    let names: Vec<&str> = result.files.iter().map(|f| f.path.as_str()).collect();
    assert_eq!(names, vec!["pkg.zip!/dir/a.txt", "pkg.zip!/b.txt"]);
    assert_eq!(result.files[0].bytes, b"alpha");
}

#[test]
fn non_archives_yield_nothing_and_depth_zero_is_recorded() {
    let result = extract("plain.txt", b"hello", limits());
    assert!(result.files.is_empty() && result.incomplete_reasons.is_empty());
    let archive = zip(&[("a.txt", b"a")]);
    let result = extract("x.zip", &archive, Limits { depth: 0, ..limits() });
    assert!(result.files.is_empty());
    assert_eq!(result.incomplete_reasons, vec!["archive recursion limit reached at x.zip".to_owned()]);
}

#[test]
fn oversized_members_and_byte_budget_are_incomplete() {
    let archive = zip(&[("big.txt", &[b'a'; 100])]);
    let result = extract("big.zip", &archive, Limits { member_bytes: 10, ..limits() });
    assert!(result.files.is_empty());
    assert_eq!(result.incomplete_reasons, vec!["archive member exceeds byte limit: big.zip!/big.txt".to_owned()]);
    let archive = zip(&[("a.txt", b"12345"), ("b.txt", b"67890")]);
    let result = extract("two.zip", &archive, Limits { expanded_bytes: 7, ..limits() });
    assert_eq!(result.files.len(), 1);
    assert_eq!(result.incomplete_reasons, vec!["archive expanded byte limit reached before two.zip!/b.txt".to_owned()]);
}

#[test]
fn gzip_and_tar_members_are_expanded() {
    let mut encoder = flate2::write::GzEncoder::new(Vec::new(), flate2::Compression::default());
    encoder.write_all(b"console.log(1)").unwrap();
    let gz = encoder.finish().unwrap();
    let result = extract("dir/script.js.gz", &gz, limits());
    assert_eq!(result.files.len(), 1);
    assert_eq!(result.files[0].path, "dir/script.js.gz!/script.js");
    assert_eq!(result.files[0].bytes, b"console.log(1)");

    let mut builder = tar::Builder::new(Vec::new());
    let mut header = tar::Header::new_gnu();
    header.set_size(5);
    header.set_mode(0o644);
    header.set_cksum();
    builder.append_data(&mut header, "package/index.js", &b"a = 1"[..]).unwrap();
    let bytes = builder.into_inner().unwrap();
    let result = extract("pkg.tar", &bytes, limits());
    assert_eq!(result.files.len(), 1);
    assert_eq!(result.files[0].path, "pkg.tar!/package/index.js");
}

#[test]
fn a_single_level_zip_keeps_its_safe_files_in_order() {
    let archive = zip(&[("a.js", b"1"), ("../up.js", b"2"), ("dir/", b""), ("b.js", b"33")]);
    let result = extract("pkg.zip", &archive, Limits { depth: 1, ..limits() });
    let kept: Vec<(&str, &[u8])> = result.files.iter().map(|f| (f.path.as_str(), f.bytes.as_slice())).collect();
    assert_eq!(kept, vec![("pkg.zip!/a.js", &b"1"[..]), ("pkg.zip!/b.js", &b"33"[..])]);
    assert!(result.incomplete_reasons.iter().all(|reason| !reason.starts_with("archive time limit reached")));
}

#[test]
fn a_corrupt_gzip_stream_is_incomplete_with_its_error() {
    let bytes = [0x1fu8, 0x8b, 0x00, 0x00, 0x00, 0x00, 0x00, 0x00, 0x00, 0x00, 0x01, 0x02];
    let result = extract("broken.gz", &bytes, limits());
    assert!(result.files.is_empty());
    assert_eq!(result.incomplete_reasons.len(), 1);
    assert!(result.incomplete_reasons[0].starts_with("cannot decompress gzip archive broken.gz: "));
}

#[test]
fn a_single_level_gzip_keeps_its_one_member() {
    let mut encoder = flate2::write::GzEncoder::new(Vec::new(), flate2::Compression::default());
    encoder.write_all(b"module.exports = 1;").unwrap();
    let gz = encoder.finish().unwrap();
    let result = extract("lib/index.js.gz", &gz, Limits { depth: 1, ..limits() });
    let kept: Vec<(&str, &[u8])> = result.files.iter().map(|f| (f.path.as_str(), f.bytes.as_slice())).collect();
    assert_eq!(kept, vec![("lib/index.js.gz!/index.js", &b"module.exports = 1;"[..])]);
    assert!(result.incomplete_reasons.is_empty());
}

#[test]
fn a_single_level_tar_keeps_its_regular_files_in_order() {
    let mut builder = tar::Builder::new(Vec::new());
    let mut header = tar::Header::new_gnu();
    header.set_size(3);
    header.set_mode(0o644);
    header.set_cksum();
    builder.append_data(&mut header, "package/a.js", &b"a=1"[..]).unwrap();
    let mut directory = tar::Header::new_gnu();
    directory.set_entry_type(tar::EntryType::Directory);
    directory.set_size(0);
    directory.set_mode(0o755);
    directory.set_cksum();
    builder.append_data(&mut directory, "package/lib/", &b""[..]).unwrap();
    let mut second = tar::Header::new_gnu();
    second.set_size(2);
    second.set_mode(0o644);
    second.set_cksum();
    builder.append_data(&mut second, "package/lib/b.js", &b"b2"[..]).unwrap();
    let bytes = builder.into_inner().unwrap();
    let result = extract("pkg.tar", &bytes, Limits { depth: 1, ..limits() });
    let kept: Vec<(&str, &[u8])> = result.files.iter().map(|f| (f.path.as_str(), f.bytes.as_slice())).collect();
    assert_eq!(kept, vec![("pkg.tar!/package/a.js", &b"a=1"[..]), ("pkg.tar!/package/lib/b.js", &b"b2"[..])]);
    assert!(result.incomplete_reasons.is_empty());
}

#[test]
fn a_flat_zip_keeps_its_files_at_any_depth() {
    let archive = zip(&[("a.txt", b"alpha"), ("sub/b.txt", b"beta")]);
    let result = extract("flat.zip", &archive, limits());
    let kept: Vec<(&str, &[u8])> = result.files.iter().map(|f| (f.path.as_str(), f.bytes.as_slice())).collect();
    assert_eq!(kept, vec![("flat.zip!/a.txt", &b"alpha"[..]), ("flat.zip!/sub/b.txt", &b"beta"[..])]);
    assert!(result.incomplete_reasons.is_empty());
}
