use base64::{Engine as _, engine::general_purpose::STANDARD};
use preflightx::model::DependencyRecord;
use preflightx::scanner::dependencies::{accept_artifact, download_request, is_allowed_registry_url, verify_integrity};
use sha2::{Digest, Sha512};

#[test]
fn verifies_lockfile_integrity_before_archive_inspection() {
    let content = b"inert package bytes";
    let integrity = format!("sha512-{}", STANDARD.encode(Sha512::digest(content)));
    assert!(verify_integrity(content, &integrity).is_ok());
    assert!(verify_integrity(b"different bytes", &integrity).is_err());
    assert!(verify_integrity(content, "sha1-deadbeef").is_err());
}

#[test]
fn rejects_untrusted_artifact_hosts_and_redirect_targets() {
    for url in [
        "http://registry.npmjs.org/pkg.tgz",
        "https://registry.npmjs.org.evil.test/pkg.tgz",
        "https://user@registry.npmjs.org/pkg.tgz",
        "https://registry.npmjs.org/pkg.tgz?redirect=https://evil.test",
    ] {
        assert!(!is_allowed_registry_url(url), "accepted {url}");
    }
    assert!(is_allowed_registry_url(
        "https://registry.npmjs.org/@scope/pkg/-/pkg-1.0.0.tgz"
    ));
}

#[test]
fn integrity_errors_name_their_cause() {
    let content = b"bytes";
    assert_eq!(
        verify_integrity(content, "sha1-abc"),
        Err("lockfile has no supported sha512 integrity token".to_owned())
    );
    assert_eq!(
        verify_integrity(content, "sha512-!!!"),
        Err("malformed sha512 integrity token".to_owned())
    );
    let good = format!("sha512-{}", STANDARD.encode(Sha512::digest(content)));
    let skipped = format!("sha512-a?b {good}");
    assert!(verify_integrity(content, &skipped).is_ok());
    assert_eq!(
        verify_integrity(b"other", &good),
        Err("downloaded bytes do not match any sha512 integrity token".to_owned())
    );
}

fn record(ecosystem: &str, resolved: Option<&str>, integrity: Option<&str>) -> DependencyRecord {
    DependencyRecord {
        ecosystem: ecosystem.to_owned(),
        name: "pkg".to_owned(),
        version: Some("1.0.0".to_owned()),
        integrity: integrity.map(str::to_owned),
        resolved: resolved.map(str::to_owned),
        source_file: "package-lock.json".to_owned(),
    }
}

#[test]
fn download_requests_follow_the_lockfile() {
    let url = "https://registry.npmjs.org/pkg/-/pkg-1.0.0.tgz";
    assert_eq!(
        download_request(&record("npm", Some(url), Some("sha512-x"))),
        Ok((url.to_owned(), "sha512-x".to_owned()))
    );
    assert_eq!(
        download_request(&record("cargo", Some(url), Some("sha512-x"))),
        Err("online artifact inspection supports npm only; skipped pkg (cargo)".to_owned())
    );
    assert_eq!(
        download_request(&record("npm", None, Some("sha512-x"))),
        Err("pkg has no exact resolved artifact URL".to_owned())
    );
    assert_eq!(
        download_request(&record("npm", Some("http://evil.test/x.tgz"), Some("sha512-x"))),
        Err("pkg resolved URL is outside the HTTPS npm registry allowlist".to_owned())
    );
    assert_eq!(
        download_request(&record("npm", Some(url), None)),
        Err("pkg has no lockfile integrity value".to_owned())
    );
}

#[test]
fn fetched_artifacts_are_checked() {
    let content = b"inert package bytes".to_vec();
    let integrity = format!("sha512-{}", STANDARD.encode(Sha512::digest(&content)));
    let dep = record("npm", None, None);
    assert_eq!(accept_artifact(&dep, content.clone(), &integrity), Ok(content));
    assert_eq!(
        accept_artifact(&dep, b"tampered".to_vec(), &integrity),
        Err("pkg artifact integrity failed: downloaded bytes do not match any sha512 integrity token".to_owned())
    );
}
