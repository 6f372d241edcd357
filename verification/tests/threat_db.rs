use preflightx::model::DependencyRecord;
use preflightx::threat_db::{
    check_database, hash_finding, package_finding, status, valid_text, Database, HashRecord,
    PackageRecord,
};

fn dependency(name: &str, version: &str) -> DependencyRecord {
    DependencyRecord {
        ecosystem: "npm".to_owned(),
        name: name.to_owned(),
        version: Some(version.to_owned()),
        integrity: None,
        resolved: None,
        source_file: "package-lock.json".to_owned(),
    }
}

fn seed() -> Database {
    Database {
        format_version: 1,
        version: "2024.1".to_owned(),
        snapshot_date: "2024-01-01".to_owned(),
        sources: vec!["OpenSSF Malicious Packages".to_owned()],
        records: vec![PackageRecord {
            provider: "OpenSSF Malicious Packages".to_owned(),
            record_id: "MAL-2022-1".to_owned(),
            ecosystem: "npm".to_owned(),
            name: "node-slot".to_owned(),
            versions: vec!["1.0.7".to_owned()],
            record_modified: "2024-01-01".to_owned(),
            summary: "Malicious code in node-slot (npm)".to_owned(),
            provenance: "https://github.com/ossf/malicious-packages".to_owned(),
        }],
        hashes: vec![HashRecord {
            provider: "Example".to_owned(),
            record_id: "H-1".to_owned(),
            sha256: "AB".repeat(32),
            provenance: "https://example.test/h1".to_owned(),
        }],
        domains: Vec::new(),
        urls: Vec::new(),
    }
}

#[test]
fn matches_only_explicit_open_ssf_affected_versions() {
    let db = seed();
    assert!(check_database(&db).is_ok());
    assert_eq!(
        package_finding(&db, &dependency("node-slot", "1.0.7")).unwrap().id,
        "THREAT-KNOWN-MALICIOUS-PACKAGE"
    );
    assert!(package_finding(&db, &dependency("node-slot", "1.0.6")).is_none());
    assert!(package_finding(&db, &dependency("not-node-slot", "1.0.7")).is_none());
}

#[test]
fn reports_embedded_database_metadata() {
    let status = status(&seed());
    assert!(status.contains("OpenSSF Malicious Packages"));
    assert!(status.contains("1 package records"));
}

#[test]
fn package_matches_ignore_ascii_case_and_render_evidence() {
    let db = seed();
    let mut dep = dependency("Node-Slot", "1.0.7");
    dep.ecosystem = "NPM".to_owned();
    let finding = package_finding(&db, &dep).unwrap();
    assert_eq!(finding.message, "Node-Slot@1.0.7 matches an exact affected version from OpenSSF Malicious Packages.");
    assert_eq!(finding.evidence[2], "affected version: 1.0.7");
    let mut unversioned = dependency("node-slot", "1.0.7");
    unversioned.version = None;
    assert!(package_finding(&db, &unversioned).is_none());
}

#[test]
fn hashes_match_without_case() {
    let db = seed();
    let finding = hash_finding(&db, "bin/x", &"ab".repeat(32)).unwrap();
    assert_eq!(finding.id, "THREAT-KNOWN-MALICIOUS-HASH");
    assert_eq!(finding.file.as_deref(), Some("bin/x"));
    assert!(hash_finding(&db, "bin/x", &"cd".repeat(32)).is_none());
}

#[test]
fn invalid_databases_are_refused() {
    let mut db = seed();
    db.format_version = 2;
    assert_eq!(
        check_database(&db),
        Err("embedded threat database header or record count is unsupported".to_owned())
    );
    let mut db = seed();
    db.records[0].provenance = "http://insecure.test".to_owned();
    assert_eq!(
        check_database(&db),
        Err("embedded threat database contains an invalid record".to_owned())
    );
    let mut db = seed();
    db.hashes[0].sha256 = "zz".repeat(32);
    assert!(check_database(&db).is_err());
    assert!(valid_text("ok", 2));
    assert!(!valid_text("é", 1));
    assert!(!valid_text("", 5));
    assert!(!valid_text("a\nb", 5));
}
