use preflightx::git_analysis::{
    append_history_findings, diff_report, finding_key, parse_range, redirects_paths, tree_name_valid, tree_path,
    ChangeSet, HistoryWalk,
};
use preflightx::model::{Confidence, Finding, Severity};

#[test]
fn accepts_only_a_commit_id_to_head_range() {
    assert_eq!(
        parse_range("0123456789abcdef..HEAD"),
        Ok(("0123456789abcdef".to_owned(), "HEAD".to_owned()))
    );
    for value in [
        "HEAD~1..HEAD",
        "../HEAD",
        "0123456..main",
        "0123456..HEAD^",
        "ab..HEAD",
    ] {
        assert!(parse_range(value).is_err(), "accepted {value}");
    }
    assert_eq!(parse_range("abcdef0"), Err("diff requires <good-commit>..HEAD".to_owned()));
}

fn finding(id: &str, line: Option<u64>, evidence: &[&str]) -> Finding {
    Finding {
        id: id.to_owned(),
        severity: Severity::High,
        confidence: Confidence::High,
        score: 70,
        title: "Title".to_owned(),
        message: "Message.".to_owned(),
        file: Some("a.js".to_owned()),
        line,
        evidence: evidence.iter().map(|e| (*e).to_owned()).collect(),
    }
}

#[test]
fn finding_keys_join_rule_line_and_evidence() {
    assert_eq!(finding_key(&finding("X", Some(3), &["a", "b"])), "X|3|a|b");
    assert_eq!(finding_key(&finding("X", None, &[])), "X|0|");
}

#[test]
fn history_findings_are_marked_and_limited() {
    let mut findings = Vec::new();
    let mut incomplete = Vec::new();
    append_history_findings(
        &mut findings,
        &mut incomplete,
        "abc123",
        ChangeSet {
            findings: vec![("a.js".to_owned(), finding("X", Some(1), &["e"]))],
            incomplete_reasons: vec!["r".to_owned()],
            changed_blobs: 1,
        },
    );
    assert_eq!(findings.len(), 1);
    assert_eq!(findings[0].title, "Historical commit introduced: Title");
    assert_eq!(findings[0].evidence, vec!["e".to_owned(), "commit: abc123".to_owned()]);
    assert_eq!(incomplete, vec!["r".to_owned()]);

    let mut many: Vec<Finding> = (0..1999).map(|_| finding("Y", None, &[])).collect();
    let mut reasons = Vec::new();
    append_history_findings(
        &mut many,
        &mut reasons,
        "def",
        ChangeSet {
            findings: vec![
                ("a".to_owned(), finding("X", None, &[])),
                ("b".to_owned(), finding("Z", None, &[])),
            ],
            incomplete_reasons: Vec::new(),
            changed_blobs: 2,
        },
    );
    assert_eq!(many.len(), 2000);
    assert_eq!(reasons, vec!["Git history finding limit of 2000 reached".to_owned()]);
}

#[test]
fn diff_reports_list_new_findings_or_say_there_are_none() {
    let mut changes = ChangeSet::new();
    changes.changed_blobs = 2;
    changes.findings.push(("setup.py".to_owned(), finding("LANG-X", Some(2), &[])));
    let (text, incomplete) = diff_report("0123456", "HEAD", &changes);
    assert_eq!(text, "Git diff 0123456..HEAD\nChanged blobs: 2\n+ LANG-X  setup.py\n");
    assert!(!incomplete);
    let mut empty = ChangeSet::new();
    empty.incomplete_reasons.push("changed blob limit of 20000 reached".to_owned());
    let (text, incomplete) = diff_report("0123456", "HEAD", &empty);
    assert_eq!(
        text,
        "Git diff 0123456..HEAD\nChanged blobs: 0\nNo new scanner findings were identified in changed blobs.\n\
Coverage: INCOMPLETE\n- changed blob limit of 20000 reached\n"
    );
    assert!(incomplete);
}

#[test]
fn tree_names_and_config_redirects_are_checked() {
    assert!(tree_name_valid("setup.py"));
    for name in ["", ".", "..", "a/b", "bad\u{7}"] {
        assert!(!tree_name_valid(name), "{name:?}");
    }
    assert_eq!(tree_path("", "a"), "a");
    assert_eq!(tree_path("src", "a"), "src/a");
    assert!(redirects_paths(b"[Include]\npath = /outside\n"));
    assert!(redirects_paths(b"[core]\n\tworkTree = ..\n"));
    assert!(!redirects_paths(b"[core]\n\tbare = false\n"));
}

#[test]
fn history_walks_stop_at_their_limits() {
    let mut walk = HistoryWalk::new(true);
    for _ in 0..10 {
        assert!(walk.admit_commit());
    }
    assert!(!walk.admit_commit());
    assert_eq!(walk.incomplete_reasons, vec!["Git history commit limit of 10 reached".to_owned()]);
    assert_eq!(walk.parents_to_follow(70, "abc"), 64);
    assert_eq!(walk.parents_to_follow(2, "abc"), 2);
    assert!(walk.within_entries(99_999));
    assert!(!walk.within_entries(100_000));
    let mut changes = ChangeSet::new();
    let mut used = 0u64;
    assert!(changes.take_blob(&mut used, 10, "changed", "a"));
    assert_eq!(used, 10);
    assert!(!changes.take_blob(&mut used, 16 * 1024 * 1024 + 1, "prior", "b"));
    assert_eq!(changes.incomplete_reasons, vec!["prior Git blob byte limit reached at b".to_owned()]);
    assert!(changes.count_change());
}
