//! The findings for the YARA-X rules that match a file's bytes. Matching is
//! the caller's: it hands over the identifiers of the matching rules.
use vstd::prelude::*;
use crate::model::{Confidence, Finding, FindingView, Severity, findings_view};
use crate::text::{owned, push_str, str_eq};

verus! {

/// The finding id, title and message for a rule of the bundled rule set.
pub open spec fn rule_text(rule: Seq<char>) -> Option<(Seq<char>, Seq<char>, Seq<char>)> {
    if rule == "PF_Encoded_PowerShell_Download_Execute"@ {
        Some(("YARA-POWERSHELL-DOWNLOAD-EXEC"@, "Encoded PowerShell download and execution pattern"@,
            "A file combines remote download, base64 decoding, and PowerShell expression execution indicators."@))
    } else if rule == "PF_Aes_Encrypted_Function_Loader"@ {
        Some(("YARA-JS-ENCRYPTED-LOADER"@, "Encrypted JavaScript loader pattern"@,
            "A file combines AES decryption and dynamic JavaScript function construction indicators."@))
    } else {
        None
    }
}

/// The finding for a matching rule of the bundled rule set.
pub open spec fn rule_finding_view(path: Seq<char>, rule: Seq<char>) -> Option<FindingView> {
    match rule_text(rule) {
        Some((id, title, message)) => Some(FindingView {
            id,
            severity: Severity::Medium,
            confidence: Confidence::Medium,
            score: 60,
            title,
            message,
            file: Some(path),
            line: None,
            evidence: seq!["matched YARA-X rule "@ + rule],
        }),
        None => None,
    }
}

/// The finding for a matching rule; none for a rule the scanner does not know.
pub fn rule_finding(path: &str, rule: &str) -> (r: Option<Finding>)
    ensures
        crate::scanner::classifier::opt_finding_view(r) == rule_finding_view(path@, rule@),
{
    let (id, title, message) = if str_eq(rule, "PF_Encoded_PowerShell_Download_Execute") {
        ("YARA-POWERSHELL-DOWNLOAD-EXEC", "Encoded PowerShell download and execution pattern",
            "A file combines remote download, base64 decoding, and PowerShell expression execution indicators.")
    } else if str_eq(rule, "PF_Aes_Encrypted_Function_Loader") {
        ("YARA-JS-ENCRYPTED-LOADER", "Encrypted JavaScript loader pattern",
            "A file combines AES decryption and dynamic JavaScript function construction indicators.")
    } else {
        return None;
    };
    let mut evidence = owned("matched YARA-X rule ");
    push_str(&mut evidence, rule);
    let f = Finding {
        id: owned(id),
        severity: Severity::Medium,
        confidence: Confidence::Medium,
        score: 60,
        title: owned(title),
        message: owned(message),
        file: Some(owned(path)),
        line: None,
        evidence: vec![evidence],
    };
    assert(f@.evidence =~= seq!["matched YARA-X rule "@ + rule@]);
    Some(f)
}

/// The findings for the matching rules, in their order.
pub open spec fn rules_findings(path: Seq<char>, rules: Seq<Seq<char>>) -> Seq<FindingView>
    decreases rules.len(),
{
    if rules.len() == 0 {
        Seq::empty()
    } else {
        rules_findings(path, rules.drop_last()) + match rule_finding_view(path, rules.last()) {
            Some(f) => seq![f],
            None => Seq::empty(),
        }
    }
}

/// The findings for the identifiers of the matching rules.
pub fn analyze(path: &str, rules: &Vec<String>) -> (r: Vec<Finding>)
    ensures
        findings_view(r@) == rules_findings(path@, crate::model::strings_view(rules@)),
{
    let ghost rv = crate::model::strings_view(rules@);
    let mut out: Vec<Finding> = Vec::new();
    let mut k: usize = 0;
    while k < rules.len()
        invariant
            k <= rules@.len(),
            rv == crate::model::strings_view(rules@),
            findings_view(out@) == rules_findings(path@, rv.subrange(0, k as int)),
        decreases rules.len() - k,
    {
        assert(rv.subrange(0, k + 1).drop_last() =~= rv.subrange(0, k as int));
        let ghost before = findings_view(out@);
        match rule_finding(path, rules[k].as_str()) {
            Some(f) => {
                out.push(f);
                assert(findings_view(out@) =~= before + seq![f@]);
            },
            None => {
                assert(findings_view(out@) =~= before + Seq::<FindingView>::empty());
            },
        }
        k = k + 1;
    }
    assert(rv.subrange(0, rules@.len() as int) =~= rv);
    out
}

/// The self-check: the bundled rules compile and scan, or why they do not.
pub fn doctor(scan: Result<Vec<String>, String>) -> (r: Result<(), String>)
    ensures
        match scan {
            Ok(_) => r is Ok,
            Err(e) => r == Err::<(), String>(e),
        },
{
    match scan {
        Ok(_) => Ok(()),
        Err(e) => Err(e),
    }
}

} // verus!
