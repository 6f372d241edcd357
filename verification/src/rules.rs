//! The catalogue of rules that findings are reported under.
use vstd::prelude::*;
use vstd::string::*;
use crate::text::{push_str, str_eq};

verus! {

/// A rule identifier with its one-line description.
pub struct Rule {
    pub id: &'static str,
    pub description: &'static str,
}

/// The rule catalogue: each rule's identifier and description.
pub open spec fn catalogue() -> Seq<(Seq<char>, Seq<char>)> {
    seq![
        ("CONFIG-PARSE-FAILED"@, "Security-relevant configuration could not be parsed; scan coverage is incomplete."@),
        ("DEVCONTAINER-EXECUTION-HOOK"@, "A devcontainer hook can execute repository-controlled commands."@),
        ("FILE-EXECUTABLE-CONTENT"@, "Executable-looking text appears under a non-code extension."@),
        ("FILE-PARSEABLE-JAVASCRIPT"@, "Oxc parses executable-looking text under a non-code extension as JavaScript."@),
        ("FILE-TYPE-MISMATCH"@, "File extension and content signature or structure disagree."@),
        ("FS-ABSOLUTE-SYMLINK"@, "An absolute symlink target was recorded without following it."@),
        ("FS-PATH-ESCAPE"@, "A path resolved outside the scan root and was not read."@),
        ("FS-SPECIAL-FILE"@, "A device, FIFO, socket, or other special file was not opened."@),
        ("FS-SYMLINK-ESCAPE"@, "A symlink target escapes the scan root and was not followed."@),
        ("IDE-AUTOMATIC-TASKS"@, "Workspace settings permit automatic tasks."@),
        ("IDE-FOLDER-OPEN-DOWNLOAD-EXECUTE"@, "A VS Code folder-open task contains a download or execution command."@),
        ("IDE-FOLDER-OPEN-TASK"@, "A VS Code task runs on folder open."@),
        ("IDE-HIDDEN-SECURITY-FILES"@, "Workspace settings conceal security-relevant files."@),
        ("IDE-PRELAUNCH-TASK"@, "A debug launch configuration invokes a workspace task."@),
        ("LANG-EXECUTION-ROOT"@, "A recognized build or package hook can run repository-controlled source."@),
        ("LANG-REMOTE-DATA-EXECUTION-CAPABILITY"@, "One recognized language source contains remote-input and execution capabilities; runtime data flow is not proven."@),
        ("LANG-REMOTE-DOWNLOAD-EXECUTE"@, "A recognized language source directly pipes or passes remote content to execution."@),
        ("JS-COMBINED-ATTACK-CHAIN"@, "One evidenced route contains secret exfiltration and remote execution chains."@),
        ("JS-CONCEALED-EXECUTION"@, "Reachable code or process execution coincides with visual concealment."@),
        ("JS-DOWNLOAD-WRITE-EXECUTE"@, "Remote bytes flow through a filesystem write into process execution."@),
        ("JS-DYNAMIC-EXECUTION"@, "JavaScript contains a dynamic code execution capability; the call alone does not prove maliciousness."@),
        ("JS-PROCESS-EXECUTION"@, "JavaScript contains a process execution capability; the call alone does not prove maliciousness."@),
        ("JS-PERSISTENCE-COMMAND"@, "JavaScript invokes a recognized command that registers automatic startup."@),
        ("JS-PERSISTENCE-WRITE"@, "JavaScript writes to a recognized automatic startup location."@),
        ("JS-REACHABLE-DISGUISED-SOURCE"@, "An execution root imports parseable JavaScript under a non-code extension."@),
        ("JS-REMOTE-CODE-EXECUTION"@, "Remote-controlled data reaches dynamic JavaScript execution."@),
        ("JS-REMOTE-PROCESS-EXECUTION"@, "Remote-controlled data reaches a process execution API."@),
        ("JS-SECRET-EXFILTRATION"@, "Sensitive environment, file, or clipboard data reaches an outbound request."@),
        ("NPM-EXECUTION-SCRIPT"@, "An npm script is a possible execution root."@),
        ("NPM-LIFECYCLE-SCRIPT"@, "An npm lifecycle hook can run during installation or preparation."@),
        ("RAW-CONTENT-AFTER-EOF"@, "Printable content follows an apparent logical EOF marker."@),
        ("RAW-EXTREME-LINE"@, "An extremely long line may conceal source outside an editor viewport."@),
        ("RAW-HIDDEN-AFTER-WHITESPACE"@, "Content follows a large horizontal whitespace run."@),
        ("THREAT-KNOWN-MALICIOUS-HASH"@, "A file SHA-256 matches a locally embedded malicious-artifact record."@),
        ("THREAT-KNOWN-MALICIOUS-PACKAGE"@, "An exact resolved dependency version matches a locally embedded malicious-package record."@),
        ("YARA-POWERSHELL-DOWNLOAD-EXEC"@, "A YARA-X signature matched a PowerShell download, decode, and execution pattern."@),
        ("YARA-JS-ENCRYPTED-LOADER"@, "A YARA-X signature matched an AES-decrypted dynamic JavaScript loader pattern."@),
    ]
}

pub open spec fn rule_views(rules: Seq<Rule>) -> Seq<(Seq<char>, Seq<char>)> {
    rules.map_values(|r: Rule| (r.id@, r.description@))
}

/// The rules in catalogue order.
pub fn rules() -> (r: Vec<Rule>)
    ensures
        rule_views(r@) == catalogue(),
{
    let mut r: Vec<Rule> = Vec::new();
    r.push(Rule { id: "CONFIG-PARSE-FAILED", description: "Security-relevant configuration could not be parsed; scan coverage is incomplete." });
    r.push(Rule { id: "DEVCONTAINER-EXECUTION-HOOK", description: "A devcontainer hook can execute repository-controlled commands." });
    r.push(Rule { id: "FILE-EXECUTABLE-CONTENT", description: "Executable-looking text appears under a non-code extension." });
    r.push(Rule { id: "FILE-PARSEABLE-JAVASCRIPT", description: "Oxc parses executable-looking text under a non-code extension as JavaScript." });
    r.push(Rule { id: "FILE-TYPE-MISMATCH", description: "File extension and content signature or structure disagree." });
    r.push(Rule { id: "FS-ABSOLUTE-SYMLINK", description: "An absolute symlink target was recorded without following it." });
    r.push(Rule { id: "FS-PATH-ESCAPE", description: "A path resolved outside the scan root and was not read." });
    r.push(Rule { id: "FS-SPECIAL-FILE", description: "A device, FIFO, socket, or other special file was not opened." });
    r.push(Rule { id: "FS-SYMLINK-ESCAPE", description: "A symlink target escapes the scan root and was not followed." });
    r.push(Rule { id: "IDE-AUTOMATIC-TASKS", description: "Workspace settings permit automatic tasks." });
    r.push(Rule { id: "IDE-FOLDER-OPEN-DOWNLOAD-EXECUTE", description: "A VS Code folder-open task contains a download or execution command." });
    r.push(Rule { id: "IDE-FOLDER-OPEN-TASK", description: "A VS Code task runs on folder open." });
    r.push(Rule { id: "IDE-HIDDEN-SECURITY-FILES", description: "Workspace settings conceal security-relevant files." });
    r.push(Rule { id: "IDE-PRELAUNCH-TASK", description: "A debug launch configuration invokes a workspace task." });
    r.push(Rule { id: "LANG-EXECUTION-ROOT", description: "A recognized build or package hook can run repository-controlled source." });
    r.push(Rule { id: "LANG-REMOTE-DATA-EXECUTION-CAPABILITY", description: "One recognized language source contains remote-input and execution capabilities; runtime data flow is not proven." });
    r.push(Rule { id: "LANG-REMOTE-DOWNLOAD-EXECUTE", description: "A recognized language source directly pipes or passes remote content to execution." });
    r.push(Rule { id: "JS-COMBINED-ATTACK-CHAIN", description: "One evidenced route contains secret exfiltration and remote execution chains." });
    r.push(Rule { id: "JS-CONCEALED-EXECUTION", description: "Reachable code or process execution coincides with visual concealment." });
    r.push(Rule { id: "JS-DOWNLOAD-WRITE-EXECUTE", description: "Remote bytes flow through a filesystem write into process execution." });
    r.push(Rule { id: "JS-DYNAMIC-EXECUTION", description: "JavaScript contains a dynamic code execution capability; the call alone does not prove maliciousness." });
    r.push(Rule { id: "JS-PROCESS-EXECUTION", description: "JavaScript contains a process execution capability; the call alone does not prove maliciousness." });
    r.push(Rule { id: "JS-PERSISTENCE-COMMAND", description: "JavaScript invokes a recognized command that registers automatic startup." });
    r.push(Rule { id: "JS-PERSISTENCE-WRITE", description: "JavaScript writes to a recognized automatic startup location." });
    r.push(Rule { id: "JS-REACHABLE-DISGUISED-SOURCE", description: "An execution root imports parseable JavaScript under a non-code extension." });
    r.push(Rule { id: "JS-REMOTE-CODE-EXECUTION", description: "Remote-controlled data reaches dynamic JavaScript execution." });
    r.push(Rule { id: "JS-REMOTE-PROCESS-EXECUTION", description: "Remote-controlled data reaches a process execution API." });
    r.push(Rule { id: "JS-SECRET-EXFILTRATION", description: "Sensitive environment, file, or clipboard data reaches an outbound request." });
    r.push(Rule { id: "NPM-EXECUTION-SCRIPT", description: "An npm script is a possible execution root." });
    r.push(Rule { id: "NPM-LIFECYCLE-SCRIPT", description: "An npm lifecycle hook can run during installation or preparation." });
    r.push(Rule { id: "RAW-CONTENT-AFTER-EOF", description: "Printable content follows an apparent logical EOF marker." });
    r.push(Rule { id: "RAW-EXTREME-LINE", description: "An extremely long line may conceal source outside an editor viewport." });
    r.push(Rule { id: "RAW-HIDDEN-AFTER-WHITESPACE", description: "Content follows a large horizontal whitespace run." });
    r.push(Rule { id: "THREAT-KNOWN-MALICIOUS-HASH", description: "A file SHA-256 matches a locally embedded malicious-artifact record." });
    r.push(Rule { id: "THREAT-KNOWN-MALICIOUS-PACKAGE", description: "An exact resolved dependency version matches a locally embedded malicious-package record." });
    r.push(Rule { id: "YARA-POWERSHELL-DOWNLOAD-EXEC", description: "A YARA-X signature matched a PowerShell download, decode, and execution pattern." });
    r.push(Rule { id: "YARA-JS-ENCRYPTED-LOADER", description: "A YARA-X signature matched an AES-decrypted dynamic JavaScript loader pattern." });
    assert(rule_views(r@) =~= catalogue());
    r
}

/// Index of the first rule with the given identifier.
pub open spec fn rule_index(rules: Seq<(Seq<char>, Seq<char>)>, id: Seq<char>) -> int
    decreases rules.len(),
{
    if rules.len() == 0 {
        -1
    } else if rules[0].0 == id {
        0
    } else if rule_index(rules.drop_first(), id) < 0 {
        -1
    } else {
        rule_index(rules.drop_first(), id) + 1
    }
}

proof fn lemma_rule_index(rules: Seq<(Seq<char>, Seq<char>)>, id: Seq<char>, k: int)
    requires
        0 <= k <= rules.len(),
        forall|j: int| 0 <= j < k ==> rules[j].0 != id,
    ensures
        k < rules.len() && rules[k].0 == id ==> rule_index(rules, id) == k,
        k == rules.len() ==> rule_index(rules, id) == -1,
    decreases rules.len(),
{
    if rules.len() > 0 && rules[0].0 != id && k > 0 {
        assert forall|j: int| 0 <= j < k - 1 implies rules.drop_first()[j].0 != id by {
            assert(rules.drop_first()[j] == rules[j + 1]);
        }
        lemma_rule_index(rules.drop_first(), id, k - 1);
    }
}

/// The explanation printed for one rule.
pub open spec fn explanation(rule: (Seq<char>, Seq<char>)) -> Seq<char> {
    rule.0 + "\n"@ + rule.1
        + "\n\nSeverity and confidence depend on scan evidence. Scan-specific paths and triggers appear in the report.\n"@
}

/// The explanation of the rule with identifier `id`, if there is one.
pub fn show(id: &str) -> (r: Option<String>)
    ensures
        r is Some <==> rule_index(catalogue(), id@) >= 0,
        r matches Some(text) ==> text@ == explanation(catalogue()[rule_index(catalogue(), id@)]),
{
    let table = rules();
    let mut i: usize = 0;
    while i < table.len()
        invariant
            rule_views(table@) == catalogue(),
            i <= table@.len(),
            forall|j: int| 0 <= j < i ==> catalogue()[j].0 != id@,
        decreases table.len() - i,
    {
        assert(catalogue()[i as int] == (table@[i as int].id@, table@[i as int].description@));
        if str_eq(table[i].id, id) {
            proof {
                lemma_rule_index(catalogue(), id@, i as int);
            }
            let mut text = String::new();
            push_str(&mut text, table[i].id);
            push_str(&mut text, "\n");
            push_str(&mut text, table[i].description);
            push_str(&mut text, "\n\nSeverity and confidence depend on scan evidence. Scan-specific paths and triggers appear in the report.\n");
            assert(text@ =~= explanation(catalogue()[i as int]));
            return Some(text);
        }
        i = i + 1;
    }
    proof {
        lemma_rule_index(catalogue(), id@, i as int);
    }
    None
}

/// One line of the rule listing.
pub open spec fn listing_line(rule: (Seq<char>, Seq<char>)) -> Seq<char> {
    rule.0 + "  "@ + rule.1 + "\n"@
}

/// The listing of a sequence of rules, one line each.
pub open spec fn listing(rules: Seq<(Seq<char>, Seq<char>)>) -> Seq<char>
    decreases rules.len(),
{
    if rules.len() == 0 {
        Seq::empty()
    } else {
        listing(rules.drop_last()) + listing_line(rules.last())
    }
}

/// Every rule, one line each: its identifier, two spaces, its description.
pub fn list() -> (r: String)
    ensures
        r@ == listing(catalogue()),
{
    let table = rules();
    let mut text = String::new();
    let mut i: usize = 0;
    while i < table.len()
        invariant
            rule_views(table@) == catalogue(),
            i <= table@.len(),
            text@ == listing(catalogue().subrange(0, i as int)),
        decreases table.len() - i,
    {
        let ghost before = text@;
        push_str(&mut text, table[i].id);
        push_str(&mut text, "  ");
        push_str(&mut text, table[i].description);
        push_str(&mut text, "\n");
        assert(catalogue().subrange(0, i + 1).drop_last() =~= catalogue().subrange(0, i as int));
        assert(catalogue()[i as int] == (table@[i as int].id@, table@[i as int].description@));
        assert(text@ =~= before + listing_line(catalogue()[i as int]));
        i = i + 1;
    }
    assert(catalogue().subrange(0, table@.len() as int) =~= catalogue());
    text
}

} // verus!
