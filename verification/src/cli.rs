//! The command line: the commands and scan options that arguments name.
use vstd::prelude::*;
use crate::model::{Severity, severity_named};
use crate::git_analysis::{bad_range_message, first_dots, missing_range_message, parse_range, valid_range};
use crate::text::{chars_of, lower, lowercase_chars, owned, push_str, seq_starts_with, str_eq, string_from_chars, str_starts_with};

verus! {

/// How a report is written.
#[derive(Clone, Copy, Debug, PartialEq, Eq, Structural)]
pub enum Format {
    Terminal,
    Json,
    Markdown,
    Sarif,
}

impl Default for Format {
    fn default() -> (r: Self)
        ensures
            r == Format::Terminal,
    {
        Format::Terminal
    }
}

/// What a scan is asked to do.
#[derive(Debug)]
pub struct ScanArgs {
    pub path: String,
    pub format: Format,
    pub fail_on: Severity,
    pub quick: bool,
    pub deep: bool,
    pub history: bool,
    pub dependencies: bool,
    pub online: bool,
}

/// A command of the command line.
#[derive(Debug)]
pub enum Command {
    Scan(ScanArgs),
    Help,
    Version,
    Rules,
    Rule(String),
    DbStatus,
    DbUpdate,
    Doctor,
    Diff(String),
}

/// One command-line argument: its text (with replacement characters where
/// it is not UTF-8) and whether it is valid UTF-8.
#[derive(Debug)]
pub struct CliArg {
    pub text: String,
    pub utf8: bool,
}

/// The content of a scan request.
pub struct ScanView {
    pub path: Seq<char>,
    pub format: Format,
    pub fail_on: Severity,
    pub quick: bool,
    pub deep: bool,
    pub history: bool,
    pub dependencies: bool,
    pub online: bool,
}

/// The content of a command.
pub enum CommandView {
    Scan(ScanView),
    Help,
    Version,
    Rules,
    Rule(Seq<char>),
    DbStatus,
    DbUpdate,
    Doctor,
    Diff(Seq<char>),
}

impl View for Command {
    type V = CommandView;

    open spec fn view(&self) -> CommandView {
        match self {
            Command::Scan(a) => CommandView::Scan(ScanView {
                path: a.path@,
                format: a.format,
                fail_on: a.fail_on,
                quick: a.quick,
                deep: a.deep,
                history: a.history,
                dependencies: a.dependencies,
                online: a.online,
            }),
            Command::Help => CommandView::Help,
            Command::Version => CommandView::Version,
            Command::Rules => CommandView::Rules,
            Command::Rule(id) => CommandView::Rule(id@),
            Command::DbStatus => CommandView::DbStatus,
            Command::DbUpdate => CommandView::DbUpdate,
            Command::Doctor => CommandView::Doctor,
            Command::Diff(r) => CommandView::Diff(r@),
        }
    }
}

/// An argument: its text and whether it is UTF-8.
pub open spec fn args_view(args: Seq<CliArg>) -> Seq<(Seq<char>, bool)> {
    args.map_values(|a: CliArg| (a.text@, a.utf8))
}

/// A command that takes no more arguments after position `i`.
pub open spec fn alone(args: Seq<(Seq<char>, bool)>, i: int, c: CommandView) -> Result<CommandView, Seq<char>> {
    if i < args.len() { Err("unexpected argument"@) } else { Ok(c) }
}

/// The format a value names.
pub open spec fn format_verdict(v: (Seq<char>, bool)) -> Result<Format, Seq<char>> {
    if !v.1 {
        Err("format must be valid UTF-8"@)
    } else if v.0 == "terminal"@ {
        Ok(Format::Terminal)
    } else if v.0 == "json"@ {
        Ok(Format::Json)
    } else if v.0 == "markdown"@ {
        Ok(Format::Markdown)
    } else if v.0 == "sarif"@ {
        Ok(Format::Sarif)
    } else {
        Err("unsupported format: "@ + v.0)
    }
}

/// The severity a value names, in any ASCII case.
pub open spec fn severity_verdict(v: (Seq<char>, bool)) -> Result<Severity, Seq<char>> {
    if !v.1 {
        Err("severity must be valid UTF-8"@)
    } else {
        match severity_named(lower(v.0)) {
            Some(s) => Ok(s),
            None => Err("unsupported severity: "@ + lower(v.0)),
        }
    }
}

/// The scan request after the arguments from `i`, starting from `d`.
pub open spec fn scan_from(args: Seq<(Seq<char>, bool)>, i: int, d: ScanDraft) -> Result<ScanDraft, Seq<char>>
    decreases args.len() - i,
{
    if i < 0 || i >= args.len() {
        Ok(d)
    } else {
        let a = args[i];
        if a.0 == "--format"@ {
            if i + 1 >= args.len() {
                Err("--format requires a value"@)
            } else {
                match format_verdict(args[i + 1]) {
                    Ok(f) => scan_from(args, i + 2, ScanDraft { format: f, ..d }),
                    Err(e) => Err(e),
                }
            }
        } else if a.1 && seq_starts_with(a.0, "--format="@) {
            match format_verdict((a.0.subrange(9, a.0.len() as int), true)) {
                Ok(f) => scan_from(args, i + 1, ScanDraft { format: f, ..d }),
                Err(e) => Err(e),
            }
        } else if a.0 == "--fail-on"@ {
            if i + 1 >= args.len() {
                Err("--fail-on requires a value"@)
            } else {
                match severity_verdict(args[i + 1]) {
                    Ok(s) => scan_from(args, i + 2, ScanDraft { fail_on: s, ..d }),
                    Err(e) => Err(e),
                }
            }
        } else if a.1 && seq_starts_with(a.0, "--fail-on="@) {
            match severity_verdict((a.0.subrange(10, a.0.len() as int), true)) {
                Ok(s) => scan_from(args, i + 1, ScanDraft { fail_on: s, ..d }),
                Err(e) => Err(e),
            }
        } else if a.0 == "--quick"@ {
            scan_from(args, i + 1, ScanDraft { quick: true, ..d })
        } else if a.0 == "--deep"@ {
            scan_from(args, i + 1, ScanDraft { deep: true, ..d })
        } else if a.0 == "--history"@ {
            scan_from(args, i + 1, ScanDraft { history: true, ..d })
        } else if a.0 == "--dependencies"@ {
            scan_from(args, i + 1, ScanDraft { dependencies: true, ..d })
        } else if a.0 == "--online"@ {
            scan_from(args, i + 1, ScanDraft { online: true, ..d })
        } else if seq_starts_with(a.0, "-"@) {
            Err("unknown option: "@ + a.0)
        } else if d.path is Some {
            Err("unexpected extra path argument"@)
        } else {
            scan_from(args, i + 1, ScanDraft { path: Some(a.0), ..d })
        }
    }
}

/// A scan request being read.
pub struct ScanDraft {
    pub path: Option<Seq<char>>,
    pub format: Format,
    pub fail_on: Severity,
    pub quick: bool,
    pub deep: bool,
    pub history: bool,
    pub dependencies: bool,
    pub online: bool,
}

pub open spec fn empty_draft() -> ScanDraft {
    ScanDraft {
        path: None,
        format: Format::Terminal,
        fail_on: Severity::High,
        quick: false,
        deep: false,
        history: false,
        dependencies: false,
        online: false,
    }
}

/// A commit range the `diff` command accepts: a hexadecimal commit ID of 7
/// to 64 characters, `..` and `HEAD`.
pub open spec fn diff_verdict(range: Seq<char>) -> Result<CommandView, Seq<char>> {
    if exists|i: int| first_dots(range, i) {
        let i = choose|i: int| first_dots(range, i);
        if valid_range(range.subrange(0, i), range.subrange(i + 2, range.len() as int)) {
            Ok(CommandView::Diff(range))
        } else {
            Err(bad_range_message())
        }
    } else {
        Err(missing_range_message())
    }
}

/// A range has one first `..`.
proof fn lemma_first_dots_unique(range: Seq<char>, i: int, j: int)
    requires
        first_dots(range, i),
        first_dots(range, j),
    ensures
        i == j,
{
    if i < j {
        assert(!crate::text::occurs_at(range, ".."@, i));
    }
    if j < i {
        assert(!crate::text::occurs_at(range, ".."@, j));
    }
}

/// A diff range is accepted: a commit ID of 7 to 64 hexadecimal digits,
/// `..` and `HEAD`.
pub open spec fn range_accepted(r: Seq<char>) -> bool {
    exists|i: int| first_dots(r, i) && valid_range(r.subrange(0, i), r.subrange(i + 2, r.len() as int))
}

/// `diff <range>` is the diff command exactly when the range is accepted,
/// and an error otherwise.
pub proof fn lemma_diff_follows_range(r: Seq<char>)
    ensures
        range_accepted(r) ==> command_verdict(seq![("diff"@, true), (r, true)]) == Ok::<CommandView, Seq<char>>(CommandView::Diff(r)),
        !range_accepted(r) ==> command_verdict(seq![("diff"@, true), (r, true)]) is Err,
{
    reveal_strlit("diff");
    reveal_strlit("--help");
    reveal_strlit("-h");
    reveal_strlit("version");
    reveal_strlit("--version");
    reveal_strlit("-V");
    reveal_strlit("rules");
    reveal_strlit("explain");
    reveal_strlit("db");
    reveal_strlit("doctor");
    let args = seq![("diff"@, true), (r, true)];
    assert(args[0].0 == "diff"@);
    assert(args[1].0 == r);
    assert("diff"@ != "--help"@ && "diff"@ != "-h"@ && "diff"@ != "version"@ && "diff"@ != "--version"@);
    assert("diff"@ != "-V"@ && "diff"@ != "rules"@ && "diff"@ != "explain"@ && "diff"@ != "db"@);
    assert("diff"@[1] != "doctor"@[1]);
    if range_accepted(r) {
        let i = choose|i: int| first_dots(r, i) && valid_range(r.subrange(0, i), r.subrange(i + 2, r.len() as int));
        let j = choose|j: int| first_dots(r, j);
        lemma_first_dots_unique(r, i, j);
    } else if exists|i: int| first_dots(r, i) {
        let j = choose|j: int| first_dots(r, j);
        assert(!valid_range(r.subrange(0, j), r.subrange(j + 2, r.len() as int)));
    }
}

/// The command that the arguments name.
pub open spec fn command_verdict(args: Seq<(Seq<char>, bool)>) -> Result<CommandView, Seq<char>> {
    if args.len() == 0 {
        Ok(CommandView::Help)
    } else {
        let first = args[0].0;
        if first == "--help"@ || first == "-h"@ {
            alone(args, 1, CommandView::Help)
        } else if first == "version"@ || first == "--version"@ || first == "-V"@ {
            alone(args, 1, CommandView::Version)
        } else if first == "rules"@ {
            if args.len() == 1 {
                Ok(CommandView::Rules)
            } else if args[1].0 == "show"@ {
                if args.len() == 2 { Err("rules show requires a rule ID"@) } else { alone(args, 3, CommandView::Rule(args[2].0)) }
            } else {
                Err("expected rules show <rule-id>"@)
            }
        } else if first == "explain"@ {
            if args.len() == 1 { Err("explain requires a finding ID"@) } else { alone(args, 2, CommandView::Rule(args[1].0)) }
        } else if first == "db"@ {
            if args.len() >= 2 && args[1].0 == "status"@ {
                alone(args, 2, CommandView::DbStatus)
            } else if args.len() >= 2 && args[1].0 == "update"@ {
                alone(args, 2, CommandView::DbUpdate)
            } else {
                Err("expected db status or db update"@)
            }
        } else if first == "doctor"@ {
            alone(args, 1, CommandView::Doctor)
        } else if first == "diff"@ {
            if args.len() == 1 {
                Err("diff requires <good-commit>..HEAD"@)
            } else {
                match diff_verdict(args[1].0) {
                    Ok(c) => alone(args, 2, c),
                    Err(e) => Err(e),
                }
            }
        } else {
            let start = if first == "scan"@ { 1int } else { 0int };
            match scan_from(args, start, empty_draft()) {
                Err(e) => Err(e),
                Ok(d) => if d.quick && d.deep {
                    Err("--quick and --deep cannot be combined"@)
                } else if d.online && !d.dependencies {
                    Err("--online requires --dependencies"@)
                } else {
                    match d.path {
                        None => Err("scan requires a path"@),
                        Some(p) => Ok(CommandView::Scan(ScanView {
                            path: p,
                            format: d.format,
                            fail_on: d.fail_on,
                            quick: d.quick,
                            deep: d.deep,
                            history: d.history,
                            dependencies: d.dependencies,
                            online: d.online,
                        })),
                    }
                },
            }
        }
    }
}

fn format_of(v: &CliArg, text: &str) -> (r: Result<Format, String>)
    requires
        text@ == v.text@ || (v.utf8 && seq_starts_with(v.text@, "--format="@) && text@ == v.text@.subrange(9, v.text@.len() as int)),
    ensures
        match r {
            Ok(f) => format_verdict((text@, v.utf8)) == Ok::<Format, Seq<char>>(f),
            Err(e) => format_verdict((text@, v.utf8)) == Err::<Format, Seq<char>>(e@),
        },
{
    if !v.utf8 {
        return Err(owned("format must be valid UTF-8"));
    }
    if str_eq(text, "terminal") {
        Ok(Format::Terminal)
    } else if str_eq(text, "json") {
        Ok(Format::Json)
    } else if str_eq(text, "markdown") {
        Ok(Format::Markdown)
    } else if str_eq(text, "sarif") {
        Ok(Format::Sarif)
    } else {
        let mut e = owned("unsupported format: ");
        push_str(&mut e, text);
        Err(e)
    }
}

fn severity_of(utf8: bool, text: &str) -> (r: Result<Severity, String>)
    ensures
        match r {
            Ok(s) => severity_verdict((text@, utf8)) == Ok::<Severity, Seq<char>>(s),
            Err(e) => severity_verdict((text@, utf8)) == Err::<Severity, Seq<char>>(e@),
        },
{
    if !utf8 {
        return Err(owned("severity must be valid UTF-8"));
    }
    let value = string_from_chars(&lowercase_chars(&chars_of(text)));
    match Severity::parse(value.as_str()) {
        Some(s) => Ok(s),
        None => {
            let mut e = owned("unsupported severity: ");
            push_str(&mut e, value.as_str());
            Err(e)
        },
    }
}

/// A scan request being read, as values.
struct Draft {
    path: Option<String>,
    format: Format,
    fail_on: Severity,
    quick: bool,
    deep: bool,
    history: bool,
    dependencies: bool,
    online: bool,
}

spec fn draft_view(d: Draft) -> ScanDraft {
    ScanDraft {
        path: match d.path { Some(p) => Some(p@), None => None },
        format: d.format,
        fail_on: d.fail_on,
        quick: d.quick,
        deep: d.deep,
        history: d.history,
        dependencies: d.dependencies,
        online: d.online,
    }
}

fn scan_options(args: &[CliArg], start: usize) -> (r: Result<Draft, String>)
    requires
        start <= args@.len(),
    ensures
        match r {
            Ok(d) => scan_from(args_view(args@), start as int, empty_draft()) == Ok::<ScanDraft, Seq<char>>(draft_view(d)),
            Err(e) => scan_from(args_view(args@), start as int, empty_draft()) == Err::<ScanDraft, Seq<char>>(e@),
        },
{
    let ghost av = args_view(args@);
    let mut d = Draft {
        path: None,
        format: Format::Terminal,
        fail_on: Severity::High,
        quick: false,
        deep: false,
        history: false,
        dependencies: false,
        online: false,
    };
    let mut i = start;
    proof { reveal_strlit("--format="); reveal_strlit("--fail-on="); }
    while i < args.len()
        invariant
            start <= i <= args@.len(),
            av == args_view(args@),
            scan_from(av, start as int, empty_draft()) == scan_from(av, i as int, draft_view(d)),
        decreases args.len() - i,
    {
        let a = &args[i];
        let t = a.text.as_str();
        assert(av[i as int] == (a.text@, a.utf8));
        proof { reveal_strlit("--format="); reveal_strlit("--fail-on="); }
        if str_eq(t, "--format") {
            if i + 1 >= args.len() {
                return Err(owned("--format requires a value"));
            }
            let v = &args[i + 1];
            assert(av[i + 1] == (v.text@, v.utf8));
            match format_of(v, v.text.as_str()) {
                Ok(f) => { d.format = f; },
                Err(e) => { return Err(e); },
            }
            i = i + 2;
        } else if a.utf8 && str_starts_with(t, "--format=") {
            let c = chars_of(t);
            let rest = string_from_chars(&crate::text::slice_chars(&c, 9, c.len()));
            match format_of(a, rest.as_str()) {
                Ok(f) => { d.format = f; },
                Err(e) => { return Err(e); },
            }
            i = i + 1;
        } else if str_eq(t, "--fail-on") {
            if i + 1 >= args.len() {
                return Err(owned("--fail-on requires a value"));
            }
            let v = &args[i + 1];
            assert(av[i + 1] == (v.text@, v.utf8));
            match severity_of(v.utf8, v.text.as_str()) {
                Ok(s) => { d.fail_on = s; },
                Err(e) => { return Err(e); },
            }
            i = i + 2;
        } else if a.utf8 && str_starts_with(t, "--fail-on=") {
            let c = chars_of(t);
            let rest = string_from_chars(&crate::text::slice_chars(&c, 10, c.len()));
            match severity_of(true, rest.as_str()) {
                Ok(s) => { d.fail_on = s; },
                Err(e) => { return Err(e); },
            }
            i = i + 1;
        } else if str_eq(t, "--quick") {
            d.quick = true;
            i = i + 1;
        } else if str_eq(t, "--deep") {
            d.deep = true;
            i = i + 1;
        } else if str_eq(t, "--history") {
            d.history = true;
            i = i + 1;
        } else if str_eq(t, "--dependencies") {
            d.dependencies = true;
            i = i + 1;
        } else if str_eq(t, "--online") {
            d.online = true;
            i = i + 1;
        } else if str_starts_with(t, "-") {
            let mut e = owned("unknown option: ");
            push_str(&mut e, t);
            return Err(e);
        } else if d.path.is_some() {
            return Err(owned("unexpected extra path argument"));
        } else {
            d.path = Some(owned(t));
            i = i + 1;
        }
    }
    Ok(d)
}

fn no_extra(args: &[CliArg], next: usize, c: Command) -> (r: Result<Command, String>)
    ensures
        match r {
            Ok(x) => alone(args_view(args@), next as int, c@) == Ok::<CommandView, Seq<char>>(x@),
            Err(e) => alone(args_view(args@), next as int, c@) == Err::<CommandView, Seq<char>>(e@),
        },
{
    if next < args.len() {
        Err(owned("unexpected argument"))
    } else {
        Ok(c)
    }
}

/// The command that the arguments name, or why they name none.
pub fn parse(args: &[CliArg]) -> (r: Result<Command, String>)
    ensures
        match r {
            Ok(c) => command_verdict(args_view(args@)) == Ok::<CommandView, Seq<char>>(c@),
            Err(e) => command_verdict(args_view(args@)) == Err::<CommandView, Seq<char>>(e@),
        },
{
    let ghost av = args_view(args@);
    if args.len() == 0 {
        return Ok(Command::Help);
    }
    assert(av[0] == (args@[0].text@, args@[0].utf8));
    let first = args[0].text.as_str();
    if str_eq(first, "--help") || str_eq(first, "-h") {
        return no_extra(args, 1, Command::Help);
    }
    if str_eq(first, "version") || str_eq(first, "--version") || str_eq(first, "-V") {
        return no_extra(args, 1, Command::Version);
    }
    if str_eq(first, "rules") {
        if args.len() == 1 {
            return Ok(Command::Rules);
        }
        assert(av[1] == (args@[1].text@, args@[1].utf8));
        if str_eq(args[1].text.as_str(), "show") {
            if args.len() == 2 {
                return Err(owned("rules show requires a rule ID"));
            }
            assert(av[2] == (args@[2].text@, args@[2].utf8));
            return no_extra(args, 3, Command::Rule(owned(args[2].text.as_str())));
        }
        return Err(owned("expected rules show <rule-id>"));
    }
    if str_eq(first, "explain") {
        if args.len() == 1 {
            return Err(owned("explain requires a finding ID"));
        }
        assert(av[1] == (args@[1].text@, args@[1].utf8));
        return no_extra(args, 2, Command::Rule(owned(args[1].text.as_str())));
    }
    if str_eq(first, "db") {
        if args.len() >= 2 {
            assert(av[1] == (args@[1].text@, args@[1].utf8));
            if str_eq(args[1].text.as_str(), "status") {
                return no_extra(args, 2, Command::DbStatus);
            }
            if str_eq(args[1].text.as_str(), "update") {
                return no_extra(args, 2, Command::DbUpdate);
            }
        }
        return Err(owned("expected db status or db update"));
    }
    if str_eq(first, "doctor") {
        return no_extra(args, 1, Command::Doctor);
    }
    if str_eq(first, "diff") {
        if args.len() == 1 {
            return Err(owned("diff requires <good-commit>..HEAD"));
        }
        assert(av[1] == (args@[1].text@, args@[1].utf8));
        let range = args[1].text.as_str();
        match parse_range(range) {
            Ok(_) => {
                proof {
                    let i = choose|i: int| first_dots(range@, i)
                        && valid_range(range@.subrange(0, i), range@.subrange(i + 2, range@.len() as int));
                    let k = choose|k: int| first_dots(range@, k);
                    lemma_first_dots_unique(range@, i, k);
                }
                return no_extra(args, 2, Command::Diff(owned(range)));
            },
            Err(e) => {
                proof {
                    if exists|i: int| first_dots(range@, i) {
                        let k = choose|k: int| first_dots(range@, k);
                        if forall|i: int| !crate::text::occurs_at(range@, ".."@, i) {
                            assert(!crate::text::occurs_at(range@, ".."@, k));
                        } else {
                            let i = choose|i: int| first_dots(range@, i)
                                && !valid_range(range@.subrange(0, i), range@.subrange(i + 2, range@.len() as int))
                                && e@ == bad_range_message();
                            lemma_first_dots_unique(range@, i, k);
                        }
                    }
                }
                return Err(e);
            },
        }
    }
    let start: usize = if str_eq(first, "scan") { 1 } else { 0 };
    let d = match scan_options(args, start) {
        Ok(d) => d,
        Err(e) => return Err(e),
    };
    if d.quick && d.deep {
        return Err(owned("--quick and --deep cannot be combined"));
    }
    if d.online && !d.dependencies {
        return Err(owned("--online requires --dependencies"));
    }
    match d.path {
        None => Err(owned("scan requires a path")),
        Some(path) => Ok(Command::Scan(ScanArgs {
            path,
            format: d.format,
            fail_on: d.fail_on,
            quick: d.quick,
            deep: d.deep,
            history: d.history,
            dependencies: d.dependencies,
            online: d.online,
        })),
    }
}

/// The usage text.
pub fn help() -> &'static str {
    "Pre-execution security scanner for untrusted source repositories\n\nUsage:\n  preflightx <path> [--format terminal|json|markdown|sarif] [--fail-on <severity>]\n  preflightx scan <path> [--format terminal|json|markdown|sarif] [--fail-on <severity>]\n  preflightx rules\n  preflightx rules show <rule-id>\n  preflightx explain <finding-id>\n  preflightx version\n  preflightx db status|update\n  preflightx doctor\n  preflightx diff <good-commit>..HEAD\n  preflightx <path> [--quick|--deep] [--history] [--dependencies [--online]]\n  preflightx --help\n  preflightx --version\n\nSeverities: informational, low, medium, high, critical"
}

/// The exit status of a scan: 2 when it is incomplete, 1 when a finding
/// reaches the policy threshold, 0 otherwise.
pub open spec fn exit_code_of(status: crate::model::ScanStatus, findings: Seq<crate::model::Finding>, fail_on: Severity) -> u8 {
    if status == crate::model::ScanStatus::Incomplete {
        2u8
    } else if crate::model::any_at_least(findings, fail_on) {
        1u8
    } else {
        0u8
    }
}

/// The exit status of a scan: 2 when it is incomplete, 1 when a finding
/// reaches the policy threshold, 0 otherwise.
pub fn scan_exit_code(report: &crate::model::ScanReport, fail_on: Severity) -> (r: u8)
    ensures
        r == exit_code_of(report.status, report.findings@, fail_on),
{
    if report.status == crate::model::ScanStatus::Incomplete {
        2
    } else if report.failed_policy(fail_on) {
        1
    } else {
        0
    }
}

} // verus!
