//! A small data-flow evaluator over a lowered form of JavaScript: it follows
//! labelled values from remote, secret and file sources to execution and
//! network sinks.
use vstd::prelude::*;
use crate::scanner::js::semantic::{capability, capability_of, ModuleFacts};
use crate::model::{Confidence, Finding, FindingView, Severity, findings_view, strings_view};
use crate::scanner::graph::resolve_import;
use crate::text::{
    chars_end_with_str, chars_of, chars_start_with_str, chars_eq_str, chars_contain_str, last_index_of,
    lemma_last_index_of, lower, lowercase_chars, rfind_char, seq_contains, seq_ends_with, seq_starts_with,
    slice_chars, string_from_chars, strs_view, forward_slashes, to_forward_slashes, trim_whitespace_of,
};

verus! {

/// The lowered form of one module. Each list holds at most one entry per
/// local name; a lookup takes the first.
#[derive(Debug)]
pub struct ModuleFlow {
    /// Local name, then module specifier and exported name.
    pub imports: Vec<(String, (String, String))>,
    /// Exported name, then local name.
    pub exports: Vec<(String, String)>,
    /// Exported name, then module specifier and exported name.
    pub reexports: Vec<(String, (String, String))>,
    pub functions: Vec<(String, Function)>,
    pub body: Vec<Stmt>,
}

/// A function body with its parameters.
#[derive(Debug)]
pub struct Function {
    pub params: Vec<Binding>,
    pub body: Vec<Stmt>,
}

/// The target of a binding: a name or a destructuring pattern.
#[derive(Debug)]
pub enum Binding {
    Name(String),
    Object(Vec<(String, Binding)>),
    Array(Vec<Binding>),
    Ignore,
}

/// A lowered statement.
#[derive(Debug)]
pub enum Stmt {
    Bind(Binding, Expr),
    Expr(Expr),
    Return(Expr),
    Branch(Expr, Vec<Stmt>, Vec<Stmt>),
    Iterate(Binding, Expr, Vec<Stmt>),
}

/// A lowered expression.
#[derive(Debug)]
pub enum Expr {
    Name(String),
    String(String),
    Bool(bool),
    Member(Box<Expr>, String),
    Call(Box<Expr>, Vec<Expr>, u64),
    Construct(Box<Expr>, Vec<Expr>, u64),
    Then(Box<Expr>, Binding, Vec<Stmt>),
    Message(Box<Expr>, Binding, Vec<Stmt>, String),
    Object(Vec<(String, Expr)>),
    Array(Vec<Expr>),
    Combine(Vec<Expr>),
    Sequence(Vec<Expr>),
    Assign(String, Box<Expr>),
    Unknown,
}


/// `s` without the suffix, when it ends with it.
pub open spec fn strip_suffix(s: Seq<char>, suffix: Seq<char>) -> Option<Seq<char>> {
    if seq_ends_with(s, suffix) { Some(s.take(s.len() - suffix.len())) } else { None }
}

/// `s` without the prefix, when it starts with it.
pub open spec fn strip_prefix(s: Seq<char>, prefix: Seq<char>) -> Option<Seq<char>> {
    if seq_starts_with(s, prefix) { Some(s.skip(prefix.len() as int)) } else { None }
}

/// The API an imported binding names: the module for `*` or `default`,
/// else the module and member joined with a dot.
pub open spec fn import_api(import: Seq<char>) -> Option<Seq<char>> {
    let h = last_index_of(import, '#');
    if h < 0 {
        None
    } else {
        let specifier = import.take(h);
        let exported = import.skip(h + 1);
        let member = match strip_prefix(exported, "*."@) {
            Some(m) => m,
            None => match strip_prefix(exported, "default."@) {
                Some(m) => m,
                None => exported,
            },
        };
        if member == "*"@ || member == "default"@ {
            Some(specifier)
        } else {
            Some(specifier + "."@ + member)
        }
    }
}

/// The capability-bearing API that a `.call` or `.apply` invokes.
pub open spec fn indirect_target(name: Seq<char>) -> Option<Seq<char>> {
    let target = match strip_suffix(name, ".call"@) {
        Some(t) => Some(t),
        None => strip_suffix(name, ".apply"@),
    };
    match target {
        None => None,
        Some(t) => {
            let resolved = match strip_prefix(t, "import:"@) {
                Some(import) => import_api(import),
                None => Some(t),
            };
            match resolved {
                Some(r) => if capability_of(r).is_some() { Some(r) } else { None },
                None => None,
            }
        },
    }
}

fn strip_suffix_of(s: &[char], suffix: &str) -> (r: Option<Vec<char>>)
    ensures
        match r {
            Some(v) => strip_suffix(s@, suffix@) == Some(v@),
            None => strip_suffix(s@, suffix@).is_none(),
        },
{
    if chars_end_with_str(s, suffix) {
        let n = chars_of(suffix).len();
        Some(slice_chars(s, 0, s.len() - n))
    } else {
        None
    }
}

fn strip_prefix_of(s: &[char], prefix: &str) -> (r: Option<Vec<char>>)
    ensures
        match r {
            Some(v) => strip_prefix(s@, prefix@) == Some(v@),
            None => strip_prefix(s@, prefix@).is_none(),
        },
{
    if chars_start_with_str(s, prefix) {
        let n = chars_of(prefix).len();
        Some(slice_chars(s, n, s.len()))
    } else {
        None
    }
}

fn import_api_of(import: &[char]) -> (r: Option<Vec<char>>)
    ensures
        match r {
            Some(v) => import_api(import@) == Some(v@),
            None => import_api(import@).is_none(),
        },
{
    proof { lemma_last_index_of(import@, '#'); }
    let h = match rfind_char(import, '#') {
        None => return None,
        Some(h) => h,
    };
    let specifier = slice_chars(import, 0, h);
    let exported = slice_chars(import, h + 1, import.len());
    assert(specifier@ =~= import@.take(h as int));
    assert(exported@ =~= import@.skip(h + 1));
    let member = match strip_prefix_of(&exported, "*.") {
        Some(m) => m,
        None => match strip_prefix_of(&exported, "default.") {
            Some(m) => m,
            None => exported,
        },
    };
    if chars_eq_str(&member, "*") || chars_eq_str(&member, "default") {
        Some(specifier)
    } else {
        let mut out = specifier;
        out.push('.');
        let mut k: usize = 0;
        let ghost base = out@;
        while k < member.len()
            invariant
                k <= member@.len(),
                out@ == base + member@.subrange(0, k as int),
            decreases member.len() - k,
        {
            out.push(member[k]);
            assert(out@ =~= base + member@.subrange(0, k + 1));
            k = k + 1;
        }
        assert(member@.subrange(0, member@.len() as int) =~= member@);
        proof { reveal_strlit("."); }
        assert(out@ =~= import@.take(h as int) + "."@ + member@);
        Some(out)
    }
}

/// The capability-bearing API that a `.call` or `.apply` invokes.
pub fn indirect_api_target(name: &[char]) -> (r: Option<Vec<char>>)
    ensures
        match r {
            Some(v) => indirect_target(name@) == Some(v@),
            None => indirect_target(name@).is_none(),
        },
{
    let target = match strip_suffix_of(name, ".call") {
        Some(t) => t,
        None => match strip_suffix_of(name, ".apply") {
            Some(t) => t,
            None => return None,
        },
    };
    let resolved = match strip_prefix_of(&target, "import:") {
        Some(import) => match import_api_of(&import) {
            Some(r) => r,
            None => return None,
        },
        None => target,
    };
    let s = string_from_chars(&resolved);
    if capability(s.as_str()).is_some() {
        Some(resolved)
    } else {
        None
    }
}

/// Environment keys that carry no secret.
pub open spec fn non_secret_key(key: Seq<char>) -> bool {
    key == "NODE_ENV"@ || key == "CI"@ || key == "DEBUG"@ || key == "TERM"@
}

/// Whether an environment key carries no secret.
pub fn non_secret_environment_key(key: &str) -> (r: bool)
    ensures
        r == non_secret_key(key@),
{
    crate::text::str_eq(key, "NODE_ENV") || crate::text::str_eq(key, "CI")
        || crate::text::str_eq(key, "DEBUG") || crate::text::str_eq(key, "TERM")
}

/// Markers of credential, browser-profile and wallet locations.
pub open spec fn sensitive_markers() -> Seq<Seq<char>> {
    seq![".ssh"@, ".aws"@, ".azure"@, "gcloud"@, ".npmrc"@, ".gitconfig"@, ".kube"@, ".docker"@,
        ".mozilla"@, "mozilla/firefox/profiles"@, "firefox/profiles"@, "logins.json"@, "key4.db"@,
        "chrome/user data"@, "google/chrome/user data"@, "microsoft/edge/user data"@,
        "chromium/user data"@, "brave"@, "keychain"@, "keychains/"@, "login data"@, "cookies"@,
        "1password"@, "bitwarden"@, "lastpass"@, ".password-store"@, "keepass"@, "wallet"@,
        "metamask"@, "exodus"@, "electrum"@, "wallet.dat"@, "password"@]
}

pub open spec fn contains_marker(text: Seq<char>, markers: Seq<Seq<char>>) -> bool {
    exists|i: int| 0 <= i < markers.len() && seq_contains(text, #[trigger] markers[i])
}

fn contains_marker_of(text: &[char], markers: &[&str]) -> (r: bool)
    ensures
        r == contains_marker(text@, strs_view(markers@)),
{
    let mut i: usize = 0;
    while i < markers.len()
        invariant
            i <= markers@.len(),
            forall|j: int| 0 <= j < i ==> !seq_contains(text@, #[trigger] strs_view(markers@)[j]),
        decreases markers.len() - i,
    {
        if chars_contain_str(text, markers[i]) {
            assert(seq_contains(text@, strs_view(markers@)[i as int]));
            return true;
        }
        i = i + 1;
    }
    false
}

/// A path to credentials, browser profiles or wallets.
pub open spec fn is_sensitive_path(path: Seq<char>) -> bool {
    contains_marker(lower(forward_slashes(path)), sensitive_markers())
}

/// Whether the path leads to credentials, browser profiles or wallets.
pub fn sensitive_path(path: &[char]) -> (r: bool)
    ensures
        r == is_sensitive_path(path@),
{
    let p = lowercase_chars(&to_forward_slashes(path));
    let markers = [".ssh", ".aws", ".azure", "gcloud", ".npmrc", ".gitconfig", ".kube", ".docker",
        ".mozilla", "mozilla/firefox/profiles", "firefox/profiles", "logins.json", "key4.db",
        "chrome/user data", "google/chrome/user data", "microsoft/edge/user data",
        "chromium/user data", "brave", "keychain", "keychains/", "login data", "cookies",
        "1password", "bitwarden", "lastpass", ".password-store", "keepass", "wallet",
        "metamask", "exodus", "electrum", "wallet.dat", "password"];
    assert(strs_view(markers@) =~= sensitive_markers());
    contains_marker_of(&p, &markers)
}

/// Markers of automatic-startup locations.
pub open spec fn persistence_markers() -> Seq<Seq<char>> {
    seq!["/etc/cron"@, "/launchagents/"@, "/systemd/user/"@, "/.config/autostart/"@, "/startup/"@,
        "/.bashrc"@, "/.zshrc"@, "\\run\\"@]
}

/// A path in an automatic-startup location.
pub open spec fn is_persistence_path(path: Seq<char>) -> bool {
    contains_marker(lower(path), persistence_markers())
}

/// Whether the path is in an automatic-startup location.
pub fn persistence_path(path: &[char]) -> (r: bool)
    ensures
        r == is_persistence_path(path@),
{
    let p = lowercase_chars(path);
    let markers = ["/etc/cron", "/launchagents/", "/systemd/user/", "/.config/autostart/", "/startup/",
        "/.bashrc", "/.zshrc", "\\run\\"];
    assert(strs_view(markers@) =~= persistence_markers());
    contains_marker_of(&p, &markers)
}

/// Commands that register automatic startup.
pub open spec fn persistence_prefixes() -> Seq<Seq<char>> {
    seq!["crontab "@, "reg add "@, "reg.exe add "@, "schtasks /create"@, "launchctl load "@,
        "systemctl --user enable "@]
}

/// A command that registers automatic startup.
pub open spec fn is_persistence_command(command: Seq<char>) -> bool {
    let c = lower(crate::text::trimmed_whitespace(command));
    exists|i: int| 0 <= i < persistence_prefixes().len() && seq_starts_with(c, #[trigger] persistence_prefixes()[i])
}

/// The commands that register a program to start automatically are those
/// that, trimmed and in lower case, begin with `crontab `, `reg add `,
/// `reg.exe add `, `schtasks /create`, `launchctl load ` or
/// `systemctl --user enable `; no other command is one.
pub proof fn lemma_persistence_commands(command: Seq<char>)
    ensures
        is_persistence_command(command) <==> ({
            let c = lower(crate::text::trimmed_whitespace(command));
            ||| seq_starts_with(c, "crontab "@)
            ||| seq_starts_with(c, "reg add "@)
            ||| seq_starts_with(c, "reg.exe add "@)
            ||| seq_starts_with(c, "schtasks /create"@)
            ||| seq_starts_with(c, "launchctl load "@)
            ||| seq_starts_with(c, "systemctl --user enable "@)
        }),
{
    let c = lower(crate::text::trimmed_whitespace(command));
    let p = persistence_prefixes();
    assert(p.len() == 6);
    assert(p[0] == "crontab "@ && p[1] == "reg add "@ && p[2] == "reg.exe add "@ && p[3] == "schtasks /create"@
        && p[4] == "launchctl load "@ && p[5] == "systemctl --user enable "@);
    if seq_starts_with(c, "crontab "@) { assert(seq_starts_with(c, p[0])); }
    if seq_starts_with(c, "reg add "@) { assert(seq_starts_with(c, p[1])); }
    if seq_starts_with(c, "reg.exe add "@) { assert(seq_starts_with(c, p[2])); }
    if seq_starts_with(c, "schtasks /create"@) { assert(seq_starts_with(c, p[3])); }
    if seq_starts_with(c, "launchctl load "@) { assert(seq_starts_with(c, p[4])); }
    if seq_starts_with(c, "systemctl --user enable "@) { assert(seq_starts_with(c, p[5])); }
}

/// Whether the command registers automatic startup.
pub fn persistence_command(command: &[char]) -> (r: bool)
    ensures
        r == is_persistence_command(command@),
{
    let c = lowercase_chars(&trim_whitespace_of(command));
    let prefixes = ["crontab ", "reg add ", "reg.exe add ", "schtasks /create", "launchctl load ",
        "systemctl --user enable "];
    assert(strs_view(prefixes@) =~= persistence_prefixes());
    let mut i: usize = 0;
    while i < 6
        invariant
            i <= 6,
            c@ == lower(crate::text::trimmed_whitespace(command@)),
            strs_view(prefixes@) == persistence_prefixes(),
            forall|j: int| 0 <= j < i ==> !seq_starts_with(c@, #[trigger] persistence_prefixes()[j]),
        decreases 6 - i,
    {
        if chars_start_with_str(&c, prefixes[i]) {
            assert(seq_starts_with(c@, persistence_prefixes()[i as int]));
            return true;
        }
        i = i + 1;
    }
    false
}


// ---------------------------------------------------------------------------
// Abstract values

/// Where a tracked value came from.
#[derive(Clone, Copy, Debug, PartialEq, Eq, Structural)]
pub enum Label {
    Remote,
    DecodedRemote,
    EnvSecret,
    FileSecret,
    Clipboard,
    UserHome,
}

/// The most steps a label's route records.
pub const MAX_ROUTE_STEPS: usize = 16;

/// What the evaluator knows of a value: a name it goes by, literal text,
/// path hints, the labelled sources it carries with their routes, and
/// its fields. Labels and field names occur at most once.
#[derive(Debug)]
pub struct FlowValue {
    pub name: Option<String>,
    pub literal: Option<String>,
    pub path_hint: Option<String>,
    pub path_key: Option<String>,
    pub stream_reader: bool,
    pub labels: Vec<(Label, Vec<String>)>,
    pub fields: Vec<(String, FlowValue)>,
}

pub open spec fn opt_clone(o: Option<String>) -> Option<Seq<char>> {
    match o {
        Some(s) => Some(s@),
        None => None,
    }
}

/// The labels of a value with their routes.
pub open spec fn labels_view(labels: Seq<(Label, Vec<String>)>) -> Seq<(Label, Seq<Seq<char>>)> {
    labels.map_values(|e: (Label, Vec<String>)| (e.0, strings_view(e.1@)))
}

/// The first of the labels from the `i`-th on that is `label`, or -1.
pub open spec fn label_pos(labels: Seq<(Label, Vec<String>)>, label: Label, i: int) -> int
    decreases labels.len() - i,
{
    if i < 0 || i >= labels.len() {
        -1
    } else if labels[i].0 == label {
        i
    } else {
        label_pos(labels, label, i + 1)
    }
}

proof fn lemma_label_pos(labels: Seq<(Label, Vec<String>)>, label: Label, i: int)
    requires
        0 <= i,
    ensures
        label_pos(labels, label, i) == -1 || (i <= label_pos(labels, label, i) < labels.len()
            && labels[label_pos(labels, label, i)].0 == label),
        label_pos(labels, label, i) == -1 ==> forall|j: int| i <= j < labels.len() ==> labels[j].0 != label,
    decreases labels.len() - i,
{
    if i < labels.len() && labels[i].0 != label {
        lemma_label_pos(labels, label, i + 1);
    }
}

/// Two values say the same: names, texts, hints, labels with their routes,
/// and fields, each the same, field by field.
pub open spec fn same_value(a: FlowValue, b: FlowValue) -> bool
    decreases a,
{
    &&& opt_clone(a.name) == opt_clone(b.name)
    &&& opt_clone(a.literal) == opt_clone(b.literal)
    &&& opt_clone(a.path_hint) == opt_clone(b.path_hint)
    &&& opt_clone(a.path_key) == opt_clone(b.path_key)
    &&& a.stream_reader == b.stream_reader
    &&& labels_view(a.labels@) == labels_view(b.labels@)
    &&& a.fields@.len() == b.fields@.len()
    &&& forall|i: int| 0 <= i < a.fields@.len() ==> (#[trigger] a.fields@[i]).0@ == b.fields@[i].0@
        && same_value(a.fields@[i].1, b.fields@[i].1)
}

/// The route of the first of `wanted` from the `k`-th on that the labels carry.
pub open spec fn route_from(labels: Seq<(Label, Vec<String>)>, wanted: Seq<Label>, k: int) -> Option<Seq<Seq<char>>>
    decreases wanted.len() - k,
{
    if k < 0 || k >= wanted.len() {
        None
    } else if label_pos(labels, wanted[k], 0) >= 0 {
        Some(strings_view(labels[label_pos(labels, wanted[k], 0)].1@))
    } else {
        route_from(labels, wanted, k + 1)
    }
}

/// The labels after taking in `theirs` from the last on, each one that
/// `mine` lacks appended.
pub open spec fn merged_labels(mine: Seq<(Label, Vec<String>)>, theirs: Seq<(Label, Vec<String>)>) -> Seq<(Label, Vec<String>)>
    decreases theirs.len(),
{
    if theirs.len() == 0 {
        mine
    } else {
        let x = theirs.last();
        merged_labels(if label_pos(mine, x.0, 0) < 0 { mine.push(x) } else { mine }, theirs.drop_last())
    }
}

/// The fields after taking in `theirs` from the last on, each one whose
/// key `mine` lacks appended.
pub open spec fn merged_fields(mine: Seq<(String, FlowValue)>, theirs: Seq<(String, FlowValue)>) -> Seq<(String, FlowValue)>
    decreases theirs.len(),
{
    if theirs.len() == 0 {
        mine
    } else {
        let x = theirs.last();
        merged_fields(if key_pos(mine, x.0@, 0) < 0 { mine.push(x) } else { mine }, theirs.drop_last())
    }
}

/// `r` is `a` after taking in `b`: the labels and fields that `a` lacks, and
/// the name, literal and path hints where `a` has none.
pub open spec fn merged_into(r: FlowValue, a: FlowValue, b: FlowValue) -> bool {
    &&& r.labels@ == merged_labels(a.labels@, b.labels@)
    &&& r.fields@ == merged_fields(a.fields@, b.fields@)
    &&& r.name == (if a.name is None { b.name } else { a.name })
    &&& r.literal == (if a.literal is None { b.literal } else { a.literal })
    &&& r.path_hint == (if a.path_hint is None { b.path_hint } else { a.path_hint })
    &&& r.path_key == (if a.path_key is None { b.path_key } else { a.path_key })
    &&& r.stream_reader == (a.stream_reader || b.stream_reader)
}

fn copy_opt(o: &Option<String>) -> (r: Option<String>)
    ensures
        opt_clone(r) == opt_clone(*o),
{
    match o {
        Some(s) => Some(s.clone()),
        None => None,
    }
}

impl FlowValue {
    /// A value that carries nothing.
    pub fn empty() -> (r: FlowValue)
        ensures
            r.labels@.len() == 0,
            r.fields@.len() == 0,
            r.name.is_none(),
            r.literal.is_none(),
            r.path_hint.is_none(),
            r.path_key.is_none(),
            !r.stream_reader,
    {
        FlowValue {
            name: None,
            literal: None,
            path_hint: None,
            path_key: None,
            stream_reader: false,
            labels: Vec::new(),
            fields: Vec::new(),
        }
    }

    /// A value known by a name.
    pub fn named(name: String) -> (r: FlowValue)
        ensures
            r.name == Some(name),
            r.labels@.len() == 0,
            r.fields@.len() == 0,
            r.literal is None && r.path_hint is None && r.path_key is None && !r.stream_reader,
    {
        let mut v = FlowValue::empty();
        v.name = Some(name);
        v
    }

    /// A value with literal text.
    pub fn literal_text(text: String) -> (r: FlowValue)
        ensures
            r.literal == Some(text),
            r.labels@.len() == 0,
            r.fields@.len() == 0,
    {
        let mut v = FlowValue::empty();
        v.literal = Some(text);
        v
    }

    /// A value that carries one labelled source.
    pub fn labeled(label: Label, source: String) -> (r: FlowValue)
        ensures
            r.labels@.len() == 1,
            r.labels@[0].0 == label,
            r.fields@.len() == 0,
    {
        let mut v = FlowValue::empty();
        v.labels.push((label, vec![source]));
        v
    }

    /// A deep copy.
    pub fn copy(&self) -> (r: FlowValue)
        ensures
            same_value(r, *self),
            r.labels@.len() == self.labels@.len(),
            opt_clone(r.name) == opt_clone(self.name),
            opt_clone(r.literal) == opt_clone(self.literal),
            r.stream_reader == self.stream_reader,
        decreases self,
    {
        let mut labels: Vec<(Label, Vec<String>)> = Vec::new();
        let mut i: usize = 0;
        while i < self.labels.len()
            invariant
                i <= self.labels@.len(),
                labels@.len() == i,
                labels_view(labels@) == labels_view(self.labels@).subrange(0, i as int),
            decreases self.labels.len() - i,
        {
            let ghost before = labels@;
            labels.push((self.labels[i].0, crate::text::clone_strings(&self.labels[i].1)));
            assert(labels_view(labels@) =~= labels_view(self.labels@).subrange(0, i + 1)) by {
                assert(labels@ == before.push(labels@[i as int]));
            }
            i = i + 1;
        }
        assert(labels_view(self.labels@).subrange(0, self.labels@.len() as int) =~= labels_view(self.labels@));
        let mut fields: Vec<(String, FlowValue)> = Vec::new();
        let mut k: usize = 0;
        while k < self.fields.len()
            invariant
                k <= self.fields@.len(),
                fields@.len() == k,
                forall|j: int| 0 <= j < k ==> (#[trigger] fields@[j]).0@ == self.fields@[j].0@
                    && same_value(fields@[j].1, self.fields@[j].1),
            decreases self.fields.len() - k,
        {
            assert(decreases_to!(self => self.fields@[k as int].1));
            let child = self.fields[k].1.copy();
            fields.push((crate::text::owned(self.fields[k].0.as_str()), child));
            k = k + 1;
        }
        FlowValue {
            name: copy_opt(&self.name),
            literal: copy_opt(&self.literal),
            path_hint: copy_opt(&self.path_hint),
            path_key: copy_opt(&self.path_key),
            stream_reader: self.stream_reader,
            labels,
            fields,
        }
    }

    /// The index of a label, if the value carries it.
    pub fn label_index(&self, label: Label) -> (r: Option<usize>)
        ensures
            match r {
                Some(i) => i < self.labels@.len() && self.labels@[i as int].0 == label
                    && i as int == label_pos(self.labels@, label, 0),
                None => forall|i: int| 0 <= i < self.labels@.len() ==> self.labels@[i].0 != label,
            },
            r is None <==> label_pos(self.labels@, label, 0) == -1,
    {
        let mut i: usize = 0;
        while i < self.labels.len()
            invariant
                i <= self.labels@.len(),
                forall|j: int| 0 <= j < i ==> self.labels@[j].0 != label,
                label_pos(self.labels@, label, 0) == label_pos(self.labels@, label, i as int),
            decreases self.labels.len() - i,
        {
            if self.labels[i].0 == label {
                return Some(i);
            }
            i = i + 1;
        }
        None
    }

    /// The route of the first of the labels that the value carries.
    pub fn route_of(&self, labels: &[Label]) -> (r: Option<Vec<String>>)
        ensures
            match r {
                Some(route) => route_from(self.labels@, labels@, 0) == Some(strings_view(route@)),
                None => route_from(self.labels@, labels@, 0) is None,
            },
    {
        let mut i: usize = 0;
        while i < labels.len()
            invariant
                i <= labels@.len(),
                route_from(self.labels@, labels@, 0) == route_from(self.labels@, labels@, i as int),
            decreases labels.len() - i,
        {
            match self.label_index(labels[i]) {
                Some(k) => {
                    return Some(crate::text::clone_strings(&self.labels[k].1));
                },
                None => {},
            }
            i = i + 1;
        }
        None
    }

    /// The index of a field, if the value has it.
    pub fn field_index(&self, key: &str) -> (r: Option<usize>)
        ensures
            match r {
                Some(i) => i < self.fields@.len() && i as int == key_pos(self.fields@, key@, 0),
                None => key_pos(self.fields@, key@, 0) == -1,
            },
    {
        let mut i: usize = 0;
        while i < self.fields.len()
            invariant
                i <= self.fields@.len(),
                key_pos(self.fields@, key@, 0) == key_pos(self.fields@, key@, i as int),
            decreases self.fields.len() - i,
        {
            if crate::text::str_eq(self.fields[i].0.as_str(), key) {
                return Some(i);
            }
            i = i + 1;
        }
        None
    }

    /// A copy of a field, if the value has it.
    pub fn field(&self, key: &str) -> (r: Option<FlowValue>)
        ensures
            match r {
                Some(v) => key_pos(self.fields@, key@, 0) >= 0
                    && same_value(v, self.fields@[key_pos(self.fields@, key@, 0)].1),
                None => key_pos(self.fields@, key@, 0) == -1,
            },
    {
        match self.field_index(key) {
            Some(i) => Some(self.fields[i].1.copy()),
            None => None,
        }
    }

    /// Sets a field, replacing one of the same name.
    pub fn set_field(&mut self, key: String, value: FlowValue)
        ensures
            final(self).fields@ == if key_pos(old(self).fields@, key@, 0) >= 0 {
                old(self).fields@.update(key_pos(old(self).fields@, key@, 0), (key, value))
            } else {
                old(self).fields@.push((key, value))
            },
            final(self).labels == old(self).labels,
            final(self).name == old(self).name,
            final(self).literal == old(self).literal,
            final(self).path_hint == old(self).path_hint,
            final(self).path_key == old(self).path_key,
            final(self).stream_reader == old(self).stream_reader,
    {
        match self.field_index(key.as_str()) {
            Some(i) => {
                self.fields.remove(i);
                self.fields.insert(i, (key, value));
            },
            None => {
                self.fields.push((key, value));
            },
        }
    }

    /// Takes in another value: its labels and fields that this value lacks,
    /// and its name, literal and path hints where this value has none.
    pub fn merge(&mut self, other: FlowValue)
        ensures
            merged_into(*final(self), *old(self), other),
    {
        let ghost start = *self;
        let FlowValue { name, literal, path_hint, path_key, stream_reader, mut labels, mut fields } = other;
        while labels.len() > 0
            invariant
                merged_labels(self.labels@, labels@) == merged_labels(start.labels@, other.labels@),
                self.fields == start.fields,
                self.name == start.name,
                self.literal == start.literal,
                self.path_hint == start.path_hint,
                self.path_key == start.path_key,
                self.stream_reader == start.stream_reader,
            decreases labels.len(),
        {
            let ghost mine = self.labels@;
            let ghost theirs = labels@;
            let (label, route) = labels.pop().unwrap();
            assert(theirs.drop_last() =~= labels@);
            if self.label_index(label).is_none() {
                self.labels.push((label, route));
            }
        }
        if self.literal.is_none() {
            self.literal = literal;
        }
        if self.path_hint.is_none() {
            self.path_hint = path_hint;
        }
        if self.path_key.is_none() {
            self.path_key = path_key;
        }
        self.stream_reader = self.stream_reader || stream_reader;
        if self.name.is_none() {
            self.name = name;
        }
        let ghost mid = *self;
        assert(self.labels@ == merged_labels(start.labels@, other.labels@));
        while fields.len() > 0
            invariant
                merged_fields(self.fields@, fields@) == merged_fields(start.fields@, other.fields@),
                self.labels == mid.labels,
                self.name == mid.name,
                self.literal == mid.literal,
                self.path_hint == mid.path_hint,
                self.path_key == mid.path_key,
                self.stream_reader == mid.stream_reader,
            decreases fields.len(),
        {
            let ghost theirs = fields@;
            let (key, value) = fields.pop().unwrap();
            assert(theirs.drop_last() =~= fields@);
            if self.field_index(key.as_str()).is_none() {
                self.fields.push((key, value));
            }
        }
    }

    /// The value with a step added to each label's route that is still short.
    pub fn propagate(self, step: &str) -> (r: FlowValue)
        ensures
            r.labels@.len() == self.labels@.len(),
            forall|i: int| 0 <= i < r.labels@.len() ==> (#[trigger] r.labels@[i]).0 == self.labels@[i].0
                && strings_view(r.labels@[i].1@) == if self.labels@[i].1@.len() < MAX_ROUTE_STEPS {
                    strings_view(self.labels@[i].1@).push(step@)
                } else {
                    strings_view(self.labels@[i].1@)
                },
            r.fields == self.fields,
            r.name == self.name,
            r.literal == self.literal,
            r.path_hint == self.path_hint,
            r.path_key == self.path_key,
            r.stream_reader == self.stream_reader,
    {
        let ghost start = self;
        let mut v = self;
        let mut i: usize = 0;
        let ghost n = v.labels@.len();
        while i < v.labels.len()
            invariant
                i <= v.labels@.len(),
                v.labels@.len() == n,
                n == start.labels@.len(),
                v.fields == start.fields,
                v.name == start.name,
                v.literal == start.literal,
                v.path_hint == start.path_hint,
                v.path_key == start.path_key,
                v.stream_reader == start.stream_reader,
                forall|j: int| i <= j < n ==> v.labels@[j] == start.labels@[j],
                forall|j: int| 0 <= j < i ==> (#[trigger] v.labels@[j]).0 == start.labels@[j].0
                    && strings_view(v.labels@[j].1@) == if start.labels@[j].1@.len() < MAX_ROUTE_STEPS {
                        strings_view(start.labels@[j].1@).push(step@)
                    } else {
                        strings_view(start.labels@[j].1@)
                    },
            decreases v.labels.len() - i,
        {
            if v.labels[i].1.len() < MAX_ROUTE_STEPS {
                let ghost before = v.labels@;
                let (label, mut route) = v.labels.remove(i);
                let ghost r0 = route@;
                route.push(crate::text::owned(step));
                assert(strings_view(route@) =~= strings_view(r0).push(step@));
                v.labels.insert(i, (label, route));
                assert(v.labels@ =~= before.update(i as int, (label, route)));
            }
            i = i + 1;
        }
        v
    }

    /// The file a value names: its literal text or its path key.
    pub fn file_target(&self) -> (r: Option<String>)
        ensures
            opt_clone(r) == match self.literal {
                Some(l) => Some(l@),
                None => opt_clone(self.path_key),
            },
    {
        match &self.literal {
            Some(l) => Some(l.clone()),
            None => copy_opt(&self.path_key),
        }
    }
}

/// The first entry from the `i`-th on whose key is `key`, or -1.
pub open spec fn key_pos<T>(s: Seq<(String, T)>, key: Seq<char>, i: int) -> int
    decreases s.len() - i,
{
    if i < 0 || i >= s.len() {
        -1
    } else if s[i].0@ == key {
        i
    } else {
        key_pos(s, key, i + 1)
    }
}

/// The last entry before the `i`-th whose key is `key`, or -1.
pub open spec fn last_key_pos<T>(s: Seq<(String, T)>, key: Seq<char>, i: int) -> int
    decreases i,
{
    if i <= 0 || i > s.len() {
        -1
    } else if s[i - 1].0@ == key {
        i - 1
    } else {
        last_key_pos(s, key, i - 1)
    }
}

proof fn lemma_key_pos<T>(s: Seq<(String, T)>, key: Seq<char>, i: int)
    requires
        0 <= i,
    ensures
        key_pos(s, key, i) == -1 || (i <= key_pos(s, key, i) < s.len() && s[key_pos(s, key, i)].0@ == key),
    decreases s.len() - i,
{
    if i < s.len() && s[i].0@ != key {
        lemma_key_pos(s, key, i + 1);
    }
}

proof fn lemma_key_pos_found<T>(s: Seq<(String, T)>, key: Seq<char>, k: int)
    requires
        0 <= k < s.len(),
        s[k].0@ == key,
    ensures
        0 <= key_pos(s, key, 0) <= k,
{
    lemma_key_pos_upto(s, key, 0, k);
}

proof fn lemma_key_pos_upto<T>(s: Seq<(String, T)>, key: Seq<char>, i: int, k: int)
    requires
        0 <= i <= k < s.len(),
        s[k].0@ == key,
    ensures
        i <= key_pos(s, key, i) <= k,
    decreases k - i,
{
    if s[i].0@ != key {
        lemma_key_pos_upto(s, key, i + 1, k);
    }
}

proof fn lemma_key_pos_push<T>(s: Seq<(String, T)>, e: (String, T), y: Seq<char>, i: int)
    requires
        0 <= i <= s.len(),
    ensures
        e.0@ != y ==> key_pos(s.push(e), y, i) == key_pos(s, y, i),
        e.0@ == y && key_pos(s, y, i) == -1 ==> key_pos(s.push(e), y, i) == s.len(),
    decreases s.len() - i,
{
    if i < s.len() {
        assert(s.push(e)[i] == s[i]);
        lemma_key_pos_push(s, e, y, i + 1);
    } else {
        assert(s.push(e)[i] == e);
        assert(key_pos(s.push(e), y, i + 1) == -1);
    }
}

proof fn lemma_key_pos_update<T>(s: Seq<(String, T)>, p: int, e: (String, T), y: Seq<char>, i: int)
    requires
        0 <= i,
        0 <= p < s.len(),
        s[p].0@ == e.0@,
    ensures
        key_pos(s.update(p, e), y, i) == key_pos(s, y, i),
    decreases s.len() - i,
{
    if i < s.len() {
        lemma_key_pos_update(s, p, e, y, i + 1);
    }
}

/// A scope of named values; each name occurs at most once.
pub type Scope = Vec<(String, FlowValue)>;

fn scope_index(scope: &Scope, name: &str) -> (r: Option<usize>)
    ensures
        match r {
            Some(i) => i < scope@.len() && i as int == key_pos(scope@, name@, 0),
            None => key_pos(scope@, name@, 0) == -1,
        },
{
    let mut i: usize = 0;
    while i < scope.len()
        invariant
            i <= scope@.len(),
            key_pos(scope@, name@, 0) == key_pos(scope@, name@, i as int),
        decreases scope.len() - i,
    {
        if crate::text::str_eq(scope[i].0.as_str(), name) {
            return Some(i);
        }
        i = i + 1;
    }
    None
}

fn scope_get(scope: &Scope, name: &str) -> (r: Option<FlowValue>)
    ensures
        match r {
            Some(v) => key_pos(scope@, name@, 0) >= 0 && same_value(v, scope@[key_pos(scope@, name@, 0)].1),
            None => key_pos(scope@, name@, 0) == -1,
        },
{
    match scope_index(scope, name) {
        Some(i) => Some(scope[i].1.copy()),
        None => None,
    }
}

fn scope_insert(scope: &mut Scope, name: String, value: FlowValue)
    ensures
        final(scope)@ == if key_pos(old(scope)@, name@, 0) >= 0 {
            old(scope)@.update(key_pos(old(scope)@, name@, 0), (name, value))
        } else {
            old(scope)@.push((name, value))
        },
{
    match scope_index(scope, name.as_str()) {
        Some(i) => {
            scope.remove(i);
            scope.insert(i, (name, value));
        },
        None => {
            scope.push((name, value));
        },
    }
}

/// Merges a value into the entry of a name, creating it when absent.
fn scope_merge(scope: &mut Scope, name: String, value: FlowValue)
    ensures
        key_pos(old(scope)@, name@, 0) >= 0 ==> ({
            let p = key_pos(old(scope)@, name@, 0);
            &&& final(scope)@.len() == old(scope)@.len()
            &&& forall|j: int| 0 <= j < old(scope)@.len() && j != p ==> final(scope)@[j] == old(scope)@[j]
            &&& final(scope)@[p].0 == old(scope)@[p].0
            &&& merged_into(final(scope)@[p].1, old(scope)@[p].1, value)
        }),
        key_pos(old(scope)@, name@, 0) == -1 ==> final(scope)@ == old(scope)@.push((name, value)),
{
    match scope_index(scope, name.as_str()) {
        Some(i) => {
            let (key, mut existing) = scope.remove(i);
            existing.merge(value);
            scope.insert(i, (key, existing));
        },
        None => {
            scope.push((name, value));
        },
    }
}

fn copy_scope(scope: &Scope) -> (r: Scope)
    ensures
        r@.len() == scope@.len(),
        forall|j: int| 0 <= j < r@.len() ==> (#[trigger] r@[j]).0@ == scope@[j].0@ && same_value(r@[j].1, scope@[j].1),
{
    let mut out: Scope = Vec::new();
    let mut i: usize = 0;
    while i < scope.len()
        invariant
            i <= scope@.len(),
            out@.len() == i,
            forall|j: int| 0 <= j < i ==> (#[trigger] out@[j]).0@ == scope@[j].0@ && same_value(out@[j].1, scope@[j].1),
        decreases scope.len() - i,
    {
        out.push((crate::text::owned(scope[i].0.as_str()), scope[i].1.copy()));
        i = i + 1;
    }
    out
}


// ---------------------------------------------------------------------------
// Sizes of the lowered syntax, which bound the evaluator's recursion

pub open spec fn expr_size(e: Expr) -> nat
    decreases e,
{
    match e {
        Expr::Member(o, _) => 1 + expr_size(*o),
        Expr::Call(c, args, _) => 1 + expr_size(*c) + exprs_size(args@),
        Expr::Construct(c, args, _) => 1 + expr_size(*c) + exprs_size(args@),
        Expr::Then(r, _, body) => 1 + expr_size(*r) + stmts_size(body@),
        Expr::Message(r, _, body, _) => 1 + expr_size(*r) + stmts_size(body@),
        Expr::Object(props) => 1 + props_size(props@),
        Expr::Array(items) => 1 + exprs_size(items@),
        Expr::Combine(items) => 1 + exprs_size(items@),
        Expr::Sequence(items) => 1 + exprs_size(items@),
        Expr::Assign(_, r) => 1 + expr_size(*r),
        _ => 1,
    }
}

pub open spec fn exprs_size(s: Seq<Expr>) -> nat
    decreases s,
{
    if s.len() == 0 {
        0
    } else {
        expr_size(s[0]) + exprs_size(s.subrange(1, s.len() as int))
    }
}

pub open spec fn props_size(s: Seq<(String, Expr)>) -> nat
    decreases s,
{
    if s.len() == 0 {
        0
    } else {
        expr_size(s[0].1) + props_size(s.subrange(1, s.len() as int))
    }
}

pub open spec fn stmt_size(st: Stmt) -> nat
    decreases st,
{
    match st {
        Stmt::Bind(_, e) => 1 + expr_size(e),
        Stmt::Expr(e) => 1 + expr_size(e),
        Stmt::Return(e) => 1 + expr_size(e),
        Stmt::Branch(c, yes, no) => 1 + expr_size(c) + stmts_size(yes@) + stmts_size(no@),
        Stmt::Iterate(_, e, body) => 1 + expr_size(e) + stmts_size(body@),
    }
}

pub open spec fn stmts_size(s: Seq<Stmt>) -> nat
    decreases s,
{
    if s.len() == 0 {
        0
    } else {
        stmt_size(s[0]) + stmts_size(s.subrange(1, s.len() as int))
    }
}

pub proof fn lemma_exprs_size(s: Seq<Expr>, i: int)
    requires
        0 <= i < s.len(),
    ensures
        expr_size(s[i]) <= exprs_size(s),
    decreases s.len(),
{
    if i > 0 {
        lemma_exprs_size(s.subrange(1, s.len() as int), i - 1);
    }
}

pub proof fn lemma_props_size(s: Seq<(String, Expr)>, i: int)
    requires
        0 <= i < s.len(),
    ensures
        expr_size(s[i].1) <= props_size(s),
    decreases s.len(),
{
    if i > 0 {
        lemma_props_size(s.subrange(1, s.len() as int), i - 1);
    }
}

pub proof fn lemma_stmts_size(s: Seq<Stmt>, i: int)
    requires
        0 <= i < s.len(),
    ensures
        stmt_size(s[i]) <= stmts_size(s),
    decreases s.len(),
{
    if i > 0 {
        lemma_stmts_size(s.subrange(1, s.len() as int), i - 1);
    }
}


// ---------------------------------------------------------------------------
// The evaluator

/// The source-to-sink chains that the evaluator reports.
#[derive(Clone, Copy, Debug, PartialEq, Eq, Structural)]
pub enum ChainRule {
    RemoteCode,
    RemoteProcess,
    DownloadExecute,
    SecretExfiltration,
}

/// A chain's rule, title, impact and score.
pub open spec fn chain_details(rule: ChainRule) -> (Seq<char>, Seq<char>, Seq<char>, u8) {
    match rule {
        ChainRule::RemoteCode => ("JS-REMOTE-CODE-EXECUTION"@, "Remote data reaches dynamic execution"@,
            "Remote input can become JavaScript executed by this program."@, 98),
        ChainRule::RemoteProcess => ("JS-REMOTE-PROCESS-EXECUTION"@, "Remote data reaches process execution"@,
            "Remote input can influence a process or shell command."@, 97),
        ChainRule::DownloadExecute => ("JS-DOWNLOAD-WRITE-EXECUTE"@, "Downloaded bytes are written and executed"@,
            "Remote content can be saved and launched as a local program."@, 98),
        ChainRule::SecretExfiltration => ("JS-SECRET-EXFILTRATION"@, "Sensitive data reaches an outbound request"@,
            "Sensitive local data can leave through a network request."@, 97),
    }
}

impl ChainRule {
    /// The chain's rule, title, impact and score.
    pub fn details(self) -> (r: (&'static str, &'static str, &'static str, u8))
        ensures
            (r.0@, r.1@, r.2@, r.3) == chain_details(self),
    {
        match self {
            ChainRule::RemoteCode => ("JS-REMOTE-CODE-EXECUTION", "Remote data reaches dynamic execution",
                "Remote input can become JavaScript executed by this program.", 98),
            ChainRule::RemoteProcess => ("JS-REMOTE-PROCESS-EXECUTION", "Remote data reaches process execution",
                "Remote input can influence a process or shell command.", 97),
            ChainRule::DownloadExecute => ("JS-DOWNLOAD-WRITE-EXECUTE", "Downloaded bytes are written and executed",
                "Remote content can be saved and launched as a local program.", 98),
            ChainRule::SecretExfiltration => ("JS-SECRET-EXFILTRATION", "Sensitive data reaches an outbound request",
                "Sensitive local data can leave through a network request.", 97),
        }
    }
}

/// A data-flow finding: a source-to-sink chain whose evidence ends at the
/// sink, a persistence write or command, or a combined attack chain.
pub open spec fn flow_finding(f: FindingView) -> bool {
    ||| evaluated_finding(f)
    ||| f.id == "JS-COMBINED-ATTACK-CHAIN"@ && f.severity == Severity::Critical && f.score == 99 && f.evidence.len() == 2
}

/// A finding that the evaluation of the modules makes: a source reaching a
/// sink, or a write or command of a persistence location.
pub open spec fn evaluated_finding(f: FindingView) -> bool {
    ||| (exists|rule: ChainRule| f.id == (#[trigger] chain_details(rule)).0 && f.score == chain_details(rule).3)
        && f.severity == Severity::Critical && f.evidence.len() > 0 && seq_starts_with(f.evidence.last(), "sink: "@)
    ||| (f.id == "JS-PERSISTENCE-WRITE"@ || f.id == "JS-PERSISTENCE-COMMAND"@) && f.severity == Severity::High && f.score == 85
}

/// No finding of the evaluation is a combined chain.
pub proof fn lemma_evaluated_not_combined(f: FindingView)
    requires
        evaluated_finding(f),
    ensures
        f.id != "JS-COMBINED-ATTACK-CHAIN"@,
{
    reveal_strlit("JS-COMBINED-ATTACK-CHAIN");
    reveal_strlit("JS-REMOTE-CODE-EXECUTION");
    reveal_strlit("JS-REMOTE-PROCESS-EXECUTION");
    reveal_strlit("JS-DOWNLOAD-WRITE-EXECUTE");
    reveal_strlit("JS-SECRET-EXFILTRATION");
    reveal_strlit("JS-PERSISTENCE-WRITE");
    reveal_strlit("JS-PERSISTENCE-COMMAND");
    if f.id == "JS-COMBINED-ATTACK-CHAIN"@ {
        if exists|rule: ChainRule| f.id == (#[trigger] chain_details(rule)).0 {
            let rule = choose|rule: ChainRule| f.id == (#[trigger] chain_details(rule)).0;
            assert(f.id[3] != chain_details(rule).0[3] || f.id[4] != chain_details(rule).0[4]);
        }
        assert(f.id[3] != "JS-PERSISTENCE-WRITE"@[3]);
    }
}

/// The findings `b` begin with the findings `a`: a finding once reported
/// stays reported.
pub open spec fn extends(a: Seq<Finding>, b: Seq<Finding>) -> bool {
    a.len() <= b.len() && forall|i: int| 0 <= i < a.len() ==> #[trigger] b[i] == a[i]
}

/// What the data-flow analysis reports.
pub struct FlowResult {
    pub findings: Vec<Finding>,
    pub incomplete_reasons: Vec<String>,
}

/// The most statements the evaluator runs.
pub const MAX_FLOW_STEPS: usize = 100000;

/// The deepest nesting of calls and callbacks the evaluator follows.
pub const MAX_CALL_DEPTH: usize = 32;

struct Evaluator<'a> {
    modules: &'a [ModuleFacts],
    paths: Vec<Vec<char>>,
    reachable: &'a Vec<(String, Vec<String>)>,
    findings: Vec<Finding>,
    seen: Vec<(String, String, u64)>,
    steps: usize,
    limited: bool,
    written: Scope,
    stream_data: Vec<((String, String), Scope)>,
}

fn cat2(a: &str, b: &str) -> (r: String)
    ensures
        r@ == a@ + b@,
{
    let mut s = crate::text::owned(a);
    crate::text::push_str(&mut s, b);
    s
}

fn cat3(a: &str, b: &str, c: &str) -> (r: String)
    ensures
        r@ == a@ + b@ + c@,
{
    let mut s = crate::text::owned(a);
    crate::text::push_str(&mut s, b);
    crate::text::push_str(&mut s, c);
    s
}

/// `"<prefix><file>:<line> <name>"`.
fn located(prefix: &str, file: &str, line: u64, name: &str) -> (r: String)
    ensures
        r@ == prefix@ + file@ + ":"@ + crate::text::decimal(line as nat) + " "@ + name@,
{
    let mut s = crate::text::owned(prefix);
    crate::text::push_str(&mut s, file);
    crate::text::push_str(&mut s, ":");
    crate::text::push_decimal(&mut s, line);
    crate::text::push_str(&mut s, " ");
    crate::text::push_str(&mut s, name);
    s
}

fn index_text(i: usize) -> (r: String)
    ensures
        r@ == crate::text::decimal(i as nat),
{
    crate::text::decimal_string(i as u64)
}

fn is_name(o: &Option<String>, expected: &str) -> (r: bool)
    ensures
        r == (opt_clone(*o) == Some(expected@)),
{
    match o {
        Some(s) => crate::text::str_eq(s.as_str(), expected),
        None => false,
    }
}

fn name_in(o: &Option<String>, options: &[&str]) -> (r: bool)
    ensures
        r == match o {
            Some(s) => strs_view(options@).contains(s@),
            None => false,
        },
{
    match o {
        Some(s) => is_one_of(&chars_of(s.as_str()), options),
        None => false,
    }
}

fn str_in(s: &str, options: &[&str]) -> (r: bool)
    ensures
        r == strs_view(options@).contains(s@),
{
    is_one_of(&chars_of(s), options)
}

fn has_label(v: &FlowValue, labels: &[Label]) -> (r: bool)
    ensures
        r == route_from(v.labels@, labels@, 0) is Some,
{
    v.route_of(labels).is_some()
}

/// The pattern binds the name.
pub open spec fn binds(b: Binding, x: Seq<char>) -> bool
    decreases b,
{
    match b {
        Binding::Name(n) => n@ == x,
        Binding::Object(ps) => exists|i: int| 0 <= i < ps@.len() && binds(#[trigger] ps@[i].1, x),
        Binding::Array(items) => exists|i: int| 0 <= i < items@.len() && binds(#[trigger] items@[i], x),
        Binding::Ignore => false,
    }
}

/// The names of a scope.
pub open spec fn scope_keys(s: Seq<(String, FlowValue)>) -> Seq<Seq<char>> {
    s.map_values(|e: (String, FlowValue)| e.0@)
}

proof fn lemma_insert_keys(s: Seq<(String, FlowValue)>, name: String, value: FlowValue)
    ensures
        forall|x: Seq<char>| scope_keys(if key_pos(s, name@, 0) >= 0 { s.update(key_pos(s, name@, 0), (name, value)) }
            else { s.push((name, value)) }).contains(x) <==> (scope_keys(s).contains(x) || x == name@),
{
    lemma_key_pos(s, name@, 0);
    let p = key_pos(s, name@, 0);
    let t = if p >= 0 { s.update(p, (name, value)) } else { s.push((name, value)) };
    assert forall|x: Seq<char>| scope_keys(t).contains(x) <==> (scope_keys(s).contains(x) || x == name@) by {
        if scope_keys(t).contains(x) {
            let k = choose|k: int| 0 <= k < scope_keys(t).len() && scope_keys(t)[k] == x;
            if k < s.len() && k != p {
                assert(scope_keys(s)[k] == x);
            }
        }
        if scope_keys(s).contains(x) {
            let k = choose|k: int| 0 <= k < scope_keys(s).len() && scope_keys(s)[k] == x;
            assert(scope_keys(t)[k] == x);
        }
        if x == name@ {
            if p >= 0 {
                assert(scope_keys(t)[p] == x);
            } else {
                assert(scope_keys(t)[s.len() as int] == x);
            }
        }
    }
}

/// Binds a value to a binding pattern.
fn bind(binding: &Binding, value: FlowValue, env: &mut Scope)
    ensures
        forall|x: Seq<char>| #[trigger] scope_keys(final(env)@).contains(x)
            <==> (scope_keys(old(env)@).contains(x) || binds(*binding, x)),
        binding is Name ==> ({
            let x = binding->Name_0@;
            &&& key_pos(final(env)@, x, 0) >= 0
            &&& final(env)@[key_pos(final(env)@, x, 0)].1 == value
            &&& forall|y: Seq<char>| y != x ==> key_pos(final(env)@, y, 0) == key_pos(old(env)@, y, 0)
        }),
    decreases binding,
{
    match binding {
        Binding::Name(name) => {
            let n = crate::text::owned(name.as_str());
            proof { lemma_insert_keys(env@, n, value); }
            let ghost s0 = env@;
            let ghost e = (n, value);
            scope_insert(env, n, value);
            proof {
                let p = key_pos(s0, name@, 0);
                lemma_key_pos(s0, name@, 0);
                if p >= 0 {
                    assert forall|y: Seq<char>| key_pos(env@, y, 0) == key_pos(s0, y, 0) by {
                        lemma_key_pos_update(s0, p, e, y, 0);
                    }
                } else {
                    assert forall|y: Seq<char>| y != name@ implies key_pos(env@, y, 0) == key_pos(s0, y, 0) by {
                        lemma_key_pos_push(s0, e, y, 0);
                    }
                    lemma_key_pos_push(s0, e, name@, 0);
                }
            }
        },
        Binding::Object(properties) => {
            let ghost start = env@;
            let mut i: usize = 0;
            while i < properties.len()
                invariant
                    i <= properties@.len(),
                    *binding == Binding::Object(*properties),
                    forall|x: Seq<char>| #[trigger] scope_keys(env@).contains(x)
                        <==> (scope_keys(start).contains(x) || exists|j: int| 0 <= j < i && binds(#[trigger] properties@[j].1, x)),
                decreases properties.len() - i,
            {
                let property = &properties[i].0;
                let selected = if crate::text::str_eq(property.as_str(), "*") {
                    value.copy()
                } else if is_name(&value.name, "process.env") && non_secret_environment_key(property.as_str()) {
                    FlowValue::named(cat2("process.env.", property.as_str()))
                } else {
                    match value.field(property.as_str()) {
                        Some(f) => f,
                        None => {
                            let mut selected = value.copy();
                            selected.name = match &value.name {
                                Some(n) => Some(cat3(n.as_str(), ".", property.as_str())),
                                None => None,
                            };
                            selected
                        },
                    }
                };
                proof {
                    assert((*binding)->Object_0 == *properties);
                    assert(decreases_to!(*binding => (*binding)->Object_0));
                    assert(decreases_to!(*properties => properties@));
                    assert(decreases_to!(properties@ => properties@[i as int]));
                    assert(decreases_to!(properties@[i as int] => properties@[i as int].1));
                }
                let ghost mid = env@;
                bind(&properties[i].1, selected, env);
                assert forall|x: Seq<char>| #[trigger] scope_keys(env@).contains(x)
                    <==> (scope_keys(start).contains(x) || exists|j: int| 0 <= j < i + 1 && binds(#[trigger] properties@[j].1, x)) by {
                    if binds(properties@[i as int].1, x) {
                        assert(0 <= i < i + 1);
                    }
                    if exists|j: int| 0 <= j < i + 1 && binds(#[trigger] properties@[j].1, x) {
                        let j = choose|j: int| 0 <= j < i + 1 && binds(#[trigger] properties@[j].1, x);
                        if j < i {
                            assert(scope_keys(mid).contains(x));
                        }
                    }
                }
                i = i + 1;
            }
        },
        Binding::Array(items) => {
            let ghost start = env@;
            let mut i: usize = 0;
            while i < items.len()
                invariant
                    i <= items@.len(),
                    *binding == Binding::Array(*items),
                    forall|x: Seq<char>| #[trigger] scope_keys(env@).contains(x)
                        <==> (scope_keys(start).contains(x) || exists|j: int| 0 <= j < i && binds(#[trigger] items@[j], x)),
                decreases items.len() - i,
            {
                let selected = match value.field(index_text(i).as_str()) {
                    Some(f) => f,
                    None => value.copy(),
                };
                proof {
                    assert((*binding)->Array_0 == *items);
                    assert(decreases_to!(*binding => (*binding)->Array_0));
                    assert(decreases_to!(*items => items@));
                    assert(decreases_to!(items@ => items@[i as int]));
                }
                let ghost mid = env@;
                bind(&items[i], selected, env);
                assert forall|x: Seq<char>| #[trigger] scope_keys(env@).contains(x)
                    <==> (scope_keys(start).contains(x) || exists|j: int| 0 <= j < i + 1 && binds(#[trigger] items@[j], x)) by {
                    if binds(items@[i as int], x) {
                        assert(0 <= i < i + 1);
                    }
                    if exists|j: int| 0 <= j < i + 1 && binds(#[trigger] items@[j], x) {
                        let j = choose|j: int| 0 <= j < i + 1 && binds(#[trigger] items@[j], x);
                        if j < i {
                            assert(scope_keys(mid).contains(x));
                        }
                    }
                }
                i = i + 1;
            }
        },
        Binding::Ignore => {},
    }
}

fn is_one_of(v: &[char], options: &[&str]) -> (r: bool)
    ensures
        r == strs_view(options@).contains(v@),
{
    crate::text::is_one_of(v, options)
}

/// The characters are all decimal digits.
pub open spec fn all_digits(v: Seq<char>) -> bool {
    forall|i: int| 0 <= i < v.len() ==> '0' <= #[trigger] v[i] && v[i] <= '9'
}

/// The number that decimal digits write.
pub open spec fn digits_value(v: Seq<char>) -> nat
    decreases v.len(),
{
    if v.len() == 0 {
        0
    } else {
        digits_value(v.drop_last()) * 10 + (v.last() as int - '0' as int) as nat
    }
}

/// What `str::parse::<usize>` gives: the digits after an optional `+`,
/// when there are some, all are digits, and their number fits.
pub open spec fn index_value(s: Seq<char>) -> Option<nat> {
    let body = if s.len() > 0 && s[0] == '+' { s.drop_first() } else { s };
    if body.len() == 0 || !all_digits(body) || digits_value(body) > usize::MAX {
        None
    } else {
        Some(digits_value(body))
    }
}

proof fn lemma_digits_grow(b: Seq<char>, k: int)
    requires
        all_digits(b),
        0 <= k <= b.len(),
    ensures
        digits_value(b.take(k)) <= digits_value(b),
    decreases b.len() - k,
{
    if k < b.len() {
        let d = b.drop_last();
        assert(d.take(k) =~= b.take(k));
        assert(all_digits(d)) by {
            assert forall|i: int| 0 <= i < d.len() implies '0' <= #[trigger] d[i] && d[i] <= '9' by {
                assert(d[i] == b[i]);
            }
        }
        lemma_digits_grow(d, k);
        assert(b.last() == b[b.len() - 1]);
    } else {
        assert(b.take(k) =~= b);
    }
}

/// Parses a decimal index as `str::parse::<usize>` does: digits after an
/// optional `+`, within range.
fn parse_index(key: &str) -> (r: Option<usize>)
    ensures
        match r {
            Some(n) => index_value(key@) == Some(n as nat),
            None => index_value(key@) is None,
        },
{
    let v = chars_of(key);
    let mut i: usize = 0;
    if v.len() > 0 && v[0] == '+' {
        i = 1;
    }
    let ghost start = i as int;
    let ghost body = v@.subrange(start, v@.len() as int);
    assert(body =~= if key@.len() > 0 && key@[0] == '+' { key@.drop_first() } else { key@ });
    if i >= v.len() {
        return None;
    }
    let mut n: usize = 0;
    assert(v@.subrange(start, i as int) =~= Seq::<char>::empty());
    while i < v.len()
        invariant
            0 <= start <= i <= v@.len(),
            start < v@.len(),
            v@ == key@,
            body == v@.subrange(start, v@.len() as int),
            body == if key@.len() > 0 && key@[0] == '+' { key@.drop_first() } else { key@ },
            forall|j: int| start <= j < i ==> '0' <= #[trigger] v@[j] && v@[j] <= '9',
            n as nat == digits_value(v@.subrange(start, i as int)),
        decreases v.len() - i,
    {
        let c = v[i];
        if !('0' <= c && c <= '9') {
            assert(body[i - start] == v@[i as int]);
            assert(!all_digits(body));
            return None;
        }
        let d = (c as u32 - '0' as u32) as usize;
        let ghost next = v@.subrange(start, i + 1);
        assert(next.drop_last() =~= v@.subrange(start, i as int));
        assert(next.last() == c);
        match n.checked_mul(10) {
            None => {
                proof {
                    if all_digits(body) {
                        assert(body.take(i + 1 - start) =~= next);
                        lemma_digits_grow(body, i + 1 - start);
                    }
                }
                return None;
            },
            Some(m) => match m.checked_add(d) {
                None => {
                    proof {
                        if all_digits(body) {
                            assert(body.take(i + 1 - start) =~= next);
                            lemma_digits_grow(body, i + 1 - start);
                        }
                    }
                    return None;
                },
                Some(x) => n = x,
            },
        }
        i = i + 1;
    }
    assert(v@.subrange(start, i as int) =~= body);
    assert(all_digits(body)) by {
        assert forall|j: int| 0 <= j < body.len() implies '0' <= #[trigger] body[j] && body[j] <= '9' by {
            assert(body[j] == v@[j + start]);
        }
    }
    Some(n)
}


fn contains_return(body: &Vec<Stmt>) -> (r: bool)
    ensures
        r == exists|i: int| 0 <= i < body@.len() && #[trigger] body@[i] is Return,
{
    let mut i: usize = 0;
    while i < body.len()
        invariant
            i <= body@.len(),
            forall|j: int| 0 <= j < i ==> !(#[trigger] body@[j] is Return),
        decreases body.len() - i,
    {
        match &body[i] {
            Stmt::Return(_) => return true,
            _ => {},
        }
        i = i + 1;
    }
    false
}

/// A value that carries nothing.
pub open spec fn empty_value(v: FlowValue) -> bool {
    &&& v.labels@.len() == 0
    &&& v.fields@.len() == 0
    &&& v.name is None && v.literal is None && v.path_hint is None && v.path_key is None
    &&& !v.stream_reader
}

fn merge_pending(pending: &mut Option<FlowValue>, value: FlowValue)
    ensures
        (*final(pending)) is Some,
        match *old(pending) {
            Some(p) => merged_into((*final(pending))->Some_0, p, value),
            None => exists|e: FlowValue| empty_value(e) && merged_into((*final(pending))->Some_0, e, value),
        },
{
    match pending.take() {
        Some(mut p) => {
            p.merge(value);
            *pending = Some(p);
        },
        None => {
            let mut p = FlowValue::empty();
            let ghost e = p;
            p.merge(value);
            assert(empty_value(e) && merged_into(p, e, value));
            *pending = Some(p);
        },
    }
}

/// The last module before the `i`-th with the id, or -1.
pub open spec fn last_module_with_id(mods: Seq<ModuleFacts>, id: Seq<char>, i: int) -> int
    decreases i,
{
    if i <= 0 || i > mods.len() {
        -1
    } else if mods[i - 1].id@ == id {
        i - 1
    } else {
        last_module_with_id(mods, id, i - 1)
    }
}

/// The first module from the `i`-th on with the path, or -1.
pub open spec fn first_module_with_path(mods: Seq<ModuleFacts>, path: Seq<char>, i: int) -> int
    decreases mods.len() - i,
{
    if i < 0 || i >= mods.len() {
        -1
    } else if mods[i].path@ == path {
        i
    } else {
        first_module_with_path(mods, path, i + 1)
    }
}

/// The first stream entry from the `i`-th on of the path and name, or -1.
pub open spec fn stream_pos(entries: Seq<((String, String), Scope)>, path: Seq<char>, name: Seq<char>, i: int) -> int
    decreases entries.len() - i,
{
    if i < 0 || i >= entries.len() {
        -1
    } else if entries[i].0.0@ == path && entries[i].0.1@ == name {
        i
    } else {
        stream_pos(entries, path, name, i + 1)
    }
}

/// The file of a module id: the path of the last module with it, else the id.
pub open spec fn module_file(mods: Seq<ModuleFacts>, id: Seq<char>) -> Seq<char> {
    let p = last_module_with_id(mods, id, mods.len() as int);
    if p >= 0 { mods[p].path@ } else { id }
}

/// The execution route to a module, or an unresolved trigger.
pub open spec fn module_route(reachable: Seq<(String, Vec<String>)>, id: Seq<char>) -> Seq<Seq<char>> {
    let p = key_pos(reachable, id, 0);
    if p >= 0 { strings_view(reachable[p].1@) } else { seq!["trigger: unresolved"@] }
}

/// The finding of a chain rule that reaches a sink in a module at a line,
/// with the route of its labelled source.
pub open spec fn chain_finding(rule: ChainRule, mods: Seq<ModuleFacts>, reachable: Seq<(String, Vec<String>)>,
    path: Seq<char>, line: u64, sink: Seq<char>, route: Seq<Seq<char>>) -> FindingView {
    let (id, title, impact, score) = chain_details(rule);
    FindingView {
        id,
        severity: Severity::Critical,
        confidence: if key_pos(reachable, path, 0) >= 0 { Confidence::VeryHigh } else { Confidence::High },
        score,
        title,
        message: impact,
        file: Some(module_file(mods, path)),
        line: Some(line),
        evidence: module_route(reachable, path) + route
            + seq!["sink: "@ + module_file(mods, path) + ":"@ + crate::text::decimal(line as nat) + " "@ + sink],
    }
}

/// The first `.` of `s` from the `i`-th character on, or -1.
pub open spec fn dot_from(s: Seq<char>, i: int) -> int
    decreases s.len() - i,
{
    if i < 0 || i >= s.len() {
        -1
    } else if s[i] == '.' {
        i
    } else {
        dot_from(s, i + 1)
    }
}

proof fn lemma_dot_from(s: Seq<char>, i: int, k: int)
    requires
        0 <= i <= k <= s.len(),
        forall|j: int| i <= j < k ==> s[j] != '.',
        k < s.len() ==> s[k] == '.',
    ensures
        dot_from(s, i) == if k < s.len() { k } else { -1 },
    decreases k - i,
{
    if i < k {
        lemma_dot_from(s, i + 1, k);
    }
}

/// The function that a module exports under a name, following
/// re-exports from module to module for the rounds left: the module, the
/// function's local name, and its index among the module's functions.
pub open spec fn export_target(mods: Seq<ModuleFacts>, paths: Seq<Seq<char>>, current: Seq<char>, name: Seq<char>, round: nat)
    -> Option<(int, Seq<char>, int)>
    decreases MAX_CALL_DEPTH - round,
{
    if round >= MAX_CALL_DEPTH {
        None
    } else {
        let m = last_module_with_id(mods, current, mods.len() as int);
        if m < 0 {
            None
        } else {
            let flow = mods[m].flow;
            let ep = key_pos(flow.exports@, name, 0);
            let fp = if ep >= 0 { key_pos(flow.functions@, flow.exports@[ep].1@, 0) } else { -1 };
            if fp >= 0 {
                Some((m, flow.exports@[ep].1@, fp))
            } else {
                let d = dot_from(name, 0);
                let object = name.take(d);
                let op = key_pos(flow.exports@, object, 0);
                let local = if op >= 0 { flow.exports@[op].1@ } else { object };
                let fname = local + "."@ + name.skip(d + 1);
                let mp = if d >= 0 { key_pos(flow.functions@, fname, 0) } else { -1 };
                if mp >= 0 {
                    Some((m, fname, mp))
                } else {
                    let rp = key_pos(flow.reexports@, name, 0);
                    let sp = key_pos(flow.reexports@, "*"@, 0);
                    let re: Option<(Seq<char>, Seq<char>)> = if rp >= 0 {
                        Some((flow.reexports@[rp].1.0@, flow.reexports@[rp].1.1@))
                    } else if name == "default"@ || sp < 0 {
                        None
                    } else {
                        Some((flow.reexports@[sp].1.0@, name))
                    };
                    match re {
                        None => None,
                        Some((specifier, next)) => match crate::scanner::graph::import_target(mods[m].path@, specifier, paths) {
                            None => None,
                            Some(t) => {
                                let tm = first_module_with_path(mods, t, 0);
                                if tm < 0 {
                                    None
                                } else {
                                    export_target(mods, paths, mods[tm].id@, next, round + 1)
                                }
                            },
                        },
                    }
                }
            }
        }
    }
}

/// The name of the value that an import binds.
pub open spec fn import_value_name(e: (String, (String, String))) -> Seq<char> {
    "import:"@ + e.1.0@ + "#"@ + e.1.1@
}

/// A value that carries nothing but its name.
pub open spec fn empty_but_name(v: FlowValue) -> bool {
    &&& v.labels@.len() == 0
    &&& v.fields@.len() == 0
    &&& v.literal is None && v.path_hint is None && v.path_key is None
    &&& !v.stream_reader
}

/// The scope that the first `n` imports start a module with: one entry for
/// each local name they bind, each once, named after the last import that
/// binds it.
pub open spec fn import_scope(scope: Seq<(String, FlowValue)>, imports: Seq<(String, (String, String))>, n: int) -> bool {
    &&& forall|x: Seq<char>| scope_keys(scope).contains(x)
        <==> exists|j: int| 0 <= j < n && (#[trigger] imports[j]).0@ == x
    &&& forall|k: int| 0 <= k < scope.len() ==> ({
        let q = last_key_pos(imports, (#[trigger] scope[k]).0@, n);
        &&& 0 <= q
        &&& opt_clone(scope[k].1.name) == Some(import_value_name(imports[q]))
        &&& empty_but_name(scope[k].1)
        &&& forall|m: int| 0 <= m < scope.len() && m != k ==> scope[m].0@ != scope[k].0@
    })
}

/// The seen entry records the rule, module and line.
pub open spec fn seen_is(e: (String, String, u64), id: Seq<char>, path: Seq<char>, line: u64) -> bool {
    e.0@ == id && e.1@ == path && e.2 == line
}

/// What reporting a chain does: nothing when the rule was already reported
/// for the module and line; else it records them and adds the chain's finding.
spec fn emitted(o: Evaluator, f: Evaluator, rule: ChainRule, path: Seq<char>, line: u64, sink: Seq<char>, route: Seq<Seq<char>>) -> bool {
    if exists|k: int| 0 <= k < o.seen@.len() && seen_is(#[trigger] o.seen@[k], chain_details(rule).0, path, line) {
        f.findings == o.findings && f.seen == o.seen
    } else {
        &&& f.seen@.len() == o.seen@.len() + 1
        &&& f.seen@.drop_last() == o.seen@
        &&& seen_is(f.seen@.last(), chain_details(rule).0, path, line)
        &&& f.findings@.len() == o.findings@.len() + 1
        &&& f.findings@.drop_last() == o.findings@
        &&& f.findings@.last()@ == chain_finding(rule, o.modules@, o.reachable@, path, line, sink, route)
    }
}

/// The labels of secret data.
pub open spec fn secret_labels() -> Seq<Label> {
    seq![Label::EnvSecret, Label::FileSecret, Label::Clipboard, Label::UserHome]
}

/// The API that a called name stands for: an imported binding by the
/// module's API it names, a `call`/`apply`/`bind` indirection by its
/// target, and without a `node:` prefix.
pub open spec fn api_name(name: Seq<char>) -> Seq<char> {
    let resolved = api_sink(name);
    if seq_starts_with(resolved, "node:"@) { resolved.subrange(5, resolved.len() as int) } else { resolved }
}

/// The name under which a call reaches a sink: an imported binding by the
/// module's API it names and a `call`/`apply`/`bind` indirection by its
/// target.
pub open spec fn api_sink(name: Seq<char>) -> Seq<char> {
    let plain = if seq_starts_with(name, "import:"@) {
        match import_api(name.subrange(7, name.len() as int)) {
            Some(a) => a,
            None => name,
        }
    } else {
        name
    };
    match indirect_target(plain) {
        Some(t) => t,
        None => plain,
    }
}

/// The dynamic-code APIs: those that run text as code or load a module.
pub open spec fn dynamic_code_apis() -> Seq<Seq<char>> {
    seq!["eval"@, "Function"@, "global.eval"@, "globalThis.eval"@, "window.eval"@, "global.Function"@,
        "globalThis.Function"@, "window.Function"@, "vm.runInThisContext"@, "vm.runInNewContext"@, "vm.runInContext"@,
        "vm.Script"@, "vm.compileFunction"@, "process.dlopen"@, "import"@, "require"@, "dynamic require"@]
}

/// The network APIs: those that send a request or open a connection.
pub open spec fn network_apis() -> Seq<Seq<char>> {
    seq!["axios"@, "axios.get"@, "axios.post"@, "axios.put"@, "axios.patch"@, "axios.delete"@, "axios.head"@,
        "axios.request"@, "fetch"@, "globalThis.fetch"@, "window.fetch"@, "got"@, "got.get"@, "got.post"@, "request"@,
        "request.get"@, "request.post"@, "undici.fetch"@, "undici.request"@, "node-fetch"@, "http.get"@, "https.get"@,
        "http.request"@, "https.request"@, "WebSocket"@, "globalThis.WebSocket"@, "window.WebSocket"@, "EventSource"@,
        "globalThis.EventSource"@, "window.EventSource"@, "ws"@, "socket.io"@, "socket.io-client"@,
        "socket.io-client.io"@, "net.Socket"@, "net.connect"@, "tls.connect"@, "dns.lookup"@, "dns.resolve"@,
        "dns.resolveTxt"@, "dns.resolve4"@, "dns.resolve6"@, "dns.promises.lookup"@, "dns.promises.resolve"@,
        "dns.promises.resolveTxt"@, "dns.promises.resolve4"@, "dns.promises.resolve6"@, "dgram.createSocket"@]
}

/// The module `path` defines a function under the name.
pub open spec fn module_function(mods: Seq<ModuleFacts>, path: Seq<char>, name: Seq<char>) -> bool {
    let m = last_module_with_id(mods, path, mods.len() as int);
    m >= 0 && key_pos(mods[m].flow.functions@, name, 0) >= 0
}

/// The name is an import from a relative specifier, which resolves to a
/// module of the project rather than to an API.
pub open spec fn relative_import(name: Seq<char>) -> bool {
    let import = name.subrange(7, name.len() as int);
    let h = last_index_of(import, '#');
    seq_starts_with(name, "import:"@) && h >= 0 && seq_starts_with(import.subrange(0, h), "."@)
}

/// The function that the module `path` defines under the name.
pub open spec fn module_fn(mods: Seq<ModuleFacts>, path: Seq<char>, name: Seq<char>) -> Function {
    let m = last_module_with_id(mods, path, mods.len() as int);
    mods[m].flow.functions@[key_pos(mods[m].flow.functions@, name, 0)].1
}

/// The process execution APIs.
pub open spec fn process_apis() -> Seq<Seq<char>> {
    seq!["child_process.exec"@, "child_process.execSync"@, "child_process.spawn"@, "child_process.spawnSync"@,
        "child_process.execFile"@, "child_process.execFileSync"@, "child_process.fork"@, "Bun.spawn"@, "Deno.Command"@]
}

/// The finding of a process API that runs a persistence command.
pub open spec fn command_finding(reachable: Seq<(String, Vec<String>)>, path: Seq<char>, file: Seq<char>, line: u64,
    command: Seq<char>) -> FindingView {
    FindingView {
        id: "JS-PERSISTENCE-COMMAND"@,
        severity: Severity::High,
        confidence: Confidence::High,
        score: 85,
        title: "JavaScript invokes an automatic-startup command"@,
        message: "A process execution API receives a recognized persistence command."@,
        file: Some(file),
        line: Some(line),
        evidence: module_route(reachable, path).push("command: "@ + command),
    }
}

/// No finding from the `n`-th on reports a persistence command.
spec fn no_command_from(f: Seq<Finding>, n: int) -> bool {
    forall|k: int| n <= k < f.len() ==> (#[trigger] f[k])@.id != "JS-PERSISTENCE-COMMAND"@
}

proof fn lemma_push_no_command(before: Seq<Finding>, after: Seq<Finding>, n: int)
    requires
        0 <= n,
        no_command_from(before, n),
        after.len() == before.len() + 1,
        after.drop_last() == before,
        after.last()@.id != "JS-PERSISTENCE-COMMAND"@,
    ensures
        no_command_from(after, n),
        extends(before, after),
{
    assert forall|k: int| 0 <= k < before.len() implies #[trigger] after[k] == before[k] by {
        assert(after.drop_last()[k] == after[k]);
    }
    assert forall|k: int| n <= k < after.len() implies (#[trigger] after[k])@.id != "JS-PERSISTENCE-COMMAND"@ by {
        if k < before.len() {
            assert(after[k] == before[k]);
        } else {
            assert(after[k] == after.last());
        }
    }
}

proof fn lemma_emit_no_command(o: Evaluator, f: Evaluator, rule: ChainRule, path: Seq<char>, line: u64, sink: Seq<char>,
    route: Seq<Seq<char>>, n: int)
    requires
        0 <= n,
        emitted(o, f, rule, path, line, sink, route),
        no_command_from(o.findings@, n),
    ensures
        no_command_from(f.findings@, n),
        extends(o.findings@, f.findings@),
{
    lemma_chain_not_command(rule);
    if !(exists|k: int| 0 <= k < o.seen@.len() && seen_is(#[trigger] o.seen@[k], chain_details(rule).0, path, line)) {
        lemma_push_no_command(o.findings@, f.findings@, n);
    }
}

proof fn lemma_emit_extends(o: Evaluator, f: Evaluator, rule: ChainRule, path: Seq<char>, line: u64, sink: Seq<char>,
    route: Seq<Seq<char>>)
    requires
        emitted(o, f, rule, path, line, sink, route),
    ensures
        extends(o.findings@, f.findings@),
{
    if !(exists|k: int| 0 <= k < o.seen@.len() && seen_is(#[trigger] o.seen@[k], chain_details(rule).0, path, line)) {
        assert forall|k: int| 0 <= k < o.findings@.len() implies #[trigger] f.findings@[k] == o.findings@[k] by {
            assert(f.findings@.drop_last()[k] == f.findings@[k]);
        }
    }
}

proof fn lemma_chain_not_command(rule: ChainRule)
    ensures
        chain_details(rule).0 != "JS-PERSISTENCE-COMMAND"@,
        "JS-PERSISTENCE-WRITE"@ != "JS-PERSISTENCE-COMMAND"@,
{
    reveal_strlit("JS-PERSISTENCE-COMMAND");
    reveal_strlit("JS-PERSISTENCE-WRITE");
    reveal_strlit("JS-REMOTE-CODE-EXECUTION");
    reveal_strlit("JS-REMOTE-PROCESS-EXECUTION");
    reveal_strlit("JS-DOWNLOAD-WRITE-EXECUTE");
    reveal_strlit("JS-SECRET-EXFILTRATION");
    assert(chain_details(rule).0[3] != "JS-PERSISTENCE-COMMAND"@[3]);
    assert("JS-PERSISTENCE-WRITE"@.len() != "JS-PERSISTENCE-COMMAND"@.len());
}

/// The module that `require` names: a relative specifier by the import it
/// makes, another by itself, and nothing without a literal first argument.
pub open spec fn required_name(args: Seq<FlowValue>) -> Option<Seq<char>> {
    if args.len() > 0 && args[0].literal is Some {
        let sp = args[0].literal->Some_0@;
        Some(if seq_starts_with(sp, "."@) { "import:"@ + sp + "#*"@ } else { sp })
    } else {
        None
    }
}

/// The labels of remote data, the decoded one first.
pub open spec fn remote_labels() -> Seq<Label> {
    seq![Label::DecodedRemote, Label::Remote]
}

/// The route of remote data that was written to the file a value names, if
/// remote data was written there.
pub open spec fn written_route(written: Seq<(String, FlowValue)>, arg: FlowValue) -> Option<Seq<Seq<char>>> {
    let target = match arg.literal {
        Some(l) => Some(l@),
        None => opt_clone(arg.path_key),
    };
    match target {
        Some(t) => {
            let w = key_pos(written, t, 0);
            if w >= 0 { route_from(written[w].1.labels@, remote_labels(), 0) } else { None }
        },
        None => None,
    }
}

/// The seen entries of `b` extend those of `a`, and none of the added ones
/// is for the rule `id`.
pub open spec fn seen_since_other(a: Seq<(String, String, u64)>, b: Seq<(String, String, u64)>, id: Seq<char>) -> bool {
    &&& a.len() <= b.len()
    &&& b.subrange(0, a.len() as int) == a
    &&& forall|k: int| a.len() <= k < b.len() ==> (#[trigger] b[k]).0@ != id
}

/// The chain at the module and line is reported between the states `o` and
/// `f`: it had been reported at that module and line before, or one of the
/// findings added since is the chain with this sink and route.
spec fn chain_reported(o: Evaluator, f: Evaluator, rule: ChainRule, path: Seq<char>, line: u64, sink: Seq<char>,
    route: Seq<Seq<char>>) -> bool {
    ||| exists|k: int| 0 <= k < o.seen@.len() && seen_is(#[trigger] o.seen@[k], chain_details(rule).0, path, line)
    ||| exists|k: int| o.findings@.len() <= k < f.findings@.len()
        && (#[trigger] f.findings@[k])@ == chain_finding(rule, o.modules@, o.reachable@, path, line, sink, route)
}

proof fn lemma_chain_ids_differ()
    ensures
        forall|a: ChainRule, b: ChainRule| a != b ==> #[trigger] chain_details(a).0 != #[trigger] chain_details(b).0,
{
    reveal_strlit("JS-REMOTE-CODE-EXECUTION");
    reveal_strlit("JS-REMOTE-PROCESS-EXECUTION");
    reveal_strlit("JS-DOWNLOAD-WRITE-EXECUTE");
    reveal_strlit("JS-SECRET-EXFILTRATION");
    assert forall|a: ChainRule, b: ChainRule| a != b implies #[trigger] chain_details(a).0 != #[trigger] chain_details(b).0 by {
        let x = chain_details(a).0;
        let y = chain_details(b).0;
        if x.len() == y.len() {
            assert(x[3] != y[3] || x[10] != y[10]);
        }
    }
}

proof fn lemma_seen_since_self(a: Seq<(String, String, u64)>, id: Seq<char>)
    ensures
        seen_since_other(a, a, id),
{
    assert(a.subrange(0, a.len() as int) =~= a);
}

proof fn lemma_emit_reported(o: Evaluator, pre: Evaluator, post: Evaluator, rule: ChainRule, path: Seq<char>, line: u64,
    sink: Seq<char>, route: Seq<Seq<char>>)
    requires
        emitted(pre, post, rule, path, line, sink, route),
        pre.modules == o.modules,
        pre.reachable == o.reachable,
        extends(o.findings@, pre.findings@),
        seen_since_other(o.seen@, pre.seen@, chain_details(rule).0),
    ensures
        chain_reported(o, post, rule, path, line, sink, route),
        extends(o.findings@, post.findings@),
        forall|id: Seq<char>| id != chain_details(rule).0 && seen_since_other(o.seen@, pre.seen@, id)
            ==> #[trigger] seen_since_other(o.seen@, post.seen@, id),
{
    let id = chain_details(rule).0;
    if exists|k: int| 0 <= k < pre.seen@.len() && seen_is(#[trigger] pre.seen@[k], id, path, line) {
        let k = choose|k: int| 0 <= k < pre.seen@.len() && seen_is(#[trigger] pre.seen@[k], id, path, line);
        if k < o.seen@.len() {
            assert(pre.seen@.subrange(0, o.seen@.len() as int)[k] == pre.seen@[k]);
            assert(seen_is(o.seen@[k], id, path, line));
        }
    } else {
        let k = pre.findings@.len() as int;
        assert(post.findings@[k] == post.findings@.last());
        assert forall|i: int| 0 <= i < pre.findings@.len() implies #[trigger] post.findings@[i] == pre.findings@[i] by {
            assert(post.findings@.drop_last()[i] == post.findings@[i]);
        }
        assert forall|id2: Seq<char>| id2 != id && seen_since_other(o.seen@, pre.seen@, id2)
            implies #[trigger] seen_since_other(o.seen@, post.seen@, id2) by {
            assert forall|i: int| 0 <= i < o.seen@.len() implies post.seen@.subrange(0, o.seen@.len() as int)[i] == o.seen@[i] by {
                assert(post.seen@.drop_last()[i] == post.seen@[i]);
                assert(pre.seen@.subrange(0, o.seen@.len() as int)[i] == pre.seen@[i]);
            }
            assert(post.seen@.subrange(0, o.seen@.len() as int) =~= o.seen@);
            assert forall|i: int| o.seen@.len() <= i < post.seen@.len() implies (#[trigger] post.seen@[i]).0@ != id2 by {
                if i < pre.seen@.len() {
                    assert(post.seen@.drop_last()[i] == post.seen@[i]);
                } else {
                    assert(post.seen@[i] == post.seen@.last());
                }
            }
        }
    }
}

proof fn lemma_reported_extends(o: Evaluator, f1: Evaluator, f2: Evaluator, rule: ChainRule, path: Seq<char>, line: u64,
    sink: Seq<char>, route: Seq<Seq<char>>)
    requires
        chain_reported(o, f1, rule, path, line, sink, route),
        extends(f1.findings@, f2.findings@),
    ensures
        chain_reported(o, f2, rule, path, line, sink, route),
{
    if !(exists|k: int| 0 <= k < o.seen@.len() && seen_is(#[trigger] o.seen@[k], chain_details(rule).0, path, line)) {
        let k = choose|k: int| o.findings@.len() <= k < f1.findings@.len()
            && (#[trigger] f1.findings@[k])@ == chain_finding(rule, o.modules@, o.reachable@, path, line, sink, route);
        assert(f2.findings@[k] == f1.findings@[k]);
    }
}

/// An expression that certainly yields remote data in the scope: a call of
/// a network API by a name that the scope does not bind, or a name that the
/// scope binds to remote data.
pub open spec fn remote_expr(mods: Seq<ModuleFacts>, path: Seq<char>, env: Seq<(String, FlowValue)>, e: Expr) -> bool {
    match e {
        Expr::Call(c, _, _) => *c is Name && {
            let f = (*c)->Name_0@;
            &&& key_pos(env, f, 0) == -1
            &&& api_call(mods, path, f)
            &&& !process_apis().contains(api_name(f)) && !dynamic_code_apis().contains(api_name(f))
            &&& network_apis().contains(api_name(f))
        },
        Expr::Name(x) => key_pos(env, x@, 0) >= 0 && route_from(env[key_pos(env, x@, 0)].1.labels@, remote_labels(), 0) is Some,
        _ => false,
    }
}

proof fn lemma_same_label_pos(a: Seq<(Label, Vec<String>)>, b: Seq<(Label, Vec<String>)>, label: Label, i: int)
    requires
        labels_view(a) == labels_view(b),
    ensures
        label_pos(a, label, i) == label_pos(b, label, i),
    decreases a.len() - i,
{
    assert(a.len() == labels_view(a).len() && b.len() == labels_view(b).len());
    if 0 <= i < a.len() {
        assert(labels_view(a)[i] == labels_view(b)[i]);
        lemma_same_label_pos(a, b, label, i + 1);
    }
}

proof fn lemma_same_route(a: Seq<(Label, Vec<String>)>, b: Seq<(Label, Vec<String>)>, wanted: Seq<Label>, k: int)
    requires
        labels_view(a) == labels_view(b),
    ensures
        route_from(a, wanted, k) == route_from(b, wanted, k),
    decreases wanted.len() - k,
{
    if 0 <= k < wanted.len() {
        lemma_same_label_pos(a, b, wanted[k], 0);
        let p = label_pos(a, wanted[k], 0);
        if p >= 0 {
            lemma_label_pos(a, wanted[k], 0);
            assert(a.len() == labels_view(a).len() && b.len() == labels_view(b).len());
            assert(labels_view(a)[p] == labels_view(b)[p]);
            assert(labels_view(a)[p] == (a[p].0, strings_view(a[p].1@)));
            assert(labels_view(b)[p] == (b[p].0, strings_view(b[p].1@)));
        }
        lemma_same_route(a, b, wanted, k + 1);
    }
}

/// A call, by a name that the scope does not bind, of a process or
/// dynamic-code API whose first argument certainly yields remote data.
pub open spec fn remote_sink_call(mods: Seq<ModuleFacts>, path: Seq<char>, env: Seq<(String, FlowValue)>, e: Expr) -> bool {
    e is Call && *(e->Call_0) is Name && {
        let n = (*(e->Call_0))->Name_0@;
        &&& key_pos(env, n, 0) == -1
        &&& api_call(mods, path, n)
        &&& process_apis().contains(api_name(n)) || dynamic_code_apis().contains(api_name(n))
        &&& (e->Call_1)@.len() > 0 && remote_expr(mods, path, env, (e->Call_1)@[0])
    }
}

/// The rule under which remote data reaching the API of such a call is
/// reported.
pub open spec fn sink_rule(e: Expr) -> Seq<char> {
    if process_apis().contains(api_name((*(e->Call_0))->Name_0@)) {
        "JS-REMOTE-PROCESS-EXECUTION"@
    } else {
        "JS-REMOTE-CODE-EXECUTION"@
    }
}

/// A read of `process.env`, with `process` not bound by the scope.
pub open spec fn env_read(env: Seq<(String, FlowValue)>, e: Expr) -> bool {
    e is Member && *(e->Member_0) is Name && (*(e->Member_0))->Name_0@ == "process"@ && (e->Member_1)@ == "env"@
        && key_pos(env, "process"@, 0) == -1
}

proof fn lemma_args_route_some(args: Seq<FlowValue>, labels: Seq<Label>, i: int, k: int)
    requires
        0 <= i <= k < args.len(),
        route_from(args[k].labels@, labels, 0) is Some,
    ensures
        args_route(args, labels, i) is Some,
    decreases k - i,
{
    if route_from(args[i].labels@, labels, 0) is None {
        lemma_args_route_some(args, labels, i + 1, k);
    }
}

/// An expression that evaluates without changing the scope: a literal or a
/// name.
pub open spec fn plain_expr(e: Expr) -> bool {
    e is String || e is Name || e is Bool
}

/// A function whose body begins by handing the result of calling a network
/// API to a process or dynamic-code API, both called by names that neither
/// the scope it runs in, nor `this`, nor any of its parameters binds.
pub open spec fn function_sink(mods: Seq<ModuleFacts>, path: Seq<char>, scope: Seq<(String, FlowValue)>, f: Function) -> bool {
    f.body@.len() > 0 && f.body@[0] is Expr && {
        let e = f.body@[0]->Expr_0;
        e is Call && *(e->Call_0) is Name && (e->Call_1)@.len() > 0 && (e->Call_1)@[0] is Call
            && *((e->Call_1)@[0]->Call_0) is Name && {
            let n = (*(e->Call_0))->Name_0@;
            let g = (*((e->Call_1)@[0]->Call_0))->Name_0@;
            &&& key_pos(scope, n, 0) == -1 && key_pos(scope, g, 0) == -1
            &&& n != "this"@ && g != "this"@
            &&& forall|j: int| 0 <= j < f.params@.len() ==> !binds(#[trigger] f.params@[j], n) && !binds(f.params@[j], g)
            &&& api_call(mods, path, n)
            &&& process_apis().contains(api_name(n)) || dynamic_code_apis().contains(api_name(n))
            &&& api_call(mods, path, g)
            &&& !process_apis().contains(api_name(g)) && !dynamic_code_apis().contains(api_name(g))
            &&& network_apis().contains(api_name(g))
        }
    }
}

proof fn lemma_key_pos_keys(s: Seq<(String, FlowValue)>, y: Seq<char>)
    ensures
        key_pos(s, y, 0) == -1 <==> !scope_keys(s).contains(y),
{
    lemma_key_pos(s, y, 0);
    let p = key_pos(s, y, 0);
    if p >= 0 {
        assert(scope_keys(s)[p] == y);
    }
    if scope_keys(s).contains(y) {
        let k = choose|k: int| 0 <= k < scope_keys(s).len() && scope_keys(s)[k] == y;
        assert(s[k].0@ == y);
        lemma_key_pos_found(s, y, k);
    }
}

proof fn lemma_same_keys_pos(a: Seq<(String, FlowValue)>, b: Seq<(String, FlowValue)>, y: Seq<char>, i: int)
    requires
        0 <= i,
        a.len() == b.len(),
        forall|j: int| 0 <= j < a.len() ==> (#[trigger] a[j]).0@ == b[j].0@,
    ensures
        key_pos(a, y, i) == key_pos(b, y, i),
    decreases a.len() - i,
{
    if i < a.len() {
        assert(a[i].0@ == b[i].0@);
        lemma_same_keys_pos(a, b, y, i + 1);
    }
}

/// The body binds a name to the result of calling a network API by a name
/// that the scope does not bind, and then hands the bound name, first, to a
/// process or dynamic-code API called by another name that the scope does
/// not bind.
pub open spec fn binds_then_sinks(mods: Seq<ModuleFacts>, path: Seq<char>, env: Seq<(String, FlowValue)>, body: Seq<Stmt>) -> bool {
    body.len() >= 2 && body[0] is Bind && body[0]->Bind_0 is Name && body[1] is Expr && {
        let x = body[0]->Bind_0->Name_0@;
        let e = body[1]->Expr_0;
        &&& body[0]->Bind_1 is Call && remote_expr(mods, path, env, body[0]->Bind_1)
        &&& forall|k: int| 0 <= k < (body[0]->Bind_1->Call_1)@.len() ==> plain_expr(#[trigger] (body[0]->Bind_1->Call_1)@[k])
        &&& e is Call && *(e->Call_0) is Name && (e->Call_1)@.len() > 0 && (e->Call_1)@[0] is Name
        &&& (e->Call_1)@[0]->Name_0@ == x
        &&& {
            let n = (*(e->Call_0))->Name_0@;
            &&& n != x && key_pos(env, n, 0) == -1 && api_call(mods, path, n)
            &&& process_apis().contains(api_name(n)) || dynamic_code_apis().contains(api_name(n))
        }
    }
}

/// The body begins by calling, on literals and names, a function of the
/// module by a name that the scope does not bind, and that function begins
/// by handing the result of a network call to a process or dynamic-code API.
pub open spec fn calls_function_sink(mods: Seq<ModuleFacts>, path: Seq<char>, env: Seq<(String, FlowValue)>, body: Seq<Stmt>) -> bool {
    body.len() > 0 && body[0] is Expr && {
        let e = body[0]->Expr_0;
        e is Call && *(e->Call_0) is Name && {
            let n = (*(e->Call_0))->Name_0@;
            &&& key_pos(env, n, 0) == -1 && indirect_target(n) is None && n != "Object.assign"@
            &&& module_function(mods, path, n)
            &&& forall|k: int| 0 <= k < (e->Call_1)@.len() ==> plain_expr(#[trigger] (e->Call_1)@[k])
            &&& function_sink(mods, path, env, module_fn(mods, path, n))
        }
    }
}

/// The function that the body's first statement calls.
pub open spec fn called_fn(mods: Seq<ModuleFacts>, path: Seq<char>, body: Seq<Stmt>) -> Function {
    module_fn(mods, path, (*((body[0]->Expr_0)->Call_0))->Name_0@)
}

/// The body begins by calling a network API, by a name that the scope does
/// not bind, on literals, names and reads of `process.env`, at least one of
/// them a read of `process.env`.
pub open spec fn sends_environment(mods: Seq<ModuleFacts>, path: Seq<char>, env: Seq<(String, FlowValue)>, body: Seq<Stmt>) -> bool {
    body.len() > 0 && body[0] is Expr && {
        let e = body[0]->Expr_0;
        e is Call && *(e->Call_0) is Name && {
            let n = (*(e->Call_0))->Name_0@;
            let args = (e->Call_1)@;
            &&& key_pos(env, n, 0) == -1 && api_call(mods, path, n)
            &&& !process_apis().contains(api_name(n)) && !dynamic_code_apis().contains(api_name(n))
            &&& network_apis().contains(api_name(n))
            &&& forall|k: int| 0 <= k < args.len() ==> plain_expr(#[trigger] args[k]) || env_read(env, args[k])
            &&& exists|k: int| 0 <= k < args.len() && env_read(env, #[trigger] args[k])
        }
    }
}

/// The module's body begins by calling a network API on literals, names and
/// reads of `process.env`, at least one of them a read of `process.env`;
/// neither the API's name nor `process` is bound by the module's imports.
pub open spec fn environment_sent(mods: Seq<ModuleFacts>, path: Seq<char>, imports: Seq<(String, (String, String))>,
    body: Seq<Stmt>) -> bool {
    body.len() > 0 && body[0] is Expr && {
        let e = body[0]->Expr_0;
        e is Call && *(e->Call_0) is Name && {
            let n = (*(e->Call_0))->Name_0@;
            let args = (e->Call_1)@;
            &&& forall|j: int| 0 <= j < imports.len() ==> (#[trigger] imports[j]).0@ != n && imports[j].0@ != "process"@
            &&& api_call(mods, path, n)
            &&& !process_apis().contains(api_name(n)) && !dynamic_code_apis().contains(api_name(n))
            &&& network_apis().contains(api_name(n))
            &&& forall|k: int| 0 <= k < args.len() ==> plain_expr(#[trigger] args[k]) || (args[k] is Member
                && *(args[k]->Member_0) is Name && (*(args[k]->Member_0))->Name_0@ == "process"@ && (args[k]->Member_1)@ == "env"@)
            &&& exists|k: int| 0 <= k < args.len() && #[trigger] args[k] is Member
                && *(args[k]->Member_0) is Name && (*(args[k]->Member_0))->Name_0@ == "process"@ && (args[k]->Member_1)@ == "env"@
        }
    }
}

proof fn lemma_environment_sent(mods: Seq<ModuleFacts>, path: Seq<char>, scope: Seq<(String, FlowValue)>,
    imports: Seq<(String, (String, String))>, body: Seq<Stmt>)
    requires
        import_scope(scope, imports, imports.len() as int),
        environment_sent(mods, path, imports, body),
    ensures
        sends_environment(mods, path, scope, body),
{
    let e = body[0]->Expr_0;
    let args = (e->Call_1)@;
    lemma_unbound_in_imports(scope, imports, (*(e->Call_0))->Name_0@);
    lemma_unbound_in_imports(scope, imports, "process"@);
    let k = choose|k: int| 0 <= k < args.len() && #[trigger] args[k] is Member
        && *(args[k]->Member_0) is Name && (*(args[k]->Member_0))->Name_0@ == "process"@ && (args[k]->Member_1)@ == "env"@;
    assert(env_read(scope, args[k]));
}

/// The body begins with a statement that makes such a call.
pub open spec fn starts_with_remote_sink(mods: Seq<ModuleFacts>, path: Seq<char>, env: Seq<(String, FlowValue)>, body: Seq<Stmt>) -> bool {
    body.len() > 0 && body[0] is Expr && remote_sink_call(mods, path, env, body[0]->Expr_0)
}

/// The module's body begins by calling a process or dynamic-code API, by a
/// name that none of the module's imports binds, with the result of calling a
/// network API, by such a name, as the first argument.
pub open spec fn direct_remote_sink(mods: Seq<ModuleFacts>, path: Seq<char>, imports: Seq<(String, (String, String))>,
    body: Seq<Stmt>) -> bool {
    body.len() > 0 && body[0] is Expr && {
        let e = body[0]->Expr_0;
        e is Call && *(e->Call_0) is Name && (e->Call_1)@.len() > 0 && (e->Call_1)@[0] is Call
            && *((e->Call_1)@[0]->Call_0) is Name && {
            let n = (*(e->Call_0))->Name_0@;
            let f = (*((e->Call_1)@[0]->Call_0))->Name_0@;
            &&& forall|j: int| 0 <= j < imports.len() ==> (#[trigger] imports[j]).0@ != n && imports[j].0@ != f
            &&& api_call(mods, path, n)
            &&& process_apis().contains(api_name(n)) || dynamic_code_apis().contains(api_name(n))
            &&& api_call(mods, path, f)
            &&& !process_apis().contains(api_name(f)) && !dynamic_code_apis().contains(api_name(f))
            &&& network_apis().contains(api_name(f))
        }
    }
}

/// The module's body begins by binding a name to the result of calling a
/// network API on literals and names, and then hands that name, first, to a
/// process or dynamic-code API; neither API's name is bound by the module's
/// imports.
pub open spec fn bound_remote_sink(mods: Seq<ModuleFacts>, path: Seq<char>, imports: Seq<(String, (String, String))>,
    body: Seq<Stmt>) -> bool {
    body.len() >= 2 && body[0] is Bind && body[0]->Bind_0 is Name && body[1] is Expr && body[0]->Bind_1 is Call
        && *(body[0]->Bind_1->Call_0) is Name && {
        let x = body[0]->Bind_0->Name_0@;
        let source = body[0]->Bind_1;
        let f = (*(source->Call_0))->Name_0@;
        let e = body[1]->Expr_0;
        &&& forall|k: int| 0 <= k < (source->Call_1)@.len() ==> plain_expr(#[trigger] (source->Call_1)@[k])
        &&& e is Call && *(e->Call_0) is Name && (e->Call_1)@.len() > 0 && (e->Call_1)@[0] is Name
        &&& (e->Call_1)@[0]->Name_0@ == x
        &&& {
            let n = (*(e->Call_0))->Name_0@;
            &&& n != x
            &&& forall|j: int| 0 <= j < imports.len() ==> (#[trigger] imports[j]).0@ != n && imports[j].0@ != f
            &&& api_call(mods, path, n)
            &&& process_apis().contains(api_name(n)) || dynamic_code_apis().contains(api_name(n))
            &&& api_call(mods, path, f)
            &&& !process_apis().contains(api_name(f)) && !dynamic_code_apis().contains(api_name(f))
            &&& network_apis().contains(api_name(f))
        }
    }
}

proof fn lemma_bound_sink(mods: Seq<ModuleFacts>, path: Seq<char>, scope: Seq<(String, FlowValue)>,
    imports: Seq<(String, (String, String))>, body: Seq<Stmt>)
    requires
        import_scope(scope, imports, imports.len() as int),
        bound_remote_sink(mods, path, imports, body),
    ensures
        binds_then_sinks(mods, path, scope, body),
{
    let e = body[1]->Expr_0;
    let n = (*(e->Call_0))->Name_0@;
    let f = (*(body[0]->Bind_1->Call_0))->Name_0@;
    lemma_unbound_in_imports(scope, imports, n);
    lemma_unbound_in_imports(scope, imports, f);
}

/// The module's body begins by calling, on literals and names, a function
/// that the module defines, and that function begins by handing the result
/// of a network call to a process or dynamic-code API; none of the three
/// names is bound by the module's imports, `this` or the function's
/// parameters.
pub open spec fn local_sink(mods: Seq<ModuleFacts>, path: Seq<char>, imports: Seq<(String, (String, String))>,
    body: Seq<Stmt>) -> bool {
    body.len() > 0 && body[0] is Expr && {
        let e = body[0]->Expr_0;
        e is Call && *(e->Call_0) is Name && {
            let n = (*(e->Call_0))->Name_0@;
            let f = module_fn(mods, path, n);
            &&& forall|j: int| 0 <= j < imports.len() ==> (#[trigger] imports[j]).0@ != n
            &&& indirect_target(n) is None && n != "Object.assign"@ && module_function(mods, path, n)
            &&& forall|k: int| 0 <= k < (e->Call_1)@.len() ==> plain_expr(#[trigger] (e->Call_1)@[k])
            &&& f.body@.len() > 0 && f.body@[0] is Expr && {
                let s = f.body@[0]->Expr_0;
                s is Call && *(s->Call_0) is Name && (s->Call_1)@.len() > 0 && (s->Call_1)@[0] is Call
                    && *((s->Call_1)@[0]->Call_0) is Name && {
                    let sink = (*(s->Call_0))->Name_0@;
                    let source = (*((s->Call_1)@[0]->Call_0))->Name_0@;
                    &&& forall|j: int| 0 <= j < imports.len() ==> (#[trigger] imports[j]).0@ != sink && imports[j].0@ != source
                    &&& sink != "this"@ && source != "this"@
                    &&& forall|j: int| 0 <= j < f.params@.len() ==> !binds(#[trigger] f.params@[j], sink) && !binds(f.params@[j], source)
                    &&& api_call(mods, path, sink)
                    &&& process_apis().contains(api_name(sink)) || dynamic_code_apis().contains(api_name(sink))
                    &&& api_call(mods, path, source)
                    &&& !process_apis().contains(api_name(source)) && !dynamic_code_apis().contains(api_name(source))
                    &&& network_apis().contains(api_name(source))
                }
            }
        }
    }
}

proof fn lemma_local_sink(mods: Seq<ModuleFacts>, path: Seq<char>, scope: Seq<(String, FlowValue)>,
    imports: Seq<(String, (String, String))>, body: Seq<Stmt>)
    requires
        import_scope(scope, imports, imports.len() as int),
        local_sink(mods, path, imports, body),
    ensures
        calls_function_sink(mods, path, scope, body),
{
    let e = body[0]->Expr_0;
    let n = (*(e->Call_0))->Name_0@;
    let f = module_fn(mods, path, n);
    let s = f.body@[0]->Expr_0;
    lemma_unbound_in_imports(scope, imports, n);
    lemma_unbound_in_imports(scope, imports, (*(s->Call_0))->Name_0@);
    lemma_unbound_in_imports(scope, imports, (*((s->Call_1)@[0]->Call_0))->Name_0@);
}

/// The module takes part in the analysis: it is enabled for it, and an
/// execution root reaches it or no root reaches anything.
pub open spec fn module_runs(m: ModuleFacts, reachable: Seq<(String, Vec<String>)>) -> bool {
    m.flow_enabled && (reachable.len() == 0 || key_pos(reachable, m.id@, 0) >= 0)
}

proof fn lemma_unbound_in_imports(scope: Seq<(String, FlowValue)>, imports: Seq<(String, (String, String))>, x: Seq<char>)
    requires
        import_scope(scope, imports, imports.len() as int),
        forall|j: int| 0 <= j < imports.len() ==> (#[trigger] imports[j]).0@ != x,
    ensures
        key_pos(scope, x, 0) == -1,
{
    lemma_key_pos(scope, x, 0);
    let p = key_pos(scope, x, 0);
    if p >= 0 {
        assert(scope_keys(scope)[p] == x);
        assert(scope_keys(scope).contains(x));
    }
}

proof fn lemma_direct_sink(mods: Seq<ModuleFacts>, path: Seq<char>, scope: Seq<(String, FlowValue)>,
    imports: Seq<(String, (String, String))>, body: Seq<Stmt>)
    requires
        import_scope(scope, imports, imports.len() as int),
        direct_remote_sink(mods, path, imports, body),
    ensures
        starts_with_remote_sink(mods, path, scope, body),
{
    let e = body[0]->Expr_0;
    let n = (*(e->Call_0))->Name_0@;
    let f = (*((e->Call_1)@[0]->Call_0))->Name_0@;
    lemma_unbound_in_imports(scope, imports, n);
    lemma_unbound_in_imports(scope, imports, f);
}

/// A call of the name goes to the library API that the name stands for:
/// the name is no function of the module, no relative import, no
/// `call`/`apply`/`bind` indirection and not `Object.assign`.
pub open spec fn api_call(mods: Seq<ModuleFacts>, path: Seq<char>, name: Seq<char>) -> bool {
    !module_function(mods, path, name) && !relative_import(name) && indirect_target(name) is None
        && name != "Object.assign"@
}

/// What a call of a library API does with its arguments, as far as it is
/// stated: remote data given to a process or dynamic-code API is reported at
/// the module and line, and a network API yields remote data.
pub open spec fn api_call_effects(findings: Seq<Finding>, mods: Seq<ModuleFacts>, path: Seq<char>, name: Seq<char>,
    args: Seq<FlowValue>, line: u64, r: FlowValue) -> bool {
    &&& process_apis().contains(api_name(name)) && args_route(args, remote_labels(), 0) is Some
        ==> rule_reported(findings, mods, "JS-REMOTE-PROCESS-EXECUTION"@, path, line)
    &&& !process_apis().contains(api_name(name)) && dynamic_code_apis().contains(api_name(name))
        && args_route(args, remote_labels(), 0) is Some
        ==> rule_reported(findings, mods, "JS-REMOTE-CODE-EXECUTION"@, path, line)
    &&& !process_apis().contains(api_name(name)) && !dynamic_code_apis().contains(api_name(name))
        && network_apis().contains(api_name(name)) ==> r.labels@.len() == 1 && r.labels@[0].0 == Label::Remote
    &&& !process_apis().contains(api_name(name)) && !dynamic_code_apis().contains(api_name(name))
        && network_apis().contains(api_name(name)) && args_route(args, secret_labels(), 0) is Some
        ==> rule_reported(findings, mods, "JS-SECRET-EXFILTRATION"@, path, line)
}

/// Whether an execution root reaches the module with the id.
fn listed(reachable: &Vec<(String, Vec<String>)>, id: &str) -> (r: bool)
    ensures
        r == (key_pos(reachable@, id@, 0) >= 0),
{
    let mut i: usize = 0;
    while i < reachable.len()
        invariant
            i <= reachable@.len(),
            key_pos(reachable@, id@, 0) == key_pos(reachable@, id@, i as int),
        decreases reachable.len() - i,
    {
        if crate::text::str_eq(reachable[i].0.as_str(), id) {
            return true;
        }
        i = i + 1;
    }
    false
}

/// A finding of the rule stands at the module's file and line.
pub open spec fn rule_reported(findings: Seq<Finding>, mods: Seq<ModuleFacts>, id: Seq<char>, path: Seq<char>, line: u64) -> bool {
    exists|k: int| 0 <= k < findings.len() && (#[trigger] findings[k])@.id == id
        && findings[k]@.file == Some(module_file(mods, path)) && findings[k]@.line == Some(line)
}

proof fn lemma_reported_grows(a: Seq<Finding>, b: Seq<Finding>, mods: Seq<ModuleFacts>, id: Seq<char>, path: Seq<char>, line: u64)
    requires
        extends(a, b),
        rule_reported(a, mods, id, path, line),
    ensures
        rule_reported(b, mods, id, path, line),
{
    let k = choose|k: int| 0 <= k < a.len() && (#[trigger] a[k])@.id == id
        && a[k]@.file == Some(module_file(mods, path)) && a[k]@.line == Some(line);
    assert(b[k] == a[k]);
}

/// Every recorded chain stands among the findings at its module and line.
spec fn seen_reported(seen: Seq<(String, String, u64)>, findings: Seq<Finding>, mods: Seq<ModuleFacts>) -> bool {
    forall|k: int| 0 <= k < seen.len() ==> rule_reported(findings, mods, (#[trigger] seen[k]).0@, seen[k].1@, seen[k].2)
}

proof fn lemma_seen_reported_grows(seen: Seq<(String, String, u64)>, a: Seq<Finding>, b: Seq<Finding>, mods: Seq<ModuleFacts>)
    requires
        extends(a, b),
        seen_reported(seen, a, mods),
    ensures
        seen_reported(seen, b, mods),
{
    assert forall|k: int| 0 <= k < seen.len() implies rule_reported(b, mods, (#[trigger] seen[k]).0@, seen[k].1@, seen[k].2) by {
        lemma_reported_grows(a, b, mods, seen[k].0@, seen[k].1@, seen[k].2);
    }
}

impl<'a> Evaluator<'a> {
    spec fn wf(&self) -> bool {
        &&& self.steps <= MAX_FLOW_STEPS
        &&& forall|i: int| 0 <= i < self.findings@.len() ==> evaluated_finding(#[trigger] self.findings@[i]@)
        &&& seen_reported(self.seen@, self.findings@, self.modules@)
    }

    proof fn lemma_chain_rule_reported(o: Evaluator, f: Evaluator, rule: ChainRule, path: Seq<char>, line: u64,
        sink: Seq<char>, route: Seq<Seq<char>>)
        requires
            o.wf(),
            chain_reported(o, f, rule, path, line, sink, route),
            extends(o.findings@, f.findings@),
        ensures
            rule_reported(f.findings@, o.modules@, chain_details(rule).0, path, line),
    {
        if exists|k: int| 0 <= k < o.seen@.len() && seen_is(#[trigger] o.seen@[k], chain_details(rule).0, path, line) {
            let k = choose|k: int| 0 <= k < o.seen@.len() && seen_is(#[trigger] o.seen@[k], chain_details(rule).0, path, line);
            assert(rule_reported(o.findings@, o.modules@, o.seen@[k].0@, o.seen@[k].1@, o.seen@[k].2));
            lemma_reported_grows(o.findings@, f.findings@, o.modules@, chain_details(rule).0, path, line);
        } else {
            let k = choose|k: int| o.findings@.len() <= k < f.findings@.len()
                && (#[trigger] f.findings@[k])@ == chain_finding(rule, o.modules@, o.reachable@, path, line, sink, route);
            assert(f.findings@[k]@.id == chain_details(rule).0);
        }
    }

    /// The module with the id: the last one, as a map built from them keeps.
    fn module_by_id(&self, id: &str) -> (r: Option<usize>)
        ensures
            match r {
                Some(i) => i < self.modules@.len()
                    && i as int == last_module_with_id(self.modules@, id@, self.modules@.len() as int),
                None => last_module_with_id(self.modules@, id@, self.modules@.len() as int) == -1,
            },
    {
        let mut i = self.modules.len();
        while i > 0
            invariant
                i <= self.modules@.len(),
                last_module_with_id(self.modules@, id@, self.modules@.len() as int)
                    == last_module_with_id(self.modules@, id@, i as int),
            decreases i,
        {
            if crate::text::str_eq(self.modules[i - 1].id.as_str(), id) {
                return Some(i - 1);
            }
            i = i - 1;
        }
        None
    }

    /// The module with the path: the first one.
    fn module_by_path(&self, path: &[char]) -> (r: Option<usize>)
        ensures
            match r {
                Some(i) => i < self.modules@.len() && i as int == first_module_with_path(self.modules@, path@, 0),
                None => first_module_with_path(self.modules@, path@, 0) == -1,
            },
    {
        let mut i: usize = 0;
        while i < self.modules.len()
            invariant
                i <= self.modules@.len(),
                first_module_with_path(self.modules@, path@, 0) == first_module_with_path(self.modules@, path@, i as int),
            decreases self.modules.len() - i,
        {
            if crate::text::eq_chars(&chars_of(self.modules[i].path.as_str()), path) {
                return Some(i);
            }
            i = i + 1;
        }
        None
    }

    /// The file of a module id, or the id itself.
    fn file_path(&self, id: &str) -> (r: String)
        ensures
            r@ == module_file(self.modules@, id@),
    {
        match self.module_by_id(id) {
            Some(i) => self.modules[i].path.clone(),
            None => crate::text::owned(id),
        }
    }

    /// Whether the module id is reachable from an execution root.
    fn is_reachable(&self, id: &str) -> (r: bool)
        ensures
            r == (key_pos(self.reachable@, id@, 0) >= 0),
    {
        listed(self.reachable, id)
    }

    /// The execution route to a module, or an unresolved trigger.
    fn route(&self, id: &str) -> (r: Vec<String>)
        ensures
            strings_view(r@) == module_route(self.reachable@, id@),
    {
        let mut i: usize = 0;
        while i < self.reachable.len()
            invariant
                i <= self.reachable@.len(),
                key_pos(self.reachable@, id@, 0) == key_pos(self.reachable@, id@, i as int),
            decreases self.reachable.len() - i,
        {
            if crate::text::str_eq(self.reachable[i].0.as_str(), id) {
                return crate::text::clone_strings(&self.reachable[i].1);
            }
            i = i + 1;
        }
        let r = vec![crate::text::owned("trigger: unresolved")];
        assert(strings_view(r@) =~= seq!["trigger: unresolved"@]);
        r
    }

    /// The scope that a module's imports start it with.
    fn imports_scope(&self, module: usize) -> (r: Scope)
        requires
            module < self.modules@.len(),
        ensures
            import_scope(r@, self.modules@[module as int].flow.imports@, self.modules@[module as int].flow.imports@.len() as int),
    {
        let imports = &self.modules[module].flow.imports;
        let mut scope: Scope = Vec::new();
        let mut i: usize = 0;
        while i < imports.len()
            invariant
                i <= imports@.len(),
                imports == &self.modules@[module as int].flow.imports,
                import_scope(scope@, imports@, i as int),
            decreases imports.len() - i,
        {
            let mut name = cat2("import:", imports[i].1.0.as_str());
            crate::text::push_str(&mut name, "#");
            crate::text::push_str(&mut name, imports[i].1.1.as_str());
            let key = crate::text::owned(imports[i].0.as_str());
            let ghost before = scope@;
            let v = FlowValue::named(name);
            scope_insert(&mut scope, key, v);
            proof {
                lemma_key_pos(before, key@, 0);
                let p = key_pos(before, key@, 0);
                assert forall|x: Seq<char>| scope_keys(scope@).contains(x)
                    <==> exists|j: int| 0 <= j < i + 1 && (#[trigger] imports@[j]).0@ == x by {
                    if scope_keys(scope@).contains(x) {
                        let k = choose|k: int| 0 <= k < scope_keys(scope@).len() && scope_keys(scope@)[k] == x;
                        if k < before.len() && k != p {
                            assert(scope_keys(before)[k] == x);
                            assert(scope_keys(before).contains(x));
                        } else {
                            assert(imports@[i as int].0@ == x);
                        }
                    }
                    if exists|j: int| 0 <= j < i + 1 && (#[trigger] imports@[j]).0@ == x {
                        let j = choose|j: int| 0 <= j < i + 1 && (#[trigger] imports@[j]).0@ == x;
                        if j < i {
                            assert(scope_keys(before).contains(x));
                            let k = choose|k: int| 0 <= k < scope_keys(before).len() && scope_keys(before)[k] == x;
                            assert(scope_keys(scope@)[k] == x);
                        } else if p >= 0 {
                            assert(scope_keys(scope@)[p] == x);
                        } else {
                            assert(scope_keys(scope@)[before.len() as int] == x);
                        }
                    }
                }
                if p < 0 {
                    assert forall|k: int| 0 <= k < before.len() implies before[k].0@ != key@ by {
                        if before[k].0@ == key@ {
                            assert(scope_keys(before)[k] == key@);
                            assert(scope_keys(before).contains(key@));
                            let j = choose|j: int| 0 <= j < i && (#[trigger] imports@[j]).0@ == key@;
                            assert(false) by {
                                lemma_key_pos_found(before, key@, k);
                            }
                        }
                    }
                }
                assert forall|k: int| 0 <= k < scope@.len() implies ({
                    let q = last_key_pos(imports@, (#[trigger] scope@[k]).0@, i + 1);
                    &&& 0 <= q
                    &&& opt_clone(scope@[k].1.name) == Some(import_value_name(imports@[q]))
                    &&& empty_but_name(scope@[k].1)
                    &&& forall|m: int| 0 <= m < scope@.len() && m != k ==> scope@[m].0@ != scope@[k].0@
                }) by {
                    if k < before.len() && k != p {
                        assert(scope@[k] == before[k]);
                        if before[k].0@ == key@ {
                            lemma_key_pos_found(before, key@, k);
                        }
                    }
                }
            }
            i = i + 1;
        }
        scope
    }

    fn emit(&mut self, rule: ChainRule, path: &str, line: u64, sink: &str, route: &Vec<String>)
        requires
            old(self).wf(),
        ensures
            final(self).wf(),
            final(self).steps == old(self).steps,
            final(self).limited == old(self).limited,
            final(self).modules == old(self).modules,
            final(self).reachable == old(self).reachable,
            final(self).written == old(self).written,
            final(self).stream_data == old(self).stream_data,
            emitted(*old(self), *final(self), rule, path@, line, sink@, strings_view(route@)),
    {
        let (id, title, impact, score) = rule.details();
        let mut k: usize = 0;
        while k < self.seen.len()
            invariant
                k <= self.seen@.len(),
                self == old(self),
                self.wf(),
                self.modules == old(self).modules,
                id@ == chain_details(rule).0,
                forall|m: int| 0 <= m < k ==> !seen_is(#[trigger] self.seen@[m], id@, path@, line),
            decreases self.seen.len() - k,
        {
            if crate::text::str_eq(self.seen[k].0.as_str(), id) && crate::text::str_eq(self.seen[k].1.as_str(), path)
                && self.seen[k].2 == line
            {
                assert(seen_is(self.seen@[k as int], chain_details(rule).0, path@, line));
                return;
            }
            k = k + 1;
        }
        self.seen.push((crate::text::owned(id), crate::text::owned(path), line));
        let mut evidence = self.route(path);
        let ghost base = strings_view(evidence@);
        let mut j: usize = 0;
        while j < route.len()
            invariant
                j <= route@.len(),
                strings_view(evidence@) == base + strings_view(route@).subrange(0, j as int),
            decreases route.len() - j,
        {
            let ghost before = evidence@;
            evidence.push(crate::text::owned(route[j].as_str()));
            assert(strings_view(evidence@) =~= strings_view(before).push(route@[j as int]@));
            assert(strings_view(route@).subrange(0, j + 1) =~= strings_view(route@).subrange(0, j as int).push(route@[j as int]@));
            j = j + 1;
        }
        assert(strings_view(route@).subrange(0, route@.len() as int) =~= strings_view(route@));
        let file_path = self.file_path(path);
        let sink_step = located("sink: ", file_path.as_str(), line, sink);
        proof { reveal_strlit("sink: "); }
        assert(seq_starts_with(sink_step@, "sink: "@)) by {
            assert("sink: "@.len() == 6);
            assert(sink_step@.subrange(0, 6) =~= "sink: "@);
        }
        evidence.push(sink_step);
        let confidence = if self.is_reachable(path) { Confidence::VeryHigh } else { Confidence::High };
        let f = Finding {
            id: crate::text::owned(id),
            severity: Severity::Critical,
            confidence,
            score,
            title: crate::text::owned(title),
            message: crate::text::owned(impact),
            file: Some(file_path),
            line: Some(line),
            evidence,
        };
        assert(strings_view(f.evidence@).last() == sink_step@);
        assert(f@.id == chain_details(rule).0);
        assert(flow_finding(f@));
        assert(self.modules@ == old(self).modules@ && self.reachable@ == old(self).reachable@);
        assert(base == module_route(old(self).reachable@, path@));
        assert(file_path@ == module_file(old(self).modules@, path@));
        assert(f@.evidence =~= module_route(old(self).reachable@, path@) + strings_view(route@)
            + seq!["sink: "@ + module_file(old(self).modules@, path@) + ":"@ + crate::text::decimal(line as nat) + " "@ + sink@]);
        assert(f@ == chain_finding(rule, old(self).modules@, old(self).reachable@, path@, line, sink@, strings_view(route@)));
        let ghost before = self.findings@;
        self.findings.push(f);
        assert forall|i: int| 0 <= i < self.findings@.len() implies flow_finding(#[trigger] self.findings@[i]@) by {
            if i < before.len() {
                assert(self.findings@[i] == before[i]);
            }
        }
        assert(!exists|m: int| 0 <= m < old(self).seen@.len() && seen_is(#[trigger] old(self).seen@[m], chain_details(rule).0, path@, line));
        assert(self.findings@.drop_last() =~= old(self).findings@);
        assert(self.seen@.drop_last() =~= old(self).seen@);
        assert(seen_is(self.seen@.last(), chain_details(rule).0, path@, line));
        assert(self.findings@.last()@ == chain_finding(rule, old(self).modules@, old(self).reachable@, path@, line, sink@, strings_view(route@)));
        proof {
            let old_seen = old(self).seen@;
            lemma_seen_reported_grows(old_seen, before, self.findings@, self.modules@);
            let n = before.len() as int;
            assert(self.findings@[n] == self.findings@.last());
            assert(rule_reported(self.findings@, self.modules@, chain_details(rule).0, path@, line));
            assert forall|j: int| 0 <= j < self.seen@.len() implies rule_reported(self.findings@, self.modules@,
                (#[trigger] self.seen@[j]).0@, self.seen@[j].1@, self.seen@[j].2) by {
                if j < old_seen.len() {
                    assert(self.seen@[j] == self.seen@.drop_last()[j]);
                } else {
                    assert(self.seen@[j] == self.seen@.last());
                }
            }
        }
    }

    fn exfiltration(&mut self, path: &str, line: u64, sink: &str, args: &Vec<FlowValue>)
        requires
            old(self).wf(),
        ensures
            final(self).wf(),
            final(self).steps == old(self).steps,
            final(self).limited == old(self).limited,
            final(self).modules == old(self).modules,
            final(self).reachable == old(self).reachable,
            final(self).written == old(self).written,
            final(self).stream_data == old(self).stream_data,
            match args_route(args@, secret_labels(), 0) {
                Some(route) => emitted(*old(self), *final(self), ChainRule::SecretExfiltration, path@, line, sink@, route),
                None => final(self).findings == old(self).findings && final(self).seen == old(self).seen,
            },
            args_route(args@, secret_labels(), 0) is Some
                ==> rule_reported(final(self).findings@, old(self).modules@, "JS-SECRET-EXFILTRATION"@, path@, line),
    {
        let secrets = [Label::EnvSecret, Label::FileSecret, Label::Clipboard, Label::UserHome];
        assert(secrets@ =~= secret_labels());
        let mut i: usize = 0;
        while i < args.len()
            invariant
                i <= args@.len(),
                self == old(self),
                self.wf(),
                self.modules == old(self).modules,
                secrets@ == secret_labels(),
                args_route(args@, secret_labels(), 0) == args_route(args@, secret_labels(), i as int),
            decreases args.len() - i,
        {
            match args[i].route_of(&secrets) {
                Some(route) => {
                    self.emit(ChainRule::SecretExfiltration, path, line, sink, &route);
                    proof {
                        lemma_seen_since_self(old(self).seen@, chain_details(ChainRule::SecretExfiltration).0);
                        lemma_emit_reported(*old(self), *old(self), *self, ChainRule::SecretExfiltration, path@, line, sink@,
                            strings_view(route@));
                        Self::lemma_chain_rule_reported(*old(self), *self, ChainRule::SecretExfiltration, path@, line, sink@,
                            strings_view(route@));
                    }
                    return;
                },
                None => {},
            }
            i = i + 1;
        }
    }

    fn push_persistence(&mut self, id: &str, title: &str, message: &str, path: &str, file_path: &String, line: u64, note: String)
        requires
            old(self).wf(),
            id@ == "JS-PERSISTENCE-WRITE"@ || id@ == "JS-PERSISTENCE-COMMAND"@,
        ensures
            final(self).wf(),
            final(self).steps == old(self).steps,
            final(self).limited == old(self).limited,
            final(self).modules == old(self).modules,
            final(self).reachable == old(self).reachable,
            final(self).written == old(self).written,
            final(self).stream_data == old(self).stream_data,
            final(self).seen == old(self).seen,
            final(self).findings@.drop_last() == old(self).findings@,
            final(self).findings@.len() == old(self).findings@.len() + 1,
            final(self).findings@.last()@ == (FindingView {
                id: id@,
                severity: Severity::High,
                confidence: Confidence::High,
                score: 85,
                title: title@,
                message: message@,
                file: Some(file_path@),
                line: Some(line),
                evidence: module_route(old(self).reachable@, path@).push(note@),
            }),
    {
        let mut evidence = self.route(path);
        let ghost base = evidence@;
        evidence.push(note);
        assert(strings_view(evidence@) =~= strings_view(base).push(note@));
        let f = Finding {
            id: crate::text::owned(id),
            severity: Severity::High,
            confidence: Confidence::High,
            score: 85,
            title: crate::text::owned(title),
            message: crate::text::owned(message),
            file: Some(crate::text::owned(file_path.as_str())),
            line: Some(line),
            evidence,
        };
        assert(flow_finding(f@));
        let ghost before = self.findings@;
        self.findings.push(f);
        assert forall|i: int| 0 <= i < self.findings@.len() implies flow_finding(#[trigger] self.findings@[i]@) by {
            if i < before.len() {
                assert(self.findings@[i] == before[i]);
            }
        }
        proof { lemma_seen_reported_grows(self.seen@, before, self.findings@, self.modules@); }
    }
}


impl<'a> Evaluator<'a> {
    /// Runs statements in a scope, returning what they return.
    #[verifier::loop_isolation(false)]
    fn run(&mut self, path: &str, body: &Vec<Stmt>, env: &mut Scope, depth: usize) -> (r: Option<FlowValue>)
        requires
            old(self).wf(),
            depth <= MAX_CALL_DEPTH,
        ensures
            final(self).wf(),
            old(self).limited ==> final(self).limited,
            final(self).modules == old(self).modules,
            extends(old(self).findings@, final(self).findings@),
            !old(self).limited && !final(self).limited && starts_with_remote_sink(old(self).modules@, path@, old(env)@, body@)
                ==> rule_reported(final(self).findings@, old(self).modules@, sink_rule(body@[0]->Expr_0), path@,
                    (body@[0]->Expr_0)->Call_2),
            !old(self).limited && !final(self).limited && binds_then_sinks(old(self).modules@, path@, old(env)@, body@)
                ==> rule_reported(final(self).findings@, old(self).modules@, sink_rule(body@[1]->Expr_0), path@,
                    (body@[1]->Expr_0)->Call_2),
            !old(self).limited && !final(self).limited && sends_environment(old(self).modules@, path@, old(env)@, body@)
                ==> rule_reported(final(self).findings@, old(self).modules@, "JS-SECRET-EXFILTRATION"@, path@,
                    (body@[0]->Expr_0)->Call_2),
            !old(self).limited && !final(self).limited && calls_function_sink(old(self).modules@, path@, old(env)@, body@)
                ==> rule_reported(final(self).findings@, old(self).modules@,
                    sink_rule(called_fn(old(self).modules@, path@, body@).body@[0]->Expr_0), path@,
                    (called_fn(old(self).modules@, path@, body@).body@[0]->Expr_0)->Call_2),
        decreases MAX_CALL_DEPTH - depth, 1nat, stmts_size(body@),
    {
        if depth >= MAX_CALL_DEPTH {
            self.limited = true;
            return None;
        }
        let mut pending: Option<FlowValue> = None;
        let mut i: usize = 0;
        let ghost sinks = !old(self).limited && starts_with_remote_sink(old(self).modules@, path@, old(env)@, body@);
        let ghost bound = !old(self).limited && binds_then_sinks(old(self).modules@, path@, old(env)@, body@);
        let ghost through = !old(self).limited && calls_function_sink(old(self).modules@, path@, old(env)@, body@);
        let ghost secret = !old(self).limited && sends_environment(old(self).modules@, path@, old(env)@, body@);
        let ghost fsink = sink_rule(called_fn(old(self).modules@, path@, body@).body@[0]->Expr_0);
        let ghost fline = (called_fn(old(self).modules@, path@, body@).body@[0]->Expr_0)->Call_2;
        while i < body.len()
            invariant
                i <= body@.len(),
                self.wf(),
                extends(old(self).findings@, self.findings@),
                self.modules == old(self).modules,
                depth < MAX_CALL_DEPTH,
                i == 0 ==> *env == *old(env) && self.limited == old(self).limited,
                old(self).limited ==> self.limited,
                sinks == (!old(self).limited && starts_with_remote_sink(old(self).modules@, path@, old(env)@, body@)),
                i > 0 && sinks ==> rule_reported(self.findings@, old(self).modules@, sink_rule(body@[0]->Expr_0), path@,
                    (body@[0]->Expr_0)->Call_2),
                bound == (!old(self).limited && binds_then_sinks(old(self).modules@, path@, old(env)@, body@)),
                through == (!old(self).limited && calls_function_sink(old(self).modules@, path@, old(env)@, body@)),
                fsink == sink_rule(called_fn(old(self).modules@, path@, body@).body@[0]->Expr_0),
                fline == (called_fn(old(self).modules@, path@, body@).body@[0]->Expr_0)->Call_2,
                i >= 1 && through ==> self.limited || rule_reported(self.findings@, old(self).modules@, fsink, path@, fline),
                secret == (!old(self).limited && sends_environment(old(self).modules@, path@, old(env)@, body@)),
                i >= 1 && secret ==> self.limited || rule_reported(self.findings@, old(self).modules@, "JS-SECRET-EXFILTRATION"@,
                    path@, (body@[0]->Expr_0)->Call_2),
                i == 1 && bound ==> self.limited || remote_sink_call(old(self).modules@, path@, env@, body@[1]->Expr_0),
                i >= 2 && bound ==> self.limited || rule_reported(self.findings@, old(self).modules@,
                    sink_rule(body@[1]->Expr_0), path@, (body@[1]->Expr_0)->Call_2),
            decreases body.len() - i,
        {
            if self.steps >= MAX_FLOW_STEPS {
                self.limited = true;
                return None;
            }
            self.steps = self.steps + 1;
            let ghost fb = self.findings@;
            proof { lemma_stmts_size(body@, i as int); }
            match &body[i] {
                Stmt::Bind(binding, expression) => {
                    let ghost start_limited = self.limited;
                    let value = self.eval(path, expression, env, depth);
                    let ghost labels = value.labels@;
                    bind(binding, value, env);
                    proof {
                        if i == 0 && bound && !self.limited {
                            assert(!start_limited);
                            assert(labels.len() == 1 && labels[0].0 == Label::Remote);
                            assert(label_pos(labels, Label::DecodedRemote, 1) == -1);
                            assert(label_pos(labels, Label::DecodedRemote, 0) == -1);
                            assert(label_pos(labels, Label::Remote, 0) == 0);
                            assert(route_from(labels, remote_labels(), 1) is Some);
                            let e = body@[1]->Expr_0;
                            let n = (*(e->Call_0))->Name_0@;
                            assert(key_pos(env@, n, 0) == -1);
                            assert(remote_expr(old(self).modules@, path@, env@, (e->Call_1)@[0]));
                        }
                    }
                },
                Stmt::Expr(expression) => {
                    let _ = self.eval(path, expression, env, depth);
                },
                Stmt::Return(expression) => {
                    let value = self.eval(path, expression, env, depth);
                    proof { if i > 0 && sinks { lemma_reported_grows(fb, self.findings@, old(self).modules@, sink_rule(body@[0]->Expr_0), path@, (body@[0]->Expr_0)->Call_2); } }
proof { if i >= 2 && bound && rule_reported(fb, old(self).modules@, sink_rule(body@[1]->Expr_0), path@, (body@[1]->Expr_0)->Call_2) { lemma_reported_grows(fb, self.findings@, old(self).modules@, sink_rule(body@[1]->Expr_0), path@, (body@[1]->Expr_0)->Call_2); } }
proof { if i >= 1 && through && rule_reported(fb, old(self).modules@, fsink, path@, fline) { lemma_reported_grows(fb, self.findings@, old(self).modules@, fsink, path@, fline); } }
proof { if i >= 1 && secret && rule_reported(fb, old(self).modules@, "JS-SECRET-EXFILTRATION"@, path@, (body@[0]->Expr_0)->Call_2) { lemma_reported_grows(fb, self.findings@, old(self).modules@, "JS-SECRET-EXFILTRATION"@, path@, (body@[0]->Expr_0)->Call_2); } }
                    match pending {
                        Some(mut p) => {
                            p.merge(value);
                            return Some(p);
                        },
                        None => {
                            return Some(value);
                        },
                    }
                },
                Stmt::Branch(condition, yes, no) => {
                    match condition {
                        Expr::Bool(b) => {
                            let branch = if *b { yes } else { no };
                            let outcome = self.run(path, branch, env, depth + 1);
                            proof { if i > 0 && sinks { lemma_reported_grows(fb, self.findings@, old(self).modules@, sink_rule(body@[0]->Expr_0), path@, (body@[0]->Expr_0)->Call_2); } }
proof { if i >= 2 && bound && rule_reported(fb, old(self).modules@, sink_rule(body@[1]->Expr_0), path@, (body@[1]->Expr_0)->Call_2) { lemma_reported_grows(fb, self.findings@, old(self).modules@, sink_rule(body@[1]->Expr_0), path@, (body@[1]->Expr_0)->Call_2); } }
proof { if i >= 1 && through && rule_reported(fb, old(self).modules@, fsink, path@, fline) { lemma_reported_grows(fb, self.findings@, old(self).modules@, fsink, path@, fline); } }
proof { if i >= 1 && secret && rule_reported(fb, old(self).modules@, "JS-SECRET-EXFILTRATION"@, path@, (body@[0]->Expr_0)->Call_2) { lemma_reported_grows(fb, self.findings@, old(self).modules@, "JS-SECRET-EXFILTRATION"@, path@, (body@[0]->Expr_0)->Call_2); } }
                            match outcome {
                                Some(v) => {
                                    return Some(v);
                                },
                                None => {},
                            }
                        },
                        _ => {
                            let mut left = copy_scope(env);
                            let mut right = copy_scope(env);
                            let a = self.run(path, yes, &mut left, depth + 1);
                            let b = self.run(path, no, &mut right, depth + 1);
                            let mut merged = left;
                            while right.len() > 0
                                invariant
                                    true,
                                decreases right.len(),
                            {
                                let (name, value) = right.remove(0);
                                scope_merge(&mut merged, name, value);
                            }
                            *env = merged;
                            match a {
                                Some(a) => merge_pending(&mut pending, a),
                                None => {},
                            }
                            match b {
                                Some(b) => merge_pending(&mut pending, b),
                                None => {},
                            }
                            proof { if i > 0 && sinks { lemma_reported_grows(fb, self.findings@, old(self).modules@, sink_rule(body@[0]->Expr_0), path@, (body@[0]->Expr_0)->Call_2); } }
proof { if i >= 2 && bound && rule_reported(fb, old(self).modules@, sink_rule(body@[1]->Expr_0), path@, (body@[1]->Expr_0)->Call_2) { lemma_reported_grows(fb, self.findings@, old(self).modules@, sink_rule(body@[1]->Expr_0), path@, (body@[1]->Expr_0)->Call_2); } }
proof { if i >= 1 && through && rule_reported(fb, old(self).modules@, fsink, path@, fline) { lemma_reported_grows(fb, self.findings@, old(self).modules@, fsink, path@, fline); } }
proof { if i >= 1 && secret && rule_reported(fb, old(self).modules@, "JS-SECRET-EXFILTRATION"@, path@, (body@[0]->Expr_0)->Call_2) { lemma_reported_grows(fb, self.findings@, old(self).modules@, "JS-SECRET-EXFILTRATION"@, path@, (body@[0]->Expr_0)->Call_2); } }
                            if contains_return(yes) && contains_return(no) {
                                return pending;
                            }
                        },
                    }
                },
                Stmt::Iterate(binding, iterable, loop_body) => {
                    let mut iteration = copy_scope(env);
                    let value = self.eval(path, iterable, env, depth);
                    bind(binding, value, &mut iteration);
                    match self.run(path, loop_body, &mut iteration, depth + 1) {
                        Some(v) => merge_pending(&mut pending, v),
                        None => {},
                    }
                    while iteration.len() > 0
                        invariant
                            true,
                        decreases iteration.len(),
                    {
                        let (name, value) = iteration.remove(0);
                        scope_merge(env, name, value);
                    }
                },
            }
            proof { if i > 0 && sinks { lemma_reported_grows(fb, self.findings@, old(self).modules@, sink_rule(body@[0]->Expr_0), path@, (body@[0]->Expr_0)->Call_2); } }
proof { if i >= 2 && bound && rule_reported(fb, old(self).modules@, sink_rule(body@[1]->Expr_0), path@, (body@[1]->Expr_0)->Call_2) { lemma_reported_grows(fb, self.findings@, old(self).modules@, sink_rule(body@[1]->Expr_0), path@, (body@[1]->Expr_0)->Call_2); } }
proof { if i >= 1 && through && rule_reported(fb, old(self).modules@, fsink, path@, fline) { lemma_reported_grows(fb, self.findings@, old(self).modules@, fsink, path@, fline); } }
proof { if i >= 1 && secret && rule_reported(fb, old(self).modules@, "JS-SECRET-EXFILTRATION"@, path@, (body@[0]->Expr_0)->Call_2) { lemma_reported_grows(fb, self.findings@, old(self).modules@, "JS-SECRET-EXFILTRATION"@, path@, (body@[0]->Expr_0)->Call_2); } }
            i = i + 1;
        }
        pending
    }

    /// Evaluates an expression in a scope.
    #[verifier::loop_isolation(false)]
    fn eval(&mut self, path: &str, expression: &Expr, env: &mut Scope, depth: usize) -> (r: FlowValue)
        requires
            old(self).wf(),
            depth < MAX_CALL_DEPTH,
        ensures
            final(self).wf(),
            old(self).limited ==> final(self).limited,
            final(self).modules == old(self).modules,
            extends(old(self).findings@, final(self).findings@),
            old(self).limited ==> empty_value(r) && *final(self) == *old(self) && *final(env) == *old(env),
            !old(self).limited ==> match *expression {
                Expr::Name(n) => *final(self) == *old(self) && *final(env) == *old(env) && if key_pos(old(env)@, n@, 0) >= 0 {
                    same_value(r, old(env)@[key_pos(old(env)@, n@, 0)].1)
                } else {
                    opt_clone(r.name) == Some(n@) && r.labels@.len() == 0 && r.fields@.len() == 0 && r.literal is None
                },
                Expr::String(t) => *final(self) == *old(self) && *final(env) == *old(env) && r.literal == Some(t)
                    && r.labels@.len() == 0 && r.fields@.len() == 0,
                Expr::Bool(_) => *final(self) == *old(self) && *final(env) == *old(env) && empty_value(r),
                Expr::Unknown => *final(self) == *old(self) && *final(env) == *old(env) && empty_value(r),
                Expr::Call(callee, arguments, line) => *callee is Name ==> {
                    let n = (*callee)->Name_0@;
                    &&& key_pos(old(env)@, n, 0) == -1 && indirect_target(n) is None && n != "Object.assign"@
                        && module_function(old(self).modules@, path@, n) && !final(self).limited
                        && (forall|k: int| 0 <= k < arguments@.len() ==> plain_expr(#[trigger] arguments@[k]))
                        && function_sink(old(self).modules@, path@, old(env)@, module_fn(old(self).modules@, path@, n))
                        ==> rule_reported(final(self).findings@, old(self).modules@,
                            sink_rule(module_fn(old(self).modules@, path@, n).body@[0]->Expr_0), path@,
                            (module_fn(old(self).modules@, path@, n).body@[0]->Expr_0)->Call_2)
                    &&&
                    key_pos(old(env)@, n, 0) == -1 && api_call(old(self).modules@, path@, n) ==> {
                        &&& !process_apis().contains(api_name(n)) && !dynamic_code_apis().contains(api_name(n))
                            && network_apis().contains(api_name(n)) ==> r.labels@.len() == 1 && r.labels@[0].0 == Label::Remote
                        &&& (forall|k: int| 0 <= k < arguments@.len() ==> plain_expr(#[trigger] arguments@[k]))
                            ==> *final(env) == *old(env)
                        &&& !process_apis().contains(api_name(n)) && !dynamic_code_apis().contains(api_name(n))
                            && network_apis().contains(api_name(n))
                            && (forall|k: int| 0 <= k < arguments@.len()
                                ==> plain_expr(#[trigger] arguments@[k]) || env_read(old(env)@, arguments@[k]))
                            && (exists|k: int| 0 <= k < arguments@.len() && env_read(old(env)@, #[trigger] arguments@[k]))
                            ==> rule_reported(final(self).findings@, old(self).modules@, "JS-SECRET-EXFILTRATION"@, path@, line)
                        &&& arguments@.len() > 0 && remote_expr(old(self).modules@, path@, old(env)@, arguments@[0]) ==> {
                            &&& process_apis().contains(api_name(n)) ==> rule_reported(final(self).findings@,
                                old(self).modules@, "JS-REMOTE-PROCESS-EXECUTION"@, path@, line)
                            &&& !process_apis().contains(api_name(n)) && dynamic_code_apis().contains(api_name(n))
                                ==> rule_reported(final(self).findings@, old(self).modules@, "JS-REMOTE-CODE-EXECUTION"@, path@, line)
                        }
                    }
                },
                Expr::Assign(x, _) => key_pos(final(env)@, x@, 0) >= 0
                    && same_value(final(env)@[key_pos(final(env)@, x@, 0)].1, r),
                Expr::Construct(callee, _, _) => *callee is Name ==> {
                    let n = (*callee)->Name_0@;
                    key_pos(old(env)@, n, 0) == -1 && !module_function(old(self).modules@, path@, n) && !relative_import(n)
                        && !process_apis().contains(api_name(n)) && !dynamic_code_apis().contains(api_name(n))
                        && network_apis().contains(api_name(n)) ==> r.labels@.len() == 1 && r.labels@[0].0 == Label::Remote
                },
                Expr::Member(object, property) => (*object matches Expr::Name(n) && n@ == "process"@
                    && key_pos(old(env)@, n@, 0) == -1 && property@ == "env"@) ==> r.labels@.len() == 1
                    && r.labels@[0].0 == Label::EnvSecret && opt_clone(r.name) == Some("process.env"@)
                    && *final(env) == *old(env) && *final(self) == *old(self),
                _ => true,
            },
        decreases MAX_CALL_DEPTH - depth, 1nat, expr_size(*expression),
    {
        if self.limited {
            return FlowValue::empty();
        }
        let file_path = self.file_path(path);
        match expression {
            Expr::Name(name) => {
                match scope_get(env, name.as_str()) {
                    Some(v) => v,
                    None => FlowValue::named(name.clone()),
                }
            },
            Expr::String(text) => FlowValue::literal_text(text.clone()),
            Expr::Bool(_) => FlowValue::empty(),
            Expr::Member(object, property) => {
                let base = self.eval(path, object, env, depth);
                let receiver: Option<String> = match &base.name {
                    Some(n) => Some(n.clone()),
                    None => match &**object {
                        Expr::Name(n) => Some(n.clone()),
                        _ => None,
                    },
                };
                let full_name: Option<String> = match &receiver {
                    Some(r) => Some(cat3(r.as_str(), ".", property.as_str())),
                    None => if base.labels.len() > 0 { Some(cat2("remote.", property.as_str())) } else { None },
                };
                proof {
                    reveal_strlit("process");
                    reveal_strlit("env");
                    reveal_strlit(".");
                    reveal_strlit("process.env");
                    let ghost ob: Expr = **object;
                    if ob matches Expr::Name(n) && n@ == "process"@ && key_pos(old(env)@, n@, 0) == -1
                        && property@ == "env"@ {
                        assert(opt_clone(receiver) == Some("process"@));
                        assert("process"@ + "."@ + "env"@ =~= "process.env"@);
                        assert(opt_clone(full_name) == Some("process.env"@));
                    }
                }
                if is_name(&full_name, "process.env") {
                    let mut value = FlowValue::labeled(Label::EnvSecret, cat3("source: ", file_path.as_str(), " process.env"));
                    value.name = full_name;
                    return value;
                }
                if is_name(&base.name, "process.env") && non_secret_environment_key(property.as_str()) {
                    return FlowValue::named(cat2("process.env.", property.as_str()));
                }
                let mut value = match base.field(property.as_str()) {
                    Some(f) => f,
                    None => base,
                };
                if value.labels.len() > 0 {
                    let shown = match &full_name { Some(n) => n.clone(), None => property.clone() };
                    let mut step = cat2("property: ", file_path.as_str());
                    crate::text::push_str(&mut step, " ");
                    crate::text::push_str(&mut step, shown.as_str());
                    value = value.propagate(step.as_str());
                }
                value.name = full_name;
                value
            },
            Expr::Object(properties) => {
                let mut object = FlowValue::empty();
                let mut k: usize = 0;
                while k < properties.len()
                    invariant
                        k <= properties@.len(),
                        self.wf(),
                        extends(old(self).findings@, self.findings@),
                self.modules == old(self).modules,
                        depth < MAX_CALL_DEPTH,
                        *expression == Expr::Object(*properties),
                    decreases properties.len() - k,
                {
                    proof { lemma_props_size(properties@, k as int); }
                    let field = self.eval(path, &properties[k].1, env, depth);
                    if crate::text::str_eq(properties[k].0.as_str(), "*") {
                        let mut f: usize = 0;
                        while f < field.fields.len()
                            invariant
                                f <= field.fields@.len(),
                            decreases field.fields.len() - f,
                        {
                            object.set_field(field.fields[f].0.clone(), field.fields[f].1.copy());
                            f = f + 1;
                        }
                    } else {
                        object.set_field(properties[k].0.clone(), field.copy());
                    }
                    object.merge(field);
                    k = k + 1;
                }
                object
            },
            Expr::Array(items) => {
                let mut value = FlowValue::empty();
                let mut k: usize = 0;
                while k < items.len()
                    invariant
                        k <= items@.len(),
                        self.wf(),
                        extends(old(self).findings@, self.findings@),
                self.modules == old(self).modules,
                        depth < MAX_CALL_DEPTH,
                        *expression == Expr::Array(*items),
                    decreases items.len() - k,
                {
                    proof { lemma_exprs_size(items@, k as int); }
                    let item = self.eval(path, &items[k], env, depth);
                    value.merge(item.copy());
                    value.set_field(index_text(k), item);
                    k = k + 1;
                }
                value.name = None;
                value.literal = None;
                value.path_hint = None;
                value.path_key = None;
                value
            },
            Expr::Combine(parts) => {
                let mut combined = FlowValue::empty();
                let mut literal: Option<String> = Some(String::new());
                let mut path_hint = String::new();
                let mut k: usize = 0;
                while k < parts.len()
                    invariant
                        k <= parts@.len(),
                        self.wf(),
                        extends(old(self).findings@, self.findings@),
                self.modules == old(self).modules,
                        depth < MAX_CALL_DEPTH,
                        *expression == Expr::Combine(*parts),
                    decreases parts.len() - k,
                {
                    proof { lemma_exprs_size(parts@, k as int); }
                    let part = self.eval(path, &parts[k], env, depth);
                    literal = match (literal, &part.literal) {
                        (Some(mut buffer), Some(text)) => {
                            crate::text::push_str(&mut buffer, text.as_str());
                            Some(buffer)
                        },
                        _ => None,
                    };
                    match &part.literal {
                        Some(text) => crate::text::push_str(&mut path_hint, text.as_str()),
                        None => match &part.path_hint {
                            Some(text) => crate::text::push_str(&mut path_hint, text.as_str()),
                            None => {},
                        },
                    }
                    combined.merge(part);
                    k = k + 1;
                }
                let empty_hint = path_hint.as_str().len() == 0;
                combined.literal = literal;
                if combined.literal.is_none() && !empty_hint {
                    combined.path_hint = Some(path_hint);
                }
                combined
            },
            Expr::Sequence(parts) => {
                let mut value = FlowValue::empty();
                let mut k: usize = 0;
                while k < parts.len()
                    invariant
                        k <= parts@.len(),
                        self.wf(),
                        extends(old(self).findings@, self.findings@),
                self.modules == old(self).modules,
                        depth < MAX_CALL_DEPTH,
                        *expression == Expr::Sequence(*parts),
                    decreases parts.len() - k,
                {
                    proof { lemma_exprs_size(parts@, k as int); }
                    value = self.eval(path, &parts[k], env, depth);
                    k = k + 1;
                }
                value
            },
            Expr::Assign(name, right) => {
                let value = self.eval(path, right, env, depth);
                let stored = value.copy();
                let key = name.clone();
                let ghost before = env@;
                let ghost entry = (key, stored);
                scope_insert(env, key, stored);
                proof {
                    let p = key_pos(before, name@, 0);
                    lemma_key_pos(before, name@, 0);
                    if p >= 0 {
                        lemma_key_pos_update(before, p, entry, name@, 0);
                    } else {
                        lemma_key_pos_push(before, entry, name@, 0);
                    }
                }
                value
            },
            Expr::Call(callee, arguments, line) => {
                let function = self.eval(path, callee, env, depth);
                let mut args: Vec<FlowValue> = Vec::new();
                let mut k: usize = 0;
                while k < arguments.len()
                    invariant
                        k <= arguments@.len(),
                        args@.len() == k,
                        self.wf(),
                        extends(old(self).findings@, self.findings@),
                self.modules == old(self).modules,
                        depth < MAX_CALL_DEPTH,
                        *expression == Expr::Call(*callee, *arguments, *line),
                        **callee is Name && k == 0 ==> *env == *old(env) && self.limited == old(self).limited,
                        **callee is Name && (forall|j: int| 0 <= j < k ==> plain_expr(#[trigger] arguments@[j])) ==> *env == *old(env),
                        **callee is Name && !old(self).limited && (forall|j: int| 0 <= j < k
                            ==> plain_expr(#[trigger] arguments@[j]) || env_read(old(env)@, arguments@[j])) ==> *env == *old(env)
                            && self.limited == old(self).limited
                            && forall|j: int| 0 <= j < k && env_read(old(env)@, #[trigger] arguments@[j])
                                ==> route_from(args@[j].labels@, secret_labels(), 0) is Some,
                        **callee is Name && k > 0 && remote_expr(old(self).modules@, path@, old(env)@, arguments@[0])
                            ==> route_from(args@[0].labels@, remote_labels(), 0) is Some,
                    decreases arguments.len() - k,
                {
                    proof { lemma_exprs_size(arguments@, k as int); }
                    let ghost env_before = *env;
                    let ghost limited_before = self.limited;
                    let a = self.eval(path, &arguments[k], env, depth);
                    proof {
                        if **callee is Name && k == 0 && remote_expr(old(self).modules@, path@, old(env)@, arguments@[0]) {
                            if arguments@[0] is Name {
                                let x = arguments@[0]->Name_0@;
                                lemma_same_route(a.labels@, env_before@[key_pos(env_before@, x, 0)].1.labels@, remote_labels(), 0);
                            } else if arguments@[0] is Call {
                                assert(a.labels@.len() == 1 && a.labels@[0].0 == Label::Remote);
                                assert(label_pos(a.labels@, Label::DecodedRemote, 1) == -1);
                                assert(label_pos(a.labels@, Label::DecodedRemote, 0) == -1);
                                assert(label_pos(a.labels@, Label::Remote, 0) == 0);
                                assert(route_from(a.labels@, remote_labels(), 1) is Some);
                            }
                        }
                        if **callee is Name && !old(self).limited && env_read(old(env)@, arguments@[k as int])
                            && (forall|j: int| 0 <= j < k ==> plain_expr(#[trigger] arguments@[j]) || env_read(old(env)@, arguments@[j])) {
                            assert(env_before == *old(env) && !limited_before);
                            assert(a.labels@.len() == 1 && a.labels@[0].0 == Label::EnvSecret);
                            assert(label_pos(a.labels@, Label::EnvSecret, 0) == 0);
                            assert(route_from(a.labels@, secret_labels(), 0) is Some);
                        }
                    }
                    args.push(a);
                    k = k + 1;
                }
                proof {
                    if **callee is Name && !old(self).limited && (forall|j: int| 0 <= j < arguments@.len()
                        ==> plain_expr(#[trigger] arguments@[j]) || env_read(old(env)@, arguments@[j]))
                        && (exists|j: int| 0 <= j < arguments@.len() && env_read(old(env)@, #[trigger] arguments@[j])) {
                        let j0 = choose|j: int| 0 <= j < arguments@.len() && env_read(old(env)@, #[trigger] arguments@[j]);
                        lemma_args_route_some(args@, secret_labels(), 0, j0);
                    }
                }
                self.call(path, &**callee, arguments, &function, args, *line, env, depth)
            },
            Expr::Construct(callee, arguments, line) => {
                let constructor = self.eval(path, callee, env, depth);
                let mut args: Vec<FlowValue> = Vec::new();
                let mut k: usize = 0;
                while k < arguments.len()
                    invariant
                        k <= arguments@.len(),
                        self.wf(),
                        extends(old(self).findings@, self.findings@),
                self.modules == old(self).modules,
                        depth < MAX_CALL_DEPTH,
                        *expression == Expr::Construct(*callee, *arguments, *line),
                    decreases arguments.len() - k,
                {
                    proof { lemma_exprs_size(arguments@, k as int); }
                    let a = self.eval(path, &arguments[k], env, depth);
                    args.push(a);
                    k = k + 1;
                }
                let name = match &constructor.name { Some(n) => n.clone(), None => String::new() };
                let value = self.invoke(path, name.as_str(), args, *line, env, depth);
                if value.name.is_none() && value.labels.len() == 0 && value.fields.len() == 0 {
                    FlowValue::named(name)
                } else {
                    value
                }
            },
            Expr::Then(receiver, parameter, body) => {
                let value = self.eval(path, receiver, env, depth);
                let mut scope = copy_scope(env);
                bind(parameter, value, &mut scope);
                match self.run(path, body, &mut scope, depth + 1) {
                    Some(v) => v,
                    None => FlowValue::empty(),
                }
            },
            Expr::Message(receiver, parameter, body, event) => {
                let value = self.eval(path, receiver, env, depth);
                let sources = ["WebSocket", "globalThis.WebSocket", "window.WebSocket", "EventSource",
                    "globalThis.EventSource", "window.EventSource", "ws", "http.response", "network.socket",
                    "socket.io"];
                if !name_in(&value.name, &sources) {
                    return FlowValue::empty();
                }
                let stream = is_name(&value.name, "http.response") || is_name(&value.name, "network.socket");
                let key_name = match &**receiver {
                    Expr::Name(n) => n.clone(),
                    _ => match &value.name { Some(n) => n.clone(), None => String::new() },
                };
                let stream_data = stream && crate::text::str_eq(event.as_str(), "data");
                let stream_end = stream && crate::text::str_eq(event.as_str(), "end");
                let mut scope = copy_scope(env);
                if stream_end {
                    match self.stream_index(path, key_name.as_str()) {
                        Some(si) => {
                            let chunks = copy_scope(&self.stream_data[si].1);
                            let mut c: usize = 0;
                            while c < chunks.len()
                                invariant
                                    c <= chunks@.len(),
                                decreases chunks.len() - c,
                            {
                                if scope_index(&scope, chunks[c].0.as_str()).is_some() {
                                    scope_merge(&mut scope, chunks[c].0.clone(), chunks[c].1.copy());
                                }
                                c = c + 1;
                            }
                        },
                        None => {},
                    }
                }
                bind(parameter, value, &mut scope);
                let result = self.run(path, body, &mut scope, depth + 1);
                if stream_data {
                    let si = match self.stream_index(path, key_name.as_str()) {
                        Some(si) => si,
                        None => {
                            self.stream_data.push(((crate::text::owned(path), key_name.clone()), Vec::new()));
                            self.stream_data.len() - 1
                        },
                    };
                    let ((p, k), mut chunks) = self.stream_data.remove(si);
                    let mut c: usize = 0;
                    while c < scope.len()
                        invariant
                            c <= scope@.len(),
                        decreases scope.len() - c,
                    {
                        if scope_index(env, scope[c].0.as_str()).is_some() {
                            scope_merge(&mut chunks, scope[c].0.clone(), scope[c].1.copy());
                        }
                        c = c + 1;
                    }
                    self.stream_data.insert(si, ((p, k), chunks));
                }
                match result {
                    Some(v) => v,
                    None => FlowValue::empty(),
                }
            },
            Expr::Unknown => FlowValue::empty(),
        }
    }

    fn stream_index(&self, path: &str, name: &str) -> (r: Option<usize>)
        ensures
            match r {
                Some(i) => i < self.stream_data@.len() && i as int == stream_pos(self.stream_data@, path@, name@, 0),
                None => stream_pos(self.stream_data@, path@, name@, 0) == -1,
            },
    {
        let mut i: usize = 0;
        while i < self.stream_data.len()
            invariant
                i <= self.stream_data@.len(),
                stream_pos(self.stream_data@, path@, name@, 0) == stream_pos(self.stream_data@, path@, name@, i as int),
            decreases self.stream_data.len() - i,
        {
            if crate::text::str_eq(self.stream_data[i].0.0.as_str(), path)
                && crate::text::str_eq(self.stream_data[i].0.1.as_str(), name)
            {
                return Some(i);
            }
            i = i + 1;
        }
        None
    }
}


/// The first function of the name in a module's lowered form.
fn function_index(functions: &Vec<(String, Function)>, name: &str) -> (r: Option<usize>)
    ensures
        match r {
            Some(i) => i < functions@.len() && i as int == key_pos(functions@, name@, 0),
            None => key_pos(functions@, name@, 0) == -1,
        },
{
    let mut i: usize = 0;
    while i < functions.len()
        invariant
            i <= functions@.len(),
            key_pos(functions@, name@, 0) == key_pos(functions@, name@, i as int),
        decreases functions.len() - i,
    {
        if crate::text::str_eq(functions[i].0.as_str(), name) {
            return Some(i);
        }
        i = i + 1;
    }
    None
}

fn lookup_pair<'b>(entries: &'b Vec<(String, String)>, key: &str) -> (r: Option<&'b String>)
    ensures
        match r {
            Some(v) => key_pos(entries@, key@, 0) >= 0 && *v == entries@[key_pos(entries@, key@, 0)].1,
            None => key_pos(entries@, key@, 0) == -1,
        },
{
    let mut i: usize = 0;
    while i < entries.len()
        invariant
            i <= entries@.len(),
            key_pos(entries@, key@, 0) == key_pos(entries@, key@, i as int),
        decreases entries.len() - i,
    {
        if crate::text::str_eq(entries[i].0.as_str(), key) {
            return Some(&entries[i].1);
        }
        i = i + 1;
    }
    None
}

fn lookup_triple<'b>(entries: &'b Vec<(String, (String, String))>, key: &str) -> (r: Option<&'b (String, String)>)
    ensures
        match r {
            Some(v) => key_pos(entries@, key@, 0) >= 0 && *v == entries@[key_pos(entries@, key@, 0)].1,
            None => key_pos(entries@, key@, 0) == -1,
        },
{
    let mut i: usize = 0;
    while i < entries.len()
        invariant
            i <= entries@.len(),
            key_pos(entries@, key@, 0) == key_pos(entries@, key@, i as int),
        decreases entries.len() - i,
    {
        if crate::text::str_eq(entries[i].0.as_str(), key) {
            return Some(&entries[i].1);
        }
        i = i + 1;
    }
    None
}

/// The first `.` of `s` splits it in two.
fn split_first_dot(s: &str) -> (r: Option<(String, String)>)
    ensures
        match r {
            Some((a, b)) => exists|i: int| 0 <= i < s@.len() && s@[i] == '.'
                && (forall|j: int| 0 <= j < i ==> s@[j] != '.')
                && a@ == s@.subrange(0, i) && b@ == s@.subrange(i + 1, s@.len() as int),
            None => forall|j: int| 0 <= j < s@.len() ==> s@[j] != '.',
        },
{
    let v = chars_of(s);
    let mut i: usize = 0;
    while i < v.len()
        invariant
            i <= v@.len(),
            v@ == s@,
            forall|j: int| 0 <= j < i ==> v@[j] != '.',
        decreases v.len() - i,
    {
        if v[i] == '.' {
            return Some((crate::text::string_from_range(&v, 0, i), crate::text::string_from_range(&v, i + 1, v.len())));
        }
        i = i + 1;
    }
    None
}

/// The text before the last `.` of `s`.
fn before_last_dot(s: &str) -> (r: Option<String>)
    ensures
        match r {
            Some(x) => last_index_of(s@, '.') >= 0 && x@ == s@.take(last_index_of(s@, '.')),
            None => last_index_of(s@, '.') == -1,
        },
{
    let v = chars_of(s);
    match rfind_char(&v, '.') {
        Some(i) => Some(crate::text::string_from_range(&v, 0, i)),
        None => None,
    }
}

impl<'a> Evaluator<'a> {
    /// The function that a module exports under a name, following re-exports.
    #[verifier::loop_isolation(false)]
    fn exported_function(&mut self, id: &str, exported: &str) -> (r: Option<(usize, String, usize)>)
        requires
            old(self).wf(),
        ensures
            final(self).wf(),
            old(self).limited ==> final(self).limited,
            match r {
                Some((m, _, f)) => m < final(self).modules@.len() && f < final(self).modules@[m as int].flow.functions@.len(),
                None => true,
            },
            match r {
                Some((m, n, f)) => export_target(old(self).modules@, crate::text::vecs_view(old(self).paths@), id@,
                    if exported@ == "*"@ { "default"@ } else { exported@ }, 0) == Some((m as int, n@, f as int)),
                None => export_target(old(self).modules@, crate::text::vecs_view(old(self).paths@), id@,
                    if exported@ == "*"@ { "default"@ } else { exported@ }, 0) is None,
            },
            final(self).modules == old(self).modules,
            final(self).paths == old(self).paths,
            final(self).findings == old(self).findings,
            final(self).seen == old(self).seen,
            final(self).steps == old(self).steps,
            final(self).reachable == old(self).reachable,
            final(self).written == old(self).written,
            final(self).stream_data == old(self).stream_data,
    {
        let modules = self.modules;
        let mut current = crate::text::owned(id);
        let mut name = if crate::text::str_eq(exported, "*") { crate::text::owned("default") } else { crate::text::owned(exported) };
        let mut round: usize = 0;
        let ghost target = export_target(old(self).modules@, crate::text::vecs_view(old(self).paths@), id@,
            if exported@ == "*"@ { "default"@ } else { exported@ }, 0);
        while round < MAX_CALL_DEPTH
            invariant
                round <= MAX_CALL_DEPTH,
                self.wf(),
                self.modules == old(self).modules,
                self.modules == modules,
                self == old(self),
                target == export_target(modules@, crate::text::vecs_view(self.paths@), current@, name@, round as nat),
            decreases MAX_CALL_DEPTH - round,
        {
            let ghost cur0 = current@;
            let ghost name0 = name@;
            let ghost paths = crate::text::vecs_view(self.paths@);
            let m = match self.module_by_id(current.as_str()) {
                Some(m) => m,
                None => return None,
            };
            let flow = &modules[m].flow;
            let ghost ep = key_pos(flow.exports@, name0, 0);
            let ghost fp = if ep >= 0 { key_pos(flow.functions@, flow.exports@[ep].1@, 0) } else { -1 };
            match lookup_pair(&flow.exports, name.as_str()) {
                Some(local) => match function_index(&flow.functions, local.as_str()) {
                    Some(f) => return Some((m, local.clone(), f)),
                    None => {},
                },
                None => {},
            }
            assert(fp < 0);
            let ghost d = dot_from(name0, 0);
            match split_first_dot(name.as_str()) {
                Some((object, method)) => {
                    proof {
                        let i = choose|i: int| 0 <= i < name0.len() && name0[i] == '.'
                            && (forall|j: int| 0 <= j < i ==> name0[j] != '.')
                            && object@ == name0.subrange(0, i) && method@ == name0.subrange(i + 1, name0.len() as int);
                        lemma_dot_from(name0, 0, i);
                        assert(object@ == name0.take(d));
                        assert(method@ == name0.skip(d + 1));
                    }
                    let local = match lookup_pair(&flow.exports, object.as_str()) {
                        Some(l) => l.clone(),
                        None => object,
                    };
                    let function_name = cat3(local.as_str(), ".", method.as_str());
                    match function_index(&flow.functions, function_name.as_str()) {
                        Some(f) => return Some((m, function_name, f)),
                        None => {},
                    }
                },
                None => {
                    proof {
                        lemma_dot_from(name0, 0, name0.len() as int);
                    }
                },
            }
            let reexport: (String, String) = match lookup_triple(&flow.reexports, name.as_str()) {
                Some(pair) => (pair.0.clone(), pair.1.clone()),
                None => {
                    if crate::text::str_eq(name.as_str(), "default") {
                        return None;
                    }
                    match lookup_triple(&flow.reexports, "*") {
                        Some(pair) => (pair.0.clone(), name.clone()),
                        None => return None,
                    }
                },
            };
            let target = match resolve_import(&chars_of(modules[m].path.as_str()), &chars_of(reexport.0.as_str()), &self.paths) {
                Some(t) => t,
                None => return None,
            };
            let t = match self.module_by_path(&target) {
                Some(t) => t,
                None => return None,
            };
            current = modules[t].id.clone();
            name = reexport.1;
            assert(export_target(modules@, paths, cur0, name0, round as nat)
                == export_target(modules@, paths, current@, name@, (round + 1) as nat));
            round = round + 1;
        }
        self.limited = true;
        None
    }

    /// Runs a function with arguments in a scope.
    #[verifier::loop_isolation(false)]
    fn call_function(&mut self, path: &str, name: &str, module: usize, function: usize, args: Vec<FlowValue>, scope: Scope, depth: usize) -> (r: FlowValue)
        requires
            old(self).wf(),
            depth <= MAX_CALL_DEPTH,
            module < old(self).modules@.len(),
            function < old(self).modules@[module as int].flow.functions@.len(),
        ensures
            final(self).wf(),
            old(self).limited ==> final(self).limited,
            final(self).modules == old(self).modules,
            extends(old(self).findings@, final(self).findings@),
            !old(self).limited && !final(self).limited
                && function_sink(old(self).modules@, path@, scope@, old(self).modules@[module as int].flow.functions@[function as int].1)
                ==> rule_reported(final(self).findings@, old(self).modules@,
                    sink_rule(old(self).modules@[module as int].flow.functions@[function as int].1.body@[0]->Expr_0), path@,
                    (old(self).modules@[module as int].flow.functions@[function as int].1.body@[0]->Expr_0)->Call_2),
        decreases MAX_CALL_DEPTH - depth, 2nat, 0nat,
    {
        let modules = self.modules;
        let f = &modules[module].flow.functions[function].1;
        let ghost sinks = function_sink(old(self).modules@, path@, scope@, *f);
        let ghost e = f.body@[0]->Expr_0;
        let ghost n = (*(e->Call_0))->Name_0@;
        let ghost g = (*((e->Call_1)@[0]->Call_0))->Name_0@;
        let mut scope = scope;
        let ghost s0 = scope@;
        match before_last_dot(name) {
            Some(receiver) => {
                let this_name = crate::text::owned("this");
                proof { reveal_strlit("this"); }
                let value = FlowValue::named(receiver);
                let ghost entry = (this_name, value);
                scope_insert(&mut scope, this_name, value);
                proof {
                    if sinks {
                        let p = key_pos(s0, "this"@, 0);
                        lemma_key_pos(s0, "this"@, 0);
                        if p >= 0 {
                            lemma_key_pos_update(s0, p, entry, n, 0);
                            lemma_key_pos_update(s0, p, entry, g, 0);
                        } else {
                            lemma_key_pos_push(s0, entry, n, 0);
                            lemma_key_pos_push(s0, entry, g, 0);
                        }
                    }
                }
            },
            None => {},
        }
        let mut i: usize = 0;
        while i < f.params.len()
            invariant
                i <= f.params@.len(),
                sinks ==> key_pos(scope@, n, 0) == -1 && key_pos(scope@, g, 0) == -1,
            decreases f.params.len() - i,
        {
            let argument = if i < args.len() { args[i].copy() } else { FlowValue::empty() };
            let ghost before = scope@;
            bind(&f.params[i], argument, &mut scope);
            proof {
                if sinks {
                    lemma_key_pos_keys(before, n);
                    lemma_key_pos_keys(before, g);
                    lemma_key_pos_keys(scope@, n);
                    lemma_key_pos_keys(scope@, g);
                    assert(!binds(f.params@[i as int], n) && !binds(f.params@[i as int], g));
                }
            }
            i = i + 1;
        }
        assert(sinks ==> starts_with_remote_sink(old(self).modules@, path@, scope@, f.body@));
        let returned = match self.run(path, &f.body, &mut scope, depth) {
            Some(v) => v,
            None => FlowValue::empty(),
        };
        let file_path = self.file_path(path);
        let mut step = cat2("return: ", file_path.as_str());
        crate::text::push_str(&mut step, " ");
        crate::text::push_str(&mut step, name);
        returned.propagate(step.as_str())
    }
}


/// The value's literal text or path hint.
fn text_or_hint(v: &FlowValue) -> (r: String)
    ensures
        r@ == match v.literal {
            Some(l) => l@,
            None => match v.path_hint {
                Some(h) => h@,
                None => Seq::<char>::empty(),
            },
        },
{
    match &v.literal {
        Some(l) => l.clone(),
        None => match &v.path_hint {
            Some(h) => h.clone(),
            None => String::new(),
        },
    }
}

/// The text without its leading and trailing slashes.
pub open spec fn trimmed_slashes(s: Seq<char>, lo: int, hi: int) -> bool {
    &&& 0 <= lo <= hi <= s.len()
    &&& forall|j: int| 0 <= j < lo ==> s[j] == '/'
    &&& forall|j: int| hi <= j < s.len() ==> s[j] == '/'
    &&& lo < hi ==> s[lo] != '/' && s[hi - 1] != '/'
}

/// The path segment that `trim_matches('/')` leaves.
fn trim_slashes(s: &str) -> (r: String)
    ensures
        exists|lo: int, hi: int| trimmed_slashes(s@, lo, hi) && r@ == s@.subrange(lo, hi),
{
    let v = chars_of(s);
    let n = v.len();
    let mut lo: usize = 0;
    while lo < n && v[lo] == '/'
        invariant
            lo <= n == v@.len(),
            v@ == s@,
            forall|j: int| 0 <= j < lo ==> v@[j] == '/',
        decreases n - lo,
    {
        lo = lo + 1;
    }
    let mut hi = n;
    while hi > lo && v[hi - 1] == '/'
        invariant
            lo <= hi <= n == v@.len(),
            v@ == s@,
            forall|j: int| hi <= j < n ==> v@[j] == '/',
        decreases hi - lo,
    {
        hi = hi - 1;
    }
    let r = crate::text::string_from_range(&v, lo, hi);
    assert(trimmed_slashes(s@, lo as int, hi as int));
    r
}

fn join_strings(parts: &Vec<String>, sep: &str) -> (r: String)
    ensures
        r@ == crate::text::join(strings_view(parts@), sep@),
{
    let mut out = String::new();
    let mut i: usize = 0;
    while i < parts.len()
        invariant
            i <= parts@.len(),
            out@ == crate::text::join(strings_view(parts@).subrange(0, i as int), sep@),
        decreases parts.len() - i,
    {
        if i > 0 {
            crate::text::push_str(&mut out, sep);
        }
        crate::text::push_str(&mut out, parts[i].as_str());
        let ghost ev = strings_view(parts@);
        assert(ev.subrange(0, i + 1).drop_last() =~= ev.subrange(0, i as int));
        assert(out@ =~= crate::text::join(ev.subrange(0, i + 1), sep@));
        i = i + 1;
    }
    assert(strings_view(parts@).subrange(0, parts@.len() as int) =~= strings_view(parts@));
    out
}

impl<'a> Evaluator<'a> {
    /// The call forms that update a scope entry in place, then the ordinary call.
    #[verifier::loop_isolation(false)]
    fn call(&mut self, path: &str, callee: &Expr, arguments: &Vec<Expr>, function: &FlowValue, args: Vec<FlowValue>, line: u64, env: &mut Scope, depth: usize) -> (r: FlowValue)
        requires
            old(self).wf(),
            depth < MAX_CALL_DEPTH,
        ensures
            final(self).wf(),
            old(self).limited ==> final(self).limited,
            final(self).modules == old(self).modules,
            extends(old(self).findings@, final(self).findings@),
            *callee is Name && function.name is Some && api_call(old(self).modules@, path@, function.name->Some_0@)
                ==> api_call_effects(final(self).findings@, old(self).modules@, path@, function.name->Some_0@, args@, line, r)
                && *final(env) == *old(env),
            *callee is Name && function.name is Some && indirect_target(function.name->Some_0@) is None
                && function.name->Some_0@ != "Object.assign"@
                && module_function(old(self).modules@, path@, function.name->Some_0@)
                && !old(self).limited && !final(self).limited
                && function_sink(old(self).modules@, path@, old(env)@, module_fn(old(self).modules@, path@, function.name->Some_0@))
                ==> rule_reported(final(self).findings@, old(self).modules@,
                    sink_rule(module_fn(old(self).modules@, path@, function.name->Some_0@).body@[0]->Expr_0), path@,
                    (module_fn(old(self).modules@, path@, function.name->Some_0@).body@[0]->Expr_0)->Call_2),
        decreases MAX_CALL_DEPTH - depth, 0nat, 1nat,
    {
        let file_path = self.file_path(path);
        let mut args = args;
        let indirect_api = match &function.name {
            Some(n) => indirect_api_target(&chars_of(n.as_str())).is_some(),
            None => false,
        };
        let callee_member = match callee { Expr::Member(_, _) => true, _ => false };
        if !indirect_api && callee_member && function.labels.len() > 0 {
            args.insert(0, function.copy());
        }
        if indirect_api && args.len() > 0 {
            args.remove(0);
        }
        if is_name(&function.name, "Object.assign") && arguments.len() > 0 {
            match &arguments[0] {
                Expr::Name(target_name) => {
                    let mut target = match scope_get(env, target_name.as_str()) {
                        Some(t) => t,
                        None => if args.len() > 0 { args[0].copy() } else { FlowValue::empty() },
                    };
                    let mut k: usize = 1;
                    while k < args.len()
                        invariant
                            1 <= k,
                        decreases args.len() - k,
                    {
                        target.merge(args[k].copy());
                        k = k + 1;
                    }
                    target.literal = None;
                    target.path_hint = None;
                    target.path_key = None;
                    let step = located("transform: ", file_path.as_str(), line, "Object.assign");
                    target = target.propagate(step.as_str());
                    scope_insert(env, target_name.clone(), target.copy());
                    return target;
                },
                _ => {},
            }
        }
        match callee {
            Expr::Member(object, method) => {
                match &**object {
                    Expr::Name(name) => {
                        let push = crate::text::str_eq(method.as_str(), "push");
                        let unshift = crate::text::str_eq(method.as_str(), "unshift");
                        if push || unshift {
                            let mut array = match scope_get(env, name.as_str()) { Some(a) => a, None => FlowValue::empty() };
                            let skip: usize = if function.labels.len() > 0 { 1 } else { 0 };
                            let mut values: Vec<FlowValue> = Vec::new();
                            let mut k: usize = skip;
                            while k < args.len()
                                decreases args.len() - k,
                            {
                                values.push(args[k].copy());
                                k = k + 1;
                            }
                            if unshift {
                                let offset = values.len();
                                let mut renumbered: Vec<(String, FlowValue, String)> = Vec::new();
                                while array.fields.len() > 0
                                    decreases array.fields.len(),
                                {
                                    let (key, value) = array.fields.pop().unwrap();
                                    let new_key = match parse_index(key.as_str()) {
                                        Some(index) => index_text(index.wrapping_add(offset)),
                                        None => key.clone(),
                                    };
                                    let mut found: Option<usize> = None;
                                    let mut q: usize = 0;
                                    while q < renumbered.len()
                                        invariant
                                            q <= renumbered@.len(),
                                            found.is_none() || found.unwrap() < renumbered@.len(),
                                        decreases renumbered.len() - q,
                                    {
                                        if found.is_none() && crate::text::str_eq(renumbered[q].0.as_str(), new_key.as_str()) {
                                            found = Some(q);
                                        }
                                        q = q + 1;
                                    }
                                    match found {
                                        Some(q) => {
                                            if crate::text::chars_lt(&chars_of(renumbered[q].2.as_str()), &chars_of(key.as_str())) {
                                                renumbered.remove(q);
                                                renumbered.insert(q, (new_key, value, key));
                                            }
                                        },
                                        None => renumbered.push((new_key, value, key)),
                                    }
                                }
                                while renumbered.len() > 0
                                    decreases renumbered.len(),
                                {
                                    let (key, value, _) = renumbered.pop().unwrap();
                                    array.fields.push((key, value));
                                }
                            }
                            let start: usize = if push {
                                let mut best: Option<usize> = None;
                                let mut f: usize = 0;
                                while f < array.fields.len()
                                    decreases array.fields.len() - f,
                                {
                                    match parse_index(array.fields[f].0.as_str()) {
                                        Some(i) => {
                                            best = match best { Some(b) => if i > b { Some(i) } else { Some(b) }, None => Some(i) };
                                        },
                                        None => {},
                                    }
                                    f = f + 1;
                                }
                                match best { Some(b) => b.wrapping_add(1), None => 0 }
                            } else {
                                0
                            };
                            let mut offset_i: usize = 0;
                            while values.len() > 0
                                decreases values.len(),
                            {
                                let value = values.remove(0);
                                array.merge(value.copy());
                                let index = if push { start.wrapping_add(offset_i) } else { offset_i };
                                array.set_field(index_text(index), value);
                                offset_i = offset_i.wrapping_add(1);
                            }
                            array.name = None;
                            array.literal = None;
                            array.path_hint = None;
                            array.path_key = None;
                            array.stream_reader = false;
                            scope_insert(env, name.clone(), array);
                            return FlowValue::empty();
                        }
                        if crate::text::str_eq(method.as_str(), "append") || crate::text::str_eq(method.as_str(), "set")
                            || crate::text::str_eq(method.as_str(), "add")
                        {
                            let mut value = match scope_get(env, name.as_str()) { Some(v) => v, None => FlowValue::empty() };
                            while args.len() > 0
                                decreases args.len(),
                            {
                                let a = args.remove(0);
                                value.merge(a);
                            }
                            value.literal = None;
                            value.path_hint = None;
                            value.path_key = None;
                            let shown = match &function.name { Some(n) => n.clone(), None => method.clone() };
                            let step = located("container update: ", file_path.as_str(), line, shown.as_str());
                            value = value.propagate(step.as_str());
                            scope_insert(env, name.clone(), value);
                            return FlowValue::empty();
                        }
                    },
                    _ => {},
                }
            },
            _ => {},
        }
        let name = match &function.name { Some(n) => n.clone(), None => String::new() };
        self.invoke(path, name.as_str(), args, line, env, depth)
    }
}


fn first_copy(args: &Vec<FlowValue>) -> (r: FlowValue)
    ensures
        args@.len() > 0 ==> same_value(r, args@[0]),
        args@.len() == 0 ==> empty_value(r),
{
    if args.len() > 0 { args[0].copy() } else { FlowValue::empty() }
}

/// The route of the first argument, from the `i`-th on, that carries one of
/// the labels.
pub open spec fn args_route(args: Seq<FlowValue>, labels: Seq<Label>, i: int) -> Option<Seq<Seq<char>>>
    decreases args.len() - i,
{
    if i < 0 || i >= args.len() {
        None
    } else if route_from(args[i].labels@, labels, 0) is Some {
        route_from(args[i].labels@, labels, 0)
    } else {
        args_route(args, labels, i + 1)
    }
}

fn first_with_label(args: &Vec<FlowValue>, labels: &[Label]) -> (r: Option<Vec<String>>)
    ensures
        match r {
            Some(route) => args_route(args@, labels@, 0) == Some(strings_view(route@)),
            None => args_route(args@, labels@, 0) is None,
        },
{
    let mut i: usize = 0;
    while i < args.len()
        invariant
            i <= args@.len(),
            args_route(args@, labels@, 0) == args_route(args@, labels@, i as int),
        decreases args.len() - i,
    {
        match args[i].route_of(labels) {
            Some(r) => return Some(r),
            None => {},
        }
        i = i + 1;
    }
    None
}

fn ends_with_any(name: &[char], suffixes: &[&str]) -> (r: bool)
    ensures
        r == exists|i: int| 0 <= i < suffixes@.len() && seq_ends_with(name@, (#[trigger] suffixes@[i])@),
{
    let mut i: usize = 0;
    while i < suffixes.len()
        invariant
            i <= suffixes@.len(),
            forall|j: int| 0 <= j < i ==> !seq_ends_with(name@, (#[trigger] suffixes@[j])@),
        decreases suffixes.len() - i,
    {
        if chars_end_with_str(name, suffixes[i]) {
            return true;
        }
        i = i + 1;
    }
    false
}

impl<'a> Evaluator<'a> {
    fn written_index(&self, target: &str) -> (r: Option<usize>)
        ensures
            match r {
                Some(i) => i < self.written@.len(),
                None => true,
            },
    {
        scope_index(&self.written, target)
    }

    /// What calling the named function or API yields, with the findings its
    /// arguments give at a sink.
    #[verifier::loop_isolation(false)]
    fn invoke(&mut self, path: &str, name: &str, args: Vec<FlowValue>, line: u64, env: &Scope, depth: usize) -> (r: FlowValue)
        requires
            old(self).wf(),
            depth < MAX_CALL_DEPTH,
        ensures
            final(self).wf(),
            old(self).limited ==> final(self).limited,
            final(self).modules == old(self).modules,
            extends(old(self).findings@, final(self).findings@),
            !module_function(old(self).modules@, path@, name@) && !relative_import(name@)
                && process_apis().contains(api_name(name@)) && args@.len() > 0 && args@[0].literal is Some ==> (
                (exists|k: int| old(self).findings@.len() <= k < final(self).findings@.len()
                    && (#[trigger] final(self).findings@[k])@ == command_finding(old(self).reachable@, path@,
                        module_file(old(self).modules@, path@), line, args@[0].literal->Some_0@))
                <==> is_persistence_command(args@[0].literal->Some_0@)),
            !module_function(old(self).modules@, path@, name@) && !relative_import(name@) ==> ({
                &&& process_apis().contains(api_name(name@)) ==> ({
                    &&& args_route(args@, remote_labels(), 0) matches Some(route) ==> chain_reported(*old(self),
                        *final(self), ChainRule::RemoteProcess, path@, line, api_sink(name@), route)
                    &&& args@.len() > 0 ==> (written_route(old(self).written@, args@[0]) matches Some(route)
                        ==> chain_reported(*old(self), *final(self), ChainRule::DownloadExecute, path@, line,
                            api_sink(name@), route))
                    &&& empty_but_name(r) && r.name is None
                })
                &&& !process_apis().contains(api_name(name@)) && dynamic_code_apis().contains(api_name(name@)) ==> ({
                    &&& args_route(args@, remote_labels(), 0) matches Some(route) ==> chain_reported(*old(self),
                        *final(self), ChainRule::RemoteCode, path@, line, api_sink(name@), route)
                    &&& r.labels@.len() == 0 && r.fields@.len() == 0
                    &&& r.literal is None && r.path_hint is None && r.path_key is None && !r.stream_reader
                    &&& opt_clone(r.name) == (if api_name(name@) == "require"@ { required_name(args@) } else { None })
                })
                &&& !process_apis().contains(api_name(name@)) && !dynamic_code_apis().contains(api_name(name@))
                    && network_apis().contains(api_name(name@)) ==> ({
                    &&& args_route(args@, secret_labels(), 0) matches Some(route) ==> chain_reported(*old(self),
                        *final(self), ChainRule::SecretExfiltration, path@, line, api_sink(name@), route)
                    &&& r.labels@.len() == 1 && r.labels@[0].0 == Label::Remote
                })
                &&& process_apis().contains(api_name(name@)) && args_route(args@, remote_labels(), 0) is Some
                    ==> rule_reported(final(self).findings@, old(self).modules@, "JS-REMOTE-PROCESS-EXECUTION"@, path@, line)
                &&& !process_apis().contains(api_name(name@)) && dynamic_code_apis().contains(api_name(name@))
                    && args_route(args@, remote_labels(), 0) is Some
                    ==> rule_reported(final(self).findings@, old(self).modules@, "JS-REMOTE-CODE-EXECUTION"@, path@, line)
                &&& !process_apis().contains(api_name(name@)) && !dynamic_code_apis().contains(api_name(name@))
                    && network_apis().contains(api_name(name@)) && args_route(args@, secret_labels(), 0) is Some
                    ==> rule_reported(final(self).findings@, old(self).modules@, "JS-SECRET-EXFILTRATION"@, path@, line)
            }),
            module_function(old(self).modules@, path@, name@) && !old(self).limited && !final(self).limited
                && function_sink(old(self).modules@, path@, env@, module_fn(old(self).modules@, path@, name@))
                ==> rule_reported(final(self).findings@, old(self).modules@,
                    sink_rule(module_fn(old(self).modules@, path@, name@).body@[0]->Expr_0), path@,
                    (module_fn(old(self).modules@, path@, name@).body@[0]->Expr_0)->Call_2),
        decreases MAX_CALL_DEPTH - depth, 0nat, 0nat,
    {
        let modules = self.modules;
        match self.module_by_id(path) {
            Some(m) => {
                match function_index(&modules[m].flow.functions, name) {
                    Some(f) => {
                        let scope = copy_scope(env);
                        proof {
                            let func = modules@[m as int].flow.functions@[f as int].1;
                            if function_sink(old(self).modules@, path@, env@, func) {
                                let e = func.body@[0]->Expr_0;
                                lemma_same_keys_pos(scope@, env@, (*(e->Call_0))->Name_0@, 0);
                                lemma_same_keys_pos(scope@, env@, (*((e->Call_1)@[0]->Call_0))->Name_0@, 0);
                            }
                        }
                        return self.call_function(path, name, m, f, args, scope, depth + 1);
                    },
                    None => {},
                }
                let n = chars_of(name);
                proof { reveal_strlit("import:"); }
                if chars_start_with_str(&n, "import:") {
                    let import = slice_chars(&n, 7, n.len());
                    match rfind_char(&import, '#') {
                        Some(h) => {
                            let specifier = slice_chars(&import, 0, h);
                            let exported_full = string_from_chars(&slice_chars(&import, h + 1, import.len()));
                            if chars_start_with_str(&specifier, ".") {
                                match resolve_import(&chars_of(modules[m].path.as_str()), &specifier, &self.paths) {
                                    Some(target_path) => match self.module_by_path(&target_path) {
                                        Some(t) => {
                                            let ev = chars_of(exported_full.as_str());
                                            proof { reveal_strlit("*."); }
                                            let exported = if chars_start_with_str(&ev, "*.") {
                                                string_from_chars(&slice_chars(&ev, 2, ev.len()))
                                            } else {
                                                exported_full.clone()
                                            };
                                            let target_id = modules[t].id.clone();
                                            match self.exported_function(target_id.as_str(), exported.as_str()) {
                                                Some((tm, local, tf)) => {
                                                    let scope = self.imports_scope(tm);
                                                    let target = modules[tm].id.clone();
                                                    return self.call_function(target.as_str(), local.as_str(), tm, tf, args, scope, depth + 1);
                                                },
                                                None => {},
                                            }
                                        },
                                        None => {},
                                    },
                                    None => {},
                                }
                            }
                        },
                        None => {},
                    }
                }
            },
            None => {},
        }
        self.api(path, name, args, line)
    }

    /// What calling a library API yields, with the findings its arguments
    /// give at a sink.
    #[verifier::loop_isolation(false)]
    #[verifier::spinoff_prover]
    #[verifier::rlimit(100)]
    fn api(&mut self, path: &str, name: &str, args: Vec<FlowValue>, line: u64) -> (r: FlowValue)
        requires
            old(self).wf(),
        ensures
            final(self).wf(),
            old(self).limited ==> final(self).limited,
            final(self).modules == old(self).modules,
            extends(old(self).findings@, final(self).findings@),
            process_apis().contains(api_name(name@)) && args@.len() > 0 && args@[0].literal is Some ==> (
                (exists|k: int| old(self).findings@.len() <= k < final(self).findings@.len()
                    && (#[trigger] final(self).findings@[k])@ == command_finding(old(self).reachable@, path@,
                        module_file(old(self).modules@, path@), line, args@[0].literal->Some_0@))
                <==> is_persistence_command(args@[0].literal->Some_0@)),
            process_apis().contains(api_name(name@)) ==> ({
                &&& args_route(args@, remote_labels(), 0) matches Some(route) ==> chain_reported(*old(self), *final(self),
                    ChainRule::RemoteProcess, path@, line, api_sink(name@), route)
                &&& args@.len() > 0 ==> (written_route(old(self).written@, args@[0]) matches Some(route)
                    ==> chain_reported(*old(self), *final(self), ChainRule::DownloadExecute, path@, line, api_sink(name@), route))
                &&& empty_but_name(r) && r.name is None
            }),
            !process_apis().contains(api_name(name@)) && dynamic_code_apis().contains(api_name(name@)) ==> ({
                &&& args_route(args@, remote_labels(), 0) matches Some(route) ==> chain_reported(*old(self), *final(self),
                    ChainRule::RemoteCode, path@, line, api_sink(name@), route)
                &&& r.labels@.len() == 0 && r.fields@.len() == 0
                &&& r.literal is None && r.path_hint is None && r.path_key is None && !r.stream_reader
                &&& opt_clone(r.name) == (if api_name(name@) == "require"@ { required_name(args@) } else { None })
            }),
            !process_apis().contains(api_name(name@)) && !dynamic_code_apis().contains(api_name(name@))
                && network_apis().contains(api_name(name@)) ==> ({
                &&& args_route(args@, secret_labels(), 0) matches Some(route) ==> chain_reported(*old(self), *final(self),
                    ChainRule::SecretExfiltration, path@, line, api_sink(name@), route)
                &&& r.labels@.len() == 1 && r.labels@[0].0 == Label::Remote
            }),
            process_apis().contains(api_name(name@)) && args_route(args@, remote_labels(), 0) is Some
                ==> rule_reported(final(self).findings@, old(self).modules@, "JS-REMOTE-PROCESS-EXECUTION"@, path@, line),
            !process_apis().contains(api_name(name@)) && dynamic_code_apis().contains(api_name(name@))
                && args_route(args@, remote_labels(), 0) is Some
                ==> rule_reported(final(self).findings@, old(self).modules@, "JS-REMOTE-CODE-EXECUTION"@, path@, line),
            !process_apis().contains(api_name(name@)) && !dynamic_code_apis().contains(api_name(name@))
                && network_apis().contains(api_name(name@)) && args_route(args@, secret_labels(), 0) is Some
                ==> rule_reported(final(self).findings@, old(self).modules@, "JS-SECRET-EXFILTRATION"@, path@, line),
    {
        let ghost o = *self;
        let n = chars_of(name);
        proof { reveal_strlit("import:"); reveal_strlit("node:"); reveal_strlit("*."); }
        let plain: Vec<char> = if chars_start_with_str(&n, "import:") {
            match import_api_of(&slice_chars(&n, 7, n.len())) {
                Some(api) => api,
                None => n,
            }
        } else {
            n
        };
        let resolved: Vec<char> = match indirect_api_target(&plain) {
            Some(t) => t,
            None => plain,
        };
        let name_s = string_from_chars(&resolved);
        let normalized_v: Vec<char> = if chars_start_with_str(&resolved, "node:") {
            slice_chars(&resolved, 5, resolved.len())
        } else {
            crate::text::copy_chars(&resolved)
        };
        let normalized = string_from_chars(&normalized_v);
        let nm = normalized.as_str();
        let file_path = self.file_path(path);
        assert(nm@ == api_name(name@));
        let process = ["child_process.exec", "child_process.execSync", "child_process.spawn", "child_process.spawnSync",
            "child_process.execFile", "child_process.execFileSync", "child_process.fork", "Bun.spawn", "Deno.Command"];
        assert(strs_view(process@) =~= process_apis());
        assert(name_s@ == api_sink(name@));
        if str_in(nm, &process) {
            return self.api_process(path, &name_s, &file_path, line, args);
        }
        let dynamic = ["eval", "Function", "global.eval", "globalThis.eval", "window.eval", "global.Function",
            "globalThis.Function", "window.Function", "vm.runInThisContext", "vm.runInNewContext", "vm.runInContext",
            "vm.Script", "vm.compileFunction", "process.dlopen", "import", "require", "dynamic require"];
        assert(strs_view(dynamic@) =~= dynamic_code_apis());
        if str_in(nm, &dynamic) {
            return self.api_dynamic(path, nm, &name_s, line, args);
        }
        let source = located("source: ", file_path.as_str(), line, name_s.as_str());
        let network = ["axios", "axios.get", "axios.post", "axios.put", "axios.patch", "axios.delete", "axios.head",
            "axios.request", "fetch", "globalThis.fetch", "window.fetch", "got", "got.get", "got.post", "request",
            "request.get", "request.post", "undici.fetch", "undici.request", "node-fetch", "http.get", "https.get",
            "http.request", "https.request", "WebSocket", "globalThis.WebSocket", "window.WebSocket", "EventSource",
            "globalThis.EventSource", "window.EventSource", "ws", "socket.io", "socket.io-client",
            "socket.io-client.io", "net.Socket", "net.connect", "tls.connect", "dns.lookup", "dns.resolve",
            "dns.resolveTxt", "dns.resolve4", "dns.resolve6", "dns.promises.lookup", "dns.promises.resolve",
            "dns.promises.resolveTxt", "dns.promises.resolve4", "dns.promises.resolve6", "dgram.createSocket"];
        assert(strs_view(network@) =~= network_apis());
        if str_in(nm, &network) {
            proof { lemma_seen_since_self(o.seen@, chain_details(ChainRule::SecretExfiltration).0); }
            self.exfiltration(path, line, name_s.as_str(), &args);
            proof {
                if args_route(args@, secret_labels(), 0) is Some {
                    lemma_emit_reported(o, o, *self, ChainRule::SecretExfiltration, path@, line, name_s@,
                        args_route(args@, secret_labels(), 0)->Some_0);
                }
            }
            let mut value = FlowValue::labeled(Label::Remote, source);
            if str_in(nm, &["WebSocket", "globalThis.WebSocket", "window.WebSocket", "ws"]) {
                value.name = Some(crate::text::owned("WebSocket"));
            } else if str_in(nm, &["EventSource", "globalThis.EventSource", "window.EventSource"]) {
                value.name = Some(crate::text::owned("EventSource"));
            } else if str_in(nm, &["socket.io", "socket.io-client", "socket.io-client.io"]) {
                value.name = Some(crate::text::owned("socket.io"));
            } else if str_in(nm, &["net.Socket", "net.connect", "tls.connect", "dgram.createSocket"]) {
                value.name = Some(crate::text::owned("network.socket"));
            } else if str_in(nm, &["http.get", "https.get", "http.request", "https.request", "request", "request.get", "request.post"]) {
                value.name = Some(crate::text::owned("http.response"));
            }
            return value;
        }
        if crate::text::str_eq(nm, "Object.assign") {
            let mut value = FlowValue::empty();
            let mut args = args;
            while args.len() > 0
                decreases args.len(),
            {
                let a = args.remove(0);
                value.merge(a);
            }
            return value.propagate(located("transform: ", file_path.as_str(), line, name_s.as_str()).as_str());
        }
        if crate::text::str_eq(nm, "Object.fromEntries") {
            return first_copy(&args).propagate(located("transform: ", file_path.as_str(), line, name_s.as_str()).as_str());
        }
        if crate::text::str_eq(nm, "Object.keys") {
            return FlowValue::empty();
        }
        if str_in(nm, &["Blob", "FormData", "Headers", "URLSearchParams"]) {
            return first_copy(&args).propagate(located("container: ", file_path.as_str(), line, name_s.as_str()).as_str());
        }
        if str_in(nm, &["Promise.all", "Promise.race", "Promise.any"]) {
            return first_copy(&args).propagate(located("promise aggregation: ", file_path.as_str(), line, name_s.as_str()).as_str());
        }
        if crate::text::str_eq(nm, "Object.entries") {
            let mut entries = FlowValue::empty();
            if args.len() > 0 {
                entries.merge(args[0].copy());
                let mut key = FlowValue::named(crate::text::owned("object key"));
                if has_label(&args[0], &[Label::Remote, Label::DecodedRemote]) {
                    key.merge(args[0].copy());
                }
                entries.set_field(crate::text::owned("0"), key);
                entries.set_field(crate::text::owned("1"), args[0].copy());
            }
            return entries.propagate(located("transform: ", file_path.as_str(), line, name_s.as_str()).as_str());
        }
        if str_in(nm, &["WebSocket.send", "ws.send", "WebSocket.write", "network.socket.send", "network.socket.write",
            "network.socket.end", "socket.io.emit", "http.response.write", "http.response.end"])
        {
            self.exfiltration(path, line, name_s.as_str(), &args);
            return FlowValue::empty();
        }
        if str_in(nm, &["navigator.sendBeacon", "globalThis.navigator.sendBeacon", "window.navigator.sendBeacon"]) {
            self.exfiltration(path, line, name_s.as_str(), &args);
            return FlowValue::empty();
        }
        if str_in(nm, &["fs.readFile", "fs.readFileSync", "fs.promises.readFile", "fs/promises.readFile", "fs.createReadStream"]) {
            let target = if args.len() > 0 { text_or_hint(&args[0]) } else { String::new() };
            if sensitive_path(&chars_of(target.as_str())) {
                let mut evidence = source;
                crate::text::push_str(&mut evidence, " (path evidence: ");
                crate::text::push_str(&mut evidence, target.as_str());
                crate::text::push_str(&mut evidence, ")");
                return FlowValue::labeled(Label::FileSecret, evidence);
            }
        }
        if crate::text::str_eq(nm, "os.homedir") {
            let mut value = FlowValue::labeled(Label::UserHome, source);
            value.literal = Some(crate::text::owned("$HOME"));
            return value;
        }
        if crate::text::str_eq(nm, "os.tmpdir") {
            return FlowValue::named(crate::text::owned("os.tmpdir()"));
        }
        if crate::text::str_eq(nm, "path.join") || crate::text::str_eq(nm, "path.resolve") {
            let mut value = FlowValue::empty();
            let mut segments: Vec<String> = Vec::new();
            let mut complete = true;
            let mut key_parts: Vec<String> = Vec::new();
            let mut k: usize = 0;
            while k < args.len()
                decreases args.len() - k,
            {
                let arg = &args[k];
                value.merge(arg.copy());
                match &arg.literal {
                    Some(segment) => {
                        segments.push(trim_slashes(segment.as_str()));
                        key_parts.push(cat2("literal:", segment.as_str()));
                    },
                    None => {
                        match &arg.path_hint {
                            Some(segment) => {
                                segments.push(trim_slashes(segment.as_str()));
                            },
                            None => {},
                        }
                        complete = false;
                        match &arg.path_key {
                            Some(key) => key_parts.push(cat2("path:", key.as_str())),
                            None => match &arg.name {
                                Some(n) => key_parts.push(cat2("value:", n.as_str())),
                                None => {},
                            },
                        }
                    },
                }
                k = k + 1;
            }
            let joined = join_strings(&segments, "/");
            if complete {
                value.literal = Some(joined);
                value.path_key = None;
            } else {
                value.literal = None;
                if joined.as_str().len() > 0 {
                    value.path_hint = Some(joined);
                }
                if key_parts.len() == args.len() {
                    let mut key = crate::text::owned(nm);
                    crate::text::push_str(&mut key, "(");
                    let inner = join_strings(&key_parts, ",");
                    crate::text::push_str(&mut key, inner.as_str());
                    crate::text::push_str(&mut key, ")");
                    value.path_key = Some(key);
                }
            }
            return value;
        }
        if chars_end_with_str(&normalized_v, ".getReader") {
            let mut k: usize = 0;
            while k < args.len()
                decreases args.len() - k,
            {
                if has_label(&args[k], &[Label::Remote, Label::DecodedRemote]) {
                    let mut reader = args[k].copy();
                    reader.stream_reader = true;
                    return reader.propagate(located("stream reader: ", file_path.as_str(), line, name_s.as_str()).as_str());
                }
                k = k + 1;
            }
        }
        if chars_end_with_str(&normalized_v, ".read") && args.len() > 0 && args[0].stream_reader {
            let mut result = FlowValue::empty();
            let chunk = args[0].copy().propagate(located("stream chunk: ", file_path.as_str(), line, name_s.as_str()).as_str());
            result.set_field(crate::text::owned("value"), chunk);
            return result;
        }
        if str_in(nm, &["clipboard.readText", "clipboard.read", "clipboardy.read", "clipboardy.readSync",
            "electron.clipboard.readText", "navigator.clipboard.readText", "globalThis.navigator.clipboard.readText",
            "window.navigator.clipboard.readText"])
        {
            return FlowValue::labeled(Label::Clipboard, source);
        }
        if str_in(nm, &["Buffer.from", "atob", "decodeURI", "decodeURIComponent", "unescape", "String.fromCharCode",
            "TextDecoder.decode"])
        {
            let mut output = first_copy(&args);
            match output.label_index(Label::Remote) {
                Some(i) => {
                    let (_, route) = output.labels.remove(i);
                    match output.label_index(Label::DecodedRemote) {
                        Some(j) => {
                            output.labels.remove(j);
                            output.labels.insert(j, (Label::DecodedRemote, route));
                        },
                        None => output.labels.push((Label::DecodedRemote, route)),
                    }
                },
                None => {},
            }
            return output.propagate(located("decode: ", file_path.as_str(), line, name_s.as_str()).as_str());
        }
        let transform_suffixes = [".toString", ".json", ".text", ".buffer", ".arrayBuffer", ".blob", ".formData",
            ".bytes", ".clone", ".get", ".concat", ".replace", ".slice", ".substring", ".split", ".map", ".join",
            ".charCodeAt", ".toLowerCase", ".toUpperCase", ".trim"];
        if str_in(nm, &["JSON.parse", "JSON.stringify", "String", "Buffer.toString", "Promise.resolve", "Buffer.concat",
            "Object.values", "btoa", "encodeURI", "encodeURIComponent", "TextEncoder.encode"])
            || ends_with_any(&normalized_v, &transform_suffixes)
        {
            return first_copy(&args).propagate(located("transform: ", file_path.as_str(), line, name_s.as_str()).as_str());
        }
        if crate::text::str_eq(nm, "fs.createWriteStream") {
            let mut stream = FlowValue::named(crate::text::owned("file-stream"));
            stream.literal = if args.len() > 0 { args[0].file_target() } else { None };
            return stream;
        }
        self.api_effects(path, nm, &normalized_v, &name_s, &file_path, line, args)
    }

    /// What calling a process API yields: the persistence command it is
    /// given, remote data reaching it, and a downloaded file that it runs.
    #[verifier::loop_isolation(false)]
    #[verifier::spinoff_prover]
    #[verifier::rlimit(100)]
    fn api_process(&mut self, path: &str, name_s: &String, file_path: &String, line: u64, args: Vec<FlowValue>) -> (r: FlowValue)
        requires
            old(self).wf(),
        ensures
            final(self).wf(),
            old(self).limited ==> final(self).limited,
            final(self).modules == old(self).modules,
            extends(old(self).findings@, final(self).findings@),
            args@.len() > 0 && args@[0].literal is Some ==> (
                (exists|k: int| old(self).findings@.len() <= k < final(self).findings@.len()
                    && (#[trigger] final(self).findings@[k])@
                        == command_finding(old(self).reachable@, path@, file_path@, line, args@[0].literal->Some_0@))
                <==> is_persistence_command(args@[0].literal->Some_0@)),
            args_route(args@, remote_labels(), 0) matches Some(route)
                ==> chain_reported(*old(self), *final(self), ChainRule::RemoteProcess, path@, line, name_s@, route),
            args@.len() > 0 ==> (written_route(old(self).written@, args@[0]) matches Some(route)
                ==> chain_reported(*old(self), *final(self), ChainRule::DownloadExecute, path@, line, name_s@, route)),
            empty_but_name(r) && r.name is None,
            args_route(args@, remote_labels(), 0) is Some
                ==> rule_reported(final(self).findings@, old(self).modules@, "JS-REMOTE-PROCESS-EXECUTION"@, path@, line),
    {
        let ghost o = *self;
        let ghost n0 = self.findings@.len() as int;
        let ghost f0 = self.findings@;
        let ghost mut m: int = -1;
        if args.len() > 0 {
            match &args[0].literal {
                Some(command) => {
                    let text = chars_of(command.as_str());
                    if persistence_command(&text) {
                        let note = cat2("command: ", command.as_str());
                        self.push_persistence("JS-PERSISTENCE-COMMAND", "JavaScript invokes an automatic-startup command",
                            "A process execution API receives a recognized persistence command.", path, &file_path, line, note);
                        proof {
                            m = f0.len() as int;
                            assert forall|k: int| 0 <= k < f0.len() implies #[trigger] self.findings@[k] == f0[k] by {
                                assert(self.findings@.drop_last()[k] == self.findings@[k]);
                            }
                            assert(self.findings@[m]@ == command_finding(old(self).reachable@, path@, file_path@, line, command@));
                        }
                    }
                },
                None => {},
            }
        }
        assert(m >= 0 ==> n0 <= m < self.findings@.len() && extends(f0, self.findings@)
            && self.findings@[m]@ == command_finding(old(self).reachable@, path@, file_path@, line, args@[0].literal->Some_0@));
        assert(m < 0 ==> no_command_from(self.findings@, n0) && extends(f0, self.findings@));
        assert(self.seen == o.seen);
        proof {
            lemma_seen_since_self(o.seen@, chain_details(ChainRule::RemoteProcess).0);
            lemma_seen_since_self(o.seen@, chain_details(ChainRule::DownloadExecute).0);
        }
        let remote = [Label::DecodedRemote, Label::Remote];
        assert(remote@ =~= remote_labels());
        match first_with_label(&args, &remote) {
            Some(route) => {
                let ghost pre = *self;
                self.emit(ChainRule::RemoteProcess, path, line, name_s.as_str(), &route);
                proof {
                    lemma_chain_ids_differ();
                    lemma_emit_reported(o, pre, *self, ChainRule::RemoteProcess, path@, line, name_s@, strings_view(route@));
                    if m < 0 {
                        lemma_emit_no_command(pre, *self, ChainRule::RemoteProcess, path@, line, name_s@, strings_view(route@), n0);
                    } else {
                        lemma_emit_extends(pre, *self, ChainRule::RemoteProcess, path@, line, name_s@, strings_view(route@));
                    }
                }
            },
            None => {},
        }
        let ghost s2 = *self;
        assert(seen_since_other(o.seen@, self.seen@, chain_details(ChainRule::DownloadExecute).0));
        assert(extends(o.findings@, self.findings@));
        assert(self.written == o.written);
        if args.len() > 0 {
            match args[0].file_target() {
                Some(target) => match scope_index(&self.written, target.as_str()) {
                    Some(w) => {
                        match self.written[w].1.route_of(&remote) {
                            Some(route) => {
                                let ghost pre = *self;
                                self.emit(ChainRule::DownloadExecute, path, line, name_s.as_str(), &route);
                                proof {
                                    lemma_emit_reported(o, pre, *self, ChainRule::DownloadExecute, path@, line, name_s@, strings_view(route@));
                                    if m < 0 {
                                        lemma_emit_no_command(pre, *self, ChainRule::DownloadExecute, path@, line, name_s@, strings_view(route@), n0);
                                    } else {
                                        lemma_emit_extends(pre, *self, ChainRule::DownloadExecute, path@, line, name_s@, strings_view(route@));
                                    }
                                    if args_route(args@, remote_labels(), 0) is Some {
                                        lemma_reported_extends(o, s2, *self, ChainRule::RemoteProcess, path@, line, name_s@,
                                            args_route(args@, remote_labels(), 0)->Some_0);
                                    }
                                }
                            },
                            None => {},
                        }
                    },
                    None => {},
                },
                None => {},
            }
        }
        assert(m >= 0 ==> n0 <= m < self.findings@.len()
            && self.findings@[m]@ == command_finding(old(self).reachable@, path@, file_path@, line, args@[0].literal->Some_0@));
        assert(m < 0 ==> no_command_from(self.findings@, n0));
        proof {
            if args_route(args@, remote_labels(), 0) is Some {
                Self::lemma_chain_rule_reported(o, *self, ChainRule::RemoteProcess, path@, line, name_s@,
                    args_route(args@, remote_labels(), 0)->Some_0);
            }
        }
        FlowValue::empty()
    }

    /// What calling a dynamic-code API yields: remote data reaching it, and
    /// the module that `require` names.
    #[verifier::loop_isolation(false)]
    fn api_dynamic(&mut self, path: &str, nm: &str, name_s: &String, line: u64, args: Vec<FlowValue>) -> (r: FlowValue)
        requires
            old(self).wf(),
        ensures
            final(self).wf(),
            old(self).limited ==> final(self).limited,
            final(self).modules == old(self).modules,
            extends(old(self).findings@, final(self).findings@),
            args_route(args@, remote_labels(), 0) matches Some(route)
                ==> chain_reported(*old(self), *final(self), ChainRule::RemoteCode, path@, line, name_s@, route),
            r.labels@.len() == 0 && r.fields@.len() == 0,
            r.literal is None && r.path_hint is None && r.path_key is None && !r.stream_reader,
            opt_clone(r.name) == (if nm@ == "require"@ { required_name(args@) } else { None }),
            args_route(args@, remote_labels(), 0) is Some
                ==> rule_reported(final(self).findings@, old(self).modules@, "JS-REMOTE-CODE-EXECUTION"@, path@, line),
    {
        let ghost o = *self;
        proof { lemma_seen_since_self(o.seen@, chain_details(ChainRule::RemoteCode).0); }
        let remote = [Label::DecodedRemote, Label::Remote];
        assert(remote@ =~= remote_labels());
        match first_with_label(&args, &remote) {
            Some(route) => {
                self.emit(ChainRule::RemoteCode, path, line, name_s.as_str(), &route);
                proof {
                    lemma_emit_reported(o, o, *self, ChainRule::RemoteCode, path@, line, name_s@, strings_view(route@));
                    Self::lemma_chain_rule_reported(o, *self, ChainRule::RemoteCode, path@, line, name_s@, strings_view(route@));
                }
            },
            None => {},
        }
        proof { reveal_strlit("import:"); reveal_strlit("#*"); }
        if crate::text::str_eq(nm, "require") {
            if args.len() > 0 {
                match &args[0].literal {
                    Some(specifier) => {
                        if crate::text::str_starts_with(specifier.as_str(), ".") {
                            let mut n = cat2("import:", specifier.as_str());
                            crate::text::push_str(&mut n, "#*");
                            return FlowValue::named(n);
                        } else {
                            return FlowValue::named(specifier.clone());
                        }
                    },
                    None => {},
                }
            }
            return FlowValue::empty();
        }
        FlowValue::empty()
    }

    /// What calling an API yields once its name is normalized, when no
    /// other API matched: the effects of streams, writes and permission
    /// changes.
    #[verifier::loop_isolation(false)]
    #[verifier::spinoff_prover]
    #[verifier::rlimit(100)]
    fn api_effects(&mut self, path: &str, nm: &str, normalized_v: &Vec<char>, name_s: &String, file_path: &String,
        line: u64, args: Vec<FlowValue>) -> (r: FlowValue)
        requires
            old(self).wf(),
        ensures
            final(self).wf(),
            old(self).limited ==> final(self).limited,
            final(self).modules == old(self).modules,
            extends(old(self).findings@, final(self).findings@),
    {
        if chars_end_with_str(&normalized_v, ".pipe") {
            let mut contents: Option<usize> = None;
            let mut stream: Option<usize> = None;
            let mut k: usize = 0;
            while k < args.len()
                invariant
                    contents.is_none() || contents.unwrap() < args@.len(),
                    stream.is_none() || stream.unwrap() < args@.len(),
                decreases args.len() - k,
            {
                if contents.is_none() && has_label(&args[k], &[Label::Remote, Label::DecodedRemote]) {
                    contents = Some(k);
                }
                if stream.is_none() && is_name(&args[k].name, "file-stream") {
                    stream = Some(k);
                }
                k = k + 1;
            }
            match (contents, stream) {
                (Some(c), Some(st)) => match &args[st].literal {
                    Some(target) => {
                        let data = args[c].copy().propagate(located("stream write: ", file_path.as_str(), line, name_s.as_str()).as_str());
                        scope_insert(&mut self.written, target.clone(), data);
                    },
                    None => {},
                },
                _ => {},
            }
        }
        if str_in(nm, &["fs.writeFile", "fs.writeFileSync", "fs.promises.writeFile", "fs/promises.writeFile"]) && args.len() > 1 {
            match args[0].file_target() {
                Some(target) => {
                    let persistent = match &args[0].literal {
                        Some(l) => persistence_path(&chars_of(l.as_str())),
                        None => false,
                    };
                    if persistent {
                        let note = cat2("write target: ", target.as_str());
                        self.push_persistence("JS-PERSISTENCE-WRITE", "JavaScript writes to an automatic startup location",
                            "A filesystem write targets a recognized persistence location.", path, &file_path, line, note);
                    }
                    if has_label(&args[1], &[Label::Remote, Label::DecodedRemote]) {
                        let data = args[1].copy().propagate(located("write: ", file_path.as_str(), line, name_s.as_str()).as_str());
                        scope_insert(&mut self.written, target, data);
                    }
                },
                None => {},
            }
        }
        if str_in(nm, &["fs.chmod", "fs.chmodSync", "fs.promises.chmod", "fs/promises.chmod"]) && args.len() > 0 {
            match args[0].file_target() {
                Some(target) => match self.written_index(target.as_str()) {
                    Some(w) => {
                        let (key, value) = self.written.remove(w);
                        let updated = value.propagate(located("chmod: ", file_path.as_str(), line, name_s.as_str()).as_str());
                        self.written.insert(w, (key, updated));
                    },
                    None => {},
                },
                None => {},
            }
        }
        FlowValue::empty()
    }
}


pub open spec fn flow_limit_message() -> Seq<char> {
    "JS/TS data-flow work limit of "@ + crate::text::decimal(MAX_FLOW_STEPS as nat) + " steps or call depth "@
        + crate::text::decimal(MAX_CALL_DEPTH as nat) + " reached"@
}

fn component_note(f: &Finding) -> (r: String)
    ensures
        r@ == "component: "@ + f.id@ + " at "@ + match f.file { Some(p) => p@, None => "unknown"@ }
            + ":"@ + crate::text::decimal(match f.line { Some(l) => l as nat, None => 0 }),
{
    let mut s = cat2("component: ", f.id.as_str());
    crate::text::push_str(&mut s, " at ");
    match &f.file {
        Some(file) => crate::text::push_str(&mut s, file.as_str()),
        None => crate::text::push_str(&mut s, "unknown"),
    }
    crate::text::push_str(&mut s, ":");
    crate::text::push_decimal(&mut s, match f.line { Some(l) => l, None => 0 });
    s
}

fn evidence_has(f: &Finding, item: &str) -> (r: bool)
    ensures
        r == strings_view(f.evidence@).contains(item@),
{
    let mut i: usize = 0;
    while i < f.evidence.len()
        invariant
            i <= f.evidence@.len(),
            forall|j: int| 0 <= j < i ==> (#[trigger] f.evidence@[j])@ != item@,
        decreases f.evidence.len() - i,
    {
        if crate::text::str_eq(f.evidence[i].as_str(), item) {
            assert(strings_view(f.evidence@)[i as int] == item@);
            return true;
        }
        i = i + 1;
    }
    false
}

/// What every data-flow result holds: findings of the flow rules only, and
/// at most the one note that the step limit was reached.
pub open spec fn flows_reported(r: FlowResult) -> bool {
    &&& forall|i: int| 0 <= i < r.findings@.len() ==> flow_finding(#[trigger] r.findings@[i]@)
    &&& r.incomplete_reasons@.len() <= 1
    &&& forall|i: int| 0 <= i < r.incomplete_reasons@.len() ==> (#[trigger] r.incomplete_reasons@[i])@ == flow_limit_message()
}

/// The first evidence item from the `t`-th on that names a resolved
/// trigger, or -1.
pub open spec fn trigger_pos(ev: Seq<Seq<char>>, t: int) -> int
    decreases ev.len() - t,
{
    if t < 0 || t >= ev.len() {
        -1
    } else if crate::text::seq_starts_with(ev[t], "trigger:"@) && ev[t] != "trigger: unresolved"@ {
        t
    } else {
        trigger_pos(ev, t + 1)
    }
}

/// The first of the findings from the `s`-th to the `count`-th that reports
/// secret exfiltration with the evidence item, or -1.
pub open spec fn exfiltration_pos(fs: Seq<FindingView>, item: Seq<char>, s: int, count: int) -> int
    decreases count - s,
{
    if s < 0 || s >= count {
        -1
    } else if fs[s].id == "JS-SECRET-EXFILTRATION"@ && fs[s].evidence.contains(item) {
        s
    } else {
        exfiltration_pos(fs, item, s + 1, count)
    }
}

/// How a combined chain names one of its findings.
pub open spec fn component_of(f: FindingView) -> Seq<char> {
    "component: "@ + f.id + " at "@ + match f.file { Some(p) => p, None => "unknown"@ }
        + ":"@ + crate::text::decimal(match f.line { Some(l) => l as nat, None => 0 })
}

/// The chain that a remote execution finding and a secret exfiltration
/// finding on one route make.
pub open spec fn combined_chain(a: FindingView, b: FindingView) -> FindingView {
    FindingView {
        id: "JS-COMBINED-ATTACK-CHAIN"@,
        severity: Severity::Critical,
        confidence: Confidence::High,
        score: 99,
        title: "One execution route can exfiltrate secrets and execute remote input"@,
        message: "Separate source-to-sink findings share a file or evidenced execution trigger. This correlation does not establish a malware family."@,
        file: a.file,
        line: a.line,
        evidence: seq![component_of(a), component_of(b)],
    }
}

/// The chain, if any, that the `e`-th of the first `count` findings makes:
/// a remote execution finding with a resolved trigger, and the first secret
/// exfiltration finding with that trigger in its evidence.
pub open spec fn chain_of(fs: Seq<FindingView>, e: int, count: int) -> Seq<FindingView> {
    let f = fs[e];
    let t = trigger_pos(f.evidence, 0);
    if (f.id == "JS-REMOTE-CODE-EXECUTION"@ || f.id == "JS-REMOTE-PROCESS-EXECUTION"@) && t >= 0 {
        let s = exfiltration_pos(fs, f.evidence[t], 0, count);
        if s >= 0 { seq![combined_chain(f, fs[s])] } else { seq![] }
    } else {
        seq![]
    }
}

/// The chains that the findings before the `e`-th make among the first
/// `count` findings.
pub open spec fn chains_before(fs: Seq<FindingView>, e: int, count: int) -> Seq<FindingView>
    decreases e,
{
    if e <= 0 {
        seq![]
    } else {
        chains_before(fs, e - 1, count) + chain_of(fs, e - 1, count)
    }
}

/// What the data-flow analysis of the modules yields: findings of the
/// evaluation, none of them a combined chain, followed by exactly the
/// combined chains that they make; at most the note of the step limit; and
/// nothing at all when no module is enabled for the analysis.
pub open spec fn flows_analyzed(modules: Seq<ModuleFacts>, r: FlowResult) -> bool {
    &&& flows_reported(r)
    &&& exists|fs: Seq<FindingView>| (forall|i: int| 0 <= i < fs.len() ==> evaluated_finding(#[trigger] fs[i]))
            && findings_view(r.findings@) == fs + chains_before(fs, fs.len() as int, fs.len() as int)
    &&& (forall|i: int| 0 <= i < modules.len() ==> !(#[trigger] modules[i]).flow_enabled)
            ==> r.findings@.len() == 0 && r.incomplete_reasons@.len() == 0
}

/// Unless the work limit cut the analysis short, every module that takes
/// part in it and begins by handing the result of a network call to a
/// process or dynamic-code API is reported under the matching rule at its
/// file and the call's line.
pub open spec fn direct_flows_reported(modules: Seq<ModuleFacts>, reachable: Seq<(String, Vec<String>)>, r: FlowResult) -> bool {
    &&& r.incomplete_reasons@.len() == 0 ==> forall|i: int| 0 <= i < modules.len()
        && module_runs(#[trigger] modules[i], reachable)
        && direct_remote_sink(modules, modules[i].id@, modules[i].flow.imports@, modules[i].flow.body@)
        ==> rule_reported(r.findings@, modules, sink_rule(modules[i].flow.body@[0]->Expr_0), modules[i].id@,
            (modules[i].flow.body@[0]->Expr_0)->Call_2)
    &&& r.incomplete_reasons@.len() == 0 ==> forall|i: int| 0 <= i < modules.len()
        && module_runs(#[trigger] modules[i], reachable)
        && bound_remote_sink(modules, modules[i].id@, modules[i].flow.imports@, modules[i].flow.body@)
        ==> rule_reported(r.findings@, modules, sink_rule(modules[i].flow.body@[1]->Expr_0), modules[i].id@,
            (modules[i].flow.body@[1]->Expr_0)->Call_2)
    &&& r.incomplete_reasons@.len() == 0 ==> forall|i: int| 0 <= i < modules.len()
        && module_runs(#[trigger] modules[i], reachable)
        && environment_sent(modules, modules[i].id@, modules[i].flow.imports@, modules[i].flow.body@)
        ==> rule_reported(r.findings@, modules, "JS-SECRET-EXFILTRATION"@, modules[i].id@,
            (modules[i].flow.body@[0]->Expr_0)->Call_2)
    &&& r.incomplete_reasons@.len() == 0 ==> forall|i: int| 0 <= i < modules.len()
        && module_runs(#[trigger] modules[i], reachable)
        && local_sink(modules, modules[i].id@, modules[i].flow.imports@, modules[i].flow.body@)
        ==> rule_reported(r.findings@, modules,
            sink_rule(called_fn(modules, modules[i].id@, modules[i].flow.body@).body@[0]->Expr_0), modules[i].id@,
            (called_fn(modules, modules[i].id@, modules[i].flow.body@).body@[0]->Expr_0)->Call_2)
}

/// Follows labelled data through the modules that run, from the execution
/// roots' modules (or all modules when nothing is reachable), and reports
/// sources that reach sinks; two findings on one route make a combined chain.
#[verifier::spinoff_prover]
#[verifier::rlimit(50)]
pub fn analyze_flows(modules: &[ModuleFacts], reachable: &Vec<(String, Vec<String>)>) -> (r: FlowResult)
    ensures
        flows_analyzed(modules@, r),
        direct_flows_reported(modules@, reachable@, r),
{
    let mut paths: Vec<Vec<char>> = Vec::new();
    let mut p: usize = 0;
    while p < modules.len()
        decreases modules.len() - p,
    {
        paths.push(chars_of(modules[p].path.as_str()));
        p = p + 1;
    }
    let mut ev = Evaluator {
        modules,
        paths,
        reachable,
        findings: Vec::new(),
        seen: Vec::new(),
        steps: 0,
        limited: false,
        written: Vec::new(),
        stream_data: Vec::new(),
    };
    let mut m: usize = 0;
    while m < modules.len() && !ev.limited
        invariant
            ev.wf(),
            ev.modules == modules,
            (forall|i: int| 0 <= i < modules@.len() ==> !(#[trigger] modules@[i]).flow_enabled)
                ==> ev.findings@.len() == 0 && !ev.limited,
            m <= modules@.len(),
            !ev.limited ==> forall|i: int| 0 <= i < m && module_runs(#[trigger] modules@[i], reachable@)
                && direct_remote_sink(modules@, modules@[i].id@, modules@[i].flow.imports@, modules@[i].flow.body@)
                ==> rule_reported(ev.findings@, modules@, sink_rule(modules@[i].flow.body@[0]->Expr_0), modules@[i].id@,
                    (modules@[i].flow.body@[0]->Expr_0)->Call_2),
            !ev.limited ==> forall|i: int| 0 <= i < m && module_runs(#[trigger] modules@[i], reachable@)
                && bound_remote_sink(modules@, modules@[i].id@, modules@[i].flow.imports@, modules@[i].flow.body@)
                ==> rule_reported(ev.findings@, modules@, sink_rule(modules@[i].flow.body@[1]->Expr_0), modules@[i].id@,
                    (modules@[i].flow.body@[1]->Expr_0)->Call_2),
            !ev.limited ==> forall|i: int| 0 <= i < m && module_runs(#[trigger] modules@[i], reachable@)
                && environment_sent(modules@, modules@[i].id@, modules@[i].flow.imports@, modules@[i].flow.body@)
                ==> rule_reported(ev.findings@, modules@, "JS-SECRET-EXFILTRATION"@, modules@[i].id@,
                    (modules@[i].flow.body@[0]->Expr_0)->Call_2),
            !ev.limited ==> forall|i: int| 0 <= i < m && module_runs(#[trigger] modules@[i], reachable@)
                && local_sink(modules@, modules@[i].id@, modules@[i].flow.imports@, modules@[i].flow.body@)
                ==> rule_reported(ev.findings@, modules@,
                    sink_rule(called_fn(modules@, modules@[i].id@, modules@[i].flow.body@).body@[0]->Expr_0), modules@[i].id@,
                    (called_fn(modules@, modules@[i].id@, modules@[i].flow.body@).body@[0]->Expr_0)->Call_2),
        decreases modules.len() - m,
    {
        let module = &modules[m];
        let ghost f0 = ev.findings@;
        let enabled = module.flow_enabled && (reachable.len() == 0 || listed(reachable, module.id.as_str()));
        if enabled {
            ev.written = Vec::new();
            let mut env = ev.imports_scope(m);
            proof {
                if direct_remote_sink(modules@, modules@[m as int].id@, modules@[m as int].flow.imports@, modules@[m as int].flow.body@) {
                    lemma_direct_sink(modules@, modules@[m as int].id@, env@, modules@[m as int].flow.imports@,
                        modules@[m as int].flow.body@);
                }
                if bound_remote_sink(modules@, modules@[m as int].id@, modules@[m as int].flow.imports@, modules@[m as int].flow.body@) {
                    lemma_bound_sink(modules@, modules@[m as int].id@, env@, modules@[m as int].flow.imports@,
                        modules@[m as int].flow.body@);
                }
                if environment_sent(modules@, modules@[m as int].id@, modules@[m as int].flow.imports@, modules@[m as int].flow.body@) {
                    lemma_environment_sent(modules@, modules@[m as int].id@, env@, modules@[m as int].flow.imports@,
                        modules@[m as int].flow.body@);
                }
                if local_sink(modules@, modules@[m as int].id@, modules@[m as int].flow.imports@, modules@[m as int].flow.body@) {
                    lemma_local_sink(modules@, modules@[m as int].id@, env@, modules@[m as int].flow.imports@,
                        modules@[m as int].flow.body@);
                }
            }
            let _ = ev.run(module.id.as_str(), &module.flow.body, &mut env, 0);
        }
        proof {
            if !ev.limited {
                assert forall|i: int| 0 <= i < m + 1 && module_runs(#[trigger] modules@[i], reachable@)
                    && direct_remote_sink(modules@, modules@[i].id@, modules@[i].flow.imports@, modules@[i].flow.body@)
                    implies rule_reported(ev.findings@, modules@, sink_rule(modules@[i].flow.body@[0]->Expr_0), modules@[i].id@,
                        (modules@[i].flow.body@[0]->Expr_0)->Call_2) by {
                    if i < m {
                        lemma_reported_grows(f0, ev.findings@, modules@, sink_rule(modules@[i].flow.body@[0]->Expr_0),
                            modules@[i].id@, (modules@[i].flow.body@[0]->Expr_0)->Call_2);
                    }
                }
                assert forall|i: int| 0 <= i < m + 1 && module_runs(#[trigger] modules@[i], reachable@)
                    && bound_remote_sink(modules@, modules@[i].id@, modules@[i].flow.imports@, modules@[i].flow.body@)
                    implies rule_reported(ev.findings@, modules@, sink_rule(modules@[i].flow.body@[1]->Expr_0), modules@[i].id@,
                        (modules@[i].flow.body@[1]->Expr_0)->Call_2) by {
                    if i < m {
                        lemma_reported_grows(f0, ev.findings@, modules@, sink_rule(modules@[i].flow.body@[1]->Expr_0),
                            modules@[i].id@, (modules@[i].flow.body@[1]->Expr_0)->Call_2);
                    }
                }
                assert forall|i: int| 0 <= i < m + 1 && module_runs(#[trigger] modules@[i], reachable@)
                    && environment_sent(modules@, modules@[i].id@, modules@[i].flow.imports@, modules@[i].flow.body@)
                    implies rule_reported(ev.findings@, modules@, "JS-SECRET-EXFILTRATION"@, modules@[i].id@,
                        (modules@[i].flow.body@[0]->Expr_0)->Call_2) by {
                    if i < m {
                        lemma_reported_grows(f0, ev.findings@, modules@, "JS-SECRET-EXFILTRATION"@,
                            modules@[i].id@, (modules@[i].flow.body@[0]->Expr_0)->Call_2);
                    }
                }
                assert forall|i: int| 0 <= i < m + 1 && module_runs(#[trigger] modules@[i], reachable@)
                    && local_sink(modules@, modules@[i].id@, modules@[i].flow.imports@, modules@[i].flow.body@)
                    implies rule_reported(ev.findings@, modules@,
                        sink_rule(called_fn(modules@, modules@[i].id@, modules@[i].flow.body@).body@[0]->Expr_0), modules@[i].id@,
                        (called_fn(modules@, modules@[i].id@, modules@[i].flow.body@).body@[0]->Expr_0)->Call_2) by {
                    if i < m {
                        lemma_reported_grows(f0, ev.findings@, modules@,
                            sink_rule(called_fn(modules@, modules@[i].id@, modules@[i].flow.body@).body@[0]->Expr_0),
                            modules@[i].id@, (called_fn(modules@, modules@[i].id@, modules@[i].flow.body@).body@[0]->Expr_0)->Call_2);
                    }
                }
            }
        }
        m = m + 1;
    }
    let ghost evaluated = ev.findings@;
    let ghost finished = !ev.limited;
    let mut findings = ev.findings;
    let count = findings.len();
    let ghost fs = findings_view(findings@);
    assert forall|i: int| 0 <= i < fs.len() implies evaluated_finding(#[trigger] fs[i]) by {
        assert(fs[i] == findings@[i]@);
    }
    let mut e: usize = 0;
    assert(findings_view(findings@) =~= fs + chains_before(fs, 0, count as int));
    while e < count
        invariant
            count <= findings@.len(),
            count == fs.len(),
            e <= count,
            forall|i: int| 0 <= i < findings@.len() ==> flow_finding(#[trigger] findings@[i]@),
            findings_view(findings@) == fs + chains_before(fs, e as int, count as int),
        decreases count - e,
    {
        assert(findings_view(findings@)[e as int] == findings@[e as int]@);
        assert((fs + chains_before(fs, e as int, count as int))[e as int] == fs[e as int]);
        let is_remote = crate::text::str_eq(findings[e].id.as_str(), "JS-REMOTE-CODE-EXECUTION")
            || crate::text::str_eq(findings[e].id.as_str(), "JS-REMOTE-PROCESS-EXECUTION");
        if is_remote {
            let mut trigger: Option<String> = None;
            let mut t: usize = 0;
            let ev_items = crate::text::clone_strings(&findings[e].evidence);
            let ghost evs = fs[e as int].evidence;
            assert(strings_view(ev_items@) == evs);
            while t < ev_items.len() && trigger.is_none()
                invariant
                    t <= ev_items@.len(),
                    strings_view(ev_items@) == evs,
                    match trigger {
                        Some(tr) => trigger_pos(evs, 0) >= 0 && tr@ == evs[trigger_pos(evs, 0)],
                        None => trigger_pos(evs, 0) == trigger_pos(evs, t as int),
                    },
                decreases ev_items.len() - t,
            {
                assert(ev_items@[t as int]@ == evs[t as int]);
                let item = &ev_items[t];
                if crate::text::str_starts_with(item.as_str(), "trigger:") && !crate::text::str_eq(item.as_str(), "trigger: unresolved") {
                    trigger = Some(item.clone());
                }
                t = t + 1;
            }
            match trigger {
                Some(tr) => {
                    let mut found: Option<usize> = None;
                    let mut s2: usize = 0;
                    let ghost item = tr@;
                    while s2 < count && found.is_none()
                        invariant
                            count <= findings@.len(),
                            count == fs.len(),
                            e < count,
                            s2 <= count,
                            item == tr@,
                            found.is_none() || found.unwrap() < findings@.len(),
                            findings_view(findings@) == fs + chains_before(fs, e as int, count as int),
                            match found {
                                Some(si) => si < count && exfiltration_pos(fs, item, 0, count as int) == si as int,
                                None => exfiltration_pos(fs, item, 0, count as int) == exfiltration_pos(fs, item, s2 as int, count as int),
                            },
                        decreases count - s2,
                    {
                        assert(findings_view(findings@)[s2 as int] == findings@[s2 as int]@);
                        assert((fs + chains_before(fs, e as int, count as int))[s2 as int] == fs[s2 as int]);
                        if crate::text::str_eq(findings[s2].id.as_str(), "JS-SECRET-EXFILTRATION") && evidence_has(&findings[s2], tr.as_str()) {
                            assert(fs[s2 as int].id == "JS-SECRET-EXFILTRATION"@);
                            assert(exfiltration_pos(fs, item, s2 as int, count as int) == s2 as int);
                            found = Some(s2);
                        }
                        s2 = s2 + 1;
                    }
                    match found {
                        Some(si) => {
                            let first = component_note(&findings[e]);
                            let second = component_note(&findings[si]);
                            let f = Finding {
                                id: crate::text::owned("JS-COMBINED-ATTACK-CHAIN"),
                                severity: Severity::Critical,
                                confidence: Confidence::High,
                                score: 99,
                                title: crate::text::owned("One execution route can exfiltrate secrets and execute remote input"),
                                message: crate::text::owned("Separate source-to-sink findings share a file or evidenced execution trigger. This correlation does not establish a malware family."),
                                file: copy_opt(&findings[e].file),
                                line: findings[e].line,
                                evidence: vec![first, second],
                            };
                            assert(flow_finding(f@));
                            assert(findings_view(findings@)[si as int] == findings@[si as int]@);
                            assert((fs + chains_before(fs, e as int, count as int))[si as int] == fs[si as int]);
                            assert(f@.evidence =~= seq![component_of(fs[e as int]), component_of(fs[si as int])]);
                            assert(f@ == combined_chain(fs[e as int], fs[si as int]));
                            assert(chain_of(fs, e as int, count as int) == seq![f@]);
                            let ghost before = findings@;
                            findings.push(f);
                            assert(findings_view(findings@) =~= findings_view(before).push(f@));
                            assert forall|i: int| 0 <= i < findings@.len() implies flow_finding(#[trigger] findings@[i]@) by {
                                if i < before.len() {
                                    assert(findings@[i] == before[i]);
                                }
                            }
                        },
                        None => {},
                    }
                },
                None => {},
            }
        }
        assert(findings_view(findings@) =~= fs + chains_before(fs, e + 1, count as int));
        e = e + 1;
    }
    proof {
        if finished {
            assert forall|i: int| 0 <= i < modules@.len() && module_runs(#[trigger] modules@[i], reachable@)
                && direct_remote_sink(modules@, modules@[i].id@, modules@[i].flow.imports@, modules@[i].flow.body@)
                implies rule_reported(findings@, modules@, sink_rule(modules@[i].flow.body@[0]->Expr_0), modules@[i].id@,
                    (modules@[i].flow.body@[0]->Expr_0)->Call_2) by {
                let id = sink_rule(modules@[i].flow.body@[0]->Expr_0);
                let path = modules@[i].id@;
                let line = (modules@[i].flow.body@[0]->Expr_0)->Call_2;
                let k = choose|k: int| 0 <= k < evaluated.len() && (#[trigger] evaluated[k])@.id == id
                    && evaluated[k]@.file == Some(module_file(modules@, path)) && evaluated[k]@.line == Some(line);
                assert(findings_view(findings@)[k] == fs[k]);
                assert(findings_view(findings@)[k] == findings@[k]@);
                assert(fs[k] == evaluated[k]@);
            }
            assert forall|i: int| 0 <= i < modules@.len() && module_runs(#[trigger] modules@[i], reachable@)
                && bound_remote_sink(modules@, modules@[i].id@, modules@[i].flow.imports@, modules@[i].flow.body@)
                implies rule_reported(findings@, modules@, sink_rule(modules@[i].flow.body@[1]->Expr_0), modules@[i].id@,
                    (modules@[i].flow.body@[1]->Expr_0)->Call_2) by {
                let id = sink_rule(modules@[i].flow.body@[1]->Expr_0);
                let path = modules@[i].id@;
                let line = (modules@[i].flow.body@[1]->Expr_0)->Call_2;
                let k = choose|k: int| 0 <= k < evaluated.len() && (#[trigger] evaluated[k])@.id == id
                    && evaluated[k]@.file == Some(module_file(modules@, path)) && evaluated[k]@.line == Some(line);
                assert(findings_view(findings@)[k] == fs[k]);
                assert(findings_view(findings@)[k] == findings@[k]@);
                assert(fs[k] == evaluated[k]@);
            }
            assert forall|i: int| 0 <= i < modules@.len() && module_runs(#[trigger] modules@[i], reachable@)
                && environment_sent(modules@, modules@[i].id@, modules@[i].flow.imports@, modules@[i].flow.body@)
                implies rule_reported(findings@, modules@, "JS-SECRET-EXFILTRATION"@, modules@[i].id@,
                    (modules@[i].flow.body@[0]->Expr_0)->Call_2) by {
                let id = "JS-SECRET-EXFILTRATION"@;
                let path = modules@[i].id@;
                let line = (modules@[i].flow.body@[0]->Expr_0)->Call_2;
                let k = choose|k: int| 0 <= k < evaluated.len() && (#[trigger] evaluated[k])@.id == id
                    && evaluated[k]@.file == Some(module_file(modules@, path)) && evaluated[k]@.line == Some(line);
                assert(findings_view(findings@)[k] == fs[k]);
                assert(findings_view(findings@)[k] == findings@[k]@);
                assert(fs[k] == evaluated[k]@);
            }
            assert forall|i: int| 0 <= i < modules@.len() && module_runs(#[trigger] modules@[i], reachable@)
                && local_sink(modules@, modules@[i].id@, modules@[i].flow.imports@, modules@[i].flow.body@)
                implies rule_reported(findings@, modules@,
                    sink_rule(called_fn(modules@, modules@[i].id@, modules@[i].flow.body@).body@[0]->Expr_0), modules@[i].id@,
                    (called_fn(modules@, modules@[i].id@, modules@[i].flow.body@).body@[0]->Expr_0)->Call_2) by {
                let id = sink_rule(called_fn(modules@, modules@[i].id@, modules@[i].flow.body@).body@[0]->Expr_0);
                let path = modules@[i].id@;
                let line = (called_fn(modules@, modules@[i].id@, modules@[i].flow.body@).body@[0]->Expr_0)->Call_2;
                let k = choose|k: int| 0 <= k < evaluated.len() && (#[trigger] evaluated[k])@.id == id
                    && evaluated[k]@.file == Some(module_file(modules@, path)) && evaluated[k]@.line == Some(line);
                assert(findings_view(findings@)[k] == fs[k]);
                assert(findings_view(findings@)[k] == findings@[k]@);
                assert(fs[k] == evaluated[k]@);
            }
        }
    }
    let mut reasons: Vec<String> = Vec::new();
    if ev.limited {
        let mut msg = crate::text::owned("JS/TS data-flow work limit of ");
        crate::text::push_decimal(&mut msg, MAX_FLOW_STEPS as u64);
        crate::text::push_str(&mut msg, " steps or call depth ");
        crate::text::push_decimal(&mut msg, MAX_CALL_DEPTH as u64);
        crate::text::push_str(&mut msg, " reached");
        reasons.push(msg);
    }
    FlowResult { findings, incomplete_reasons: reasons }
}

} // verus!
