//! Facts about one JavaScript module: its imports, its calls and the
//! capabilities that those calls reach.
use vstd::prelude::*;
use crate::scanner::js::flow::ModuleFlow;
use crate::text::{chars_of, is_one_of, strs_view};

verus! {

/// The most facts that one source file may yield.
pub const MAX_FACTS_PER_FILE: usize = 50000;

/// What a call can do.
#[derive(Clone, Copy, Debug, PartialEq, Eq, Structural)]
pub enum Capability {
    DynamicCode,
    Process,
    Network,
    Secret,
    FileRead,
    FileWrite,
    Chmod,
}

/// A call in a module, by its resolved name.
#[derive(Clone, Debug)]
pub struct CallFact {
    pub name: String,
    pub line: u64,
    pub evidence: String,
    pub capability: Option<Capability>,
    pub function: Option<String>,
}

/// A static import of a module.
#[derive(Clone, Debug)]
pub struct ImportFact {
    pub specifier: String,
    pub line: u64,
}

/// Everything the analysis keeps of one module.
#[derive(Debug)]
pub struct ModuleFacts {
    pub id: String,
    pub path: String,
    pub flow_enabled: bool,
    pub source_bytes: u64,
    pub imports: Vec<ImportFact>,
    pub calls: Vec<CallFact>,
    pub flow: ModuleFlow,
}

/// The facts of one parsed source and why they may be incomplete.
pub struct Collected {
    pub module: Option<ModuleFacts>,
    pub incomplete_reasons: Vec<String>,
}

pub open spec fn dynamic_code_names() -> Seq<Seq<char>> {
    seq!["eval"@, "Function"@, "global.Function"@, "globalThis.Function"@, "global.eval"@,
        "vm.runInThisContext"@, "vm.runInNewContext"@, "vm.runInContext"@, "vm.Script"@,
        "node:vm.runInThisContext"@, "node:vm.runInNewContext"@, "node:vm.runInContext"@,
        "node:vm.Script"@, "process.dlopen"@, "import"@]
}

pub open spec fn process_names() -> Seq<Seq<char>> {
    seq!["child_process.exec"@, "child_process.execSync"@, "child_process.spawn"@,
        "child_process.spawnSync"@, "child_process.fork"@, "node:child_process.exec"@,
        "node:child_process.execSync"@, "node:child_process.spawn"@,
        "node:child_process.spawnSync"@, "node:child_process.fork"@, "Bun.spawn"@,
        "Deno.Command"@]
}

pub open spec fn network_names() -> Seq<Seq<char>> {
    seq!["fetch"@, "axios"@, "axios.get"@, "axios.post"@, "http.request"@, "https.request"@,
        "node:http.request"@, "node:https.request"@, "got"@, "request"@, "undici.request"@,
        "WebSocket"@, "ws"@, "net.Socket"@, "tls.connect"@]
}

pub open spec fn file_read_names() -> Seq<Seq<char>> {
    seq!["fs.readFile"@, "fs.readFileSync"@, "node:fs.readFile"@, "node:fs.readFileSync"@]
}

pub open spec fn secret_names() -> Seq<Seq<char>> {
    seq!["process.env"@, "os.homedir"@, "node:os.homedir"@]
}

pub open spec fn file_write_names() -> Seq<Seq<char>> {
    seq!["fs.writeFile"@, "fs.writeFileSync"@, "node:fs.writeFile"@, "node:fs.writeFileSync"@]
}

pub open spec fn chmod_names() -> Seq<Seq<char>> {
    seq!["fs.chmod"@, "fs.chmodSync"@, "node:fs.chmod"@, "node:fs.chmodSync"@]
}

/// The capability of a resolved call name, if it has one.
pub open spec fn capability_of(name: Seq<char>) -> Option<Capability> {
    if dynamic_code_names().contains(name) {
        Some(Capability::DynamicCode)
    } else if process_names().contains(name) {
        Some(Capability::Process)
    } else if network_names().contains(name) {
        Some(Capability::Network)
    } else if file_read_names().contains(name) {
        Some(Capability::FileRead)
    } else if secret_names().contains(name) {
        Some(Capability::Secret)
    } else if file_write_names().contains(name) {
        Some(Capability::FileWrite)
    } else if chmod_names().contains(name) {
        Some(Capability::Chmod)
    } else {
        None
    }
}

/// The capability of a resolved call name, if it has one.
pub fn capability(name: &str) -> (r: Option<Capability>)
    ensures
        r == capability_of(name@),
{
    let v = chars_of(name);
    let dynamic = ["eval", "Function", "global.Function", "globalThis.Function", "global.eval",
        "vm.runInThisContext", "vm.runInNewContext", "vm.runInContext", "vm.Script",
        "node:vm.runInThisContext", "node:vm.runInNewContext", "node:vm.runInContext",
        "node:vm.Script", "process.dlopen", "import"];
    assert(strs_view(dynamic@) =~= dynamic_code_names());
    let process = ["child_process.exec", "child_process.execSync", "child_process.spawn",
        "child_process.spawnSync", "child_process.fork", "node:child_process.exec",
        "node:child_process.execSync", "node:child_process.spawn",
        "node:child_process.spawnSync", "node:child_process.fork", "Bun.spawn",
        "Deno.Command"];
    assert(strs_view(process@) =~= process_names());
    let network = ["fetch", "axios", "axios.get", "axios.post", "http.request", "https.request",
        "node:http.request", "node:https.request", "got", "request", "undici.request",
        "WebSocket", "ws", "net.Socket", "tls.connect"];
    assert(strs_view(network@) =~= network_names());
    let read = ["fs.readFile", "fs.readFileSync", "node:fs.readFile", "node:fs.readFileSync"];
    assert(strs_view(read@) =~= file_read_names());
    let secret = ["process.env", "os.homedir", "node:os.homedir"];
    assert(strs_view(secret@) =~= secret_names());
    let write = ["fs.writeFile", "fs.writeFileSync", "node:fs.writeFile", "node:fs.writeFileSync"];
    assert(strs_view(write@) =~= file_write_names());
    let chmod = ["fs.chmod", "fs.chmodSync", "node:fs.chmod", "node:fs.chmodSync"];
    assert(strs_view(chmod@) =~= chmod_names());
    if is_one_of(&v, &dynamic) {
        Some(Capability::DynamicCode)
    } else if is_one_of(&v, &process) {
        Some(Capability::Process)
    } else if is_one_of(&v, &network) {
        Some(Capability::Network)
    } else if is_one_of(&v, &read) {
        Some(Capability::FileRead)
    } else if is_one_of(&v, &secret) {
        Some(Capability::Secret)
    } else if is_one_of(&v, &write) {
        Some(Capability::FileWrite)
    } else if is_one_of(&v, &chmod) {
        Some(Capability::Chmod)
    } else {
        None
    }
}

} // verus!
