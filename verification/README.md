# preflightx

A static security scanner for untrusted source repositories. Its analyses
are written in Verus; what each one is proved to do is what its contract
says, and no more.

The scanner never runs or modifies the code it inspects. It classifies each
file's bytes, reads package manifests and developer-tool settings, expands
archives within byte, member, depth and time limits, follows imports from the
repository's execution roots (npm scripts, editor tasks, build configs), traces
labelled data through the JavaScript that those roots reach, and concludes a
report whose status, risk and exit code follow from its findings.

## Layout

- `src/` is the verified library. Among what its contracts state:
  - the import graph's routes lead from a root over import edges and are no
    longer than any other such route;
  - at a single library call, the data-flow evaluator reports remote data
    that reaches a dynamic-code or process API, secrets that reach a network
    API, downloaded bytes that are written and then run, and persistence
    commands and writes, each at the sink's module and line;
  - for a whole analysis, unless its work limit was reached, every module
    that runs is reported under the matching rule at its file and the sink's
    line when it begins by handing the result of a network call (directly,
    through a name it has just bound, or inside a function of its own that
    it calls) to a process or dynamic-code API, or by sending `process.env`
    to a network API;
  - the value of a literal, a name, an unknown expression, an assignment
    and `process.env`, and of a call or construction of a network API, is
    stated, and so is what a call of a library API or of a module's own
    function reports in those cases;
  - a ZIP or gzip archive whose kept members are not themselves archives
    (and a TAR archive none of whose readable members is one), or any
    archive read one level deep, keeps, in order, exactly the members whose
    entry reads, whose path is safe, which are regular files within the
    ratio, size, member and byte limits and whose content reads in full,
    unless the time budget ran out; parse errors, a spent or zero time
    budget and the member limit each leave their note;
  - configuration files nested deeper than the parser's bound are refused
    before they are parsed;
  - a scan whose parts fall short is reported incomplete; findings are
    ordered, bounded by the finding limit and deduplicated.
  Beyond these, the contracts of the evaluator's statements, expressions
  and calls into functions that a module defines say only that findings are
  kept and the state stays well formed; the members of nested archives are
  stated by their bounds, not member by member.
  Calls into outside crates (ZIP, TAR, gzip, JSON and JSON5, hashing,
  base64, MIME sniffing) stand behind small trusted wrappers whose contracts
  name what the crate returns.
- `tests/` runs the library on concrete inputs.
- `app/` holds the command line and the scan's file walk. Its modules for
  JavaScript parsing and lowering (which rest on Oxc), YARA matching (YARA-X),
  Git history and diffs (gix), registry downloads, writing the report (the
  SARIF run itself is built in `src/` by `sarif_run`), loading the threat
  database and the sandbox are not part of this tree, so `app/` does not
  build as it stands.
