//! Structured diagnostics.
//!
//! Every failure carries a stable code, a source location and a
//! machine-readable payload. Pretty-printing is a display layer on top, never
//! the primary representation.
//!
//! One type covers scene validation, asset import and script errors alike, so
//! a tool — or an agent — writes one handler rather than three parsers.
use vstd::prelude::*;

use crate::rng::{
    lemma_name_less_irreflexive, lemma_name_less_total, lemma_name_less_transitive, name_less,
    name_less_exec,
};
use crate::text::debug_text;

verus! {

/// How much a diagnostic matters.
#[derive(Clone, Copy, PartialEq, Eq, PartialOrd, Ord, Debug, Structural)]
pub enum Severity {
    /// Context, not a problem.
    Note,
    /// Something is suspect but the operation completed.
    Warning,
    /// The operation failed.
    Error,
}

/// The word a severity is written as.
pub open spec fn severity_text(s: Severity) -> Seq<char> {
    match s {
        Severity::Note => "note"@,
        Severity::Warning => "warning"@,
        Severity::Error => "error"@,
    }
}

impl Severity {
    /// The word it is written as: `note`, `warning` or `error`.
    pub fn as_str(&self) -> (r: &'static str)
        ensures
            r@ == severity_text(*self),
    {
        match self {
            Severity::Note => "note",
            Severity::Warning => "warning",
            Severity::Error => "error",
        }
    }
}

/// A stable diagnostic code such as `DIM0301`.
///
/// Codes never change meaning. A code may be retired, but it is not reused:
/// scripts and agents match on these, and a silently repurposed code turns a
/// working check into a wrong one.
#[derive(Clone, Copy, PartialEq, Eq, PartialOrd, Ord, Hash, Debug)]
pub struct Code(pub &'static str);

impl Code {
    /// File is not well-formed TOML.
    #[allow(non_snake_case)]
    pub fn PARSE_FAILED() -> (c: Code)
        ensures
            c.0@ == "DIM0100"@,
    {
        Code("DIM0100")
    }
    /// Unknown node kind.
    #[allow(non_snake_case)]
    pub fn UNKNOWN_KIND() -> (c: Code)
        ensures
            c.0@ == "DIM0101"@,
    {
        Code("DIM0101")
    }
    /// Duplicate node id.
    #[allow(non_snake_case)]
    pub fn DUPLICATE_ID() -> (c: Code)
        ensures
            c.0@ == "DIM0102"@,
    {
        Code("DIM0102")
    }
    /// Dangling parent reference.
    #[allow(non_snake_case)]
    pub fn DANGLING_PARENT() -> (c: Code)
        ensures
            c.0@ == "DIM0103"@,
    {
        Code("DIM0103")
    }
    /// Property shadows a reserved key.
    #[allow(non_snake_case)]
    pub fn RESERVED_KEY() -> (c: Code)
        ensures
            c.0@ == "DIM0104"@,
    {
        Code("DIM0104")
    }
    /// Duplicate sibling name.
    #[allow(non_snake_case)]
    pub fn DUPLICATE_NAME() -> (c: Code)
        ensures
            c.0@ == "DIM0105"@,
    {
        Code("DIM0105")
    }
    /// Child declared before its parent.
    #[allow(non_snake_case)]
    pub fn CHILD_BEFORE_PARENT() -> (c: Code)
        ensures
            c.0@ == "DIM0106"@,
    {
        Code("DIM0106")
    }
    /// Instance cycle.
    #[allow(non_snake_case)]
    pub fn INSTANCE_CYCLE() -> (c: Code)
        ensures
            c.0@ == "DIM0107"@,
    {
        Code("DIM0107")
    }
    /// Scene declares a root that does not exist.
    #[allow(non_snake_case)]
    pub fn MISSING_ROOT() -> (c: Code)
        ensures
            c.0@ == "DIM0108"@,
    {
        Code("DIM0108")
    }
    /// Malformed node id.
    #[allow(non_snake_case)]
    pub fn BAD_ID_FORM() -> (c: Code)
        ensures
            c.0@ == "DIM0109"@,
    {
        Code("DIM0109")
    }
    /// Missing or unsupported format header.
    #[allow(non_snake_case)]
    pub fn BAD_HEADER() -> (c: Code)
        ensures
            c.0@ == "DIM0110"@,
    {
        Code("DIM0110")
    }
    /// A block is missing a key it must have.
    #[allow(non_snake_case)]
    pub fn MISSING_KEY() -> (c: Code)
        ensures
            c.0@ == "DIM0111"@,
    {
        Code("DIM0111")
    }
    /// Property type mismatch.
    #[allow(non_snake_case)]
    pub fn TYPE_MISMATCH() -> (c: Code)
        ensures
            c.0@ == "DIM0201"@,
    {
        Code("DIM0201")
    }
    /// Value outside the schema's range.
    #[allow(non_snake_case)]
    pub fn OUT_OF_RANGE() -> (c: Code)
        ensures
            c.0@ == "DIM0202"@,
    {
        Code("DIM0202")
    }
    /// Scalar not exactly representable in fixed-point.
    #[allow(non_snake_case)]
    pub fn NOT_REPRESENTABLE() -> (c: Code)
        ensures
            c.0@ == "DIM0203"@,
    {
        Code("DIM0203")
    }
    /// Malformed typed reference.
    #[allow(non_snake_case)]
    pub fn BAD_REFERENCE() -> (c: Code)
        ensures
            c.0@ == "DIM0204"@,
    {
        Code("DIM0204")
    }
    /// Malformed run-length tile data.
    #[allow(non_snake_case)]
    pub fn BAD_CHUNK_DATA() -> (c: Code)
        ensures
            c.0@ == "DIM0205"@,
    {
        Code("DIM0205")
    }
    /// Unknown property.
    #[allow(non_snake_case)]
    pub fn UNKNOWN_PROPERTY() -> (c: Code)
        ensures
            c.0@ == "DIM0301"@,
    {
        Code("DIM0301")
    }
    /// Override targets a node the source no longer has.
    #[allow(non_snake_case)]
    pub fn ORPHANED_OVERRIDE() -> (c: Code)
        ensures
            c.0@ == "DIM0302"@,
    {
        Code("DIM0302")
    }
    /// Required property is absent.
    #[allow(non_snake_case)]
    pub fn MISSING_REQUIRED() -> (c: Code)
        ensures
            c.0@ == "DIM0303"@,
    {
        Code("DIM0303")
    }
    /// Command names a node that does not exist.
    #[allow(non_snake_case)]
    pub fn NO_SUCH_NODE() -> (c: Code)
        ensures
            c.0@ == "DIM0401"@,
    {
        Code("DIM0401")
    }
    /// Reparenting would create a cycle.
    #[allow(non_snake_case)]
    pub fn ILLEGAL_REPARENT() -> (c: Code)
        ensures
            c.0@ == "DIM0402"@,
    {
        Code("DIM0402")
    }
    /// Undo stack is empty.
    #[allow(non_snake_case)]
    pub fn NOTHING_TO_UNDO() -> (c: Code)
        ensures
            c.0@ == "DIM0403"@,
    {
        Code("DIM0403")
    }
    /// Command is not valid in this run mode.
    #[allow(non_snake_case)]
    pub fn COMMAND_REJECTED() -> (c: Code)
        ensures
            c.0@ == "DIM0404"@,
    {
        Code("DIM0404")
    }
    /// Lua syntax error.
    #[allow(non_snake_case)]
    pub fn SCRIPT_SYNTAX() -> (c: Code)
        ensures
            c.0@ == "DIM0501"@,
    {
        Code("DIM0501")
    }
    /// Lua runtime error.
    #[allow(non_snake_case)]
    pub fn SCRIPT_RUNTIME() -> (c: Code)
        ensures
            c.0@ == "DIM0502"@,
    {
        Code("DIM0502")
    }
    /// Script reached for something the sandbox withholds.
    #[allow(non_snake_case)]
    pub fn SCRIPT_SANDBOX() -> (c: Code)
        ensures
            c.0@ == "DIM0503"@,
    {
        Code("DIM0503")
    }
    /// Script used a handle to a destroyed node.
    #[allow(non_snake_case)]
    pub fn STALE_HANDLE() -> (c: Code)
        ensures
            c.0@ == "DIM0504"@,
    {
        Code("DIM0504")
    }
    /// Script passed an argument the binding cannot accept.
    #[allow(non_snake_case)]
    pub fn SCRIPT_BAD_ARGUMENT() -> (c: Code)
        ensures
            c.0@ == "DIM0505"@,
    {
        Code("DIM0505")
    }
    /// Referenced asset is not in the project.
    #[allow(non_snake_case)]
    pub fn ASSET_MISSING() -> (c: Code)
        ensures
            c.0@ == "DIM0601"@,
    {
        Code("DIM0601")
    }
    /// Asset import failed.
    #[allow(non_snake_case)]
    pub fn IMPORT_FAILED() -> (c: Code)
        ensures
            c.0@ == "DIM0602"@,
    {
        Code("DIM0602")
    }
    /// Unsupported source format.
    #[allow(non_snake_case)]
    pub fn UNSUPPORTED_ASSET() -> (c: Code)
        ensures
            c.0@ == "DIM0603"@,
    {
        Code("DIM0603")
    }
    /// Replay state hash diverged from the recorded log.
    #[allow(non_snake_case)]
    pub fn REPLAY_DIVERGED() -> (c: Code)
        ensures
            c.0@ == "DIM0701"@,
    {
        Code("DIM0701")
    }
    /// Replay probe assertion failed.
    #[allow(non_snake_case)]
    pub fn PROBE_FAILED() -> (c: Code)
        ensures
            c.0@ == "DIM0702"@,
    {
        Code("DIM0702")
    }
    /// Input log was recorded against a different scene or engine version.
    #[allow(non_snake_case)]
    pub fn LOG_MISMATCH() -> (c: Code)
        ensures
            c.0@ == "DIM0703"@,
    {
        Code("DIM0703")
    }
    /// The command is implemented but something this build needs is missing.
    #[allow(non_snake_case)]
    pub fn NOT_IMPLEMENTED() -> (c: Code)
        ensures
            c.0@ == "DIM0801"@,
    {
        Code("DIM0801")
    }
    /// A command-line argument could not be parsed.
    #[allow(non_snake_case)]
    pub fn BAD_ARGUMENT() -> (c: Code)
        ensures
            c.0@ == "DIM0802"@,
    {
        Code("DIM0802")
    }
    /// project.toml exists but could not be read or parsed.
    #[allow(non_snake_case)]
    pub fn SETTINGS_UNREADABLE() -> (c: Code)
        ensures
            c.0@ == "DIM0901"@,
    {
        Code("DIM0901")
    }
    /// A project setting is out of range or the wrong shape.
    #[allow(non_snake_case)]
    pub fn SETTINGS_INVALID() -> (c: Code)
        ensures
            c.0@ == "DIM0902"@,
    {
        Code("DIM0902")
    }
    /// An input binding names an action the engine does not have.
    #[allow(non_snake_case)]
    pub fn BINDING_UNKNOWN() -> (c: Code)
        ensures
            c.0@ == "DIM0903"@,
    {
        Code("DIM0903")
    }

    /// The code's text, such as `DIM0301`.
    pub fn as_str(&self) -> (r: &'static str)
        ensures
            r@ == self.0@,
    {
        self.0
    }

    /// The registered code with this text.
    ///
    /// Codes resolve against the registry, so a code read back from text is
    /// always one the engine knows about: an unrecognised code is refused
    /// rather than accepted, so a typo does not survive a round trip.
    pub fn resolve(text: &str) -> (r: Result<Code, String>)
        ensures
            match code_position(code_table(), text@) {
                Some(k) => r matches Ok(c) && c.0@ == text@ && k < code_table().len(),
                None => r matches Err(m) && m@ == "unknown diagnostic code "@ + debug_text(text@),
            },
    {
        proof {
            lemma_position_finds(code_table(), text@);
        }
        match code_info_of(text) {
            Some(info) => Ok(info.code),
            None => {
                let mut m = crate::text::string_from("unknown diagnostic code ");
                let q = crate::text::debug_str(text);
                crate::text::push_str(&mut m, q.as_str());
                Err(m)
            },
        }
    }
}

/// A registered code with its documentation.
#[derive(Clone, Copy, Debug)]
pub struct CodeInfo {
    /// The code itself.
    pub code: Code,
    /// Severity the engine emits it at.
    pub severity: Severity,
    /// One-line description, used in generated docs.
    pub summary: &'static str,
}

/// Every code the engine can emit, in numeric order: its text, the severity
/// it is emitted at, and its one-line description.
pub open spec fn code_table() -> Seq<(Seq<char>, Severity, Seq<char>)> {
    seq![
        ("DIM0100"@, Severity::Error, "File is not well-formed TOML"@),
        ("DIM0101"@, Severity::Error, "Unknown node kind"@),
        ("DIM0102"@, Severity::Error, "Duplicate node id"@),
        ("DIM0103"@, Severity::Error, "Dangling parent reference"@),
        ("DIM0104"@, Severity::Error, "Property shadows a reserved key"@),
        ("DIM0105"@, Severity::Error, "Duplicate sibling name"@),
        ("DIM0106"@, Severity::Error, "Child declared before its parent"@),
        ("DIM0107"@, Severity::Error, "Instance cycle"@),
        ("DIM0108"@, Severity::Error, "Scene declares a root that does not exist"@),
        ("DIM0109"@, Severity::Error, "Malformed node id"@),
        ("DIM0110"@, Severity::Error, "Missing or unsupported format header"@),
        ("DIM0111"@, Severity::Error, "A block is missing a key it must have"@),
        ("DIM0201"@, Severity::Error, "Property type mismatch"@),
        ("DIM0202"@, Severity::Error, "Value outside the schema's range"@),
        ("DIM0203"@, Severity::Error, "Scalar not exactly representable in fixed-point"@),
        ("DIM0204"@, Severity::Error, "Malformed typed reference"@),
        ("DIM0205"@, Severity::Error, "Malformed run-length tile data"@),
        ("DIM0301"@, Severity::Error, "Unknown property"@),
        ("DIM0302"@, Severity::Warning, "Override targets a node the source no longer has"@),
        ("DIM0303"@, Severity::Error, "Required property is absent"@),
        ("DIM0401"@, Severity::Error, "Command names a node that does not exist"@),
        ("DIM0402"@, Severity::Error, "Reparenting would create a cycle"@),
        ("DIM0403"@, Severity::Error, "Undo stack is empty"@),
        ("DIM0404"@, Severity::Error, "Command is not valid in this run mode"@),
        ("DIM0501"@, Severity::Error, "Lua syntax error"@),
        ("DIM0502"@, Severity::Error, "Lua runtime error"@),
        ("DIM0503"@, Severity::Error, "Script reached for something the sandbox withholds"@),
        ("DIM0504"@, Severity::Error, "Script used a handle to a destroyed node"@),
        ("DIM0505"@, Severity::Error, "Script passed an argument the binding cannot accept"@),
        ("DIM0601"@, Severity::Error, "Referenced asset is not in the project"@),
        ("DIM0602"@, Severity::Error, "Asset import failed"@),
        ("DIM0603"@, Severity::Error, "Unsupported source format"@),
        ("DIM0701"@, Severity::Error, "Replay state hash diverged from the recorded log"@),
        ("DIM0702"@, Severity::Error, "Replay probe assertion failed"@),
        ("DIM0703"@, Severity::Error, "Input log was recorded against a different scene or engine version"@),
        ("DIM0801"@, Severity::Error, "The command is implemented but something this build needs is missing"@),
        ("DIM0802"@, Severity::Error, "A command-line argument could not be parsed"@),
        ("DIM0901"@, Severity::Error, "project.toml exists but could not be read or parsed"@),
        ("DIM0902"@, Severity::Error, "A project setting is out of range or the wrong shape"@),
        ("DIM0903"@, Severity::Error, "An input binding names an action the engine does not have"@),
    ]
}

/// Where `text` first appears among the codes of `table`.
pub open spec fn code_position(table: Seq<(Seq<char>, Severity, Seq<char>)>, text: Seq<char>) -> Option<int>
    decreases table.len(),
{
    if table.len() == 0 {
        None
    } else if table.last().0 == text && code_position(table.drop_last(), text) is None {
        Some(table.len() - 1)
    } else {
        code_position(table.drop_last(), text)
    }
}

/// A registry entry seen as plain values.
pub open spec fn info_view(i: CodeInfo) -> (Seq<char>, Severity, Seq<char>) {
    (i.code.0@, i.severity, i.summary@)
}

/// Every code the engine can emit, in numeric order.
pub fn codes() -> (v: Vec<CodeInfo>)
    ensures
        v@.len() == code_table().len(),
        forall|k: int| 0 <= k < v@.len() ==> info_view(#[trigger] v@[k]) == code_table()[k],
{
    let mut v: Vec<CodeInfo> = Vec::new();
    v.push(CodeInfo { code: Code("DIM0100"), severity: Severity::Error, summary: "File is not well-formed TOML" });
    v.push(CodeInfo { code: Code("DIM0101"), severity: Severity::Error, summary: "Unknown node kind" });
    v.push(CodeInfo { code: Code("DIM0102"), severity: Severity::Error, summary: "Duplicate node id" });
    v.push(CodeInfo { code: Code("DIM0103"), severity: Severity::Error, summary: "Dangling parent reference" });
    v.push(CodeInfo { code: Code("DIM0104"), severity: Severity::Error, summary: "Property shadows a reserved key" });
    v.push(CodeInfo { code: Code("DIM0105"), severity: Severity::Error, summary: "Duplicate sibling name" });
    v.push(CodeInfo { code: Code("DIM0106"), severity: Severity::Error, summary: "Child declared before its parent" });
    v.push(CodeInfo { code: Code("DIM0107"), severity: Severity::Error, summary: "Instance cycle" });
    v.push(CodeInfo { code: Code("DIM0108"), severity: Severity::Error, summary: "Scene declares a root that does not exist" });
    v.push(CodeInfo { code: Code("DIM0109"), severity: Severity::Error, summary: "Malformed node id" });
    v.push(CodeInfo { code: Code("DIM0110"), severity: Severity::Error, summary: "Missing or unsupported format header" });
    v.push(CodeInfo { code: Code("DIM0111"), severity: Severity::Error, summary: "A block is missing a key it must have" });
    v.push(CodeInfo { code: Code("DIM0201"), severity: Severity::Error, summary: "Property type mismatch" });
    v.push(CodeInfo { code: Code("DIM0202"), severity: Severity::Error, summary: "Value outside the schema's range" });
    v.push(CodeInfo { code: Code("DIM0203"), severity: Severity::Error, summary: "Scalar not exactly representable in fixed-point" });
    v.push(CodeInfo { code: Code("DIM0204"), severity: Severity::Error, summary: "Malformed typed reference" });
    v.push(CodeInfo { code: Code("DIM0205"), severity: Severity::Error, summary: "Malformed run-length tile data" });
    v.push(CodeInfo { code: Code("DIM0301"), severity: Severity::Error, summary: "Unknown property" });
    v.push(CodeInfo { code: Code("DIM0302"), severity: Severity::Warning, summary: "Override targets a node the source no longer has" });
    v.push(CodeInfo { code: Code("DIM0303"), severity: Severity::Error, summary: "Required property is absent" });
    v.push(CodeInfo { code: Code("DIM0401"), severity: Severity::Error, summary: "Command names a node that does not exist" });
    v.push(CodeInfo { code: Code("DIM0402"), severity: Severity::Error, summary: "Reparenting would create a cycle" });
    v.push(CodeInfo { code: Code("DIM0403"), severity: Severity::Error, summary: "Undo stack is empty" });
    v.push(CodeInfo { code: Code("DIM0404"), severity: Severity::Error, summary: "Command is not valid in this run mode" });
    v.push(CodeInfo { code: Code("DIM0501"), severity: Severity::Error, summary: "Lua syntax error" });
    v.push(CodeInfo { code: Code("DIM0502"), severity: Severity::Error, summary: "Lua runtime error" });
    v.push(CodeInfo { code: Code("DIM0503"), severity: Severity::Error, summary: "Script reached for something the sandbox withholds" });
    v.push(CodeInfo { code: Code("DIM0504"), severity: Severity::Error, summary: "Script used a handle to a destroyed node" });
    v.push(CodeInfo { code: Code("DIM0505"), severity: Severity::Error, summary: "Script passed an argument the binding cannot accept" });
    v.push(CodeInfo { code: Code("DIM0601"), severity: Severity::Error, summary: "Referenced asset is not in the project" });
    v.push(CodeInfo { code: Code("DIM0602"), severity: Severity::Error, summary: "Asset import failed" });
    v.push(CodeInfo { code: Code("DIM0603"), severity: Severity::Error, summary: "Unsupported source format" });
    v.push(CodeInfo { code: Code("DIM0701"), severity: Severity::Error, summary: "Replay state hash diverged from the recorded log" });
    v.push(CodeInfo { code: Code("DIM0702"), severity: Severity::Error, summary: "Replay probe assertion failed" });
    v.push(CodeInfo { code: Code("DIM0703"), severity: Severity::Error, summary: "Input log was recorded against a different scene or engine version" });
    v.push(CodeInfo { code: Code("DIM0801"), severity: Severity::Error, summary: "The command is implemented but something this build needs is missing" });
    v.push(CodeInfo { code: Code("DIM0802"), severity: Severity::Error, summary: "A command-line argument could not be parsed" });
    v.push(CodeInfo { code: Code("DIM0901"), severity: Severity::Error, summary: "project.toml exists but could not be read or parsed" });
    v.push(CodeInfo { code: Code("DIM0902"), severity: Severity::Error, summary: "A project setting is out of range or the wrong shape" });
    v.push(CodeInfo { code: Code("DIM0903"), severity: Severity::Error, summary: "An input binding names an action the engine does not have" });
    proof {
        assert(v@.len() == code_table().len());
        assert forall|k: int| 0 <= k < v@.len() implies info_view(#[trigger] v@[k]) == code_table()[k] by {}
    }
    v
}

/// The registry entry for a code's text.
fn code_info_of(text: &str) -> (r: Option<CodeInfo>)
    ensures
        match code_position(code_table(), text@) {
            Some(k) => r matches Some(i) && info_view(i) == code_table()[k] && 0 <= k < code_table().len(),
            None => r is None,
        },
{
    let table = codes();
    let mut k: usize = 0;
    while k < table.len()
        invariant
            k <= table@.len(),
            table@.len() == code_table().len(),
            forall|j: int| 0 <= j < table@.len() ==> info_view(#[trigger] table@[j]) == code_table()[j],
            code_position(code_table().take(k as int), text@) is None,
        decreases table@.len() - k,
    {
        if crate::text::str_eq(table[k].code.0, text) {
            proof {
                assert(code_table().take(k + 1).drop_last() =~= code_table().take(k as int));
                lemma_position_prefix(code_table(), text@, k + 1);
            }
            return Some(table[k]);
        }
        proof {
            assert(code_table().take(k + 1).drop_last() =~= code_table().take(k as int));
        }
        k = k + 1;
    }
    proof {
        assert(code_table().take(k as int) =~= code_table());
    }
    None
}

/// Where a code is found, the table has that code.
proof fn lemma_position_finds(t: Seq<(Seq<char>, Severity, Seq<char>)>, text: Seq<char>)
    ensures
        code_position(t, text) matches Some(k) ==> 0 <= k < t.len() && t[k].0 == text,
    decreases t.len(),
{
    if t.len() > 0 {
        lemma_position_finds(t.drop_last(), text);
    }
}

/// A code found in a prefix of the table is found at the same place in the
/// whole table.
proof fn lemma_position_prefix(t: Seq<(Seq<char>, Severity, Seq<char>)>, text: Seq<char>, n: int)
    requires
        0 <= n <= t.len(),
        code_position(t.take(n), text) is Some,
    ensures
        code_position(t, text) == code_position(t.take(n), text),
    decreases t.len() - n,
{
    if n < t.len() {
        assert(t.take(n + 1).drop_last() =~= t.take(n));
        lemma_position_prefix(t, text, n + 1);
    } else {
        assert(t.take(n) =~= t);
    }
}

/// Look up a registered code.
pub fn code_info(code: Code) -> (r: Option<CodeInfo>)
    ensures
        match code_position(code_table(), code.0@) {
            Some(k) => r matches Some(i) && info_view(i) == code_table()[k],
            None => r is None,
        },
{
    code_info_of(code.0)
}

/// Where a diagnostic came from.
#[derive(Clone, PartialEq, Eq, Debug, Default)]
pub struct Span {
    /// Project-relative file path.
    pub file: String,
    /// 1-based line, when known.
    pub line: Option<u32>,
    /// 1-based column, when known.
    pub column: Option<u32>,
}

/// A span written out: the file, then `:line` when known, then `:column`
/// when that is known too.
pub open spec fn span_text(s: Span) -> Seq<char> {
    s.file@ + match s.line {
        Some(l) => ":"@ + crate::decimal::decimal(l as nat) + match s.column {
            Some(c) => ":"@ + crate::decimal::decimal(c as nat),
            None => Seq::empty(),
        },
        None => Seq::empty(),
    }
}

impl Span {
    /// A whole-file span.
    pub fn file(path: &str) -> (s: Span)
        ensures
            s.file@ == path@,
            s.line is None,
            s.column is None,
    {
        Span { file: crate::text::string_from(path), line: None, column: None }
    }

    /// A span at a specific line.
    pub fn at(path: &str, line: u32) -> (s: Span)
        ensures
            s.file@ == path@,
            s.line == Some(line),
            s.column is None,
    {
        Span { file: crate::text::string_from(path), line: Some(line), column: None }
    }

    /// The span written out, as [`span_text`] says.
    pub fn to_text(&self) -> (out: String)
        ensures
            out@ == span_text(*self),
    {
        let mut out = crate::text::string_from(self.file.as_str());
        if let Some(line) = self.line {
            crate::text::push_str(&mut out, ":");
            crate::text::push_u64(&mut out, line as u64);
            if let Some(col) = self.column {
                crate::text::push_str(&mut out, ":");
                crate::text::push_u64(&mut out, col as u64);
            }
        }
        out
    }
}

/// A machine-readable detail value.
#[derive(Clone, PartialEq, Eq, Debug)]
pub enum FieldValue {
    /// Nothing.
    Null,
    /// A flag.
    Bool(bool),
    /// A whole number.
    Int(i64),
    /// Text.
    Text(String),
}

/// The value recorded under `key`: the first such field's.
pub open spec fn field_lookup(fields: Seq<(String, FieldValue)>, key: Seq<char>) -> Option<FieldValue>
    decreases fields.len(),
{
    if fields.len() == 0 {
        None
    } else if fields[0].0@ == key {
        Some(fields[0].1)
    } else {
        field_lookup(fields.drop_first(), key)
    }
}

/// One structured failure or warning.
#[derive(Clone, PartialEq, Debug)]
pub struct Diagnostic {
    /// Stable code.
    pub code: Code,
    /// How much it matters.
    pub severity: Severity,
    /// Human-readable summary. Never parse this; match on `code` instead.
    pub message: String,
    /// Where it happened.
    pub span: Option<Box<Span>>,
    /// The node involved, as a scene path.
    pub node_path: Option<String>,
    /// Machine-readable detail, by key. Keys are stable per code.
    pub fields: Vec<(String, FieldValue)>,
}

/// A diagnostic written out: `severity[CODE]`, the span when there is one,
/// the message, and the node when there is one.
pub open spec fn diagnostic_text(d: Diagnostic) -> Seq<char> {
    severity_text(d.severity) + "["@ + d.code.0@ + "]"@ + match d.span {
        Some(b) => " "@ + span_text(*b),
        None => Seq::empty(),
    } + ": "@ + d.message@ + match d.node_path {
        Some(p) => " (at "@ + p@ + ")"@,
        None => Seq::empty(),
    }
}

/// The severity a code is registered at, or error for an unregistered one.
pub open spec fn registered_severity(code: Seq<char>) -> Severity {
    match code_position(code_table(), code) {
        Some(k) => code_table()[k].1,
        None => Severity::Error,
    }
}

/// Where a code is found, the table holds that code.
proof fn lemma_code_position_finds(table: Seq<(Seq<char>, Severity, Seq<char>)>, text: Seq<char>)
    ensures
        match code_position(table, text) {
            Some(k) => 0 <= k < table.len() && table[k].0 == text,
            None => true,
        },
    decreases table.len(),
{
    if table.len() > 0 {
        lemma_code_position_finds(table.drop_last(), text);
    }
}

/// Severities are as documented, whatever the registry holds: `DIM0302`
/// (an override whose target is gone) is a warning, and every other code,
/// registered or not, is an error. So a fresh diagnostic of `DIM0302` is not
/// an error, and one of any other code is.
pub proof fn lemma_only_orphaned_overrides_are_warnings(code: Seq<char>)
    ensures
        code == seq!['D', 'I', 'M', '0', '3', '0', '2'] ==> registered_severity(code) == Severity::Warning,
        code != seq!['D', 'I', 'M', '0', '3', '0', '2'] ==> registered_severity(code) == Severity::Error,
{
    let t = code_table();
    let c302 = seq!['D', 'I', 'M', '0', '3', '0', '2'];
    reveal_strlit("DIM0302");
    assert("DIM0302"@ =~= c302);
    assert(t[18].0 == c302 && t[18].1 == Severity::Warning);
    assert forall|k: int| 0 <= k < t.len() && t[k].1 != Severity::Error implies t[k].0 == c302 by {}
    lemma_code_position_finds(t, code);
    if code == c302 {
    reveal_strlit("DIM0100");
    reveal_strlit("DIM0101");
    reveal_strlit("DIM0102");
    reveal_strlit("DIM0103");
    reveal_strlit("DIM0104");
    reveal_strlit("DIM0105");
    reveal_strlit("DIM0106");
    reveal_strlit("DIM0107");
    reveal_strlit("DIM0108");
    reveal_strlit("DIM0109");
    reveal_strlit("DIM0110");
    reveal_strlit("DIM0111");
    reveal_strlit("DIM0201");
    reveal_strlit("DIM0202");
    reveal_strlit("DIM0203");
    reveal_strlit("DIM0204");
    reveal_strlit("DIM0205");
    reveal_strlit("DIM0301");
        assert forall|j: int| 0 <= j < 18 implies t[j].0 != c302 by {
            assert(t[j].0[4] != '3' || t[j].0[6] != '2');
        }
        lemma_code_position_first(t, c302, 18);
    }
}

/// Where a code first appears, it is found there.
proof fn lemma_code_position_first(table: Seq<(Seq<char>, Severity, Seq<char>)>, text: Seq<char>, k: int)
    requires
        0 <= k < table.len(),
        table[k].0 == text,
        forall|j: int| 0 <= j < k ==> table[j].0 != text,
    ensures
        code_position(table, text) == Some(k),
    decreases table.len(),
{
    if k < table.len() - 1 {
        assert forall|j: int| 0 <= j < k implies table.drop_last()[j].0 != text by {
            assert(table.drop_last()[j] == table[j]);
        }
        lemma_code_position_first(table.drop_last(), text, k);
    } else {
        lemma_code_position_absent(table.drop_last(), text);
    }
}

/// A code the table does not hold is not found.
proof fn lemma_code_position_absent(table: Seq<(Seq<char>, Severity, Seq<char>)>, text: Seq<char>)
    requires
        forall|j: int| 0 <= j < table.len() ==> table[j].0 != text,
    ensures
        code_position(table, text) is None,
    decreases table.len(),
{
    if table.len() > 0 {
        assert forall|j: int| 0 <= j < table.drop_last().len() implies table.drop_last()[j].0 != text by {
            assert(table.drop_last()[j] == table[j]);
        }
        lemma_code_position_absent(table.drop_last(), text);
    }
}

impl Diagnostic {
    /// Start a diagnostic at the code's registered severity.
    pub fn new(code: Code, message: String) -> (d: Diagnostic)
        ensures
            d.code == code,
            d.severity == registered_severity(code.0@),
            d.message == message,
            d.span is None,
            d.node_path is None,
            d.fields@.len() == 0,
    {
        let severity = match code_info(code) {
            Some(i) => i.severity,
            None => Severity::Error,
        };
        Diagnostic { code, severity, message, span: None, node_path: None, fields: Vec::new() }
    }

    /// Attach a source location.
    pub fn with_span(self, span: Span) -> (d: Diagnostic)
        ensures
            d == (Diagnostic { span: Some(Box::new(span)), ..self }),
    {
        let mut d = self;
        d.span = Some(Box::new(span));
        d
    }

    /// The source location, if there is one.
    pub fn span(&self) -> (r: Option<&Span>)
        ensures
            match self.span {
                Some(b) => r == Some(&*b),
                None => r is None,
            },
    {
        match &self.span {
            Some(b) => Some(&**b),
            None => None,
        }
    }

    /// Attach the scene path of the node involved.
    pub fn with_node(self, path: String) -> (d: Diagnostic)
        ensures
            d == (Diagnostic { node_path: Some(path), ..self }),
    {
        let mut d = self;
        d.node_path = Some(path);
        d
    }

    /// Attach a machine-readable field, replacing one with the same key.
    pub fn with_field(self, key: &str, value: FieldValue) -> (d: Diagnostic)
        ensures
            d.code == self.code,
            d.severity == self.severity,
            d.message == self.message,
            d.span == self.span,
            d.node_path == self.node_path,
            forall|k: Seq<char>|
                #[trigger] field_lookup(d.fields@, k) == if k == key@ {
                    Some(value)
                } else {
                    field_lookup(self.fields@, k)
                },
    {
        let mut d = self;
        let ghost before = d.fields@;
        let mut i: usize = 0;
        while i < d.fields.len() && !crate::text::str_eq(d.fields[i].0.as_str(), key)
            invariant
                i <= d.fields@.len(),
                d.fields@ == before,
                forall|j: int| 0 <= j < i ==> (#[trigger] before[j]).0@ != key@,
            decreases d.fields@.len() - i,
        {
            i = i + 1;
        }
        let name = crate::text::string_from(key);
        let ghost entry = (name, value);
        if i < d.fields.len() {
            d.fields.set(i, (name, value));
            proof {
                assert(d.fields@ == before.update(i as int, entry));
                assert forall|k: Seq<char>|
                    #[trigger] field_lookup(d.fields@, k) == if k == key@ {
                        Some(value)
                    } else {
                        field_lookup(before, k)
                    } by {
                    lemma_field_lookup_update(before, i as int, key@, entry, k);
                }
            }
        } else {
            d.fields.push((name, value));
            proof {
                assert forall|k: Seq<char>|
                    #[trigger] field_lookup(d.fields@, k) == if k == key@ {
                        Some(value)
                    } else {
                        field_lookup(before, k)
                    } by {
                    lemma_field_lookup_push(before, key@, entry, k);
                }
            }
        }
        d
    }

    /// Override the severity.
    pub fn with_severity(self, severity: Severity) -> (d: Diagnostic)
        ensures
            d == (Diagnostic { severity, ..self }),
    {
        let mut d = self;
        d.severity = severity;
        d
    }

    /// True when this stops the operation.
    pub fn is_error(&self) -> (r: bool)
        ensures
            r == (self.severity == Severity::Error),
    {
        self.severity == Severity::Error
    }

    /// The diagnostic written out, as [`diagnostic_text`] says.
    pub fn to_text(&self) -> (out: String)
        ensures
            out@ == diagnostic_text(*self),
    {
        let mut out = crate::text::string_from(self.severity.as_str());
        crate::text::push_str(&mut out, "[");
        crate::text::push_str(&mut out, self.code.0);
        crate::text::push_str(&mut out, "]");
        if let Some(span) = &self.span {
            crate::text::push_str(&mut out, " ");
            let t = span.to_text();
            crate::text::push_str(&mut out, t.as_str());
        }
        crate::text::push_str(&mut out, ": ");
        crate::text::push_str(&mut out, self.message.as_str());
        if let Some(path) = &self.node_path {
            crate::text::push_str(&mut out, " (at ");
            crate::text::push_str(&mut out, path.as_str());
            crate::text::push_str(&mut out, ")");
        }
        out
    }
}

/// Replacing the first field with a key changes that key's value only.
proof fn lemma_field_lookup_update(
    fields: Seq<(String, FieldValue)>,
    i: int,
    key: Seq<char>,
    entry: (String, FieldValue),
    k: Seq<char>,
)
    requires
        0 <= i < fields.len(),
        fields[i].0@ == key,
        entry.0@ == key,
        forall|j: int| 0 <= j < i ==> (#[trigger] fields[j]).0@ != key,
    ensures
        field_lookup(fields.update(i, entry), k) == if k == key {
            Some(entry.1)
        } else {
            field_lookup(fields, k)
        },
    decreases i,
{
    let u = fields.update(i, entry);
    if i == 0 {
        assert(u.drop_first() =~= fields.drop_first());
    } else {
        assert(fields[0].0@ != key);
        assert(u[0] == fields[0]);
        assert(u.drop_first() =~= fields.drop_first().update(i - 1, entry));
        assert forall|j: int| 0 <= j < i - 1 implies (#[trigger] fields.drop_first()[j]).0@ != key by {
            assert(fields.drop_first()[j] == fields[j + 1]);
        }
        lemma_field_lookup_update(fields.drop_first(), i - 1, key, entry, k);
    }
}

/// Adding a field whose key is new sets that key's value only.
proof fn lemma_field_lookup_push(fields: Seq<(String, FieldValue)>, key: Seq<char>, entry: (String, FieldValue), k: Seq<char>)
    requires
        entry.0@ == key,
        forall|j: int| 0 <= j < fields.len() ==> (#[trigger] fields[j]).0@ != key,
    ensures
        field_lookup(fields.push(entry), k) == if k == key {
            Some(entry.1)
        } else {
            field_lookup(fields, k)
        },
    decreases fields.len(),
{
    if fields.len() > 0 {
        assert(fields.push(entry).drop_first() =~= fields.drop_first().push(entry));
        assert(fields.push(entry)[0] == fields[0]);
        assert(fields[0].0@ != key);
        assert forall|j: int| 0 <= j < fields.drop_first().len() implies (#[trigger] fields.drop_first()[j]).0@ != key by {
            assert(fields.drop_first()[j] == fields[j + 1]);
        }
        lemma_field_lookup_push(fields.drop_first(), key, entry, k);
    } else {
        let e = Seq::<(String, FieldValue)>::empty();
        assert(fields.push(entry).drop_first() =~= e);
        assert(fields.push(entry)[0] == entry);
        assert(field_lookup(e, k) is None);
        assert(field_lookup(fields, k) is None);
    }
}

/// A batch of diagnostics.
///
/// Validation collects rather than bailing on the first problem: a scene
/// with six typos should report six typos.
#[derive(Clone, Debug, Default, PartialEq)]
pub struct Diagnostics(pub Vec<Diagnostic>);

/// The diagnostics some references point at.
pub open spec fn derefs(v: Seq<&Diagnostic>) -> Seq<Diagnostic> {
    Seq::new(v.len(), |i: int| *v[i])
}

/// Whether any entry is an error.
pub open spec fn any_error(ds: Seq<Diagnostic>) -> bool {
    exists|i: int| 0 <= i < ds.len() && (#[trigger] ds[i]).severity == Severity::Error
}

/// A batch written out: one diagnostic a line.
pub open spec fn diagnostics_text(ds: Seq<Diagnostic>) -> Seq<char>
    decreases ds.len(),
{
    if ds.len() == 0 {
        Seq::empty()
    } else if ds.len() == 1 {
        diagnostic_text(ds[0])
    } else {
        diagnostics_text(ds.drop_last()) + "\n"@ + diagnostic_text(ds.last())
    }
}

impl Diagnostics {
    /// An empty batch.
    pub fn new() -> (r: Diagnostics)
        ensures
            r.0@.len() == 0,
    {
        Diagnostics(Vec::new())
    }

    /// Add one.
    pub fn push(&mut self, d: Diagnostic)
        ensures
            final(self).0@ == old(self).0@.push(d),
    {
        self.0.push(d);
    }

    /// Merge another batch in, after this one's entries.
    pub fn extend(&mut self, other: Diagnostics)
        ensures
            final(self).0@ == old(self).0@ + other.0@,
    {
        let mut rest = other.0;
        self.0.append(&mut rest);
    }

    /// True when nothing was reported.
    pub fn is_empty(&self) -> (r: bool)
        ensures
            r == (self.0@.len() == 0),
    {
        self.0.len() == 0
    }

    /// How many entries.
    pub fn len(&self) -> (r: usize)
        ensures
            r == self.0@.len(),
    {
        self.0.len()
    }

    /// True when at least one entry is an error.
    pub fn has_errors(&self) -> (r: bool)
        ensures
            r == any_error(self.0@),
    {
        let mut i: usize = 0;
        while i < self.0.len()
            invariant
                i <= self.0@.len(),
                forall|j: int| 0 <= j < i ==> (#[trigger] self.0@[j]).severity != Severity::Error,
            decreases self.0@.len() - i,
        {
            if self.0[i].is_error() {
                return true;
            }
            i = i + 1;
        }
        false
    }

    /// Every entry.
    pub fn iter(&self) -> (r: &[Diagnostic])
        ensures
            r@ == self.0@,
    {
        self.0.as_slice()
    }

    /// Just the errors, in order.
    pub fn errors(&self) -> (r: Vec<&Diagnostic>)
        ensures
            derefs(r@) == self.0@.filter(|d: Diagnostic| d.severity == Severity::Error),
    {
        let mut out: Vec<&Diagnostic> = Vec::new();
        let mut i: usize = 0;
        while i < self.0.len()
            invariant
                i <= self.0@.len(),
                derefs(out@) == self.0@.take(i as int).filter(|d: Diagnostic| d.severity == Severity::Error),
            decreases self.0@.len() - i,
        {
            proof {
                assert(self.0@.take(i + 1).drop_last() =~= self.0@.take(i as int));
                reveal(Seq::filter);
            }
            let ghost before = out@;
            if self.0[i].is_error() {
                out.push(&self.0[i]);
                proof {
                    assert(derefs(out@) =~= derefs(before).push(self.0@[i as int]));
                }
            }
            i = i + 1;
        }
        proof {
            assert(self.0@.take(i as int) =~= self.0@);
        }
        out
    }

    /// Turn an error-carrying batch into a `Result`, keeping warnings.
    pub fn into_result(self) -> (r: Result<Diagnostics, Diagnostics>)
        ensures
            any_error(self.0@) ==> r == Err::<Diagnostics, Diagnostics>(self),
            !any_error(self.0@) ==> r == Ok::<Diagnostics, Diagnostics>(self),
    {
        if self.has_errors() {
            Err(self)
        } else {
            Ok(self)
        }
    }

    /// The batch written out, one diagnostic a line.
    pub fn to_text(&self) -> (out: String)
        ensures
            out@ == diagnostics_text(self.0@),
    {
        let mut out = String::new();
        let mut i: usize = 0;
        while i < self.0.len()
            invariant
                i <= self.0@.len(),
                out@ == diagnostics_text(self.0@.take(i as int)),
            decreases self.0@.len() - i,
        {
            proof {
                assert(self.0@.take(i + 1).drop_last() =~= self.0@.take(i as int));
                if i == 0 {
                    assert(self.0@.take(0) =~= Seq::<Diagnostic>::empty());
                }
            }
            if i > 0 {
                crate::text::push_str(&mut out, "\n");
            }
            let t = self.0[i].to_text();
            crate::text::push_str(&mut out, t.as_str());
            i = i + 1;
        }
        proof {
            assert(self.0@.take(i as int) =~= self.0@);
        }
        out
    }

    /// The entries, in order.
    pub fn into_vec(self) -> (r: Vec<Diagnostic>)
        ensures
            r@ == self.0@,
    {
        self.0
    }

    /// A batch of these entries.
    pub fn from_vec(v: Vec<Diagnostic>) -> (r: Diagnostics)
        ensures
            r.0@ == v@,
    {
        Diagnostics(v)
    }
}

} // verus!
