//! The tool server's model of the command line: every command, as a tool.
//!
//! The tool list is read from the command line's own declaration, listed
//! depth-first, and a call is carried out by building the argument vector
//! that same command line would have been given. There is one command
//! surface, and the tools are a second way of spelling it.
use vstd::prelude::*;

use crate::diag::{field_lookup, registered_severity, Code, Diagnostic, FieldValue};
use crate::text::{bool_text, debug_text};

verus! {

/// One argument as the command line declares it.
#[derive(Clone, Debug)]
pub struct ArgInfo {
    /// Its id.
    pub id: String,
    /// Its long flag, without the dashes, or `None` for a positional.
    pub long: Option<String>,
    /// True for a switch, which takes no value.
    pub switch: bool,
    /// The most values it takes, where the declaration says.
    pub max_values: Option<usize>,
    /// True when it must be given.
    pub required: bool,
    /// Its help text.
    pub help: Option<String>,
}

/// One command of the command line, listed depth-first from the top.
#[derive(Clone, Debug)]
pub struct CommandInfo {
    /// The words that reach it, top-level command first.
    pub path: Vec<String>,
    /// Its one-line description.
    pub about: Option<String>,
    /// True when it has commands of its own.
    pub has_subcommands: bool,
    /// Its arguments, in declaration order.
    pub args: Vec<ArgInfo>,
}

/// One argument of a tool.
#[derive(Clone, Debug)]
pub struct Param {
    /// Its name.
    pub name: String,
    /// The flag to pass it under, or `None` for a positional.
    pub flag: Option<String>,
    /// True for a switch, which takes no value.
    pub switch: bool,
    /// True when it may be repeated.
    pub many: bool,
    /// True when a call must give it.
    pub required: bool,
    /// What it is for.
    pub doc: String,
}

/// One callable command.
#[derive(Clone, Debug)]
pub struct Tool {
    /// Tool name, the command path joined with underscores.
    pub name: String,
    /// The command path itself, as words.
    pub path: Vec<String>,
    /// What it does.
    pub summary: String,
    /// Its arguments.
    pub params: Vec<Param>,
}

/// A value a call passes for an argument.
#[derive(Debug)]
pub enum ArgValue {
    /// JSON `null`.
    Null,
    /// A JSON boolean.
    Bool(bool),
    /// A JSON string.
    Text(String),
    /// A number or an object, as its JSON text.
    Other(String),
    /// A JSON array.
    List(Vec<ArgValue>),
}

/// The views of a list of strings.
pub open spec fn words(v: Seq<String>) -> Seq<Seq<char>> {
    v.map_values(|s: String| s@)
}

/// The views of a list with one more string.
proof fn lemma_words_push(v: Seq<String>, x: String)
    ensures
        words(v.push(x)) == words(v).push(x@),
{
    assert(words(v.push(x)) =~= words(v).push(x@));
}

/// The views of a longer prefix.
proof fn lemma_words_prefix(v: Seq<String>, k: int)
    requires
        0 <= k < v.len(),
    ensures
        words(v.subrange(0, k + 1)) == words(v.subrange(0, k)).push(v[k]@),
{
    assert(v.subrange(0, k + 1) == v.subrange(0, k).push(v[k]));
    lemma_words_push(v.subrange(0, k), v[k]);
}

/// `parts` joined with `sep` between each two.
pub open spec fn joined(parts: Seq<Seq<char>>, sep: Seq<char>) -> Seq<char>
    decreases parts.len(),
{
    if parts.len() == 0 {
        Seq::empty()
    } else if parts.len() == 1 {
        parts[0]
    } else {
        joined(parts.drop_last(), sep) + sep + parts.last()
    }
}

/// `s` with every hyphen made an underscore.
pub open spec fn underscored(s: Seq<char>) -> Seq<char> {
    s.map_values(|c: char| if c == '-' { '_' } else { c })
}

/// The texts a value stands for on a command line: a string as itself, a
/// number, a boolean or an object as its JSON text, an array as its items'
/// texts in order, and `null` as nothing.
pub open spec fn scalars_of(v: ArgValue) -> Seq<Seq<char>>
    decreases v, 0int,
{
    match v {
        ArgValue::Null => Seq::empty(),
        ArgValue::Bool(b) => seq![bool_text(b)],
        ArgValue::Text(s) => seq![s@],
        ArgValue::Other(s) => seq![s@],
        ArgValue::List(items) => scalars_list(items@),
    }
}

/// The texts of a list of values, in order.
pub open spec fn scalars_list(items: Seq<ArgValue>) -> Seq<Seq<char>>
    decreases items, 1int,
{
    if items.len() == 0 {
        Seq::empty()
    } else {
        scalars_list(items.subrange(0, items.len() - 1)) + scalars_of(items[items.len() - 1])
    }
}

/// The texts of `v`, appended to `out`.
fn push_scalars(v: &ArgValue, out: &mut Vec<String>)
    ensures
        words(final(out)@) == words(old(out)@) + scalars_of(*v),
    decreases v,
{
    match v {
        ArgValue::Null => {},
        ArgValue::Bool(b) => {
            let mut s = String::new();
            crate::text::push_bool(&mut s, *b);
            out.push(s);
        },
        ArgValue::Text(s) => {
            out.push(s.clone());
        },
        ArgValue::Other(s) => {
            out.push(s.clone());
        },
        ArgValue::List(items) => {
            let ghost start = words(out@);
            let mut i: usize = 0;
            while i < items.len()
                invariant
                    i <= items@.len(),
                    *v == ArgValue::List(*items),
                    words(out@) == start + scalars_list(items@.subrange(0, i as int)),
                decreases items@.len() - i,
            {
                assert(items@.subrange(0, i + 1).subrange(0, i as int) == items@.subrange(0, i as int));
                proof {
                    assert(decreases_to!(items => items@));
                    assert(decreases_to!(items@ => items@[i as int]));
                    assert((*v)->List_0 == *items);
                    assert(decreases_to!(*v => (*v)->List_0));
                    assert(decreases_to!(*v => items@[i as int]));
                }
                push_scalars(&items[i], out);
                i = i + 1;
            }
            assert(items@.subrange(0, items@.len() as int) == items@);
        },
    }
}

/// `parts` joined with `sep`.
fn join_words(parts: &Vec<String>, sep: &str) -> (out: String)
    ensures
        out@ == joined(words(parts@), sep@),
{
    let mut out = String::new();
    let mut i: usize = 0;
    while i < parts.len()
        invariant
            i <= parts@.len(),
            out@ == joined(words(parts@.subrange(0, i as int)), sep@),
        decreases parts@.len() - i,
    {
        let ghost before = words(parts@.subrange(0, i as int));
        let ghost after = words(parts@.subrange(0, i + 1));
        assert(after.drop_last() == before);
        if i > 0 {
            crate::text::push_str(&mut out, sep);
        }
        crate::text::push_str(&mut out, parts[i].as_str());
        i = i + 1;
    }
    assert(parts@.subrange(0, parts@.len() as int) == parts@);
    out
}

/// `s` with every hyphen made an underscore.
fn underscore(s: &str) -> (out: String)
    ensures
        out@ == underscored(s@),
{
    let cs = crate::text::chars_of(s);
    let mut out: Vec<char> = Vec::new();
    let mut i: usize = 0;
    while i < cs.len()
        invariant
            i <= cs@.len(),
            cs@ == s@,
            out@ == underscored(s@.subrange(0, i as int)),
        decreases cs@.len() - i,
    {
        let c = cs[i];
        out.push(if c == '-' { '_' } else { c });
        i = i + 1;
        assert(out@ =~= underscored(s@.subrange(0, i as int)));
    }
    assert(s@.subrange(0, s@.len() as int) == s@);
    crate::text::string_of(out.as_slice())
}

/// Whether an argument becomes a tool parameter: every one but the
/// command line's own help and version switches.
pub open spec fn kept_arg(a: ArgInfo) -> bool {
    a.id@ != "help"@ && a.id@ != "version"@
}

/// The arguments that become parameters, in order.
pub open spec fn kept_args(args: Seq<ArgInfo>) -> Seq<ArgInfo>
    decreases args.len(),
{
    if args.len() == 0 {
        Seq::empty()
    } else if kept_arg(args.last()) {
        kept_args(args.drop_last()).push(args.last())
    } else {
        kept_args(args.drop_last())
    }
}

/// `p` is the parameter argument `a` becomes: its id as the name, its long
/// flag with two dashes in front, a switch as a switch, repeatable when it
/// takes more than one value, and its help text, or its id, as the doc.
pub open spec fn param_ok(p: Param, a: ArgInfo) -> bool {
    &&& p.name@ == a.id@
    &&& match a.long {
        Some(l) => p.flag matches Some(f) && f@ == "--"@ + l@,
        None => p.flag is None,
    }
    &&& p.switch == a.switch
    &&& p.many == (!a.switch && (a.max_values matches Some(n) && n > 1))
    &&& p.required == a.required
    &&& p.doc@ == match a.help {
        Some(h) => h@,
        None => a.id@,
    }
}

/// `ps` are the parameters of a command with arguments `args`.
pub open spec fn params_ok(ps: Seq<Param>, args: Seq<ArgInfo>) -> bool {
    let kept = kept_args(args);
    &&& ps.len() == kept.len()
    &&& forall|i: int| 0 <= i < kept.len() ==> param_ok(#[trigger] ps[i], kept[i])
}

/// The parameter an argument becomes.
fn param_of(a: &ArgInfo) -> (p: Param)
    ensures
        param_ok(p, *a),
{
    let flag = match &a.long {
        Some(l) => {
            let mut f = crate::text::string_from("--");
            crate::text::push_str(&mut f, l.as_str());
            Some(f)
        },
        None => None,
    };
    let many = !a.switch && match a.max_values {
        Some(n) => n > 1,
        None => false,
    };
    let doc = match &a.help {
        Some(h) => h.clone(),
        None => a.id.clone(),
    };
    Param { name: a.id.clone(), flag, switch: a.switch, many, required: a.required, doc }
}

/// The parameters of a command with arguments `args`.
pub fn params(args: &Vec<ArgInfo>) -> (ps: Vec<Param>)
    ensures
        params_ok(ps@, args@),
{
    let mut ps: Vec<Param> = Vec::new();
    let mut i: usize = 0;
    while i < args.len()
        invariant
            i <= args@.len(),
            params_ok(ps@, args@.subrange(0, i as int)),
        decreases args@.len() - i,
    {
        let ghost pre = args@.subrange(0, i as int);
        assert(args@.subrange(0, i + 1).drop_last() == pre);
        let a = &args[i];
        let keep = !crate::text::str_eq(a.id.as_str(), "help") && !crate::text::str_eq(a.id.as_str(), "version");
        if keep {
            ps.push(param_of(a));
        }
        i = i + 1;
    }
    assert(args@.subrange(0, args@.len() as int) == args@);
    ps
}

/// Whether a command is a tool: it has no commands of its own, it is not the
/// tool server itself or anything under it, and it is not a help command.
pub open spec fn is_tool(c: CommandInfo) -> bool {
    &&& !c.has_subcommands
    &&& c.path@.len() > 0
    &&& c.path@[0]@ != "mcp"@
    &&& forall|i: int| 0 <= i < c.path@.len() ==> (#[trigger] c.path@[i])@ != "help"@
}

/// The name of the tool at `path`: the words joined with underscores, and
/// every hyphen an underscore too, so `tile import-ldtk` is
/// `tile_import_ldtk`.
pub open spec fn tool_name(path: Seq<String>) -> Seq<char> {
    underscored(joined(words(path), "_"@))
}

/// What a tool says it does: the command's description, or `dim` and its
/// path where it has none.
pub open spec fn summary_of(c: CommandInfo) -> Seq<char> {
    match c.about {
        Some(a) => a@,
        None => "dim "@ + joined(words(c.path@), " "@),
    }
}

/// `t` is the tool command `c` becomes.
pub open spec fn tool_ok(t: Tool, c: CommandInfo) -> bool {
    &&& t.name@ == tool_name(c.path@)
    &&& words(t.path@) == words(c.path@)
    &&& t.summary@ == summary_of(c)
    &&& params_ok(t.params@, c.args@)
}

/// Whether `c` names a tool, decided in code.
fn names_a_tool(c: &CommandInfo) -> (r: bool)
    ensures
        r == is_tool(*c),
{
    if c.has_subcommands || c.path.len() == 0 || crate::text::str_eq(c.path[0].as_str(), "mcp") {
        return false;
    }
    let mut i: usize = 0;
    while i < c.path.len()
        invariant
            i <= c.path@.len(),
            forall|j: int| 0 <= j < i ==> (#[trigger] c.path@[j])@ != "help"@,
        decreases c.path@.len() - i,
    {
        if crate::text::str_eq(c.path[i].as_str(), "help") {
            return false;
        }
        i = i + 1;
    }
    true
}

/// A copy of a list of strings.
fn copy_words(v: &Vec<String>) -> (out: Vec<String>)
    ensures
        words(out@) == words(v@),
{
    let mut out: Vec<String> = Vec::new();
    let mut i: usize = 0;
    while i < v.len()
        invariant
            i <= v@.len(),
            out@.len() == i,
            forall|j: int| 0 <= j < i ==> (#[trigger] out@[j])@ == v@[j]@,
        decreases v@.len() - i,
    {
        out.push(v[i].clone());
        i = i + 1;
    }
    assert(words(out@) =~= words(v@));
    out
}

/// The tool a command becomes.
fn tool_of(c: &CommandInfo) -> (t: Tool)
    ensures
        tool_ok(t, *c),
{
    let joined_name = join_words(&c.path, "_");
    let name = underscore(joined_name.as_str());
    let summary = match &c.about {
        Some(a) => a.clone(),
        None => {
            let mut s = crate::text::string_from("dim ");
            let rest = join_words(&c.path, " ");
            crate::text::push_str(&mut s, rest.as_str());
            s
        },
    };
    Tool { name, path: copy_words(&c.path), summary, params: params(&c.args) }
}

/// Whether `a` sorts no later than `b`, as Rust orders strings: character by
/// character by code point, a prefix first. (UTF-8 keeps code point order,
/// so this is the byte order too.)
pub open spec fn name_le(a: Seq<char>, b: Seq<char>) -> bool
    decreases a.len(),
{
    if a.len() == 0 {
        true
    } else if b.len() == 0 {
        false
    } else if a[0] != b[0] {
        a[0] < b[0]
    } else {
        name_le(a.drop_first(), b.drop_first())
    }
}

/// Every name sorts no later than itself.
proof fn lemma_name_le_reflexive(a: Seq<char>)
    ensures
        name_le(a, a),
    decreases a.len(),
{
    if a.len() > 0 {
        lemma_name_le_reflexive(a.drop_first());
    }
}

/// Of two names, one sorts no later than the other.
proof fn lemma_name_le_total(a: Seq<char>, b: Seq<char>)
    ensures
        name_le(a, b) || name_le(b, a),
    decreases a.len(),
{
    if a.len() > 0 && b.len() > 0 && a[0] == b[0] {
        lemma_name_le_total(a.drop_first(), b.drop_first());
    }
}

/// The order is transitive.
proof fn lemma_name_le_transitive(a: Seq<char>, b: Seq<char>, c: Seq<char>)
    requires
        name_le(a, b),
        name_le(b, c),
    ensures
        name_le(a, c),
    decreases a.len(),
{
    if a.len() > 0 && b.len() > 0 && c.len() > 0 && a[0] == b[0] && b[0] == c[0] {
        lemma_name_le_transitive(a.drop_first(), b.drop_first(), c.drop_first());
    }
}

/// Whether `a` sorts no later than `b`, decided in code.
fn le_names(a: &str, b: &str) -> (r: bool)
    ensures
        r == name_le(a@, b@),
{
    let x = crate::text::chars_of(a);
    let y = crate::text::chars_of(b);
    let mut i: usize = 0;
    assert(a@.skip(0) == a@ && b@.skip(0) == b@);
    while i < x.len() && i < y.len() && x[i] == y[i]
        invariant
            i <= x@.len(),
            i <= y@.len(),
            x@ == a@,
            y@ == b@,
            name_le(a@, b@) == name_le(a@.skip(i as int), b@.skip(i as int)),
        decreases x@.len() - i,
    {
        assert(a@.skip(i as int).drop_first() == a@.skip(i + 1));
        assert(b@.skip(i as int).drop_first() == b@.skip(i + 1));
        i = i + 1;
    }
    if i == x.len() {
        assert(a@.skip(i as int).len() == 0);
        true
    } else if i == y.len() {
        assert(b@.skip(i as int).len() == 0 && a@.skip(i as int).len() > 0);
        false
    } else {
        let (cx, cy) = (x[i], y[i]);
        assert(a@.skip(i as int)[0] == cx && b@.skip(i as int)[0] == cy && cx != cy);
        assert(a@.skip(i as int).len() > 0 && b@.skip(i as int).len() > 0);
        cx < cy
    }
}

/// The commands that are tools, in order.
pub open spec fn tool_commands(cs: Seq<CommandInfo>) -> Seq<CommandInfo>
    decreases cs.len(),
{
    if cs.len() == 0 {
        Seq::empty()
    } else if is_tool(cs.last()) {
        tool_commands(cs.drop_last()).push(cs.last())
    } else {
        tool_commands(cs.drop_last())
    }
}

/// Tools in name order.
pub open spec fn sorted_by_name(ts: Seq<Tool>) -> bool {
    forall|i: int, j: int| 0 <= i < j < ts.len() ==> name_le(#[trigger] ts[i].name@, #[trigger] ts[j].name@)
}

/// `perm` puts `n` things in some order, each once.
pub open spec fn is_arrangement(perm: Seq<int>, n: int) -> bool {
    &&& perm.len() == n
    &&& forall|i: int| 0 <= i < n ==> 0 <= #[trigger] perm[i] < n
    &&& forall|i: int, j: int| 0 <= i < n && 0 <= j < n && i != j ==> #[trigger] perm[i] != #[trigger] perm[j]
}

/// `ts` are the tools of `kept`, taken in the order `perm`, in name order,
/// with two tools of one name in the order their commands came.
pub open spec fn tools_arranged(ts: Seq<Tool>, kept: Seq<CommandInfo>, perm: Seq<int>) -> bool {
    &&& ts.len() == kept.len()
    &&& is_arrangement(perm, kept.len() as int)
    &&& forall|i: int| 0 <= i < ts.len() ==> tool_ok(#[trigger] ts[i], kept[perm[i]])
    &&& sorted_by_name(ts)
    &&& forall|i: int, j: int|
        0 <= i < j < ts.len() && (#[trigger] ts[i]).name@ == (#[trigger] ts[j]).name@ ==> perm[i] < perm[j]
}

/// Putting a new tool in after every tool that sorts no later than it keeps
/// the list arranged.
proof fn lemma_insert_tool(ts: Seq<Tool>, kept: Seq<CommandInfo>, perm: Seq<int>, t: Tool, c: CommandInfo, p: int)
    requires
        tools_arranged(ts, kept, perm),
        tool_ok(t, c),
        0 <= p <= ts.len(),
        p > 0 ==> name_le(ts[p - 1].name@, t.name@),
        forall|k: int| p <= k < ts.len() ==> !name_le(#[trigger] ts[k].name@, t.name@),
    ensures
        tools_arranged(ts.insert(p, t), kept.push(c), perm.insert(p, kept.len() as int)),
{
    let n = kept.len() as int;
    let ts2 = ts.insert(p, t);
    let kept2 = kept.push(c);
    let perm2 = perm.insert(p, n);
    ts.insert_ensures(p, t);
    perm.insert_ensures(p, n);
    assert forall|i: int| 0 <= i < ts2.len() implies tool_ok(#[trigger] ts2[i], kept2[perm2[i]]) by {
        if i < p {
            assert(ts2[i] == ts[i] && perm2[i] == perm[i]);
        } else if i > p {
            assert(ts2[i] == ts[i - 1] && perm2[i] == perm[i - 1]);
        }
    }
    assert forall|i: int, j: int| 0 <= i < n + 1 && 0 <= j < n + 1 && i != j implies #[trigger] perm2[i] != #[trigger] perm2[j] by {
        if i != p && j != p {
            let i0 = if i < p { i } else { i - 1 };
            let j0 = if j < p { j } else { j - 1 };
            assert(perm2[i] == perm[i0] && perm2[j] == perm[j0]);
        } else if i == p {
            let j0 = if j < p { j } else { j - 1 };
            assert(perm2[j] == perm[j0]);
        } else {
            let i0 = if i < p { i } else { i - 1 };
            assert(perm2[i] == perm[i0]);
        }
    }
    assert forall|i: int| 0 <= i < n + 1 implies 0 <= #[trigger] perm2[i] < n + 1 by {
        if i < p {
            assert(perm2[i] == perm[i]);
        } else if i > p {
            assert(perm2[i] == perm[i - 1]);
        }
    }
    assert forall|i: int, j: int| 0 <= i < j < ts2.len() implies name_le(#[trigger] ts2[i].name@, #[trigger] ts2[j].name@) by {
        if j < p {
            assert(ts2[i] == ts[i] && ts2[j] == ts[j]);
        } else if i > p {
            assert(ts2[i] == ts[i - 1] && ts2[j] == ts[j - 1]);
        } else if i < p && j > p {
            assert(ts2[i] == ts[i] && ts2[j] == ts[j - 1]);
        } else if i == p {
            assert(ts2[j] == ts[j - 1]);
            lemma_name_le_total(ts[j - 1].name@, t.name@);
        } else {
            assert(j == p && ts2[i] == ts[i]);
            if i < p - 1 {
                lemma_name_le_transitive(ts[i].name@, ts[p - 1].name@, t.name@);
            }
        }
    }
    assert forall|i: int, j: int|
        0 <= i < j < ts2.len() && (#[trigger] ts2[i]).name@ == (#[trigger] ts2[j]).name@ implies perm2[i] < perm2[j] by {
        if j < p {
            assert(ts2[i] == ts[i] && ts2[j] == ts[j] && perm2[i] == perm[i] && perm2[j] == perm[j]);
        } else if i > p {
            assert(ts2[i] == ts[i - 1] && ts2[j] == ts[j - 1] && perm2[i] == perm[i - 1] && perm2[j] == perm[j - 1]);
        } else if i < p && j > p {
            assert(ts2[i] == ts[i] && ts2[j] == ts[j - 1] && perm2[i] == perm[i] && perm2[j] == perm[j - 1]);
        } else if i == p {
            assert(ts2[j] == ts[j - 1]);
            lemma_name_le_reflexive(t.name@);
        } else {
            assert(perm2[i] == perm[i]);
        }
    }
}

/// Every command that is a tool, as a tool, in name order.
///
/// A command is a tool when it has no commands of its own, is not the tool
/// server itself nor under it, and is not a help command. Two tools of one
/// name keep the order their commands were listed in.
pub fn tools_from(commands: &Vec<CommandInfo>) -> (r: Vec<Tool>)
    ensures
        exists|perm: Seq<int>| tools_arranged(r@, tool_commands(commands@), perm),
{
    let mut out: Vec<Tool> = Vec::new();
    let ghost mut perm: Seq<int> = Seq::empty();
    let mut i: usize = 0;
    while i < commands.len()
        invariant
            i <= commands@.len(),
            tools_arranged(out@, tool_commands(commands@.subrange(0, i as int)), perm),
        decreases commands@.len() - i,
    {
        let ghost kept = tool_commands(commands@.subrange(0, i as int));
        assert(commands@.subrange(0, i + 1).drop_last() == commands@.subrange(0, i as int));
        let c = &commands[i];
        if names_a_tool(c) {
            let t = tool_of(c);
            let mut p = out.len();
            while p > 0 && !le_names(out[p - 1].name.as_str(), t.name.as_str())
                invariant
                    p <= out@.len(),
                    forall|k: int| p <= k < out@.len() ==> !name_le(#[trigger] out@[k].name@, t.name@),
                decreases p,
            {
                p = p - 1;
            }
            proof {
                lemma_insert_tool(out@, kept, perm, t, *c, p as int);
                perm = perm.insert(p as int, kept.len() as int);
            }
            out.insert(p, t);
        }
        i = i + 1;
    }
    assert(commands@.subrange(0, commands@.len() as int) == commands@);
    out
}

/// The value a call gives under `key`: the first such entry's.
pub open spec fn given_value(given: Seq<(String, ArgValue)>, key: Seq<char>) -> Option<ArgValue>
    decreases given.len(),
{
    if given.len() == 0 {
        None
    } else {
        match given_value(given.drop_last(), key) {
            Some(v) => Some(v),
            None => if given.last().0@ == key {
                Some(given.last().1)
            } else {
                None
            },
        }
    }
}

/// Whether a tool has a parameter called `key`.
pub open spec fn has_param(ps: Seq<Param>, key: Seq<char>) -> bool {
    exists|i: int| 0 <= i < ps.len() && (#[trigger] ps[i]).name@ == key
}

/// The first key of a call that names no parameter of the tool.
pub open spec fn unknown_key(ps: Seq<Param>, given: Seq<(String, ArgValue)>) -> Option<Seq<char>>
    decreases given.len(),
{
    if given.len() == 0 {
        None
    } else {
        match unknown_key(ps, given.drop_last()) {
            Some(k) => Some(k),
            None => if !has_param(ps, given.last().0@) {
                Some(given.last().0@)
            } else {
                None
            },
        }
    }
}

/// The first required parameter a call gives no value for.
pub open spec fn missing_param(ps: Seq<Param>, given: Seq<(String, ArgValue)>) -> Option<Seq<char>>
    decreases ps.len(),
{
    if ps.len() == 0 {
        None
    } else {
        match missing_param(ps.drop_last(), given) {
            Some(m) => Some(m),
            None => if ps.last().required && given_value(given, ps.last().name@) is None {
                Some(ps.last().name@)
            } else {
                None
            },
        }
    }
}

/// `texts`, each behind the flag `flag`.
pub open spec fn flagged(flag: Seq<char>, texts: Seq<Seq<char>>) -> Seq<Seq<char>>
    decreases texts.len(),
{
    if texts.len() == 0 {
        Seq::empty()
    } else {
        flagged(flag, texts.drop_last()) + seq![flag, texts.last()]
    }
}

/// The words one parameter adds to the command line: a switch its flag when
/// it is `true` and nothing otherwise; any other parameter each of its
/// value's texts, behind its flag when it has one.
pub open spec fn param_words(p: Param, v: Option<ArgValue>) -> Seq<Seq<char>> {
    match v {
        None => Seq::empty(),
        Some(v) => if p.switch {
            if v matches ArgValue::Bool(true) {
                seq![
                    match p.flag {
                        Some(f) => f@,
                        None => Seq::<char>::empty(),
                    },
                ]
            } else {
                Seq::empty()
            }
        } else {
            match p.flag {
                Some(f) => flagged(f@, scalars_of(v)),
                None => scalars_of(v),
            }
        },
    }
}

/// The words the parameters add, in parameter order.
pub open spec fn argv_words(ps: Seq<Param>, given: Seq<(String, ArgValue)>) -> Seq<Seq<char>>
    decreases ps.len(),
{
    if ps.len() == 0 {
        Seq::empty()
    } else {
        argv_words(ps.drop_last(), given) + param_words(ps.last(), given_value(given, ps.last().name@))
    }
}

/// `d` refuses a call of the tool `name` with message `message`.
pub open spec fn refusal(d: Diagnostic, name: Seq<char>, message: Seq<char>) -> bool {
    &&& d.code.0@ == "DIM0404"@
    &&& d.severity == registered_severity("DIM0404"@)
    &&& d.message@ == message
    &&& d.span is None
    &&& d.node_path is None
    &&& field_lookup(d.fields@, "tool"@) matches Some(FieldValue::Text(s)) && s@ == name
}

/// The value a call gives under `key`.
fn value_of<'a>(given: &'a Vec<(String, ArgValue)>, key: &str) -> (r: Option<&'a ArgValue>)
    ensures
        match r {
            Some(v) => given_value(given@, key@) == Some(*v),
            None => given_value(given@, key@) is None,
        },
{
    let mut i: usize = 0;
    while i < given.len()
        invariant
            i <= given@.len(),
            given_value(given@.subrange(0, i as int), key@) is None,
        decreases given@.len() - i,
    {
        assert(given@.subrange(0, i + 1).drop_last() == given@.subrange(0, i as int));
        if crate::text::str_eq(given[i].0.as_str(), key) {
            proof { lemma_given_value_prefix(given@, i as int + 1, key@); }
            return Some(&given[i].1);
        }
        i = i + 1;
    }
    assert(given@.subrange(0, given@.len() as int) == given@);
    None
}

/// A value found in a prefix of a call is the call's value.
proof fn lemma_given_value_prefix(given: Seq<(String, ArgValue)>, n: int, key: Seq<char>)
    requires
        0 <= n <= given.len(),
        given_value(given.subrange(0, n), key) is Some,
    ensures
        given_value(given, key) == given_value(given.subrange(0, n), key),
    decreases given.len() - n,
{
    if n < given.len() {
        assert(given.subrange(0, n + 1).drop_last() == given.subrange(0, n));
        lemma_given_value_prefix(given, n + 1, key);
    } else {
        assert(given.subrange(0, n) == given);
    }
}

impl Tool {
    /// Whether the tool has a parameter called `key`.
    fn takes(&self, key: &str) -> (r: bool)
        ensures
            r == has_param(self.params@, key@),
    {
        let mut i: usize = 0;
        while i < self.params.len()
            invariant
                i <= self.params@.len(),
                forall|j: int| 0 <= j < i ==> (#[trigger] self.params@[j]).name@ != key@,
            decreases self.params@.len() - i,
        {
            if crate::text::str_eq(self.params[i].name.as_str(), key) {
                return true;
            }
            i = i + 1;
        }
        false
    }

    /// A refusal of a call of this tool: its name, `what`, and `key` quoted.
    fn refuse(&self, what: &str, key: &str) -> (d: Diagnostic)
        ensures
            refusal(d, self.name@, self.name@ + what@ + debug_text(key@)),
    {
        let mut message = self.name.clone();
        crate::text::push_str(&mut message, what);
        let quoted = crate::text::debug_str(key);
        crate::text::push_str(&mut message, quoted.as_str());
        let d = Diagnostic::new(Code::COMMAND_REJECTED(), message);
        d.with_field("tool", FieldValue::Text(self.name.clone()))
    }

    /// The argument vector the command line would have been given for a call
    /// with `arguments`, the call's keys and values in order.
    ///
    /// A key the tool has no parameter for is refused, the first such key
    /// named; then a required parameter with no value, the first such
    /// named. Otherwise the vector is `dim`, the command path, and each
    /// parameter's words in parameter order.
    pub fn argv(&self, arguments: &Vec<(String, ArgValue)>) -> (r: Result<Vec<String>, Diagnostic>)
        ensures
            match unknown_key(self.params@, arguments@) {
                Some(k) => (r matches Err(d) && refusal(d, self.name@, self.name@ + " has no argument "@ + debug_text(k))),
                None => match missing_param(self.params@, arguments@) {
                    Some(m) => (r matches Err(d) && refusal(d, self.name@, self.name@ + " needs "@ + debug_text(m))),
                    None => (r matches Ok(v) && words(v@) == seq!["dim"@] + words(self.path@) + argv_words(self.params@, arguments@)),
                },
            },
    {
        let mut i: usize = 0;
        while i < arguments.len()
            invariant
                i <= arguments@.len(),
                unknown_key(self.params@, arguments@.subrange(0, i as int)) is None,
            decreases arguments@.len() - i,
        {
            assert(arguments@.subrange(0, i + 1).drop_last() == arguments@.subrange(0, i as int));
            if !self.takes(arguments[i].0.as_str()) {
                proof { lemma_unknown_key_prefix(self.params@, arguments@, i as int + 1); }
                return Err(self.refuse(" has no argument ", arguments[i].0.as_str()));
            }
            i = i + 1;
        }
        assert(arguments@.subrange(0, arguments@.len() as int) == arguments@);

        let mut argv: Vec<String> = Vec::new();
        argv.push(crate::text::string_from("dim"));
        let mut k: usize = 0;
        while k < self.path.len()
            invariant
                k <= self.path@.len(),
                words(argv@) == seq!["dim"@] + words(self.path@.subrange(0, k as int)),
            decreases self.path@.len() - k,
        {
            proof {
                lemma_words_push(argv@, self.path@[k as int]);
                lemma_words_prefix(self.path@, k as int);
            }
            argv.push(self.path[k].clone());
            k = k + 1;
        }
        assert(self.path@.subrange(0, self.path@.len() as int) == self.path@);
        let ghost head = words(argv@);

        let mut j: usize = 0;
        while j < self.params.len()
            invariant
                j <= self.params@.len(),
                unknown_key(self.params@, arguments@) is None,
                missing_param(self.params@.subrange(0, j as int), arguments@) is None,
                words(argv@) == head + argv_words(self.params@.subrange(0, j as int), arguments@),
            decreases self.params@.len() - j,
        {
            let ghost pre = self.params@.subrange(0, j as int);
            assert(self.params@.subrange(0, j + 1).drop_last() == pre);
            let param = &self.params[j];
            match value_of(arguments, param.name.as_str()) {
                None => {
                    if param.required {
                        proof { lemma_missing_param_prefix(self.params@, arguments@, j as int + 1); }
                        return Err(self.refuse(" needs ", param.name.as_str()));
                    }
                },
                Some(value) => {
                    if param.switch {
                        if let ArgValue::Bool(true) = value {
                            let word = match &param.flag {
                                Some(f) => f.clone(),
                                None => String::new(),
                            };
                            proof { lemma_words_push(argv@, word); }
                            argv.push(word);
                        }
                    } else {
                        let mut texts: Vec<String> = Vec::new();
                        assert(words(texts@) =~= Seq::<Seq<char>>::empty());
                        push_scalars(value, &mut texts);
                        let ghost before = words(argv@);
                        let mut t: usize = 0;
                        while t < texts.len()
                            invariant
                                t <= texts@.len(),
                                words(argv@) == before + match param.flag {
                                    Some(f) => flagged(f@, words(texts@.subrange(0, t as int))),
                                    None => words(texts@.subrange(0, t as int)),
                                },
                            decreases texts@.len() - t,
                        {
                            let ghost ws = words(texts@.subrange(0, t as int));
                            let ghost ws1 = words(texts@.subrange(0, t + 1));
                            assert(ws1.drop_last() == ws && ws1.last() == texts@[t as int]@);
                            proof { lemma_words_prefix(texts@, t as int); }
                            if let Some(f) = &param.flag {
                                proof { lemma_words_push(argv@, *f); }
                                argv.push(f.clone());
                            }
                            proof { lemma_words_push(argv@, texts@[t as int]); }
                            argv.push(texts[t].clone());
                            t = t + 1;
                        }
                        assert(texts@.subrange(0, texts@.len() as int) == texts@);
                    }
                },
            }
            j = j + 1;
        }
        assert(self.params@.subrange(0, self.params@.len() as int) == self.params@);
        Ok(argv)
    }
}

/// An unknown key found in a prefix of a call is the call's first.
proof fn lemma_unknown_key_prefix(ps: Seq<Param>, given: Seq<(String, ArgValue)>, n: int)
    requires
        0 <= n <= given.len(),
        unknown_key(ps, given.subrange(0, n)) is Some,
    ensures
        unknown_key(ps, given) == unknown_key(ps, given.subrange(0, n)),
    decreases given.len() - n,
{
    if n < given.len() {
        assert(given.subrange(0, n + 1).drop_last() == given.subrange(0, n));
        lemma_unknown_key_prefix(ps, given, n + 1);
    } else {
        assert(given.subrange(0, n) == given);
    }
}

/// A missing parameter found in a prefix of the parameters is the first.
proof fn lemma_missing_param_prefix(ps: Seq<Param>, given: Seq<(String, ArgValue)>, n: int)
    requires
        0 <= n <= ps.len(),
        missing_param(ps.subrange(0, n), given) is Some,
    ensures
        missing_param(ps, given) == missing_param(ps.subrange(0, n), given),
    decreases ps.len() - n,
{
    if n < ps.len() {
        assert(ps.subrange(0, n + 1).drop_last() == ps.subrange(0, n));
        lemma_missing_param_prefix(ps, given, n + 1);
    } else {
        assert(ps.subrange(0, n) == ps);
    }
}

/// What a message asks the server to do.
#[derive(Clone, Copy, PartialEq, Eq, Debug, Structural)]
pub enum Route {
    /// Say which protocol and server this is.
    Initialize,
    /// Answer that the server is there.
    Ping,
    /// List the tools.
    ListTools,
    /// Call a tool.
    CallTool,
    /// A method the server does not have.
    Unknown,
}

/// The route a method name takes.
pub open spec fn route_of(method: Seq<char>) -> Route {
    if method == "initialize"@ {
        Route::Initialize
    } else if method == "ping"@ {
        Route::Ping
    } else if method == "tools/list"@ {
        Route::ListTools
    } else if method == "tools/call"@ {
        Route::CallTool
    } else {
        Route::Unknown
    }
}

/// Where a message goes, or `None` for a notification: a message with no
/// id expects no answer, so it gets none whatever it asks.
pub fn route(method: &str, has_id: bool) -> (r: Option<Route>)
    ensures
        !has_id ==> r is None,
        has_id ==> r == Some(route_of(method@)),
{
    if !has_id {
        return None;
    }
    let r = if crate::text::str_eq(method, "initialize") {
        Route::Initialize
    } else if crate::text::str_eq(method, "ping") {
        Route::Ping
    } else if crate::text::str_eq(method, "tools/list") {
        Route::ListTools
    } else if crate::text::str_eq(method, "tools/call") {
        Route::CallTool
    } else {
        Route::Unknown
    };
    Some(r)
}

/// A protocol-level error: the request itself was wrong.
#[derive(Clone, Debug, PartialEq, Eq)]
pub struct ProtocolError {
    /// The JSON-RPC error code.
    pub code: i32,
    /// What was wrong.
    pub message: String,
}

impl ProtocolError {
    /// A line that is not JSON.
    pub fn invalid_json(detail: &str) -> (e: ProtocolError)
        ensures
            e.code == -32700,
            e.message@ == "invalid JSON: "@ + detail@,
    {
        let mut message = crate::text::string_from("invalid JSON: ");
        crate::text::push_str(&mut message, detail);
        ProtocolError { code: -32700, message }
    }

    /// A method the server does not have.
    pub fn no_method(method: &str) -> (e: ProtocolError)
        ensures
            e.code == -32601,
            e.message@ == "no method called "@ + debug_text(method@),
    {
        let mut message = crate::text::string_from("no method called ");
        let quoted = crate::text::debug_str(method);
        crate::text::push_str(&mut message, quoted.as_str());
        ProtocolError { code: -32601, message }
    }

    /// A tool the server does not have.
    pub fn no_tool(name: &str) -> (e: ProtocolError)
        ensures
            e.code == -32602,
            e.message@ == "no tool called "@ + debug_text(name@),
    {
        let mut message = crate::text::string_from("no tool called ");
        let quoted = crate::text::debug_str(name);
        crate::text::push_str(&mut message, quoted.as_str());
        ProtocolError { code: -32602, message }
    }
}

/// The first tool called `name`, or the error a call of it gets.
pub fn find_tool<'a>(tools: &'a [Tool], name: &str) -> (r: Result<&'a Tool, ProtocolError>)
    ensures
        match r {
            Ok(t) => exists|i: int|
                0 <= i < tools@.len() && tools@[i] == *t && t.name@ == name@ && forall|j: int|
                    0 <= j < i ==> (#[trigger] tools@[j]).name@ != name@,
            Err(e) => e.code == -32602 && e.message@ == "no tool called "@ + debug_text(name@)
                && forall|j: int| 0 <= j < tools@.len() ==> (#[trigger] tools@[j]).name@ != name@,
        },
{
    let mut i: usize = 0;
    while i < tools.len()
        invariant
            i <= tools@.len(),
            forall|j: int| 0 <= j < i ==> (#[trigger] tools@[j]).name@ != name@,
        decreases tools@.len() - i,
    {
        if crate::text::str_eq(tools[i].name.as_str(), name) {
            return Ok(&tools[i]);
        }
        i = i + 1;
    }
    Err(ProtocolError::no_tool(name))
}

/// Every command kept as a tool is one.
proof fn lemma_tool_commands_are_tools(cs: Seq<CommandInfo>, k: int)
    requires
        0 <= k < tool_commands(cs).len(),
    ensures
        is_tool(tool_commands(cs)[k]),
    decreases cs.len(),
{
    if cs.len() > 0 {
        let rest = tool_commands(cs.drop_last());
        if is_tool(cs.last()) && k == rest.len() {
        } else {
            lemma_tool_commands_are_tools(cs.drop_last(), k);
        }
    }
}

/// The tool server is not one of its own tools, and no help command is a
/// tool: of every tool [`tools_from`] lists, the first word is not `mcp`
/// and no word is `help`.
pub proof fn lemma_no_tool_is_the_server(commands: Seq<CommandInfo>, tools: Seq<Tool>)
    requires
        exists|perm: Seq<int>| tools_arranged(tools, tool_commands(commands), perm),
    ensures
        forall|i: int|
            0 <= i < tools.len() ==> {
                let ws = #[trigger] words(tools[i].path@);
                &&& ws.len() > 0
                &&& ws[0] != "mcp"@
                &&& forall|k: int| 0 <= k < ws.len() ==> ws[k] != "help"@
            },
{
    let perm = choose|perm: Seq<int>| tools_arranged(tools, tool_commands(commands), perm);
    let kept = tool_commands(commands);
    assert forall|i: int| 0 <= i < tools.len() implies {
        let ws = #[trigger] words(tools[i].path@);
        &&& ws.len() > 0
        &&& ws[0] != "mcp"@
        &&& forall|k: int| 0 <= k < ws.len() ==> ws[k] != "help"@
    } by {
        assert(tool_ok(tools[i], kept[perm[i]]));
        lemma_tool_commands_are_tools(commands, perm[i]);
        let c = kept[perm[i]];
        assert(words(tools[i].path@) == words(c.path@));
        assert forall|k: int| 0 <= k < words(c.path@).len() implies words(c.path@)[k] != "help"@ by {
            assert(c.path@[k]@ != "help"@);
        }
    }
}

} // verus!
