//! Writes a specification as a declarative completion document: a nested object of
//! commands, options and arguments for editor-style completion.
//!
//! Each spec function below takes the text `p` written so far and gives `p` followed by
//! one part of the document, in the order the writer appends it.
use crate::model::{help_text, Spec, SpecArg, SpecCommand, SpecFlag};
use crate::text::{char_to_string, escape, escaped, is_prefix};
use vstd::prelude::*;

verus! {

/// A `description` line for help text `h`, if there is one.
pub open spec fn with_description(p: Seq<char>, h: Option<String>, ind: Seq<char>) -> Seq<char> {
    match h {
        Some(h) => p + ind + "  description: `"@ + escaped(h@) + "`, \n"@,
        None => p,
    }
}

/// A marker line, where `on` holds.
pub open spec fn with_marker(p: Seq<char>, on: bool, ind: Seq<char>, line: Seq<char>) -> Seq<char> {
    if on {
        p + ind + line
    } else {
        p
    }
}

pub open spec fn with_default(p: Seq<char>, d: Option<String>, ind: Seq<char>) -> Seq<char> {
    match d {
        Some(d) => p + ind + "  default: \""@ + d@ + "\",\n"@,
        None => p,
    }
}

/// The document entry of one argument, each line led by `ind`.
pub open spec fn arg_entry(p: Seq<char>, a: SpecArg, ind: Seq<char>) -> Seq<char> {
    let head = p + ind + "{\n"@ + ind + "  name: \""@ + a.name@ + "\",\n"@;
    let body = with_default(
        with_marker(
            with_marker(with_description(head, a.help, ind), !a.required, ind, "  isOptional: true, \n"@),
            a.var,
            ind,
            "  isVariadic: true,\n"@,
        ),
        a.default,
        ind,
    );
    body + ind + "},\n"@
}


/// Each argument's entry in turn.
pub open spec fn arg_entries(p: Seq<char>, s: Seq<SpecArg>, ind: Seq<char>) -> Seq<char>
    decreases s.len(),
{
    if s.len() == 0 {
        p
    } else {
        arg_entry(arg_entries(p, s.drop_last(), ind), s.last(), ind)
    }
}

/// A flag's names: its short name with `-`, then its long name with `--`, each quoted.
pub open spec fn with_flag_names(p: Seq<char>, f: SpecFlag) -> Seq<char> {
    let p1 = match f.short {
        Some(c) => p + "\"-"@ + seq![c] + "\""@,
        None => p,
    };
    match f.long {
        Some(l) => if f.short is Some {
            p1 + ", "@ + "\"--"@ + l@ + "\""@
        } else {
            p1 + "\"--"@ + l@ + "\""@
        },
        None => p1,
    }
}

/// The document entry of one flag, each line led by `ind`.
pub open spec fn flag_entry(p: Seq<char>, f: SpecFlag, ind: Seq<char>) -> Seq<char> {
    let head = with_flag_names(p + ind + "{\n"@ + ind + "  name: ["@, f) + "],\n"@;
    let described = with_description(head, f.help, ind);
    let with_arg = match f.arg {
        Some(a) => arg_entry(described + ind + "  args: [\n"@, a, ind + "    "@) + ind + "  ],\n"@,
        None => described,
    };
    with_marker(
        with_marker(with_arg, f.global, ind, "  isPersistent: true, \n"@),
        f.hide,
        ind,
        "  hidden: true, \n"@,
    ) + ind + "},\n"@
}

/// Each flag's entry in turn.
pub open spec fn flag_entries(p: Seq<char>, s: Seq<SpecFlag>, ind: Seq<char>) -> Seq<char>
    decreases s.len(),
{
    if s.len() == 0 {
        p
    } else {
        flag_entry(flag_entries(p, s.drop_last(), ind), s.last(), ind)
    }
}

/// The first `n` names, each between `quote`s, separated by `, `.
pub open spec fn joined(p: Seq<char>, names: Seq<String>, n: nat, quote: Seq<char>) -> Seq<char>
    decreases n,
{
    if n == 0 {
        p
    } else if n == 1 {
        p + quote + names[0]@ + quote
    } else {
        joined(p, names, (n - 1) as nat, quote) + ", "@ + quote + names[n - 1]@ + quote
    }
}

/// The names line of a command, and its display name where it has aliases.
pub open spec fn with_command_names(p: Seq<char>, cmd: SpecCommand, ind: Seq<char>) -> Seq<char> {
    if cmd.aliases@.len() > 0 {
        joined(
            p + "  displayName: \""@ + cmd.name@ + "\",\n"@ + ind + "  name: [\""@ + cmd.name@
                + "\", "@,
            cmd.aliases@,
            cmd.aliases@.len(),
            "\""@,
        ) + "],\n"@ + ind
    } else {
        p + "  name: \""@ + cmd.name@ + "\",\n"@ + ind
    }
}

/// The description line of a command: its help, then its aliases if it has any.
pub open spec fn with_command_description(p: Seq<char>, cmd: SpecCommand) -> Seq<char> {
    let h = p + "  description: `"@ + escaped(help_text(cmd.help));
    let a = if cmd.aliases@.len() > 0 {
        joined(h + " [aliases: "@, cmd.aliases@, cmd.aliases@.len(), ""@) + "]"@
    } else {
        h
    };
    a + "`,\n"@
}

/// The document entry of one command and, nested in it, of its subcommands.
pub open spec fn command_entry(p: Seq<char>, cmd: SpecCommand, ind: Seq<char>) -> Seq<char>
    decreases cmd, 0nat,
{
    let child = ind + "    "@;
    let head = with_command_description(with_command_names(p + ind + "{\n"@ + ind, cmd, ind), cmd);
    let h1 = with_marker(head, cmd.hide, ind, "  hidden: true, \n"@);
    let h2 = if cmd.args@.len() > 0 {
        arg_entries(h1 + ind + "  args: [\n"@, cmd.args@, child) + ind + "  ],\n"@
    } else {
        h1
    };
    let h3 = if cmd.flags@.len() > 0 {
        flag_entries(h2 + ind + "  options: [\n"@, cmd.flags@, child) + ind + "  ],\n"@
    } else {
        h2
    };
    let h4 = if cmd.subcommands@.len() > 0 {
        command_entries(
            h3 + ind + "  subcommands: [\n"@,
            cmd.subcommands@,
            cmd.subcommands@.len(),
            child,
        ) + ind + "  ], \n"@
    } else {
        h3
    };
    h4 + ind + "},\n"@
}

/// The entries of the first `n` commands of `cs`, in turn.
pub open spec fn command_entries(p: Seq<char>, cs: Seq<SpecCommand>, n: nat, ind: Seq<char>) -> Seq<char>
    decreases cs, n,
{
    if n == 0 || n > cs.len() {
        p
    } else {
        command_entry(command_entries(p, cs, (n - 1) as nat, ind), cs[n - 1], ind)
    }
}

fn add_description(script: &mut String, help: &Option<String>, ind: &str)
    ensures
        final(script)@ == with_description(old(script)@, *help, ind@),
{
    if let Some(h) = help {
        script.append(ind);
        script.append("  description: `");
        let e = escape(h.as_str());
        script.append(e.as_str());
        script.append("`, \n");
    }
}

fn add_marker(script: &mut String, on: bool, ind: &str, line: &str)
    ensures
        final(script)@ == with_marker(old(script)@, on, ind@, line@),
{
    if on {
        script.append(ind);
        script.append(line);
    }
}

fn add_arg_to_script(script: &mut String, arg: &SpecArg, ind: &str)
    ensures
        final(script)@ == arg_entry(old(script)@, *arg, ind@),
{
    script.append(ind);
    script.append("{\n");
    script.append(ind);
    script.append("  name: \"");
    script.append(arg.name.as_str());
    script.append("\",\n");
    add_description(script, &arg.help, ind);
    add_marker(script, !arg.required, ind, "  isOptional: true, \n");
    add_marker(script, arg.var, ind, "  isVariadic: true,\n");
    if let Some(d) = &arg.default {
        script.append(ind);
        script.append("  default: \"");
        script.append(d.as_str());
        script.append("\",\n");
    }
    script.append(ind);
    script.append("},\n");
}

/// `ind` and four more spaces: the indent of nested entries.
fn deeper(ind: &str) -> (r: String)
    ensures
        r@ == ind@ + "    "@,
{
    let mut r = String::from_str(ind);
    r.append("    ");
    r
}

fn add_args_to_script(script: &mut String, args: &Vec<SpecArg>, ind: &str)
    ensures
        final(script)@ == arg_entries(old(script)@, args@, ind@),
{
    let ghost start = script@;
    let mut i: usize = 0;
    while i < args.len()
        invariant
            i <= args@.len(),
            script@ == arg_entries(start, args@.take(i as int), ind@),
        decreases args@.len() - i,
    {
        assert(args@.take(i + 1).drop_last() =~= args@.take(i as int));
        add_arg_to_script(script, &args[i], ind);
        i = i + 1;
    }
    assert(args@.take(i as int) =~= args@);
}

fn add_flag_names(script: &mut String, flag: &SpecFlag)
    ensures
        final(script)@ == with_flag_names(old(script)@, *flag),
{
    if let Some(c) = flag.short {
        script.append("\"-");
        let cs = char_to_string(c);
        script.append(cs.as_str());
        script.append("\"");
    }
    if let Some(l) = &flag.long {
        if flag.short.is_some() {
            script.append(", ");
        }
        script.append("\"--");
        script.append(l.as_str());
        script.append("\"");
    }
}

fn add_flag_to_script(script: &mut String, flag: &SpecFlag, ind: &str)
    ensures
        final(script)@ == flag_entry(old(script)@, *flag, ind@),
{
    script.append(ind);
    script.append("{\n");
    script.append(ind);
    script.append("  name: [");
    add_flag_names(script, flag);
    script.append("],\n");
    add_description(script, &flag.help, ind);
    if let Some(a) = &flag.arg {
        script.append(ind);
        script.append("  args: [\n");
        let child = deeper(ind);
        add_arg_to_script(script, a, child.as_str());
        script.append(ind);
        script.append("  ],\n");
    }
    add_marker(script, flag.global, ind, "  isPersistent: true, \n");
    add_marker(script, flag.hide, ind, "  hidden: true, \n");
    script.append(ind);
    script.append("},\n");
}

fn add_flags_to_script(script: &mut String, flags: &Vec<SpecFlag>, ind: &str)
    ensures
        final(script)@ == flag_entries(old(script)@, flags@, ind@),
{
    let ghost start = script@;
    let mut i: usize = 0;
    while i < flags.len()
        invariant
            i <= flags@.len(),
            script@ == flag_entries(start, flags@.take(i as int), ind@),
        decreases flags@.len() - i,
    {
        assert(flags@.take(i + 1).drop_last() =~= flags@.take(i as int));
        add_flag_to_script(script, &flags[i], ind);
        i = i + 1;
    }
    assert(flags@.take(i as int) =~= flags@);
}

fn add_joined(script: &mut String, names: &Vec<String>, quote: &str)
    ensures
        final(script)@ == joined(old(script)@, names@, names@.len(), quote@),
{
    let ghost start = script@;
    let mut i: usize = 0;
    while i < names.len()
        invariant
            i <= names@.len(),
            script@ == joined(start, names@, i as nat, quote@),
        decreases names@.len() - i,
    {
        if i > 0 {
            script.append(", ");
        }
        script.append(quote);
        script.append(names[i].as_str());
        script.append(quote);
        i = i + 1;
    }
}

fn add_command_names(script: &mut String, cmd: &SpecCommand, ind: &str)
    ensures
        final(script)@ == with_command_names(old(script)@, *cmd, ind@),
{
    if cmd.aliases.len() > 0 {
        script.append("  displayName: \"");
        script.append(cmd.name.as_str());
        script.append("\",\n");
        script.append(ind);
        script.append("  name: [\"");
        script.append(cmd.name.as_str());
        script.append("\", ");
        add_joined(script, &cmd.aliases, "\"");
        script.append("],\n");
        script.append(ind);
    } else {
        script.append("  name: \"");
        script.append(cmd.name.as_str());
        script.append("\",\n");
        script.append(ind);
    }
}

fn add_command_description(script: &mut String, cmd: &SpecCommand)
    ensures
        final(script)@ == with_command_description(old(script)@, *cmd),
{
    script.append("  description: `");
    let e = match &cmd.help {
        Some(h) => escape(h.as_str()),
        None => escape(""),
    };
    proof {
        reveal_strlit("");
        assert(""@ =~= help_text(None));
    }
    script.append(e.as_str());
    if cmd.aliases.len() > 0 {
        script.append(" [aliases: ");
        add_joined(script, &cmd.aliases, "");
        script.append("]");
    }
    script.append("`,\n");
}

/// Appends the entry of `cmd`, and nested in it those of its subcommands.
pub fn add_subcommand_to_script(script: &mut String, cmd: &SpecCommand, ind: &str)
    ensures
        final(script)@ == command_entry(old(script)@, *cmd, ind@),
    decreases cmd,
{
    script.append(ind);
    script.append("{\n");
    script.append(ind);
    add_command_names(script, cmd, ind);
    add_command_description(script, cmd);
    add_marker(script, cmd.hide, ind, "  hidden: true, \n");
    let child = deeper(ind);
    if cmd.args.len() > 0 {
        script.append(ind);
        script.append("  args: [\n");
        add_args_to_script(script, &cmd.args, child.as_str());
        script.append(ind);
        script.append("  ],\n");
    }
    if cmd.flags.len() > 0 {
        script.append(ind);
        script.append("  options: [\n");
        add_flags_to_script(script, &cmd.flags, child.as_str());
        script.append(ind);
        script.append("  ],\n");
    }
    if cmd.subcommands.len() > 0 {
        script.append(ind);
        script.append("  subcommands: [\n");
        let ghost start = script@;
        let mut i: usize = 0;
        while i < cmd.subcommands.len()
            invariant
                i <= cmd.subcommands@.len(),
                child@ == ind@ + "    "@,
                script@ == command_entries(start, cmd.subcommands@, i as nat, child@),
            decreases cmd.subcommands@.len() - i,
        {
            assert(decreases_to!(*cmd => cmd.subcommands@[i as int]));
            add_subcommand_to_script(script, &cmd.subcommands[i], child.as_str());
            i = i + 1;
        }
        script.append(ind);
        script.append("  ], \n");
    }
    script.append(ind);
    script.append("},\n");
}

/// The text that precedes the root's subcommand entries in the document.
pub open spec fn document_head(spec: Spec) -> Seq<char> {
    "const completionSpec: Fig.Spec = {\n"@ + "  name: \""@ + spec.name@ + "\",\n"@
        + "  description: `"@ + escaped(help_text(spec.about)) + "`,\n"@ + "  subcommands: [\n"@
}

/// The completion document of `spec`: its name and description, an entry for every
/// subcommand (hidden ones too, marked as such), and the root command's options.
pub open spec fn document(spec: Spec) -> Seq<char> {
    let subs = command_entries(document_head(spec), spec.cmd.subcommands@, spec.cmd.subcommands@.len(), "    "@);
    let opts = flag_entries(subs + "  ],\n"@ + "  options: [\n"@, spec.cmd.flags@, "    "@);
    opts + "  ],\n"@ + "};\n"@ + "export default completionSpec;\n"@
}

/// Appending keeps every prefix.
pub broadcast proof fn lemma_prefix_append(q: Seq<char>, p: Seq<char>, r: Seq<char>)
    requires
        is_prefix(q, p),
    ensures
        #[trigger] is_prefix(q, p + r),
{
    assert((p + r).subrange(0, q.len() as int) =~= p.subrange(0, q.len() as int));
}

pub broadcast proof fn lemma_prefix_refl(p: Seq<char>)
    ensures
        #[trigger] is_prefix(p, p),
{
    assert(p.subrange(0, p.len() as int) =~= p);
}

proof fn lemma_joined_extends(q: Seq<char>, p: Seq<char>, names: Seq<String>, n: nat, quote: Seq<char>)
    requires
        is_prefix(q, p),
    ensures
        is_prefix(q, joined(p, names, n, quote)),
    decreases n,
{
    broadcast use lemma_prefix_append;

    if n > 1 {
        lemma_joined_extends(q, p, names, (n - 1) as nat, quote);
    }
}

proof fn lemma_arg_entries_extend(q: Seq<char>, p: Seq<char>, s: Seq<SpecArg>, ind: Seq<char>)
    requires
        is_prefix(q, p),
    ensures
        is_prefix(q, arg_entries(p, s, ind)),
    decreases s.len(),
{
    broadcast use lemma_prefix_append;

    if s.len() > 0 {
        lemma_arg_entries_extend(q, p, s.drop_last(), ind);
    }
}

proof fn lemma_flag_entries_extend(q: Seq<char>, p: Seq<char>, s: Seq<SpecFlag>, ind: Seq<char>)
    requires
        is_prefix(q, p),
    ensures
        is_prefix(q, flag_entries(p, s, ind)),
    decreases s.len(),
{
    broadcast use lemma_prefix_append;

    if s.len() > 0 {
        lemma_flag_entries_extend(q, p, s.drop_last(), ind);
        let p1 = flag_entries(p, s.drop_last(), ind);
        let f = s.last();
        let head = p1 + ind + "{\n"@ + ind + "  name: ["@;
        assert(is_prefix(q, with_flag_names(head, f)));
        let described = with_description(with_flag_names(head, f) + "],\n"@, f.help, ind);
        assert(is_prefix(q, described));
        if f.arg is Some {
            assert(is_prefix(q, arg_entry(described + ind + "  args: [\n"@, f.arg->Some_0, ind + "    "@)));
        }
    }
}

/// The head of a command's entry: its opening, names and description lines.
pub open spec fn command_head(p: Seq<char>, cmd: SpecCommand, ind: Seq<char>) -> Seq<char> {
    with_command_description(with_command_names(p + ind + "{\n"@ + ind, cmd, ind), cmd)
}

proof fn lemma_command_entry_extends(q: Seq<char>, p: Seq<char>, cmd: SpecCommand, ind: Seq<char>)
    requires
        is_prefix(q, with_marker(command_head(p, cmd, ind), cmd.hide, ind, "  hidden: true, \n"@)),
    ensures
        is_prefix(q, command_entry(p, cmd, ind)),
    decreases cmd, 0nat,
{
    broadcast use lemma_prefix_append;

    let child = ind + "    "@;
    let h1 = with_marker(command_head(p, cmd, ind), cmd.hide, ind, "  hidden: true, \n"@);
    lemma_arg_entries_extend(q, h1 + ind + "  args: [\n"@, cmd.args@, child);
    let h2 = if cmd.args@.len() > 0 {
        arg_entries(h1 + ind + "  args: [\n"@, cmd.args@, child) + ind + "  ],\n"@
    } else {
        h1
    };
    lemma_flag_entries_extend(q, h2 + ind + "  options: [\n"@, cmd.flags@, child);
    let h3 = if cmd.flags@.len() > 0 {
        flag_entries(h2 + ind + "  options: [\n"@, cmd.flags@, child) + ind + "  ],\n"@
    } else {
        h2
    };
    lemma_command_entries_extend(
        q,
        h3 + ind + "  subcommands: [\n"@,
        cmd.subcommands@,
        cmd.subcommands@.len(),
        child,
    );
}

proof fn lemma_command_entries_extend(q: Seq<char>, p: Seq<char>, cs: Seq<SpecCommand>, n: nat, ind: Seq<char>)
    requires
        is_prefix(q, p),
    ensures
        is_prefix(q, command_entries(p, cs, n, ind)),
    decreases cs, n,
{
    broadcast use lemma_prefix_append;

    if n > 0 && n <= cs.len() {
        lemma_command_entries_extend(q, p, cs, (n - 1) as nat, ind);
        lemma_entry_extends_text_before(q, command_entries(p, cs, (n - 1) as nat, ind), cs[n - 1], ind);
    }
}

proof fn lemma_entry_extends_text_before(q: Seq<char>, p: Seq<char>, c: SpecCommand, ind: Seq<char>)
    requires
        is_prefix(q, p),
    ensures
        is_prefix(q, command_entry(p, c, ind)),
    decreases c, 1nat,
{
    broadcast use lemma_prefix_append;

    lemma_joined_extends(q, p + ind + "{\n"@ + ind + "  displayName: \""@ + c.name@ + "\",\n"@ + ind
        + "  name: [\""@ + c.name@ + "\", "@, c.aliases@, c.aliases@.len(), "\""@);
    let names = with_command_names(p + ind + "{\n"@ + ind, c, ind);
    assert(is_prefix(q, names));
    lemma_joined_extends(q, names + "  description: `"@ + escaped(help_text(c.help)) + " [aliases: "@, c.aliases@, c.aliases@.len(), ""@);
    assert(is_prefix(q, command_head(p, c, ind)));
    lemma_command_entry_extends(q, p, c, ind);
}

proof fn lemma_command_entries_grow(q: Seq<char>, p: Seq<char>, cs: Seq<SpecCommand>, m: nat, n: nat, ind: Seq<char>)
    requires
        m <= n <= cs.len(),
        is_prefix(q, command_entries(p, cs, m, ind)),
    ensures
        is_prefix(q, command_entries(p, cs, n, ind)),
    decreases n,
{
    if n > m {
        lemma_command_entries_grow(q, p, cs, m, (n - 1) as nat, ind);
        lemma_entry_extends_text_before(q, command_entries(p, cs, (n - 1) as nat, ind), cs[n - 1], ind);
    }
}

/// A hidden subcommand keeps its entry in the document: its opening, name and
/// description lines stand there, followed by the hidden marker.
pub proof fn lemma_hidden_subcommand_marked(spec: Spec, i: int)
    requires
        0 <= i < spec.cmd.subcommands@.len(),
        spec.cmd.subcommands@[i].hide,
    ensures
        exists|before: Seq<char>|
            is_prefix(
                command_head(before, spec.cmd.subcommands@[i], "    "@) + "    "@ + "  hidden: true, \n"@,
                document(spec),
            ),
{
    broadcast use lemma_prefix_append, lemma_prefix_refl;

    let subs = spec.cmd.subcommands@;
    let ind = "    "@;
    let before = command_entries(document_head(spec), subs, i as nat, ind);
    let marked = command_head(before, subs[i], ind) + ind + "  hidden: true, \n"@;
    lemma_command_entry_extends(marked, before, subs[i], ind);
    lemma_command_entries_grow(marked, document_head(spec), subs, (i + 1) as nat, subs.len(), ind);
    let listed = command_entries(document_head(spec), subs, subs.len(), ind);
    lemma_flag_entries_extend(marked, listed + "  ],\n"@ + "  options: [\n"@, spec.cmd.flags@, ind);
    assert(is_prefix(marked, document(spec)));
}

/// Writing the same specification twice gives byte-identical documents: the document
/// is determined by the specification alone.
pub proof fn lemma_document_deterministic(spec: Spec, first: Seq<char>, second: Seq<char>)
    requires
        first == document(spec),
        second == document(spec),
    ensures
        first == second,
{
}

/// Writes the completion document of `spec`.
pub fn generate_fig_script(spec: &Spec) -> (r: String)
    ensures
        r@ == document(*spec),
{
    let mut script = String::from_str("const completionSpec: Fig.Spec = {\n");
    script.append("  name: \"");
    script.append(spec.name.as_str());
    script.append("\",\n");
    script.append("  description: `");
    let e = match &spec.about {
        Some(h) => escape(h.as_str()),
        None => escape(""),
    };
    proof {
        reveal_strlit("");
        assert(""@ =~= help_text(None));
    }
    script.append(e.as_str());
    script.append("`,\n");
    script.append("  subcommands: [\n");
    let ghost start = script@;
    let mut i: usize = 0;
    while i < spec.cmd.subcommands.len()
        invariant
            i <= spec.cmd.subcommands@.len(),
            script@ == command_entries(start, spec.cmd.subcommands@, i as nat, "    "@),
        decreases spec.cmd.subcommands@.len() - i,
    {
        add_subcommand_to_script(&mut script, &spec.cmd.subcommands[i], "    ");
        i = i + 1;
    }
    script.append("  ],\n");
    script.append("  options: [\n");
    add_flags_to_script(&mut script, &spec.cmd.flags, "    ");
    script.append("  ],\n");
    script.append("};\n");
    script.append("export default completionSpec;\n");
    script
}

} // verus!
