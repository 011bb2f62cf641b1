//! The specification tree that completion works on, and what a partial parse
//! of the typed words reports about it.
use vstd::prelude::*;

verus! {

/// A positional argument, or the value that a flag takes.
pub struct SpecArg {
    pub name: String,
    pub required: bool,
    /// Consumes all remaining positional words.
    pub var: bool,
    pub default: Option<String>,
    pub help: Option<String>,
}

/// A flag, with a short name, a long name or both.
pub struct SpecFlag {
    pub short: Option<char>,
    pub long: Option<String>,
    /// The value the flag takes, if it takes one.
    pub arg: Option<SpecArg>,
    /// Visible to every descendant command.
    pub global: bool,
    pub hide: bool,
    pub help: Option<String>,
}

/// A command and, recursively, its subcommands.
pub struct SpecCommand {
    pub name: String,
    pub aliases: Vec<String>,
    pub help: Option<String>,
    pub hide: bool,
    pub args: Vec<SpecArg>,
    pub flags: Vec<SpecFlag>,
    pub subcommands: Vec<SpecCommand>,
}

/// How the values of one argument are completed.
pub struct Complete {
    /// The argument name (lower case) or type tag this rule is keyed by.
    pub key: String,
    /// A built-in type: `path`, `dir`, `file`, or a tag of the program's own.
    pub type_: Option<String>,
    /// A shell script template whose output lines are the candidates.
    pub run: Option<String>,
}

/// A whole program specification.
pub struct Spec {
    pub name: String,
    pub about: Option<String>,
    pub cmd: SpecCommand,
    pub complete: Vec<Complete>,
}

/// Where a parse of the words before the cursor has got to.
pub struct ParseState {
    /// The command the words have selected.
    pub cmd: SpecCommand,
    /// How many positional arguments of `cmd` are already filled.
    pub args_consumed: usize,
    /// The flags in effect at `cmd`, its own and inherited global ones.
    pub available_flags: Vec<SpecFlag>,
    /// The flag just typed, if it still waits for its value.
    pub flag_awaiting_value: Option<SpecFlag>,
}

/// `x` is the name or one of the aliases of `sub`.
pub open spec fn named(sub: SpecCommand, x: Seq<char>) -> bool {
    x == sub.name@ || exists|j: int| 0 <= j < sub.aliases@.len() && x == #[trigger] sub.aliases@[j]@
}

/// No name or alias belongs to two subcommands of `cmd`.
pub open spec fn sibling_names_unique(cmd: SpecCommand) -> bool {
    forall|i: int, j: int, x: Seq<char>|
        0 <= i < cmd.subcommands@.len() && 0 <= j < cmd.subcommands@.len() && #[trigger] named(
            cmd.subcommands@[i],
            x,
        ) && #[trigger] named(cmd.subcommands@[j], x) ==> i == j
}

/// A flag has a short name, a long name or both.
pub open spec fn flag_valid(f: SpecFlag) -> bool {
    f.short is Some || f.long is Some
}

/// Only the last positional argument may be variadic.
pub open spec fn args_valid(args: Seq<SpecArg>) -> bool {
    forall|i: int| 0 <= i < args.len() && (#[trigger] args[i]).var ==> i == args.len() - 1
}

/// The invariants of a command tree: every flag is named, a variadic argument comes
/// last, sibling names and aliases are unique, and so on down the tree.
pub open spec fn command_valid(cmd: SpecCommand) -> bool
    decreases cmd,
{
    &&& sibling_names_unique(cmd)
    &&& forall|i: int| 0 <= i < cmd.flags@.len() ==> flag_valid(#[trigger] cmd.flags@[i])
    &&& args_valid(cmd.args@)
    &&& forall|i: int|
        0 <= i < cmd.subcommands@.len() ==> command_valid(#[trigger] cmd.subcommands@[i])
}

/// The text of an optional help string, empty where there is none.
pub open spec fn help_text(h: Option<String>) -> Seq<char> {
    match h {
        Some(s) => s@,
        None => Seq::empty(),
    }
}

/// Owned copy of an optional help string's text.
pub fn help_or_empty(h: &Option<String>) -> (r: String)
    ensures
        r@ == help_text(*h),
{
    match h {
        Some(s) => s.clone(),
        None => String::new(),
    }
}

} // verus!
