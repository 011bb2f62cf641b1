//! Deciding what the word under the cursor is, producing its candidates, and writing
//! them out for a shell.
use crate::arg::{
    as_nat, kind_of, plan_arg, prev_index, script_context, script_of, type_tag, word_views,
    ScriptContext,
    ArgRequest, CompleteError,
};
use crate::candidates::{
    choice_views, complete_long_flag_names, complete_short_flag_names, complete_subcommands,
    lists_exactly, long_flag_offers, short_flag_offers, subcommand_offers, Choice,
};
use crate::fig::{document, generate_fig_script};
use crate::model::{ParseState, Spec, SpecArg};
use crate::text::{escape, escaped, is_prefix, same, starts_with};
use vstd::prelude::*;

verus! {

/// The shell whose completion format the candidates are written in.
#[derive(PartialEq, Eq, Structural, Clone, Copy, Debug)]
pub enum Shell {
    /// One candidate per line.
    Plain,
    Bash,
    Fish,
    Zsh,
    /// The declarative completion document instead of candidates.
    Fig,
}

/// Where the specification comes from.
#[derive(PartialEq, Eq, Debug)]
pub enum SpecSource {
    File(String),
    Text(String),
}

/// A spec file where one is given, else a spec string; one of the two is needed.
pub fn file_or_spec(file: &Option<String>, spec: &Option<String>) -> (r: Result<SpecSource, CompleteError>)
    ensures
        match (*file, *spec) {
            (Some(f), _) => r == Ok::<SpecSource, CompleteError>(SpecSource::File(f)),
            (None, Some(s)) => r == Ok::<SpecSource, CompleteError>(SpecSource::Text(s)),
            (None, None) => r == Err::<SpecSource, CompleteError>(CompleteError::MissingSpec),
        },
{
    match file {
        Some(f) => Ok(SpecSource::File(f.clone())),
        None => match spec {
            Some(s) => Ok(SpecSource::Text(s.clone())),
            None => Err(CompleteError::MissingSpec),
        },
    }
}

/// What kind of word the cursor is on.
#[derive(PartialEq, Eq, Structural, Clone, Copy, Debug)]
pub enum Role {
    Subcommand,
    AnyFlag,
    LongFlag,
    ShortFlag,
    FlagValue,
    Positional,
    Nothing,
}

/// The first of these that holds: the command has subcommands; the word is `-`; it
/// starts with `--`; it starts with `-`; a flag waits for its value; a positional
/// argument is still open.
pub open spec fn role_of(state: ParseState, token: Seq<char>) -> Role {
    if state.cmd.subcommands@.len() > 0 {
        Role::Subcommand
    } else if token == seq!['-'] {
        Role::AnyFlag
    } else if is_prefix(seq!['-', '-'], token) {
        Role::LongFlag
    } else if is_prefix(seq!['-'], token) {
        Role::ShortFlag
    } else if state.flag_awaiting_value is Some {
        Role::FlagValue
    } else if state.args_consumed < state.cmd.args@.len() {
        Role::Positional
    } else {
        Role::Nothing
    }
}

pub fn role(state: &ParseState, token: &str) -> (r: Role)
    ensures
        r == role_of(*state, token@),
{
    proof {
        reveal_strlit("-");
        reveal_strlit("--");
        assert("-"@ =~= seq!['-']);
        assert("--"@ =~= seq!['-', '-']);
    }
    if state.cmd.subcommands.len() > 0 {
        Role::Subcommand
    } else if same(token, "-") {
        Role::AnyFlag
    } else if starts_with(token, "--") {
        Role::LongFlag
    } else if starts_with(token, "-") {
        Role::ShortFlag
    } else if state.flag_awaiting_value.is_some() {
        Role::FlagValue
    } else if state.args_consumed < state.cmd.args.len() {
        Role::Positional
    } else {
        Role::Nothing
    }
}

/// Where completion goes from here: candidates found, or an argument's value to
/// complete from the filesystem or a script.
pub enum Step {
    Choices(Vec<(String, String)>),
    Arg(ArgRequest),
}

/// `r` is the request for argument `a`'s values.
pub open spec fn requests(r: ArgRequest, spec: Spec, a: SpecArg) -> bool {
    &&& r.builtin == kind_of(type_tag(spec, a))
    &&& match r.script {
        Some(s) => script_of(spec, a) == Some(s@),
        None => script_of(spec, a) is None,
    }
}

/// The parser reports a flag as waiting for its value only where the flag takes one.
pub open spec fn well_formed(state: ParseState) -> bool {
    state.flag_awaiting_value is Some ==> state.flag_awaiting_value->Some_0.arg is Some
}

/// Whether a flag reported as waiting for its value takes one.
pub fn well_formed_state(state: &ParseState) -> (r: bool)
    ensures
        r == well_formed(*state),
{
    match &state.flag_awaiting_value {
        Some(f) => f.arg.is_some(),
        None => true,
    }
}

/// The argument whose value the cursor is on, for the value roles.
pub open spec fn target_arg(state: ParseState, token: Seq<char>) -> SpecArg {
    if role_of(state, token) == Role::FlagValue {
        state.flag_awaiting_value->Some_0.arg->Some_0
    } else {
        state.cmd.args@[state.args_consumed as int]
    }
}

/// `r` completes `token` in `state` as the word's role asks.
pub open spec fn completes(r: Step, spec: Spec, state: ParseState, token: Seq<char>) -> bool {
    match role_of(state, token) {
        Role::Subcommand => r is Choices && lists_exactly(
            r->Choices_0@,
            |x: Choice| subcommand_offers(state.cmd, token, x),
        ),
        Role::AnyFlag => r is Choices && exists|a: Seq<(String, String)>, b: Seq<(String, String)>|
            r->Choices_0@ == a + b && lists_exactly(
                a,
                |x: Choice| short_flag_offers(state.available_flags@, Seq::empty(), x),
            ) && lists_exactly(
                b,
                |x: Choice| long_flag_offers(state.available_flags@, Seq::empty(), x),
            ),
        Role::LongFlag => r is Choices && lists_exactly(
            r->Choices_0@,
            |x: Choice| long_flag_offers(state.available_flags@, token, x),
        ),
        Role::ShortFlag => r is Choices && lists_exactly(
            r->Choices_0@,
            |x: Choice| short_flag_offers(state.available_flags@, token, x),
        ),
        Role::FlagValue | Role::Positional => r is Arg && requests(
            r->Arg_0,
            spec,
            target_arg(state, token),
        ),
        Role::Nothing => r is Choices && r->Choices_0@.len() == 0,
    }
}

/// Completes `token` in the state a parse of the words before it reached.
pub fn complete_in(spec: &Spec, state: &ParseState, token: &str) -> (r: Step)
    requires
        well_formed(*state),
    ensures
        completes(r, *spec, *state, token@),
{
    proof {
        reveal_strlit("");
        assert(""@ =~= Seq::<char>::empty());
    }
    match role(state, token) {
        Role::Subcommand => Step::Choices(complete_subcommands(&state.cmd, token)),
        Role::AnyFlag => {
            let mut shorts = complete_short_flag_names(&state.available_flags, "");
            let mut longs = complete_long_flag_names(&state.available_flags, "");
            let ghost a = shorts@;
            let ghost b = longs@;
            shorts.append(&mut longs);
            assert(shorts@ == a + b);
            Step::Choices(shorts)
        },
        Role::LongFlag => Step::Choices(complete_long_flag_names(&state.available_flags, token)),
        Role::ShortFlag => Step::Choices(complete_short_flag_names(&state.available_flags, token)),
        Role::FlagValue => {
            let flag = state.flag_awaiting_value.as_ref().unwrap();
            let a = flag.arg.as_ref().unwrap();
            Step::Arg(plan_arg(spec, a))
        },
        Role::Positional => Step::Arg(plan_arg(spec, &state.cmd.args[state.args_consumed])),
        Role::Nothing => Step::Choices(Vec::new()),
    }
}

/// Whether any candidate has a description.
pub open spec fn any_description(cs: Seq<Choice>) -> bool {
    exists|i: int| 0 <= i < cs.len() && #[trigger] cs[i].1.len() > 0
}

/// How one candidate is written: with its description after a tab for fish, or after
/// `\:` in single quotes for zsh, where any candidate has one; else the word alone.
pub open spec fn choice_line(c: Choice, described: bool, shell: Shell) -> Seq<char> {
    if described && shell == Shell::Fish {
        c.0 + "\t"@ + c.1
    } else if described && shell == Shell::Zsh {
        c.0 + "\\:'"@ + c.1 + "'"@
    } else {
        c.0
    }
}

/// The output lines for `choices` in the format of `shell`.
pub fn format_choices(choices: &Vec<(String, String)>, shell: Shell) -> (r: Vec<String>)
    ensures
        r@.len() == choices@.len(),
        forall|i: int|
            0 <= i < r@.len() ==> #[trigger] r@[i]@ == choice_line(
                choice_views(choices@)[i],
                any_description(choice_views(choices@)),
                shell,
            ),
{
    let ghost cs = choice_views(choices@);
    let mut described = false;
    let mut i: usize = 0;
    while i < choices.len()
        invariant
            i <= choices@.len(),
            cs == choice_views(choices@),
            described <==> exists|k: int| 0 <= k < i && #[trigger] cs[k].1.len() > 0,
        decreases choices@.len() - i,
    {
        if choices[i].1.unicode_len() > 0 {
            described = true;
        }
        assert(cs[i as int].1 == choices@[i as int].1@);
        i = i + 1;
    }
    let mut out: Vec<String> = Vec::new();
    let mut j: usize = 0;
    while j < choices.len()
        invariant
            j <= choices@.len(),
            cs == choice_views(choices@),
            described == any_description(cs),
            out@.len() == j,
            forall|k: int| 0 <= k < j ==> #[trigger] out@[k]@ == choice_line(cs[k], described, shell),
        decreases choices@.len() - j,
    {
        let (c, d) = (&choices[j].0, &choices[j].1);
        let mut line = c.clone();
        if described && shell == Shell::Fish {
            line.append("\t");
            line.append(d.as_str());
        } else if described && shell == Shell::Zsh {
            line.append("\\:'");
            line.append(d.as_str());
            line.append("'");
        }
        out.push(line);
        j = j + 1;
    }
    out
}

/// The index of the word under the cursor: the one given, else the last word's (0
/// where there are none).
pub open spec fn current_of(n_words: nat, cword: Option<usize>) -> nat {
    match cword {
        Some(c) => c as nat,
        None => if n_words == 0 { 0 } else { (n_words - 1) as nat },
    }
}

/// The word under the cursor, empty past the last word.
pub open spec fn token_of(words: Seq<String>, current: nat) -> Seq<char> {
    if current < words.len() {
        words[current as int]@
    } else {
        Seq::empty()
    }
}

/// How many words stand strictly before the cursor.
pub open spec fn n_preceding(n_words: nat, cword: Option<usize>) -> nat {
    let c = current_of(n_words, cword);
    if c < n_words {
        c
    } else {
        n_words
    }
}

/// A request to complete the word under the cursor.
pub struct CompleteWord {
    pub shell: Shell,
    /// The words typed so far.
    pub words: Vec<String>,
    /// A spec file to read.
    pub file: Option<String>,
    /// A spec given as a string.
    pub spec: Option<String>,
    /// The index of the word under the cursor.
    pub cword: Option<usize>,
}

impl CompleteWord {
    pub fn current(&self) -> (r: usize)
        ensures
            r as nat == current_of(self.words@.len(), self.cword),
    {
        match self.cword {
            Some(c) => c,
            None => if self.words.len() == 0 {
                0
            } else {
                self.words.len() - 1
            },
        }
    }

    pub fn token(&self) -> (r: String)
        ensures
            r@ == token_of(self.words@, current_of(self.words@.len(), self.cword)),
    {
        let c: usize = self.current();
        if c < self.words.len() {
            self.words[c].clone()
        } else {
            String::new()
        }
    }

    pub fn spec_source(&self) -> (r: Result<SpecSource, CompleteError>)
        ensures
            match (self.file, self.spec) {
                (Some(f), _) => r == Ok::<SpecSource, CompleteError>(SpecSource::File(f)),
                (None, Some(s)) => r == Ok::<SpecSource, CompleteError>(SpecSource::Text(s)),
                (None, None) => r == Err::<SpecSource, CompleteError>(CompleteError::MissingSpec),
            },
    {
        file_or_spec(&self.file, &self.spec)
    }

    /// Completes the word under the cursor, given where a parse of the words before it
    /// got to.
    pub fn complete_word(&self, spec: &Spec, state: &ParseState) -> (r: Step)
        requires
            well_formed(*state),
        ensures
            completes(
                r,
                *spec,
                *state,
                token_of(self.words@, current_of(self.words@.len(), self.cword)),
            ),
    {
        let token = self.token();
        complete_in(spec, state, token.as_str())
    }

    /// The context a completion script of this request is rendered in.
    pub fn script_context(&self) -> (r: ScriptContext)
        ensures
            word_views(r.words@) == word_views(self.words@),
            r.current as nat == current_of(self.words@.len(), self.cword),
            as_nat(r.prev) == prev_index(current_of(self.words@.len(), self.cword)),
    {
        let c: usize = self.current();
        script_context(&self.words, c)
    }

    /// The words strictly before the cursor, which the parser reads.
    pub fn preceding_words(&self) -> (r: Vec<String>)
        ensures
            word_views(r@) == word_views(self.words@.take(
                n_preceding(self.words@.len(), self.cword) as int,
            )),
    {
        let c: usize = self.current();
        let n: usize = if c < self.words.len() {
            c
        } else {
            self.words.len()
        };
        let mut out: Vec<String> = Vec::new();
        let mut i: usize = 0;
        while i < n
            invariant
                n <= self.words@.len(),
                n as nat == n_preceding(self.words@.len(), self.cword),
                i <= n,
                out@.len() == i,
                word_views(out@) == word_views(self.words@.take(i as int)),
            decreases n - i,
        {
            let ghost before = out@;
            let w = self.words[i].clone();
            out.push(w);
            assert forall|k: int| 0 <= k < i + 1 implies word_views(out@)[k] == word_views(
                self.words@.take(i + 1),
            )[k] by {
                if k < i {
                    assert(word_views(before)[k] == word_views(self.words@.take(i as int))[k]);
                }
            }
            assert(word_views(out@) =~= word_views(self.words@.take(i + 1)));
            i = i + 1;
        }
        out
    }

    /// The output lines for `choices` in this request's shell format.
    pub fn format_choices(&self, choices: &Vec<(String, String)>) -> (r: Vec<String>)
        ensures
            r@.len() == choices@.len(),
            forall|i: int|
                0 <= i < r@.len() ==> #[trigger] r@[i]@ == choice_line(
                    choice_views(choices@)[i],
                    any_description(choice_views(choices@)),
                    self.shell,
                ),
    {
        format_choices(choices, self.shell)
    }

    /// The completion document of `spec`.
    pub fn generate_fig_script(&self, spec: &Spec) -> (r: String)
        ensures
            r@ == document(*spec),
    {
        generate_fig_script(spec)
    }

    /// Escapes backslashes, backticks and double quotes with a backslash.
    pub fn escape_string(s: &str) -> (r: String)
        ensures
            r@ == escaped(s@),
    {
        escape(s)
    }
}

/// A request for the declarative completion document of a specification.
pub struct Fig {
    /// A spec file to read.
    pub file: Option<String>,
    /// A spec given as a string.
    pub spec: Option<String>,
}

impl Fig {
    pub fn spec_source(&self) -> (r: Result<SpecSource, CompleteError>)
        ensures
            match (self.file, self.spec) {
                (Some(f), _) => r == Ok::<SpecSource, CompleteError>(SpecSource::File(f)),
                (None, Some(s)) => r == Ok::<SpecSource, CompleteError>(SpecSource::Text(s)),
                (None, None) => r == Err::<SpecSource, CompleteError>(CompleteError::MissingSpec),
            },
    {
        file_or_spec(&self.file, &self.spec)
    }

    /// The completion document of `spec`.
    pub fn generate_fig_script(&self, spec: &Spec) -> (r: String)
        ensures
            r@ == document(*spec),
    {
        generate_fig_script(spec)
    }

    /// Escapes backslashes, backticks and double quotes with a backslash.
    pub fn escape_string(s: &str) -> (r: String)
        ensures
            r@ == escaped(s@),
    {
        escape(s)
    }
}

} // verus!
