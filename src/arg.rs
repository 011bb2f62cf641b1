//! Completing the value of one argument: by a built-in path kind, or by the output of
//! a templated shell script.
use crate::candidates::{choice_views, Choice};
use crate::model::{Complete, Spec, SpecArg};
use crate::text::{is_prefix, same, starts_with};
use vstd::prelude::*;

verus! {

/// Which filesystem entries a built-in completion lists.
#[derive(PartialEq, Eq, Structural, Clone, Copy, Debug)]
pub enum PathKind {
    /// Any entry.
    Any,
    /// Directories only.
    Dir,
    /// Regular files only.
    File,
}

/// Why a completion request failed.
#[derive(PartialEq, Eq, Debug)]
pub enum CompleteError {
    /// The script template could not be rendered.
    Template,
    /// The script could not run or exited with a failure; it holds the command line.
    Script(String),
    /// Neither a spec file nor a spec string was given.
    MissingSpec,
}

/// The lower-case form of a string, as `str::to_lowercase` gives it.
pub uninterp spec fn lower_of(s: Seq<char>) -> Seq<char>;

/// Relies on `str::to_lowercase`: the result depends on the characters alone.
#[verifier::external_body]
fn to_lower(s: &str) -> (r: String)
    ensures
        r@ == lower_of(s@),
{
    s.to_lowercase()
}

/// The built-in kind a type tag names: `path`, `dir` or `file`.
pub open spec fn kind_of(tag: Seq<char>) -> Option<PathKind> {
    if tag == seq!['p', 'a', 't', 'h'] {
        Some(PathKind::Any)
    } else if tag == seq!['d', 'i', 'r'] {
        Some(PathKind::Dir)
    } else if tag == seq!['f', 'i', 'l', 'e'] {
        Some(PathKind::File)
    } else {
        None
    }
}

pub fn builtin_kind(tag: &str) -> (r: Option<PathKind>)
    ensures
        r == kind_of(tag@),
{
    proof {
        reveal_strlit("path");
        reveal_strlit("dir");
        reveal_strlit("file");
        assert("path"@ =~= seq!['p', 'a', 't', 'h']);
        assert("dir"@ =~= seq!['d', 'i', 'r']);
        assert("file"@ =~= seq!['f', 'i', 'l', 'e']);
    }
    if same(tag, "path") {
        Some(PathKind::Any)
    } else if same(tag, "dir") {
        Some(PathKind::Dir)
    } else if same(tag, "file") {
        Some(PathKind::File)
    } else {
        None
    }
}

pub fn find_rule(rules: &Vec<Complete>, key: &str) -> (r: Option<usize>)
    ensures
        match r {
            Some(i) => i < rules@.len() && rules@[i as int].key@ == key@ && forall|j: int|
                0 <= j < i ==> rules@[j].key@ != key@,
            None => forall|j: int| 0 <= j < rules@.len() ==> rules@[j].key@ != key@,
        },
{
    let mut i: usize = 0;
    while i < rules.len()
        invariant
            i <= rules@.len(),
            forall|j: int| 0 <= j < i ==> rules@[j].key@ != key@,
        decreases rules@.len() - i,
    {
        if same(rules[i].key.as_str(), key) {
            return Some(i);
        }
        i = i + 1;
    }
    None
}

/// The first rule keyed by `key`, if any.
pub open spec fn rule_for(rules: Seq<Complete>, key: Seq<char>) -> Option<Complete> {
    if exists|i: int| 0 <= i < rules.len() && rules[i].key@ == key && forall|j: int|
        0 <= j < i ==> rules[j].key@ != key {
        Some(
            rules[choose|i: int|
                0 <= i < rules.len() && rules[i].key@ == key && forall|j: int|
                    0 <= j < i ==> rules[j].key@ != key],
        )
    } else {
        None
    }
}

/// What completing an argument's value takes: the built-in kind its type names, if
/// any, and its script template, if any.
pub struct ArgRequest {
    pub builtin: Option<PathKind>,
    pub script: Option<String>,
}

/// What follows a built-in listing for an argument.
pub enum ArgNext {
    /// These are the candidates.
    Choices(Vec<(String, String)>),
    /// Run this script template's rendering; its output gives the candidates.
    RunScript(String),
}

/// Built-in candidates win where there are any; else the argument's script runs, if it
/// has one; else there are no candidates.
pub fn after_builtin(request: &ArgRequest, found: Vec<(String, String)>) -> (r: ArgNext)
    ensures
        found@.len() > 0 ==> r is Choices && r->Choices_0@ == found@,
        found@.len() == 0 && request.script is Some ==> r is RunScript && r->RunScript_0
            == request.script->Some_0,
        found@.len() == 0 && request.script is None ==> r is Choices && r->Choices_0@.len()
            == 0,
{
    if found.len() > 0 {
        return ArgNext::Choices(found);
    }
    match &request.script {
        Some(t) => ArgNext::RunScript(t.clone()),
        None => ArgNext::Choices(Vec::new()),
    }
}

/// The type tag of argument `a`: its rule's explicit type, else its lower-case name.
pub open spec fn type_tag(spec: Spec, a: SpecArg) -> Seq<char> {
    let name = lower_of(a.name@);
    match rule_for(spec.complete@, name) {
        Some(rule) => match rule.type_ {
            Some(t) => t@,
            None => name,
        },
        None => name,
    }
}

/// The script template of argument `a`'s rule, if it has one.
pub open spec fn script_of(spec: Spec, a: SpecArg) -> Option<Seq<char>> {
    match rule_for(spec.complete@, lower_of(a.name@)) {
        Some(rule) => match rule.run {
            Some(r) => Some(r@),
            None => None,
        },
        None => None,
    }
}

/// Looks up how the values of `arg` are completed.
pub fn plan_arg(spec: &Spec, arg: &SpecArg) -> (r: ArgRequest)
    ensures
        r.builtin == kind_of(type_tag(*spec, *arg)),
        match r.script {
            Some(s) => script_of(*spec, *arg) == Some(s@),
            None => script_of(*spec, *arg) is None,
        },
{
    let name = to_lower(arg.name.as_str());
    match find_rule(&spec.complete, name.as_str()) {
        Some(i) => {
            let rule = &spec.complete[i];
            assert(rule_for(spec.complete@, name@) == Some(*rule));
            let builtin = match &rule.type_ {
                Some(t) => builtin_kind(t.as_str()),
                None => builtin_kind(name.as_str()),
            };
            let script = match &rule.run {
                Some(r) => Some(r.clone()),
                None => None,
            };
            ArgRequest { builtin, script }
        },
        None => ArgRequest { builtin: builtin_kind(name.as_str()), script: None },
    }
}

/// The text of each string.
pub open spec fn word_views(s: Seq<String>) -> Seq<Seq<char>> {
    s.map_values(|w: String| w@)
}

pub open spec fn as_nat(o: Option<usize>) -> Option<nat> {
    match o {
        Some(p) => Some(p as nat),
        None => None,
    }
}

/// The index of the word before the cursor, where there is one.
pub open spec fn prev_index(current: nat) -> Option<nat> {
    if current > 0 {
        Some((current - 1) as nat)
    } else {
        None
    }
}

/// The values a completion script template is rendered with: `words`, `CURRENT` and,
/// where there is one, `PREV`.
pub struct ScriptContext {
    /// Every word typed, as `words`.
    pub words: Vec<String>,
    /// The index of the word under the cursor, as `CURRENT`.
    pub current: usize,
    /// The index before it, as `PREV`, past the first word.
    pub prev: Option<usize>,
}

/// The context for a script: the words typed, the cursor's word index, and the index
/// before it where there is one.
pub fn script_context(words: &Vec<String>, current: usize) -> (r: ScriptContext)
    ensures
        word_views(r.words@) == word_views(words@),
        r.current == current,
        as_nat(r.prev) == prev_index(current as nat),
{
    let mut copy: Vec<String> = Vec::new();
    let mut i: usize = 0;
    while i < words.len()
        invariant
            i <= words@.len(),
            copy@.len() == i,
            word_views(copy@) == word_views(words@.take(i as int)),
        decreases words@.len() - i,
    {
        let ghost before = copy@;
        let w = words[i].clone();
        copy.push(w);
        assert forall|k: int| 0 <= k < i + 1 implies word_views(copy@)[k] == word_views(
            words@.take(i + 1),
        )[k] by {
            if k < i {
                assert(word_views(before)[k] == word_views(words@.take(i as int))[k]);
            }
        }
        assert(word_views(copy@) =~= word_views(words@.take(i + 1)));
        i = i + 1;
    }
    assert(words@.take(i as int) =~= words@);
    let prev: Option<usize> = if current > 0 {
        Some(current - 1)
    } else {
        None
    };
    ScriptContext { words: copy, current, prev }
}

/// The index of the first line feed in `s`, or its length where there is none.
pub open spec fn line_end(s: Seq<char>) -> nat
    decreases s.len(),
{
    if s.len() == 0 || s[0] == '\n' {
        0
    } else {
        1 + line_end(s.skip(1))
    }
}

/// The lines of a text: split at each `\n`, less a `\r` just before it; a final line
/// ending adds no empty line.
pub open spec fn lines_of(s: Seq<char>) -> Seq<Seq<char>>
    decreases s.len(),
{
    if s.len() == 0 {
        Seq::empty()
    } else {
        let k = line_end(s);
        if k < s.len() {
            let line = s.take(k as int);
            let line = if line.len() > 0 && line.last() == '\r' {
                line.drop_last()
            } else {
                line
            };
            seq![line] + lines_of(s.skip(k + 1 as int))
        } else {
            seq![s]
        }
    }
}

proof fn lemma_line_end(s: Seq<char>, m: int)
    requires
        0 <= m <= s.len(),
        forall|k: int| 0 <= k < m ==> s[k] != '\n',
        m == s.len() || s[m] == '\n',
    ensures
        line_end(s) == m,
    decreases m,
{
    if m > 0 {
        lemma_line_end(s.skip(1), m - 1);
    }
}

/// Splits a text into lines: at each `\n`, less a `\r` just before it; a final line
/// ending adds no empty line.
pub fn split_lines(s: &str) -> (r: Vec<String>)
    ensures
        word_views(r@) == lines_of(s@),
{
    let n: usize = s.unicode_len();
    let mut out: Vec<String> = Vec::new();
    let mut start: usize = 0;
    let mut i: usize = 0;
    assert(s@.skip(0) =~= s@);
    assert(word_views(out@) + lines_of(s@) =~= lines_of(s@));
    while i < n
        invariant
            n == s@.len(),
            start <= i <= n,
            forall|k: int| start <= k < i ==> s@[k] != '\n',
            word_views(out@) + lines_of(s@.skip(start as int)) == lines_of(s@),
        decreases n - i,
    {
        if s.get_char(i) == '\n' {
            let ghost rest = s@.skip(start as int);
            proof {
                lemma_line_end(rest, i - start);
            }
            let end: usize = if i > start && s.get_char(i - 1) == '\r' {
                i - 1
            } else {
                i
            };
            let line = s.substring_char(start, end);
            let ghost l0 = rest.take(i - start);
            assert(line@ =~= (if l0.len() > 0 && l0.last() == '\r' { l0.drop_last() } else { l0 }));
            assert(rest.skip(i - start + 1) =~= s@.skip(i + 1));
            let ghost before = out@;
            out.push(line.to_owned());
            assert(word_views(out@) =~= word_views(before).push(line@));
            assert(word_views(out@) + lines_of(s@.skip(i + 1)) =~= word_views(before) + lines_of(rest));
            start = i + 1;
        }
        i = i + 1;
    }
    if start < n {
        let ghost rest = s@.skip(start as int);
        proof {
            lemma_line_end(rest, n - start);
        }
        let last = s.substring_char(start, n);
        assert(last@ =~= rest);
        let ghost before = out@;
        out.push(last.to_owned());
        assert(word_views(out@) =~= word_views(before).push(last@));
        assert(word_views(out@) =~= word_views(before) + lines_of(rest));
    } else {
        assert(word_views(out@) + lines_of(s@.skip(start as int)) =~= word_views(out@));
    }
    out
}

/// The lines that start with `token`, in order, each with an empty description.
pub open spec fn kept_lines(lines: Seq<Seq<char>>, token: Seq<char>) -> Seq<Choice>
    decreases lines.len(),
{
    if lines.len() == 0 {
        Seq::empty()
    } else {
        let rest = kept_lines(lines.drop_last(), token);
        if is_prefix(token, lines.last()) {
            rest.push((lines.last(), Seq::empty()))
        } else {
            rest
        }
    }
}

/// The script output lines that start with `token`, each with an empty description.
pub fn script_line_choices(lines: &Vec<String>, token: &str) -> (r: Vec<(String, String)>)
    ensures
        choice_views(r@) == kept_lines(word_views(lines@), token@),
{
    let mut out: Vec<(String, String)> = Vec::new();
    let mut i: usize = 0;
    while i < lines.len()
        invariant
            i <= lines@.len(),
            choice_views(out@) == kept_lines(word_views(lines@.take(i as int)), token@),
        decreases lines@.len() - i,
    {
        assert(word_views(lines@.take(i + 1)).drop_last() =~= word_views(lines@.take(i as int)));
        assert(word_views(lines@.take(i + 1)).last() == lines@[i as int]@);
        if starts_with(lines[i].as_str(), token) {
            let pair = (lines[i].clone(), String::new());
            assert(choice_views(out@.push(pair)) =~= choice_views(out@).push((pair.0@, pair.1@)));
            out.push(pair);
        }
        i = i + 1;
    }
    assert(lines@.take(i as int) =~= lines@);
    out
}

/// The candidates from a completion script's run: on success, its output lines that
/// start with `token`; on failure, a script error carrying the failed command line.
pub fn script_choices(output: Result<String, String>, token: &str) -> (r: Result<Vec<(String, String)>, CompleteError>)
    ensures
        match output {
            Ok(s) => r is Ok && choice_views(r->Ok_0@) == kept_lines(lines_of(s@), token@),
            Err(cmd) => r is Err && r->Err_0 == CompleteError::Script(cmd),
        },
{
    match output {
        Ok(s) => {
            let lines = split_lines(s.as_str());
            Ok(script_line_choices(&lines, token))
        },
        Err(cmd) => Err(CompleteError::Script(cmd)),
    }
}

} // verus!
