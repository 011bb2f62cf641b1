use usage_cli::arg::{
    after_builtin, builtin_kind, script_choices, split_lines, ArgNext, ArgRequest, CompleteError,
    PathKind,
};
use usage_cli::candidates::{
    complete_long_flag_names, complete_short_flag_names, complete_subcommands,
};
use usage_cli::complete::{
    file_or_spec, role, CompleteWord, Fig, Role, Shell, SpecSource, Step,
};
use usage_cli::model::{Complete, ParseState, Spec, SpecArg, SpecCommand, SpecFlag};
use usage_cli::path::{complete_path, listing_target, PathEntry};

fn s(x: &str) -> String {
    x.to_string()
}

fn cmd(name: &str) -> SpecCommand {
    SpecCommand {
        name: s(name),
        aliases: vec![],
        help: None,
        hide: false,
        args: vec![],
        flags: vec![],
        subcommands: vec![],
    }
}

fn arg(name: &str) -> SpecArg {
    SpecArg { name: s(name), required: true, var: false, default: None, help: None }
}

fn flag(short: Option<char>, long: Option<&str>) -> SpecFlag {
    SpecFlag {
        short,
        long: long.map(s),
        arg: None,
        global: false,
        hide: false,
        help: None,
    }
}

fn spec_of(root: SpecCommand) -> Spec {
    Spec { name: s("mycli"), about: None, cmd: root, complete: vec![] }
}

fn words(c: &[(String, String)]) -> Vec<String> {
    c.iter().map(|(w, _)| w.clone()).collect()
}

fn request(ws: &[&str], cword: Option<usize>) -> CompleteWord {
    CompleteWord {
        shell: Shell::Plain,
        words: ws.iter().map(|w| s(w)).collect(),
        file: None,
        spec: Some(s("bin \"mycli\"")),
        cword,
    }
}

fn state(c: SpecCommand) -> ParseState {
    ParseState { cmd: c, args_consumed: 0, available_flags: vec![], flag_awaiting_value: None }
}

fn entry(name: &str, path: &str, is_dir: bool) -> PathEntry {
    PathEntry { name: s(name), path: s(path), is_dir, is_file: !is_dir }
}

#[test]
fn subcommands_prefix_sorted_with_aliases() {
    let mut root = cmd("mycli");
    let mut run = cmd("run");
    run.aliases = vec![s("r")];
    run.help = Some(s("run a task"));
    let mut debug = cmd("debug");
    debug.hide = true;
    root.subcommands = vec![cmd("remove"), run, debug, cmd("list")];
    let got = complete_subcommands(&root, "r");
    assert_eq!(
        got,
        vec![
            (s("r"), s("run a task")),
            (s("remove"), s("")),
            (s("run"), s("run a task")),
        ]
    );
    assert_eq!(complete_subcommands(&root, ""), {
        let mut v = vec![
            (s("list"), s("")),
            (s("r"), s("run a task")),
            (s("remove"), s("")),
            (s("run"), s("run a task")),
        ];
        v.sort();
        v
    });
    assert_eq!(complete_subcommands(&root, "R"), vec![]);
}

#[test]
fn subcommands_hidden_matchable_not_listed() {
    let mut root = cmd("mycli");
    let mut debug = cmd("debug");
    debug.hide = true;
    root.subcommands = vec![debug];
    assert_eq!(complete_subcommands(&root, "de"), vec![]);
}

#[test]
fn subcommands_repeats_dropped() {
    let mut root = cmd("mycli");
    let mut a = cmd("go");
    a.aliases = vec![s("go")];
    root.subcommands = vec![a];
    assert_eq!(complete_subcommands(&root, ""), vec![(s("go"), s(""))]);
}

#[test]
fn long_flags_ver() {
    let flags = vec![flag(None, Some("version")), flag(Some('q'), None), flag(None, Some("verbose"))];
    assert_eq!(words(&complete_long_flag_names(&flags, "--ver")), vec![s("--verbose"), s("--version")]);
}

#[test]
fn long_flags_hidden_and_repeated() {
    let mut hidden = flag(None, Some("secret"));
    hidden.hide = true;
    let flags = vec![flag(None, Some("all")), hidden, flag(Some('a'), Some("all"))];
    assert_eq!(
        complete_long_flag_names(&flags, "--"),
        vec![(s("--all"), s(""))]
    );
}

#[test]
fn short_flags_bare_dash() {
    let flags = vec![flag(Some('x'), None), flag(Some('v'), None)];
    assert_eq!(words(&complete_short_flag_names(&flags, "-")), vec![s("-v"), s("-x")]);
    let flags = vec![flag(Some('v'), None), flag(Some('x'), None)];
    assert_eq!(words(&complete_short_flag_names(&flags, "-")), vec![s("-v"), s("-x")]);
}

#[test]
fn short_flags_exact() {
    let flags = vec![flag(Some('v'), None), flag(Some('x'), None)];
    assert_eq!(complete_short_flag_names(&flags, "-v"), vec![(s("-v"), s(""))]);
}

#[test]
fn short_flags_second_character_only() {
    let flags = vec![flag(Some('v'), None), flag(Some('x'), None)];
    assert_eq!(words(&complete_short_flag_names(&flags, "-vx")), vec![s("-v")]);
}

#[test]
fn path_dir_prefix() {
    let entries = vec![
        entry("src", "src", true),
        entry("setup.sh", "setup.sh", false),
        entry("scripts", "scripts", true),
        entry("docs", "docs", true),
    ];
    assert_eq!(
        words(&complete_path(&entries, "s", PathKind::Dir)),
        vec![s("scripts"), s("src")]
    );
    assert_eq!(words(&complete_path(&entries, "s", PathKind::File)), vec![s("setup.sh")]);
    assert_eq!(
        words(&complete_path(&entries, "s", PathKind::Any)),
        vec![s("scripts"), s("setup.sh"), s("src")]
    );
}

#[test]
fn path_trailing_separator_descends() {
    let (dir, prefix) = listing_target("src/", true, s("/work"), s("src"));
    assert_eq!(dir, s("src/"));
    assert_eq!(prefix, s(""));
    let (dir, prefix) = listing_target("src", true, s("/work"), s("src"));
    assert_eq!(dir, s("/work"));
    assert_eq!(prefix, s("src"));
    let inside = vec![entry("main.rs", "src/main.rs", false), entry("lib.rs", "src/lib.rs", false)];
    assert_eq!(
        words(&complete_path(&inside, &prefix_of("src/", true), PathKind::Any)),
        vec![s("src/lib.rs"), s("src/main.rs")]
    );
}

fn prefix_of(token: &str, is_dir: bool) -> String {
    listing_target(token, is_dir, s("/work"), s("")).1
}

#[test]
fn script_lines_filtered() {
    let got = script_choices(Ok(s("red\nblue\ngreen")), "b").unwrap();
    assert_eq!(got, vec![(s("blue"), s(""))]);
    let got = script_choices(Ok(s("red\r\nrose\n")), "r").unwrap();
    assert_eq!(words(&got), vec![s("red"), s("rose")]);
}

#[test]
fn script_failure_is_error() {
    let got = script_choices(Err(s("sh -c exit 1")), "b");
    assert_eq!(got, Err(CompleteError::Script(s("sh -c exit 1"))));
}

#[test]
fn builtin_kinds() {
    assert_eq!(builtin_kind("path"), Some(PathKind::Any));
    assert_eq!(builtin_kind("dir"), Some(PathKind::Dir));
    assert_eq!(builtin_kind("file"), Some(PathKind::File));
    assert_eq!(builtin_kind("color"), None);
    assert_eq!(builtin_kind("Dir"), None);
}

#[test]
fn roles_in_order() {
    let mut with_subs = cmd("mycli");
    with_subs.subcommands = vec![cmd("run")];
    assert_eq!(role(&state(with_subs), "--x"), Role::Subcommand);
    assert_eq!(role(&state(leaf_with_target()), "-"), Role::AnyFlag);
    assert_eq!(role(&state(leaf_with_target()), "--v"), Role::LongFlag);
    assert_eq!(role(&state(leaf_with_target()), "-v"), Role::ShortFlag);
    assert_eq!(role(&state(leaf_with_target()), "x"), Role::Positional);
    let mut waiting = state(leaf_with_target());
    let mut f = flag(Some('o'), None);
    f.arg = Some(arg("out"));
    waiting.flag_awaiting_value = Some(f);
    assert_eq!(role(&waiting, "x"), Role::FlagValue);
    let mut done = state(leaf_with_target());
    done.args_consumed = 1;
    assert_eq!(role(&done, "x"), Role::Nothing);
}

fn leaf_with_target() -> SpecCommand {
    let mut leaf = cmd("run");
    leaf.args = vec![arg("target")];
    leaf
}

#[test]
fn complete_word_any_flag() {
    let mut leaf = cmd("mycli");
    leaf.flags = vec![];
    let mut st = state(leaf);
    st.available_flags = vec![flag(Some('v'), Some("verbose")), flag(Some('x'), None)];
    let req = request(&["mycli", "-"], None);
    let spec = spec_of(cmd("mycli"));
    match req.complete_word(&spec, &st) {
        Step::Choices(c) => assert_eq!(words(&c), vec![s("-v"), s("-x"), s("--verbose")]),
        Step::Arg(_) => panic!("expected candidates"),
    }
}

#[test]
fn complete_word_positional_uses_rule() {
    let mut leaf = cmd("mycli");
    leaf.args = vec![arg("Color")];
    let mut spec = spec_of(cmd("mycli"));
    spec.complete = vec![Complete { key: s("color"), type_: None, run: Some(s("echo red")) }];
    let req = request(&["mycli", "b"], None);
    match req.complete_word(&spec, &state(leaf)) {
        Step::Arg(r) => {
            assert_eq!(r.builtin, None);
            assert_eq!(r.script, Some(s("echo red")));
        }
        Step::Choices(_) => panic!("expected an argument request"),
    }
}

#[test]
fn complete_word_builtin_by_name() {
    let mut leaf = cmd("mycli");
    leaf.args = vec![arg("DIR")];
    let spec = spec_of(cmd("mycli"));
    let req = request(&["mycli", ""], None);
    match req.complete_word(&spec, &state(leaf)) {
        Step::Arg(r) => {
            assert_eq!(r.builtin, Some(PathKind::Dir));
            assert_eq!(r.script, None);
        }
        Step::Choices(_) => panic!("expected an argument request"),
    }
}

#[test]
fn complete_word_nothing_left() {
    let leaf = cmd("mycli");
    let spec = spec_of(cmd("mycli"));
    let req = request(&["mycli", "x"], None);
    match req.complete_word(&spec, &state(leaf)) {
        Step::Choices(c) => assert!(c.is_empty()),
        Step::Arg(_) => panic!("expected no candidates"),
    }
}

#[test]
fn cursor_defaults() {
    assert_eq!(request(&[], None).current(), 0);
    assert_eq!(request(&[], None).token(), s(""));
    assert_eq!(request(&["a", "b", "c"], None).current(), 2);
    assert_eq!(request(&["a", "b", "c"], None).token(), s("c"));
    assert_eq!(request(&["a", "b", "c"], Some(1)).token(), s("b"));
    assert_eq!(request(&["a"], Some(5)).token(), s(""));
}

#[test]
fn script_context_values() {
    let ctx = request(&["mycli", "paint", "b"], None).script_context();
    assert_eq!(ctx.words, vec![s("mycli"), s("paint"), s("b")]);
    assert_eq!(ctx.current, 2);
    assert_eq!(ctx.prev, Some(1));
    let first = request(&["x"], Some(0)).script_context();
    assert_eq!(first.current, 0);
    assert_eq!(first.prev, None);
}

#[test]
fn words_before_cursor() {
    assert_eq!(request(&["a", "b", "c"], None).preceding_words(), vec![s("a"), s("b")]);
    assert_eq!(request(&["a", "b", "c"], Some(1)).preceding_words(), vec![s("a")]);
    assert_eq!(request(&["a", "b"], Some(7)).preceding_words(), vec![s("a"), s("b")]);
    assert!(request(&[], None).preceding_words().is_empty());
}

#[test]
fn formats_per_shell() {
    let described = vec![(s("run"), s("run it")), (s("rm"), s(""))];
    let plain = vec![(s("a"), s("")), (s("b"), s(""))];
    let mut req = request(&["x"], None);
    req.shell = Shell::Fish;
    assert_eq!(req.format_choices(&described), vec![s("run\trun it"), s("rm\t")]);
    assert_eq!(req.format_choices(&plain), vec![s("a"), s("b")]);
    req.shell = Shell::Zsh;
    assert_eq!(req.format_choices(&described), vec![s("run\\:'run it'"), s("rm\\:''")]);
    req.shell = Shell::Bash;
    assert_eq!(req.format_choices(&described), vec![s("run"), s("rm")]);
    req.shell = Shell::Plain;
    assert_eq!(req.format_choices(&described), vec![s("run"), s("rm")]);
}

#[test]
fn spec_sources() {
    assert_eq!(file_or_spec(&Some(s("a.kdl")), &Some(s("x"))), Ok(SpecSource::File(s("a.kdl"))));
    assert_eq!(file_or_spec(&None, &Some(s("x"))), Ok(SpecSource::Text(s("x"))));
    assert_eq!(file_or_spec(&None, &None), Err(CompleteError::MissingSpec));
    let fig = Fig { file: None, spec: None };
    assert_eq!(fig.spec_source(), Err(CompleteError::MissingSpec));
}

#[test]
fn escapes_quotes_and_backticks() {
    assert_eq!(CompleteWord::escape_string("say \"hi\" `now`"), s("say \\\"hi\\\" \\`now\\`"));
    assert_eq!(Fig::escape_string("a\\`b"), s("a\\\\\\`b"));
    assert_eq!(Fig::escape_string("c:\\dir"), s("c:\\\\dir"));
    assert_eq!(Fig::escape_string(""), s(""));
    assert_eq!(Fig::escape_string("plain"), s("plain"));
}

fn sample_spec() -> Spec {
    let mut root = cmd("mycli");
    let mut debug = cmd("debug");
    debug.hide = true;
    let mut run = cmd("run");
    run.aliases = vec![s("r")];
    run.help = Some(s("Run a `task`"));
    let mut target = arg("target");
    target.required = false;
    target.var = true;
    target.default = Some(s("all"));
    run.args = vec![target];
    let mut out = flag(Some('o'), Some("out"));
    out.arg = Some(arg("file"));
    out.global = true;
    run.flags = vec![out];
    root.subcommands = vec![debug, run];
    root.flags = vec![flag(Some('v'), Some("verbose"))];
    Spec { name: s("mycli"), about: Some(s("My \"cli\"")), cmd: root, complete: vec![] }
}

#[test]
fn fig_hidden_subcommand_kept() {
    let mut root = cmd("mycli");
    let mut debug = cmd("debug");
    debug.hide = true;
    root.subcommands = vec![debug];
    let doc = Fig { file: None, spec: None }.generate_fig_script(&spec_of(root));
    assert!(doc.contains("name: \"debug\""));
    assert!(doc.contains("    {\n      name: \"debug\",\n      description: ``,\n      hidden: true, \n    },\n"));
}

#[test]
fn fig_document_layout() {
    let doc = Fig { file: None, spec: None }.generate_fig_script(&sample_spec());
    let expected: String = [
        "const completionSpec: Fig.Spec = {\n",
        "  name: \"mycli\",\n",
        "  description: `My \\\"cli\\\"`,\n",
        "  subcommands: [\n",
        "    {\n",
        "      name: \"debug\",\n",
        "      description: ``,\n",
        "      hidden: true, \n",
        "    },\n",
        "    {\n",
        "      displayName: \"run\",\n",
        "      name: [\"run\", \"r\"],\n",
        "      description: `Run a \\`task\\` [aliases: r]`,\n",
        "      args: [\n",
        "        {\n",
        "          name: \"target\",\n",
        "          isOptional: true, \n",
        "          isVariadic: true,\n",
        "          default: \"all\",\n",
        "        },\n",
        "      ],\n",
        "      options: [\n",
        "        {\n",
        "          name: [\"-o\", \"--out\"],\n",
        "          args: [\n",
        "            {\n",
        "              name: \"file\",\n",
        "            },\n",
        "          ],\n",
        "          isPersistent: true, \n",
        "        },\n",
        "      ],\n",
        "    },\n",
        "  ],\n",
        "  options: [\n",
        "    {\n",
        "      name: [\"-v\", \"--verbose\"],\n",
        "    },\n",
        "  ],\n",
        "};\n",
        "export default completionSpec;\n",
    ]
    .concat();
    assert_eq!(doc, expected);
}

#[test]
fn fig_twice_identical() {
    let spec = sample_spec();
    let a = Fig { file: None, spec: None }.generate_fig_script(&spec);
    let b = Fig { file: None, spec: None }.generate_fig_script(&spec);
    assert_eq!(a, b);
    let req = request(&["x"], None);
    assert_eq!(req.generate_fig_script(&spec), a);
}

#[test]
fn builtin_before_script() {
    let with_script = ArgRequest { builtin: Some(PathKind::Dir), script: Some(s("echo x")) };
    match after_builtin(&with_script, vec![(s("src"), s(""))]) {
        ArgNext::Choices(c) => assert_eq!(c, vec![(s("src"), s(""))]),
        ArgNext::RunScript(_) => panic!("built-in candidates come first"),
    }
    match after_builtin(&with_script, vec![]) {
        ArgNext::RunScript(t) => assert_eq!(t, s("echo x")),
        ArgNext::Choices(_) => panic!("expected the script"),
    }
    let bare = ArgRequest { builtin: None, script: None };
    match after_builtin(&bare, vec![]) {
        ArgNext::Choices(c) => assert!(c.is_empty()),
        ArgNext::RunScript(_) => panic!("no script to run"),
    }
}

#[test]
fn lines_split_as_std_does() {
    for text in ["", "\n", "a", "a\n", "a\r\nb\r", "a\n\nb", "\r\n", "x\ry\n", "one\ntwo\n\n"] {
        let expected: Vec<String> = text.lines().map(|l| l.to_string()).collect();
        assert_eq!(split_lines(text), expected, "text {text:?}");
    }
}
