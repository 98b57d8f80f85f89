use winuxsh::array::ArrayValue;
use winuxsh::blocks::{
    case_block_commands, find_if_branch_end, find_then_body_start, if_block_plan,
    parse_while_block, read_function_block, script_line_kind, script_simple_line, LineKind,
    SimpleAction,
};
use winuxsh::script::{expand_script_vars, resolve_script_var, ScriptState};

fn lines(items: &[&str]) -> Vec<String> {
    items.iter().map(|s| s.to_string()).collect()
}

#[test]
fn while_block_finds_its_own_done() {
    let l = lines(&[
        "while [ $i -lt 3 ]; do",
        "  echo $i",
        "  while true; do",
        "    break",
        "  done",
        "done",
        "echo end",
    ]);
    assert_eq!(parse_while_block(&l, 0, l.len()), Ok(("[ $i -lt 3 ]".to_string(), 1, 5, 6)));
}

#[test]
fn while_block_takes_do_from_a_later_line() {
    let l = lines(&["while true", "# comment", "do", "echo", "done"]);
    assert_eq!(parse_while_block(&l, 0, l.len()), Ok(("true".to_string(), 3, 4, 5)));
}

#[test]
fn while_block_errors() {
    let l = lines(&["while x; do", "echo"]);
    assert_eq!(parse_while_block(&l, 0, l.len()), Err("while block missing 'done'".to_string()));
    let l = lines(&["while true", "echo", "done"]);
    assert_eq!(parse_while_block(&l, 0, l.len()), Err("while syntax expects 'do'".to_string()));
    let l = lines(&["while ; do", "done"]);
    assert_eq!(parse_while_block(&l, 0, l.len()), Err("while condition cannot be empty".to_string()));
}

fn case_lines() -> Vec<String> {
    lines(&[
        "case $x in",
        "  a|b) echo ab ;;",
        "  c*)",
        "    echo c1",
        "    echo c2",
        "  ;;",
        "  *) echo other ;;",
        "esac",
        "after",
    ])
}

#[test]
fn case_block_runs_only_the_first_matching_branch() {
    let l = case_lines();
    let mut state = ScriptState::new(&[]);
    state.set_local("x".to_string(), "cat".to_string());
    assert_eq!(
        case_block_commands(&l, 0, l.len(), &state, &[]),
        Ok((vec!["echo c1".to_string(), "echo c2".to_string()], 8))
    );
    state.set_local("x".to_string(), "b".to_string());
    assert_eq!(case_block_commands(&l, 0, l.len(), &state, &[]), Ok((vec!["echo ab".to_string()], 8)));
    state.set_local("x".to_string(), "zzz".to_string());
    assert_eq!(
        case_block_commands(&l, 0, l.len(), &state, &[]),
        Ok((vec!["echo other".to_string()], 8))
    );
}

#[test]
fn case_block_errors() {
    let state = ScriptState::new(&[]);
    let l = lines(&["case x", "esac"]);
    assert_eq!(
        case_block_commands(&l, 0, l.len(), &state, &[]),
        Err("case syntax expects 'case <word> in'".to_string())
    );
    let l = lines(&["case x in", "x) echo ;;"]);
    assert_eq!(
        case_block_commands(&l, 0, l.len(), &state, &[]),
        Err("case block missing 'esac'".to_string())
    );
}

#[test]
fn if_block_lists_branches_and_else() {
    let l = lines(&[
        "if [ -f a ]; then",
        "  echo a",
        "elif [ -f b ]; then",
        "  echo b",
        "else",
        "  echo c",
        "fi",
        "next",
    ]);
    let plan = if_block_plan(&l, 0, l.len()).unwrap();
    let branches: Vec<(String, usize, usize)> =
        plan.branches.iter().map(|b| (b.condition.clone(), b.body_start, b.body_end)).collect();
    assert_eq!(
        branches,
        vec![("[ -f a ]".to_string(), 1, 2), ("[ -f b ]".to_string(), 3, 4)]
    );
    assert_eq!(plan.else_block, Some((5, 6)));
    assert_eq!(plan.next, 7);
}

#[test]
fn if_block_skips_nested_blocks() {
    let l = lines(&["if a", "then", "  if b; then", "    x", "  fi", "fi"]);
    let plan = if_block_plan(&l, 0, l.len()).unwrap();
    assert_eq!(plan.branches.len(), 1);
    assert_eq!(plan.branches[0].condition, "a");
    assert_eq!((plan.branches[0].body_start, plan.branches[0].body_end), (2, 5));
    assert_eq!(plan.else_block, None);
    assert_eq!(plan.next, 6);
    let l = lines(&["if a; then", "x"]);
    assert!(if_block_plan(&l, 0, l.len()).is_err());
}

#[test]
fn branch_helpers_find_then_and_markers() {
    let l = lines(&["if a", "", "then", "x", "elif b; then"]);
    assert_eq!(find_then_body_start(&l, 0, 4), Ok((3, 3)));
    assert_eq!(find_if_branch_end(&l, 3, 4, &["elif", "else", "fi"]), Ok(4));
    assert_eq!(find_if_branch_end(&l, 3, 3, &["elif"]), Err("if branch termination not found".to_string()));
}

#[test]
fn script_lines_are_classified() {
    let l = lines(&["", "# c", "break", "continue", "while x; do", "if y; then", "case z in", "f() {", "echo hi"]);
    let kinds: Vec<LineKind> = (0..l.len()).map(|i| script_line_kind(&l, i)).collect();
    assert_eq!(
        kinds,
        vec![
            LineKind::Skip,
            LineKind::Skip,
            LineKind::Break,
            LineKind::Continue,
            LineKind::While,
            LineKind::If,
            LineKind::Case,
            LineKind::Function("f".to_string()),
            LineKind::Simple("echo hi".to_string()),
        ]
    );
}

#[test]
fn function_block_collects_the_body() {
    let l = lines(&["greet() {", "  echo hi", "  if x; then {", "  }", "}", "after"]);
    assert_eq!(
        read_function_block(&l, 0, l.len()),
        Ok((vec!["echo hi".to_string(), "if x; then {".to_string(), "}".to_string()], 5))
    );
    let l = lines(&["f() {", "echo"]);
    assert_eq!(read_function_block(&l, 0, l.len()), Err("function block missing '}'".to_string()));
}

#[test]
fn script_vars_expand_positionals_locals_and_shell_variables() {
    let mut state = ScriptState::new(&["one".to_string(), "two".to_string()]);
    state.set_local("name".to_string(), "bob".to_string());
    let env = vec![
        ("HOME".to_string(), ArrayValue::String("/home/u".to_string())),
        ("Path".to_string(), ArrayValue::String("/bin".to_string())),
        ("LIST".to_string(), ArrayValue::Array(vec!["a".to_string()])),
    ];
    assert_eq!(
        expand_script_vars("$1 $2 $3 $# $@ ${name} ${missing:-dflt} $HOME $PATH $LIST $% $", &state, &env),
        "one two  2 one two bob dflt /home/u /bin  $% $"
    );
    assert_eq!(resolve_script_var("path", &state, &env), "/bin");
    assert_eq!(resolve_script_var("nothing", &state, &env), "");
}

#[test]
fn simple_lines_shift_assign_and_dispatch() {
    let mut state = ScriptState::new(&["a".to_string(), "b".to_string(), "c".to_string()]);
    let (assigned, action) = script_simple_line("shift 2", &mut state, &[], false);
    assert!(assigned.is_empty());
    assert!(matches!(action, SimpleAction::Done));
    assert_eq!(state.positional, vec!["c".to_string()]);

    let (assigned, action) = script_simple_line("X=1 Y='two' echo $X", &mut state, &[], false);
    assert_eq!(assigned, vec![("X".to_string(), "1".to_string()), ("Y".to_string(), "two".to_string())]);
    match action {
        SimpleAction::RunCommand(c) => assert_eq!(c, "echo"),
        _ => panic!("expected a command"),
    }
    assert_eq!(resolve_script_var("Y", &state, &[]), "two");

    state.define_function("greet".to_string(), vec!["echo hi".to_string()]);
    match script_simple_line("greet", &mut state, &[], false).1 {
        SimpleAction::RunFunction(body) => assert_eq!(body, vec!["echo hi".to_string()]),
        _ => panic!("expected a function"),
    }
    let _ = script_simple_line("unset -f greet", &mut state, &[], false);
    assert!(state.function("greet").is_none());
}
