use winuxsh::builtins::cat::{cat_transform, parse_cat_args, CatState, NumberMode};
use winuxsh::builtins::chmod::{parse_chmod_args, parse_mode_change, ChmodOptions, ModeChange, Verbosity};
use winuxsh::builtins::cp::parse_cp_args;
use winuxsh::builtins::kill::{parse_kill_args, KillMode};
use winuxsh::builtins::mkdir::parse_mkdir_args;
use winuxsh::builtins::mkfifo::parse_mkfifo_args;
use winuxsh::builtins::paths::parent_preserving_relative_path;
use winuxsh::builtins::rm::{parse_rm_args, InteractiveMode};
use winuxsh::builtins::rmdir::parse_rmdir_args;
use winuxsh::builtins::touch::{parse_touch_args, parse_touch_timestamp};

fn args(items: &[&str]) -> Vec<String> {
    items.iter().map(|s| s.to_string()).collect()
}

#[test]
fn parse_cat_options_matches_common_uutils_flags() {
    let (options, operands) = parse_cat_args(&args(&["-benst", "--", "-literal"])).unwrap();
    assert_eq!(options.number, NumberMode::NonBlank);
    assert!(options.show_ends);
    assert!(options.show_nonprinting);
    assert!(options.squeeze_blank);
    assert!(options.show_tabs);
    assert_eq!(operands, vec!["-literal"]);
}

#[test]
fn cat_show_all_renders_tabs_ends_and_controls() {
    let (options, operands) = parse_cat_args(&args(&["-A"])).unwrap();
    assert!(operands.is_empty());
    let mut state = CatState::default();
    let out = cat_transform(b"a\t\x01\n", options, &mut state);
    assert_eq!(String::from_utf8(out).unwrap(), "a^I^A$\n");
}

#[test]
fn cat_numbers_nonblank_and_squeezes_blank_lines_in_memory() {
    let (options, _) = parse_cat_args(&args(&["-bs", "input.txt"])).unwrap();
    let mut state = CatState::default();
    let out = cat_transform(b"a\n\n\nb\n", options, &mut state);
    assert_eq!(String::from_utf8(out).unwrap(), "     1\ta\n\n     2\tb\n");
}

#[test]
fn parses_chmod_mode_that_starts_with_dash() {
    let (options, operands) = parse_chmod_args(&args(&["-w", "file"])).unwrap();
    assert_eq!(options, ChmodOptions::default());
    assert_eq!(operands, vec!["-w", "file"]);
    assert_eq!(parse_mode_change("-w").unwrap(), ModeChange::SetReadonly(true));
}

#[test]
fn parses_chmod_recursive_and_numeric_mode() {
    let (options, operands) = parse_chmod_args(&args(&["-Rv", "755", "dir"])).unwrap();
    assert!(options.recursive);
    assert_eq!(options.verbosity, Verbosity::Verbose);
    assert_eq!(operands, vec!["755", "dir"]);
    assert_eq!(parse_mode_change("755").unwrap(), ModeChange::SetReadonly(false));
}

#[test]
fn parses_cp_common_options() {
    let (options, operands) =
        parse_cp_args(&args(&["-av", "--backup", "-S", ".bak", "--", "-src", "dst"])).unwrap();
    assert!(options.recursive);
    assert!(options.preserve_timestamps);
    assert!(options.verbose);
    assert!(options.backup);
    assert_eq!(options.suffix, ".bak");
    assert_eq!(operands, vec!["-src", "dst"]);
}

#[test]
fn parent_preserving_path_drops_root_prefix() {
    assert_eq!(
        parent_preserving_relative_path("/tmp/source.txt", false),
        vec!["tmp".to_string(), "source.txt".to_string()]
    );
}

#[test]
fn parse_kill_winuxcmd_options() {
    let options = parse_kill_args(&args(&["--signal", "KILL", "123"])).unwrap();
    assert_eq!(options.mode, KillMode::Kill);
    assert_eq!(options.signal, 9);
    assert_eq!(options.pids, vec!["123"]);

    let options = parse_kill_args(&args(&["-15", "123"])).unwrap();
    assert_eq!(options.signal, 15);

    let options = parse_kill_args(&args(&["-SIGKILL", "123"])).unwrap();
    assert_eq!(options.signal, 9);
}

#[test]
fn parse_kill_list_and_table_modes() {
    let list = parse_kill_args(&args(&["-l", "TERM"])).unwrap();
    assert_eq!(list.mode, KillMode::List);
    assert_eq!(list.pids, vec!["TERM"]);

    let table = parse_kill_args(&args(&["--table"])).unwrap();
    assert_eq!(table.mode, KillMode::Table);
}

#[test]
fn parse_kill_rejects_unknown_signal() {
    assert_eq!(
        parse_kill_args(&args(&["--signal", "NOPE", "123"])).map_err(|e| e.code()),
        Err(1)
    );
}

#[test]
fn parses_mkdir_common_options() {
    let (options, operands) = parse_mkdir_args(&args(&["-pv", "-m", "755", "--", "-dir"])).unwrap();
    assert!(options.parents);
    assert!(options.verbose);
    assert_eq!(options.mode.as_deref(), Some("755"));
    assert_eq!(operands, vec!["-dir"]);
}

#[test]
fn parses_mkfifo_options_and_dash_operand() {
    let (options, operands) = parse_mkfifo_args(&args(&["-m", "600", "--", "-pipe"])).unwrap();
    assert_eq!(options.mode.as_deref(), Some("600"));
    assert_eq!(operands, vec!["-pipe"]);
}

#[test]
fn parse_short_options_follow_last_occurrence() {
    let (options, _) = parse_rm_args(&args(&["-i", "-f"])).unwrap();
    assert_eq!(options.interactive, InteractiveMode::Never);

    let (options, _) = parse_rm_args(&args(&["-f", "-i"])).unwrap();
    assert_eq!(options.interactive, InteractiveMode::Always);
}

#[test]
fn parse_interactive_long_values_and_prefixes() {
    let (options, _) = parse_rm_args(&args(&["--interactive=once"])).unwrap();
    assert_eq!(options.interactive, InteractiveMode::Once);

    let (options, _) = parse_rm_args(&args(&["--interactive=n"])).unwrap();
    assert_eq!(options.interactive, InteractiveMode::Never);

    let (options, _) = parse_rm_args(&args(&["--interactive"])).unwrap();
    assert_eq!(options.interactive, InteractiveMode::Always);
}

#[test]
fn no_preserve_root_may_not_be_abbreviated() {
    assert_eq!(parse_rm_args(&args(&["--no-preserve-roo"])).map_err(|e| e.code()), Err(2));
}

#[test]
fn parses_rmdir_common_options() {
    let (options, operands) =
        parse_rmdir_args(&args(&["-pv", "--ignore-fail-on-non-empty", "dir"])).unwrap();
    assert!(options.parents);
    assert!(options.verbose);
    assert!(options.ignore_fail_on_non_empty);
    assert_eq!(operands, vec!["dir"]);
}

#[test]
fn parses_touch_timestamp() {
    assert!(parse_touch_timestamp("202001020304.05").is_ok());
    assert!(parse_touch_timestamp("01020304").is_ok());
    assert!(parse_touch_timestamp("bad").is_err());
}

#[test]
fn parses_touch_common_options() {
    let (options, operands) =
        parse_touch_args(&args(&["-am", "-t", "202001010000", "--", "-file"])).unwrap();
    assert!(options.access_only);
    assert!(options.modify_only);
    assert!(options.timestamp.is_some());
    assert_eq!(operands, vec!["-file"]);
}

fn cp_error(items: &[&str]) -> winuxsh::builtins::opts::ArgExit {
    parse_cp_args(&args(items)).unwrap_err()
}

fn error_lines(first: &str) -> winuxsh::builtins::opts::ArgExit {
    winuxsh::builtins::opts::ArgExit::Error {
        code: 1,
        lines: vec![first.to_string(), "Try 'cp --help' for more information.".to_string()],
    }
}

#[test]
fn cp_cluster_fails_at_first_unknown_letter() {
    assert_eq!(cp_error(&["-rqS", "a", "b"]), error_lines("cp: invalid option -- 'q'"));
    assert_eq!(cp_error(&["-vS"]), error_lines("cp: option '-S' requires an argument"));
    assert_eq!(cp_error(&["-t"]), error_lines("cp: option '-t' requires an argument"));
    let (options, operands) = parse_cp_args(&args(&["-St", "a"])).unwrap();
    assert_eq!(options.suffix, "t");
    assert_eq!(operands, vec!["a"]);
}

#[test]
fn cp_dashdash_ends_options() {
    let (options, operands) = parse_cp_args(&args(&["-", "--", "-x", "--help", "--"])).unwrap();
    assert!(!options.recursive);
    assert_eq!(operands, vec!["-", "-x", "--help", "--"]);
}

#[test]
fn cp_long_option_errors() {
    assert_eq!(cp_error(&["--verb", "a"]), error_lines("cp: unrecognized option '--verb'"));
    assert_eq!(
        cp_error(&["--force=yes", "a"]),
        error_lines("cp: option '--force=yes' doesn't allow an argument")
    );
    let (options, _) = parse_cp_args(&args(&["--force", "--no-clobber"])).unwrap();
    assert!(options.no_clobber);
    assert!(options.force);
    let (options, _) = parse_cp_args(&args(&["--no-clobber", "--interactive"])).unwrap();
    assert!(options.interactive);
    assert!(!options.no_clobber);
}
