use winuxsh::builtins::chmod::{
    apply_chmod_one, build_mode_change, child_display, refuses_root, ChmodOptions, ChmodPlan, ModeChange,
    Verbosity,
};
use winuxsh::builtins::mkdir::{creation_failure_is_error, MkdirOptions};
use winuxsh::builtins::mkfifo::fifo_unsupported;
use winuxsh::builtins::opts::{reject_long_value, ArgExit};
use winuxsh::builtins::paths::is_filesystem_root;
use winuxsh::builtins::rm::{
    bulk_prompt, check_operands, directory_action, directory_prompt, file_prompt,
    path_is_current_or_parent_directory, DirAction, FileStep, InteractiveMode, RmOptions,
};
use winuxsh::builtins::rmdir::{directory_not_empty, failure_ignored, RmdirOptions};
use winuxsh::builtins::touch::{creates_missing, days_from_civil, touch_times, TouchOptions};
use winuxsh::cli::{
    bundle_asset_names, checksum_from_text, parse_plugin_json_flag, parse_plugin_search_args,
    plugin_config_action_from_str, plugin_config_action_name, plugin_config_action_past_tense,
    reject_plugin_options, yes_no, zsh_import_apply_readiness_label, zsh_import_block_state_label,
    PluginConfigAction, ZshImportApplyReadiness, ZshImportBlockState,
};
use winuxsh::completion::VariableCompleter;
use winuxsh::games::snake::{random_pos, Pos, SNAKE_HEIGHT, SNAKE_WIDTH};
use winuxsh::runtime::{has_redirection, CommandInfo, TempCapture, WinuxCmdFFI};
use winuxsh::text::parse_signed_str;

fn strings(items: &[&str]) -> Vec<String> {
    items.iter().map(|s| s.to_string()).collect()
}

fn help_error(cmd: &str, first: &str) -> ArgExit {
    ArgExit::Error { code: 1, lines: vec![first.to_string(), format!("Try '{} --help' for more information.", cmd)] }
}

#[test]
fn chmod_plan_reads_mode_then_files() {
    let options = ChmodOptions::default();
    assert_eq!(
        build_mode_change(&options, &strings(&["a-w", "f1", "f2"])),
        Ok(ChmodPlan::Apply { change: ModeChange::SetReadonly(true), files: strings(&["f1", "f2"]) })
    );
    assert_eq!(
        build_mode_change(&options, &strings(&["644", "f"])),
        Ok(ChmodPlan::Apply { change: ModeChange::SetReadonly(false), files: strings(&["f"]) })
    );
    assert_eq!(
        build_mode_change(&options, &strings(&["444", "f"])),
        Ok(ChmodPlan::Apply { change: ModeChange::SetReadonly(true), files: strings(&["f"]) })
    );
    assert_eq!(
        build_mode_change(&options, &strings(&["644"])),
        Err(help_error("chmod", "chmod: missing operand after '644'"))
    );
    assert_eq!(build_mode_change(&options, &[]), Err(help_error("chmod", "chmod: missing operand")));
    let with_reference = ChmodOptions { reference: Some("ref".to_string()), ..ChmodOptions::default() };
    assert_eq!(
        build_mode_change(&with_reference, &strings(&["a"])),
        Ok(ChmodPlan::FromReference { reference: "ref".to_string(), files: strings(&["a"]) })
    );
    assert_eq!(
        build_mode_change(&with_reference, &[]),
        Err(help_error("chmod", "chmod: missing operand after '--reference'"))
    );
}

#[test]
fn chmod_reports_changes_by_verbosity() {
    let changes = ChmodOptions { verbosity: Verbosity::Changes, ..ChmodOptions::default() };
    assert_eq!(apply_chmod_one(ModeChange::SetReadonly(true), false, &changes), (true, true));
    assert_eq!(apply_chmod_one(ModeChange::SetReadonly(true), true, &changes), (false, false));
    let verbose = ChmodOptions { verbosity: Verbosity::Verbose, ..ChmodOptions::default() };
    assert_eq!(apply_chmod_one(ModeChange::SetReadonly(true), true, &verbose), (false, true));
    assert_eq!(apply_chmod_one(ModeChange::Noop, true, &verbose), (false, false));
    let root_guard = ChmodOptions { recursive: true, preserve_root: true, ..ChmodOptions::default() };
    assert!(refuses_root(&root_guard, true));
    assert!(!refuses_root(&root_guard, false));
    assert_eq!(child_display("dir//", "x"), "dir/x");
}

#[test]
fn mkdir_mkfifo_and_long_value_decisions() {
    let parents = MkdirOptions { parents: true, ..MkdirOptions::default() };
    assert!(!creation_failure_is_error(&parents, true));
    assert!(creation_failure_is_error(&parents, false));
    assert!(creation_failure_is_error(&MkdirOptions::default(), true));
    assert_eq!(
        fifo_unsupported("p"),
        "mkfifo: cannot create fifo 'p': filesystem FIFOs are not supported on Windows"
    );
    assert_eq!(reject_long_value("rm", "--force", &None), Ok(()));
    assert_eq!(
        reject_long_value("rm", "--force", &Some("x".to_string())),
        Err(help_error("rm", "rm: option '--force' doesn't allow an argument"))
    );
}

#[test]
fn rm_decides_per_operand() {
    let mut options = RmOptions::default();
    assert!(path_is_current_or_parent_directory("a/.."));
    assert!(path_is_current_or_parent_directory("./"));
    assert!(!path_is_current_or_parent_directory("a/..b"));
    assert_eq!(check_operands(&options, 2), Ok(()));
    assert_eq!(check_operands(&options, 0), Err(help_error("rm", "rm: missing operand")));
    options.force = true;
    assert_eq!(check_operands(&options, 0), Err(ArgExit::Error { code: 0, lines: vec![] }));
    options.force = false;

    options.interactive = InteractiveMode::Once;
    assert_eq!(bulk_prompt(&options, 4), Some("rm: remove 4 arguments? ".to_string()));
    assert_eq!(bulk_prompt(&options, 2), None);
    options.recursive = true;
    assert_eq!(bulk_prompt(&options, 1), Some("rm: remove 1 argument recursively? ".to_string()));

    options.preserve_root = true;
    assert_eq!(directory_action(&options, true), DirAction::RefuseRoot);
    assert_eq!(directory_action(&options, false), DirAction::RemoveTree);
    options.recursive = false;
    assert_eq!(directory_action(&options, false), DirAction::IsADirectory);
    options.dir = true;
    assert_eq!(directory_action(&options, false), DirAction::RemoveEmpty);

    options.interactive = InteractiveMode::Always;
    assert_eq!(directory_prompt(&options, "d"), Some("rm: remove directory 'd'? ".to_string()));
    assert_eq!(file_prompt(&options, "f", false, false, false), FileStep::Ask("rm: remove file 'f'? ".to_string()));
    options.interactive = InteractiveMode::PromptProtected;
    assert_eq!(directory_prompt(&options, "d"), None);
    assert_eq!(
        file_prompt(&options, "f", true, true, false),
        FileStep::Ask("rm: remove write-protected file 'f'? ".to_string())
    );
    assert_eq!(file_prompt(&options, "f", false, true, true), FileStep::Skip);
    assert_eq!(file_prompt(&options, "f", false, true, false), FileStep::Remove);
    options.interactive = InteractiveMode::Never;
    assert_eq!(file_prompt(&options, "f", true, true, true), FileStep::Remove);
}

#[test]
fn rmdir_recognizes_non_empty_directories() {
    assert!(directory_not_empty(Some(145), "whatever"));
    assert!(directory_not_empty(Some(39), ""));
    assert!(directory_not_empty(None, "Directory Not Empty"));
    assert!(!directory_not_empty(Some(2), "No such file"));
    let ignore = RmdirOptions { parents: false, verbose: false, ignore_fail_on_non_empty: true };
    assert!(failure_ignored(&ignore, true));
    assert!(!failure_ignored(&ignore, false));
}

#[test]
fn touch_day_numbers_and_times() {
    assert_eq!(days_from_civil(1970, 1, 1), 0);
    assert_eq!(days_from_civil(2000, 3, 1), 11017);
    assert_eq!(days_from_civil(1969, 12, 31), -1);
    let mut options = TouchOptions::default();
    assert!(creates_missing(&options));
    assert_eq!(touch_times(&options, None, Some(5), 9, (1, 2)), (5, 5));
    assert_eq!(touch_times(&options, Some((3, 4)), Some(5), 9, (1, 2)), (3, 4));
    options.access_only = true;
    assert_eq!(touch_times(&options, None, None, 9, (1, 2)), (9, 2));
    options.access_only = false;
    options.modify_only = true;
    options.no_create = true;
    assert!(!creates_missing(&options));
    assert_eq!(touch_times(&options, None, None, 9, (1, 2)), (1, 9));
}

#[test]
fn plugin_cli_words_and_labels() {
    assert_eq!(
        bundle_asset_names("oh-my-winuxsh", "v1.2.3"),
        ("oh-my-winuxsh-1.2.3.zip".to_string(), "oh-my-winuxsh-1.2.3.zip.sha256".to_string())
    );
    assert_eq!(checksum_from_text("  abc123  file.zip\n"), Some("abc123".to_string()));
    assert_eq!(checksum_from_text(" \n"), None);
    assert_eq!(plugin_config_action_from_str("enable"), Ok(PluginConfigAction::Enable));
    assert_eq!(plugin_config_action_from_str("disable"), Ok(PluginConfigAction::Disable));
    assert_eq!(
        plugin_config_action_from_str("toggle"),
        Err("unknown plugin plan action 'toggle'".to_string())
    );
    assert_eq!(plugin_config_action_name(PluginConfigAction::Disable), "disable");
    assert_eq!(plugin_config_action_past_tense(PluginConfigAction::Enable), "Enabled");
    assert_eq!(reject_plugin_options(&[]), Ok(()));
    assert_eq!(reject_plugin_options(&strings(&["--x"])), Err("unknown plugin option '--x'".to_string()));
    assert_eq!(parse_plugin_json_flag(&strings(&["--json"])), Ok(true));
    assert_eq!(parse_plugin_json_flag(&[]), Ok(false));
    assert!(parse_plugin_json_flag(&strings(&["--yaml"])).is_err());
    assert_eq!(parse_plugin_search_args(&strings(&["git", "--json"])), Ok((Some("git".to_string()), true)));
    assert_eq!(yes_no(true), "yes");
    assert_eq!(yes_no(false), "no");
    assert_eq!(zsh_import_block_state_label(ZshImportBlockState::Malformed), "malformed");
    assert_eq!(zsh_import_apply_readiness_label(ZshImportApplyReadiness::ReplaceExistingBlock), "replace existing block");
}

#[test]
fn variable_completion_matches_prefixes_ignoring_case() {
    let env_names = strings(&["PATH", "PWD", "HOME"]);
    let vars = vec![("path_extra".to_string(), "1".to_string())];
    assert_eq!(
        VariableCompleter::complete(Some("$pa"), &env_names, &vars),
        Some(strings(&["$PATH", "$path_extra"]))
    );
    assert_eq!(VariableCompleter::complete(Some("${HO}"), &env_names, &vars), Some(strings(&["${HOME}"])));
    assert_eq!(VariableCompleter::complete(Some("pa"), &env_names, &vars), None);
    assert_eq!(VariableCompleter::complete(Some("$zz"), &env_names, &vars), None);
    assert_eq!(VariableCompleter::complete(None, &env_names, &vars), None);
}

#[test]
fn snake_food_lands_on_a_free_cell() {
    let occupied = vec![Pos { x: 0, y: 0 }, Pos { x: 1, y: 0 }];
    for _ in 0..20 {
        let p = random_pos(&occupied);
        assert!(p.x < SNAKE_WIDTH && p.y < SNAKE_HEIGHT);
        assert!(!occupied.contains(&p));
    }
}

#[test]
fn capture_files_and_redirection_test() {
    let capture = TempCapture::from_base("/tmp/cap");
    assert_eq!(capture.stdout_path(), "/tmp/cap.stdout.tmp");
    assert_eq!(capture.stderr_path(), "/tmp/cap.stderr.tmp");
    let mut cmd = CommandInfo {
        stdin_redir: None,
        stdout_redir: None,
        stderr_redir: None,
        stdout_append: false,
        stderr_append: false,
        stderr_to_stdout: false,
        stdout_to_stderr: false,
    };
    assert!(!has_redirection(&cmd));
    cmd.stderr_to_stdout = true;
    assert!(has_redirection(&cmd));
    assert!(!WinuxCmdFFI::is_initialized());
    assert_eq!(parse_signed_str("-42", -100, 100), Some(-42));
    assert_eq!(parse_signed_str("+7", -100, 100), Some(7));
    assert_eq!(parse_signed_str("-101", -100, 100), None);
    assert_eq!(parse_signed_str("x", -100, 100), None);
}

#[test]
fn filesystem_roots_are_recognized() {
    assert!(is_filesystem_root("/", false));
    assert!(is_filesystem_root("C:\\", true));
    assert!(is_filesystem_root("\\", true));
    assert!(!is_filesystem_root("C:", true));
    assert!(!is_filesystem_root("/tmp", false));
    assert!(!is_filesystem_root("C:\\Windows", true));
    assert!(!is_filesystem_root("", false));
}
