use winuxsh::array::{array_command, ArrayValue};
use winuxsh::cli::{icon_candidates, parse_wt_profile_args};
use winuxsh::history::{history_after, history_report};
use winuxsh::job::JobManager;
use winuxsh::script::{resolve_script_var, ScriptState};
use winuxsh::runtime::{builtin_output_route, builtin_pipeline_input, prompt_template, redirect_for_capture, redirect_pipeline_for_capture, builtin_redirect_text, bundled_path, CommandInfo, OutputTarget};
use winuxsh::self_update::{release_arch_of, wide_null};
use winuxsh::doctor::{doctor_report, DoctorProbes, RcProbe};
use winuxsh::executor::Executor;
use winuxsh::games::{dino, snake};
use winuxsh::menu::side_by_side_lines;
use winuxsh::plugin::{PluginInfo, PluginManager, WelcomePlugin};
use winuxsh::runtime::{
    assemble_substitutions, expand_alias, expand_wildcards, find_in_path, get_env_var, resolve_env_var,
    split_command_substitutions, wildcard_pattern, winuxcmd_search_plan,
};

fn strings(items: &[&str]) -> Vec<String> {
    items.iter().map(|s| s.to_string()).collect()
}

fn probes(found: bool) -> DoctorProbes {
    DoctorProbes {
        version: "0.1.0".to_string(),
        color: false,
        winuxcmd: if found { Some("C:\\bin\\winuxcmd.exe".to_string()) } else { None },
        winuxcmd_version: if found { Some("1.2".to_string()) } else { None },
        shims: false,
        links: if found { Some(42) } else { None },
        rc: if found { RcProbe::Primary("C:\\Users\\u\\.niubashrc".to_string()) } else { RcProbe::Missing },
        bundle: if found { Some("C:\\omn".to_string()) } else { None },
        nerd_font: false,
        windows_terminal: true,
        chinese: false,
    }
}

#[test]
fn doctor_report_all_critical_checks_pass() {
    let lines = doctor_report(&probes(true));
    assert_eq!(lines.len(), 11);
    assert_eq!(lines[0], "niubash doctor — 0.1.0");
    assert_eq!(lines[1], "");
    assert_eq!(lines[2], "  OK winuxcmd core       C:/bin/winuxcmd.exe (winuxcmd 1.2)");
    assert_eq!(lines[3], "  INFO bash/sh shims       not beside winuxcmd (optional)");
    assert_eq!(lines[4], "  OK command links       42 commands (ls, cat, grep, …)");
    assert_eq!(lines[5], "  OK startup rc          C:/Users/u/.niubashrc");
    assert_eq!(lines[8], "  INFO terminal            Windows Terminal");
    assert_eq!(lines[10], "  OK 4/4 critical checks passed");
}

#[test]
fn doctor_report_advises_when_nothing_is_found() {
    let lines = doctor_report(&probes(false));
    assert_eq!(lines.len(), 10);
    assert_eq!(lines[2], "  ADVICE winuxcmd core       not found — reinstall Niubash or check PATH");
    assert_eq!(
        lines[4],
        "  ADVICE startup rc          none — run `niu setup` to create ~/.niubashrc"
    );
    assert_eq!(lines[9], "  ADVICE 0/4 critical checks passed — fix the rows above");
}

#[test]
fn launch_plan_runs_powershell_scripts_through_powershell() {
    let (program, args) = Executor::launch_plan("C:\\tools\\Setup.PS1", &strings(&["-x"]));
    assert_eq!(program, "powershell.exe");
    assert_eq!(
        args,
        strings(&["-NoProfile", "-ExecutionPolicy", "Bypass", "-File", "C:\\tools\\Setup.PS1", "-x"])
    );
    let (program, args) = Executor::launch_plan("tool.exe", &strings(&["a"]));
    assert_eq!(program, "tool.exe");
    assert_eq!(args, strings(&["a"]));
}

#[test]
fn alias_replaces_the_first_word_only() {
    let aliases = vec![
        ("ll".to_string(), "ls -la".to_string()),
        ("blank".to_string(), "   ".to_string()),
    ];
    assert_eq!(expand_alias(&strings(&["ll", "src"]), &aliases), strings(&["ls", "-la", "src"]));
    assert_eq!(expand_alias(&strings(&["echo", "ll"]), &aliases), strings(&["echo", "ll"]));
    assert_eq!(expand_alias(&strings(&["blank", "x"]), &aliases), strings(&["blank", "x"]));
    assert!(expand_alias(&[], &aliases).is_empty());
}

#[test]
fn array_builtin_defines_reads_and_lists() {
    let mut env: Vec<(String, ArrayValue)> = vec![("HOME".to_string(), ArrayValue::String("/h".to_string()))];
    assert_eq!(
        array_command(&strings(&["define", "xs", "a", "b", "c"]), &mut env),
        strings(&["Array 'xs' defined with 3 elements"])
    );
    assert_eq!(array_command(&strings(&["get", "xs", "1"]), &mut env), strings(&["b"]));
    assert_eq!(array_command(&strings(&["get", "xs", "7"]), &mut env), strings(&["Index out of bounds"]));
    assert_eq!(array_command(&strings(&["get", "xs", "one"]), &mut env), strings(&["a"]));
    assert_eq!(array_command(&strings(&["len", "xs"]), &mut env), strings(&["3"]));
    assert_eq!(array_command(&strings(&["len", "HOME"]), &mut env), strings(&["Array 'HOME' not found"]));
    assert_eq!(array_command(&strings(&["list"]), &mut env), strings(&["xs=(a b c)"]));
    assert_eq!(
        array_command(&strings(&["frobnicate"]), &mut env),
        strings(&["Array commands: define, get, len, list"])
    );
    assert!(array_command(&strings(&["len"]), &mut env).is_empty());
}

#[test]
fn command_substitutions_are_cut_out_of_a_word() {
    let (texts, cmds) = split_command_substitutions("a$(echo hi)b$(pwd)");
    assert_eq!(texts, strings(&["a", "b", ""]));
    assert_eq!(cmds, strings(&["echo hi", "pwd"]));
    let (texts, cmds) = split_command_substitutions("x$(echo $(pwd))y");
    assert_eq!(texts, strings(&["x", "y"]));
    assert_eq!(cmds, strings(&["echo $(pwd)"]));
    let (texts, cmds) = split_command_substitutions("$(echo");
    assert_eq!(texts, strings(&["", ""]));
    assert_eq!(cmds, strings(&["echo"]));
}

#[test]
fn plain_word_has_no_substitution() {
    let (texts, cmds) = split_command_substitutions("cost $5 (each)");
    assert_eq!(texts, strings(&["cost $5 (each)"]));
    assert!(cmds.is_empty());
    assert_eq!(assemble_substitutions(&texts, &cmds), "cost $5 (each)");
}

#[test]
fn env_var_prefers_exact_name_then_ignores_case() {
    let env = vec![
        ("Path".to_string(), ArrayValue::String("a".to_string())),
        ("PATH".to_string(), ArrayValue::String("b".to_string())),
        ("LIST".to_string(), ArrayValue::Array(strings(&["x"]))),
    ];
    assert_eq!(resolve_env_var(&env, "PATH"), Some("b".to_string()));
    assert_eq!(resolve_env_var(&env, "path"), Some("a".to_string()));
    assert_eq!(resolve_env_var(&env, "LIST"), None);
    assert_eq!(resolve_env_var(&env, "HOME"), None);
    assert_eq!(get_env_var(&env, "USERNAME", "user"), "user");
    assert_eq!(get_env_var(&env, "pAtH", "user"), "a");
}

#[test]
fn logo_is_laid_out_beside_the_text() {
    let logo = strings(&["AB"]);
    let content = strings(&["x", "y"]);
    assert_eq!(
        side_by_side_lines(&logo, &content, 30, 20),
        strings(&["AB        \x1b[2Cx", "          \x1b[2Cy"])
    );
    assert_eq!(side_by_side_lines(&logo, &content, 10, 20), strings(&["AB", "x", "y"]));
    assert_eq!(side_by_side_lines(&[], &content, 80, 20), strings(&["x", "y"]));
    let colored = strings(&["\x1b[31mAB\x1b[0m"]);
    assert_eq!(
        side_by_side_lines(&colored, &[], 300, 20),
        strings(&[&format!("\x1b[31mAB\x1b[0m{}\x1b[2C", " ".repeat(48))])
    );
}

#[test]
fn wildcards_expand_to_their_matches_and_keep_unmatched_arguments() {
    let args = strings(&["Cargo.*", "none_*.x", "plain", "bad["]);
    let matched = vec![
        Some(strings(&["Cargo.toml", "Cargo.lock"])),
        Some(Vec::new()),
        Some(strings(&["ignored"])),
        None,
    ];
    assert_eq!(
        expand_wildcards(&args, &matched),
        strings(&["Cargo.toml", "Cargo.lock", "none_*.x", "plain", "bad["])
    );
    assert_eq!(wildcard_pattern("*.rs", "/home/u", false), Some("/home/u/*.rs".to_string()));
    assert_eq!(wildcard_pattern("/tmp/?.rs", "/home/u", false), Some("/tmp/?.rs".to_string()));
    assert_eq!(wildcard_pattern("plain", "/home/u", false), None);
}

#[test]
fn winuxcmd_is_the_first_candidate_present() {
    let plan = winuxcmd_search_plan("/w", &strings(&["/bin"]), false);
    let mut present = vec![false; plan.len()];
    assert_eq!(find_in_path(&plan, &present), None);
    let k = plan.iter().position(|p| p == "/bin/uutils.exe").unwrap();
    present[k] = true;
    assert_eq!(find_in_path(&plan, &present), Some("/bin/uutils.exe".to_string()));
    let j = plan.iter().position(|p| p == "/w/coreutils.exe").unwrap();
    present[j] = true;
    assert_eq!(find_in_path(&plan, &present), Some("/w/coreutils.exe".to_string()));
}

#[test]
fn test_plugin_manager() {
    let mut manager: PluginManager<WelcomePlugin> = PluginManager::new();
    assert_eq!(manager.plugin_count(), 0);

    manager.add_plugin(WelcomePlugin).unwrap();
    assert_eq!(manager.plugin_count(), 1);
    assert_eq!(
        manager.list_plugins(),
        vec![PluginInfo {
            name: "welcome",
            description: "Welcome message plugin",
        }]
    );
}

#[test]
fn snake_frame_shows_a_fresh_round() {
    let game = snake::Game::new_with(0, 0);
    let lines = game.frame();
    assert_eq!(lines.len(), 21);
    assert_eq!(
        lines[0],
        "\x1b[1;96m~ niubash snake ~\x1b[0m  \x1b[1;93mHI -    score 0    speed 100%\x1b[0m\x1b[K"
    );
    assert!(lines[3 + 7].contains("\x1b[1;92m@\x1b[0m"));
    assert_eq!(lines[19], "  \x1b[90mwasd/arrows move, p pause, q quit\x1b[0m\x1b[K");
}

#[test]
fn dino_frame_shows_a_fresh_round() {
    let game = dino::Game::new_with(7, 0);
    let lines = game.frame();
    assert_eq!(lines.len(), 19);
    assert_eq!(
        lines[0],
        "\x1b[1;96m~ niubash dino ~\x1b[0m  \x1b[1;93mHI 7     score 0     \x1b[0m\x1b[K"
    );
    assert_eq!(lines[18], "  \x1b[90mspace/↑ jump   ↓ duck   q quit\x1b[0m\x1b[K");
}

#[test]
fn substitution_outputs_are_trimmed_into_the_word() {
    let (texts, cmds) = split_command_substitutions("dir=$(pwd)/x");
    assert_eq!(cmds, strings(&["pwd"]));
    assert_eq!(assemble_substitutions(&texts, &strings(&["  /home/u\n"])), "dir=/home/u/x");
    assert_eq!(assemble_substitutions(&strings(&["only"]), &[]), "only");
    assert_eq!(assemble_substitutions(&strings(&["a", "b", "c"]), &strings(&["1", " 2 "])), "a1b2c");
}

#[test]
fn jobs_builtins_list_continue_and_report_errors() {
    let mut jobs = JobManager::new();
    assert_eq!(jobs.handle_jobs_command(), strings(&["No background jobs"]));
    jobs.add_job("sleep 10".to_string(), 4242);
    jobs.add_job("make".to_string(), 77);
    assert_eq!(
        jobs.handle_jobs_command(),
        strings(&["Background jobs:", "ID  PID  Command", "[1]  4242  Running  sleep 10", "[2]  77  Running  make"])
    );
    assert_eq!(jobs.handle_bg_command(&strings(&["%2"])), Ok("Continue background job: [2]".to_string()));
    assert_eq!(jobs.handle_bg_command(&[]), Err("bg: Job number required".to_string()));
    assert_eq!(jobs.handle_fg_command(&strings(&["x1"])), Err("fg: Invalid job number 'x1'".to_string()));
    assert_eq!(jobs.handle_fg_command(&strings(&["9"])), Err("fg: Job %9 not found".to_string()));
    assert_eq!(jobs.job_count(), 2);
    assert_eq!(jobs.handle_fg_command(&strings(&["1"])), Ok("Continuing job: [1]".to_string()));
    assert_eq!(jobs.job_count(), 1);
    assert_eq!(jobs.list_jobs()[0].id, 2);
    assert_eq!(jobs.handle_fg_command(&strings(&["%1"])), Err("fg: Job %1 not found".to_string()));
}

fn info(stdout: Option<&str>, stderr: Option<&str>, to_stderr: bool) -> CommandInfo {
    CommandInfo {
        stdin_redir: None,
        stdout_redir: stdout.map(str::to_string),
        stderr_redir: stderr.map(str::to_string),
        stdout_append: true,
        stderr_append: false,
        stderr_to_stdout: false,
        stdout_to_stderr: to_stderr,
    }
}

#[test]
fn builtin_output_goes_where_the_redirections_send_it() {
    let (target, touched) = builtin_output_route(&info(Some("out.txt"), Some("err.txt"), false));
    assert_eq!(target, OutputTarget::File("out.txt".to_string(), true));
    assert_eq!(touched, Some(("err.txt".to_string(), false)));
    let (target, touched) = builtin_output_route(&info(Some("out.txt"), Some("err.txt"), true));
    assert_eq!(target, OutputTarget::File("err.txt".to_string(), false));
    assert_eq!(touched, None);
    let (target, _) = builtin_output_route(&info(None, None, true));
    assert_eq!(target, OutputTarget::Stderr);
    let (target, _) = builtin_output_route(&info(None, None, false));
    assert_eq!(target, OutputTarget::Stdout);
    assert_eq!(
        builtin_redirect_text("echo", &strings(&["echo", "hello", "world"]), "/x"),
        Some("hello world\n".to_string())
    );
    assert_eq!(builtin_redirect_text("pwd", &strings(&["pwd"]), "/x"), Some("/x\n".to_string()));
    assert_eq!(builtin_redirect_text("ls", &strings(&["ls"]), "/x"), None);
}

#[test]
fn history_saves_clean_commands_and_lists_entries() {
    assert_eq!(history_after("", "  ls -la \n"), Some("ls -la".to_string()));
    assert_eq!(history_after("ls", "\u{feff}pwd"), Some("ls\npwd".to_string()));
    assert_eq!(history_after("ls", "   "), None);
    assert_eq!(
        history_report(&strings(&["ls", "", "# note", "  cd /tmp  "])),
        strings(&["Command History:", "  1  ls", "  2  cd /tmp"])
    );
}

#[test]
fn plugin_builtin_lists_and_refuses_loading() {
    let mut manager: PluginManager<WelcomePlugin> = PluginManager::default();
    assert_eq!(manager.handle_plugin_command(&strings(&["list"])), strings(&["Loaded plugins:", "  (No plugins loaded)"]));
    manager.add_plugin(WelcomePlugin).unwrap();
    assert_eq!(
        manager.handle_plugin_command(&strings(&["list"])),
        strings(&["Loaded plugins:", "  - welcome: Welcome message plugin"])
    );
    assert_eq!(
        manager.handle_plugin_command(&strings(&["load", "git"])),
        strings(&["Plugin 'git' not found (not implemented yet)"])
    );
    assert!(manager.handle_plugin_command(&strings(&["load"])).is_empty());
    assert_eq!(manager.handle_plugin_command(&[]), strings(&["Plugin commands: list, load"]));
    assert_eq!(manager.handle_plugin_command(&strings(&["x"])), strings(&["Plugin commands: list, load"]));
}

#[test]
fn small_startup_decisions() {
    assert_eq!(parse_wt_profile_args(&strings(&["--quiet", "--set-default"])), Ok((true, true)));
    assert_eq!(parse_wt_profile_args(&[]), Ok((false, false)));
    assert_eq!(
        parse_wt_profile_args(&strings(&["--quiet", "--bogus"])),
        Err("unknown --install-wt-profile option '--bogus'".to_string())
    );
    assert_eq!(release_arch_of("aarch64"), "arm64");
    assert_eq!(release_arch_of("x86_64"), "x64");
    let env = vec![("Path".to_string(), ArrayValue::String("C:\\bin".to_string()))];
    assert_eq!(bundled_path(&env, "D:\\w"), "C:\\bin;D:\\w");
    assert_eq!(bundled_path(&[], "D:\\w"), "D:\\w");
}

#[test]
fn script_local_shadows_shell_variable() {
    let env = vec![("NAME".to_string(), ArrayValue::String("shell".to_string()))];
    let mut state = ScriptState::new(&[]);
    assert_eq!(resolve_script_var("NAME", &state, &env), "shell");
    state.set_local("NAME".to_string(), "local".to_string());
    assert_eq!(resolve_script_var("NAME", &state, &env), "local");
    assert_eq!(resolve_script_var("name", &state, &env), "shell");
}

#[test]
fn printing_builtins_feed_a_pipeline() {
    let env = vec![
        ("A".to_string(), ArrayValue::String("1".to_string())),
        ("XS".to_string(), ArrayValue::Array(strings(&["x", "y"]))),
    ];
    assert_eq!(builtin_pipeline_input(&strings(&["env"]), "/d", &env), Some("A=1\nXS=(x y)\n".to_string()));
    assert_eq!(builtin_pipeline_input(&strings(&["echo", "a", "b"]), "/d", &env), Some("a b\n".to_string()));
    assert_eq!(builtin_pipeline_input(&strings(&["pwd"]), "/d", &env), Some("/d\n".to_string()));
    assert_eq!(builtin_pipeline_input(&strings(&["grep", "x"]), "/d", &env), None);
    assert_eq!(builtin_pipeline_input(&[], "/d", &env), None);
}

#[test]
fn prompt_template_comes_from_prompt_then_ps1() {
    let mut env = vec![("PS1".to_string(), ArrayValue::String("%n$ ".to_string()))];
    assert_eq!(prompt_template(&env), Some("%n$ ".to_string()));
    env.push(("PROMPT".to_string(), ArrayValue::Array(strings(&["x"]))));
    assert_eq!(prompt_template(&env), Some("%n$ ".to_string()));
    env.push(("PROMPT".to_string(), ArrayValue::String("> ".to_string())));
    assert_eq!(prompt_template(&env), Some("%n$ ".to_string()));
    let env = vec![("PROMPT".to_string(), ArrayValue::String("> ".to_string()))];
    assert_eq!(prompt_template(&env), Some("> ".to_string()));
    assert_eq!(prompt_template(&[]), None);
}


#[test]
fn fg_takes_back_the_job_just_added() {
    let mut jobs = JobManager::new();
    jobs.add_job("a".to_string(), 1);
    let id = jobs.add_job("b".to_string(), 2);
    assert_eq!(jobs.handle_fg_command(&[id.to_string()]), Ok(format!("Continuing job: [{}]", id)));
    assert_eq!(jobs.job_count(), 1);
    assert_eq!(jobs.list_jobs()[0].command, "a");
}

#[test]
fn captures_take_unredirected_streams_only() {
    let plain = info(None, None, false);
    let r = redirect_for_capture(&plain, "o.tmp", "e.tmp", true);
    assert_eq!(r.stdout_redir, Some("o.tmp".to_string()));
    assert_eq!(r.stderr_redir, Some("e.tmp".to_string()));
    assert!(r.stdout_append && r.stderr_append);
    let own = info(Some("mine.txt"), Some("err.txt"), false);
    let r = redirect_for_capture(&own, "o.tmp", "e.tmp", true);
    assert_eq!(r, own);
    let stages = redirect_pipeline_for_capture(&[plain.clone(), plain.clone()], "o.tmp", "e.tmp");
    assert_eq!(stages[0].stdout_redir, None);
    assert_eq!(stages[0].stderr_redir, Some("e.tmp".to_string()));
    assert_eq!(stages[1].stdout_redir, Some("o.tmp".to_string()));
}

#[test]
fn wide_strings_end_in_a_zero_unit() {
    assert_eq!(wide_null("A\u{20ac}\u{1f600}"), vec![0x41, 0x20AC, 0xD83D, 0xDE00, 0]);
    assert_eq!(wide_null(""), vec![0]);
    let text = "C:\\Program Files\\niu \u{4e2d}\u{1f680}";
    let mut want: Vec<u16> = text.encode_utf16().collect();
    want.push(0);
    assert_eq!(wide_null(text), want);
}

#[test]
fn terminal_icon_is_looked_for_under_the_program_directory() {
    assert_eq!(
        icon_candidates("C:\\niu", true),
        strings(&[
            "C:\\niu\\assets\\winuxsh-icon-256.png",
            "C:\\niu\\assets\\winuxsh-icon.png",
            "C:\\niu\\winuxsh-icon-256.png",
            "C:\\niu\\winuxsh-icon.png",
        ])
    );
    assert_eq!(icon_candidates("/opt/niu", false)[0], "/opt/niu/assets/winuxsh-icon-256.png");
}

#[test]
fn saved_command_is_listed_last() {
    let history = "ls\n# note\npwd";
    let saved = history_after(history, "  cd /tmp ").unwrap();
    let lines: Vec<String> = saved.split('\n').map(str::to_string).collect();
    assert_eq!(
        history_report(&lines),
        strings(&["Command History:", "  1  ls", "  2  pwd", "  3  cd /tmp"])
    );
}
