use winuxsh::cli::{
    normalize_plugin_bundle_release_tag, parse_plugin_update_options,
    resolve_plugin_bundle_release_tag,
};
use winuxsh::prompt::{display_dir, hhmm_from_secs, render_template, render_template_at, PromptContext};
use winuxsh::script_utils::{
    case_pattern_matches, is_assignment_token, normalize_assignment_value, normalize_script_line,
    strip_inline_comment,
};

#[test]
fn plugin_update_parses_github_release() {
    let args = vec!["--github-release".to_string(), "latest".to_string(), "--json".to_string()];
    let options = parse_plugin_update_options(&args).unwrap();
    assert_eq!(options.github_release.as_deref(), Some("latest"));
    assert!(options.json);
    assert!(options.source_path.is_none());
}

#[test]
fn plugin_release_tag_normalizes_semver() {
    assert_eq!(normalize_plugin_bundle_release_tag("1.2.3").unwrap(), "v1.2.3");
    assert_eq!(normalize_plugin_bundle_release_tag("v1.2.3").unwrap(), "v1.2.3");
    assert!(normalize_plugin_bundle_release_tag("stable").is_err());
    assert!(normalize_plugin_bundle_release_tag("v1.2").is_err());
    assert!(normalize_plugin_bundle_release_tag("v1.2.3.4").is_err());
}

#[test]
fn latest_release_resolves_to_no_tag() {
    assert_eq!(resolve_plugin_bundle_release_tag("latest"), Ok(None));
    assert_eq!(resolve_plugin_bundle_release_tag("2.0.1"), Ok(Some("v2.0.1".to_string())));
}

#[test]
fn render_template_expands_common_prompt_sequences() {
    let context = PromptContext { user: "alice", host: "host", dir: "~/repo", last_exit_code: 7 };
    let rendered = render_template("%F{red}%n@%m %~ %? %#%f", &context);
    assert_eq!(rendered, "\x1b[31malice@host ~/repo 7 %\x1b[39m");
}

#[test]
fn render_template_shows_the_given_clock() {
    let context = PromptContext { user: "u", host: "h", dir: "/", last_exit_code: 0 };
    assert_eq!(render_template_at("[%T]", &context, "09:05"), "[09:05]");
    assert_eq!(hhmm_from_secs(9 * 3600 + 5 * 60 + 59), "09:05");
    assert_eq!(hhmm_from_secs(86400 + 61), "00:01");
}

#[test]
fn display_dir_uses_tilde_for_home() {
    let home = "C:\\Users\\alice";
    let current = "C:\\Users\\alice\\repo";
    assert_eq!(display_dir(current, Some(home)), "~\\repo");
    assert_eq!(display_dir(home, Some(home)), "~");
}

#[test]
fn normalize_script_line_keeps_quoted_hashes() {
    assert_eq!(normalize_script_line(" echo '#not comment' # comment "), "echo '#not comment'");
    assert_eq!(normalize_script_line("echo \"#also text\""), "echo \"#also text\"");
}

#[test]
fn strip_inline_comment_keeps_the_prefix() {
    assert_eq!(strip_inline_comment("ls # list"), "ls ");
    assert_eq!(strip_inline_comment("echo \\# x"), "echo \\# x");
}

#[test]
fn assignment_detection_matches_shell_identifiers() {
    assert!(is_assignment_token("PATH=value"));
    assert!(is_assignment_token("_X=1"));
    assert!(!is_assignment_token("1X=value"));
    assert!(!is_assignment_token("echo"));
}

#[test]
fn normalize_assignment_value_removes_quote_characters() {
    assert_eq!(normalize_assignment_value("\"hello\""), "hello");
    assert_eq!(normalize_assignment_value("'a b'"), "a b");
}

#[test]
fn case_pattern_matching_supports_alternatives_and_globs() {
    assert!(case_pattern_matches("a|b*", "bee"));
    assert!(case_pattern_matches("\"exact\"", "exact"));
    assert!(!case_pattern_matches("a|b", "c"));
}

#[test]
fn render_template_copies_plain_text_and_unknown_escapes() {
    let context = PromptContext { user: "u", host: "h", dir: "/", last_exit_code: 0 };
    assert_eq!(render_template_at("plain text", &context, "12:00"), "plain text");
    assert_eq!(render_template_at("%x%y", &context, "12:00"), "%x%y");
    assert_eq!(render_template_at("end%", &context, "12:00"), "end%");
}

#[test]
fn render_template_colours() {
    let context = PromptContext { user: "u", host: "h", dir: "/", last_exit_code: 0 };
    assert_eq!(render_template_at("%F{RED}x", &context, "12:00"), "\x1b[31mx");
    assert_eq!(render_template_at("%F{cyan}", &context, "12:00"), "\x1b[36m");
    assert_eq!(render_template_at("%F{208}", &context, "12:00"), "\x1b[38;5;208m");
    assert_eq!(render_template_at("%F{256}x", &context, "12:00"), "x");
    assert_eq!(render_template_at("%F{purple}x", &context, "12:00"), "x");
    assert_eq!(render_template_at("%Fx", &context, "12:00"), "x");
}

#[test]
fn strip_inline_comment_twice_is_once() {
    let once = strip_inline_comment("echo 'a # b' # note");
    assert_eq!(once, "echo 'a # b' ");
    assert_eq!(strip_inline_comment(&once), once);
}
