//! The `winuxsh` command line: which command the arguments ask for, and the
//! argument parsing of the `plugin` subcommands.
use vstd::prelude::*;
use crate::executor::eq_ignore_ascii_case;
use crate::text::{
    all_digits, ascii_lower_text, ascii_upper, chars_of, has_infix, has_prefix, is_alpha, opt_view,
    owned, push_char, split_by, split_chars, str_eq, str_starts_with, string_of, string_of_range,
    to_ascii_upper, trim_str, trim_ws, views, vviews, words, split_whitespace_chars, without_prefixes,
    skip_prefixes, contains_chars, ascii_alpha,
};

verus! {

/// The options of `winuxsh plugin update`.
#[derive(Debug, PartialEq, Eq)]
pub struct PluginUpdateOptions {
    pub source_path: Option<String>,
    pub github_release: Option<String>,
    pub checksum: Option<String>,
    pub checksum_file: Option<String>,
    pub json: bool,
}

/// `PluginUpdateOptions` as plain values.
pub struct UpdateModel {
    pub source_path: Option<Seq<char>>,
    pub github_release: Option<Seq<char>>,
    pub checksum: Option<Seq<char>>,
    pub checksum_file: Option<Seq<char>>,
    pub json: bool,
}

/// The plain-value form of the options.
pub open spec fn update_model(o: PluginUpdateOptions) -> UpdateModel {
    UpdateModel {
        source_path: opt_view(o.source_path),
        github_release: opt_view(o.github_release),
        checksum: opt_view(o.checksum),
        checksum_file: opt_view(o.checksum_file),
        json: o.json,
    }
}

/// The error for a value-taking option at the end of the arguments.
pub open spec fn update_missing_value(opt: Seq<char>) -> Seq<char> {
    if opt == "--from"@ {
        "--from requires a bundle directory or zip path"@
    } else if opt == "--checksum"@ {
        "--checksum requires a SHA-256 value"@
    } else if opt == "--checksum-file"@ {
        "--checksum-file requires a path"@
    } else {
        "--github-release requires latest or a vX.Y.Z tag"@
    }
}

/// The arguments `args[i..]` applied on top of `o`.
pub open spec fn update_args(args: Seq<Seq<char>>, i: int, o: UpdateModel) -> Result<
    UpdateModel,
    Seq<char>,
>
    decreases args.len() - i,
{
    if i < 0 || i >= args.len() {
        Ok(o)
    } else {
        let a = args[i];
        if a == "--json"@ {
            update_args(args, i + 1, UpdateModel { json: true, ..o })
        } else if a == "--from"@ || a == "--checksum"@ || a == "--checksum-file"@ || a
            == "--github-release"@ {
            if i + 1 >= args.len() {
                Err(update_missing_value(a))
            } else {
                let v = args[i + 1];
                let o2 = if a == "--from"@ {
                    UpdateModel { source_path: Some(v), ..o }
                } else if a == "--checksum"@ {
                    UpdateModel { checksum: Some(v), ..o }
                } else if a == "--checksum-file"@ {
                    UpdateModel { checksum_file: Some(v), ..o }
                } else {
                    UpdateModel { github_release: Some(v), ..o }
                };
                update_args(args, i + 2, o2)
            }
        } else {
            Err("unknown plugin update option '"@ + a + "'"@)
        }
    }
}

/// Parses the options of `winuxsh plugin update`.
pub fn parse_plugin_update_options(args: &[String]) -> (r: Result<PluginUpdateOptions, String>)
    ensures
        match update_args(
            views(args@),
            0,
            UpdateModel {
                source_path: None,
                github_release: None,
                checksum: None,
                checksum_file: None,
                json: false,
            },
        ) {
            Ok(o) => r is Ok && update_model(r->Ok_0) == o,
            Err(e) => r is Err && r->Err_0@ == e,
        },
{
    let mut options = PluginUpdateOptions {
        source_path: None,
        github_release: None,
        checksum: None,
        checksum_file: None,
        json: false,
    };
    let ghost all = views(args@);
    let ghost start = UpdateModel {
        source_path: None,
        github_release: None,
        checksum: None,
        checksum_file: None,
        json: false,
    };
    let mut i: usize = 0;
    while i < args.len()
        invariant
            i <= args@.len(),
            all == views(args@),
            start == (UpdateModel {
                source_path: None,
                github_release: None,
                checksum: None,
                checksum_file: None,
                json: false,
            }),
            update_args(all, 0, start) == update_args(all, i as int, update_model(options)),
        decreases args.len() - i,
    {
        let a = args[i].as_str();
        assert(all[i as int] == a@);
        if str_eq(a, "--json") {
            options = PluginUpdateOptions { json: true, ..options };
            i = i + 1;
            continue;
        }
        let valued = str_eq(a, "--from") || str_eq(a, "--checksum") || str_eq(a, "--checksum-file")
            || str_eq(a, "--github-release");
        if !valued {
            return Err(owned("unknown plugin update option '").concat(a).concat("'"));
        }
        if i + 1 >= args.len() {
            let msg = if str_eq(a, "--from") {
                owned("--from requires a bundle directory or zip path")
            } else if str_eq(a, "--checksum") {
                owned("--checksum requires a SHA-256 value")
            } else if str_eq(a, "--checksum-file") {
                owned("--checksum-file requires a path")
            } else {
                owned("--github-release requires latest or a vX.Y.Z tag")
            };
            return Err(msg);
        }
        assert(all[i + 1] == args@[i + 1]@);
        let v = args[i + 1].clone();
        if str_eq(a, "--from") {
            options = PluginUpdateOptions { source_path: Some(v), ..options };
        } else if str_eq(a, "--checksum") {
            options = PluginUpdateOptions { checksum: Some(v), ..options };
        } else if str_eq(a, "--checksum-file") {
            options = PluginUpdateOptions { checksum_file: Some(v), ..options };
        } else {
            options = PluginUpdateOptions { github_release: Some(v), ..options };
        }
        i = i + 2;
    }
    Ok(options)
}

/// A part of a version: a non-empty run of ASCII digits.
pub open spec fn version_part(p: Seq<char>) -> bool {
    p.len() > 0 && all_digits(p)
}

/// Whether `p` is a non-empty run of ASCII digits.
fn is_version_part(p: &Vec<char>) -> (r: bool)
    ensures
        r == version_part(p@),
{
    if p.len() == 0 {
        return false;
    }
    assert(p@.subrange(0, p@.len() as int) =~= p@);
    crate::text::all_digits_range(p, 0, p.len())
}

/// A semver tag: `X.Y.Z` with an optional `v`, each part a non-empty run
/// of ASCII digits; normalized to `vX.Y.Z`.
pub open spec fn normalized_tag(release: Seq<char>) -> Option<Seq<char>> {
    let version = if has_prefix(release, "v"@) {
        release.subrange(1, release.len() as int)
    } else {
        release
    };
    let parts = split_by(version, '.');
    if parts.len() == 3 && version_part(parts[0]) && version_part(parts[1]) && version_part(
        parts[2],
    ) {
        Some("v"@ + version)
    } else {
        None
    }
}

/// The error for a release that is neither `latest` nor a semver tag.
pub open spec fn tag_error() -> Seq<char> {
    "--github-release must be latest or a semver tag like v1.0.0"@
}

/// Normalizes a plugin bundle release tag to `vX.Y.Z`.
pub fn normalize_plugin_bundle_release_tag(release: &str) -> (r: Result<String, String>)
    ensures
        match normalized_tag(release@) {
            Some(t) => r is Ok && r->Ok_0@ == t,
            None => r is Err && r->Err_0@ == tag_error(),
        },
{
    let v = chars_of(release);
    proof {
        reveal_strlit("v");
    }
    let start: usize = if v.len() > 0 && v[0] == 'v' {
        1
    } else {
        0
    };
    assert("v"@ =~= seq!['v']);
    proof {
        if v@.len() > 0 {
            assert(v@.subrange(0, 1) =~= seq![v@[0]]);
            if v@[0] != 'v' {
                assert(v@.subrange(0, 1)[0] != "v"@[0]);
            }
        }
    }
    assert(start == 1 <==> has_prefix(release@, "v"@));
    let version = string_of_range(&v, start, v.len());
    assert(start == 0 ==> v@.subrange(0, v@.len() as int) =~= v@);
    let vc = chars_of(version.as_str());
    let parts = split_chars(&vc, '.');
    let ghost ps = split_by(version@, '.');
    let mut valid = parts.len() == 3;
    if valid {
        let mut k: usize = 0;
        while k < 3
            invariant
                k <= 3,
                parts@.len() == 3,
                vviews(parts@) == ps,
                valid == forall|q: int| 0 <= q < k ==> #[trigger] version_part(ps[q]),
            decreases 3 - k,
        {
            assert(ps[k as int] == parts@[k as int]@);
            let ok = is_version_part(&parts[k]);
            valid = valid && ok;
            k = k + 1;
        }
    }
    let ghost spec_version = if has_prefix(release@, "v"@) {
        release@.subrange(1, release@.len() as int)
    } else {
        release@
    };
    assert(version@ == spec_version);
    assert(ps == split_by(spec_version, '.'));
    if !valid {
        return Err(owned("--github-release must be latest or a semver tag like v1.0.0"));
    }
    Ok(owned("v").concat(version.as_str()))
}

/// What a `--github-release` value asks for: `Ok(None)` for the latest
/// release (any ASCII case, surrounding white space ignored), else the
/// normalized tag.
pub open spec fn release_request(release: Seq<char>) -> Result<Option<Seq<char>>, Seq<char>> {
    let t = trim_ws(release);
    if ascii_lower_text(t) == ascii_lower_text("latest"@) {
        Ok(None)
    } else {
        match normalized_tag(t) {
            Some(tag) => Ok(Some(tag)),
            None => Err(tag_error()),
        }
    }
}

/// Resolves a `--github-release` value: `Ok(None)` means the latest release
/// must be looked up; otherwise the tag itself.
pub fn resolve_plugin_bundle_release_tag(release: &str) -> (r: Result<Option<String>, String>)
    ensures
        match release_request(release@) {
            Ok(None) => r matches Ok(None),
            Ok(Some(t)) => r matches Ok(Some(s)) && s@ == t,
            Err(e) => r is Err && r->Err_0@ == e,
        },
{
    let t = trim_str(release);
    if eq_ignore_ascii_case(t.as_str(), "latest") {
        return Ok(None);
    }
    match normalize_plugin_bundle_release_tag(t.as_str()) {
        Ok(tag) => Ok(Some(tag)),
        Err(e) => Err(e),
    }
}

/// The archive and checksum file names of a plugin bundle release:
/// `BUNDLE-VERSION.zip` and `BUNDLE-VERSION.zip.sha256`, the version being
/// the tag without its leading `v`s.
pub fn bundle_asset_names(bundle: &str, tag: &str) -> (r: (String, String))
    ensures
        r.0@ == bundle@ + "-"@ + without_prefixes(tag@, "v"@) + ".zip"@,
        r.1@ == r.0@ + ".sha256"@,
{
    let v = chars_of(tag);
    let p = chars_of("v");
    assert(v@.subrange(0, v@.len() as int) =~= v@);
    proof {
        reveal_strlit("v");
    }
    let start = skip_prefixes(&v, 0, &p);
    let version = string_of_range(&v, start, v.len());
    let asset = owned(bundle).concat("-").concat(version.as_str()).concat(".zip");
    let checksum = owned(asset.as_str()).concat(".sha256");
    (asset, checksum)
}

/// The checksum in a checksum file: its first white-space separated word.
pub fn checksum_from_text(text: &str) -> (r: Option<String>)
    ensures
        match r {
            Some(c) => words(text@).len() > 0 && c@ == words(text@)[0],
            None => words(text@).len() == 0,
        },
{
    let v = chars_of(text);
    let ws = split_whitespace_chars(&v);
    if ws.len() == 0 {
        return None;
    }
    assert(vviews(ws@)[0] == ws@[0]@);
    Some(string_of(&ws[0]))
}

/// What `plugin plan` and friends do to a plugin's configuration.
#[derive(Clone, Copy, Debug, PartialEq, Eq, Structural)]
pub enum PluginConfigAction {
    Enable,
    Disable,
}

/// Reads an action word: `enable` or `disable`.
pub fn plugin_config_action_from_str(value: &str) -> (r: Result<PluginConfigAction, String>)
    ensures
        value@ == "enable"@ ==> r == Ok::<PluginConfigAction, String>(PluginConfigAction::Enable),
        value@ == "disable"@ && value@ != "enable"@ ==> r == Ok::<PluginConfigAction, String>(
            PluginConfigAction::Disable,
        ),
        value@ != "enable"@ && value@ != "disable"@ ==> r is Err && r->Err_0@
            == "unknown plugin plan action '"@ + value@ + "'"@,
{
    if str_eq(value, "enable") {
        Ok(PluginConfigAction::Enable)
    } else if str_eq(value, "disable") {
        Ok(PluginConfigAction::Disable)
    } else {
        Err(owned("unknown plugin plan action '").concat(value).concat("'"))
    }
}

/// The word of an action.
pub fn plugin_config_action_name(action: PluginConfigAction) -> (r: &'static str)
    ensures
        r@ == match action {
            PluginConfigAction::Enable => "enable"@,
            PluginConfigAction::Disable => "disable"@,
        },
{
    match action {
        PluginConfigAction::Enable => "enable",
        PluginConfigAction::Disable => "disable",
    }
}

/// The past tense of an action, as reports begin.
pub fn plugin_config_action_past_tense(action: PluginConfigAction) -> (r: &'static str)
    ensures
        r@ == match action {
            PluginConfigAction::Enable => "Enabled"@,
            PluginConfigAction::Disable => "Disabled"@,
        },
{
    match action {
        PluginConfigAction::Enable => "Enabled",
        PluginConfigAction::Disable => "Disabled",
    }
}

/// Refuses any further argument.
pub fn reject_plugin_options(args: &[String]) -> (r: Result<(), String>)
    ensures
        args@.len() == 0 ==> r is Ok,
        args@.len() > 0 ==> r is Err && r->Err_0@ == "unknown plugin option '"@ + args@[0]@ + "'"@,
{
    if args.len() > 0 {
        return Err(owned("unknown plugin option '").concat(args[0].as_str()).concat("'"));
    }
    Ok(())
}

/// Whether the arguments are all `--json` (and at least one is); the first
/// other argument is an error.
pub open spec fn json_flag(args: Seq<Seq<char>>, i: int, json: bool) -> Result<bool, Seq<char>>
    decreases args.len() - i,
{
    if i < 0 || i >= args.len() {
        Ok(json)
    } else if args[i] == "--json"@ {
        json_flag(args, i + 1, true)
    } else {
        Err("unknown plugin option '"@ + args[i] + "'"@)
    }
}

/// Reads an optional `--json` flag.
pub fn parse_plugin_json_flag(args: &[String]) -> (r: Result<bool, String>)
    ensures
        match json_flag(views(args@), 0, false) {
            Ok(b) => r == Ok::<bool, String>(b),
            Err(e) => r is Err && r->Err_0@ == e,
        },
{
    let mut json = false;
    let mut i: usize = 0;
    let ghost all = views(args@);
    while i < args.len()
        invariant
            i <= args@.len(),
            all == views(args@),
            json_flag(all, 0, false) == json_flag(all, i as int, json),
        decreases args.len() - i,
    {
        assert(all[i as int] == args@[i as int]@);
        if str_eq(args[i].as_str(), "--json") {
            json = true;
        } else {
            return Err(owned("unknown plugin option '").concat(args[i].as_str()).concat("'"));
        }
        i = i + 1;
    }
    Ok(json)
}

/// The arguments of `plugin search`: at most one query and `--json`; any
/// other argument that starts with `-` is an error.
pub open spec fn search_args(args: Seq<Seq<char>>, i: int, st: (Option<Seq<char>>, bool)) -> Result<
    (Option<Seq<char>>, bool),
    Seq<char>,
>
    decreases args.len() - i,
{
    if i < 0 || i >= args.len() {
        Ok(st)
    } else {
        let a = args[i];
        if a == "--json"@ {
            search_args(args, i + 1, (st.0, true))
        } else if has_prefix(a, "-"@) {
            Err("unknown plugin search option "@ + a)
        } else if st.0 is Some {
            Err("plugin search accepts at most one query"@)
        } else {
            search_args(args, i + 1, (Some(a), st.1))
        }
    }
}

/// Reads the arguments of `plugin search`.
pub fn parse_plugin_search_args(args: &[String]) -> (r: Result<(Option<String>, bool), String>)
    ensures
        match search_args(views(args@), 0, (None, false)) {
            Ok((q, j)) => r is Ok && opt_view(r->Ok_0.0) == q && r->Ok_0.1 == j,
            Err(e) => r is Err && r->Err_0@ == e,
        },
{
    let mut query: Option<String> = None;
    let mut json = false;
    let mut i: usize = 0;
    let ghost all = views(args@);
    while i < args.len()
        invariant
            i <= args@.len(),
            all == views(args@),
            search_args(all, 0, (None, false)) == search_args(
                all,
                i as int,
                (opt_view(query), json),
            ),
        decreases args.len() - i,
    {
        let a = args[i].as_str();
        assert(all[i as int] == a@);
        if str_eq(a, "--json") {
            json = true;
        } else if str_starts_with(a, "-") {
            return Err(owned("unknown plugin search option ").concat(a));
        } else if query.is_some() {
            return Err(owned("plugin search accepts at most one query"));
        } else {
            query = Some(owned(a));
        }
        i = i + 1;
    }
    Ok((query, json))
}

/// `yes` or `no`.
pub fn yes_no(value: bool) -> (r: &'static str)
    ensures
        r@ == if value {
            "yes"@
        } else {
            "no"@
        },
{
    if value {
        "yes"
    } else {
        "no"
    }
}

/// Whether the import block of a zsh configuration is there.
#[derive(Clone, Copy, Debug, PartialEq, Eq, Structural)]
pub enum ZshImportBlockState {
    Missing,
    Present,
    Malformed,
}

/// Whether an import can be applied.
#[derive(Clone, Copy, Debug, PartialEq, Eq, Structural)]
pub enum ZshImportApplyReadiness {
    AddNewBlock,
    ReplaceExistingBlock,
    Blocked,
}

/// The label of an import block state.
pub fn zsh_import_block_state_label(state: ZshImportBlockState) -> (r: &'static str)
    ensures
        r@ == match state {
            ZshImportBlockState::Missing => "missing"@,
            ZshImportBlockState::Present => "present"@,
            ZshImportBlockState::Malformed => "malformed"@,
        },
{
    match state {
        ZshImportBlockState::Missing => "missing",
        ZshImportBlockState::Present => "present",
        ZshImportBlockState::Malformed => "malformed",
    }
}

/// The label of an import's readiness.
pub fn zsh_import_apply_readiness_label(readiness: ZshImportApplyReadiness) -> (r: &'static str)
    ensures
        r@ == match readiness {
            ZshImportApplyReadiness::AddNewBlock => "add new block"@,
            ZshImportApplyReadiness::ReplaceExistingBlock => "replace existing block"@,
            ZshImportApplyReadiness::Blocked => "blocked"@,
        },
{
    match readiness {
        ZshImportApplyReadiness::AddNewBlock => "add new block",
        ZshImportApplyReadiness::ReplaceExistingBlock => "replace existing block",
        ZshImportApplyReadiness::Blocked => "blocked",
    }
}

/// An I/O error is a broken pipe: by its kind, or by OS error 232.
pub fn is_broken_pipe_io_error(broken_pipe_kind: bool, raw_os_error: Option<i32>) -> (r: bool)
    ensures
        r == (broken_pipe_kind || raw_os_error == Some(232i32)),
{
    broken_pipe_kind || match raw_os_error {
        Some(c) => c == 232,
        None => false,
    }
}

/// An error message that reports a broken pipe.
pub fn is_broken_pipe_message(message: &str) -> (r: bool)
    ensures
        r == (has_infix(message@, "os error 232"@) || has_infix(message@, "管道正在被关闭"@)),
{
    let v = chars_of(message);
    let a = chars_of("os error 232");
    let b = chars_of("管道正在被关闭");
    contains_chars(&v, &a) || contains_chars(&v, &b)
}

/// A script argument in the shell's notation as a host path: on Windows
/// `/c` becomes `C:/` and `/c/rest` becomes `C:/rest` (with `\` read as
/// `/`); everything else is unchanged.
pub open spec fn script_host_path(value: Seq<char>, windows: bool) -> Seq<char> {
    let n = value.map_values(|c: char| if c == '\\' { '/' } else { c });
    if windows && n.len() >= 2 && n[0] == '/' && is_alpha(n[1]) && (n.len() == 2 || n[2] == '/') {
        seq![ascii_upper(n[1]), ':'] + if n.len() == 2 {
            "/"@
        } else {
            n.subrange(2, n.len() as int)
        }
    } else {
        value
    }
}

/// Rewrites a script argument such as `/c/tools/x.sh` as a host path.
pub fn script_arg_to_host_path(value: &str, windows: bool) -> (r: String)
    ensures
        r@ == script_host_path(value@, windows),
{
    let v = chars_of(value);
    let mut n: Vec<char> = Vec::new();
    let mut i: usize = 0;
    while i < v.len()
        invariant
            i <= v@.len(),
            n@ == v@.subrange(0, i as int).map_values(|c: char| if c == '\\' { '/' } else { c }),
        decreases v.len() - i,
    {
        let c = if v[i] == '\\' {
            '/'
        } else {
            v[i]
        };
        n.push(c);
        assert(v@.subrange(0, i + 1).map_values(|c: char| if c == '\\' { '/' } else { c })
            =~= v@.subrange(0, i as int).map_values(|c: char| if c == '\\' { '/' } else { c }).push(
            c,
        ));
        i = i + 1;
    }
    assert(v@.subrange(0, v@.len() as int) =~= v@);
    if windows && n.len() >= 2 && n[0] == '/' && ascii_alpha(n[1]) && (n.len() == 2 || n[2]
        == '/') {
        let mut r = String::new();
        push_char(&mut r, to_ascii_upper(n[1]));
        push_char(&mut r, ':');
        let rest = if n.len() == 2 {
            owned("/")
        } else {
            string_of_range(&n, 2, n.len())
        };
        let r2 = r.concat(rest.as_str());
        assert(r2@ =~= seq![ascii_upper(n@[1]), ':'] + rest@);
        return r2;
    }
    owned(value)
}

/// The options of `--install-wt-profile` from position `i` on, with the
/// flags `--set-default` and `--quiet` seen so far: the two flags, or the
/// first unknown option.
pub open spec fn wt_profile_args(args: Seq<Seq<char>>, i: int, flags: (bool, bool)) -> Result<(bool, bool), Seq<char>>
    decreases args.len() - i,
{
    if i < 0 || i >= args.len() {
        Ok(flags)
    } else if args[i] == "--set-default"@ {
        wt_profile_args(args, i + 1, (true, flags.1))
    } else if args[i] == "--quiet"@ {
        wt_profile_args(args, i + 1, (flags.0, true))
    } else {
        Err("unknown --install-wt-profile option '"@ + args[i] + "'"@)
    }
}

/// Parses the options of `--install-wt-profile`: whether to make the
/// profile the default one, and whether to stay quiet.
pub fn parse_wt_profile_args(args: &[String]) -> (r: Result<(bool, bool), String>)
    ensures
        match (r, wt_profile_args(views(args@), 0, (false, false))) {
            (Ok(a), Ok(b)) => a == b,
            (Err(a), Err(b)) => a@ == b,
            _ => false,
        },
{
    let mut set_default = false;
    let mut quiet = false;
    let mut i: usize = 0;
    while i < args.len()
        invariant
            i <= args@.len(),
            wt_profile_args(views(args@), 0, (false, false)) == wt_profile_args(
                views(args@),
                i as int,
                (set_default, quiet),
            ),
        decreases args.len() - i,
    {
        if str_eq(args[i].as_str(), "--set-default") {
            set_default = true;
        } else if str_eq(args[i].as_str(), "--quiet") {
            quiet = true;
        } else {
            return Err(owned("unknown --install-wt-profile option '").concat(args[i].as_str()).concat("'"));
        }
        i += 1;
    }
    Ok((set_default, quiet))
}

/// Where the Windows Terminal profile's icon is looked for, in order,
/// under the directory of the program.
pub open spec fn icon_paths(app_dir: Seq<char>, windows: bool) -> Seq<Seq<char>> {
    let assets = crate::runtime::joined(app_dir, "assets"@, windows);
    seq![
        crate::runtime::joined(assets, "winuxsh-icon-256.png"@, windows),
        crate::runtime::joined(assets, "winuxsh-icon.png"@, windows),
        crate::runtime::joined(app_dir, "winuxsh-icon-256.png"@, windows),
        crate::runtime::joined(app_dir, "winuxsh-icon.png"@, windows),
    ]
}

/// The paths tried, in order, for the Windows Terminal profile's icon.
pub fn icon_candidates(app_dir: &str, windows: bool) -> (r: Vec<String>)
    ensures
        views(r@) == icon_paths(app_dir@, windows),
{
    let assets = crate::runtime::join_path(app_dir, "assets", windows);
    let mut out: Vec<String> = Vec::new();
    out.push(crate::runtime::join_path(assets.as_str(), "winuxsh-icon-256.png", windows));
    out.push(crate::runtime::join_path(assets.as_str(), "winuxsh-icon.png", windows));
    out.push(crate::runtime::join_path(app_dir, "winuxsh-icon-256.png", windows));
    out.push(crate::runtime::join_path(app_dir, "winuxsh-icon.png", windows));
    assert(views(out@) =~= icon_paths(app_dir@, windows));
    out
}

} // verus!
