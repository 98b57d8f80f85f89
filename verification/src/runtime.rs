//! The command runtime's decisions: joining paths as `PathBuf::push` does,
//! where a command is looked for, aliases, `$(...)` command substitution,
//! wildcard expansion, where redirected builtins write, how a capture
//! redirects a command, environment and prompt lookups, and the WinuxCmd
//! library's state.
use vstd::prelude::*;
use crate::text::{
    chars_of, clone_strings, contains_char, has_char, owned, push_char,
    opt_view, split_whitespace_chars, str_eq, string_of, string_of_range, trim, trim_chars, trim_str, trim_ws, views, vviews,
    words, TrimSet,
};
use crate::array::{display_text, join_spaced, spaced, ArrayValue};
use crate::script::{entry_index, env_entry, string_text};
use crate::winpath::{join_windows, joined_win, win_absolute};

verus! {

/// An absolute path: one starting with `/` elsewhere; on Windows one with a
/// prefix and a root (`C:\x`, `\\server\share\x`, `\\?\x`, `\\.\x`).
pub open spec fn absolute(p: Seq<char>, windows: bool) -> bool {
    if windows {
        win_absolute(p)
    } else {
        p.len() > 0 && p[0] == '/'
    }
}

/// `dir` with `p` pushed onto it, as `PathBuf::push` does it: elsewhere an
/// absolute `p` replaces `dir`, and otherwise a `/` goes between them unless
/// `dir` is empty or ends with one; on Windows as `joined_win` says.
pub open spec fn joined(dir: Seq<char>, p: Seq<char>, windows: bool) -> Seq<char> {
    if windows {
        joined_win(dir, p)
    } else if absolute(p, false) {
        p
    } else if dir.len() == 0 || dir.last() == '/' {
        dir + p
    } else {
        dir + seq!['/'] + p
    }
}

/// Joins `p` onto `dir` as `PathBuf::push` does.
pub fn join_path(dir: &str, p: &str, windows: bool) -> (r: String)
    ensures
        r@ == joined(dir@, p@, windows),
{
    let d = chars_of(dir);
    let q = chars_of(p);
    if windows {
        let v = join_windows(d.as_slice(), q.as_slice());
        return string_of(v.as_slice());
    }
    if q.len() > 0 && q[0] == '/' {
        return owned(p);
    }
    if d.len() == 0 || d[d.len() - 1] == '/' {
        return owned(dir).concat(p);
    }
    let mut r = owned(dir);
    push_char(&mut r, '/');
    r.concat(p)
}

/// Resolves a redirection target against the working directory.
pub fn resolve_path(cwd: &str, path: &str, windows: bool) -> (r: String)
    ensures
        r@ == if absolute(path@, windows) {
            path@
        } else {
            joined(cwd@, path@, windows)
        },
{
    join_path(cwd, path, windows)
}

/// A command name without surrounding white space and byte-order marks.
pub fn clean_command_name(cmd: &str) -> (r: String)
    ensures
        r@ == trim(cmd@, TrimSet::WhitespaceOrBom),
{
    let v = chars_of(cmd);
    let t = trim_chars(&v, TrimSet::WhitespaceOrBom);
    string_of(&t)
}

/// The paths tried for `cmd` in `dir`: with each extension, then bare.
pub open spec fn dir_candidates(dir: Seq<char>, cmd: Seq<char>, windows: bool) -> Seq<Seq<char>> {
    seq![
        joined(dir, cmd + ".exe"@, windows),
        joined(dir, cmd + ".bat"@, windows),
        joined(dir, cmd + ".cmd"@, windows),
        joined(dir, cmd + ".ps1"@, windows),
        joined(dir, cmd + ".com"@, windows),
        joined(dir, cmd, windows),
    ]
}

/// The candidates of `cmd` in each of `dirs`, in order.
pub open spec fn dirs_candidates(dirs: Seq<Seq<char>>, cmd: Seq<char>, windows: bool) -> Seq<
    Seq<char>,
>
    decreases dirs.len(),
{
    if dirs.len() == 0 {
        Seq::empty()
    } else {
        dirs_candidates(dirs.drop_last(), cmd, windows) + dir_candidates(dirs.last(), cmd, windows)
    }
}

/// The paths where a command is looked for, in order: the working
/// directory first; then, for a name with a separator, that path from the
/// working directory; else each directory of `PATH`. A name that is empty
/// once cleaned is looked for nowhere.
pub open spec fn search_plan(cmd: Seq<char>, cwd: Seq<char>, path_dirs: Seq<Seq<char>>, windows: bool) -> Seq<
    Seq<char>,
> {
    let c = trim(cmd, TrimSet::WhitespaceOrBom);
    if c.len() == 0 {
        Seq::empty()
    } else if has_char(c, '\\') || has_char(c, '/') {
        dir_candidates(cwd, c, windows) + seq![joined(cwd, c, windows)]
    } else {
        dir_candidates(cwd, c, windows) + dirs_candidates(path_dirs, c, windows)
    }
}

proof fn lemma_dirs_candidates_len(dirs: Seq<Seq<char>>, cmd: Seq<char>, windows: bool)
    ensures
        dirs_candidates(dirs, cmd, windows).len() == 6 * dirs.len(),
    decreases dirs.len(),
{
    if dirs.len() > 0 {
        lemma_dirs_candidates_len(dirs.drop_last(), cmd, windows);
    }
}

proof fn lemma_dirs_candidates_block(dirs: Seq<Seq<char>>, cmd: Seq<char>, windows: bool, k: int)
    requires
        0 <= k < dirs.len(),
    ensures
        dirs_candidates(dirs, cmd, windows).subrange(6 * k, 6 * k + 6) == dir_candidates(dirs[k], cmd, windows),
    decreases dirs.len(),
{
    let prev = dirs.drop_last();
    lemma_dirs_candidates_len(prev, cmd, windows);
    let all = dirs_candidates(dirs, cmd, windows);
    if k < prev.len() {
        lemma_dirs_candidates_block(prev, cmd, windows, k);
        lemma_dirs_candidates_len(prev, cmd, windows);
        let p = dirs_candidates(prev, cmd, windows);
        assert(6 * k + 6 <= p.len()) by (nonlinear_arith)
            requires
                k < prev.len(),
                p.len() == 6 * prev.len(),
        ;
        assert(all.subrange(6 * k, 6 * k + 6) =~= p.subrange(6 * k, 6 * k + 6));
        assert(prev[k] == dirs[k]);
    } else {
        assert(all.subrange(6 * k, 6 * k + 6) =~= dir_candidates(dirs[k], cmd, windows));
    }
}

/// The six places tried for `c` in `dir` stand in `plan` from `at` on: the
/// name with `.exe`, `.bat`, `.cmd`, `.ps1`, `.com`, then bare.
pub open spec fn tried_in(plan: Seq<Seq<char>>, at: int, dir: Seq<char>, c: Seq<char>, windows: bool) -> bool {
    &&& plan[at] == joined(dir, c + ".exe"@, windows)
    &&& plan[at + 1] == joined(dir, c + ".bat"@, windows)
    &&& plan[at + 2] == joined(dir, c + ".cmd"@, windows)
    &&& plan[at + 3] == joined(dir, c + ".ps1"@, windows)
    &&& plan[at + 4] == joined(dir, c + ".com"@, windows)
    &&& plan[at + 5] == joined(dir, c, windows)
}

/// Law: a command name without a separator is looked for in the working
/// directory and then in every directory of `PATH`, in order: each
/// directory gets six places, and those of an earlier directory come before
/// those of a later one.
pub proof fn law_search_covers_every_path_dir(
    cmd: Seq<char>,
    cwd: Seq<char>,
    path_dirs: Seq<Seq<char>>,
    windows: bool,
)
    requires
        trim(cmd, TrimSet::WhitespaceOrBom).len() > 0,
        !has_char(trim(cmd, TrimSet::WhitespaceOrBom), '\\'),
        !has_char(trim(cmd, TrimSet::WhitespaceOrBom), '/'),
    ensures
        search_plan(cmd, cwd, path_dirs, windows).len() == 6 * (path_dirs.len() + 1),
        tried_in(search_plan(cmd, cwd, path_dirs, windows), 0, cwd, trim(cmd, TrimSet::WhitespaceOrBom), windows),
        forall|k: int|
            0 <= k < path_dirs.len() ==> tried_in(
                search_plan(cmd, cwd, path_dirs, windows),
                6 * k + 6,
                #[trigger] path_dirs[k],
                trim(cmd, TrimSet::WhitespaceOrBom),
                windows,
            ),
{
    let c = trim(cmd, TrimSet::WhitespaceOrBom);
    let head = dir_candidates(cwd, c, windows);
    let rest = dirs_candidates(path_dirs, c, windows);
    lemma_dirs_candidates_len(path_dirs, c, windows);
    let plan = search_plan(cmd, cwd, path_dirs, windows);
    assert(plan == head + rest);
    assert(head.len() == 6);
    assert(plan.len() == 6 * (path_dirs.len() + 1)) by (nonlinear_arith)
        requires
            plan.len() == head.len() + rest.len(),
            head.len() == 6,
            rest.len() == 6 * path_dirs.len(),
    ;
    assert(tried_in(plan, 0, cwd, c, windows));
    assert forall|k: int| 0 <= k < path_dirs.len() implies tried_in(plan, 6 * k + 6, #[trigger] path_dirs[k], c, windows) by {
        let d = dir_candidates(path_dirs[k], c, windows);
        assert(6 * k + 5 < rest.len()) by (nonlinear_arith)
            requires
                0 <= k < path_dirs.len(),
                rest.len() == 6 * path_dirs.len(),
        ;
        let b = 6 * k;
        lemma_dirs_candidates_block(path_dirs, c, windows, k);
        let blk = rest.subrange(b, b + 6);
        assert(blk[0] == rest[b] && blk[1] == rest[b + 1] && blk[2] == rest[b + 2]);
        assert(blk[3] == rest[b + 3] && blk[4] == rest[b + 4] && blk[5] == rest[b + 5]);
        assert(rest[b] == d[0]);
        assert(rest[b + 1] == d[1]);
        assert(rest[b + 2] == d[2]);
        assert(rest[b + 3] == d[3]);
        assert(rest[b + 4] == d[4]);
        assert(rest[b + 5] == d[5]);
        assert(plan[b + 6] == rest[b]);
        assert(plan[b + 7] == rest[b + 1]);
        assert(plan[b + 8] == rest[b + 2]);
        assert(plan[b + 9] == rest[b + 3]);
        assert(plan[b + 10] == rest[b + 4]);
        assert(plan[b + 11] == rest[b + 5]);
    }
}

/// Law: a command name with a separator is looked for only from the working
/// directory: its six places there, then the name joined to it as given;
/// `PATH` plays no part. A name that is empty once cleaned is looked for
/// nowhere.
pub proof fn law_search_path_like_name(
    cmd: Seq<char>,
    cwd: Seq<char>,
    path_dirs: Seq<Seq<char>>,
    windows: bool,
)
    ensures
        trim(cmd, TrimSet::WhitespaceOrBom).len() == 0 ==> search_plan(cmd, cwd, path_dirs, windows).len() == 0,
        trim(cmd, TrimSet::WhitespaceOrBom).len() > 0 && (has_char(trim(cmd, TrimSet::WhitespaceOrBom), '\\')
            || has_char(trim(cmd, TrimSet::WhitespaceOrBom), '/')) ==> {
            &&& search_plan(cmd, cwd, path_dirs, windows).len() == 7
            &&& tried_in(search_plan(cmd, cwd, path_dirs, windows), 0, cwd, trim(cmd, TrimSet::WhitespaceOrBom), windows)
            &&& search_plan(cmd, cwd, path_dirs, windows)[6] == joined(cwd, trim(cmd, TrimSet::WhitespaceOrBom), windows)
        },
{
}

/// Appends the candidates of `cmd` in `dir`.
fn push_dir_candidates(out: &mut Vec<String>, dir: &str, cmd: &str, windows: bool)
    ensures
        views(final(out)@) == views(old(out)@) + dir_candidates(dir@, cmd@, windows),
{
    let ghost before = views(out@);
    out.push(join_path(dir, owned(cmd).concat(".exe").as_str(), windows));
    out.push(join_path(dir, owned(cmd).concat(".bat").as_str(), windows));
    out.push(join_path(dir, owned(cmd).concat(".cmd").as_str(), windows));
    out.push(join_path(dir, owned(cmd).concat(".ps1").as_str(), windows));
    out.push(join_path(dir, owned(cmd).concat(".com").as_str(), windows));
    out.push(join_path(dir, cmd, windows));
    assert(views(out@) =~= before + dir_candidates(dir@, cmd@, windows));
}

/// The paths where a command is looked for, in order.
pub fn command_search_plan(cmd: &str, cwd: &str, path_dirs: &[String], windows: bool) -> (r: Vec<
    String,
>)
    ensures
        views(r@) == search_plan(cmd@, cwd@, views(path_dirs@), windows),
{
    let c = clean_command_name(cmd);
    let mut out: Vec<String> = Vec::new();
    if c.as_str().unicode_len() == 0 {
        assert(views(out@) =~= Seq::<Seq<char>>::empty());
        return out;
    }
    assert(views(out@) =~= Seq::<Seq<char>>::empty());
    push_dir_candidates(&mut out, cwd, c.as_str(), windows);
    let cv = chars_of(c.as_str());
    let path_like = crate::text::contains_char(&cv, '\\') || crate::text::contains_char(&cv, '/');
    if path_like {
        let ghost before = views(out@);
        out.push(join_path(cwd, c.as_str(), windows));
        assert(views(out@) =~= before + seq![joined(cwd@, c@, windows)]);
        return out;
    }
    let ghost head = views(out@);
    let ghost dirs = views(path_dirs@);
    let mut k: usize = 0;
    assert(dirs.subrange(0, 0) =~= Seq::<Seq<char>>::empty());
    assert(head + dirs_candidates(Seq::empty(), c@, windows) =~= head);
    while k < path_dirs.len()
        invariant
            k <= path_dirs@.len(),
            dirs == views(path_dirs@),
            views(out@) == head + dirs_candidates(dirs.subrange(0, k as int), c@, windows),
        decreases path_dirs.len() - k,
    {
        assert(dirs.subrange(0, k + 1).drop_last() =~= dirs.subrange(0, k as int));
        assert(dirs[k as int] == path_dirs@[k as int]@);
        push_dir_candidates(&mut out, path_dirs[k].as_str(), c.as_str(), windows);
        assert(views(out@) =~= head + dirs_candidates(dirs.subrange(0, k + 1), c@, windows));
        k = k + 1;
    }
    assert(dirs.subrange(0, dirs.len() as int) =~= dirs);
    out
}

/// The paths where a WinuxCmd executable is looked for, in order: each
/// name's search plan in turn.
pub fn winuxcmd_search_plan(cwd: &str, path_dirs: &[String], windows: bool) -> (r: Vec<String>)
    ensures
        views(r@) == search_plan("winuxcmd.exe"@, cwd@, views(path_dirs@), windows) + search_plan(
            "coreutils.exe"@,
            cwd@,
            views(path_dirs@),
            windows,
        ) + search_plan("uutils.exe"@, cwd@, views(path_dirs@), windows),
{
    let mut a = command_search_plan("winuxcmd.exe", cwd, path_dirs, windows);
    let mut b = command_search_plan("coreutils.exe", cwd, path_dirs, windows);
    let mut c = command_search_plan("uutils.exe", cwd, path_dirs, windows);
    let ghost va = views(a@);
    let ghost vb = views(b@);
    let ghost vc = views(c@);
    a.append(&mut b);
    assert(views(a@) =~= va + vb);
    a.append(&mut c);
    assert(views(a@) =~= va + vb + vc);
    a
}

/// The redirections of a command.
#[derive(Debug, Clone, PartialEq, Eq)]
pub struct CommandInfo {
    pub stdin_redir: Option<String>,
    pub stdout_redir: Option<String>,
    pub stderr_redir: Option<String>,
    pub stdout_append: bool,
    pub stderr_append: bool,
    pub stderr_to_stdout: bool,
    pub stdout_to_stderr: bool,
}

/// Whether the command redirects any stream.
pub fn has_redirection(cmd: &CommandInfo) -> (r: bool)
    ensures
        r == (cmd.stdin_redir is Some || cmd.stdout_redir is Some || cmd.stderr_redir is Some
            || cmd.stderr_to_stdout || cmd.stdout_to_stderr),
{
    cmd.stdin_redir.is_some() || cmd.stdout_redir.is_some() || cmd.stderr_redir.is_some()
        || cmd.stderr_to_stdout || cmd.stdout_to_stderr
}

/// Where a builtin writes what it prints.
#[derive(Debug, Clone, PartialEq, Eq)]
pub enum OutputTarget {
    Stdout,
    Stderr,
    /// A file, and whether to append to it.
    File(String, bool),
}

/// A target as plain values: 0 for standard output, 1 for standard error,
/// 2 for a file with its path and whether it is appended to.
pub open spec fn target_model(t: OutputTarget) -> (int, Seq<char>, bool) {
    match t {
        OutputTarget::Stdout => (0, Seq::empty(), false),
        OutputTarget::Stderr => (1, Seq::empty(), false),
        OutputTarget::File(p, a) => (2, p@, a),
    }
}

/// Where a redirected builtin's output goes: with `1>&2`, to the standard
/// error file when there is one, else to standard error; otherwise to the
/// standard output file when there is one, else to standard output.
pub open spec fn output_route(cmd: CommandInfo) -> (int, Seq<char>, bool) {
    if cmd.stdout_to_stderr {
        match cmd.stderr_redir {
            Some(f) => (2, f@, cmd.stderr_append),
            None => (1, Seq::empty(), false),
        }
    } else {
        match cmd.stdout_redir {
            Some(f) => (2, f@, cmd.stdout_append),
            None => (0, Seq::empty(), false),
        }
    }
}

/// The standard error file a builtin still creates though it writes nothing
/// there: the `2>` target when standard output does not go to it.
pub open spec fn stderr_touched(cmd: CommandInfo) -> Option<(Seq<char>, bool)> {
    if cmd.stdout_to_stderr {
        None
    } else {
        match cmd.stderr_redir {
            Some(f) => Some((f@, cmd.stderr_append)),
            None => None,
        }
    }
}

/// Where a builtin with redirections writes its output, and the standard
/// error file it creates besides.
pub fn builtin_output_route(cmd: &CommandInfo) -> (r: (OutputTarget, Option<(String, bool)>))
    ensures
        target_model(r.0) == output_route(*cmd),
        match (r.1, stderr_touched(*cmd)) {
            (Some((p, a)), Some((q, b))) => p@ == q && a == b,
            (None, None) => true,
            _ => false,
        },
{
    let target = if cmd.stdout_to_stderr {
        match &cmd.stderr_redir {
            Some(f) => OutputTarget::File(owned(f.as_str()), cmd.stderr_append),
            None => OutputTarget::Stderr,
        }
    } else {
        match &cmd.stdout_redir {
            Some(f) => OutputTarget::File(owned(f.as_str()), cmd.stdout_append),
            None => OutputTarget::Stdout,
        }
    };
    let touched = if cmd.stdout_to_stderr {
        None
    } else {
        match &cmd.stderr_redir {
            Some(f) => Some((owned(f.as_str()), cmd.stderr_append)),
            None => None,
        }
    };
    (target, touched)
}

/// What `echo` and `pwd` print when their output is redirected: the words
/// after `echo` joined by spaces, or the working directory, then a line
/// break. Other commands are not run this way.
pub open spec fn builtin_text(command: Seq<char>, args: Seq<Seq<char>>, cwd: Seq<char>) -> Option<Seq<char>> {
    if command == "echo"@ {
        Some(spaced(args.drop_first()) + seq!['\n'])
    } else if command == "pwd"@ {
        Some(cwd + seq!['\n'])
    } else {
        None
    }
}

/// The output of a builtin that runs with redirections: `echo` (whose
/// `args` start with the command's own name) or `pwd`.
pub fn builtin_redirect_text(command: &str, args: &[String], cwd: &str) -> (r: Option<String>)
    requires
        args@.len() >= 1,
    ensures
        match r {
            Some(t) => builtin_text(command@, views(args@), cwd@) == Some(t@),
            None => builtin_text(command@, views(args@), cwd@) is None,
        },
{
    if str_eq(command, "echo") {
        let mut rest: Vec<String> = Vec::new();
        let mut i: usize = 1;
        while i < args.len()
            invariant
                1 <= i <= args@.len(),
                views(rest@) == views(args@).subrange(1, i as int),
            decreases args.len() - i,
        {
            let ghost before = views(rest@);
            rest.push(owned(args[i].as_str()));
            assert(views(rest@) =~= before.push(args@[i as int]@));
            assert(views(args@).subrange(1, i + 1) =~= views(args@).subrange(1, i as int).push(
                args@[i as int]@,
            ));
            i += 1;
        }
        assert(views(args@).subrange(1, i as int) =~= views(args@).drop_first());
        let mut out = join_spaced(&rest);
        push_char(&mut out, '\n');
        Some(out)
    } else if str_eq(command, "pwd") {
        let mut out = owned(cwd);
        push_char(&mut out, '\n');
        Some(out)
    } else {
        None
    }
}

/// `NAME=value` lines, one per shell variable, as `env` prints them.
pub open spec fn env_text(env: Seq<(String, ArrayValue)>) -> Seq<char>
    decreases env.len(),
{
    if env.len() == 0 {
        Seq::empty()
    } else {
        env_text(env.drop_last()) + env.last().0@ + "="@ + display_text(env.last().1) + seq!['\n']
    }
}

/// What the first command of a pipeline hands the next one when it is a
/// builtin that only prints: `env` its variables, `echo` and `pwd` as they
/// print with redirections; `None` for any other command.
pub open spec fn pipeline_input(args: Seq<Seq<char>>, cwd: Seq<char>, env: Seq<(String, ArrayValue)>) -> Option<
    Seq<char>,
> {
    if args.len() == 0 {
        None
    } else if args[0] == "env"@ {
        Some(env_text(env))
    } else {
        builtin_text(args[0], args, cwd)
    }
}

/// The text a printing builtin at the head of a pipeline feeds to the rest
/// of it.
pub fn builtin_pipeline_input(args: &[String], cwd: &str, env: &[(String, ArrayValue)]) -> (r: Option<String>)
    ensures
        match r {
            Some(t) => pipeline_input(views(args@), cwd@, env@) == Some(t@),
            None => pipeline_input(views(args@), cwd@, env@) is None,
        },
{
    if args.len() == 0 {
        return None;
    }
    if str_eq(args[0].as_str(), "env") {
        let mut out = String::new();
        let mut i: usize = 0;
        while i < env.len()
            invariant
                i <= env@.len(),
                out@ == env_text(env@.subrange(0, i as int)),
            decreases env.len() - i,
        {
            let ghost pre = env@.subrange(0, i + 1);
            assert(pre.drop_last() =~= env@.subrange(0, i as int));
            assert(pre.last() == env@[i as int]);
            out = out.concat(env[i].0.as_str()).concat("=").concat(env[i].1.to_string().as_str());
            push_char(&mut out, '\n');
            i += 1;
        }
        assert(env@.subrange(0, i as int) =~= env@);
        return Some(out);
    }
    builtin_redirect_text(args[0].as_str(), args, cwd)
}

/// A command as it runs inside a capture: standard output, when captured
/// and not redirected already, is appended to `stdout_path`; standard
/// error, when not redirected already, is appended to `stderr_path`.
pub open spec fn captured(cmd: CommandInfo, stdout_path: Seq<char>, stderr_path: Seq<char>, capture_stdout: bool) -> (
    Option<Seq<char>>,
    bool,
    Option<Seq<char>>,
    bool,
) {
    let (out, out_append) = if capture_stdout && cmd.stdout_redir is None {
        (Some(stdout_path), true)
    } else {
        (opt_view(cmd.stdout_redir), cmd.stdout_append)
    };
    let (err, err_append) = if cmd.stderr_redir is None {
        (Some(stderr_path), true)
    } else {
        (opt_view(cmd.stderr_redir), cmd.stderr_append)
    };
    (out, out_append, err, err_append)
}

/// The redirections of a command, as plain values: standard output's file
/// and append flag, standard error's file and append flag.
pub open spec fn redirections(cmd: CommandInfo) -> (Option<Seq<char>>, bool, Option<Seq<char>>, bool) {
    (opt_view(cmd.stdout_redir), cmd.stdout_append, opt_view(cmd.stderr_redir), cmd.stderr_append)
}

/// The other fields of a command, which a capture leaves alone.
pub open spec fn same_input_and_merges(a: CommandInfo, b: CommandInfo) -> bool {
    &&& opt_view(a.stdin_redir) == opt_view(b.stdin_redir)
    &&& a.stderr_to_stdout == b.stderr_to_stdout
    &&& a.stdout_to_stderr == b.stdout_to_stderr
}

fn copy_opt(o: &Option<String>) -> (r: Option<String>)
    ensures
        opt_view(r) == opt_view(*o),
{
    match o {
        Some(s) => Some(owned(s.as_str())),
        None => None,
    }
}

/// Redirects a command into the capture files (see [`captured`]).
pub fn redirect_for_capture(cmd: &CommandInfo, stdout_path: &str, stderr_path: &str, capture_stdout: bool) -> (r:
    CommandInfo)
    ensures
        redirections(r) == captured(*cmd, stdout_path@, stderr_path@, capture_stdout),
        same_input_and_merges(r, *cmd),
{
    let (stdout_redir, stdout_append) = if capture_stdout && cmd.stdout_redir.is_none() {
        (Some(owned(stdout_path)), true)
    } else {
        (copy_opt(&cmd.stdout_redir), cmd.stdout_append)
    };
    let (stderr_redir, stderr_append) = if cmd.stderr_redir.is_none() {
        (Some(owned(stderr_path)), true)
    } else {
        (copy_opt(&cmd.stderr_redir), cmd.stderr_append)
    };
    CommandInfo {
        stdin_redir: copy_opt(&cmd.stdin_redir),
        stdout_redir,
        stderr_redir,
        stdout_append,
        stderr_append,
        stderr_to_stdout: cmd.stderr_to_stdout,
        stdout_to_stderr: cmd.stdout_to_stderr,
    }
}

/// Redirects a pipeline into the capture files: every stage's standard
/// error, and the last stage's standard output.
pub fn redirect_pipeline_for_capture(cmds: &[CommandInfo], stdout_path: &str, stderr_path: &str) -> (r: Vec<
    CommandInfo,
>)
    ensures
        r@.len() == cmds@.len(),
        forall|i: int|
            0 <= i < cmds@.len() ==> redirections(#[trigger] r@[i]) == captured(
                cmds@[i],
                stdout_path@,
                stderr_path@,
                i == cmds@.len() - 1,
            ) && same_input_and_merges(r@[i], cmds@[i]),
{
    let mut out: Vec<CommandInfo> = Vec::new();
    let mut i: usize = 0;
    while i < cmds.len()
        invariant
            i <= cmds@.len(),
            out@.len() == i,
            forall|k: int|
                0 <= k < i ==> redirections(#[trigger] out@[k]) == captured(
                    cmds@[k],
                    stdout_path@,
                    stderr_path@,
                    k == cmds@.len() - 1,
                ) && same_input_and_merges(out@[k], cmds@[k]),
        decreases cmds.len() - i,
    {
        let last = i + 1 == cmds.len();
        out.push(redirect_for_capture(&cmds[i], stdout_path, stderr_path, last));
        i += 1;
    }
    out
}

/// The temporary files that capture a command's output.
#[derive(Debug)]
pub struct TempCapture {
    stdout_path: String,
    stderr_path: String,
}

impl TempCapture {
    /// The file that captures standard output.
    pub closed spec fn stdout_file(&self) -> Seq<char> {
        self.stdout_path@
    }

    /// The file that captures standard error.
    pub closed spec fn stderr_file(&self) -> Seq<char> {
        self.stderr_path@
    }

    /// The capture files for the base path `base` (without extension).
    pub fn from_base(base: &str) -> (r: Self)
        ensures
            r.stdout_file() == base@ + ".stdout.tmp"@,
            r.stderr_file() == base@ + ".stderr.tmp"@,
    {
        TempCapture {
            stdout_path: owned(base).concat(".stdout.tmp"),
            stderr_path: owned(base).concat(".stderr.tmp"),
        }
    }

    /// Where standard output is captured.
    pub fn stdout_path(&self) -> (r: &str)
        ensures
            r@ == self.stdout_file(),
    {
        self.stdout_path.as_str()
    }

    /// Where standard error is captured.
    pub fn stderr_path(&self) -> (r: &str)
        ensures
            r@ == self.stderr_file(),
    {
        self.stderr_path.as_str()
    }
}

/// The output of a WinuxCmd command.
#[derive(Debug)]
pub struct WinuxCmdResponse {
    pub stdout: Vec<u8>,
    pub stderr: Vec<u8>,
    pub exit_code: i32,
}

/// Direct execution through the WinuxCmd library.
pub struct WinuxCmdFFI;

impl WinuxCmdFFI {
    /// Whether the library is loaded: direct execution is switched off, so
    /// commands always go through the `PATH`.
    pub fn is_initialized() -> (r: bool)
        ensures
            !r,
    {
        false
    }
}

/// The text of the first alias named `name`.
pub open spec fn alias_text(aliases: Seq<(String, String)>, name: Seq<char>) -> Option<Seq<char>>
    decreases aliases.len(),
{
    if aliases.len() == 0 {
        None
    } else if aliases[0].0@ == name {
        Some(aliases[0].1@)
    } else {
        alias_text(aliases.drop_first(), name)
    }
}

/// The words of a command once its first word is looked up among the
/// aliases: an alias whose text has words puts them in its place.
pub open spec fn aliased(args: Seq<Seq<char>>, aliases: Seq<(String, String)>) -> Seq<Seq<char>> {
    if args.len() == 0 {
        args
    } else {
        match alias_text(aliases, args[0]) {
            Some(text) => if words(text).len() > 0 {
                words(text) + args.drop_first()
            } else {
                args
            },
            None => args,
        }
    }
}

/// Expands an alias in the first word of a command.
pub fn expand_alias(args: &[String], aliases: &[(String, String)]) -> (r: Vec<String>)
    ensures
        views(r@) == aliased(views(args@), aliases@),
{
    if args.len() == 0 {
        return Vec::new();
    }
    let mut k: usize = 0;
    assert(aliases@.subrange(0, aliases@.len() as int) =~= aliases@);
    while k < aliases.len()
        invariant
            k <= aliases@.len(),
            args@.len() > 0,
            alias_text(aliases@, args@[0]@) == alias_text(aliases@.subrange(k as int, aliases@.len() as int), args@[0]@),
        decreases aliases.len() - k,
    {
        let ghost rest = aliases@.subrange(k as int, aliases@.len() as int);
        assert(rest.drop_first() =~= aliases@.subrange(k + 1, aliases@.len() as int));
        if str_eq(aliases[k].0.as_str(), args[0].as_str()) {
            let tv = chars_of(aliases[k].1.as_str());
            let ws = split_whitespace_chars(&tv);
            if ws.len() == 0 {
                return clone_strings(args);
            }
            let mut out: Vec<String> = Vec::new();
            let mut i: usize = 0;
            while i < ws.len()
                invariant
                    i <= ws@.len(),
                    views(out@) == vviews(ws@).subrange(0, i as int),
                decreases ws.len() - i,
            {
                let w = string_of(&ws[i]);
                assert(vviews(ws@)[i as int] == ws@[i as int]@);
                let ghost before = views(out@);
                out.push(w);
                assert(views(out@) =~= before.push(w@));
                assert(views(out@) =~= vviews(ws@).subrange(0, i + 1));
                i += 1;
            }
            let ghost head = views(out@);
            let mut j: usize = 1;
            while j < args.len()
                invariant
                    1 <= j <= args@.len(),
                    views(out@) == head + views(args@).subrange(1, j as int),
                decreases args.len() - j,
            {
                let a = owned(args[j].as_str());
                assert(views(args@)[j as int] == args@[j as int]@);
                let ghost before = views(out@);
                out.push(a);
                assert(views(out@) =~= before.push(a@));
                assert(views(out@) =~= head + views(args@).subrange(1, j + 1));
                j += 1;
            }
            assert(vviews(ws@).subrange(0, ws@.len() as int) =~= vviews(ws@));
            assert(views(args@).subrange(1, args@.len() as int) =~= views(args@).drop_first());
            return out;
        }
        k += 1;
    }
    clone_strings(args)
}

/// The position of the `)` that closes a `$(` opened before position `i`,
/// `depth` parentheses deep, if one does.
pub open spec fn close_paren(s: Seq<char>, i: int, depth: int) -> Option<int>
    decreases s.len() - i,
{
    if i < 0 || i >= s.len() {
        None
    } else if s[i] == '(' {
        close_paren(s, i + 1, depth + 1)
    } else if s[i] == ')' {
        if depth - 1 == 0 {
            Some(i)
        } else {
            close_paren(s, i + 1, depth - 1)
        }
    } else {
        close_paren(s, i + 1, depth)
    }
}

pub proof fn lemma_close_paren(s: Seq<char>, i: int, depth: int)
    ensures
        close_paren(s, i, depth) matches Some(k) ==> i <= k < s.len(),
    decreases s.len() - i,
{
    if 0 <= i < s.len() {
        if s[i] == '(' {
            lemma_close_paren(s, i + 1, depth + 1);
        } else if s[i] == ')' {
            if depth - 1 != 0 {
                lemma_close_paren(s, i + 1, depth - 1);
            }
        } else {
            lemma_close_paren(s, i + 1, depth);
        }
    }
}

/// The text around and the commands of the `$(...)` substitutions of
/// `s[i..]`, added to `texts` and `cmds`: each `$(` starts a command that
/// runs to its matching `)` (or to the end), and the text after it starts
/// a new text.
pub open spec fn subst_acc(s: Seq<char>, i: int, texts: Seq<Seq<char>>, cmds: Seq<Seq<char>>) -> (
    Seq<Seq<char>>,
    Seq<Seq<char>>,
)
    decreases s.len() - i,
{
    if i < 0 || i >= s.len() {
        (texts, cmds)
    } else if s[i] == '$' && i + 1 < s.len() && s[i + 1] == '(' {
        proof {
            lemma_close_paren(s, i + 2, 1);
        }
        match close_paren(s, i + 2, 1) {
            Some(k) => subst_acc(s, k + 1, texts.push(Seq::empty()), cmds.push(s.subrange(i + 2, k))),
            None => subst_acc(s, s.len() as int, texts.push(Seq::empty()), cmds.push(s.subrange(i + 2, s.len() as int))),
        }
    } else {
        subst_acc(s, i + 1, texts.update(texts.len() - 1, texts.last().push(s[i])), cmds)
    }
}

/// `s` cut at its command substitutions: the texts between them and the
/// commands, one more text than commands. The shell's result is the first
/// text, then each command's output (trimmed) followed by the next text.
pub open spec fn substitution_parts(s: Seq<char>) -> (Seq<Seq<char>>, Seq<Seq<char>>) {
    subst_acc(s, 0, seq![Seq::empty()], Seq::empty())
}

pub proof fn lemma_subst_len(s: Seq<char>, i: int, texts: Seq<Seq<char>>, cmds: Seq<Seq<char>>)
    requires
        texts.len() == cmds.len() + 1,
    ensures
        subst_acc(s, i, texts, cmds).0.len() == subst_acc(s, i, texts, cmds).1.len() + 1,
    decreases s.len() - i,
{
    if 0 <= i < s.len() {
        if s[i] == '$' && i + 1 < s.len() && s[i + 1] == '(' {
            lemma_close_paren(s, i + 2, 1);
            match close_paren(s, i + 2, 1) {
                Some(k) => lemma_subst_len(s, k + 1, texts.push(Seq::empty()), cmds.push(s.subrange(i + 2, k))),
                None => lemma_subst_len(s, s.len() as int, texts.push(Seq::empty()), cmds.push(s.subrange(i + 2, s.len() as int))),
            }
        } else {
            lemma_subst_len(s, i + 1, texts.update(texts.len() - 1, texts.last().push(s[i])), cmds);
        }
    }
}

/// Without `$(`, the rest of the text goes onto the last text.
proof fn lemma_plain_rest(s: Seq<char>, i: int, texts: Seq<Seq<char>>, cmds: Seq<Seq<char>>)
    requires
        0 <= i <= s.len(),
        texts.len() > 0,
        forall|k: int| 0 <= k < s.len() - 1 ==> !(#[trigger] s[k] == '$' && s[k + 1] == '('),
    ensures
        subst_acc(s, i, texts, cmds) == (
            texts.update(texts.len() - 1, texts.last() + s.subrange(i, s.len() as int)),
            cmds,
        ),
    decreases s.len() - i,
{
    if i < s.len() {
        assert(!(s[i] == '$' && i + 1 < s.len() && s[i + 1] == '('));
        let t2 = texts.update(texts.len() - 1, texts.last().push(s[i]));
        lemma_plain_rest(s, i + 1, t2, cmds);
        assert(texts.last().push(s[i]) + s.subrange(i + 1, s.len() as int) =~= texts.last()
            + s.subrange(i, s.len() as int));
        assert(t2.update(t2.len() - 1, t2.last() + s.subrange(i + 1, s.len() as int))
            =~= texts.update(texts.len() - 1, texts.last() + s.subrange(i, s.len() as int)));
    } else {
        assert(texts.update(texts.len() - 1, texts.last() + s.subrange(i, s.len() as int)) =~= texts);
    }
}

/// A word without `$(` is left whole: one text, the word itself, and no
/// command to run.
pub proof fn law_plain_word_has_no_substitution(s: Seq<char>)
    requires
        forall|k: int| 0 <= k < s.len() - 1 ==> !(#[trigger] s[k] == '$' && s[k + 1] == '('),
    ensures
        substitution_parts(s) == (seq![s], Seq::<Seq<char>>::empty()),
        assembled(substitution_parts(s).0, substitution_parts(s).1) == s,
{
    lemma_plain_rest(s, 0, seq![Seq::empty()], Seq::empty());
    assert(Seq::<char>::empty() + s.subrange(0, s.len() as int) =~= s);
    assert(seq![Seq::<char>::empty()].update(0, Seq::<char>::empty() + s.subrange(0, s.len() as int))
        =~= seq![s]);
}

fn find_close_paren(v: &[char], i: usize) -> (r: Option<usize>)
    requires
        1 <= i <= v@.len(),
    ensures
        match r {
            Some(k) => close_paren(v@, i as int, 1) == Some(k as int),
            None => close_paren(v@, i as int, 1) is None,
        },
{
    proof {
        lemma_close_paren(v@, i as int, 1);
    }
    let mut depth: usize = 1;
    let mut j = i;
    while j < v.len()
        invariant
            1 <= i <= j <= v@.len(),
            1 <= depth <= j - i + 1,
            close_paren(v@, i as int, 1) == close_paren(v@, j as int, depth as int),
        decreases v.len() - j,
    {
        if v[j] == '(' {
            depth += 1;
        } else if v[j] == ')' {
            depth -= 1;
            if depth == 0 {
                return Some(j);
            }
        }
        j += 1;
    }
    None
}

/// Cuts a word at its `$(...)` command substitutions: the texts around them
/// and the commands, one more text than commands.
pub fn split_command_substitutions(input: &str) -> (r: (Vec<String>, Vec<String>))
    ensures
        views(r.0@) == substitution_parts(input@).0,
        views(r.1@) == substitution_parts(input@).1,
        r.0@.len() == r.1@.len() + 1,
{
    let v = chars_of(input);
    let mut done: Vec<String> = Vec::new();
    let mut cmds: Vec<String> = Vec::new();
    let mut cur = String::new();
    let mut i: usize = 0;
    let ghost total = substitution_parts(input@);
    proof {
        lemma_subst_len(input@, 0, seq![Seq::<char>::empty()], Seq::empty());
        assert(views(done@).push(cur@) =~= seq![Seq::<char>::empty()]);
        assert(views(cmds@) =~= Seq::<Seq<char>>::empty());
    }
    while i < v.len()
        invariant
            i <= v@.len(),
            v@ == input@,
            total == substitution_parts(input@),
            total == subst_acc(v@, i as int, views(done@).push(cur@), views(cmds@)),
            done@.len() == cmds@.len(),
        decreases v.len() - i,
    {
        let ghost texts = views(done@).push(cur@);
        if v[i] == '$' && i + 1 < v.len() && v[i + 1] == '(' {
            proof {
                lemma_close_paren(v@, i + 2, 1);
            }
            let (cmd, next) = match find_close_paren(&v, i + 2) {
                Some(k) => (string_of_range(&v, i + 2, k), k + 1),
                None => (string_of_range(&v, i + 2, v.len()), v.len()),
            };
            let ghost before_cmds = views(cmds@);
            let ghost before_done = views(done@);
            let finished = cur;
            done.push(finished);
            cur = String::new();
            cmds.push(cmd);
            assert(views(done@).push(cur@) =~= texts.push(Seq::empty()));
            assert(views(cmds@) =~= before_cmds.push(cmd@));
            i = next;
        } else {
            let ghost before_done = views(done@);
            push_char(&mut cur, v[i]);
            assert(views(done@).push(cur@) =~= texts.update(texts.len() - 1, texts.last().push(v@[i as int])));
            i += 1;
        }
    }
    done.push(cur);
    proof {
        lemma_subst_len(input@, 0, seq![Seq::<char>::empty()], Seq::empty());
    }
    (done, cmds)
}


/// What the shell reads for an environment variable: the value under that
/// exact name, when it is a string; when no name matches exactly, the first
/// value whose name equals it ignoring ASCII case, when it is a string.
pub open spec fn env_var_value(env: Seq<(String, ArrayValue)>, key: Seq<char>) -> Option<Seq<char>> {
    match env_entry(env, key, false) {
        Some(v) => string_text(Some(v)),
        None => string_text(env_entry(env, key, true)),
    }
}

/// Reads an environment variable of the shell, by its exact name first and
/// then ignoring ASCII case; a list value reads as nothing.
pub fn resolve_env_var(env: &[(String, ArrayValue)], key: &str) -> (r: Option<String>)
    ensures
        match r {
            Some(s) => env_var_value(env@, key@) == Some(s@),
            None => env_var_value(env@, key@) is None,
        },
{
    let k = match entry_index(env, key, false) {
        Some(k) => k,
        None => match entry_index(env, key, true) {
            Some(k) => k,
            None => {
                return None;
            },
        },
    };
    match env[k].1.as_string() {
        Some(s) => Some(owned(s)),
        None => None,
    }
}

/// The environment variable `key` as [`resolve_env_var`] reads it, or
/// `default` when it reads nothing.
pub fn get_env_var(env: &[(String, ArrayValue)], key: &str, default: &str) -> (r: String)
    ensures
        r@ == match env_var_value(env@, key@) {
            Some(v) => v,
            None => default@,
        },
{
    match resolve_env_var(env, key) {
        Some(s) => s,
        None => owned(default),
    }
}


/// The argument holds a wildcard: `*`, `?` or `[`.
pub open spec fn has_wildcard(arg: Seq<char>) -> bool {
    has_char(arg, '*') || has_char(arg, '?') || has_char(arg, '[')
}

/// The argument holds a wildcard.
pub fn is_wildcard(arg: &str) -> (r: bool)
    ensures
        r == has_wildcard(arg@),
{
    let v = chars_of(arg);
    contains_char(&v, '*') || contains_char(&v, '?') || contains_char(&v, '[')
}

/// The glob pattern an argument with a wildcard is matched with: the
/// argument itself when it is absolute, else the argument joined onto the
/// working directory; none for an argument without a wildcard.
pub fn wildcard_pattern(arg: &str, cwd: &str, windows: bool) -> (r: Option<String>)
    ensures
        match r {
            Some(p) => has_wildcard(arg@) && p@ == if absolute(arg@, windows) {
                arg@
            } else {
                joined(cwd@, arg@, windows)
            },
            None => !has_wildcard(arg@),
        },
{
    if is_wildcard(arg) {
        Some(resolve_path(cwd, arg, windows))
    } else {
        None
    }
}

/// The views of the paths a pattern matched, if it was matched.
pub open spec fn opt_views(m: Option<Vec<String>>) -> Option<Seq<Seq<char>>> {
    match m {
        Some(v) => Some(views(v@)),
        None => None,
    }
}

/// What one argument becomes: the paths its wildcard matched, or the
/// argument itself when it has no wildcard, its pattern was refused (no
/// paths) or nothing matched.
pub open spec fn expansion_of(arg: Seq<char>, matched: Option<Seq<Seq<char>>>) -> Seq<Seq<char>> {
    match matched {
        Some(m) => if has_wildcard(arg) && m.len() > 0 {
            m
        } else {
            seq![arg]
        },
        None => seq![arg],
    }
}

/// The arguments with each one's expansion in its place.
pub open spec fn expanded_args(args: Seq<Seq<char>>, matched: Seq<Option<Seq<Seq<char>>>>) -> Seq<
    Seq<char>,
>
    decreases args.len(),
{
    if args.len() == 0 || matched.len() == 0 {
        Seq::empty()
    } else {
        expanded_args(args.drop_last(), matched.drop_last()) + expansion_of(
            args.last(),
            matched.last(),
        )
    }
}

/// Puts in place of each argument with a wildcard the paths its pattern
/// matched (`matched[i]` for `args[i]`, as the caller read them from the
/// file system; none when the pattern was refused), keeping the argument
/// when nothing matched.
pub fn expand_wildcards(args: &[String], matched: &[Option<Vec<String>>]) -> (r: Vec<String>)
    requires
        args@.len() == matched@.len(),
    ensures
        views(r@) == expanded_args(views(args@), matched@.map_values(|m: Option<Vec<String>>| opt_views(m))),
{
    let ghost ms = matched@.map_values(|m: Option<Vec<String>>| opt_views(m));
    let mut out: Vec<String> = Vec::new();
    let mut i: usize = 0;
    while i < args.len()
        invariant
            i <= args@.len(),
            args@.len() == matched@.len(),
            ms == matched@.map_values(|m: Option<Vec<String>>| opt_views(m)),
            views(out@) == expanded_args(views(args@).subrange(0, i as int), ms.subrange(0, i as int)),
        decreases args.len() - i,
    {
        let ghost head = views(out@);
        let ghost a = views(args@).subrange(0, i + 1);
        let ghost m = ms.subrange(0, i + 1);
        assert(a.drop_last() =~= views(args@).subrange(0, i as int));
        assert(m.drop_last() =~= ms.subrange(0, i as int));
        assert(a.last() == args@[i as int]@);
        assert(m.last() == opt_views(matched@[i as int]));
        let mut used = false;
        if is_wildcard(args[i].as_str()) {
            match &matched[i] {
                Some(paths) => {
                    if paths.len() > 0 {
                        let mut k: usize = 0;
                        while k < paths.len()
                            invariant
                                k <= paths@.len(),
                                views(out@) == head + views(paths@).subrange(0, k as int),
                            decreases paths.len() - k,
                        {
                            let ghost before = views(out@);
                            out.push(owned(paths[k].as_str()));
                            assert(views(out@) =~= before.push(paths@[k as int]@));
                            assert(views(paths@).subrange(0, k + 1) =~= views(paths@).subrange(
                                0,
                                k as int,
                            ).push(paths@[k as int]@));
                            k += 1;
                        }
                        assert(views(paths@).subrange(0, k as int) =~= views(paths@));
                        used = true;
                    }
                },
                None => {},
            }
        }
        if !used {
            out.push(owned(args[i].as_str()));
            assert(views(out@) =~= head + seq![args@[i as int]@]);
        }
        assert(views(out@) == expanded_args(a, m));
        i += 1;
    }
    assert(views(args@).subrange(0, i as int) =~= views(args@));
    assert(ms.subrange(0, i as int) =~= ms);
    out
}


/// The word put back together: its first text, then each command's
/// output trimmed of white space followed by the next text.
pub open spec fn assembled(texts: Seq<Seq<char>>, outputs: Seq<Seq<char>>) -> Seq<char>
    decreases outputs.len(),
{
    if outputs.len() == 0 || texts.len() == 0 {
        if texts.len() > 0 {
            texts[0]
        } else {
            Seq::empty()
        }
    } else {
        assembled(texts.drop_last(), outputs.drop_last()) + trim_ws(outputs.last()) + texts.last()
    }
}

/// Puts a word cut by [`split_command_substitutions`] back together with
/// what its commands printed (`outputs[i]` for the `i`-th command).
pub fn assemble_substitutions(texts: &[String], outputs: &[String]) -> (r: String)
    requires
        texts@.len() == outputs@.len() + 1,
    ensures
        r@ == assembled(views(texts@), views(outputs@)),
{
    let mut r = owned(texts[0].as_str());
    let mut i: usize = 0;
    while i < outputs.len()
        invariant
            i <= outputs@.len(),
            texts@.len() == outputs@.len() + 1,
            r@ == assembled(views(texts@).subrange(0, i + 1), views(outputs@).subrange(0, i as int)),
        decreases outputs.len() - i,
    {
        let ghost t = views(texts@).subrange(0, i + 2);
        let ghost o = views(outputs@).subrange(0, i + 1);
        assert(t.drop_last() =~= views(texts@).subrange(0, i + 1));
        assert(o.drop_last() =~= views(outputs@).subrange(0, i as int));
        let out = trim_str(outputs[i].as_str());
        r = r.concat(out.as_str());
        r = r.concat(texts[i + 1].as_str());
        assert(r@ =~= assembled(t, o));
        i += 1;
    }
    assert(views(texts@).subrange(0, i + 1) =~= views(texts@));
    assert(views(outputs@).subrange(0, i as int) =~= views(outputs@));
    r
}

/// The search path with the bundled WinuxCmd directory added: the value of
/// the first variable named `PATH` in any case, as displayed, then `;` and
/// the directory; the directory alone when there is no such variable.
pub open spec fn path_with_dir(env: Seq<(String, ArrayValue)>, dir: Seq<char>) -> Seq<char> {
    match env_entry(env, "PATH"@, true) {
        Some(v) => display_text(v) + ";"@ + dir,
        None => dir,
    }
}

/// The new value of `PATH` once the bundled WinuxCmd directory `dir` is
/// added to it.
pub fn bundled_path(env: &[(String, ArrayValue)], dir: &str) -> (r: String)
    ensures
        r@ == path_with_dir(env@, dir@),
{
    match entry_index(env, "PATH", true) {
        Some(k) => env[k].1.to_string().concat(";").concat(dir),
        None => owned(dir),
    }
}

/// The first path of a search plan that exists (`present[i]` for
/// `plan[i]`).
pub open spec fn first_present(plan: Seq<Seq<char>>, present: Seq<bool>) -> Option<Seq<char>>
    decreases plan.len(),
{
    if plan.len() == 0 || present.len() == 0 {
        None
    } else if present[0] {
        Some(plan[0])
    } else {
        first_present(plan.drop_first(), present.drop_first())
    }
}

/// The WinuxCmd executable found: the first path of
/// [`winuxcmd_search_plan`] that exists, as the caller found them on disk.
pub fn find_in_path(plan: &[String], present: &[bool]) -> (r: Option<String>)
    requires
        plan@.len() == present@.len(),
    ensures
        match r {
            Some(p) => first_present(views(plan@), present@) == Some(p@),
            None => first_present(views(plan@), present@) is None,
        },
{
    assert(views(plan@).subrange(0, plan@.len() as int) =~= views(plan@));
    assert(present@.subrange(0, plan@.len() as int) =~= present@);
    let mut i: usize = 0;
    while i < plan.len()
        invariant
            i <= plan@.len(),
            plan@.len() == present@.len(),
            first_present(views(plan@), present@) == first_present(
                views(plan@).subrange(i as int, plan@.len() as int),
                present@.subrange(i as int, plan@.len() as int),
            ),
        decreases plan.len() - i,
    {
        let ghost p = views(plan@).subrange(i as int, plan@.len() as int);
        let ghost q = present@.subrange(i as int, plan@.len() as int);
        assert(p.drop_first() =~= views(plan@).subrange(i + 1, plan@.len() as int));
        assert(q.drop_first() =~= present@.subrange(i + 1, plan@.len() as int));
        if present[i] {
            return Some(owned(plan[i].as_str()));
        }
        i += 1;
    }
    None
}

/// The prompt's template: the string variable `PROMPT`, else the string
/// variable `PS1` (names matched exactly); none when neither is set, and
/// the theme's prompt is used.
pub open spec fn prompt_format(env: Seq<(String, ArrayValue)>) -> Option<Seq<char>> {
    match string_text(env_entry(env, "PROMPT"@, false)) {
        Some(f) => Some(f),
        None => string_text(env_entry(env, "PS1"@, false)),
    }
}

/// The template the prompt is rendered from, if the shell variables set one.
pub fn prompt_template(env: &[(String, ArrayValue)]) -> (r: Option<String>)
    ensures
        match r {
            Some(f) => prompt_format(env@) == Some(f@),
            None => prompt_format(env@) is None,
        },
{
    match entry_index(env, "PROMPT", false) {
        Some(k) => match env[k].1.as_string() {
            Some(f) => {
                return Some(owned(f));
            },
            None => {},
        },
        None => {},
    }
    match entry_index(env, "PS1", false) {
        Some(k) => match env[k].1.as_string() {
            Some(f) => Some(owned(f)),
            None => None,
        },
        None => None,
    }
}

} // verus!
