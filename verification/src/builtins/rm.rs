//! `rm`: option parsing, long-option abbreviations, the `--interactive`
//! values, and the path checks made before anything is removed.
use vstd::prelude::*;
use crate::builtins::opts::{
    arg_is_dashdash, exit_model, exit_with_help, exit_with_line, fail_with_help, is_dashdash,
    long_parts, msg_no_value, msg_unrecognized, no_value_text, split_long_option,
    unrecognized_text, ArgExit, ExitModel,
};
use crate::text::{
    chars_of, has_prefix, nat_text, opt_view, owned, str_eq, str_starts_with, string_of,
    string_of_range, trim_str, trim_ws, u64_text, views,
};

verus! {

/// When `rm` asks before removing.
#[derive(Clone, Copy, Debug, PartialEq, Eq, Structural)]
pub enum InteractiveMode {
    Never,
    Once,
    Always,
    PromptProtected,
}

/// The options of `rm`.
#[derive(Clone, Copy, Debug, PartialEq, Eq, Structural)]
pub struct RmOptions {
    pub force: bool,
    pub interactive: InteractiveMode,
    pub one_file_system: bool,
    pub preserve_root: bool,
    pub preserve_root_all: bool,
    pub recursive: bool,
    pub dir: bool,
    pub verbose: bool,
    pub progress: bool,
}

/// The options before any argument is read.
pub open spec fn rm_defaults() -> RmOptions {
    RmOptions {
        force: false,
        interactive: InteractiveMode::PromptProtected,
        one_file_system: false,
        preserve_root: true,
        preserve_root_all: false,
        recursive: false,
        dir: false,
        verbose: false,
        progress: false,
    }
}

impl Default for RmOptions {
    fn default() -> (r: Self)
        ensures
            r == rm_defaults(),
    {
        RmOptions {
            force: false,
            interactive: InteractiveMode::PromptProtected,
            one_file_system: false,
            preserve_root: true,
            preserve_root_all: false,
            recursive: false,
            dir: false,
            verbose: false,
            progress: false,
        }
    }
}

/// The long option names of `rm`, in the order abbreviations are resolved.
pub open spec fn rm_long_names() -> Seq<Seq<char>> {
    seq![
        "force"@,
        "interactive"@,
        "one-file-system"@,
        "preserve-root"@,
        "no-preserve-root"@,
        "recursive"@,
        "dir"@,
        "verbose"@,
        "progress"@,
    ]
}

/// The long option names as strings.
fn rm_long_option_names() -> (r: Vec<String>)
    ensures
        views(r@) == rm_long_names(),
{
    let mut r: Vec<String> = Vec::new();
    r.push(owned("force"));
    r.push(owned("interactive"));
    r.push(owned("one-file-system"));
    r.push(owned("preserve-root"));
    r.push(owned("no-preserve-root"));
    r.push(owned("recursive"));
    r.push(owned("dir"));
    r.push(owned("verbose"));
    r.push(owned("progress"));
    assert(views(r@) =~= rm_long_names());
    r
}

/// The first index at or after `from` whose name starts with `name`.
pub open spec fn first_prefixed(names: Seq<Seq<char>>, name: Seq<char>, from: int) -> Option<int>
    decreases names.len() - from,
{
    if from < 0 || from >= names.len() {
        None
    } else if has_prefix(names[from], name) {
        Some(from)
    } else {
        first_prefixed(names, name, from + 1)
    }
}

/// A name found at or after `from` lies inside the list.
pub proof fn lemma_first_prefixed_range(names: Seq<Seq<char>>, name: Seq<char>, from: int)
    ensures
        first_prefixed(names, name, from) matches Some(i) ==> from <= i < names.len(),
    decreases names.len() - from,
{
    if 0 <= from < names.len() && !has_prefix(names[from], name) {
        lemma_first_prefixed_range(names, name, from + 1);
    }
}

/// The index of the only name that starts with `name`, if exactly one does.
pub open spec fn unique_prefixed(names: Seq<Seq<char>>, name: Seq<char>) -> Option<int> {
    match first_prefixed(names, name, 0) {
        Some(i) => if first_prefixed(names, name, i + 1) is None {
            Some(i)
        } else {
            None
        },
        None => None,
    }
}

/// Resolves a possibly abbreviated long option name to its index in
/// `rm_long_names()`.
pub fn unique_long_option(name: &str) -> (r: Option<usize>)
    ensures
        match unique_prefixed(rm_long_names(), name@) {
            Some(i) => r == Some(i as usize) && 0 <= i < rm_long_names().len(),
            None => r is None,
        },
{
    proof {
        lemma_first_prefixed_range(rm_long_names(), name@, 0);
    }
    let names = rm_long_option_names();
    let ghost ns = rm_long_names();
    let mut first: Option<usize> = None;
    let mut second = false;
    let mut k: usize = 0;
    while k < names.len()
        invariant
            k <= names@.len(),
            views(names@) == ns,
            ns == rm_long_names(),
            first is None ==> !second && first_prefixed(ns, name@, 0) == first_prefixed(
                ns,
                name@,
                k as int,
            ),
            first matches Some(i) ==> {
                &&& first_prefixed(ns, name@, 0) == Some(i as int)
                &&& i < k
                &&& !second ==> first_prefixed(ns, name@, i + 1) == first_prefixed(ns, name@, k as int)
                &&& second ==> first_prefixed(ns, name@, i + 1) is Some
            },
        decreases names.len() - k,
    {
        assert(ns[k as int] == names@[k as int]@);
        assert(first_prefixed(ns, name@, k as int) == if has_prefix(ns[k as int], name@) {
            Some(k as int)
        } else {
            first_prefixed(ns, name@, k + 1)
        });
        if str_starts_with(names[k].as_str(), name) {
            match first {
                None => {
                    first = Some(k);
                },
                Some(_) => {
                    second = true;
                },
            }
        }
        k = k + 1;
    }
    match first {
        Some(i) => if second {
            None
        } else {
            Some(i)
        },
        None => None,
    }
}

/// What `--interactive=VALUE` selects, or the error for a value that names
/// no mode or more than one.
pub open spec fn interactive_of(v: Seq<char>) -> Result<InteractiveMode, ExitModel> {
    if v == "always"@ || v == "yes"@ {
        Ok(InteractiveMode::Always)
    } else if v == "once"@ {
        Ok(InteractiveMode::Once)
    } else if v == "never"@ || v == "no"@ || v == "none"@ {
        Ok(InteractiveMode::Never)
    } else {
        let a = has_prefix("always"@, v);
        let o = has_prefix("once"@, v);
        let n = has_prefix("never"@, v);
        if !a && !o && !n {
            Err(ExitModel::Error(2, seq!["rm: invalid argument '"@ + v + "' for '--interactive'"@]))
        } else if (a && o) || (a && n) || (o && n) {
            Err(ExitModel::Error(2, seq!["rm: ambiguous argument '"@ + v + "' for '--interactive'"@]))
        } else if a {
            Ok(InteractiveMode::Always)
        } else if o {
            Ok(InteractiveMode::Once)
        } else {
            Ok(InteractiveMode::Never)
        }
    }
}

/// Reads the value of `--interactive`: a full name or a synonym, or an
/// unambiguous prefix of `always`, `once` or `never`.
pub fn parse_interactive_value(value: &str) -> (r: Result<InteractiveMode, ArgExit>)
    ensures
        match interactive_of(value@) {
            Ok(m) => r == Ok::<InteractiveMode, ArgExit>(m),
            Err(e) => r is Err && exit_model(r->Err_0) == e,
        },
{
    if str_eq(value, "always") || str_eq(value, "yes") {
        return Ok(InteractiveMode::Always);
    }
    if str_eq(value, "once") {
        return Ok(InteractiveMode::Once);
    }
    if str_eq(value, "never") || str_eq(value, "no") || str_eq(value, "none") {
        return Ok(InteractiveMode::Never);
    }
    let a = str_starts_with("always", value);
    let o = str_starts_with("once", value);
    let n = str_starts_with("never", value);
    if !a && !o && !n {
        return Err(
            exit_with_line(
                2,
                owned("rm: invalid argument '").concat(value).concat("' for '--interactive'"),
            ),
        );
    }
    if (a && o) || (a && n) || (o && n) {
        return Err(
            exit_with_line(
                2,
                owned("rm: ambiguous argument '").concat(value).concat("' for '--interactive'"),
            ),
        );
    }
    if a {
        Ok(InteractiveMode::Always)
    } else if o {
        Ok(InteractiveMode::Once)
    } else {
        Ok(InteractiveMode::Never)
    }
}

/// The error for a value given to a long option of `rm` that takes none.
pub open spec fn rm_no_value(arg: Seq<char>) -> ExitModel {
    ExitModel::Error(2, seq![msg_no_value("rm"@, arg)])
}

/// The effect of the long option with index `k` in `rm_long_names()`.
pub open spec fn rm_long_apply(
    k: int,
    arg: Seq<char>,
    value: Option<Seq<char>>,
    o: RmOptions,
) -> Result<RmOptions, ExitModel> {
    if k == 1 {
        match interactive_of(
            match value {
                Some(v) => v,
                None => "always"@,
            },
        ) {
            Ok(m) => Ok(RmOptions { interactive: m, ..o }),
            Err(e) => Err(e),
        }
    } else if k == 3 {
        match value {
            None => Ok(RmOptions { preserve_root: true, preserve_root_all: false, ..o }),
            Some(v) => if v == "all"@ {
                Ok(RmOptions { preserve_root: true, preserve_root_all: true, ..o })
            } else {
                Err(
                    ExitModel::Error(
                        2,
                        seq!["rm: invalid argument '"@ + v + "' for '--preserve-root'"@],
                    ),
                )
            },
        }
    } else if value is Some {
        Err(rm_no_value(arg))
    } else if k == 0 {
        Ok(RmOptions { force: true, interactive: InteractiveMode::Never, ..o })
    } else if k == 2 {
        Ok(RmOptions { one_file_system: true, ..o })
    } else if k == 4 {
        Ok(RmOptions { preserve_root: false, preserve_root_all: false, ..o })
    } else if k == 5 {
        Ok(RmOptions { recursive: true, ..o })
    } else if k == 6 {
        Ok(RmOptions { dir: true, ..o })
    } else if k == 7 {
        Ok(RmOptions { verbose: true, ..o })
    } else {
        Ok(RmOptions { progress: true, ..o })
    }
}

/// The effect of one argument that starts with `--` (and is not `--`).
pub open spec fn rm_long(arg: Seq<char>, o: RmOptions) -> Result<RmOptions, ExitModel> {
    if arg == "--help"@ {
        Err(ExitModel::Help)
    } else if arg == "--version"@ {
        Err(ExitModel::Version)
    } else {
        let name = long_parts(arg).0;
        if has_prefix("no-preserve-root"@, name) && name != "no-preserve-root"@ {
            Err(
                ExitModel::Error(
                    2,
                    seq!["rm: option '--no-preserve-root' may not be abbreviated"@],
                ),
            )
        } else {
            match unique_prefixed(rm_long_names(), name) {
                None => Err(fail_with_help(2, "rm"@, msg_unrecognized("rm"@, arg))),
                Some(k) => rm_long_apply(k, arg, long_parts(arg).1, o),
            }
        }
    }
}

/// Applies one long option of `rm`.
pub fn parse_rm_long_option(arg: &str, options: &mut RmOptions) -> (r: Result<(), ArgExit>)
    ensures
        match rm_long(arg@, *old(options)) {
            Ok(o) => r is Ok && *final(options) == o,
            Err(e) => r is Err && exit_model(r->Err_0) == e,
        },
{
    if str_eq(arg, "--help") {
        return Err(ArgExit::Help);
    }
    if str_eq(arg, "--version") {
        return Err(ArgExit::Version);
    }
    let (name, value) = split_long_option(arg);
    let abbreviated = str_starts_with("no-preserve-root", name.as_str()) && !str_eq(
        name.as_str(),
        "no-preserve-root",
    );
    if abbreviated {
        return Err(
            exit_with_line(2, owned("rm: option '--no-preserve-root' may not be abbreviated")),
        );
    }
    match unique_long_option(name.as_str()) {
        Some(k) => apply_rm_long(k, arg, &value, options),
        None => Err(exit_with_help(2, "rm", unrecognized_text("rm", arg))),
    }
}

/// Applies the long option with index `k` in `rm_long_names()`.
#[verifier::spinoff_prover]
#[verifier::rlimit(40)]
fn apply_rm_long(k: usize, arg: &str, value: &Option<String>, options: &mut RmOptions) -> (r: Result<
    (),
    ArgExit,
>)
    ensures
        match rm_long_apply(k as int, arg@, opt_view(*value), *old(options)) {
            Ok(o) => r is Ok && *final(options) == o,
            Err(e) => r is Err && exit_model(r->Err_0) == e,
        },
{
    if k == 1 {
        let parsed = match value {
            Some(v) => parse_interactive_value(v.as_str()),
            None => parse_interactive_value("always"),
        };
        match parsed {
            Ok(mode) => {
                options.interactive = mode;
                return Ok(());
            },
            Err(e) => {
                return Err(e);
            },
        }
    }
    if k == 3 {
        match value {
            None => {
                options.preserve_root = true;
                options.preserve_root_all = false;
            },
            Some(v) => {
                if str_eq(v.as_str(), "all") {
                    options.preserve_root = true;
                    options.preserve_root_all = true;
                } else {
                    let line = owned("rm: invalid argument '").concat(v.as_str()).concat(
                        "' for '--preserve-root'",
                    );
                    assert(line@ =~= "rm: invalid argument '"@ + v@ + "' for '--preserve-root'"@);
                    return Err(exit_with_line(2, line));
                }
            },
        }
        return Ok(());
    }
    if value.is_some() {
        return Err(exit_with_line(2, no_value_text("rm", arg)));
    }
    if k == 0 {
        options.force = true;
        options.interactive = InteractiveMode::Never;
    } else if k == 2 {
        options.one_file_system = true;
    } else if k == 4 {
        options.preserve_root = false;
        options.preserve_root_all = false;
    } else if k == 5 {
        options.recursive = true;
    } else if k == 6 {
        options.dir = true;
    } else if k == 7 {
        options.verbose = true;
    } else {
        options.progress = true;
    }
    Ok(())
}

/// The effect of one short option letter, or `None` for an unknown letter.
pub open spec fn rm_short(c: char, o: RmOptions) -> Option<RmOptions> {
    if c == 'f' {
        Some(RmOptions { force: true, interactive: InteractiveMode::Never, ..o })
    } else if c == 'i' {
        Some(RmOptions { interactive: InteractiveMode::Always, ..o })
    } else if c == 'I' {
        Some(RmOptions { interactive: InteractiveMode::Once, ..o })
    } else if c == 'r' || c == 'R' {
        Some(RmOptions { recursive: true, ..o })
    } else if c == 'd' {
        Some(RmOptions { dir: true, ..o })
    } else if c == 'v' {
        Some(RmOptions { verbose: true, ..o })
    } else if c == 'g' {
        Some(RmOptions { progress: true, ..o })
    } else {
        None
    }
}

/// The letters `arg[i..]` of a cluster of short options applied in order.
pub open spec fn rm_shorts(arg: Seq<char>, i: int, o: RmOptions) -> Result<RmOptions, ExitModel>
    decreases arg.len() - i,
{
    if i < 0 || i >= arg.len() {
        Ok(o)
    } else {
        match rm_short(arg[i], o) {
            Some(o2) => rm_shorts(arg, i + 1, o2),
            None => Err(ExitModel::InvalidOptionOrFile(arg[i], arg)),
        }
    }
}

/// Applies a cluster of short options such as `-rf`.
pub fn parse_rm_short_options(arg: &str, options: &mut RmOptions) -> (r: Result<(), ArgExit>)
    ensures
        match rm_shorts(arg@, 1, *old(options)) {
            Ok(o) => r is Ok && *final(options) == o,
            Err(e) => r is Err && exit_model(r->Err_0) == e,
        },
{
    let v = chars_of(arg);
    if v.len() == 0 {
        return Ok(());
    }
    let mut i: usize = 1;
    while i < v.len()
        invariant
            1 <= i <= v@.len(),
            v@ == arg@,
            rm_shorts(arg@, 1, *old(options)) == rm_shorts(arg@, i as int, *options),
        decreases v.len() - i,
    {
        let c = v[i];
        if c == 'f' {
            options.force = true;
            options.interactive = InteractiveMode::Never;
        } else if c == 'i' {
            options.interactive = InteractiveMode::Always;
        } else if c == 'I' {
            options.interactive = InteractiveMode::Once;
        } else if c == 'r' || c == 'R' {
            options.recursive = true;
        } else if c == 'd' {
            options.dir = true;
        } else if c == 'v' {
            options.verbose = true;
        } else if c == 'g' {
            options.progress = true;
        } else {
            return Err(ArgExit::InvalidOptionOrFile { option: c, arg: owned(arg) });
        }
        i = i + 1;
    }
    Ok(())
}

/// The arguments `args[i..]` applied on top of `st` (options and operands).
pub open spec fn rm_args(
    args: Seq<Seq<char>>,
    i: int,
    opts: bool,
    st: (RmOptions, Seq<Seq<char>>),
) -> Result<(RmOptions, Seq<Seq<char>>), ExitModel>
    decreases args.len() - i,
{
    if i < 0 || i >= args.len() {
        Ok(st)
    } else {
        let a = args[i];
        if opts && is_dashdash(a) {
            rm_args(args, i + 1, false, st)
        } else if opts && has_prefix(a, "--"@) {
            match rm_long(a, st.0) {
                Ok(o) => rm_args(args, i + 1, opts, (o, st.1)),
                Err(e) => Err(e),
            }
        } else if opts && has_prefix(a, "-"@) && a != "-"@ {
            match rm_shorts(a, 1, st.0) {
                Ok(o) => rm_args(args, i + 1, opts, (o, st.1)),
                Err(e) => Err(e),
            }
        } else {
            rm_args(args, i + 1, opts, (st.0, st.1.push(a)))
        }
    }
}

/// Parses the arguments of `rm` into options and operands.
pub fn parse_rm_args(args: &[String]) -> (r: Result<(RmOptions, Vec<String>), ArgExit>)
    ensures
        match rm_args(views(args@), 0, true, (rm_defaults(), Seq::empty())) {
            Ok((o, ops)) => r is Ok && r->Ok_0.0 == o && views(r->Ok_0.1@) == ops,
            Err(e) => r is Err && exit_model(r->Err_0) == e,
        },
{
    let mut options = RmOptions::default();
    let mut operands: Vec<String> = Vec::new();
    let mut parse_options = true;
    let ghost all = views(args@);
    let mut index: usize = 0;
    assert(views(operands@) =~= Seq::<Seq<char>>::empty());
    while index < args.len()
        invariant
            index <= args@.len(),
            all == views(args@),
            rm_args(all, 0, true, (rm_defaults(), Seq::empty())) == rm_args(
                all,
                index as int,
                parse_options,
                (options, views(operands@)),
            ),
        decreases args.len() - index,
    {
        let arg = args[index].as_str();
        assert(all[index as int] == arg@);
        if parse_options && arg_is_dashdash(arg) {
            parse_options = false;
            index = index + 1;
            continue;
        }
        if parse_options && str_starts_with(arg, "--") {
            parse_rm_long_option(arg, &mut options)?;
            index = index + 1;
            continue;
        }
        if parse_options && str_starts_with(arg, "-") && !str_eq(arg, "-") {
            parse_rm_short_options(arg, &mut options)?;
            index = index + 1;
            continue;
        }
        let ghost before = views(operands@);
        operands.push(args[index].clone());
        assert(views(operands@) =~= before.push(arg@));
        index = index + 1;
    }
    Ok((options, operands))
}

/// A path separator: `/` or `\\`.
pub open spec fn is_sep(c: char) -> bool {
    c == '/' || c == '\\'
}

/// `s` without its trailing separators, keeping at least one character.
pub open spec fn strip_trailing_seps(s: Seq<char>) -> Seq<char>
    decreases s.len(),
{
    if s.len() > 1 && is_sep(s.last()) {
        strip_trailing_seps(s.drop_last())
    } else {
        s
    }
}

/// Removes trailing separators, keeping at least one character.
pub fn clean_trailing_separators(path: &str) -> (r: String)
    ensures
        r@ == strip_trailing_seps(path@),
{
    let v = chars_of(path);
    let mut end = v.len();
    assert(v@.subrange(0, end as int) =~= v@);
    while end > 1 && (v[end - 1] == '/' || v[end - 1] == '\\')
        invariant
            end <= v@.len(),
            v@ == path@,
            strip_trailing_seps(path@) == strip_trailing_seps(v@.subrange(0, end as int)),
        decreases end,
    {
        assert(v@.subrange(0, end as int).drop_last() =~= v@.subrange(0, end - 1));
        end = end - 1;
    }
    string_of_range(&v, 0, end)
}

/// The part of `s` after its last separator (all of `s` if it has none).
pub open spec fn last_segment(s: Seq<char>) -> Seq<char>
    decreases s.len(),
{
    if s.len() == 0 {
        s
    } else if is_sep(s.last()) {
        Seq::empty()
    } else {
        last_segment(s.drop_last()).push(s.last())
    }
}

/// The last component of `path`, after trailing separators are removed, is
/// `.` or `..`.
pub open spec fn names_dot_dir(path: Seq<char>) -> bool {
    let b = last_segment(strip_trailing_seps(path));
    b == "."@ || b == ".."@
}

/// Whether the operand names the current or the parent directory.
pub fn path_is_current_or_parent_directory(path: &str) -> (r: bool)
    ensures
        r == names_dot_dir(path@),
{
    let trimmed = clean_trailing_separators(path);
    let v = chars_of(trimmed.as_str());
    let mut seg: Vec<char> = Vec::new();
    let mut i: usize = 0;
    assert(v@.subrange(0, 0) =~= Seq::<char>::empty());
    while i < v.len()
        invariant
            i <= v@.len(),
            seg@ == last_segment(v@.subrange(0, i as int)),
        decreases v.len() - i,
    {
        assert(v@.subrange(0, i + 1).drop_last() =~= v@.subrange(0, i as int));
        let c = v[i];
        if c == '/' || c == '\\' {
            seg = Vec::new();
            assert(seg@ =~= Seq::<char>::empty());
        } else {
            seg.push(c);
        }
        i = i + 1;
    }
    assert(v@.subrange(0, v@.len() as int) =~= v@);
    let s = string_of(&seg);
    str_eq(s.as_str(), ".") || str_eq(s.as_str(), "..")
}

/// How `rm` ends when it was given no operand, if it was given none.
pub open spec fn operands_check(o: RmOptions, count: int) -> Option<ExitModel> {
    if count > 0 {
        None
    } else if o.force {
        Some(ExitModel::Error(0, Seq::empty()))
    } else {
        Some(fail_with_help(1, "rm"@, "rm: missing operand"@))
    }
}

/// With no operand, `rm -f` succeeds silently and `rm` fails with
/// `rm: missing operand`.
pub fn check_operands(options: &RmOptions, count: usize) -> (r: Result<(), ArgExit>)
    ensures
        match operands_check(*options, count as int) {
            None => r is Ok,
            Some(e) => r is Err && exit_model(r->Err_0) == e,
        },
{
    if count > 0 {
        return Ok(());
    }
    if options.force {
        let lines: Vec<String> = Vec::new();
        assert(views(lines@) =~= Seq::<Seq<char>>::empty());
        return Err(ArgExit::Error { code: 0, lines });
    }
    Err(exit_with_help(1, "rm", owned("rm: missing operand")))
}

/// The question asked once before a recursive or bulk removal under `-I`.
pub open spec fn bulk_question(o: RmOptions, count: nat) -> Option<Seq<char>> {
    if o.interactive == InteractiveMode::Once && (o.recursive || count > 3) {
        Some(
            "rm: remove "@ + nat_text(count) + (if count == 1 {
                " argument"@
            } else {
                " arguments"@
            }) + (if o.recursive {
                " recursively"@
            } else {
                ""@
            }) + "? "@,
        )
    } else {
        None
    }
}

/// The question `rm -I` asks before it starts, if it asks one.
pub fn bulk_prompt(options: &RmOptions, count: usize) -> (r: Option<String>)
    ensures
        opt_view(r) == bulk_question(*options, count as nat),
{
    if options.interactive == InteractiveMode::Once && (options.recursive || count > 3) {
        let noun = if count == 1 {
            " argument"
        } else {
            " arguments"
        };
        let suffix = if options.recursive {
            " recursively"
        } else {
            ""
        };
        let q = owned("rm: remove ").concat(u64_text(count as u64).as_str()).concat(noun).concat(
            suffix,
        ).concat("? ");
        Some(q)
    } else {
        None
    }
}

/// What `rm` does with an operand that is a directory.
#[derive(Clone, Copy, Debug, PartialEq, Eq, Structural)]
pub enum DirAction {
    /// Refuse: the root is protected.
    RefuseRoot,
    /// Remove the directory and everything in it.
    RemoveTree,
    /// Remove the directory if it is empty.
    RemoveEmpty,
    /// Refuse: `Is a directory`.
    IsADirectory,
}

/// The action for a directory operand; `is_root` tells whether it is the
/// root of a file system.
pub open spec fn dir_action(o: RmOptions, is_root: bool) -> DirAction {
    if is_root && o.preserve_root {
        DirAction::RefuseRoot
    } else if o.recursive {
        DirAction::RemoveTree
    } else if o.dir {
        DirAction::RemoveEmpty
    } else {
        DirAction::IsADirectory
    }
}

/// Decides what to do with a directory operand.
pub fn directory_action(options: &RmOptions, is_root: bool) -> (r: DirAction)
    ensures
        r == dir_action(*options, is_root),
{
    if is_root && options.preserve_root {
        DirAction::RefuseRoot
    } else if options.recursive {
        DirAction::RemoveTree
    } else if options.dir {
        DirAction::RemoveEmpty
    } else {
        DirAction::IsADirectory
    }
}

/// The question asked before a directory is removed, if one is asked.
pub fn directory_prompt(options: &RmOptions, display: &str) -> (r: Option<String>)
    ensures
        opt_view(r) == if options.interactive == InteractiveMode::Always {
            Some("rm: remove directory '"@ + display@ + "'? "@)
        } else {
            None::<Seq<char>>
        },
{
    if options.interactive == InteractiveMode::Always {
        Some(owned("rm: remove directory '").concat(display).concat("'? "))
    } else {
        None
    }
}

/// What `rm` does with an operand that is not a directory.
#[derive(Debug, PartialEq, Eq)]
pub enum FileStep {
    /// Remove it without asking.
    Remove,
    /// Leave it in place.
    Skip,
    /// Ask this question, and remove it on a yes.
    Ask(String),
}

/// The step for a file operand, from the options, whether standard input is
/// a terminal, whether the file is write-protected and whether the resolved
/// path is empty.
pub open spec fn file_step(
    o: RmOptions,
    display: Seq<char>,
    terminal: bool,
    write_protected: bool,
    target_empty: bool,
) -> Option<Option<Seq<char>>> {
    match o.interactive {
        InteractiveMode::Never => Some(None),
        InteractiveMode::Once => Some(None),
        InteractiveMode::Always => Some(Some("rm: remove file '"@ + display + "'? "@)),
        InteractiveMode::PromptProtected => if terminal && write_protected {
            Some(Some("rm: remove write-protected file '"@ + display + "'? "@))
        } else if target_empty {
            None
        } else {
            Some(None)
        },
    }
}

/// `FileStep` as plain values: `None` to skip, `Some(None)` to remove,
/// `Some(Some(q))` to ask `q`.
pub open spec fn file_step_model(s: FileStep) -> Option<Option<Seq<char>>> {
    match s {
        FileStep::Remove => Some(None),
        FileStep::Skip => None,
        FileStep::Ask(q) => Some(Some(q@)),
    }
}

/// Decides whether to remove a file operand, skip it, or ask first.
pub fn file_prompt(
    options: &RmOptions,
    display: &str,
    terminal: bool,
    write_protected: bool,
    target_empty: bool,
) -> (r: FileStep)
    ensures
        file_step_model(r) == file_step(*options, display@, terminal, write_protected, target_empty),
{
    match options.interactive {
        InteractiveMode::Never => FileStep::Remove,
        InteractiveMode::Once => FileStep::Remove,
        InteractiveMode::Always => FileStep::Ask(
            owned("rm: remove file '").concat(display).concat("'? "),
        ),
        InteractiveMode::PromptProtected => {
            if terminal && write_protected {
                FileStep::Ask(owned("rm: remove write-protected file '").concat(display).concat("'? "))
            } else if target_empty {
                FileStep::Skip
            } else {
                FileStep::Remove
            }
        },
    }
}

/// The answers that count as yes, after surrounding whitespace is trimmed.
pub open spec fn is_yes(answer: Seq<char>) -> bool {
    let t = trim_ws(answer);
    t == "y"@ || t == "Y"@ || t == "yes"@ || t == "YES"@ || t == "Yes"@
}

/// Whether an answer read from the terminal says yes.
pub fn answer_is_yes(answer: &str) -> (r: bool)
    ensures
        r == is_yes(answer@),
{
    let t = trim_str(answer);
    let t = t.as_str();
    str_eq(t, "y") || str_eq(t, "Y") || str_eq(t, "yes") || str_eq(t, "YES") || str_eq(t, "Yes")
}

} // verus!
