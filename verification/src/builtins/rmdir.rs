//! `rmdir`: option parsing and which failures `--ignore-fail-on-non-empty`
//! forgives.
use vstd::prelude::*;
use crate::builtins::opts::{
    arg_is_dashdash, exit_model, exit_with_help, fail_with_help, invalid_text, is_dashdash,
    msg_invalid, msg_unrecognized, unrecognized_text, ArgExit, ExitModel,
};
use crate::text::{
    ascii_lower_text, ascii_lowercase_chars, chars_of, contains_chars, has_infix, has_prefix,
    str_eq, str_starts_with, views,
};

verus! {

/// The options of `rmdir`.
#[derive(Clone, Copy, Debug, Default, PartialEq, Eq, Structural)]
pub struct RmdirOptions {
    pub parents: bool,
    pub verbose: bool,
    pub ignore_fail_on_non_empty: bool,
}

/// The options before any argument is read.
pub open spec fn rmdir_defaults() -> RmdirOptions {
    RmdirOptions { parents: false, verbose: false, ignore_fail_on_non_empty: false }
}

/// The letters `arg[i..]` of a cluster of short options applied in order.
pub open spec fn rmdir_shorts(arg: Seq<char>, i: int, o: RmdirOptions) -> Result<
    RmdirOptions,
    ExitModel,
>
    decreases arg.len() - i,
{
    if i < 0 || i >= arg.len() {
        Ok(o)
    } else if arg[i] == 'p' {
        rmdir_shorts(arg, i + 1, RmdirOptions { parents: true, ..o })
    } else if arg[i] == 'v' {
        rmdir_shorts(arg, i + 1, RmdirOptions { verbose: true, ..o })
    } else {
        Err(fail_with_help(1, "rmdir"@, msg_invalid("rmdir"@, arg[i])))
    }
}

/// The arguments `args[i..]` applied on top of `st` (options and operands).
pub open spec fn rmdir_args(
    args: Seq<Seq<char>>,
    i: int,
    opts: bool,
    st: (RmdirOptions, Seq<Seq<char>>),
) -> Result<(RmdirOptions, Seq<Seq<char>>), ExitModel>
    decreases args.len() - i,
{
    if i < 0 || i >= args.len() {
        Ok(st)
    } else {
        let a = args[i];
        let o = st.0;
        if opts && is_dashdash(a) {
            rmdir_args(args, i + 1, false, st)
        } else if opts && (a == "-h"@ || a == "--help"@) {
            Err(ExitModel::Help)
        } else if opts && (a == "-V"@ || a == "--version"@) {
            Err(ExitModel::Version)
        } else if opts && a == "--ignore-fail-on-non-empty"@ {
            rmdir_args(args, i + 1, opts, (RmdirOptions { ignore_fail_on_non_empty: true, ..o }, st.1))
        } else if opts && a == "--parents"@ {
            rmdir_args(args, i + 1, opts, (RmdirOptions { parents: true, ..o }, st.1))
        } else if opts && a == "--verbose"@ {
            rmdir_args(args, i + 1, opts, (RmdirOptions { verbose: true, ..o }, st.1))
        } else if opts && has_prefix(a, "--"@) {
            Err(fail_with_help(1, "rmdir"@, msg_unrecognized("rmdir"@, a)))
        } else if opts && has_prefix(a, "-"@) && a != "-"@ {
            match rmdir_shorts(a, 1, o) {
                Ok(o2) => rmdir_args(args, i + 1, opts, (o2, st.1)),
                Err(e) => Err(e),
            }
        } else {
            rmdir_args(args, i + 1, opts, (o, st.1.push(a)))
        }
    }
}

/// Applies a cluster of short options such as `-pv`.
fn parse_rmdir_shorts(arg: &str, options: RmdirOptions) -> (r: Result<RmdirOptions, ArgExit>)
    ensures
        match rmdir_shorts(arg@, 1, options) {
            Ok(o) => r == Ok::<RmdirOptions, ArgExit>(o),
            Err(e) => r is Err && exit_model(r->Err_0) == e,
        },
{
    let v = chars_of(arg);
    let mut o = options;
    let mut i: usize = 1;
    if v.len() == 0 {
        return Ok(o);
    }
    while i < v.len()
        invariant
            1 <= i <= v@.len(),
            v@ == arg@,
            rmdir_shorts(arg@, 1, options) == rmdir_shorts(arg@, i as int, o),
        decreases v.len() - i,
    {
        if v[i] == 'p' {
            o = RmdirOptions { parents: true, ..o };
        } else if v[i] == 'v' {
            o = RmdirOptions { verbose: true, ..o };
        } else {
            return Err(exit_with_help(1, "rmdir", invalid_text("rmdir", v[i])));
        }
        i = i + 1;
    }
    Ok(o)
}

/// Parses the arguments of `rmdir` into options and operands.
pub fn parse_rmdir_args(args: &[String]) -> (r: Result<(RmdirOptions, Vec<String>), ArgExit>)
    ensures
        match rmdir_args(views(args@), 0, true, (rmdir_defaults(), Seq::empty())) {
            Ok((o, ops)) => r is Ok && r->Ok_0.0 == o && views(r->Ok_0.1@) == ops,
            Err(e) => r is Err && exit_model(r->Err_0) == e,
        },
{
    let mut options = RmdirOptions { parents: false, verbose: false, ignore_fail_on_non_empty: false };
    let mut operands: Vec<String> = Vec::new();
    let mut parse_options = true;
    let ghost all = views(args@);
    let mut index: usize = 0;
    assert(views(operands@) =~= Seq::<Seq<char>>::empty());
    while index < args.len()
        invariant
            index <= args@.len(),
            all == views(args@),
            rmdir_args(all, 0, true, (rmdir_defaults(), Seq::empty())) == rmdir_args(
                all,
                index as int,
                parse_options,
                (options, views(operands@)),
            ),
        decreases args.len() - index,
    {
        let arg = args[index].as_str();
        assert(all[index as int] == arg@);
        if parse_options && arg_is_dashdash(arg) {
            parse_options = false;
        } else if parse_options && (str_eq(arg, "-h") || str_eq(arg, "--help")) {
            return Err(ArgExit::Help);
        } else if parse_options && (str_eq(arg, "-V") || str_eq(arg, "--version")) {
            return Err(ArgExit::Version);
        } else if parse_options && str_eq(arg, "--ignore-fail-on-non-empty") {
            options = RmdirOptions { ignore_fail_on_non_empty: true, ..options };
        } else if parse_options && str_eq(arg, "--parents") {
            options = RmdirOptions { parents: true, ..options };
        } else if parse_options && str_eq(arg, "--verbose") {
            options = RmdirOptions { verbose: true, ..options };
        } else if parse_options && str_starts_with(arg, "--") {
            return Err(exit_with_help(1, "rmdir", unrecognized_text("rmdir", arg)));
        } else if parse_options && str_starts_with(arg, "-") && !str_eq(arg, "-") {
            options = parse_rmdir_shorts(arg, options)?;
        } else {
            let ghost before = views(operands@);
            operands.push(args[index].clone());
            assert(views(operands@) =~= before.push(arg@));
        }
        index = index + 1;
    }
    Ok((options, operands))
}

/// A failure that says a directory is not empty: OS error 39 or 145, or a
/// message that says "not empty" in any ASCII case.
pub open spec fn not_empty_failure(code: Option<i32>, message: Seq<char>) -> bool {
    (code == Some(39i32) || code == Some(145i32)) || has_infix(ascii_lower_text(message), "not empty"@)
}

/// Whether an error means the directory was not empty.
pub fn directory_not_empty(code: Option<i32>, message: &str) -> (r: bool)
    ensures
        r == not_empty_failure(code, message@),
{
    let os = match code {
        Some(c) => c == 39 || c == 145,
        None => false,
    };
    if os {
        return true;
    }
    let lower = ascii_lowercase_chars(message);
    let p = chars_of("not empty");
    contains_chars(&lower, &p)
}

/// A failure to remove is forgiven under `--ignore-fail-on-non-empty` when
/// the directory was not empty.
pub fn failure_ignored(options: &RmdirOptions, not_empty: bool) -> (r: bool)
    ensures
        r == (options.ignore_fail_on_non_empty && not_empty),
{
    options.ignore_fail_on_non_empty && not_empty
}

} // verus!
