//! `mkdir`: option parsing and the per-directory decisions.
use vstd::prelude::*;
use crate::builtins::opts::{
    arg_is_dashdash, exit_model, exit_with_help, fail_with_help, invalid_text, is_dashdash,
    long_parts, long_value, msg_invalid, msg_unrecognized, no_value_exit, no_value_text,
    short_value, split_long_option, take_long_value, take_short_value, unrecognized_text, ArgExit,
    ExitModel,
};
use crate::text::{chars_of, has_prefix, opt_view, owned, str_eq, str_starts_with, views};

verus! {

/// The options of `mkdir`.
#[derive(Debug, PartialEq, Eq)]
pub struct MkdirOptions {
    pub parents: bool,
    pub verbose: bool,
    pub mode: Option<String>,
    pub context: Option<String>,
}

/// `MkdirOptions` as plain values.
pub struct MkdirModel {
    pub parents: bool,
    pub verbose: bool,
    pub mode: Option<Seq<char>>,
    pub context: Option<Seq<char>>,
}

/// The plain-value form of the options.
pub open spec fn mkdir_model(o: MkdirOptions) -> MkdirModel {
    MkdirModel {
        parents: o.parents,
        verbose: o.verbose,
        mode: opt_view(o.mode),
        context: opt_view(o.context),
    }
}

/// The options before any argument is read.
pub open spec fn mkdir_defaults() -> MkdirModel {
    MkdirModel { parents: false, verbose: false, mode: None, context: None }
}

impl Default for MkdirOptions {
    fn default() -> (r: Self)
        ensures
            mkdir_model(r) == mkdir_defaults(),
    {
        MkdirOptions { parents: false, verbose: false, mode: None, context: None }
    }
}

/// The effect of one long option at `args[i]`: the new options, and whether
/// it also used the next argument as its value. `--context` takes only an
/// inline value.
pub open spec fn mkdir_long(arg: Seq<char>, args: Seq<Seq<char>>, i: int, o: MkdirModel) -> Result<
    (MkdirModel, bool),
    ExitModel,
> {
    let name = long_parts(arg).0;
    let value = long_parts(arg).1;
    if name == "parents"@ || name == "verbose"@ {
        if value is Some {
            Err(no_value_exit(1, "mkdir"@, arg))
        } else if name == "parents"@ {
            Ok((MkdirModel { parents: true, ..o }, false))
        } else {
            Ok((MkdirModel { verbose: true, ..o }, false))
        }
    } else if name == "mode"@ {
        match long_value("mkdir"@, arg, value, args, i) {
            Ok((v, next)) => Ok((MkdirModel { mode: Some(v), ..o }, next == i + 2)),
            Err(e) => Err(e),
        }
    } else if name == "context"@ {
        Ok(
            (
                MkdirModel {
                    context: Some(
                        match value {
                            Some(v) => v,
                            None => Seq::empty(),
                        },
                    ),
                    ..o
                },
                false,
            ),
        )
    } else {
        Err(fail_with_help(1, "mkdir"@, msg_unrecognized("mkdir"@, arg)))
    }
}

/// Applies the long option `arg` found at `args[index]`; returns the new
/// options and the index after the option and any value it took.
pub fn parse_mkdir_long_option(arg: &str, args: &[String], index: usize, options: MkdirOptions) -> (r:
    Result<(MkdirOptions, usize), ArgExit>)
    requires
        index < args.len(),
    ensures
        match mkdir_long(arg@, views(args@), index as int, mkdir_model(options)) {
            Ok((o, extra)) => r matches Ok((op, next)) && mkdir_model(op) == o && next == index
                + if extra {
                2int
            } else {
                1int
            },
            Err(e) => r is Err && exit_model(r->Err_0) == e,
        },
{
    let (name, value) = split_long_option(arg);
    let n = name.as_str();
    if str_eq(n, "parents") || str_eq(n, "verbose") {
        if value.is_some() {
            return Err(exit_with_help(1, "mkdir", no_value_text("mkdir", arg)));
        }
        if str_eq(n, "parents") {
            return Ok((MkdirOptions { parents: true, ..options }, index + 1));
        } else {
            return Ok((MkdirOptions { verbose: true, ..options }, index + 1));
        }
    }
    if str_eq(n, "mode") {
        let mut next = index;
        return match take_long_value("mkdir", arg, value, args, &mut next) {
            Ok(v) => Ok((MkdirOptions { mode: Some(v), ..options }, next)),
            Err(e) => Err(e),
        };
    }
    if str_eq(n, "context") {
        let c = match value {
            Some(v) => v,
            None => String::new(),
        };
        return Ok((MkdirOptions { context: Some(c), ..options }, index + 1));
    }
    Err(exit_with_help(1, "mkdir", unrecognized_text("mkdir", arg)))
}

/// The letters `arg[pos..]` of a short-option cluster at `args[i]` applied
/// in order; `-m` takes the rest of the cluster as its value, or the next
/// argument, and ends the cluster.
pub open spec fn mkdir_shorts(
    arg: Seq<char>,
    pos: int,
    args: Seq<Seq<char>>,
    i: int,
    o: MkdirModel,
) -> Result<(MkdirModel, bool), ExitModel>
    decreases arg.len() - pos,
{
    if pos < 0 || pos >= arg.len() {
        Ok((o, false))
    } else {
        let c = arg[pos];
        if c == 'p' {
            mkdir_shorts(arg, pos + 1, args, i, MkdirModel { parents: true, ..o })
        } else if c == 'v' {
            mkdir_shorts(arg, pos + 1, args, i, MkdirModel { verbose: true, ..o })
        } else if c == 'Z' {
            mkdir_shorts(arg, pos + 1, args, i, MkdirModel { context: Some(Seq::empty()), ..o })
        } else if c == 'm' {
            match short_value("mkdir"@, arg, pos, args, i) {
                Ok((v, extra)) => Ok((MkdirModel { mode: Some(v), ..o }, extra)),
                Err(e) => Err(e),
            }
        } else {
            Err(fail_with_help(1, "mkdir"@, msg_invalid("mkdir"@, c)))
        }
    }
}

/// A cluster uses the next argument only when there is one.
pub proof fn lemma_mkdir_shorts_extra(
    arg: Seq<char>,
    pos: int,
    args: Seq<Seq<char>>,
    i: int,
    o: MkdirModel,
)
    ensures
        mkdir_shorts(arg, pos, args, i, o) matches Ok((_, extra)) ==> (extra ==> i + 1
            < args.len()),
    decreases arg.len() - pos,
{
    if 0 <= pos < arg.len() {
        let c = arg[pos];
        if c == 'p' {
            lemma_mkdir_shorts_extra(arg, pos + 1, args, i, MkdirModel { parents: true, ..o });
        } else if c == 'v' {
            lemma_mkdir_shorts_extra(arg, pos + 1, args, i, MkdirModel { verbose: true, ..o });
        } else if c == 'Z' {
            lemma_mkdir_shorts_extra(
                arg,
                pos + 1,
                args,
                i,
                MkdirModel { context: Some(Seq::empty()), ..o },
            );
        }
    }
}

/// Applies the short-option cluster `arg` found at `args[index]`; returns
/// the new options and the index after the cluster and any value it took.
pub fn parse_mkdir_short_options(arg: &str, args: &[String], index: usize, options: MkdirOptions) -> (r:
    Result<(MkdirOptions, usize), ArgExit>)
    requires
        index < args.len(),
    ensures
        match mkdir_shorts(arg@, 1, views(args@), index as int, mkdir_model(options)) {
            Ok((o, extra)) => r matches Ok((op, next)) && mkdir_model(op) == o && next == index
                + if extra {
                2int
            } else {
                1int
            },
            Err(e) => r is Err && exit_model(r->Err_0) == e,
        },
{
    let chars = chars_of(arg);
    let mut o = options;
    let mut pos: usize = 1;
    if chars.len() == 0 {
        return Ok((o, index + 1));
    }
    while pos < chars.len()
        invariant
            1 <= pos <= chars@.len(),
            chars@ == arg@,
            index < args.len(),
            mkdir_shorts(arg@, 1, views(args@), index as int, mkdir_model(options)) == mkdir_shorts(
                arg@,
                pos as int,
                views(args@),
                index as int,
                mkdir_model(o),
            ),
        decreases chars.len() - pos,
    {
        let c = chars[pos];
        assert(arg@[pos as int] == c);
        if c == 'p' {
            o = MkdirOptions { parents: true, ..o };
        } else if c == 'v' {
            o = MkdirOptions { verbose: true, ..o };
        } else if c == 'Z' {
            let empty = String::new();
            o = MkdirOptions { context: Some(empty), ..o };
        } else if c == 'm' {
            return match take_short_value("mkdir", &chars, pos, args, index) {
                Ok((value, extra)) => {
                    let next = if extra {
                        index + 2
                    } else {
                        index + 1
                    };
                    Ok((MkdirOptions { mode: Some(value), ..o }, next))
                },
                Err(e) => Err(e),
            };
        } else {
            return Err(exit_with_help(1, "mkdir", invalid_text("mkdir", c)));
        }
        pos = pos + 1;
    }
    Ok((o, index + 1))
}

/// The arguments `args[i..]` applied on top of `st` (options and operands).
pub open spec fn mkdir_args(
    args: Seq<Seq<char>>,
    i: int,
    opts: bool,
    st: (MkdirModel, Seq<Seq<char>>),
) -> Result<(MkdirModel, Seq<Seq<char>>), ExitModel>
    decreases args.len() - i,
{
    if i < 0 || i >= args.len() {
        Ok(st)
    } else {
        let a = args[i];
        if opts && is_dashdash(a) {
            mkdir_args(args, i + 1, false, st)
        } else if opts && (a == "-h"@ || a == "--help"@) {
            Err(ExitModel::Help)
        } else if opts && (a == "-V"@ || a == "--version"@) {
            Err(ExitModel::Version)
        } else if opts && has_prefix(a, "--"@) {
            match mkdir_long(a, args, i, st.0) {
                Ok((o, extra)) => mkdir_args(
                    args,
                    if extra {
                        i + 2
                    } else {
                        i + 1
                    },
                    opts,
                    (o, st.1),
                ),
                Err(e) => Err(e),
            }
        } else if opts && has_prefix(a, "-"@) && a != "-"@ {
            match mkdir_shorts(a, 1, args, i, st.0) {
                Ok((o, extra)) => {
                    proof {
                        lemma_mkdir_shorts_extra(a, 1, args, i, st.0);
                    }
                    mkdir_args(
                        args,
                        if extra {
                            i + 2
                        } else {
                            i + 1
                        },
                        opts,
                        (o, st.1),
                    )
                },
                Err(e) => Err(e),
            }
        } else {
            mkdir_args(args, i + 1, opts, (st.0, st.1.push(a)))
        }
    }
}

/// Parses the arguments of `mkdir` into options and operands.
pub fn parse_mkdir_args(args: &[String]) -> (r: Result<(MkdirOptions, Vec<String>), ArgExit>)
    ensures
        match mkdir_args(views(args@), 0, true, (mkdir_defaults(), Seq::empty())) {
            Ok((o, ops)) => r is Ok && mkdir_model(r->Ok_0.0) == o && views(r->Ok_0.1@) == ops,
            Err(e) => r is Err && exit_model(r->Err_0) == e,
        },
{
    let mut options = MkdirOptions::default();
    let mut operands: Vec<String> = Vec::new();
    let mut parse_options = true;
    let ghost all = views(args@);
    let mut index: usize = 0;
    assert(views(operands@) =~= Seq::<Seq<char>>::empty());
    while index < args.len()
        invariant
            index <= args@.len(),
            all == views(args@),
            mkdir_args(all, 0, true, (mkdir_defaults(), Seq::empty())) == mkdir_args(
                all,
                index as int,
                parse_options,
                (mkdir_model(options), views(operands@)),
            ),
        decreases args.len() - index,
    {
        let arg = args[index].as_str();
        assert(all[index as int] == arg@);
        if parse_options && arg_is_dashdash(arg) {
            parse_options = false;
            index = index + 1;
            continue;
        }
        if parse_options && (str_eq(arg, "-h") || str_eq(arg, "--help")) {
            return Err(ArgExit::Help);
        }
        if parse_options && (str_eq(arg, "-V") || str_eq(arg, "--version")) {
            return Err(ArgExit::Version);
        }
        if parse_options && str_starts_with(arg, "--") {
            let (o, next) = parse_mkdir_long_option(arg, args, index, options)?;
            options = o;
            index = next;
            continue;
        }
        if parse_options && str_starts_with(arg, "-") && !str_eq(arg, "-") {
            proof {
                lemma_mkdir_shorts_extra(arg@, 1, all, index as int, mkdir_model(options));
            }
            let (o, next) = parse_mkdir_short_options(arg, args, index, options)?;
            options = o;
            index = next;
            continue;
        }
        let ghost before = views(operands@);
        operands.push(args[index].clone());
        assert(views(operands@) =~= before.push(arg@));
        index = index + 1;
    }
    Ok((options, operands))
}

/// A directory that cannot be created is no error under `-p` when it
/// already exists as a directory.
pub fn creation_failure_is_error(options: &MkdirOptions, is_dir: bool) -> (r: bool)
    ensures
        r == !(options.parents && is_dir),
{
    !(options.parents && is_dir)
}

} // verus!
