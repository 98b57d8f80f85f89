//! `mkfifo`: option parsing. Named pipes cannot be made on the platform the
//! shell targets, so every operand is reported as an error.
use vstd::prelude::*;
use crate::builtins::opts::{
    arg_is_dashdash, exit_model, exit_with_help, fail_with_help, invalid_text, is_dashdash,
    msg_invalid, msg_needs_value, msg_unrecognized, needs_value_text, short_value,
    take_short_value, unrecognized_text, ArgExit, ExitModel,
};
use crate::text::{
    chars_of, has_prefix, opt_view, owned, skip_prefixes, str_eq, str_starts_with,
    string_of_range, views, without_prefixes,
};

verus! {

/// The options of `mkfifo`.
#[derive(Debug, PartialEq, Eq)]
pub struct MkfifoOptions {
    pub mode: Option<String>,
    pub context: Option<String>,
}

/// `MkfifoOptions` as plain values.
pub struct MkfifoModel {
    pub mode: Option<Seq<char>>,
    pub context: Option<Seq<char>>,
}

/// The plain-value form of the options.
pub open spec fn mkfifo_model(o: MkfifoOptions) -> MkfifoModel {
    MkfifoModel { mode: opt_view(o.mode), context: opt_view(o.context) }
}

impl Default for MkfifoOptions {
    fn default() -> (r: Self)
        ensures
            mkfifo_model(r) == (MkfifoModel { mode: None, context: None }),
    {
        MkfifoOptions { mode: None, context: None }
    }
}

/// The value of `--mode=MODE` or `--mode MODE` at `args[i]` and whether
/// the next argument was used; another option that starts with `--mode` is
/// unrecognized.
pub open spec fn mode_value(arg: Seq<char>, args: Seq<Seq<char>>, i: int) -> Result<
    (Seq<char>, bool),
    ExitModel,
> {
    if has_prefix(arg, "--mode="@) {
        Ok((arg.subrange(7, arg.len() as int), false))
    } else if arg != "--mode"@ {
        Err(fail_with_help(1, "mkfifo"@, msg_unrecognized("mkfifo"@, arg)))
    } else if i + 1 < args.len() {
        Ok((args[i + 1], true))
    } else {
        Err(fail_with_help(1, "mkfifo"@, msg_needs_value("mkfifo"@, "--mode"@)))
    }
}

/// Reads the value of an argument that starts with `--mode`.
pub fn take_option_value(arg: &str, args: &[String], index: usize) -> (r: Result<
    (String, usize),
    ArgExit,
>)
    requires
        index < args.len(),
    ensures
        match mode_value(arg@, views(args@), index as int) {
            Ok((v, extra)) => r matches Ok((s, next)) && s@ == v && next == index + if extra {
                2int
            } else {
                1int
            },
            Err(e) => r is Err && exit_model(r->Err_0) == e,
        },
{
    if str_starts_with(arg, "--mode=") {
        let v = chars_of(arg);
        proof {
            reveal_strlit("--mode=");
        }
        return Ok((string_of_range(&v, 7, v.len()), index + 1));
    }
    if !str_eq(arg, "--mode") {
        return Err(exit_with_help(1, "mkfifo", unrecognized_text("mkfifo", arg)));
    }
    if index + 1 >= args.len() {
        return Err(exit_with_help(1, "mkfifo", needs_value_text("mkfifo", "--mode")));
    }
    assert(views(args@)[index + 1] == args@[index + 1]@);
    Ok((args[index + 1].clone(), index + 2))
}

/// The letters `arg[pos..]` of a short-option cluster at `args[i]` applied
/// in order; `-m` takes the rest of the cluster as its value, or the next
/// argument, and ends the cluster.
pub open spec fn mkfifo_shorts(
    arg: Seq<char>,
    pos: int,
    args: Seq<Seq<char>>,
    i: int,
    o: MkfifoModel,
) -> Result<(MkfifoModel, bool), ExitModel>
    decreases arg.len() - pos,
{
    if pos < 0 || pos >= arg.len() {
        Ok((o, false))
    } else {
        let c = arg[pos];
        if c == 'Z' {
            mkfifo_shorts(arg, pos + 1, args, i, MkfifoModel { context: Some(Seq::empty()), ..o })
        } else if c == 'm' {
            match short_value("mkfifo"@, arg, pos, args, i) {
                Ok((v, extra)) => Ok((MkfifoModel { mode: Some(v), ..o }, extra)),
                Err(e) => Err(e),
            }
        } else {
            Err(fail_with_help(1, "mkfifo"@, msg_invalid("mkfifo"@, c)))
        }
    }
}

/// A cluster uses the next argument only when there is one.
pub proof fn lemma_mkfifo_shorts_extra(
    arg: Seq<char>,
    pos: int,
    args: Seq<Seq<char>>,
    i: int,
    o: MkfifoModel,
)
    ensures
        mkfifo_shorts(arg, pos, args, i, o) matches Ok((_, extra)) ==> (extra ==> i + 1
            < args.len()),
    decreases arg.len() - pos,
{
    if 0 <= pos < arg.len() && arg[pos] == 'Z' {
        lemma_mkfifo_shorts_extra(
            arg,
            pos + 1,
            args,
            i,
            MkfifoModel { context: Some(Seq::empty()), ..o },
        );
    }
}

/// Applies the short-option cluster `arg` found at `args[index]`.
fn parse_mkfifo_short_options(
    arg: &str,
    args: &[String],
    index: usize,
    options: MkfifoOptions,
) -> (r: Result<(MkfifoOptions, usize), ArgExit>)
    requires
        index < args.len(),
    ensures
        match mkfifo_shorts(arg@, 1, views(args@), index as int, mkfifo_model(options)) {
            Ok((o, extra)) => r matches Ok((op, next)) && mkfifo_model(op) == o && next == index
                + if extra {
                2int
            } else {
                1int
            },
            Err(e) => r is Err && exit_model(r->Err_0) == e,
        },
{
    let chars = chars_of(arg);
    let mut o = options;
    let mut pos: usize = 1;
    if chars.len() == 0 {
        return Ok((o, index + 1));
    }
    while pos < chars.len()
        invariant
            1 <= pos <= chars@.len(),
            chars@ == arg@,
            index < args.len(),
            mkfifo_shorts(arg@, 1, views(args@), index as int, mkfifo_model(options))
                == mkfifo_shorts(arg@, pos as int, views(args@), index as int, mkfifo_model(o)),
        decreases chars.len() - pos,
    {
        let c = chars[pos];
        assert(arg@[pos as int] == c);
        if c == 'Z' {
            let empty = String::new();
            o = MkfifoOptions { context: Some(empty), ..o };
        } else if c == 'm' {
            return match take_short_value("mkfifo", &chars, pos, args, index) {
                Ok((value, extra)) => {
                    let next = if extra {
                        index + 2
                    } else {
                        index + 1
                    };
                    Ok((MkfifoOptions { mode: Some(value), ..o }, next))
                },
                Err(e) => Err(e),
            };
        } else {
            return Err(exit_with_help(1, "mkfifo", invalid_text("mkfifo", c)));
        }
        pos = pos + 1;
    }
    Ok((o, index + 1))
}

/// The arguments `args[i..]` applied on top of `st` (options and operands).
pub open spec fn mkfifo_args(
    args: Seq<Seq<char>>,
    i: int,
    opts: bool,
    st: (MkfifoModel, Seq<Seq<char>>),
) -> Result<(MkfifoModel, Seq<Seq<char>>), ExitModel>
    decreases args.len() - i,
{
    if i < 0 || i >= args.len() {
        Ok(st)
    } else {
        let a = args[i];
        if opts && is_dashdash(a) {
            mkfifo_args(args, i + 1, false, st)
        } else if opts && (a == "-h"@ || a == "--help"@) {
            Err(ExitModel::Help)
        } else if opts && (a == "-V"@ || a == "--version"@) {
            Err(ExitModel::Version)
        } else if opts && has_prefix(a, "--mode"@) {
            match mode_value(a, args, i) {
                Ok((v, extra)) => mkfifo_args(
                    args,
                    if extra {
                        i + 2
                    } else {
                        i + 1
                    },
                    opts,
                    (MkfifoModel { mode: Some(v), ..st.0 }, st.1),
                ),
                Err(e) => Err(e),
            }
        } else if opts && a == "--context"@ {
            mkfifo_args(
                args,
                i + 1,
                opts,
                (MkfifoModel { context: Some(Seq::empty()), ..st.0 }, st.1),
            )
        } else if opts && has_prefix(a, "--context="@) {
            mkfifo_args(
                args,
                i + 1,
                opts,
                (MkfifoModel { context: Some(without_prefixes(a, "--context="@)), ..st.0 }, st.1),
            )
        } else if opts && has_prefix(a, "--"@) {
            Err(fail_with_help(1, "mkfifo"@, msg_unrecognized("mkfifo"@, a)))
        } else if opts && has_prefix(a, "-"@) && a != "-"@ {
            match mkfifo_shorts(a, 1, args, i, st.0) {
                Ok((o, extra)) => {
                    proof {
                        lemma_mkfifo_shorts_extra(a, 1, args, i, st.0);
                    }
                    mkfifo_args(
                        args,
                        if extra {
                            i + 2
                        } else {
                            i + 1
                        },
                        opts,
                        (o, st.1),
                    )
                },
                Err(e) => Err(e),
            }
        } else {
            mkfifo_args(args, i + 1, opts, (st.0, st.1.push(a)))
        }
    }
}

/// Parses the arguments of `mkfifo` into options and operands.
pub fn parse_mkfifo_args(args: &[String]) -> (r: Result<(MkfifoOptions, Vec<String>), ArgExit>)
    ensures
        match mkfifo_args(
            views(args@),
            0,
            true,
            (MkfifoModel { mode: None, context: None }, Seq::empty()),
        ) {
            Ok((o, ops)) => r is Ok && mkfifo_model(r->Ok_0.0) == o && views(r->Ok_0.1@) == ops,
            Err(e) => r is Err && exit_model(r->Err_0) == e,
        },
{
    let mut options = MkfifoOptions::default();
    let mut operands: Vec<String> = Vec::new();
    let mut parse_options = true;
    let ghost all = views(args@);
    let ghost start = (MkfifoModel { mode: None, context: None }, Seq::<Seq<char>>::empty());
    let mut index: usize = 0;
    assert(views(operands@) =~= Seq::<Seq<char>>::empty());
    while index < args.len()
        invariant
            index <= args@.len(),
            all == views(args@),
            start == (MkfifoModel { mode: None, context: None }, Seq::<Seq<char>>::empty()),
            mkfifo_args(all, 0, true, start) == mkfifo_args(
                all,
                index as int,
                parse_options,
                (mkfifo_model(options), views(operands@)),
            ),
        decreases args.len() - index,
    {
        let arg = args[index].as_str();
        assert(all[index as int] == arg@);
        if parse_options && arg_is_dashdash(arg) {
            parse_options = false;
            index = index + 1;
            continue;
        }
        if parse_options && (str_eq(arg, "-h") || str_eq(arg, "--help")) {
            return Err(ArgExit::Help);
        }
        if parse_options && (str_eq(arg, "-V") || str_eq(arg, "--version")) {
            return Err(ArgExit::Version);
        }
        if parse_options && str_starts_with(arg, "--mode") {
            let (v, next) = take_option_value(arg, args, index)?;
            options = MkfifoOptions { mode: Some(v), ..options };
            index = next;
            continue;
        }
        if parse_options && str_eq(arg, "--context") {
            let empty = String::new();
            options = MkfifoOptions { context: Some(empty), ..options };
            index = index + 1;
            continue;
        }
        if parse_options && str_starts_with(arg, "--context=") {
            let v = chars_of(arg);
            let p = chars_of("--context=");
            assert(v@.subrange(0, v@.len() as int) =~= v@);
            proof {
                reveal_strlit("--context=");
            }
            let start_at = skip_prefixes(&v, 0, &p);
            let c = string_of_range(&v, start_at, v.len());
            options = MkfifoOptions { context: Some(c), ..options };
            index = index + 1;
            continue;
        }
        if parse_options && str_starts_with(arg, "--") {
            return Err(exit_with_help(1, "mkfifo", unrecognized_text("mkfifo", arg)));
        }
        if parse_options && str_starts_with(arg, "-") && !str_eq(arg, "-") {
            proof {
                lemma_mkfifo_shorts_extra(arg@, 1, all, index as int, mkfifo_model(options));
            }
            let (o, next) = parse_mkfifo_short_options(arg, args, index, options)?;
            options = o;
            index = next;
            continue;
        }
        let ghost before = views(operands@);
        operands.push(args[index].clone());
        assert(views(operands@) =~= before.push(arg@));
        index = index + 1;
    }
    Ok((options, operands))
}

/// The error reported for each operand: FIFOs cannot be made here.
pub fn fifo_unsupported(operand: &str) -> (r: String)
    ensures
        r@ == "mkfifo: cannot create fifo '"@ + operand@
            + "': filesystem FIFOs are not supported on Windows"@,
{
    owned("mkfifo: cannot create fifo '").concat(operand).concat(
        "': filesystem FIFOs are not supported on Windows",
    )
}

} // verus!
