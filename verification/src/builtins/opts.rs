//! What the option parsers of the native builtins share: how a parse ends
//! early (help, version, or an error with its messages), GNU-style long
//! options `--name[=value]`, and the standard diagnostic texts.
use vstd::prelude::*;
use crate::text::{
    chars_of, find_char_from, first_index, lemma_first_index_at, lemma_first_index_none, owned,
    push_char, string_of_range, views,
};

verus! {

/// How an option parse ends without a result.
#[derive(Debug, PartialEq)]
pub enum ArgExit {
    /// Print the usage text and exit with status 0.
    Help,
    /// Print the version line and exit with status 0.
    Version,
    /// Print `lines` to standard error and exit with `code`.
    Error { code: i32, lines: Vec<String> },
    /// `rm`'s report of an unknown short option: `rm: invalid option -- 'c'`,
    /// a hint to remove a file named `arg` with `rm ./arg` when that file
    /// exists, and the pointer to `--help`; exit status 2.
    InvalidOptionOrFile { option: char, arg: String },
}

/// `ArgExit` as plain values.
pub enum ExitModel {
    Help,
    Version,
    Error(int, Seq<Seq<char>>),
    InvalidOptionOrFile(char, Seq<char>),
}

/// The plain-value form of an early exit.
pub open spec fn exit_model(e: ArgExit) -> ExitModel {
    match e {
        ArgExit::Help => ExitModel::Help,
        ArgExit::Version => ExitModel::Version,
        ArgExit::Error { code, lines } => ExitModel::Error(code as int, views(lines@)),
        ArgExit::InvalidOptionOrFile { option, arg } => ExitModel::InvalidOptionOrFile(option, arg@),
    }
}

impl ArgExit {
    /// The exit status of the builtin.
    pub fn code(&self) -> (r: i32)
        ensures
            r == match self {
                ArgExit::Help => 0i32,
                ArgExit::Version => 0i32,
                ArgExit::Error { code, .. } => *code,
                ArgExit::InvalidOptionOrFile { .. } => 2i32,
            },
    {
        match self {
            ArgExit::Help => 0,
            ArgExit::Version => 0,
            ArgExit::Error { code, .. } => *code,
            ArgExit::InvalidOptionOrFile { .. } => 2,
        }
    }
}

/// `Try 'CMD --help' for more information.`
pub open spec fn try_help(cmd: Seq<char>) -> Seq<char> {
    "Try '"@ + cmd + " --help' for more information."@
}

/// `CMD: unrecognized option 'ARG'`
pub open spec fn msg_unrecognized(cmd: Seq<char>, arg: Seq<char>) -> Seq<char> {
    cmd + ": unrecognized option '"@ + arg + "'"@
}

/// `CMD: invalid option -- 'C'`
pub open spec fn msg_invalid(cmd: Seq<char>, c: char) -> Seq<char> {
    cmd + ": invalid option -- '"@ + seq![c] + "'"@
}

/// `CMD: option 'ARG' doesn't allow an argument`
pub open spec fn msg_no_value(cmd: Seq<char>, arg: Seq<char>) -> Seq<char> {
    cmd + ": option '"@ + arg + "' doesn't allow an argument"@
}

/// `CMD: option 'ARG' requires an argument`
pub open spec fn msg_needs_value(cmd: Seq<char>, arg: Seq<char>) -> Seq<char> {
    cmd + ": option '"@ + arg + "' requires an argument"@
}

/// An error with a message and the pointer to `--help`, exit status `code`.
pub open spec fn fail_with_help(code: int, cmd: Seq<char>, first: Seq<char>) -> ExitModel {
    ExitModel::Error(code, seq![first, try_help(cmd)])
}

/// The error: a message, then the pointer to `--help`.
pub fn exit_with_help(code: i32, cmd: &str, first: String) -> (r: ArgExit)
    ensures
        exit_model(r) == fail_with_help(code as int, cmd@, first@),
{
    let t = owned("Try '").concat(cmd).concat(" --help' for more information.");
    let mut lines: Vec<String> = Vec::new();
    lines.push(first);
    lines.push(t);
    assert(views(lines@) =~= seq![first@, try_help(cmd@)]);
    ArgExit::Error { code, lines }
}

/// An error with a single message line.
pub fn exit_with_line(code: i32, line: String) -> (r: ArgExit)
    ensures
        exit_model(r) == ExitModel::Error(code as int, seq![line@]),
{
    let mut lines: Vec<String> = Vec::new();
    lines.push(line);
    assert(views(lines@) =~= seq![line@]);
    ArgExit::Error { code, lines }
}

/// `CMD: unrecognized option 'ARG'`
pub fn unrecognized_text(cmd: &str, arg: &str) -> (r: String)
    ensures
        r@ == msg_unrecognized(cmd@, arg@),
{
    owned(cmd).concat(": unrecognized option '").concat(arg).concat("'")
}

/// `CMD: invalid option -- 'C'`
pub fn invalid_text(cmd: &str, c: char) -> (r: String)
    ensures
        r@ == msg_invalid(cmd@, c),
{
    let mut s = owned(cmd).concat(": invalid option -- '");
    push_char(&mut s, c);
    let r = s.concat("'");
    assert(r@ =~= msg_invalid(cmd@, c));
    r
}

/// `CMD: option 'ARG' doesn't allow an argument`
pub fn no_value_text(cmd: &str, arg: &str) -> (r: String)
    ensures
        r@ == msg_no_value(cmd@, arg@),
{
    owned(cmd).concat(": option '").concat(arg).concat("' doesn't allow an argument")
}

/// `CMD: option 'ARG' requires an argument`
pub fn needs_value_text(cmd: &str, arg: &str) -> (r: String)
    ensures
        r@ == msg_needs_value(cmd@, arg@),
{
    owned(cmd).concat(": option '").concat(arg).concat("' requires an argument")
}

/// `s` starts with `--`.
pub open spec fn is_long(s: Seq<char>) -> bool {
    s.len() >= 2 && s[0] == '-' && s[1] == '-'
}

/// `s` starts with `-` and is not `-` alone.
pub open spec fn is_short(s: Seq<char>) -> bool {
    s.len() >= 2 && s[0] == '-'
}

/// `s` is `--`.
pub open spec fn is_dashdash(s: Seq<char>) -> bool {
    s.len() == 2 && s[0] == '-' && s[1] == '-'
}

/// Whether the argument starts with `--`.
pub fn arg_is_long(s: &str) -> (r: bool)
    ensures
        r == is_long(s@),
{
    let v = chars_of(s);
    v.len() >= 2 && v[0] == '-' && v[1] == '-'
}

/// Whether the argument starts with `-` and is not `-` alone.
pub fn arg_is_short(s: &str) -> (r: bool)
    ensures
        r == is_short(s@),
{
    let v = chars_of(s);
    v.len() >= 2 && v[0] == '-'
}

/// Whether the argument is `--`.
pub fn arg_is_dashdash(s: &str) -> (r: bool)
    ensures
        r == is_dashdash(s@),
{
    let v = chars_of(s);
    v.len() == 2 && v[0] == '-' && v[1] == '-'
}

/// The argument without a leading `--`.
pub open spec fn long_body(arg: Seq<char>) -> Seq<char> {
    if is_long(arg) {
        arg.subrange(2, arg.len() as int)
    } else {
        arg
    }
}

/// The name and optional value of `--name[=value]`.
pub open spec fn long_parts(arg: Seq<char>) -> (Seq<char>, Option<Seq<char>>) {
    let body = long_body(arg);
    match first_index(body, '=') {
        Some(i) => (body.subrange(0, i), Some(body.subrange(i + 1, body.len() as int))),
        None => (body, None),
    }
}

/// Splits `--name[=value]` into the name and the optional value.
pub fn split_long_option(arg: &str) -> (r: (String, Option<String>))
    ensures
        r.0@ == long_parts(arg@).0,
        match long_parts(arg@).1 {
            Some(v) => r.1 is Some && r.1->0@ == v,
            None => r.1 is None,
        },
{
    let v = chars_of(arg);
    let n = v.len();
    let start: usize = if n >= 2 && v[0] == '-' && v[1] == '-' {
        2
    } else {
        0
    };
    let ghost body = v@.subrange(start as int, n as int);
    assert(start == 0 ==> body =~= v@);
    match find_char_from(&v, '=', start) {
        Some(i) => {
            proof {
                assert forall|j: int| 0 <= j < i - start implies body[j] != '=' by {
                    assert(body[j] == v@[j + start]);
                }
                lemma_first_index_at(body, '=', i - start);
                assert(body.subrange(0, i - start) =~= v@.subrange(start as int, i as int));
                assert(body.subrange(i - start + 1, body.len() as int) =~= v@.subrange(i + 1, n as int));
            }
            (string_of_range(&v, start, i), Some(string_of_range(&v, i + 1, n)))
        },
        None => {
            proof {
                assert forall|j: int| 0 <= j < body.len() implies body[j] != '=' by {
                    assert(body[j] == v@[j + start]);
                }
                lemma_first_index_none(body, '=');
            }
            (string_of_range(&v, start, n), None)
        },
    }
}

/// The error for a value given to an option that takes none, exit status `code`.
pub open spec fn no_value_exit(code: int, cmd: Seq<char>, arg: Seq<char>) -> ExitModel {
    fail_with_help(code, cmd, msg_no_value(cmd, arg))
}

/// Refuses `--name=value` for an option that takes no value.
pub fn reject_long_value(cmd: &str, arg: &str, value: &Option<String>) -> (r: Result<(), ArgExit>)
    ensures
        value is Some ==> r is Err && exit_model(r->Err_0) == no_value_exit(1, cmd@, arg@),
        value is None ==> r is Ok,
{
    if value.is_some() {
        return Err(exit_with_help(1, cmd, no_value_text(cmd, arg)));
    }
    Ok(())
}

/// Outcome of reading the value of a long option at `args[i]` (given inline
/// as `value` or as the next argument): the value and the index after it.
pub open spec fn long_value(
    cmd: Seq<char>,
    arg: Seq<char>,
    value: Option<Seq<char>>,
    args: Seq<Seq<char>>,
    i: int,
) -> Result<(Seq<char>, int), ExitModel> {
    match value {
        Some(v) => Ok((v, i + 1)),
        None => if i + 1 < args.len() {
            Ok((args[i + 1], i + 2))
        } else {
            Err(fail_with_help(1, cmd, msg_needs_value(cmd, arg)))
        },
    }
}

/// Reads the value of a long option, advancing `index` past what it used.
pub fn take_long_value(
    cmd: &str,
    arg: &str,
    value: Option<String>,
    args: &[String],
    index: &mut usize,
) -> (r: Result<String, ArgExit>)
    requires
        *old(index) < args.len(),
    ensures
        match long_value(cmd@, arg@, match value {
            Some(v) => Some(v@),
            None => None,
        }, views(args@), *old(index) as int) {
            Ok((v, next)) => r is Ok && r->Ok_0@ == v && *final(index) == next,
            Err(e) => r is Err && exit_model(r->Err_0) == e,
        },
{
    match value {
        Some(v) => {
            *index = *index + 1;
            Ok(v)
        },
        None => {
            *index = *index + 1;
            if *index >= args.len() {
                return Err(exit_with_help(1, cmd, needs_value_text(cmd, arg)));
            }
            let v = args[*index].clone();
            assert(views(args@)[*index as int] == args@[*index as int]@);
            *index = *index + 1;
            Ok(v)
        },
    }
}

/// The value of the option letter at `arg[pos]`: the rest of the cluster,
/// or else the next argument (and whether it was used).
pub open spec fn short_value(cmd: Seq<char>, arg: Seq<char>, pos: int, args: Seq<Seq<char>>, i: int) -> Result<
    (Seq<char>, bool),
    ExitModel,
> {
    if pos + 1 < arg.len() {
        Ok((arg.subrange(pos + 1, arg.len() as int), false))
    } else if i + 1 < args.len() {
        Ok((args[i + 1], true))
    } else {
        Err(fail_with_help(1, cmd, msg_needs_value(cmd, seq!['-', arg[pos]])))
    }
}

/// Reads the value of the option letter at `chars[pos]` of the cluster
/// found at `args[i]`.
pub fn take_short_value(cmd: &str, chars: &Vec<char>, pos: usize, args: &[String], i: usize) -> (r: Result<
    (String, bool),
    ArgExit,
>)
    requires
        pos < chars.len(),
        i < args.len(),
    ensures
        match short_value(cmd@, chars@, pos as int, views(args@), i as int) {
            Ok((v, extra)) => r matches Ok((s, e)) && s@ == v && e == extra,
            Err(x) => r is Err && exit_model(r->Err_0) == x,
        },
{
    if pos + 1 < chars.len() {
        return Ok((string_of_range(chars, pos + 1, chars.len()), false));
    }
    if i + 1 >= args.len() {
        let mut flag = owned("-");
        push_char(&mut flag, chars[pos]);
        proof {
            reveal_strlit("-");
        }
        assert(flag@ =~= seq!['-', chars@[pos as int]]);
        return Err(exit_with_help(1, cmd, needs_value_text(cmd, flag.as_str())));
    }
    assert(views(args@)[i + 1] == args@[i + 1]@);
    Ok((args[i + 1].clone(), true))
}

} // verus!
