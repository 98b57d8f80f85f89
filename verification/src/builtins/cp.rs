//! `cp`: option parsing, how operands become sources and a destination,
//! where each source lands, and the decisions made before a file is
//! overwritten.
use vstd::prelude::*;
use crate::builtins::opts::{
    arg_is_dashdash, exit_model, exit_with_help, fail_with_help, invalid_text, is_dashdash,
    long_parts, msg_invalid, msg_needs_value, msg_unrecognized, needs_value_text, no_value_exit,
    no_value_text, short_value, split_long_option, take_long_value, take_short_value,
    unrecognized_text, ArgExit, ExitModel,
};
use crate::builtins::paths::{
    basename_of, parent_preserving, parent_preserving_relative_path, source_basename,
    strip_seps_or_keep, strip_trailing_separators,
};
use crate::text::{
    clone_strings, chars_of, has_prefix, opt_view, owned, push_char, str_eq, str_starts_with, string_of_range,
    views,
};

verus! {

/// How `cp` makes each destination.
#[derive(Clone, Copy, Debug, PartialEq, Eq, Structural)]
pub enum LinkMode {
    Copy,
    HardLink,
    SymbolicLink,
}

/// The options of `cp`.
#[derive(Debug, PartialEq, Eq)]
pub struct CpOptions {
    pub recursive: bool,
    pub verbose: bool,
    pub force: bool,
    pub interactive: bool,
    pub no_clobber: bool,
    pub update: bool,
    pub backup: bool,
    pub suffix: String,
    pub target_directory: Option<String>,
    pub no_target_directory: bool,
    pub strip_trailing_slashes: bool,
    pub remove_destination: bool,
    pub attributes_only: bool,
    pub parents: bool,
    pub preserve_timestamps: bool,
    pub preserve_mode: bool,
    pub link_mode: LinkMode,
}

/// The switches of `cp`: everything but the backup suffix and the target
/// directory.
#[derive(Clone, Copy, Debug, PartialEq, Eq, Structural)]
pub struct CpSwitches {
    pub recursive: bool,
    pub verbose: bool,
    pub force: bool,
    pub interactive: bool,
    pub no_clobber: bool,
    pub update: bool,
    pub backup: bool,
    pub no_target_directory: bool,
    pub strip_trailing_slashes: bool,
    pub remove_destination: bool,
    pub attributes_only: bool,
    pub parents: bool,
    pub preserve_timestamps: bool,
    pub preserve_mode: bool,
    pub link_mode: LinkMode,
}

/// `CpOptions` as plain values: the switches, the backup suffix and the
/// target directory.
pub struct CpModel {
    pub flags: CpSwitches,
    pub suffix: Seq<char>,
    pub target_directory: Option<Seq<char>>,
}

/// The switches of the options.
pub open spec fn cp_flags(o: CpOptions) -> CpSwitches {
    CpSwitches {
        recursive: o.recursive,
        verbose: o.verbose,
        force: o.force,
        interactive: o.interactive,
        no_clobber: o.no_clobber,
        update: o.update,
        backup: o.backup,
        no_target_directory: o.no_target_directory,
        strip_trailing_slashes: o.strip_trailing_slashes,
        remove_destination: o.remove_destination,
        attributes_only: o.attributes_only,
        parents: o.parents,
        preserve_timestamps: o.preserve_timestamps,
        preserve_mode: o.preserve_mode,
        link_mode: o.link_mode,
    }
}

/// The plain-value form of the options.
pub open spec fn cp_model(o: CpOptions) -> CpModel {
    CpModel {
        flags: cp_flags(o),
        suffix: o.suffix@,
        target_directory: opt_view(o.target_directory),
    }
}

/// The options before any argument is read: backups end in `~`.
pub open spec fn cp_defaults() -> CpModel {
    CpModel {
        flags: CpSwitches {
            recursive: false,
            verbose: false,
            force: false,
            interactive: false,
            no_clobber: false,
            update: false,
            backup: false,
            no_target_directory: false,
            strip_trailing_slashes: false,
            remove_destination: false,
            attributes_only: false,
            parents: false,
            preserve_timestamps: false,
            preserve_mode: false,
            link_mode: LinkMode::Copy,
        },
        suffix: "~"@,
        target_directory: None,
    }
}

impl Default for CpOptions {
    fn default() -> (r: Self)
        ensures
            cp_model(r) == cp_defaults(),
    {
        CpOptions {
            recursive: false,
            verbose: false,
            force: false,
            interactive: false,
            no_clobber: false,
            update: false,
            backup: false,
            suffix: owned("~"),
            target_directory: None,
            no_target_directory: false,
            strip_trailing_slashes: false,
            remove_destination: false,
            attributes_only: false,
            parents: false,
            preserve_timestamps: false,
            preserve_mode: false,
            link_mode: LinkMode::Copy,
        }
    }
}

/// Long options that take no value and refuse one.
pub open spec fn cp_flag_name(n: Seq<char>) -> bool {
    n == "archive"@ || n == "force"@ || n == "interactive"@ || n == "no-clobber"@ || n
        == "recursive"@ || n == "link"@ || n == "symbolic-link"@ || n == "no-target-directory"@
        || n == "strip-trailing-slashes"@ || n == "verbose"@ || n == "remove-destination"@ || n
        == "attributes-only"@ || n == "parents"@ || n == "parent"@ || n == "dereference"@ || n
        == "no-dereference"@ || n == "debug"@
}

/// Long options that ignore any value they are given.
pub open spec fn cp_lenient_name(n: Seq<char>) -> bool {
    n == "backup"@ || n == "update"@ || n == "one-file-system"@ || n == "copy-contents"@ || n
        == "context"@ || n == "progress-bar"@ || n == "preserve"@ || n == "no-preserve"@ || n
        == "sparse"@ || n == "reflink"@
}

/// The effect of a long option that takes no value.
pub open spec fn cp_flag(n: Seq<char>, o: CpSwitches) -> CpSwitches {
    if n == "archive"@ {
        CpSwitches { recursive: true, preserve_timestamps: true, preserve_mode: true, ..o }
    } else if n == "force"@ {
        CpSwitches { force: true, no_clobber: false, ..o }
    } else if n == "interactive"@ {
        CpSwitches { interactive: true, no_clobber: false, ..o }
    } else if n == "no-clobber"@ {
        CpSwitches { no_clobber: true, interactive: false, ..o }
    } else if n == "recursive"@ {
        CpSwitches { recursive: true, ..o }
    } else if n == "link"@ {
        CpSwitches { link_mode: LinkMode::HardLink, ..o }
    } else if n == "symbolic-link"@ {
        CpSwitches { link_mode: LinkMode::SymbolicLink, ..o }
    } else if n == "no-target-directory"@ {
        CpSwitches { no_target_directory: true, ..o }
    } else if n == "strip-trailing-slashes"@ {
        CpSwitches { strip_trailing_slashes: true, ..o }
    } else if n == "verbose"@ || n == "debug"@ {
        CpSwitches { verbose: true, ..o }
    } else if n == "remove-destination"@ {
        CpSwitches { remove_destination: true, ..o }
    } else if n == "attributes-only"@ {
        CpSwitches { attributes_only: true, ..o }
    } else if n == "parents"@ || n == "parent"@ {
        CpSwitches { parents: true, ..o }
    } else {
        o
    }
}

/// The effect of a long option that ignores its value.
pub open spec fn cp_lenient(n: Seq<char>, o: CpSwitches) -> CpSwitches {
    if n == "backup"@ {
        CpSwitches { backup: true, ..o }
    } else if n == "update"@ {
        CpSwitches { update: true, ..o }
    } else if n == "preserve"@ {
        CpSwitches { preserve_timestamps: true, preserve_mode: true, ..o }
    } else {
        o
    }
}

/// The effect of one long option at `args[i]`: the new options, and whether
/// it also used the next argument as its value.
pub open spec fn cp_long(arg: Seq<char>, args: Seq<Seq<char>>, i: int, o: CpModel) -> Result<
    (CpModel, bool),
    ExitModel,
> {
    let name = long_parts(arg).0;
    let value = long_parts(arg).1;
    if name == "suffix"@ || name == "target-directory"@ {
        let taken: Result<(Seq<char>, bool), ExitModel> = match value {
            Some(v) => Ok((v, false)),
            None => if i + 1 < args.len() {
                Ok((args[i + 1], true))
            } else {
                Err(fail_with_help(1, "cp"@, msg_needs_value("cp"@, arg)))
            },
        };
        match taken {
            Ok((v, extra)) => if name == "suffix"@ {
                Ok((CpModel { suffix: v, ..o }, extra))
            } else {
                Ok((CpModel { target_directory: Some(v), ..o }, extra))
            },
            Err(e) => Err(e),
        }
    } else if cp_lenient_name(name) {
        Ok((CpModel { flags: cp_lenient(name, o.flags), ..o }, false))
    } else if cp_flag_name(name) {
        if value is Some {
            Err(no_value_exit(1, "cp"@, arg))
        } else {
            Ok((CpModel { flags: cp_flag(name, o.flags), ..o }, false))
        }
    } else {
        Err(fail_with_help(1, "cp"@, msg_unrecognized("cp"@, arg)))
    }
}

/// Whether `n` names a long option that takes no value.
fn is_cp_flag_name(n: &str) -> (r: bool)
    ensures
        r == cp_flag_name(n@),
{
    str_eq(n, "archive") || str_eq(n, "force") || str_eq(n, "interactive") || str_eq(
        n,
        "no-clobber",
    ) || str_eq(n, "recursive") || str_eq(n, "link") || str_eq(n, "symbolic-link") || str_eq(
        n,
        "no-target-directory",
    ) || str_eq(n, "strip-trailing-slashes") || str_eq(n, "verbose") || str_eq(
        n,
        "remove-destination",
    ) || str_eq(n, "attributes-only") || str_eq(n, "parents") || str_eq(n, "parent") || str_eq(
        n,
        "dereference",
    ) || str_eq(n, "no-dereference") || str_eq(n, "debug")
}

/// Whether `n` names a long option that ignores its value.
fn is_cp_lenient_name(n: &str) -> (r: bool)
    ensures
        r == cp_lenient_name(n@),
{
    str_eq(n, "backup") || str_eq(n, "update") || str_eq(n, "one-file-system") || str_eq(
        n,
        "copy-contents",
    ) || str_eq(n, "context") || str_eq(n, "progress-bar") || str_eq(n, "preserve") || str_eq(
        n,
        "no-preserve",
    ) || str_eq(n, "sparse") || str_eq(n, "reflink")
}

/// The options while the arguments are read.
pub struct CpState {
    pub switches: CpSwitches,
    pub suffix: String,
    pub target_directory: Option<String>,
}

/// The plain-value form of the state.
pub open spec fn state_model(s: CpState) -> CpModel {
    CpModel { flags: s.switches, suffix: s.suffix@, target_directory: opt_view(s.target_directory) }
}

/// The switches after a long option that takes no value.
fn cp_flag_switches(n: &str, o: CpSwitches) -> (r: CpSwitches)
    ensures
        r == cp_flag(n@, o),
{
    if str_eq(n, "archive") {
        CpSwitches { recursive: true, preserve_timestamps: true, preserve_mode: true, ..o }
    } else if str_eq(n, "force") {
        CpSwitches { force: true, no_clobber: false, ..o }
    } else if str_eq(n, "interactive") {
        CpSwitches { interactive: true, no_clobber: false, ..o }
    } else if str_eq(n, "no-clobber") {
        CpSwitches { no_clobber: true, interactive: false, ..o }
    } else if str_eq(n, "recursive") {
        CpSwitches { recursive: true, ..o }
    } else if str_eq(n, "link") {
        CpSwitches { link_mode: LinkMode::HardLink, ..o }
    } else if str_eq(n, "symbolic-link") {
        CpSwitches { link_mode: LinkMode::SymbolicLink, ..o }
    } else if str_eq(n, "no-target-directory") {
        CpSwitches { no_target_directory: true, ..o }
    } else if str_eq(n, "strip-trailing-slashes") {
        CpSwitches { strip_trailing_slashes: true, ..o }
    } else if str_eq(n, "verbose") || str_eq(n, "debug") {
        CpSwitches { verbose: true, ..o }
    } else if str_eq(n, "remove-destination") {
        CpSwitches { remove_destination: true, ..o }
    } else if str_eq(n, "attributes-only") {
        CpSwitches { attributes_only: true, ..o }
    } else if str_eq(n, "parents") || str_eq(n, "parent") {
        CpSwitches { parents: true, ..o }
    } else {
        o
    }
}

/// The switches after a long option that ignores its value.
fn cp_lenient_switches(n: &str, o: CpSwitches) -> (r: CpSwitches)
    ensures
        r == cp_lenient(n@, o),
{
    if str_eq(n, "backup") {
        CpSwitches { backup: true, ..o }
    } else if str_eq(n, "update") {
        CpSwitches { update: true, ..o }
    } else if str_eq(n, "preserve") {
        CpSwitches { preserve_timestamps: true, preserve_mode: true, ..o }
    } else {
        o
    }
}

/// Applies the long option `arg` found at `args[index]`; returns the new
/// state and the index after the option and any value it took from the
/// next argument.
#[verifier::spinoff_prover]
pub fn parse_cp_long_option(arg: &str, args: &[String], index: usize, state: CpState) -> (r:
    Result<(CpState, usize), ArgExit>)
    requires
        index < args.len(),
    ensures
        match cp_long(arg@, views(args@), index as int, state_model(state)) {
            Ok((o, extra)) => r matches Ok((st, next)) && state_model(st) == o && next == index
                + if extra {
                2int
            } else {
                1int
            },
            Err(e) => r is Err && exit_model(r->Err_0) == e,
        },
{
    let (name, value) = split_long_option(arg);
    let n = name.as_str();
    if str_eq(n, "suffix") || str_eq(n, "target-directory") {
        let mut next = index;
        match take_long_value("cp", arg, value, args, &mut next) {
            Ok(v) => {
                if str_eq(n, "suffix") {
                    return Ok(
                        (
                            CpState {
                                switches: state.switches,
                                suffix: v,
                                target_directory: state.target_directory,
                            },
                            next,
                        ),
                    );
                } else {
                    return Ok(
                        (
                            CpState {
                                switches: state.switches,
                                suffix: state.suffix,
                                target_directory: Some(v),
                            },
                            next,
                        ),
                    );
                }
            },
            Err(e) => {
                return Err(e);
            },
        }
    }
    if is_cp_lenient_name(n) {
        let sw = cp_lenient_switches(n, state.switches);
        return Ok(
            (
                CpState { switches: sw, suffix: state.suffix, target_directory: state.target_directory },
                index + 1,
            ),
        );
    }
    if is_cp_flag_name(n) {
        if value.is_some() {
            return Err(exit_with_help(1, "cp", no_value_text("cp", arg)));
        }
        let sw = cp_flag_switches(n, state.switches);
        return Ok(
            (
                CpState { switches: sw, suffix: state.suffix, target_directory: state.target_directory },
                index + 1,
            ),
        );
    }
    Err(exit_with_help(1, "cp", unrecognized_text("cp", arg)))
}

/// The effect of a short option letter that takes no value, or `None` for a
/// letter `cp` does not know.
#[verifier::opaque]
pub open spec fn cp_short(c: char, o: CpSwitches) -> Option<CpSwitches> {
    if c == 'a' {
        Some(CpSwitches { recursive: true, preserve_timestamps: true, preserve_mode: true, ..o })
    } else if c == 'b' {
        Some(CpSwitches { backup: true, ..o })
    } else if c == 'd' || c == 'H' || c == 'L' || c == 'P' || c == 'x' || c == 'Z' || c == 'c'
        || c == 'g' {
        Some(o)
    } else if c == 'f' {
        Some(CpSwitches { force: true, no_clobber: false, ..o })
    } else if c == 'i' {
        Some(CpSwitches { interactive: true, no_clobber: false, ..o })
    } else if c == 'l' {
        Some(CpSwitches { link_mode: LinkMode::HardLink, ..o })
    } else if c == 'n' {
        Some(CpSwitches { no_clobber: true, interactive: false, ..o })
    } else if c == 'p' {
        Some(CpSwitches { preserve_timestamps: true, preserve_mode: true, ..o })
    } else if c == 'R' || c == 'r' {
        Some(CpSwitches { recursive: true, ..o })
    } else if c == 's' {
        Some(CpSwitches { link_mode: LinkMode::SymbolicLink, ..o })
    } else if c == 'T' {
        Some(CpSwitches { no_target_directory: true, ..o })
    } else if c == 'u' {
        Some(CpSwitches { update: true, ..o })
    } else if c == 'v' {
        Some(CpSwitches { verbose: true, ..o })
    } else {
        None
    }
}

/// The letters `arg[pos..]` of a short-option cluster at `args[i]` applied
/// in order. `-S` and `-t` take the rest of the cluster as their value, or
/// the next argument when nothing follows them, and end the cluster. The
/// result says whether the next argument was used.
#[verifier::opaque]
pub open spec fn cp_shorts(
    arg: Seq<char>,
    pos: int,
    args: Seq<Seq<char>>,
    i: int,
    o: CpModel,
) -> Result<(CpModel, bool), ExitModel>
    decreases arg.len() - pos,
{
    if pos < 0 || pos >= arg.len() {
        Ok((o, false))
    } else {
        let c = arg[pos];
        if c == 'S' || c == 't' {
            match short_value("cp"@, arg, pos, args, i) {
                Ok((v, extra)) => if c == 'S' {
                    Ok((CpModel { suffix: v, ..o }, extra))
                } else {
                    Ok((CpModel { target_directory: Some(v), ..o }, extra))
                },
                Err(e) => Err(e),
            }
        } else {
            match cp_short(c, o.flags) {
                Some(f) => cp_shorts(arg, pos + 1, args, i, CpModel { flags: f, ..o }),
                None => Err(fail_with_help(1, "cp"@, msg_invalid("cp"@, c))),
            }
        }
    }
}

/// A cluster uses the next argument only when there is one.
pub proof fn lemma_cp_shorts_extra(
    arg: Seq<char>,
    pos: int,
    args: Seq<Seq<char>>,
    i: int,
    o: CpModel,
)
    ensures
        cp_shorts(arg, pos, args, i, o) matches Ok((_, extra)) ==> (extra ==> i + 1 < args.len()),
    decreases arg.len() - pos,
{
    reveal(cp_shorts);
    if 0 <= pos < arg.len() && !(arg[pos] == 'S' || arg[pos] == 't') {
        if let Some(f) = cp_short(arg[pos], o.flags) {
            lemma_cp_shorts_extra(arg, pos + 1, args, i, CpModel { flags: f, ..o });
        }
    }
}

/// The switches after a short option letter that takes no value, or `None`
/// for a letter `cp` does not know.
fn cp_short_switches(c: char, o: CpSwitches) -> (r: Option<CpSwitches>)
    ensures
        r == cp_short(c, o),
{
    reveal(cp_short);
    if c == 'a' {
        Some(CpSwitches { recursive: true, preserve_timestamps: true, preserve_mode: true, ..o })
    } else if c == 'b' {
        Some(CpSwitches { backup: true, ..o })
    } else if c == 'd' || c == 'H' || c == 'L' || c == 'P' || c == 'x' || c == 'Z' || c == 'c'
        || c == 'g' {
        Some(o)
    } else if c == 'f' {
        Some(CpSwitches { force: true, no_clobber: false, ..o })
    } else if c == 'i' {
        Some(CpSwitches { interactive: true, no_clobber: false, ..o })
    } else if c == 'l' {
        Some(CpSwitches { link_mode: LinkMode::HardLink, ..o })
    } else if c == 'n' {
        Some(CpSwitches { no_clobber: true, interactive: false, ..o })
    } else if c == 'p' {
        Some(CpSwitches { preserve_timestamps: true, preserve_mode: true, ..o })
    } else if c == 'R' || c == 'r' {
        Some(CpSwitches { recursive: true, ..o })
    } else if c == 's' {
        Some(CpSwitches { link_mode: LinkMode::SymbolicLink, ..o })
    } else if c == 'T' {
        Some(CpSwitches { no_target_directory: true, ..o })
    } else if c == 'u' {
        Some(CpSwitches { update: true, ..o })
    } else if c == 'v' {
        Some(CpSwitches { verbose: true, ..o })
    } else {
        None
    }
}

/// What a cluster leaves once read: the switches, and the letter that took
/// a value (`S` or `t`) with that value and whether it was the next argument.
pub open spec fn cluster_outcome(
    r: (CpSwitches, Option<(char, String, bool)>),
    m0: CpModel,
) -> (CpModel, bool) {
    match r.1 {
        None => (CpModel { flags: r.0, ..m0 }, false),
        Some((c, v, extra)) => if c == 'S' {
            (CpModel { flags: r.0, suffix: v@, ..m0 }, extra)
        } else {
            (CpModel { flags: r.0, target_directory: Some(v@), ..m0 }, extra)
        },
    }
}

/// Reads the letters of the cluster `chars` found at `args[i0]`, starting
/// from the switches of `m0`.
fn scan_cluster(chars: &Vec<char>, args: &[String], i0: usize, Ghost(m0): Ghost<CpModel>, sw0: CpSwitches) -> (r: Result<
    (CpSwitches, Option<(char, String, bool)>),
    ArgExit,
>)
    requires
        i0 < args.len(),
        sw0 == m0.flags,
    ensures
        match cp_shorts(chars@, 1, views(args@), i0 as int, m0) {
            Ok((o, extra)) => r is Ok && cluster_outcome(r->Ok_0, m0) == (o, extra),
            Err(e) => r is Err && exit_model(r->Err_0) == e,
        },
{
    reveal(cp_shorts);
    let mut sw = sw0;
    let mut pos: usize = 1;
    if chars.len() == 0 {
        return Ok((sw, None));
    }
    while pos < chars.len()
        invariant
            1 <= pos <= chars@.len(),
            i0 < args.len(),
            cp_shorts(chars@, 1, views(args@), i0 as int, m0) == cp_shorts(
                chars@,
                pos as int,
                views(args@),
                i0 as int,
                CpModel { flags: sw, ..m0 },
            ),
        decreases chars.len() - pos,
    {
        reveal(cp_shorts);
        let c = chars[pos];
        if c == 'S' || c == 't' {
            match take_short_value("cp", chars, pos, args, i0) {
                Ok((value, extra)) => {
                    return Ok((sw, Some((c, value, extra))));
                },
                Err(e) => {
                    return Err(e);
                },
            }
        }
        match cp_short_switches(c, sw) {
            Some(next) => {
                sw = next;
            },
            None => {
                return Err(exit_with_help(1, "cp", invalid_text("cp", c)));
            },
        }
        pos = pos + 1;
    }
    Ok((sw, None))
}

/// Applies the short-option cluster `arg` found at `args[index]`; returns
/// the new state and the index after the cluster and any value it took
/// from the next argument.
#[verifier::spinoff_prover]
pub fn parse_cp_short_options(arg: &str, args: &[String], index: usize, state: CpState) -> (r:
    Result<(CpState, usize), ArgExit>)
    requires
        index < args.len(),
    ensures
        match cp_shorts(arg@, 1, views(args@), index as int, state_model(state)) {
            Ok((o, extra)) => r matches Ok((st, next)) && state_model(st) == o && next == index
                + if extra {
                2int
            } else {
                1int
            },
            Err(e) => r is Err && exit_model(r->Err_0) == e,
        },
{
    let chars = chars_of(arg);
    proof {
        lemma_cp_shorts_extra(arg@, 1, views(args@), index as int, state_model(state));
    }
    match scan_cluster(&chars, args, index, Ghost(state_model(state)), state.switches) {
        Ok((sw, taken)) => match taken {
            None => Ok(
                (
                    CpState {
                        switches: sw,
                        suffix: state.suffix,
                        target_directory: state.target_directory,
                    },
                    index + 1,
                ),
            ),
            Some((c, value, extra)) => {
                let next = if extra {
                    index + 2
                } else {
                    index + 1
                };
                if c == 'S' {
                    Ok(
                        (
                            CpState {
                                switches: sw,
                                suffix: value,
                                target_directory: state.target_directory,
                            },
                            next,
                        ),
                    )
                } else {
                    Ok(
                        (
                            CpState { switches: sw, suffix: state.suffix, target_directory: Some(value) },
                            next,
                        ),
                    )
                }
            },
        },
        Err(e) => Err(e),
    }
}

/// The arguments `args[i..]` applied on top of `st` (options and operands).
pub open spec fn cp_args(
    args: Seq<Seq<char>>,
    i: int,
    opts: bool,
    st: (CpModel, Seq<Seq<char>>),
) -> Result<(CpModel, Seq<Seq<char>>), ExitModel>
    decreases args.len() - i,
{
    if i < 0 || i >= args.len() {
        Ok(st)
    } else {
        let a = args[i];
        if opts && is_dashdash(a) {
            cp_args(args, i + 1, false, st)
        } else if opts && (a == "-h"@ || a == "--help"@) {
            Err(ExitModel::Help)
        } else if opts && (a == "-V"@ || a == "--version"@) {
            Err(ExitModel::Version)
        } else if opts && has_prefix(a, "--"@) {
            match cp_long(a, args, i, st.0) {
                Ok((o, extra)) => cp_args(
                    args,
                    if extra {
                        i + 2
                    } else {
                        i + 1
                    },
                    opts,
                    (o, st.1),
                ),
                Err(e) => Err(e),
            }
        } else if opts && has_prefix(a, "-"@) && a != "-"@ {
            match cp_shorts(a, 1, args, i, st.0) {
                Ok((o, extra)) => {
                    proof {
                        lemma_cp_shorts_extra(a, 1, args, i, st.0);
                    }
                    cp_args(
                    args,
                    if extra {
                        i + 2
                    } else {
                        i + 1
                    },
                    opts,
                    (o, st.1),
                )
                },
                Err(e) => Err(e),
            }
        } else {
            cp_args(args, i + 1, opts, (st.0, st.1.push(a)))
        }
    }
}

/// The letters that a `cp` cluster applies without taking a value.
pub open spec fn cp_plain_letter(c: char) -> bool {
    c == 'a' || c == 'b' || c == 'd' || c == 'H' || c == 'L' || c == 'P' || c == 'x' || c == 'Z'
        || c == 'c' || c == 'g' || c == 'f' || c == 'i' || c == 'l' || c == 'n' || c == 'p' || c
        == 'R' || c == 'r' || c == 's' || c == 'T' || c == 'u' || c == 'v'
}

/// The first position at or after `pos` whose letter is not one of those,
/// or the length of `arg` when there is none.
pub open spec fn first_unplain(arg: Seq<char>, pos: int) -> int
    decreases arg.len() - pos,
{
    if pos < 0 || pos >= arg.len() {
        arg.len() as int
    } else if !cp_plain_letter(arg[pos]) {
        pos
    } else {
        first_unplain(arg, pos + 1)
    }
}

proof fn lemma_cp_shorts_error(arg: Seq<char>, pos: int, args: Seq<Seq<char>>, i: int, o: CpModel)
    requires
        pos >= 0,
    ensures
        ({
            let k = first_unplain(arg, pos);
            &&& cp_shorts(arg, pos, args, i, o) is Err <==> k < arg.len() && ((arg[k] != 'S'
                && arg[k] != 't') || (k == arg.len() - 1 && i + 1 >= args.len()))
            &&& k < arg.len() && arg[k] != 'S' && arg[k] != 't' ==> cp_shorts(arg, pos, args, i, o)
                == Err::<(CpModel, bool), ExitModel>(fail_with_help(1, "cp"@, msg_invalid("cp"@, arg[k])))
            &&& k == arg.len() - 1 && (arg[k] == 'S' || arg[k] == 't') && i + 1 >= args.len()
                ==> cp_shorts(arg, pos, args, i, o) == Err::<(CpModel, bool), ExitModel>(
                fail_with_help(1, "cp"@, msg_needs_value("cp"@, seq!['-', arg[k]])),
            )
        }),
    decreases arg.len() - pos,
{
    reveal(cp_shorts);
    reveal(cp_short);
    if pos < arg.len() {
        let c = arg[pos];
        if c == 'S' || c == 't' {
        } else if cp_plain_letter(c) {
            let f = cp_short(c, o.flags).unwrap();
            lemma_cp_shorts_error(arg, pos + 1, args, i, CpModel { flags: f, ..o });
        }
    }
}

/// A short-option cluster of `cp` fails exactly when, after the dash, a
/// letter outside the known set comes before any `-S` or `-t` (reported as
/// an invalid option), or when `-S` or `-t` ends the cluster and no
/// argument follows it (reported as a missing argument).
pub proof fn law_cp_cluster_errors(arg: Seq<char>, args: Seq<Seq<char>>, i: int, o: CpModel)
    ensures
        ({
            let k = first_unplain(arg, 1);
            &&& cp_shorts(arg, 1, args, i, o) is Err <==> k < arg.len() && ((arg[k] != 'S' && arg[k]
                != 't') || (k == arg.len() - 1 && i + 1 >= args.len()))
            &&& k < arg.len() && arg[k] != 'S' && arg[k] != 't' ==> cp_shorts(arg, 1, args, i, o)
                == Err::<(CpModel, bool), ExitModel>(fail_with_help(1, "cp"@, msg_invalid("cp"@, arg[k])))
            &&& k == arg.len() - 1 && (arg[k] == 'S' || arg[k] == 't') && i + 1 >= args.len()
                ==> cp_shorts(arg, 1, args, i, o) == Err::<(CpModel, bool), ExitModel>(
                fail_with_help(1, "cp"@, msg_needs_value("cp"@, seq!['-', arg[k]])),
            )
        }),
{
    lemma_cp_shorts_error(arg, 1, args, i, o);
}

proof fn lemma_cp_operands_only(args: Seq<Seq<char>>, i: int, st: (CpModel, Seq<Seq<char>>))
    requires
        0 <= i <= args.len(),
    ensures
        cp_args(args, i, false, st) == Ok::<(CpModel, Seq<Seq<char>>), ExitModel>(
            (st.0, st.1 + args.subrange(i, args.len() as int)),
        ),
    decreases args.len() - i,
{
    if i < args.len() {
        lemma_cp_operands_only(args, i + 1, (st.0, st.1.push(args[i])));
        assert(st.1.push(args[i]) + args.subrange(i + 1, args.len() as int) =~= st.1
            + args.subrange(i, args.len() as int));
    } else {
        assert(st.1 + args.subrange(i, args.len() as int) =~= st.1);
    }
}

/// `--` ends the options of `cp`: every argument after it is an operand,
/// in order, whatever it looks like, and the options stay as they were.
pub proof fn law_cp_dashdash_ends_options(
    args: Seq<Seq<char>>,
    k: int,
    st: (CpModel, Seq<Seq<char>>),
)
    requires
        0 <= k < args.len(),
        is_dashdash(args[k]),
    ensures
        cp_args(args, k, true, st) == Ok::<(CpModel, Seq<Seq<char>>), ExitModel>(
            (st.0, st.1 + args.subrange(k + 1, args.len() as int)),
        ),
{
    lemma_cp_operands_only(args, k + 1, st);
}

/// A bare `-` among the options of `cp` is an operand.
pub proof fn law_cp_lone_dash_is_operand(
    args: Seq<Seq<char>>,
    k: int,
    st: (CpModel, Seq<Seq<char>>),
)
    requires
        0 <= k < args.len(),
        args[k] == "-"@,
    ensures
        cp_args(args, k, true, st) == cp_args(args, k + 1, true, (st.0, st.1.push(args[k]))),
{
    reveal_strlit("-");
    reveal_strlit("--");
    reveal_strlit("-h");
    reveal_strlit("-V");
    reveal_strlit("--help");
    reveal_strlit("--version");
    assert(!has_prefix(args[k], "--"@));
    assert(args[k] != "-h"@);
    assert(args[k] != "-V"@);
    assert(args[k] != "--help"@);
    assert(args[k] != "--version"@);
}

/// A long option of `cp` that takes no value refuses one: the error names
/// the argument, with the pointer to `--help`.
pub proof fn law_cp_long_flag_refuses_value(
    arg: Seq<char>,
    args: Seq<Seq<char>>,
    i: int,
    o: CpModel,
)
    requires
        cp_flag_name(long_parts(arg).0),
        long_parts(arg).1 is Some,
    ensures
        cp_long(arg, args, i, o) == Err::<(CpModel, bool), ExitModel>(no_value_exit(1, "cp"@, arg)),
{
    lemma_cp_names_apart(long_parts(arg).0);
}

/// A long option that `cp` does not know, by its full name, is refused
/// as unrecognized; no abbreviation is accepted.
pub proof fn law_cp_long_unknown(arg: Seq<char>, args: Seq<Seq<char>>, i: int, o: CpModel)
    requires
        !cp_flag_name(long_parts(arg).0),
        !cp_lenient_name(long_parts(arg).0),
        long_parts(arg).0 != "suffix"@,
        long_parts(arg).0 != "target-directory"@,
    ensures
        cp_long(arg, args, i, o) == Err::<(CpModel, bool), ExitModel>(
            fail_with_help(1, "cp"@, msg_unrecognized("cp"@, arg)),
        ),
{
}

/// `--force`, `--interactive` and `--no-clobber` set their switch, clear the
/// one that contradicts it, keep every other option and use no next
/// argument.
pub proof fn law_cp_overwrite_switches(arg: Seq<char>, args: Seq<Seq<char>>, i: int, o: CpModel)
    requires
        long_parts(arg).1 is None,
        long_parts(arg).0 == "force"@ || long_parts(arg).0 == "interactive"@ || long_parts(arg).0
            == "no-clobber"@,
    ensures
        cp_long(arg, args, i, o) matches Ok((m, extra)) && !extra && m.suffix == o.suffix
            && m.target_directory == o.target_directory && m.flags == (if long_parts(arg).0
            == "force"@ {
            CpSwitches { force: true, no_clobber: false, ..o.flags }
        } else if long_parts(arg).0 == "interactive"@ {
            CpSwitches { interactive: true, no_clobber: false, ..o.flags }
        } else {
            CpSwitches { no_clobber: true, interactive: false, ..o.flags }
        }),
{
    lemma_cp_names_apart(long_parts(arg).0);
}

/// The names of the options that take no value are apart from those that
/// take or ignore one.
proof fn lemma_cp_names_apart(n: Seq<char>)
    ensures
        cp_flag_name(n) ==> !cp_lenient_name(n) && n != "suffix"@ && n != "target-directory"@,
        n == "force"@ ==> n != "archive"@,
        n == "interactive"@ ==> n != "archive"@ && n != "force"@,
        n == "no-clobber"@ ==> n != "archive"@ && n != "force"@ && n != "interactive"@,
{
    reveal_strlit("archive");
    reveal_strlit("force");
    reveal_strlit("interactive");
    reveal_strlit("no-clobber");
    reveal_strlit("recursive");
    reveal_strlit("link");
    reveal_strlit("symbolic-link");
    reveal_strlit("no-target-directory");
    reveal_strlit("strip-trailing-slashes");
    reveal_strlit("verbose");
    reveal_strlit("remove-destination");
    reveal_strlit("attributes-only");
    reveal_strlit("parents");
    reveal_strlit("parent");
    reveal_strlit("dereference");
    reveal_strlit("no-dereference");
    reveal_strlit("debug");
    reveal_strlit("backup");
    reveal_strlit("update");
    reveal_strlit("one-file-system");
    reveal_strlit("copy-contents");
    reveal_strlit("context");
    reveal_strlit("progress-bar");
    reveal_strlit("preserve");
    reveal_strlit("no-preserve");
    reveal_strlit("sparse");
    reveal_strlit("reflink");
    reveal_strlit("suffix");
    reveal_strlit("target-directory");
    assert("archive"@.len() == 7 && "archive"@[0] == 'a');
    assert("force"@.len() == 5 && "force"@[0] == 'f');
    assert("interactive"@.len() == 11 && "interactive"@[0] == 'i');
    assert("no-clobber"@.len() == 10 && "no-clobber"@[0] == 'n');
    assert("recursive"@.len() == 9 && "recursive"@[0] == 'r');
    assert("link"@.len() == 4 && "link"@[0] == 'l');
    assert("symbolic-link"@.len() == 13 && "symbolic-link"@[0] == 's');
    assert("no-target-directory"@.len() == 19 && "no-target-directory"@[0] == 'n');
    assert("strip-trailing-slashes"@.len() == 22 && "strip-trailing-slashes"@[0] == 's');
    assert("verbose"@.len() == 7 && "verbose"@[0] == 'v');
    assert("remove-destination"@.len() == 18 && "remove-destination"@[0] == 'r');
    assert("attributes-only"@.len() == 15 && "attributes-only"@[0] == 'a');
    assert("parents"@.len() == 7 && "parents"@[0] == 'p');
    assert("parent"@.len() == 6 && "parent"@[0] == 'p');
    assert("dereference"@.len() == 11 && "dereference"@[0] == 'd');
    assert("no-dereference"@.len() == 14 && "no-dereference"@[0] == 'n');
    assert("debug"@.len() == 5 && "debug"@[0] == 'd');
    assert("backup"@.len() == 6 && "backup"@[0] == 'b');
    assert("update"@.len() == 6 && "update"@[0] == 'u');
    assert("one-file-system"@.len() == 15 && "one-file-system"@[0] == 'o');
    assert("copy-contents"@.len() == 13 && "copy-contents"@[0] == 'c');
    assert("context"@.len() == 7 && "context"@[0] == 'c');
    assert("progress-bar"@.len() == 12 && "progress-bar"@[0] == 'p');
    assert("preserve"@.len() == 8 && "preserve"@[0] == 'p');
    assert("no-preserve"@.len() == 11 && "no-preserve"@[0] == 'n');
    assert("sparse"@.len() == 6 && "sparse"@[0] == 's');
    assert("reflink"@.len() == 7 && "reflink"@[0] == 'r');
    assert("suffix"@.len() == 6 && "suffix"@[0] == 's');
    assert("target-directory"@.len() == 16 && "target-directory"@[0] == 't');
}

/// The options a finished parse describes.
fn options_from_state(st: CpState) -> (r: CpOptions)
    ensures
        cp_model(r) == state_model(st),
{
    let w = st.switches;
    CpOptions {
        recursive: w.recursive,
        verbose: w.verbose,
        force: w.force,
        interactive: w.interactive,
        no_clobber: w.no_clobber,
        update: w.update,
        backup: w.backup,
        suffix: st.suffix,
        target_directory: st.target_directory,
        no_target_directory: w.no_target_directory,
        strip_trailing_slashes: w.strip_trailing_slashes,
        remove_destination: w.remove_destination,
        attributes_only: w.attributes_only,
        parents: w.parents,
        preserve_timestamps: w.preserve_timestamps,
        preserve_mode: w.preserve_mode,
        link_mode: w.link_mode,
    }
}

/// Parses the arguments of `cp` into options and operands.
pub fn parse_cp_args(args: &[String]) -> (r: Result<(CpOptions, Vec<String>), ArgExit>)
    ensures
        match cp_args(views(args@), 0, true, (cp_defaults(), Seq::empty())) {
            Ok((o, ops)) => r is Ok && cp_model(r->Ok_0.0) == o && views(r->Ok_0.1@) == ops,
            Err(e) => r is Err && exit_model(r->Err_0) == e,
        },
{
    let mut state = CpState {
        switches: CpSwitches {
            recursive: false,
            verbose: false,
            force: false,
            interactive: false,
            no_clobber: false,
            update: false,
            backup: false,
            no_target_directory: false,
            strip_trailing_slashes: false,
            remove_destination: false,
            attributes_only: false,
            parents: false,
            preserve_timestamps: false,
            preserve_mode: false,
            link_mode: LinkMode::Copy,
        },
        suffix: owned("~"),
        target_directory: None,
    };
    let mut operands: Vec<String> = Vec::new();
    let mut parse_options = true;
    let ghost all = views(args@);
    let mut index: usize = 0;
    assert(views(operands@) =~= Seq::<Seq<char>>::empty());
    while index < args.len()
        invariant
            index <= args@.len(),
            all == views(args@),
            cp_args(all, 0, true, (cp_defaults(), Seq::empty())) == cp_args(
                all,
                index as int,
                parse_options,
                (state_model(state), views(operands@)),
            ),
        decreases args.len() - index,
    {
        let arg = args[index].as_str();
        assert(all[index as int] == arg@);
        if parse_options && arg_is_dashdash(arg) {
            parse_options = false;
            index = index + 1;
            continue;
        }
        if parse_options && (str_eq(arg, "-h") || str_eq(arg, "--help")) {
            return Err(ArgExit::Help);
        }
        if parse_options && (str_eq(arg, "-V") || str_eq(arg, "--version")) {
            return Err(ArgExit::Version);
        }
        if parse_options && str_starts_with(arg, "--") {
            let (st, next) = parse_cp_long_option(arg, args, index, state)?;
            state = st;
            index = next;
            continue;
        }
        if parse_options && str_starts_with(arg, "-") && !str_eq(arg, "-") {
            proof {
                lemma_cp_shorts_extra(arg@, 1, all, index as int, state_model(state));
            }
            let (st, next) = parse_cp_short_options(arg, args, index, state)?;
            state = st;
            index = next;
            continue;
        }
        let ghost before = views(operands@);
        operands.push(args[index].clone());
        assert(views(operands@) =~= before.push(arg@));
        index = index + 1;
    }
    Ok((options_from_state(state), operands))
}

/// The sources and the destination operand, or the error for too few
/// operands.
pub open spec fn copy_operands(target: Option<Seq<char>>, ops: Seq<Seq<char>>) -> Result<
    (Seq<Seq<char>>, Seq<char>),
    ExitModel,
> {
    if ops.len() == 0 {
        Err(fail_with_help(1, "cp"@, "cp: missing file operand"@))
    } else {
        match target {
            Some(t) => Ok((ops, t)),
            None => if ops.len() < 2 {
                Err(
                    fail_with_help(
                        1,
                        "cp"@,
                        "cp: missing destination file operand after '"@ + ops[0] + "'"@,
                    ),
                )
            } else {
                Ok((ops.drop_last(), ops.last()))
            },
        }
    }
}

/// Splits the operands into sources and the destination: the target
/// directory when one was given, else the last operand.
pub fn split_copy_operands(options: &CpOptions, operands: &[String]) -> (r: Result<
    (Vec<String>, String),
    ArgExit,
>)
    ensures
        match copy_operands(opt_view(options.target_directory), views(operands@)) {
            Ok((srcs, dest)) => r matches Ok((s, d)) && views(s@) == srcs && d@ == dest,
            Err(e) => r is Err && exit_model(r->Err_0) == e,
        },
{
    if operands.len() == 0 {
        return Err(exit_with_help(1, "cp", owned("cp: missing file operand")));
    }
    match &options.target_directory {
        Some(t) => Ok((clone_strings(operands), t.clone())),
        None => {
            if operands.len() < 2 {
                assert(views(operands@)[0] == operands@[0]@);
                return Err(
                    exit_with_help(
                        1,
                        "cp",
                        owned("cp: missing destination file operand after '").concat(
                            operands[0].as_str(),
                        ).concat("'"),
                    ),
                );
            }
            let split = operands.len() - 1;
            let mut sources: Vec<String> = Vec::new();
            let mut k: usize = 0;
            while k < split
                invariant
                    k <= split,
                    split == operands@.len() - 1,
                    views(sources@) == views(operands@).subrange(0, k as int),
                decreases split - k,
            {
                let ghost before = views(sources@);
                sources.push(operands[k].clone());
                assert(views(sources@) =~= before.push(operands@[k as int]@));
                assert(views(operands@).subrange(0, k + 1) =~= views(operands@).subrange(
                    0,
                    k as int,
                ).push(operands@[k as int]@));
                k = k + 1;
            }
            assert(views(operands@).subrange(0, split as int) =~= views(operands@).drop_last());
            assert(views(operands@).last() == operands@[split as int]@);
            Ok((sources, operands[split].clone()))
        },
    }
}

/// Several sources, or a target directory, need a destination that is a
/// directory.
pub fn needs_directory_target(options: &CpOptions, source_count: usize) -> (r: bool)
    ensures
        r == (source_count > 1 || options.target_directory is Some),
{
    source_count > 1 || options.target_directory.is_some()
}

/// The name shown for a source operand: without trailing separators under
/// `--strip-trailing-slashes`.
pub fn source_display(options: &CpOptions, operand: &str) -> (r: String)
    ensures
        r@ == if options.strip_trailing_slashes {
            strip_seps_or_keep(operand@)
        } else {
            operand@
        },
{
    if options.strip_trailing_slashes {
        strip_trailing_separators(operand)
    } else {
        owned(operand)
    }
}

/// Where a source lands: `None` for the destination itself, or the names to
/// join to the destination. With several sources, or a destination that is
/// a directory (unless `-T`), the source keeps its name, or its whole
/// relative path under `--parents`.
pub open spec fn target_of(
    o: CpModel,
    multiple: bool,
    dest_is_dir: bool,
    display: Seq<char>,
    resolved: Option<Seq<char>>,
    windows: bool,
) -> Option<Seq<Seq<char>>> {
    if multiple || (dest_is_dir && !o.flags.no_target_directory) {
        if o.flags.parents {
            Some(parent_preserving(display, windows))
        } else {
            Some(seq![basename_of(display, resolved, windows)])
        }
    } else {
        None
    }
}

/// Decides where a source is copied to; `resolved` is the last name of the
/// path the source leads to.
pub fn copy_target(
    options: &CpOptions,
    multiple: bool,
    dest_is_dir: bool,
    display: &str,
    resolved: Option<String>,
    windows: bool,
) -> (r: Option<Vec<String>>)
    ensures
        match target_of(cp_model(*options), multiple, dest_is_dir, display@, opt_view(resolved), windows) {
            Some(names) => r is Some && views(r->0@) == names,
            None => r is None,
        },
{
    if multiple || (dest_is_dir && !options.no_target_directory) {
        if options.parents {
            Some(parent_preserving_relative_path(display, windows))
        } else {
            let b = source_basename(display, resolved, windows);
            let mut one: Vec<String> = Vec::new();
            one.push(b);
            assert(views(one@) =~= seq![b@]);
            Some(one)
        }
    } else {
        None
    }
}

/// What `cp` does about a destination that may already exist.
#[derive(Clone, Copy, Debug, PartialEq, Eq, Structural)]
pub enum OverwriteStep {
    /// Leave the destination as it is and go on.
    Skip,
    /// Ask `cp: overwrite 'DEST'? ` and copy only on a yes.
    Ask,
    /// Copy.
    Proceed,
}

/// The step for a destination: with `-u` a destination that is not older
/// than the source is kept; an existing destination is kept under `-n`, and
/// asked about under `-i`.
pub open spec fn overwrite_of(o: CpModel, exists: bool, up_to_date: bool) -> OverwriteStep {
    if o.flags.update && exists && up_to_date {
        OverwriteStep::Skip
    } else if exists && o.flags.no_clobber {
        OverwriteStep::Skip
    } else if exists && o.flags.interactive {
        OverwriteStep::Ask
    } else {
        OverwriteStep::Proceed
    }
}

/// Decides whether to copy over a destination; `up_to_date` tells that both
/// modification times are known and the destination's is not earlier.
pub fn overwrite_step(options: &CpOptions, exists: bool, up_to_date: bool) -> (r: OverwriteStep)
    ensures
        r == overwrite_of(cp_model(*options), exists, up_to_date),
{
    if options.update && exists && up_to_date {
        OverwriteStep::Skip
    } else if exists && options.no_clobber {
        OverwriteStep::Skip
    } else if exists && options.interactive {
        OverwriteStep::Ask
    } else {
        OverwriteStep::Proceed
    }
}

/// What is done to an existing destination before copying.
#[derive(Clone, Copy, Debug, PartialEq, Eq, Structural)]
pub enum PrepareStep {
    /// Nothing: it is overwritten in place.
    Keep,
    /// Remove it first.
    Remove,
    /// Refuse: a directory cannot be overwritten by a file.
    RefuseDirectory,
}

/// The step for an existing destination: removed first under
/// `--remove-destination`, `-f`, or when making links; a directory is
/// otherwise refused.
pub open spec fn prepare_of(o: CpModel, dest_is_dir: bool) -> PrepareStep {
    if o.flags.remove_destination || o.flags.force || o.flags.link_mode != LinkMode::Copy {
        PrepareStep::Remove
    } else if dest_is_dir {
        PrepareStep::RefuseDirectory
    } else {
        PrepareStep::Keep
    }
}

/// Decides what to do with an existing destination (after any backup).
pub fn prepare_step(options: &CpOptions, dest_is_dir: bool) -> (r: PrepareStep)
    ensures
        r == prepare_of(cp_model(*options), dest_is_dir),
{
    if options.remove_destination || options.force || options.link_mode != LinkMode::Copy {
        PrepareStep::Remove
    } else if dest_is_dir {
        PrepareStep::RefuseDirectory
    } else {
        PrepareStep::Keep
    }
}

} // verus!
