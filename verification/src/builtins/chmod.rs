//! `chmod`: option parsing and the meaning of a mode. On this platform a
//! mode only decides whether a file is read-only: write permission maps to
//! the read-only attribute.
use vstd::prelude::*;
use crate::builtins::opts::{
    arg_is_dashdash, exit_model, exit_with_help, exit_with_line, fail_with_help, invalid_text,
    is_dashdash, long_parts, long_value, msg_invalid, msg_needs_value, msg_unrecognized,
    no_value_exit, no_value_text, split_long_option, take_long_value, unrecognized_text, ArgExit,
    ExitModel,
};
use crate::builtins::paths::{trim_trailing_seps, trimmed_len};
use crate::text::{
    chars_of, clone_strings, has_char, has_prefix, opt_view, owned, split_by, split_chars,
    str_eq, str_starts_with, string_of_range, views, vviews,
};

verus! {

/// How much `chmod` reports.
#[derive(Clone, Copy, Debug, PartialEq, Eq, Structural)]
pub enum Verbosity {
    Quiet,
    Changes,
    Verbose,
}

/// The options of `chmod`.
#[derive(Debug, PartialEq, Eq)]
pub struct ChmodOptions {
    pub recursive: bool,
    pub verbosity: Verbosity,
    pub silent: bool,
    pub preserve_root: bool,
    pub reference: Option<String>,
}

/// `ChmodOptions` as plain values.
pub struct ChmodModel {
    pub recursive: bool,
    pub verbosity: Verbosity,
    pub silent: bool,
    pub preserve_root: bool,
    pub reference: Option<Seq<char>>,
}

/// The plain-value form of the options.
pub open spec fn chmod_model(o: ChmodOptions) -> ChmodModel {
    ChmodModel {
        recursive: o.recursive,
        verbosity: o.verbosity,
        silent: o.silent,
        preserve_root: o.preserve_root,
        reference: opt_view(o.reference),
    }
}

/// The options before any argument is read.
pub open spec fn chmod_defaults() -> ChmodModel {
    ChmodModel {
        recursive: false,
        verbosity: Verbosity::Quiet,
        silent: false,
        preserve_root: true,
        reference: None,
    }
}

impl Default for ChmodOptions {
    fn default() -> (r: Self)
        ensures
            chmod_model(r) == chmod_defaults(),
    {
        ChmodOptions {
            recursive: false,
            verbosity: Verbosity::Quiet,
            silent: false,
            preserve_root: true,
            reference: None,
        }
    }
}

/// What a mode does to a file.
#[derive(Clone, Copy, Debug, PartialEq, Eq, Structural)]
pub enum ModeChange {
    /// Make the file read-only (`true`) or writable (`false`).
    SetReadonly(bool),
    /// Leave the file as it is.
    Noop,
}

/// The effect of one long option at `args[i]`: the new options, and whether
/// it also used the next argument as its value.
pub open spec fn chmod_long(arg: Seq<char>, args: Seq<Seq<char>>, i: int, o: ChmodModel) -> Result<
    (ChmodModel, bool),
    ExitModel,
> {
    let name = long_parts(arg).0;
    let value = long_parts(arg).1;
    if name == "reference"@ {
        match value {
            Some(v) => Ok((ChmodModel { reference: Some(v), ..o }, false)),
            None => if i + 1 < args.len() {
                Ok((ChmodModel { reference: Some(args[i + 1]), ..o }, true))
            } else {
                Err(fail_with_help(1, "chmod"@, msg_needs_value("chmod"@, arg)))
            },
        }
    } else if !(name == "changes"@ || name == "silent"@ || name == "quiet"@ || name == "verbose"@
        || name == "recursive"@ || name == "dereference"@ || name == "preserve-root"@ || name
        == "no-preserve-root"@) {
        Err(fail_with_help(1, "chmod"@, msg_unrecognized("chmod"@, arg)))
    } else if value is Some {
        Err(no_value_exit(1, "chmod"@, arg))
    } else if name == "changes"@ {
        Ok((ChmodModel { verbosity: Verbosity::Changes, ..o }, false))
    } else if name == "silent"@ || name == "quiet"@ {
        Ok((ChmodModel { silent: true, ..o }, false))
    } else if name == "verbose"@ {
        Ok((ChmodModel { verbosity: Verbosity::Verbose, ..o }, false))
    } else if name == "recursive"@ {
        Ok((ChmodModel { recursive: true, ..o }, false))
    } else if name == "no-preserve-root"@ {
        Ok((ChmodModel { preserve_root: false, ..o }, false))
    } else {
        Ok((ChmodModel { preserve_root: true, ..o }, false))
    }
}

/// Applies the long option `arg` found at `args[*index]`, advancing `index`
/// past it and past its value when the value is the next argument.
pub fn parse_chmod_long_option(
    arg: &str,
    args: &[String],
    index: &mut usize,
    options: &mut ChmodOptions,
) -> (r: Result<(), ArgExit>)
    requires
        *old(index) < args.len(),
    ensures
        match chmod_long(arg@, views(args@), *old(index) as int, chmod_model(*old(options))) {
            Ok((o, extra)) => r is Ok && chmod_model(*final(options)) == o && *final(index) == *old(
                index,
            ) + if extra {
                2int
            } else {
                1int
            },
            Err(e) => r is Err && exit_model(r->Err_0) == e,
        },
{
    let (name, value) = split_long_option(arg);
    let n = name.as_str();
    if str_eq(n, "reference") {
        match take_long_value("chmod", arg, value, args, index) {
            Ok(v) => {
                options.reference = Some(v);
                return Ok(());
            },
            Err(e) => {
                return Err(e);
            },
        }
    }
    let known = str_eq(n, "changes") || str_eq(n, "silent") || str_eq(n, "quiet") || str_eq(
        n,
        "verbose",
    ) || str_eq(n, "recursive") || str_eq(n, "dereference") || str_eq(n, "preserve-root")
        || str_eq(n, "no-preserve-root");
    if !known {
        return Err(exit_with_help(1, "chmod", unrecognized_text("chmod", arg)));
    }
    if value.is_some() {
        return Err(exit_with_help(1, "chmod", no_value_text("chmod", arg)));
    }
    if str_eq(n, "changes") {
        options.verbosity = Verbosity::Changes;
    } else if str_eq(n, "silent") || str_eq(n, "quiet") {
        options.silent = true;
    } else if str_eq(n, "verbose") {
        options.verbosity = Verbosity::Verbose;
    } else if str_eq(n, "recursive") {
        options.recursive = true;
    } else if str_eq(n, "no-preserve-root") {
        options.preserve_root = false;
    } else {
        options.preserve_root = true;
    }
    *index = *index + 1;
    Ok(())
}

/// A short option letter `chmod` knows.
pub open spec fn chmod_short_letter(c: char) -> bool {
    c == 'c' || c == 'f' || c == 'v' || c == 'R' || c == 'H' || c == 'L' || c == 'P'
}

/// Every letter after the leading `-` is a known short option; otherwise
/// the argument is taken as a mode such as `-w`.
pub open spec fn known_shorts(arg: Seq<char>) -> bool {
    forall|k: int| 1 <= k < arg.len() ==> chmod_short_letter(#[trigger] arg[k])
}

/// Whether every letter after the leading `-` is a known short option.
pub fn known_chmod_short_options(arg: &str) -> (r: bool)
    ensures
        r == known_shorts(arg@),
{
    let v = chars_of(arg);
    let mut k: usize = 1;
    while k < v.len()
        invariant
            1 <= k,
            v@ == arg@,
            forall|q: int| 1 <= q < k && q < v@.len() ==> chmod_short_letter(#[trigger] v@[q]),
        decreases v.len() - k,
    {
        let c = v[k];
        if !(c == 'c' || c == 'f' || c == 'v' || c == 'R' || c == 'H' || c == 'L' || c == 'P') {
            return false;
        }
        k = k + 1;
    }
    true
}

/// The letters `arg[i..]` of a cluster of short options applied in order.
pub open spec fn chmod_shorts(arg: Seq<char>, i: int, o: ChmodModel) -> Result<
    ChmodModel,
    ExitModel,
>
    decreases arg.len() - i,
{
    if i < 0 || i >= arg.len() {
        Ok(o)
    } else {
        let c = arg[i];
        if c == 'c' {
            chmod_shorts(arg, i + 1, ChmodModel { verbosity: Verbosity::Changes, ..o })
        } else if c == 'f' {
            chmod_shorts(arg, i + 1, ChmodModel { silent: true, ..o })
        } else if c == 'v' {
            chmod_shorts(arg, i + 1, ChmodModel { verbosity: Verbosity::Verbose, ..o })
        } else if c == 'R' {
            chmod_shorts(arg, i + 1, ChmodModel { recursive: true, ..o })
        } else if c == 'H' || c == 'L' || c == 'P' {
            chmod_shorts(arg, i + 1, o)
        } else {
            Err(fail_with_help(1, "chmod"@, msg_invalid("chmod"@, c)))
        }
    }
}

/// Applies a cluster of short options such as `-Rv`.
pub fn parse_chmod_short_options(arg: &str, options: &mut ChmodOptions) -> (r: Result<(), ArgExit>)
    ensures
        match chmod_shorts(arg@, 1, chmod_model(*old(options))) {
            Ok(o) => r is Ok && chmod_model(*final(options)) == o,
            Err(e) => r is Err && exit_model(r->Err_0) == e,
        },
{
    let v = chars_of(arg);
    if v.len() == 0 {
        return Ok(());
    }
    let mut i: usize = 1;
    while i < v.len()
        invariant
            1 <= i <= v@.len(),
            v@ == arg@,
            chmod_shorts(arg@, 1, chmod_model(*old(options))) == chmod_shorts(
                arg@,
                i as int,
                chmod_model(*options),
            ),
        decreases v.len() - i,
    {
        let c = v[i];
        if c == 'c' {
            options.verbosity = Verbosity::Changes;
        } else if c == 'f' {
            options.silent = true;
        } else if c == 'v' {
            options.verbosity = Verbosity::Verbose;
        } else if c == 'R' {
            options.recursive = true;
        } else if c == 'H' || c == 'L' || c == 'P' {
        } else {
            return Err(exit_with_help(1, "chmod", invalid_text("chmod", c)));
        }
        i = i + 1;
    }
    Ok(())
}

/// The arguments `args[i..]` applied on top of `o`: the options, and the
/// operands, which start at the first argument that is not an option.
pub open spec fn chmod_args(args: Seq<Seq<char>>, i: int, opts: bool, o: ChmodModel) -> Result<
    (ChmodModel, Seq<Seq<char>>),
    ExitModel,
>
    decreases args.len() - i,
{
    if i < 0 || i >= args.len() {
        Ok((o, Seq::empty()))
    } else {
        let a = args[i];
        if opts && is_dashdash(a) {
            chmod_args(args, i + 1, false, o)
        } else if opts && (a == "-h"@ || a == "--help"@) {
            Err(ExitModel::Help)
        } else if opts && (a == "-V"@ || a == "--version"@) {
            Err(ExitModel::Version)
        } else if opts && has_prefix(a, "--"@) {
            match chmod_long(a, args, i, o) {
                Ok((o2, extra)) => chmod_args(
                    args,
                    if extra {
                        i + 2
                    } else {
                        i + 1
                    },
                    opts,
                    o2,
                ),
                Err(e) => Err(e),
            }
        } else if opts && has_prefix(a, "-"@) && a != "-"@ && known_shorts(a) {
            match chmod_shorts(a, 1, o) {
                Ok(o2) => chmod_args(args, i + 1, opts, o2),
                Err(e) => Err(e),
            }
        } else {
            Ok((o, args.subrange(i, args.len() as int)))
        }
    }
}

/// Parses the arguments of `chmod` into options and operands (the mode, or
/// the files when `--reference` is given, comes first among the operands).
pub fn parse_chmod_args(args: &[String]) -> (r: Result<(ChmodOptions, Vec<String>), ArgExit>)
    ensures
        match chmod_args(views(args@), 0, true, chmod_defaults()) {
            Ok((o, ops)) => r is Ok && chmod_model(r->Ok_0.0) == o && views(r->Ok_0.1@) == ops,
            Err(e) => r is Err && exit_model(r->Err_0) == e,
        },
{
    let mut options = ChmodOptions::default();
    let mut parse_options = true;
    let ghost all = views(args@);
    let mut index: usize = 0;
    while index < args.len()
        invariant
            index <= args@.len(),
            all == views(args@),
            chmod_args(all, 0, true, chmod_defaults()) == chmod_args(
                all,
                index as int,
                parse_options,
                chmod_model(options),
            ),
        decreases args.len() - index,
    {
        let arg = args[index].as_str();
        assert(all[index as int] == arg@);
        if parse_options && arg_is_dashdash(arg) {
            parse_options = false;
            index = index + 1;
            continue;
        }
        if parse_options && (str_eq(arg, "-h") || str_eq(arg, "--help")) {
            return Err(ArgExit::Help);
        }
        if parse_options && (str_eq(arg, "-V") || str_eq(arg, "--version")) {
            return Err(ArgExit::Version);
        }
        if parse_options && str_starts_with(arg, "--") {
            parse_chmod_long_option(arg, args, &mut index, &mut options)?;
            continue;
        }
        if parse_options && str_starts_with(arg, "-") && !str_eq(arg, "-")
            && known_chmod_short_options(arg) {
            parse_chmod_short_options(arg, &mut options)?;
            index = index + 1;
            continue;
        }
        let mut operands: Vec<String> = Vec::new();
        let mut k = index;
        while k < args.len()
            invariant
                index <= k <= args@.len(),
                all == views(args@),
                views(operands@) == all.subrange(index as int, k as int),
            decreases args.len() - k,
        {
            let ghost before = views(operands@);
            operands.push(args[k].clone());
            assert(views(operands@) =~= before.push(all[k as int]));
            assert(all.subrange(index as int, k + 1) =~= all.subrange(index as int, k as int).push(
                all[k as int],
            ));
            k = k + 1;
        }
        return Ok((options, operands));
    }
    let operands: Vec<String> = Vec::new();
    assert(views(operands@) =~= Seq::<Seq<char>>::empty());
    Ok((options, operands))
}

/// `+`, `-` or `=`: the operators of a symbolic mode.
pub open spec fn is_mode_op(c: char) -> bool {
    c == '+' || c == '-' || c == '='
}

/// The index of the first operator at or after `from`, or the length.
pub open spec fn next_op(cl: Seq<char>, from: int) -> int
    decreases cl.len() - from,
{
    if from < 0 || from >= cl.len() {
        cl.len() as int
    } else if is_mode_op(cl[from]) {
        from
    } else {
        next_op(cl, from + 1)
    }
}

/// The read-only setting after the operators of clause `cl` from position
/// `k` on: `+` with `w` among its permissions makes the file writable, `-`
/// with `w` makes it read-only, and `=` makes it read-only unless `w` is
/// among its permissions.
pub open spec fn clause_scan(cl: Seq<char>, k: int, ch: Option<bool>) -> Option<bool>
    decreases cl.len() - k,
{
    if k < 0 || k >= cl.len() {
        ch
    } else if is_mode_op(cl[k]) {
        let w = has_char(cl.subrange(k + 1, next_op(cl, k + 1)), 'w');
        let ch2 = if cl[k] == '+' {
            if w {
                Some(false)
            } else {
                ch
            }
        } else if cl[k] == '-' {
            if w {
                Some(true)
            } else {
                ch
            }
        } else {
            Some(!w)
        };
        clause_scan(cl, k + 1, ch2)
    } else {
        clause_scan(cl, k + 1, ch)
    }
}

/// The read-only setting after the clauses `cls[i..]`, or `None` when one
/// of them is empty.
pub open spec fn mode_scan(cls: Seq<Seq<char>>, i: int, ch: Option<bool>) -> Option<Option<bool>>
    decreases cls.len() - i,
{
    if i < 0 || i >= cls.len() {
        Some(ch)
    } else if cls[i].len() == 0 {
        None
    } else {
        mode_scan(cls, i + 1, clause_scan(cls[i], 0, ch))
    }
}

/// Every character is an octal digit.
pub open spec fn all_octal(s: Seq<char>) -> bool {
    forall|i: int| 0 <= i < s.len() ==> '0' <= #[trigger] s[i] <= '7'
}

/// The value of a run of octal digits.
pub open spec fn octal_value(s: Seq<char>) -> int
    decreases s.len(),
{
    if s.len() == 0 {
        0
    } else {
        octal_value(s.drop_last()) * 8 + (s.last() as int - 48)
    }
}

/// The error for a mode that cannot be read.
pub open spec fn invalid_mode(mode: Seq<char>) -> ExitModel {
    ExitModel::Error(1, seq!["chmod: invalid mode: '"@ + mode + "'"@])
}

/// What a mode means: an octal number (read-only when no write bit is set),
/// or comma-separated symbolic clauses; a mode with no write change leaves
/// files alone.
pub open spec fn mode_change_of(mode: Seq<char>) -> Result<ModeChange, ExitModel> {
    if mode.len() == 0 {
        Err(invalid_mode(mode))
    } else if all_octal(mode) {
        if octal_value(mode) <= u32::MAX {
            Ok(ModeChange::SetReadonly(((octal_value(mode) as u32) & 0o222u32) == 0u32))
        } else {
            Err(invalid_mode(mode))
        }
    } else {
        match mode_scan(split_by(mode, ','), 0, None) {
            None => Err(invalid_mode(mode)),
            Some(Some(b)) => Ok(ModeChange::SetReadonly(b)),
            Some(None) => Ok(ModeChange::Noop),
        }
    }
}

proof fn lemma_split_without_sep(s: Seq<char>, c: char)
    requires
        !has_char(s, c),
    ensures
        split_by(s, c) == seq![s],
    decreases s.len(),
{
    if s.len() > 0 {
        let p = s.drop_last();
        assert(!has_char(p, c)) by {
            if has_char(p, c) {
                let j = choose|j: int| 0 <= j < p.len() && p[j] == c;
                assert(s[j] == c);
            }
        }
        lemma_split_without_sep(p, c);
        assert(s.last() != c) by {
            assert(s[s.len() - 1] == s.last());
        }
        assert(p.push(s.last()) =~= s);
        let prev = split_by(p, c);
        assert(prev.len() == 1 && prev.last() == p);
        assert(prev.update(0, s) =~= seq![s]);
    } else {
        assert(s =~= Seq::<char>::empty());
    }
}

proof fn lemma_next_op_at_end(cl: Seq<char>, from: int)
    requires
        0 <= from <= cl.len(),
        forall|j: int| from <= j < cl.len() ==> !is_mode_op(#[trigger] cl[j]),
    ensures
        next_op(cl, from) == cl.len(),
    decreases cl.len() - from,
{
    if from < cl.len() {
        lemma_next_op_at_end(cl, from + 1);
    }
}

proof fn lemma_clause_scan_skip(cl: Seq<char>, k: int, j: int, ch: Option<bool>)
    requires
        0 <= k <= j <= cl.len(),
        forall|m: int| k <= m < j ==> !is_mode_op(#[trigger] cl[m]),
    ensures
        clause_scan(cl, k, ch) == clause_scan(cl, j, ch),
    decreases j - k,
{
    if k < j {
        lemma_clause_scan_skip(cl, k + 1, j, ch);
    }
}

/// Law: a symbolic mode of one clause, `who` then one operator then the
/// permissions, acts on writability by its operator: `+` with `w` makes the
/// file writable and `-` with `w` makes it read-only (so the two give
/// opposite results), `=` makes it read-only exactly when `w` is missing,
/// and `+` or `-` without `w` leaves the file alone.
pub proof fn law_symbolic_write_clause(who: Seq<char>, op: char, perms: Seq<char>)
    requires
        is_mode_op(op),
        forall|j: int| 0 <= j < who.len() ==> !is_mode_op(#[trigger] who[j]) && who[j] != ',',
        forall|j: int| 0 <= j < perms.len() ==> !is_mode_op(#[trigger] perms[j]) && perms[j] != ',',
    ensures
        mode_change_of(who + seq![op] + perms) == (if op == '=' {
            Ok::<ModeChange, ExitModel>(ModeChange::SetReadonly(!has_char(perms, 'w')))
        } else if has_char(perms, 'w') {
            Ok(ModeChange::SetReadonly(op == '-'))
        } else {
            Ok(ModeChange::Noop)
        }),
{
    let mode = who + seq![op] + perms;
    let k = who.len() as int;
    assert(mode[k] == op);
    assert(!all_octal(mode)) by {
        assert(!('0' <= mode[k] <= '7'));
    }
    assert(!has_char(mode, ',')) by {
        if has_char(mode, ',') {
            let j = choose|j: int| 0 <= j < mode.len() && mode[j] == ',';
            if j < k {
                assert(mode[j] == who[j]);
            } else if j > k {
                assert(mode[j] == perms[j - k - 1]);
            }
        }
    }
    lemma_split_without_sep(mode, ',');
    let cls = split_by(mode, ',');
    assert(cls[0] == mode);
    assert(mode_scan(cls, 1, clause_scan(mode, 0, None)) == Some(clause_scan(mode, 0, None)));
    assert forall|m: int| 0 <= m < k implies !is_mode_op(#[trigger] mode[m]) by {
        assert(mode[m] == who[m]);
    }
    lemma_clause_scan_skip(mode, 0, k, None);
    assert forall|m: int| k + 1 <= m < mode.len() implies !is_mode_op(#[trigger] mode[m]) by {
        assert(mode[m] == perms[m - k - 1]);
    }
    lemma_next_op_at_end(mode, k + 1);
    assert(mode.subrange(k + 1, mode.len() as int) =~= perms);
    let w = has_char(perms, 'w');
    let ch2: Option<bool> = if op == '+' {
        if w { Some(false) } else { None }
    } else if op == '-' {
        if w { Some(true) } else { None }
    } else {
        Some(!w)
    };
    assert(clause_scan(mode, k, None) == clause_scan(mode, k + 1, ch2));
    lemma_clause_scan_skip(mode, k + 1, mode.len() as int, ch2);
}

/// Whether an octal digit grants write permission.
pub open spec fn grants_write(digit: int) -> bool {
    digit == 2 || digit == 3 || digit == 6 || digit == 7
}

proof fn lemma_write_bits(a: u32, b: u32, c: u32)
    requires
        a < 8,
        b < 8,
        c < 8,
    ensures
        (((a * 64 + b * 8 + c) as u32) & 0o222u32 == 0u32) == ((a & 2u32 == 0u32) && (b & 2u32 == 0u32) && (c
            & 2u32 == 0u32)),
{
    assert((((a * 64 + b * 8 + c) as u32) & 0o222u32 == 0u32) == ((a & 2u32 == 0u32) && (b & 2u32 == 0u32)
        && (c & 2u32 == 0u32))) by (bit_vector)
        requires
            a < 8,
            b < 8,
            c < 8,
    ;
}

proof fn lemma_write_bit(a: u32)
    requires
        a < 8,
    ensures
        (a & 2u32 == 0u32) == !grants_write(a as int),
{
    assert((a & 2u32 == 0u32) == !(a == 2 || a == 3 || a == 6 || a == 7)) by (bit_vector)
        requires
            a < 8,
    ;
}

/// Law: a three-digit octal mode makes the file read-only exactly when none
/// of its digits (owner, group, others) grants write permission, and
/// writable otherwise.
pub proof fn law_octal_mode_write_bits(a: char, b: char, c: char)
    requires
        '0' <= a <= '7',
        '0' <= b <= '7',
        '0' <= c <= '7',
    ensures
        mode_change_of(seq![a, b, c]) == Ok::<ModeChange, ExitModel>(
            ModeChange::SetReadonly(
                !(grants_write(a as int - 48) || grants_write(b as int - 48) || grants_write(
                    c as int - 48,
                )),
            ),
        ),
{
    let m = seq![a, b, c];
    assert(all_octal(m));
    assert(m.drop_last().drop_last().drop_last() =~= Seq::<char>::empty());
    assert(m.drop_last().drop_last() =~= seq![a]);
    assert(m.drop_last() =~= seq![a, b]);
    let da = (a as int - 48) as u32;
    let db = (b as int - 48) as u32;
    let dc = (c as int - 48) as u32;
    assert(seq![a].drop_last() =~= Seq::<char>::empty());
    assert(octal_value(Seq::<char>::empty()) == 0);
    assert(octal_value(seq![a]) == a as int - 48);
    assert(octal_value(seq![a, b]) == (a as int - 48) * 8 + (b as int - 48));
    assert(octal_value(m) == (a as int - 48) * 64 + (b as int - 48) * 8 + (c as int - 48));
    assert((octal_value(m) as u32) == da * 64 + db * 8 + dc);
    lemma_write_bits(da, db, dc);
    lemma_write_bit(da);
    lemma_write_bit(db);
    lemma_write_bit(dc);
}

/// The value of an all-octal mode, if it fits in a `u32`.
fn octal_u32(v: &[char]) -> (r: Option<u32>)
    requires
        all_octal(v@),
    ensures
        match r {
            Some(x) => octal_value(v@) <= u32::MAX && x == octal_value(v@),
            None => octal_value(v@) > u32::MAX,
        },
{
    let mut acc: u64 = 0;
    let mut over = false;
    let mut i: usize = 0;
    assert(v@.subrange(0, 0) =~= Seq::<char>::empty());
    while i < v.len()
        invariant
            i <= v@.len(),
            all_octal(v@),
            over ==> octal_value(v@.subrange(0, i as int)) > u32::MAX,
            !over ==> acc == octal_value(v@.subrange(0, i as int)) && acc <= u32::MAX,
        decreases v.len() - i,
    {
        assert(v@.subrange(0, i + 1).drop_last() =~= v@.subrange(0, i as int));
        assert('0' <= v@[i as int] <= '7');
        let d = (v[i] as u64) - 48;
        if !over {
            let next = acc * 8 + d;
            if next > 4294967295u64 {
                over = true;
            } else {
                acc = next;
            }
        }
        i = i + 1;
    }
    assert(v@.subrange(0, v@.len() as int) =~= v@);
    if over {
        None
    } else {
        Some(acc as u32)
    }
}

/// The position of the first operator at or after `from`, or the length.
fn find_op(cl: &[char], from: usize) -> (r: usize)
    requires
        from <= cl@.len(),
    ensures
        r == next_op(cl@, from as int),
        from <= r <= cl@.len(),
{
    let mut e = from;
    while e < cl.len() && !(cl[e] == '+' || cl[e] == '-' || cl[e] == '=')
        invariant
            from <= e <= cl@.len(),
            next_op(cl@, from as int) == next_op(cl@, e as int),
        decreases cl.len() - e,
    {
        e = e + 1;
    }
    e
}

/// Whether `w` occurs in `cl[from..to]`.
fn has_w(cl: &[char], from: usize, to: usize) -> (r: bool)
    requires
        from <= to <= cl@.len(),
    ensures
        r == has_char(cl@.subrange(from as int, to as int), 'w'),
{
    let mut k = from;
    while k < to
        invariant
            from <= k <= to <= cl@.len(),
            forall|q: int| from <= q < k ==> cl@[q] != 'w',
        decreases to - k,
    {
        if cl[k] == 'w' {
            assert(cl@.subrange(from as int, to as int)[k - from] == 'w');
            return true;
        }
        k = k + 1;
    }
    assert forall|q: int| 0 <= q < to - from implies cl@.subrange(from as int, to as int)[q]
        != 'w' by {
        assert(cl@.subrange(from as int, to as int)[q] == cl@[q + from]);
    }
    false
}

/// The read-only setting after one clause.
fn scan_clause(cl: &[char], start: Option<bool>) -> (r: Option<bool>)
    ensures
        r == clause_scan(cl@, 0, start),
{
    let mut ch = start;
    let mut k: usize = 0;
    while k < cl.len()
        invariant
            k <= cl@.len(),
            clause_scan(cl@, 0, start) == clause_scan(cl@, k as int, ch),
        decreases cl.len() - k,
    {
        let c = cl[k];
        if c == '+' || c == '-' || c == '=' {
            let end = find_op(cl, k + 1);
            let w = has_w(cl, k + 1, end);
            if c == '+' {
                if w {
                    ch = Some(false);
                }
            } else if c == '-' {
                if w {
                    ch = Some(true);
                }
            } else {
                ch = Some(!w);
            }
        }
        k = k + 1;
    }
    ch
}

/// Reads a mode: octal digits, or symbolic clauses such as `u+w,go-w`.
pub fn parse_mode_change(mode: &str) -> (r: Result<ModeChange, ArgExit>)
    ensures
        match mode_change_of(mode@) {
            Ok(c) => r == Ok::<ModeChange, ArgExit>(c),
            Err(e) => r is Err && exit_model(r->Err_0) == e,
        },
{
    let v = chars_of(mode);
    if v.len() == 0 {
        return Err(exit_with_line(1, owned("chmod: invalid mode: '").concat(mode).concat("'")));
    }
    let mut octal = true;
    let mut i: usize = 0;
    while i < v.len()
        invariant
            i <= v@.len(),
            octal == forall|q: int| 0 <= q < i ==> '0' <= #[trigger] v@[q] <= '7',
        decreases v.len() - i,
    {
        if !('0' <= v[i] && v[i] <= '7') {
            octal = false;
        }
        i = i + 1;
    }
    assert(octal == all_octal(mode@));
    if octal {
        match octal_u32(&v) {
            Some(value) => {
                return Ok(ModeChange::SetReadonly(value & 0o222 == 0));
            },
            None => {
                return Err(
                    exit_with_line(1, owned("chmod: invalid mode: '").concat(mode).concat("'")),
                );
            },
        }
    }
    let clauses = split_chars(&v, ',');
    let ghost cls = split_by(mode@, ',');
    let mut ch: Option<bool> = None;
    let mut j: usize = 0;
    while j < clauses.len()
        invariant
            j <= clauses@.len(),
            vviews(clauses@) == cls,
            mode_scan(cls, 0, None) == mode_scan(cls, j as int, ch),
            mode@.len() > 0,
            !all_octal(mode@),
            cls == split_by(mode@, ','),
        decreases clauses.len() - j,
    {
        assert(cls[j as int] == clauses@[j as int]@);
        if clauses[j].len() == 0 {
            return Err(exit_with_line(1, owned("chmod: invalid mode: '").concat(mode).concat("'")));
        }
        ch = scan_clause(&clauses[j], ch);
        j = j + 1;
    }
    match ch {
        Some(b) => Ok(ModeChange::SetReadonly(b)),
        None => Ok(ModeChange::Noop),
    }
}

/// What `chmod` will do once its operands are read.
#[derive(Debug, PartialEq, Eq)]
pub enum ChmodPlan {
    /// Copy the read-only setting of `reference` to each file.
    FromReference { reference: String, files: Vec<String> },
    /// Apply `change` to each file.
    Apply { change: ModeChange, files: Vec<String> },
}

/// `ChmodPlan` as plain values.
pub enum PlanModel {
    FromReference(Seq<char>, Seq<Seq<char>>),
    Apply(ModeChange, Seq<Seq<char>>),
}

/// The plain-value form of a plan.
pub open spec fn plan_model(p: ChmodPlan) -> PlanModel {
    match p {
        ChmodPlan::FromReference { reference, files } => PlanModel::FromReference(
            reference@,
            views(files@),
        ),
        ChmodPlan::Apply { change, files } => PlanModel::Apply(change, views(files@)),
    }
}

/// The plan for the operands: with `--reference` every operand is a file;
/// otherwise the first is the mode and at least one file must follow it.
pub open spec fn chmod_plan(reference: Option<Seq<char>>, ops: Seq<Seq<char>>) -> Result<
    PlanModel,
    ExitModel,
> {
    match reference {
        Some(r) => if ops.len() == 0 {
            Err(fail_with_help(1, "chmod"@, "chmod: missing operand after '--reference'"@))
        } else {
            Ok(PlanModel::FromReference(r, ops))
        },
        None => if ops.len() == 0 {
            Err(fail_with_help(1, "chmod"@, "chmod: missing operand"@))
        } else if ops.len() == 1 {
            Err(fail_with_help(1, "chmod"@, "chmod: missing operand after '"@ + ops[0] + "'"@))
        } else {
            match mode_change_of(ops[0]) {
                Ok(c) => Ok(PlanModel::Apply(c, ops.drop_first())),
                Err(e) => Err(e),
            }
        },
    }
}

/// Reads the mode (unless `--reference` was given) and the files.
pub fn build_mode_change(options: &ChmodOptions, operands: &[String]) -> (r: Result<
    ChmodPlan,
    ArgExit,
>)
    ensures
        match chmod_plan(opt_view(options.reference), views(operands@)) {
            Ok(p) => r is Ok && plan_model(r->Ok_0) == p,
            Err(e) => r is Err && exit_model(r->Err_0) == e,
        },
{
    match &options.reference {
        Some(reference) => {
            if operands.len() == 0 {
                return Err(
                    exit_with_help(1, "chmod", owned("chmod: missing operand after '--reference'")),
                );
            }
            let files = clone_strings(operands);
            Ok(ChmodPlan::FromReference { reference: reference.clone(), files })
        },
        None => {
            if operands.len() == 0 {
                return Err(exit_with_help(1, "chmod", owned("chmod: missing operand")));
            }
            let mode = operands[0].as_str();
            if operands.len() == 1 {
                return Err(
                    exit_with_help(
                        1,
                        "chmod",
                        owned("chmod: missing operand after '").concat(mode).concat("'"),
                    ),
                );
            }
            assert(views(operands@)[0] == mode@);
            match parse_mode_change(mode) {
                Ok(change) => {
                    let mut files: Vec<String> = Vec::new();
                    let mut k: usize = 1;
                    while k < operands.len()
                        invariant
                            1 <= k <= operands@.len(),
                            views(files@) == views(operands@).subrange(1, k as int),
                        decreases operands.len() - k,
                    {
                        let ghost before = views(files@);
                        files.push(operands[k].clone());
                        assert(views(files@) =~= before.push(operands@[k as int]@));
                        assert(views(operands@).subrange(1, k + 1) =~= views(operands@).subrange(
                            1,
                            k as int,
                        ).push(operands@[k as int]@));
                        k = k + 1;
                    }
                    assert(views(operands@).subrange(1, operands@.len() as int) =~= views(
                        operands@,
                    ).drop_first());
                    Ok(ChmodPlan::Apply { change, files })
                },
                Err(e) => Err(e),
            }
        },
    }
}

/// For one file: whether its attribute must be written, and whether a
/// `mode of 'FILE' changed` line is printed, given whether it was read-only.
pub open spec fn one_file_effect(change: ModeChange, before: bool, v: Verbosity) -> (bool, bool) {
    match change {
        ModeChange::Noop => (false, false),
        ModeChange::SetReadonly(ro) => (
            before != ro,
            v == Verbosity::Verbose || (v == Verbosity::Changes && before != ro),
        ),
    }
}

/// Decides the write and the report for one file.
pub fn apply_chmod_one(change: ModeChange, before: bool, options: &ChmodOptions) -> (r: (bool, bool))
    ensures
        r == one_file_effect(change, before, options.verbosity),
{
    match change {
        ModeChange::Noop => (false, false),
        ModeChange::SetReadonly(readonly) => {
            let changed = before != readonly;
            let report = options.verbosity == Verbosity::Verbose || (options.verbosity
                == Verbosity::Changes && changed);
            (changed, report)
        },
    }
}

/// A recursive change is refused on the root of a file system unless
/// `--no-preserve-root` was given.
pub fn refuses_root(options: &ChmodOptions, is_root: bool) -> (r: bool)
    ensures
        r == (options.recursive && options.preserve_root && is_root),
{
    options.recursive && options.preserve_root && is_root
}

/// The name shown for an entry of a directory during a recursive change.
pub fn child_display(display: &str, name: &str) -> (r: String)
    ensures
        r@ == trim_trailing_seps(display@) + "/"@ + name@,
{
    let v = chars_of(display);
    let end = trimmed_len(&v);
    string_of_range(&v, 0, end).concat("/").concat(name)
}

} // verus!
