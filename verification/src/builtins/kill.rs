//! `kill`: the signal table, signal names and numbers, and option parsing.
use vstd::prelude::*;
use crate::builtins::opts::{
    arg_is_dashdash, exit_model, exit_with_help, exit_with_line, fail_with_help, is_dashdash,
    msg_needs_value, needs_value_text, ArgExit, ExitModel,
};
use crate::text::{
    all_digits, ascii_upper_text, ascii_uppercase_range, chars_eq, chars_of, has_prefix, is_digit,
    is_upper, owned, parse_signed, parse_signed_chars, push_char, skip_prefixes, starts_with,
    str_eq, str_starts_with, views, without_prefix, without_prefixes,
};

verus! {

/// One supported signal.
#[derive(Clone, Copy, Debug, PartialEq, Eq)]
pub struct SignalSpec {
    pub number: i32,
    pub name: &'static str,
    pub description: &'static str,
}

/// The supported signals as (number, name).
pub open spec fn signal_table() -> Seq<(int, Seq<char>)> {
    seq![
        (1, "HUP"@),
        (2, "INT"@),
        (3, "QUIT"@),
        (6, "ABRT"@),
        (9, "KILL"@),
        (11, "SEGV"@),
        (13, "PIPE"@),
        (14, "ALRM"@),
        (15, "TERM"@),
        (17, "STOP"@),
        (18, "TSTP"@),
        (19, "CONT"@),
        (20, "CHLD"@),
        (21, "TTIN"@),
        (22, "TTOU"@),
    ]
}

/// The signal table as the `-l` and `-L` listings show it.
pub fn signals() -> (r: Vec<SignalSpec>)
    ensures
        r@.len() == signal_table().len(),
        forall|i: int| 0 <= i < r@.len() ==> (#[trigger] r@[i]).number == signal_table()[i].0
            && r@[i].name@ == signal_table()[i].1,
{
    let mut r: Vec<SignalSpec> = Vec::new();
    r.push(SignalSpec { number: 1, name: "HUP", description: "Hangup" });
    r.push(SignalSpec { number: 2, name: "INT", description: "Interrupt" });
    r.push(SignalSpec { number: 3, name: "QUIT", description: "Quit" });
    r.push(SignalSpec { number: 6, name: "ABRT", description: "Abort" });
    r.push(SignalSpec { number: 9, name: "KILL", description: "Kill (cannot be caught or ignored)" });
    r.push(SignalSpec { number: 11, name: "SEGV", description: "Segmentation fault" });
    r.push(SignalSpec { number: 13, name: "PIPE", description: "Broken pipe" });
    r.push(SignalSpec { number: 14, name: "ALRM", description: "Alarm clock" });
    r.push(SignalSpec { number: 15, name: "TERM", description: "Termination" });
    r.push(SignalSpec { number: 17, name: "STOP", description: "Stop (cannot be caught or ignored)" });
    r.push(SignalSpec { number: 18, name: "TSTP", description: "Terminal stop" });
    r.push(SignalSpec { number: 19, name: "CONT", description: "Continue" });
    r.push(SignalSpec { number: 20, name: "CHLD", description: "Child status changed" });
    r.push(SignalSpec { number: 21, name: "TTIN", description: "Background read from tty" });
    r.push(SignalSpec { number: 22, name: "TTOU", description: "Background write to tty" });
    r
}

/// `n` is the number of a listed signal.
pub open spec fn known_number(n: int) -> bool {
    exists|i: int| 0 <= i < signal_table().len() && signal_table()[i].0 == n
}

/// The number of the first entry of `t` with this name.
pub open spec fn name_lookup(t: Seq<(int, Seq<char>)>, name: Seq<char>) -> Option<int>
    decreases t.len(),
{
    if t.len() == 0 {
        None
    } else if t[0].1 == name {
        Some(t[0].0)
    } else {
        name_lookup(t.drop_first(), name)
    }
}

/// The number of the first listed signal with this name.
pub open spec fn number_of_name(name: Seq<char>) -> Option<int> {
    name_lookup(signal_table(), name)
}

/// The signal a value names: a number that is 0 or listed, or a listed
/// name, with an optional `SIG` prefix, compared after ASCII upper-casing.
pub open spec fn signal_of(value: Seq<char>) -> Option<int> {
    match parse_signed(value, -2147483648, 2147483647) {
        Some(n) => if n == 0 || known_number(n) {
            Some(n)
        } else {
            number_of_name(ascii_upper_text(without_prefix(value, "SIG"@)))
        },
        None => number_of_name(ascii_upper_text(without_prefix(value, "SIG"@))),
    }
}

/// The error for a value that names no signal.
pub open spec fn unknown_signal(value: Seq<char>) -> ExitModel {
    ExitModel::Error(1, seq!["kill: unknown signal: "@ + value])
}

/// Resolves a signal number or name.
pub fn parse_signal(value: &str) -> (r: Result<i32, ArgExit>)
    ensures
        match signal_of(value@) {
            Some(n) => r matches Ok(x) && x == n,
            None => r is Err && exit_model(r->Err_0) == unknown_signal(value@),
        },
{
    let table = signals();
    let v = chars_of(value);
    assert(v@.subrange(0, v@.len() as int) =~= v@);
    let parsed = parse_signed_chars(&v, 0, v.len(), -2147483648, 2147483647);
    let ghost numeric = match parse_signed(value@, -2147483648, 2147483647) {
        Some(n) => n == 0 || known_number(n),
        None => false,
    };
    let mut known = false;
    if let Some(number) = parsed {
        known = number == 0;
        let mut i: usize = 0;
        while i < table.len() && !known
            invariant
                i <= table@.len(),
                table@.len() == signal_table().len(),
                forall|k: int| 0 <= k < table@.len() ==> (#[trigger] table@[k]).number == signal_table()[k].0
                    && table@[k].name@ == signal_table()[k].1,
                known == (number == 0 || exists|k: int| 0 <= k < i && signal_table()[k].0 == number),
            decreases table.len() - i,
        {
            if table[i].number as i64 == number {
                known = true;
            }
            i = i + 1;
        }
    }
    assert(known == numeric);
    if known {
        if let Some(number) = parsed {
            return Ok(number as i32);
        }
    }
    let sig = chars_of("SIG");
    let start = if starts_with(&v, &sig) {
        sig.len()
    } else {
        0
    };
    assert(start == 0 ==> v@.subrange(0, v@.len() as int) =~= v@);
    let name = ascii_uppercase_range(&v, start);
    assert(name@ == ascii_upper_text(without_prefix(value@, "SIG"@)));
    assert(signal_of(value@) == number_of_name(name@));
    let mut i: usize = 0;
    assert(signal_table().subrange(0, signal_table().len() as int) =~= signal_table());
    while i < table.len()
        invariant
            i <= table@.len(),
            table@.len() == signal_table().len(),
            forall|k: int| 0 <= k < table@.len() ==> (#[trigger] table@[k]).number == signal_table()[k].0
                && table@[k].name@ == signal_table()[k].1,
            number_of_name(name@) == name_lookup(signal_table().subrange(i as int, signal_table().len() as int), name@),
            signal_of(value@) == number_of_name(name@),
        decreases table.len() - i,
    {
        let ghost t = signal_table().subrange(i as int, signal_table().len() as int);
        assert(t[0] == signal_table()[i as int]);
        let tn = chars_of(table[i].name);
        assert(tn@ == signal_table()[i as int].1);
        if chars_eq(&tn, &name) {
            assert(t.len() > 0 && t[0].1 == name@);
            assert(name_lookup(t, name@) == Some(t[0].0));
            return Ok(table[i].number);
        }
        assert(t.drop_first() =~= signal_table().subrange(i + 1, signal_table().len() as int));
        i = i + 1;
    }
    Err(exit_with_line(1, owned("kill: unknown signal: ").concat(value)))
}

/// What `kill` was asked to do.
#[derive(Clone, Copy, Debug, PartialEq, Eq, Structural)]
pub enum KillMode {
    Kill,
    List,
    Table,
}

/// The options of `kill`.
#[derive(Debug, PartialEq, Eq)]
pub struct KillOptions {
    pub mode: KillMode,
    pub signal: i32,
    pub pids: Vec<String>,
}

impl Default for KillOptions {
    fn default() -> (r: Self)
        ensures
            r.mode == KillMode::Kill && r.signal == 15 && r.pids@.len() == 0,
    {
        KillOptions { mode: KillMode::Kill, signal: 15, pids: Vec::new() }
    }
}

/// `s` is `-` followed by a signal: only ASCII digits, or some upper-case letter.
pub open spec fn dash_signal(s: Seq<char>) -> bool {
    let sig = s.subrange(1, s.len() as int);
    all_digits(sig) || exists|k: int| 0 <= k < sig.len() && is_upper(#[trigger] sig[k])
}

/// The arguments `args[i..]` parsed on top of mode, signal and process ids.
pub open spec fn kill_args(
    args: Seq<Seq<char>>,
    i: int,
    opts: bool,
    st: (KillMode, int, Seq<Seq<char>>),
) -> Result<(KillMode, int, Seq<Seq<char>>), ExitModel>
    decreases args.len() - i,
{
    if i < 0 || i >= args.len() {
        Ok(st)
    } else {
        let a = args[i];
        if opts && is_dashdash(a) {
            kill_args(args, i + 1, false, st)
        } else if opts && (a == "-h"@ || a == "--help"@) {
            Err(ExitModel::Help)
        } else if opts && (a == "-V"@ || a == "--version"@) {
            Err(ExitModel::Version)
        } else if opts && (a == "-l"@ || a == "--list"@) {
            kill_args(args, i + 1, opts, (KillMode::List, st.1, st.2))
        } else if opts && (a == "-t"@ || a == "-L"@ || a == "--table"@) {
            kill_args(args, i + 1, opts, (KillMode::Table, st.1, st.2))
        } else if opts && has_prefix(a, "--list="@) {
            kill_args(args, i + 1, opts, (KillMode::List, st.1, st.2))
        } else if opts && has_prefix(a, "--table="@) {
            kill_args(args, i + 1, opts, (KillMode::Table, st.1, st.2))
        } else if opts && (a == "-s"@ || a == "-n"@ || a == "--signal"@) {
            if i + 1 < args.len() {
                match signal_of(args[i + 1]) {
                    Some(n) => kill_args(args, i + 2, opts, (st.0, n, st.2)),
                    None => Err(unknown_signal(args[i + 1])),
                }
            } else {
                Err(fail_with_help(1, "kill"@, msg_needs_value("kill"@, a)))
            }
        } else if opts && has_prefix(a, "--signal="@) {
            let value = without_prefixes(a, "--signal="@);
            if value.len() == 0 {
                Err(fail_with_help(1, "kill"@, "kill: option '--signal' requires an argument"@))
            } else {
                match signal_of(value) {
                    Some(n) => kill_args(args, i + 1, opts, (st.0, n, st.2)),
                    None => Err(unknown_signal(value)),
                }
            }
        } else if opts && a.len() >= 2 && a[0] == '-' {
            if dash_signal(a) {
                match signal_of(a.subrange(1, a.len() as int)) {
                    Some(n) => kill_args(args, i + 1, opts, (st.0, n, st.2)),
                    None => Err(unknown_signal(a.subrange(1, a.len() as int))),
                }
            } else {
                Err(fail_with_help(1, "kill"@, "kill: unrecognized option '-"@ + seq![a[1]] + "'"@))
            }
        } else {
            kill_args(args, i + 1, opts, (st.0, st.1, st.2.push(a)))
        }
    }
}

/// The options as plain values.
pub open spec fn kill_model(o: KillOptions) -> (KillMode, int, Seq<Seq<char>>) {
    (o.mode, o.signal as int, views(o.pids@))
}

/// Parses the arguments of `kill`.
pub fn parse_kill_args(args: &[String]) -> (r: Result<KillOptions, ArgExit>)
    ensures
        match kill_args(views(args@), 0, true, (KillMode::Kill, 15, Seq::empty())) {
            Ok(m) => r is Ok && kill_model(r->Ok_0) == m,
            Err(e) => r is Err && exit_model(r->Err_0) == e,
        },
{
    let mut options = KillOptions::default();
    let mut parse_options = true;
    let ghost all = views(args@);
    let mut index: usize = 0;
    assert(views(options.pids@) =~= Seq::<Seq<char>>::empty());
    while index < args.len()
        invariant
            index <= args@.len(),
            all == views(args@),
            kill_args(all, 0, true, (KillMode::Kill, 15, Seq::empty())) == kill_args(
                all,
                index as int,
                parse_options,
                kill_model(options),
            ),
        decreases args.len() - index,
    {
        let arg = args[index].as_str();
        assert(all[index as int] == arg@);
        if parse_options && arg_is_dashdash(arg) {
            parse_options = false;
            index = index + 1;
            continue;
        }
        if parse_options && (str_eq(arg, "-h") || str_eq(arg, "--help")) {
            return Err(ArgExit::Help);
        }
        if parse_options && (str_eq(arg, "-V") || str_eq(arg, "--version")) {
            return Err(ArgExit::Version);
        }
        if parse_options && (str_eq(arg, "-l") || str_eq(arg, "--list")) {
            options.mode = KillMode::List;
            index = index + 1;
            continue;
        }
        if parse_options && (str_eq(arg, "-t") || str_eq(arg, "-L") || str_eq(arg, "--table")) {
            options.mode = KillMode::Table;
            index = index + 1;
            continue;
        }
        if parse_options && str_starts_with(arg, "--list=") {
            options.mode = KillMode::List;
            index = index + 1;
            continue;
        }
        if parse_options && str_starts_with(arg, "--table=") {
            options.mode = KillMode::Table;
            index = index + 1;
            continue;
        }
        if parse_options && (str_eq(arg, "-s") || str_eq(arg, "-n") || str_eq(arg, "--signal")) {
            if index + 1 >= args.len() {
                return Err(exit_with_help(1, "kill", needs_value_text("kill", arg)));
            }
            assert(all[index + 1] == args@[index + 1]@);
            options.signal = parse_signal(args[index + 1].as_str())?;
            index = index + 2;
            continue;
        }
        if parse_options && str_starts_with(arg, "--signal=") {
            let v = chars_of(arg);
            let p = chars_of("--signal=");
            assert(v@.subrange(0, v@.len() as int) =~= v@);
            proof {
                reveal_strlit("--signal=");
            }
            let start = skip_prefixes(&v, 0, &p);
            let value = crate::text::string_of_range(&v, start, v.len());
            if start == v.len() {
                return Err(exit_with_help(1, "kill", owned("kill: option '--signal' requires an argument")));
            }
            options.signal = parse_signal(value.as_str())?;
            index = index + 1;
            continue;
        }
        let v = chars_of(arg);
        if parse_options && v.len() >= 2 && v[0] == '-' {
            let mut digits = true;
            let mut upper = false;
            let mut k: usize = 1;
            while k < v.len()
                invariant
                    1 <= k <= v@.len(),
                    digits == all_digits(v@.subrange(1, k as int)),
                    upper == exists|q: int| 1 <= q < k && is_upper(#[trigger] v@[q]),
                decreases v.len() - k,
            {
                let c = v[k];
                assert(v@.subrange(1, k + 1).drop_last() =~= v@.subrange(1, k as int));
                if !('0' <= c && c <= '9') {
                    digits = false;
                    assert(!crate::text::is_digit(v@.subrange(1, k + 1)[k - 1]));
                }
                if 'A' <= c && c <= 'Z' {
                    upper = true;
                }
                k = k + 1;
            }
            proof {
                let sig = v@.subrange(1, v@.len() as int);
                assert((exists|q: int| 1 <= q < v@.len() && is_upper(#[trigger] v@[q])) == (exists|q: int|
                    0 <= q < sig.len() && is_upper(#[trigger] sig[q]))) by {
                    if exists|q: int| 1 <= q < v@.len() && is_upper(#[trigger] v@[q]) {
                        let q = choose|q: int| 1 <= q < v@.len() && is_upper(#[trigger] v@[q]);
                        assert(sig[q - 1] == v@[q]);
                    }
                    if exists|q: int| 0 <= q < sig.len() && is_upper(#[trigger] sig[q]) {
                        let q = choose|q: int| 0 <= q < sig.len() && is_upper(#[trigger] sig[q]);
                        assert(sig[q] == v@[q + 1]);
                    }
                }
            }
            if digits || upper {
                let value = crate::text::string_of_range(&v, 1, v.len());
                options.signal = parse_signal(value.as_str())?;
                index = index + 1;
                continue;
            }
            let mut m = owned("kill: unrecognized option '-");
            push_char(&mut m, v[1]);
            let m2 = m.concat("'");
            assert(m2@ =~= "kill: unrecognized option '-"@ + seq![arg@[1]] + "'"@);
            return Err(exit_with_help(1, "kill", m2));
        }
        let ghost before = views(options.pids@);
        options.pids.push(args[index].clone());
        assert(views(options.pids@) =~= before.push(arg@));
        index = index + 1;
    }
    Ok(options)
}

} // verus!
