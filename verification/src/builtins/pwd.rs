//! `pwd`: its `-L`/`-P` switches, and how a directory in the shell's
//! notation (`/c/Users`) is shown on the host.
use vstd::prelude::*;
use crate::builtins::opts::{exit_model, ArgExit, ExitModel};
use crate::text::{
    ascii_alpha, ascii_upper, chars_of, has_prefix, is_alpha, owned, push_char, string_of,
    string_of_range, to_ascii_upper, views,
};

verus! {

/// The error for an unknown letter: `winuxsh: pwd: -C: invalid option`
/// and the usage line, exit status 2.
pub open spec fn pwd_invalid(c: char) -> ExitModel {
    ExitModel::Error(
        2,
        seq!["winuxsh: pwd: -"@ + seq![c] + ": invalid option"@, "pwd: usage: pwd [-LP]"@],
    )
}

/// The letters `arg[j..]` applied to `physical`.
pub open spec fn pwd_letters(arg: Seq<char>, j: int, physical: bool) -> Result<bool, ExitModel>
    decreases arg.len() - j,
{
    if j < 0 || j >= arg.len() {
        Ok(physical)
    } else if arg[j] == 'L' {
        pwd_letters(arg, j + 1, false)
    } else if arg[j] == 'P' {
        pwd_letters(arg, j + 1, true)
    } else {
        Err(pwd_invalid(arg[j]))
    }
}

/// Whether the arguments `args[i..]` select the physical directory: the
/// options stop at `--`, `-`, or the first argument that is not an option.
pub open spec fn pwd_args(args: Seq<Seq<char>>, i: int, physical: bool) -> Result<bool, ExitModel>
    decreases args.len() - i,
{
    if i < 0 || i >= args.len() {
        Ok(physical)
    } else {
        let a = args[i];
        if a == "--"@ || !has_prefix(a, "-"@) || a == "-"@ {
            Ok(physical)
        } else {
            match pwd_letters(a, 1, physical) {
                Ok(p) => pwd_args(args, i + 1, p),
                Err(e) => Err(e),
            }
        }
    }
}

/// Reads the switches of `pwd`: `true` for `-P` (the physical directory),
/// `false` for `-L` (the logical one, the default).
pub fn parse_pwd_args(args: &[String]) -> (r: Result<bool, ArgExit>)
    ensures
        match pwd_args(views(args@), 0, false) {
            Ok(p) => r == Ok::<bool, ArgExit>(p),
            Err(e) => r is Err && exit_model(r->Err_0) == e,
        },
{
    let mut physical = false;
    let mut i: usize = 0;
    let ghost all = views(args@);
    while i < args.len()
        invariant
            i <= args@.len(),
            all == views(args@),
            pwd_args(all, 0, false) == pwd_args(all, i as int, physical),
        decreases args.len() - i,
    {
        let v = chars_of(args[i].as_str());
        assert(all[i as int] == v@);
        proof {
            reveal_strlit("--");
            reveal_strlit("-");
            assert("--"@ =~= seq!['-', '-']);
            assert("-"@ =~= seq!['-']);
        }
        if (v.len() == 2 && v[0] == '-' && v[1] == '-') || v.len() == 0 || v[0] != '-' || v.len()
            == 1 {
            assert(v@.len() == 2 && v@[0] == '-' && v@[1] == '-' ==> v@ =~= "--"@);
            assert(v@.len() == 1 && v@[0] == '-' ==> v@ =~= "-"@);
            if v.len() > 0 && v[0] != '-' {
                assert(v@.subrange(0, 1)[0] != "-"@[0]);
            }
            return Ok(physical);
        }
        assert(v@.subrange(0, 1) =~= "-"@);
        assert(v@ != "--"@ && v@ != "-"@ && has_prefix(v@, "-"@));
        let mut j: usize = 1;
        let ghost p0 = physical;
        while j < v.len()
            invariant
                1 <= j <= v@.len(),
                i < args@.len(),
                all == views(args@),
                all[i as int] == v@,
                v@ != "--"@ && v@ != "-"@ && has_prefix(v@, "-"@),
                pwd_args(all, 0, false) == pwd_args(all, i as int, p0),
                pwd_letters(v@, 1, p0) == pwd_letters(v@, j as int, physical),
            decreases v.len() - j,
        {
            if v[j] == 'L' {
                physical = false;
            } else if v[j] == 'P' {
                physical = true;
            } else {
                let mut first = owned("winuxsh: pwd: -");
                push_char(&mut first, v[j]);
                let first = first.concat(": invalid option");
                assert(first@ =~= "winuxsh: pwd: -"@ + seq![v@[j as int]] + ": invalid option"@);
                let second = owned("pwd: usage: pwd [-LP]");
                let mut lines: Vec<String> = Vec::new();
                lines.push(first);
                lines.push(second);
                assert(views(lines@) =~= seq![
                    "winuxsh: pwd: -"@ + seq![v@[j as int]] + ": invalid option"@,
                    "pwd: usage: pwd [-LP]"@,
                ]);
                return Err(ArgExit::Error { code: 2, lines });
            }
            j = j + 1;
        }
        i = i + 1;
    }
    Ok(physical)
}

/// `s` with every `\` written as `/`.
pub open spec fn to_slashes(s: Seq<char>) -> Seq<char> {
    s.map_values(|c: char| if c == '\\' { '/' } else { c })
}

/// A directory in the shell's notation as the host writes it: on Windows
/// `/c` becomes `C:/` and `/c/rest` becomes `C:/rest` (with `\` read as
/// `/`); everything else is unchanged.
pub open spec fn host_path(value: Seq<char>, windows: bool) -> Seq<char> {
    let n = to_slashes(value);
    if windows && n.len() == 2 && n[0] == '/' && is_alpha(n[1]) {
        seq![ascii_upper(n[1]), ':', '/']
    } else if windows && n.len() >= 3 && n[0] == '/' && is_alpha(n[1]) && n[2] == '/' {
        seq![ascii_upper(n[1]), ':'] + n.subrange(2, n.len() as int)
    } else {
        value
    }
}

/// Rewrites a shell directory such as `/c/Users` as a host path.
pub fn shell_path_to_host_path(value: &str, windows: bool) -> (r: String)
    ensures
        r@ == host_path(value@, windows),
{
    let v = chars_of(value);
    let mut n: Vec<char> = Vec::new();
    let mut i: usize = 0;
    while i < v.len()
        invariant
            i <= v@.len(),
            n@ == to_slashes(v@.subrange(0, i as int)),
        decreases v.len() - i,
    {
        let c = if v[i] == '\\' {
            '/'
        } else {
            v[i]
        };
        n.push(c);
        assert(to_slashes(v@.subrange(0, i + 1)) =~= to_slashes(v@.subrange(0, i as int)).push(c));
        i = i + 1;
    }
    assert(v@.subrange(0, v@.len() as int) =~= v@);
    if windows && n.len() == 2 && n[0] == '/' && ascii_alpha(n[1]) {
        let mut r = String::new();
        push_char(&mut r, to_ascii_upper(n[1]));
        push_char(&mut r, ':');
        push_char(&mut r, '/');
        assert(r@ =~= seq![ascii_upper(n@[1]), ':', '/']);
        return r;
    }
    if windows && n.len() >= 3 && n[0] == '/' && ascii_alpha(n[1]) && n[2] == '/' {
        let mut r = String::new();
        push_char(&mut r, to_ascii_upper(n[1]));
        push_char(&mut r, ':');
        let rest = string_of_range(&n, 2, n.len());
        let r2 = r.concat(rest.as_str());
        assert(r2@ =~= seq![ascii_upper(n@[1]), ':'] + n@.subrange(2, n@.len() as int));
        return r2;
    }
    owned(value)
}

/// `s` with every `/` written as `\`.
pub open spec fn to_backslashes(s: Seq<char>) -> Seq<char> {
    s.map_values(|c: char| if c == '/' { '\\' } else { c })
}

/// How `pwd` prints a directory: on Windows as a host path with `\`
/// separators, elsewhere unchanged.
pub fn display_path(value: &str, windows: bool) -> (r: String)
    ensures
        r@ == if windows {
            to_backslashes(host_path(value@, true))
        } else {
            value@
        },
{
    if !windows {
        return owned(value);
    }
    let h = shell_path_to_host_path(value, true);
    let v = chars_of(h.as_str());
    let mut out: Vec<char> = Vec::new();
    let mut i: usize = 0;
    while i < v.len()
        invariant
            i <= v@.len(),
            out@ == to_backslashes(v@.subrange(0, i as int)),
        decreases v.len() - i,
    {
        let c = if v[i] == '/' {
            '\\'
        } else {
            v[i]
        };
        out.push(c);
        assert(to_backslashes(v@.subrange(0, i + 1)) =~= to_backslashes(v@.subrange(0, i as int)).push(c));
        i = i + 1;
    }
    assert(v@.subrange(0, v@.len() as int) =~= v@);
    string_of(&out)
}

} // verus!
