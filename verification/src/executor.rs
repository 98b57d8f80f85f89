//! The external-command executor's state: the string environment it passes
//! to child processes and the `PATH` it searches.
use vstd::prelude::*;
use crate::array::ArrayValue;
use crate::text::{
    ascii_lower_text, ascii_lowercase_chars, chars_eq, chars_of, clone_strings, has_suffix, lowercase,
    owned, str_ends_with, to_lowercase, views,
};

verus! {

/// How a command ended.
#[derive(Debug, Clone, PartialEq, Eq)]
pub enum ExecutionOutcome {
    Exited(i32),
    Background { pid: u32, command: String },
}

impl ExecutionOutcome {
    /// The exit status; a command sent to the background counts as success.
    pub fn exit_code(&self) -> (r: i32)
        ensures
            r == match self {
                ExecutionOutcome::Exited(c) => *c,
                ExecutionOutcome::Background { .. } => 0i32,
            },
    {
        match self {
            ExecutionOutcome::Exited(code) => *code,
            ExecutionOutcome::Background { .. } => 0,
        }
    }
}

/// Executor for external commands.
pub struct Executor {
    pub env_vars: Vec<(String, String)>,
    pub current_dir: String,
}

/// The string-valued variables of the shell, in order, as (name, value).
pub open spec fn string_vars(vars: Seq<(String, ArrayValue)>) -> Seq<(Seq<char>, Seq<char>)>
    decreases vars.len(),
{
    if vars.len() == 0 {
        Seq::empty()
    } else {
        let prev = string_vars(vars.drop_last());
        match vars.last().1 {
            ArrayValue::String(s) => prev.push((vars.last().0@, s@)),
            ArrayValue::Array(_) => prev,
        }
    }
}

/// The environment as plain values.
pub open spec fn env_model(e: Seq<(String, String)>) -> Seq<(Seq<char>, Seq<char>)> {
    e.map_values(|p: (String, String)| (p.0@, p.1@))
}

/// The first value whose name equals `name` ignoring ASCII case.
pub open spec fn lookup_ignore_case(e: Seq<(Seq<char>, Seq<char>)>, name: Seq<char>) -> Option<Seq<char>>
    decreases e.len(),
{
    if e.len() == 0 {
        None
    } else if ascii_lower_text(e[0].0) == ascii_lower_text(name) {
        Some(e[0].1)
    } else {
        lookup_ignore_case(e.drop_first(), name)
    }
}

/// Whether two strings are equal ignoring ASCII case
/// (std's `str::eq_ignore_ascii_case`).
pub fn eq_ignore_ascii_case(a: &str, b: &str) -> (r: bool)
    ensures
        r == (ascii_lower_text(a@) == ascii_lower_text(b@)),
{
    let la = ascii_lowercase_chars(a);
    let lb = ascii_lowercase_chars(b);
    chars_eq(&la, &lb)
}

impl Executor {
    /// An executor that passes the string-valued variables (arrays are left
    /// out) and runs commands in `current_dir`.
    pub fn new(env_vars: &[(String, ArrayValue)], current_dir: &str) -> (r: Self)
        ensures
            env_model(r.env_vars@) == string_vars(env_vars@),
            r.current_dir@ == current_dir@,
    {
        let mut out: Vec<(String, String)> = Vec::new();
        let mut i: usize = 0;
        while i < env_vars.len()
            invariant
                i <= env_vars@.len(),
                env_model(out@) == string_vars(env_vars@.subrange(0, i as int)),
            decreases env_vars.len() - i,
        {
            let ghost pre = env_vars@.subrange(0, i as int);
            assert(env_vars@.subrange(0, i + 1).drop_last() =~= pre);
            assert(env_vars@.subrange(0, i + 1).last() == env_vars@[i as int]);
            let ghost before = out@;
            match &env_vars[i].1 {
                ArrayValue::String(s) => {
                    let k = owned(env_vars[i].0.as_str());
                    let v = owned(s.as_str());
                    out.push((k, v));
                    assert(env_model(out@) =~= env_model(before).push((k@, v@)));
                },
                ArrayValue::Array(_) => {},
            }
            i = i + 1;
        }
        assert(env_vars@.subrange(0, env_vars@.len() as int) =~= env_vars@);
        Executor { env_vars: out, current_dir: owned(current_dir) }
    }

    /// The `PATH` to search: the executor's own `PATH` variable (name
    /// compared ignoring ASCII case), or the process's `PATH` when the
    /// executor has no variables at all.
    pub fn search_path(&self, process_path: Option<&str>) -> (r: Option<String>)
        ensures
            match lookup_ignore_case(env_model(self.env_vars@), "PATH"@) {
                Some(p) => r is Some && r->0@ == p,
                None => if self.env_vars@.len() == 0 {
                    match process_path {
                        Some(p) => r is Some && r->0@ == p@,
                        None => r is None,
                    }
                } else {
                    r is None
                },
            },
    {
        let ghost all = env_model(self.env_vars@);
        let mut i: usize = 0;
        assert(all.subrange(0, all.len() as int) =~= all);
        while i < self.env_vars.len()
            invariant
                i <= self.env_vars@.len(),
                all == env_model(self.env_vars@),
                lookup_ignore_case(all, "PATH"@) == lookup_ignore_case(all.subrange(i as int, all.len() as int), "PATH"@),
            decreases self.env_vars.len() - i,
        {
            let ghost t = all.subrange(i as int, all.len() as int);
            assert(t[0] == (self.env_vars@[i as int].0@, self.env_vars@[i as int].1@));
            if eq_ignore_ascii_case(self.env_vars[i].0.as_str(), "PATH") {
                return Some(owned(self.env_vars[i].1.as_str()));
            }
            assert(t.drop_first() =~= all.subrange(i + 1, all.len() as int));
            i = i + 1;
        }
        if self.env_vars.len() == 0 {
            match process_path {
                Some(p) => Some(owned(p)),
                None => None,
            }
        } else {
            None
        }
    }
}

/// How a found program starts: a PowerShell script (its path ends with
/// `.ps1` once lower-cased) runs through `powershell.exe -NoProfile
/// -ExecutionPolicy Bypass -File <path>`, anything else directly; the
/// arguments follow.
pub open spec fn launch_of(program: Seq<char>, args: Seq<Seq<char>>) -> (Seq<char>, Seq<Seq<char>>) {
    if has_suffix(lowercase(program), ".ps1"@) {
        (
            "powershell.exe"@,
            seq!["-NoProfile"@, "-ExecutionPolicy"@, "Bypass"@, "-File"@, program] + args,
        )
    } else {
        (program, args)
    }
}

impl Executor {
    /// The program and arguments to start for the found program `program`.
    pub fn launch_plan(program: &str, args: &[String]) -> (r: (String, Vec<String>))
        ensures
            r.0@ == launch_of(program@, views(args@)).0,
            views(r.1@) == launch_of(program@, views(args@)).1,
    {
        let lower = to_lowercase(program);
        if str_ends_with(lower.as_str(), ".ps1") {
            let mut out: Vec<String> = Vec::new();
            out.push(owned("-NoProfile"));
            out.push(owned("-ExecutionPolicy"));
            out.push(owned("Bypass"));
            out.push(owned("-File"));
            out.push(owned(program));
            let ghost head = views(out@);
            let mut i: usize = 0;
            while i < args.len()
                invariant
                    i <= args@.len(),
                    views(out@) == head + views(args@).subrange(0, i as int),
                decreases args.len() - i,
            {
                let a = owned(args[i].as_str());
                assert(views(args@)[i as int] == args@[i as int]@);
                let ghost before = views(out@);
                out.push(a);
                assert(views(out@) =~= before.push(a@));
                assert(views(out@) =~= head + views(args@).subrange(0, i + 1));
                i += 1;
            }
            assert(views(args@).subrange(0, args@.len() as int) =~= views(args@));
            assert(head =~= seq!["-NoProfile"@, "-ExecutionPolicy"@, "Bypass"@, "-File"@, program@]);
            (owned("powershell.exe"), out)
        } else {
            (owned(program), clone_strings(args))
        }
    }
}

} // verus!
