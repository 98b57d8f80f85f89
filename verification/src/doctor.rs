//! `niu doctor`: the health report of an installation. The probes (where
//! winuxcmd is, whether the command links, startup file and plugin bundle
//! are there, ...) are taken by the program; the report they make is
//! composed here: one line per check with a fix hint, and the count of the
//! four critical checks that passed.
use vstd::prelude::*;
use crate::builtins::paths::backslashes_to_slashes;
use crate::text::{nat_text, owned, push_char, u64_text};

verus! {

/// Where the interactive startup file was found.
#[derive(Debug, Clone, PartialEq, Eq)]
pub enum RcProbe {
    /// `~/.niubashrc`, at this path.
    Primary(String),
    /// The legacy `~/.winuxshrc`, at this path.
    Legacy(String),
    /// Neither.
    Missing,
}

/// What the doctor's probes found.
#[derive(Debug, Clone, PartialEq, Eq)]
pub struct DoctorProbes {
    /// The program's version.
    pub version: String,
    /// Whether the report goes to a terminal (icons and colors) or not
    /// (plain words).
    pub color: bool,
    /// The winuxcmd executable, when found.
    pub winuxcmd: Option<String>,
    /// The version winuxcmd reports, when it does.
    pub winuxcmd_version: Option<String>,
    /// Whether the bash/sh forwarders sit beside winuxcmd.
    pub shims: bool,
    /// The number of commands, when the command links are ready.
    pub links: Option<usize>,
    pub rc: RcProbe,
    /// The active plugin bundle, when there is one.
    pub bundle: Option<String>,
    pub nerd_font: bool,
    /// Whether the shell runs inside Windows Terminal.
    pub windows_terminal: bool,
    /// Whether the setup wizard speaks Chinese.
    pub chinese: bool,
}

/// The marks of passed, advised and informative rows.
pub open spec fn mark(color: bool, kind: int) -> Seq<char> {
    if color {
        if kind == 0 {
            "\x1b[1;92m✅\x1b[0m"@
        } else if kind == 1 {
            "\x1b[1;93m⚠️\x1b[0m"@
        } else {
            "\x1b[1;96mℹ️\x1b[0m"@
        }
    } else {
        if kind == 0 {
            "OK"@
        } else if kind == 1 {
            "ADVICE"@
        } else {
            "INFO"@
        }
    }
}

/// A row of the report: two spaces, the mark, a space, the text.
pub open spec fn row(color: bool, kind: int, text: Seq<char>) -> Seq<char> {
    "  "@ + mark(color, kind) + " "@ + text
}

/// How many of the four critical checks passed: winuxcmd found, command
/// links ready, a startup file present, a plugin bundle active.
pub open spec fn critical_passed(p: DoctorProbes) -> nat {
    (if p.winuxcmd is Some { 1nat } else { 0nat }) + (if p.links is Some { 1nat } else { 0nat }) + (
    if p.rc is Missing { 0nat } else { 1nat }) + (if p.bundle is Some { 1nat } else { 0nat })
}

/// The rows about winuxcmd.
pub open spec fn winuxcmd_rows(p: DoctorProbes) -> Seq<Seq<char>> {
    match p.winuxcmd {
        Some(exe) => {
            let version = match p.winuxcmd_version {
                Some(v) => " (winuxcmd "@ + v@ + ")"@,
                None => Seq::empty(),
            };
            seq![
                row(p.color, 0, "winuxcmd core       "@ + backslashes_to_slashes(exe@) + version),
                row(
                    p.color,
                    2,
                    if p.shims {
                        "bash/sh shims       present — `bash` and `sh` forward to niu"@
                    } else {
                        "bash/sh shims       not beside winuxcmd (optional)"@
                    },
                ),
            ]
        },
        None => seq![row(p.color, 1, "winuxcmd core       not found — reinstall Niubash or check PATH"@)],
    }
}

/// The rows about the command links, the startup file and the bundle.
pub open spec fn setup_rows(p: DoctorProbes) -> Seq<Seq<char>> {
    seq![
        match p.links {
            Some(n) => row(p.color, 0, "command links       "@ + nat_text(n as nat) + " commands (ls, cat, grep, …)"@),
            None => row(p.color, 1, "command links       missing (ls/cat/grep) — restart niu or run `wpm links rebuild`"@),
        },
        match p.rc {
            RcProbe::Primary(path) => row(p.color, 0, "startup rc          "@ + backslashes_to_slashes(path@)),
            RcProbe::Legacy(path) => row(
                p.color,
                0,
                "startup rc          "@ + backslashes_to_slashes(path@) + " (legacy, migrates on next start)"@,
            ),
            RcProbe::Missing => row(p.color, 1, "startup rc          none — run `niu setup` to create ~/.niubashrc"@),
        },
        match p.bundle {
            Some(path) => row(p.color, 0, "plugin bundle       oh-my-niu at "@ + backslashes_to_slashes(path@)),
            None => row(
                p.color,
                1,
                "plugin bundle       none active — themes/packs need it; see `niu plugin bundle status`"@,
            ),
        },
    ]
}

/// The advisory rows: font, terminal, and the wizard's language.
pub open spec fn advice_rows(p: DoctorProbes) -> Seq<Seq<char>> {
    seq![
        if p.nerd_font {
            row(p.color, 0, "nerd font           detected — icon themes unlocked"@)
        } else {
            row(p.color, 2, "nerd font           not found — icon themes need one: `niu font`"@)
        },
        row(
            p.color,
            2,
            "terminal            "@ + if p.windows_terminal {
                "Windows Terminal"@
            } else {
                "console host"@
            },
        ),
    ] + if p.chinese {
        seq![row(p.color, 2, "language            zh (wizard follows it; override with NIU_LANG)"@)]
    } else {
        Seq::empty()
    }
}

/// The last row: how many critical checks passed.
pub open spec fn summary_row(p: DoctorProbes) -> Seq<char> {
    let passed = critical_passed(p);
    let count = nat_text(passed) + "/4 critical checks passed"@;
    if passed == 4 {
        row(p.color, 0, count)
    } else {
        row(p.color, 1, count + " — fix the rows above"@)
    }
}

/// The whole report, line by line: the title, an empty line, the checks,
/// an empty line, the summary.
pub open spec fn doctor_lines(p: DoctorProbes) -> Seq<Seq<char>> {
    let title = if p.color {
        "\x1b[1mniubash doctor\x1b[0m — "@ + p.version@
    } else {
        "niubash doctor — "@ + p.version@
    };
    seq![title, Seq::empty()] + winuxcmd_rows(p) + setup_rows(p) + advice_rows(p) + seq![
        Seq::empty(),
        summary_row(p),
    ]
}

fn mark_text(color: bool, kind: u8) -> (r: String)
    requires
        kind <= 2,
    ensures
        r@ == mark(color, kind as int),
{
    if color {
        if kind == 0 {
            owned("\x1b[1;92m✅\x1b[0m")
        } else if kind == 1 {
            owned("\x1b[1;93m⚠️\x1b[0m")
        } else {
            owned("\x1b[1;96mℹ️\x1b[0m")
        }
    } else {
        if kind == 0 {
            owned("OK")
        } else if kind == 1 {
            owned("ADVICE")
        } else {
            owned("INFO")
        }
    }
}

fn row_text(color: bool, kind: u8, text: &str) -> (r: String)
    requires
        kind <= 2,
    ensures
        r@ == row(color, kind as int, text@),
{
    let m = mark_text(color, kind);
    owned("  ").concat(m.as_str()).concat(" ").concat(text)
}

fn slashed(path: &str) -> (r: String)
    ensures
        r@ == backslashes_to_slashes(path@),
{
    let v = crate::text::chars_of(path);
    let mut r = String::new();
    let mut i: usize = 0;
    while i < v.len()
        invariant
            i <= v@.len(),
            v@ == path@,
            r@ == backslashes_to_slashes(path@).subrange(0, i as int),
        decreases v.len() - i,
    {
        let c = if v[i] == '\\' {
            '/'
        } else {
            v[i]
        };
        push_char(&mut r, c);
        assert(r@ =~= backslashes_to_slashes(path@).subrange(0, i + 1));
        i += 1;
    }
    assert(backslashes_to_slashes(path@).subrange(0, v@.len() as int) =~= backslashes_to_slashes(path@));
    r
}

/// The report of `niu doctor` for what the probes found, line by line.
#[verifier::spinoff_prover]
#[verifier::rlimit(40)]
pub fn doctor_report(p: &DoctorProbes) -> (r: Vec<String>)
    ensures
        crate::text::views(r@) == doctor_lines(*p),
{
    let mut lines: Vec<String> = Vec::new();
    let ghost mut want: Seq<Seq<char>> = Seq::empty();
    let title = if p.color {
        owned("\x1b[1mniubash doctor\x1b[0m — ").concat(p.version.as_str())
    } else {
        owned("niubash doctor — ").concat(p.version.as_str())
    };
    let ghost title_v = if p.color {
        "\x1b[1mniubash doctor\x1b[0m — "@ + p.version@
    } else {
        "niubash doctor — "@ + p.version@
    };
    assert(title@ == title_v);
    lines.push(title);
    lines.push(String::new());
    let mut passed: u64 = 0;
    match &p.winuxcmd {
        Some(exe) => {
            let shown = slashed(exe.as_str());
            let mut text = owned("winuxcmd core       ").concat(shown.as_str());
            match &p.winuxcmd_version {
                Some(v) => {
                    text = text.concat(" (winuxcmd ").concat(v.as_str()).concat(")");
                    assert(text@ =~= "winuxcmd core       "@ + backslashes_to_slashes(exe@) + (" (winuxcmd "@ + v@ + ")"@));
                },
                None => {
                    assert(text@ =~= "winuxcmd core       "@ + backslashes_to_slashes(exe@) + Seq::<char>::empty());
                },
            }
            lines.push(row_text(p.color, 0, text.as_str()));
            passed = passed + 1;
            if p.shims {
                lines.push(row_text(p.color, 2, "bash/sh shims       present — `bash` and `sh` forward to niu"));
            } else {
                lines.push(row_text(p.color, 2, "bash/sh shims       not beside winuxcmd (optional)"));
            }
        },
        None => {
            lines.push(row_text(p.color, 1, "winuxcmd core       not found — reinstall Niubash or check PATH"));
        },
    }
    assert(crate::text::views(lines@) =~= seq![title_v, Seq::<char>::empty()] + winuxcmd_rows(*p));
    match p.links {
        Some(n) => {
            let count = u64_text(n as u64);
            let text = owned("command links       ").concat(count.as_str()).concat(" commands (ls, cat, grep, …)");
            lines.push(row_text(p.color, 0, text.as_str()));
            passed = passed + 1;
        },
        None => {
            lines.push(row_text(p.color, 1, "command links       missing (ls/cat/grep) — restart niu or run `wpm links rebuild`"));
        },
    }
    match &p.rc {
        RcProbe::Primary(path) => {
            let shown = slashed(path.as_str());
            let text = owned("startup rc          ").concat(shown.as_str());
            lines.push(row_text(p.color, 0, text.as_str()));
            passed = passed + 1;
        },
        RcProbe::Legacy(path) => {
            let shown = slashed(path.as_str());
            let text = owned("startup rc          ").concat(shown.as_str()).concat(" (legacy, migrates on next start)");
            lines.push(row_text(p.color, 0, text.as_str()));
            passed = passed + 1;
        },
        RcProbe::Missing => {
            lines.push(row_text(p.color, 1, "startup rc          none — run `niu setup` to create ~/.niubashrc"));
        },
    }
    match &p.bundle {
        Some(path) => {
            let shown = slashed(path.as_str());
            let text = owned("plugin bundle       oh-my-niu at ").concat(shown.as_str());
            lines.push(row_text(p.color, 0, text.as_str()));
            passed = passed + 1;
        },
        None => {
            lines.push(row_text(p.color, 1, "plugin bundle       none active — themes/packs need it; see `niu plugin bundle status`"));
        },
    }
    assert(crate::text::views(lines@) =~= seq![title_v, Seq::<char>::empty()] + winuxcmd_rows(*p) + setup_rows(*p));
    assert(passed == critical_passed(*p));
    if p.nerd_font {
        lines.push(row_text(p.color, 0, "nerd font           detected — icon themes unlocked"));
    } else {
        lines.push(row_text(p.color, 2, "nerd font           not found — icon themes need one: `niu font`"));
    }
    let terminal = if p.windows_terminal {
        owned("terminal            Windows Terminal")
    } else {
        owned("terminal            console host")
    };
    proof {
        reveal_strlit("terminal            Windows Terminal");
        reveal_strlit("terminal            console host");
        reveal_strlit("terminal            ");
        reveal_strlit("Windows Terminal");
        reveal_strlit("console host");
        assert("terminal            Windows Terminal"@ =~= "terminal            "@ + "Windows Terminal"@);
        assert("terminal            console host"@ =~= "terminal            "@ + "console host"@);
    }
    lines.push(row_text(p.color, 2, terminal.as_str()));
    if p.chinese {
        lines.push(row_text(p.color, 2, "language            zh (wizard follows it; override with NIU_LANG)"));
    }
    assert(crate::text::views(lines@) =~= seq![title_v, Seq::<char>::empty()] + winuxcmd_rows(*p) + setup_rows(*p) + advice_rows(*p));
    lines.push(String::new());
    let count = u64_text(passed).concat("/4 critical checks passed");
    if passed == 4 {
        lines.push(row_text(p.color, 0, count.as_str()));
    } else {
        let text = count.concat(" — fix the rows above");
        lines.push(row_text(p.color, 1, text.as_str()));
    }
    assert(crate::text::views(lines@) =~= doctor_lines(*p));
    lines
}

} // verus!
