//! The `.winshrc` startup file: what each line asks for (`source`,
//! `export`, `alias`, `setopt`, plain assignments), once `$HOME`, `${VAR}`
//! and `$VAR` are expanded in it.
use vstd::prelude::*;
use crate::array::ArrayValue;
use crate::script::string_text;
use crate::text::{
    chars_of, has_prefix, is_alphanumeric, owned, starts_with_at, string_of, string_of_range,
    trim, trim_chars, trim_ws, unicode_alnum, TrimSet,
};

verus! {

/// `s` with every non-overlapping occurrence of the non-empty `p`, from the
/// left, replaced by `r` (std's `str::replace`).
pub open spec fn replaced(s: Seq<char>, p: Seq<char>, r: Seq<char>) -> Seq<char>
    decreases s.len(),
{
    if p.len() == 0 || s.len() < p.len() {
        s
    } else if has_prefix(s, p) {
        r + replaced(s.subrange(p.len() as int, s.len() as int), p, r)
    } else {
        seq![s[0]] + replaced(s.drop_first(), p, r)
    }
}

/// `s` with the first occurrence of the non-empty `p` replaced by `r`
/// (std's `str::replacen` with a count of one).
pub open spec fn replaced_first(s: Seq<char>, p: Seq<char>, r: Seq<char>) -> Seq<char>
    decreases s.len(),
{
    if p.len() == 0 || s.len() < p.len() {
        s
    } else if has_prefix(s, p) {
        r + s.subrange(p.len() as int, s.len() as int)
    } else {
        seq![s[0]] + replaced_first(s.drop_first(), p, r)
    }
}

/// Replaces every occurrence of `p` in `v[i..]` (or only the first, when
/// `once`); `p` is not empty.
fn replace_chars(v: &[char], p: &[char], r: &[char], once: bool) -> (out: Vec<char>)
    requires
        p@.len() > 0,
    ensures
        out@ == (if once {
            replaced_first(v@, p@, r@)
        } else {
            replaced(v@, p@, r@)
        }),
{
    let ghost whole = if once {
        replaced_first(v@, p@, r@)
    } else {
        replaced(v@, p@, r@)
    };
    assert(v@.subrange(0, v@.len() as int) =~= v@);
    let mut out: Vec<char> = Vec::new();
    let mut i: usize = 0;
    while i < v.len()
        invariant
            i <= v@.len(),
            p@.len() > 0,
            whole == (if once {
                replaced_first(v@, p@, r@)
            } else {
                replaced(v@, p@, r@)
            }),
            out@ + (if once {
                replaced_first(v@.subrange(i as int, v@.len() as int), p@, r@)
            } else {
                replaced(v@.subrange(i as int, v@.len() as int), p@, r@)
            }) == whole,
        decreases v.len() - i,
    {
        let ghost t = v@.subrange(i as int, v@.len() as int);
        let ghost before = out@;
        if p.len() <= v.len() - i && starts_with_at(v, i, p) {
            let mut k: usize = 0;
            while k < r.len()
                invariant
                    k <= r@.len(),
                    out@ == before + r@.subrange(0, k as int),
                decreases r.len() - k,
            {
                out.push(r[k]);
                k += 1;
            }
            assert(r@.subrange(0, r@.len() as int) =~= r@);
            assert(t.subrange(p@.len() as int, t.len() as int) =~= v@.subrange(
                i + p@.len(),
                v@.len() as int,
            ));
            if once {
                let mut j = i + p.len();
                while j < v.len()
                    invariant
                        i + p@.len() <= j <= v@.len(),
                        out@ == before + r@ + v@.subrange(i + p@.len(), j as int),
                    decreases v.len() - j,
                {
                    out.push(v[j]);
                    j += 1;
                }
                assert(out@ =~= before + (r@ + t.subrange(p@.len() as int, t.len() as int)));
                return out;
            }
            assert(out@ + replaced(v@.subrange(i + p@.len(), v@.len() as int), p@, r@) =~= before
                + (r@ + replaced(t.subrange(p@.len() as int, t.len() as int), p@, r@)));
            i = i + p.len();
        } else {
            out.push(v[i]);
            assert(t.drop_first() =~= v@.subrange(i + 1, v@.len() as int));
            proof {
                if p@.len() <= t.len() {
                    assert(out@ + (if once {
                        replaced_first(t.drop_first(), p@, r@)
                    } else {
                        replaced(t.drop_first(), p@, r@)
                    }) =~= before + (seq![t[0]] + (if once {
                        replaced_first(t.drop_first(), p@, r@)
                    } else {
                        replaced(t.drop_first(), p@, r@)
                    })));
                } else {
                    assert(out@ + t.drop_first() =~= before + t);
                    assert(replaced(t.drop_first(), p@, r@) == t.drop_first());
                    assert(replaced_first(t.drop_first(), p@, r@) == t.drop_first());
                }
            }
            i = i + 1;
        }
    }
    assert(out@ + Seq::<char>::empty() =~= out@);
    out
}

/// The longest name among the string variables in `env`.
pub open spec fn max_key_len(env: Seq<(String, ArrayValue)>) -> int
    decreases env.len(),
{
    if env.len() == 0 {
        0
    } else {
        let rest = max_key_len(env.drop_last());
        if env.last().0@.len() > rest {
            env.last().0@.len() as int
        } else {
            rest
        }
    }
}

/// The reference to a variable: `${name}` when `braced`, else `$name`.
pub open spec fn var_ref(name: Seq<char>, braced: bool) -> Seq<char> {
    if braced {
        seq!['$', '{'] + name + seq!['}']
    } else {
        seq!['$'] + name
    }
}

/// `t` with the references to the string variables of `env[i..]` whose
/// names are `len` long replaced by their values, in the order of `env`.
pub open spec fn pass_len(
    t: Seq<char>,
    env: Seq<(String, ArrayValue)>,
    i: int,
    len: int,
    braced: bool,
) -> Seq<char>
    decreases env.len() - i,
{
    if i < 0 || i >= env.len() {
        t
    } else {
        let next = match string_text(Some(env[i].1)) {
            Some(v) => if env[i].0@.len() == len {
                replaced(t, var_ref(env[i].0@, braced), v)
            } else {
                t
            },
            None => t,
        };
        pass_len(next, env, i + 1, len, braced)
    }
}

/// `t` with the references to the string variables of `env` replaced by
/// their values, longer names first and names of one length in the order of
/// `env` (from names `len` long down).
pub open spec fn pass_from(t: Seq<char>, env: Seq<(String, ArrayValue)>, len: int, braced: bool) -> Seq<char>
    decreases len + 1,
{
    if len < 0 {
        t
    } else {
        pass_from(pass_len(t, env, 0, len, braced), env, len - 1, braced)
    }
}

/// A config line with `$HOME` replaced by `home`, then `${VAR}`, then `$VAR`
/// replaced by the values of the string variables of `env`, longer names
/// first.
pub open spec fn config_expanded(line: Seq<char>, home: Seq<char>, env: Seq<(String, ArrayValue)>) -> Seq<char> {
    let h = replaced(line, "$HOME"@, home);
    pass_from(pass_from(h, env, max_key_len(env), true), env, max_key_len(env), false)
}

fn max_key_length(env: &[(String, ArrayValue)]) -> (r: usize)
    ensures
        r == max_key_len(env@),
{
    let mut m: usize = 0;
    let mut i: usize = 0;
    while i < env.len()
        invariant
            i <= env@.len(),
            m == max_key_len(env@.subrange(0, i as int)),
        decreases env.len() - i,
    {
        assert(env@.subrange(0, i + 1).drop_last() =~= env@.subrange(0, i as int));
        let l = env[i].0.as_str().unicode_len();
        if l > m {
            m = l;
        }
        i += 1;
    }
    assert(env@.subrange(0, env@.len() as int) =~= env@);
    m
}

fn ref_chars(name: &str, braced: bool) -> (r: Vec<char>)
    ensures
        r@ == var_ref(name@, braced),
{
    let n = chars_of(name);
    let mut r: Vec<char> = Vec::new();
    r.push('$');
    if braced {
        r.push('{');
    }
    let mut k: usize = 0;
    while k < n.len()
        invariant
            k <= n@.len(),
            r@ == (if braced {
                seq!['$', '{']
            } else {
                seq!['$']
            }) + n@.subrange(0, k as int),
        decreases n.len() - k,
    {
        r.push(n[k]);
        k += 1;
    }
    if braced {
        r.push('}');
    }
    assert(n@.subrange(0, n@.len() as int) =~= n@);
    assert(r@ =~= var_ref(name@, braced));
    r
}

fn replace_pass(t: Vec<char>, env: &[(String, ArrayValue)], len: usize, braced: bool) -> (r: Vec<char>)
    ensures
        r@ == pass_len(t@, env@, 0, len as int, braced),
{
    let mut cur = t;
    let mut i: usize = 0;
    while i < env.len()
        invariant
            i <= env@.len(),
            pass_len(t@, env@, 0, len as int, braced) == pass_len(cur@, env@, i as int, len as int, braced),
        decreases env.len() - i,
    {
        match env[i].1.as_string() {
            Some(v) => {
                if env[i].0.as_str().unicode_len() == len {
                    let p = ref_chars(env[i].0.as_str(), braced);
                    let vc = chars_of(v);
                    cur = replace_chars(&cur, &p, &vc, false);
                }
            },
            None => {},
        }
        i += 1;
    }
    cur
}

fn replace_all_passes(t: Vec<char>, env: &[(String, ArrayValue)], top: usize, braced: bool) -> (r: Vec<char>)
    ensures
        r@ == pass_from(t@, env@, top as int, braced),
{
    let mut cur = t;
    let mut len = top;
    loop
        invariant
            len <= top,
            pass_from(t@, env@, top as int, braced) == pass_from(cur@, env@, len as int, braced),
        decreases len,
    {
        let ghost prev = cur@;
        cur = replace_pass(cur, env, len, braced);
        assert(pass_from(prev, env@, len as int, braced) == pass_from(cur@, env@, len - 1, braced));
        if len == 0 {
            assert(pass_from(cur@, env@, -1, braced) == cur@);
            return cur;
        }
        len -= 1;
    }
}

/// Expands a config line: `$HOME` becomes `home`, then `${VAR}` and `$VAR`
/// become the values of the string variables of `env`, longer names first.
pub fn expand_config_line(line: &str, home: &str, env: &[(String, ArrayValue)]) -> (r: String)
    ensures
        r@ == config_expanded(line@, home@, env@),
{
    let v = chars_of(line);
    let p = chars_of("$HOME");
    proof {
        reveal_strlit("$HOME");
    }
    let h = chars_of(home);
    let replaced_home = replace_chars(&v, &p, &h, false);
    let top = max_key_length(env);
    let a = replace_all_passes(replaced_home, env, top, true);
    let b = replace_all_passes(a, env, top, false);
    string_of(&b)
}

/// What a line of the startup file asks for.
#[derive(Debug, Clone, PartialEq, Eq)]
pub enum ConfigDirective {
    /// Nothing: an empty or comment line, `setopt`, or a line that sets nothing.
    Skip,
    /// Load the file at this path as well.
    Source(String),
    /// Set a shell variable.
    SetVar(String, String),
    /// Define an alias.
    Alias(String, String),
}

/// The view of a directive, its strings taken as text.
pub enum DirectiveView {
    Skip,
    Source(Seq<char>),
    SetVar(Seq<char>, Seq<char>),
    Alias(Seq<char>, Seq<char>),
}

impl ConfigDirective {
    pub open spec fn view(&self) -> DirectiveView {
        match self {
            ConfigDirective::Skip => DirectiveView::Skip,
            ConfigDirective::Source(p) => DirectiveView::Source(p@),
            ConfigDirective::SetVar(n, v) => DirectiveView::SetVar(n@, v@),
            ConfigDirective::Alias(n, v) => DirectiveView::Alias(n@, v@),
        }
    }
}

/// `s` trimmed, then stripped of `a` at both ends, then of `b`.
pub open spec fn unquoted_value(s: Seq<char>, a: char, b: char) -> Seq<char> {
    trim(trim(trim_ws(s), TrimSet::Only(a)), TrimSet::Only(b))
}

/// The first `=` of `s`, if any.
pub open spec fn eq_index(s: Seq<char>) -> Option<int> {
    crate::text::first_index(s, '=')
}

/// The path a `source` line names: unquoted, with a leading `$HOME` or `~`
/// resolved against `home` (the first `$HOME`, then the first `~`, then
/// every `/` turned into `\`).
pub open spec fn source_path(rest: Seq<char>, home: Seq<char>) -> Seq<char> {
    let p = unquoted_value(rest, '"', '\'');
    if has_prefix(p, "$HOME"@) || has_prefix(p, "~"@) {
        replaced(replaced_first(replaced_first(p, "$HOME"@, home), "~"@, home), "/"@, "\\"@)
    } else {
        p
    }
}

/// `name=value` split at the first `=`: the name trimmed and the value
/// through `unquoted_value` with `a` then `b`.
pub open spec fn assignment(s: Seq<char>, a: char, b: char) -> Option<(Seq<char>, Seq<char>)> {
    match eq_index(s) {
        Some(k) => Some((trim_ws(s.subrange(0, k)), unquoted_value(s.subrange(k + 1, s.len() as int), a, b))),
        None => None,
    }
}

/// Every character of `s` is alphanumeric (std's `char::is_alphanumeric`) or `_`.
pub open spec fn plain_name(s: Seq<char>) -> bool {
    forall|i: int| 0 <= i < s.len() ==> unicode_alnum(#[trigger] s[i]) || s[i] == '_'
}

/// What the startup-file line `line` asks for, with `home` as the home
/// directory and `env` the shell variables at that point.
pub open spec fn directive_of(line: Seq<char>, home: Seq<char>, env: Seq<(String, ArrayValue)>) -> DirectiveView {
    let t = trim_ws(line);
    if t.len() == 0 || has_prefix(t, "#"@) {
        DirectiveView::Skip
    } else {
        let e = config_expanded(t, home, env);
        if has_prefix(e, "source "@) {
            DirectiveView::Source(source_path(e.subrange(7, e.len() as int), home))
        } else if has_prefix(e, "export "@) {
            match assignment(e.subrange(7, e.len() as int), '"', '\'') {
                Some((n, v)) => DirectiveView::SetVar(n, v),
                None => DirectiveView::Skip,
            }
        } else if has_prefix(e, "alias "@) {
            match assignment(e.subrange(6, e.len() as int), '\'', '"') {
                Some((n, v)) => DirectiveView::Alias(n, v),
                None => DirectiveView::Skip,
            }
        } else if has_prefix(e, "setopt "@) {
            DirectiveView::Skip
        } else {
            match assignment(e, '"', '\'') {
                Some((n, v)) => if plain_name(n) {
                    DirectiveView::SetVar(n, v)
                } else {
                    DirectiveView::Skip
                },
                None => DirectiveView::Skip,
            }
        }
    }
}

fn unquote_value(v: &[char], a: char, b: char) -> (r: Vec<char>)
    ensures
        r@ == unquoted_value(v@, a, b),
{
    let t = trim_chars(v, TrimSet::Whitespace);
    let t2 = trim_chars(&t, TrimSet::Only(a));
    trim_chars(&t2, TrimSet::Only(b))
}

fn split_assignment(v: &[char], a: char, b: char) -> (r: Option<(String, String)>)
    ensures
        match (r, assignment(v@, a, b)) {
            (Some((n, x)), Some((sn, sx))) => n@ == sn && x@ == sx,
            (None, None) => true,
            _ => false,
        },
{
    let n = v.len();
    match crate::text::find_char_from(v, '=', 0) {
        Some(k) => {
            proof {
                crate::text::lemma_first_index_at(v@, '=', k as int);
            }
            let name = trim_chars(&v[0..k], TrimSet::Whitespace);
            let value = unquote_value(&v[k + 1..n], a, b);
            Some((string_of(&name), string_of(&value)))
        },
        None => {
            proof {
                crate::text::lemma_first_index_none(v@, '=');
            }
            None
        },
    }
}

fn is_plain_name(v: &[char]) -> (r: bool)
    ensures
        r == plain_name(v@),
{
    let mut i: usize = 0;
    while i < v.len()
        invariant
            i <= v@.len(),
            forall|j: int| 0 <= j < i ==> unicode_alnum(#[trigger] v@[j]) || v@[j] == '_',
        decreases v.len() - i,
    {
        if !is_alphanumeric(v[i]) && v[i] != '_' {
            return false;
        }
        i += 1;
    }
    true
}

/// Reads one line of the startup file: what it asks for, with `home` as
/// the home directory and `env` the shell variables set so far.
pub fn config_directive(line: &str, home: &str, env: &[(String, ArrayValue)]) -> (r: ConfigDirective)
    ensures
        r.view() == directive_of(line@, home@, env@),
{
    let lv = chars_of(line);
    let tv = trim_chars(&lv, TrimSet::Whitespace);
    proof {
        reveal_strlit("#");
    }
    if tv.len() == 0 {
        return ConfigDirective::Skip;
    }
    if tv[0] == '#' {
        assert(tv@.subrange(0, 1) =~= "#"@);
        return ConfigDirective::Skip;
    }
    assert(!has_prefix(tv@, "#"@)) by {
        if has_prefix(tv@, "#"@) {
            assert(tv@.subrange(0, 1)[0] == tv@[0]);
        }
    }
    proof {
        reveal_strlit("#");
        reveal_strlit("source ");
        reveal_strlit("export ");
        reveal_strlit("alias ");
        reveal_strlit("setopt ");
    }
    let t = string_of(&tv);
    let e = expand_config_line(t.as_str(), home, env);
    let ev = chars_of(e.as_str());
    let source = chars_of("source ");
    let export = chars_of("export ");
    let alias = chars_of("alias ");
    let setopt = chars_of("setopt ");
    assert(ev@.subrange(0, ev@.len() as int) =~= ev@);
    if starts_with_at(&ev, 0, &source) {
        let rest = &ev[7..ev.len()];
        let p = unquote_value(rest, '"', '\'');
        let pv = chars_of("$HOME");
        let tilde = chars_of("~");
        proof {
            reveal_strlit("$HOME");
            reveal_strlit("~");
            reveal_strlit("/");
            reveal_strlit("\\");
        }
        assert(p@.subrange(0, p@.len() as int) =~= p@);
        if starts_with_at(&p, 0, &pv) || starts_with_at(&p, 0, &tilde) {
            let h = chars_of(home);
            let a = replace_chars(&p, &pv, &h, true);
            assert(a@ == replaced_first(p@, "$HOME"@, home@));
            let b = replace_chars(&a, &tilde, &h, true);
            assert(b@ == replaced_first(a@, "~"@, home@));
            let slash = chars_of("/");
            let back = chars_of("\\");
            let c = replace_chars(&b, &slash, &back, false);
            assert(c@ == replaced(b@, "/"@, "\\"@));
            assert(has_prefix(p@, "$HOME"@) || has_prefix(p@, "~"@));
            assert(rest@ == e@.subrange(7, e@.len() as int));
            assert(c@ == source_path(e@.subrange(7, e@.len() as int), home@));
            return ConfigDirective::Source(string_of(&c));
        }
        return ConfigDirective::Source(string_of(&p));
    }
    if starts_with_at(&ev, 0, &export) {
        return match split_assignment(&ev[7..ev.len()], '"', '\'') {
            Some((n, v)) => ConfigDirective::SetVar(n, v),
            None => ConfigDirective::Skip,
        };
    }
    if starts_with_at(&ev, 0, &alias) {
        return match split_assignment(&ev[6..ev.len()], '\'', '"') {
            Some((n, v)) => ConfigDirective::Alias(n, v),
            None => ConfigDirective::Skip,
        };
    }
    if starts_with_at(&ev, 0, &setopt) {
        return ConfigDirective::Skip;
    }
    match split_assignment(&ev, '"', '\'') {
        Some((n, v)) => {
            let nv = chars_of(n.as_str());
            if is_plain_name(&nv) {
                ConfigDirective::SetVar(n, v)
            } else {
                ConfigDirective::Skip
            }
        },
        None => ConfigDirective::Skip,
    }
}

} // verus!
