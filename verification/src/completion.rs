//! Completion and expansion of `$NAME` and `${NAME}` variable references.
//! The shell's variables are a list of (name, value) pairs; the process
//! environment is passed in the same form.
use vstd::prelude::*;
use crate::text::{
    chars_of, concat, find_char_from, first_index, has_prefix, is_alphanumeric, lemma_first_index, lemma_first_index_at,
    lemma_first_index_none, lowercase, owned, push_char, str_starts_with, string_of, string_of_range,
    to_lowercase, unicode_alnum, views,
};

verus! {

/// Completion and expansion of variable references.
pub struct VariableCompleter;

/// The value of the first pair named `name`, if any.
pub open spec fn lookup(vars: Seq<(Seq<char>, Seq<char>)>, name: Seq<char>) -> Option<Seq<char>>
    decreases vars.len(),
{
    if vars.len() == 0 {
        None
    } else if vars[0].0 == name {
        Some(vars[0].1)
    } else {
        lookup(vars.drop_first(), name)
    }
}

/// The pairs as plain values.
pub open spec fn pairs_view(v: Seq<(String, String)>) -> Seq<(Seq<char>, Seq<char>)> {
    v.map_values(|p: (String, String)| (p.0@, p.1@))
}

/// The value a reference stands for: the shell's variable, else the
/// process environment's, else nothing.
pub open spec fn value_of(
    name: Seq<char>,
    vars: Seq<(Seq<char>, Seq<char>)>,
    env: Seq<(Seq<char>, Seq<char>)>,
) -> Seq<char> {
    match lookup(vars, name) {
        Some(v) => v,
        None => match lookup(env, name) {
            Some(v) => v,
            None => Seq::empty(),
        },
    }
}

/// The length of the run of name characters (alphanumeric or `_`) that
/// starts `s`.
pub open spec fn name_len(s: Seq<char>) -> int
    decreases s.len(),
{
    if s.len() == 0 || !(unicode_alnum(s[0]) || s[0] == '_') {
        0
    } else {
        1 + name_len(s.drop_first())
    }
}

/// A name run lies inside the text.
pub proof fn lemma_name_len_range(s: Seq<char>)
    ensures
        0 <= name_len(s) <= s.len(),
    decreases s.len(),
{
    if s.len() > 0 {
        lemma_name_len_range(s.drop_first());
    }
}

/// `s` with each `${NAME}` and `$NAME` reference, from left to right,
/// replaced by its value.
pub open spec fn expanded(
    s: Seq<char>,
    vars: Seq<(Seq<char>, Seq<char>)>,
    env: Seq<(Seq<char>, Seq<char>)>,
) -> Seq<char>
    decreases s.len(),
{
    match first_index(s, '$') {
        None => s,
        Some(st) => {
            proof {
                lemma_first_index(s, '$');
            }
            let rest = s.subrange(st + 1, s.len() as int);
            if rest.len() > 0 && rest[0] == '{' && first_index(rest, '}') is Some {
                let end = first_index(rest, '}')->0;
                proof {
                    lemma_first_index(rest, '}');
                }
                s.subrange(0, st) + value_of(rest.subrange(1, end), vars, env) + expanded(
                    rest.subrange(end + 1, rest.len() as int),
                    vars,
                    env,
                )
            } else {
                let e = name_len(rest);
                proof {
                    lemma_name_len_range(rest);
                }
                s.subrange(0, st) + value_of(rest.subrange(0, e), vars, env) + expanded(
                    rest.subrange(e, rest.len() as int),
                    vars,
                    env,
                )
            }
        },
    }
}

/// Where no value looked up holds a `$`, the expansion leaves none: every
/// `$` of the input is taken by the reference it starts.
pub proof fn law_expanded_has_no_dollar(
    s: Seq<char>,
    vars: Seq<(Seq<char>, Seq<char>)>,
    env: Seq<(Seq<char>, Seq<char>)>,
)
    requires
        lookups_dollar_free(s, vars, env),
    ensures
        !crate::text::has_char(expanded(s, vars, env), '$'),
    decreases s.len(),
{
    lemma_first_index(s, '$');
    match first_index(s, '$') {
        None => {},
        Some(st) => {
            let rest = s.subrange(st + 1, s.len() as int);
            let braced = rest.len() > 0 && rest[0] == '{' && first_index(rest, '}') is Some;
            lemma_first_index(rest, '}');
            lemma_name_len_range(rest);
            let end = first_index(rest, '}')->0;
            let e = name_len(rest);
            let name = if braced {
                rest.subrange(1, end)
            } else {
                rest.subrange(0, e)
            };
            let tail = if braced {
                rest.subrange(end + 1, rest.len() as int)
            } else {
                rest.subrange(e, rest.len() as int)
            };
            law_expanded_has_no_dollar(tail, vars, env);
            let head = s.subrange(0, st);
            let val = value_of(name, vars, env);
            let after = expanded(tail, vars, env);
            assert(expanded(s, vars, env) == head + val + after);
            assert forall|i: int| 0 <= i < (head + val + after).len() implies (head + val
                + after)[i] != '$' by {
                if i < head.len() {
                } else if i < head.len() + val.len() {
                    assert((head + val + after)[i] == val[i - head.len()]);
                } else {
                    assert((head + val + after)[i] == after[i - head.len() - val.len()]);
                }
            }
        },
    }
}

/// No value that the references of `s`, read from left to right, look up
/// holds a `$`.
pub open spec fn lookups_dollar_free(
    s: Seq<char>,
    vars: Seq<(Seq<char>, Seq<char>)>,
    env: Seq<(Seq<char>, Seq<char>)>,
) -> bool
    decreases s.len(),
{
    match first_index(s, '$') {
        None => true,
        Some(st) => {
            proof {
                lemma_first_index(s, '$');
            }
            let rest = s.subrange(st + 1, s.len() as int);
            if rest.len() > 0 && rest[0] == '{' && first_index(rest, '}') is Some {
                let end = first_index(rest, '}')->0;
                proof {
                    lemma_first_index(rest, '}');
                }
                !crate::text::has_char(value_of(rest.subrange(1, end), vars, env), '$')
                    && lookups_dollar_free(rest.subrange(end + 1, rest.len() as int), vars, env)
            } else {
                let e = name_len(rest);
                proof {
                    lemma_name_len_range(rest);
                }
                !crate::text::has_char(value_of(rest.subrange(0, e), vars, env), '$')
                    && lookups_dollar_free(rest.subrange(e, rest.len() as int), vars, env)
            }
        },
    }
}

/// The value of the first pair named `name`.
fn find_value(vars: &[(String, String)], name: &str) -> (r: Option<String>)
    ensures
        match lookup(pairs_view(vars@), name@) {
            Some(v) => r is Some && r->0@ == v,
            None => r is None,
        },
{
    let ghost vs = pairs_view(vars@);
    let mut i: usize = 0;
    assert(vs.subrange(0, vs.len() as int) =~= vs);
    while i < vars.len()
        invariant
            i <= vars@.len(),
            vs == pairs_view(vars@),
            lookup(vs, name@) == lookup(vs.subrange(i as int, vs.len() as int), name@),
        decreases vars.len() - i,
    {
        let ghost t = vs.subrange(i as int, vs.len() as int);
        assert(t[0] == (vars@[i as int].0@, vars@[i as int].1@));
        if crate::text::str_eq(vars[i].0.as_str(), name) {
            return Some(vars[i].1.clone());
        }
        assert(t.drop_first() =~= vs.subrange(i + 1, vs.len() as int));
        i = i + 1;
    }
    None
}

/// The value a reference stands for.
fn variable_value(name: &str, vars: &[(String, String)], env: &[(String, String)]) -> (r: String)
    ensures
        r@ == value_of(name@, pairs_view(vars@), pairs_view(env@)),
{
    match find_value(vars, name) {
        Some(v) => v,
        None => match find_value(env, name) {
            Some(v) => v,
            None => String::new(),
        },
    }
}

/// Appends `v[from..to]` to `out`.
fn push_range(out: &mut Vec<char>, v: &[char], from: usize, to: usize)
    requires
        from <= to <= v@.len(),
    ensures
        final(out)@ == old(out)@ + v@.subrange(from as int, to as int),
{
    let mut k = from;
    while k < to
        invariant
            from <= k <= to <= v@.len(),
            out@ == old(out)@ + v@.subrange(from as int, k as int),
        decreases to - k,
    {
        out.push(v[k]);
        assert(old(out)@ + v@.subrange(from as int, k + 1) =~= old(out)@ + v@.subrange(
            from as int,
            k as int,
        ) + seq![v@[k as int]]);
        k = k + 1;
    }
}

impl VariableCompleter {
    /// Replaces each `${NAME}` and `$NAME` reference in `input` by the
    /// value of the shell's variable, else the process environment's, else
    /// nothing. A name is a run of alphanumeric characters and `_`; a `$`
    /// before anything else just disappears. The expansion starts over at
    /// the first `$` of what it built, which reads each reference left to
    /// right as long as no value it looks up holds a `$` (with one that
    /// does, a value that names itself would never finish).
    pub fn expand_variables(input: &str, vars: &[(String, String)], env: &[(String, String)]) -> (r:
        String)
        requires
            lookups_dollar_free(input@, pairs_view(vars@), pairs_view(env@)),
        ensures
            r@ == expanded(input@, pairs_view(vars@), pairs_view(env@)),
    {
        let ghost vs = pairs_view(vars@);
        let ghost es = pairs_view(env@);
        let v = chars_of(input);
        let n = v.len();
        let mut out: Vec<char> = Vec::new();
        let mut i: usize = 0;
        assert(v@.subrange(0, n as int) =~= v@);
        while i < n
            invariant
                i <= n == v@.len(),
                v@ == input@,
                vs == pairs_view(vars@),
                es == pairs_view(env@),
                out@ + expanded(v@.subrange(i as int, n as int), vs, es) == expanded(input@, vs, es),
            decreases n - i,
        {
            let ghost t = v@.subrange(i as int, n as int);
            match find_char_from(&v, '$', i) {
                None => {
                    proof {
                        assert forall|j: int| 0 <= j < t.len() implies t[j] != '$' by {
                            assert(t[j] == v@[i + j]);
                        }
                        lemma_first_index_none(t, '$');
                    }
                    push_range(&mut out, &v, i, n);
                    i = n;
                    assert(v@.subrange(n as int, n as int) =~= Seq::<char>::empty());
                    proof {
                        lemma_first_index_none(Seq::<char>::empty(), '$');
                    }
                },
                Some(st) => {
                    proof {
                        assert forall|j: int| 0 <= j < st - i implies t[j] != '$' by {
                            assert(t[j] == v@[i + j]);
                        }
                        assert(t[st - i] == '$');
                        lemma_first_index_at(t, '$', st - i);
                    }
                    let ghost rest = t.subrange(st - i + 1, t.len() as int);
                    assert(rest =~= v@.subrange(st + 1, n as int));
                    assert(t.subrange(0, st - i) =~= v@.subrange(i as int, st as int));
                    push_range(&mut out, &v, i, st);
                    let r0 = st + 1;
                    let mut brace_end: Option<usize> = None;
                    if r0 < n && v[r0] == '{' {
                        brace_end = find_char_from(&v, '}', r0);
                    }
                    match brace_end {
                        Some(e_abs) => {
                            proof {
                                assert forall|j: int| 0 <= j < e_abs - r0 implies rest[j] != '}' by {
                                    assert(rest[j] == v@[r0 + j]);
                                }
                                assert(rest[e_abs - r0] == '}');
                                lemma_first_index_at(rest, '}', e_abs - r0);
                            }
                            let name = string_of_range(&v, r0 + 1, e_abs);
                            assert(name@ =~= rest.subrange(1, e_abs - r0));
                            let value = variable_value(name.as_str(), vars, env);
                            let vc = chars_of(value.as_str());
                            assert(vc@.subrange(0, vc@.len() as int) =~= vc@);
                            push_range(&mut out, &vc, 0, vc.len());
                            assert(rest.subrange(e_abs - r0 + 1, rest.len() as int) =~= v@.subrange(
                                e_abs + 1,
                                n as int,
                            ));
                            i = e_abs + 1;
                        },
                        None => {
                            proof {
                                if r0 < n && v@[r0 as int] == '{' {
                                    assert forall|j: int| 0 <= j < rest.len() implies rest[j] != '}' by {
                                        assert(rest[j] == v@[r0 + j]);
                                    }
                                    lemma_first_index_none(rest, '}');
                                }
                            }
                            let mut k = r0;
                            while k < n && (is_alphanumeric(v[k]) || v[k] == '_')
                                invariant
                                    r0 <= k <= n == v@.len(),
                                    name_len(v@.subrange(r0 as int, n as int)) == (k - r0) + name_len(
                                        v@.subrange(k as int, n as int),
                                    ),
                                decreases n - k,
                            {
                                assert(v@.subrange(k as int, n as int).drop_first() =~= v@.subrange(
                                    k + 1,
                                    n as int,
                                ));
                                k = k + 1;
                            }
                            assert(name_len(rest) == k - r0);
                            let name = string_of_range(&v, r0, k);
                            assert(name@ =~= rest.subrange(0, k - r0));
                            let value = variable_value(name.as_str(), vars, env);
                            let vc = chars_of(value.as_str());
                            assert(vc@.subrange(0, vc@.len() as int) =~= vc@);
                            push_range(&mut out, &vc, 0, vc.len());
                            assert(rest.subrange(k - r0, rest.len() as int) =~= v@.subrange(
                                k as int,
                                n as int,
                            ));
                            i = k;
                        },
                    }
                },
            }
        }
        assert(v@.subrange(n as int, n as int) =~= Seq::<char>::empty());
        proof {
            lemma_first_index_none(Seq::<char>::empty(), '$');
        }
        assert(out@ + Seq::<char>::empty() =~= out@);
        string_of(&out)
    }
}

/// The completions among `names` for the name typed so far: the names that
/// start with it, ignoring case (compared in lower case), each written back
/// as `${NAME}` when the word was braced and `$NAME` otherwise.
pub open spec fn completions(names: Seq<Seq<char>>, typed: Seq<char>, braced: bool) -> Seq<Seq<char>>
    decreases names.len(),
{
    if names.len() == 0 {
        Seq::empty()
    } else {
        let prev = completions(names.drop_last(), typed, braced);
        let n = names.last();
        if has_prefix(lowercase(n), lowercase(typed)) {
            prev.push(
                if braced {
                    "${"@ + n + "}"@
                } else {
                    "$"@ + n
                },
            )
        } else {
            prev
        }
    }
}

/// The name typed in a word that starts with `$`: after `${` (without a
/// closing `}`), else after `$`.
pub open spec fn typed_name(w: Seq<char>) -> Seq<char> {
    if has_prefix(w, "${"@) {
        let r = w.subrange(2, w.len() as int);
        if r.len() > 0 && r.last() == '}' {
            r.drop_last()
        } else {
            r
        }
    } else {
        w.subrange(1, w.len() as int)
    }
}

/// The completion of the current word: `None` when there is no word, it
/// does not start with `$`, or nothing matches.
pub open spec fn completion_of(word: Option<Seq<char>>, names: Seq<Seq<char>>) -> Option<
    Seq<Seq<char>>,
> {
    match word {
        None => None,
        Some(w) => if !has_prefix(w, "$"@) {
            None
        } else {
            let m = completions(names, typed_name(w), has_prefix(w, "${"@));
            if m.len() == 0 {
                None
            } else {
                Some(m)
            }
        },
    }
}

/// The names of the shell's variables.
pub open spec fn var_names(vars: Seq<(Seq<char>, Seq<char>)>) -> Seq<Seq<char>> {
    vars.map_values(|p: (Seq<char>, Seq<char>)| p.0)
}

impl VariableCompleter {
    /// Completes the word under the cursor when it is a variable reference:
    /// the candidates are the process environment's names, then the shell's
    /// variables.
    pub fn complete(word: Option<&str>, env_names: &[String], vars: &[(String, String)]) -> (r:
        Option<Vec<String>>)
        ensures
            match completion_of(
                match word {
                    Some(w) => Some(w@),
                    None => None,
                },
                views(env_names@) + var_names(pairs_view(vars@)),
            ) {
                Some(m) => r is Some && views(r->0@) == m,
                None => r is None,
            },
    {
        let w = match word {
            Some(w) => w,
            None => {
                return None;
            },
        };
        if !str_starts_with(w, "$") {
            return None;
        }
        let braced = str_starts_with(w, "${");
        let v = chars_of(w);
        proof {
            reveal_strlit("${");
            reveal_strlit("$");
        }
        let typed: String = if braced {
            if v.len() >= 3 && v[v.len() - 1] == '}' {
                assert(v@.subrange(2, v@.len() as int).drop_last() =~= v@.subrange(
                    2,
                    v@.len() - 1,
                ));
                string_of_range(&v, 2, v.len() - 1)
            } else {
                string_of_range(&v, 2, v.len())
            }
        } else {
            string_of_range(&v, 1, v.len())
        };
        assert(typed@ == typed_name(w@));
        let typed_lower = to_lowercase(typed.as_str());
        let mut all: Vec<String> = crate::text::clone_strings(env_names);
        let mut k: usize = 0;
        let ghost base = views(all@);
        while k < vars.len()
            invariant
                k <= vars@.len(),
                base == views(env_names@),
                views(all@) == base + var_names(pairs_view(vars@)).subrange(0, k as int),
            decreases vars.len() - k,
        {
            let ghost before = views(all@);
            all.push(vars[k].0.clone());
            assert(views(all@) =~= before.push(vars@[k as int].0@));
            assert(var_names(pairs_view(vars@)).subrange(0, k + 1) =~= var_names(
                pairs_view(vars@),
            ).subrange(0, k as int).push(vars@[k as int].0@));
            k = k + 1;
        }
        assert(var_names(pairs_view(vars@)).subrange(0, vars@.len() as int) =~= var_names(
            pairs_view(vars@),
        ));
        let ghost names = views(all@);
        let mut matches: Vec<String> = Vec::new();
        let mut j: usize = 0;
        assert(names.subrange(0, 0) =~= Seq::<Seq<char>>::empty());
        assert(views(matches@) =~= Seq::<Seq<char>>::empty());
        while j < all.len()
            invariant
                j <= all@.len(),
                names == views(all@),
                typed_lower@ == lowercase(typed@),
                views(matches@) == completions(names.subrange(0, j as int), typed@, braced),
            decreases all.len() - j,
        {
            assert(names.subrange(0, j + 1).drop_last() =~= names.subrange(0, j as int));
            assert(names[j as int] == all@[j as int]@);
            let lower = to_lowercase(all[j].as_str());
            if str_starts_with(lower.as_str(), typed_lower.as_str()) {
                let ghost before = views(matches@);
                let m = if braced {
                    owned("${").concat(all[j].as_str()).concat("}")
                } else {
                    owned("$").concat(all[j].as_str())
                };
                matches.push(m);
                assert(views(matches@) =~= before.push(m@));
            }
            j = j + 1;
        }
        assert(names.subrange(0, names.len() as int) =~= names);
        if matches.len() == 0 {
            None
        } else {
            Some(matches)
        }
    }

    /// The variables offered for quick completion.
    pub fn get_common_variables() -> (r: Vec<String>)
        ensures
            views(r@) == seq![
                "HOME"@, "USER"@, "PATH"@, "PWD"@, "SHELL"@, "TERM"@, "LANG"@, "LC_ALL"@,
                "EDITOR"@, "VISUAL"@, "PAGER"@, "PS1"@, "PS2"@, "HOSTNAME"@, "HOSTTYPE"@,
                "OSTYPE"@, "MACHTYPE"@, "SHLVL"@, "LOGNAME"@,
            ],
    {
        let mut r: Vec<String> = Vec::new();
        r.push(owned("HOME"));
        r.push(owned("USER"));
        r.push(owned("PATH"));
        r.push(owned("PWD"));
        r.push(owned("SHELL"));
        r.push(owned("TERM"));
        r.push(owned("LANG"));
        r.push(owned("LC_ALL"));
        r.push(owned("EDITOR"));
        r.push(owned("VISUAL"));
        r.push(owned("PAGER"));
        r.push(owned("PS1"));
        r.push(owned("PS2"));
        r.push(owned("HOSTNAME"));
        r.push(owned("HOSTTYPE"));
        r.push(owned("OSTYPE"));
        r.push(owned("MACHTYPE"));
        r.push(owned("SHLVL"));
        r.push(owned("LOGNAME"));
        assert(views(r@) =~= seq![
            "HOME"@, "USER"@, "PATH"@, "PWD"@, "SHELL"@, "TERM"@, "LANG"@, "LC_ALL"@,
            "EDITOR"@, "VISUAL"@, "PAGER"@, "PS1"@, "PS2"@, "HOSTNAME"@, "HOSTTYPE"@,
            "OSTYPE"@, "MACHTYPE"@, "SHLVL"@, "LOGNAME"@,
        ]);
        r
    }
}

} // verus!
