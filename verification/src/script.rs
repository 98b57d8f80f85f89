//! Script state (positional parameters, shift) and the condition of an
//! `if`/`elif`/`while` line.
use vstd::prelude::*;
use crate::array::{join_spaced, spaced, ArrayValue};
use crate::text::{
    ascii_alnum, ascii_alpha, ascii_digit, ascii_lower_text, ascii_lowercase_chars, chars_eq,
    find_char_from, is_alnum, is_alpha, is_digit, nat_text, parse_unsigned, parse_unsigned_chars,
    push_char, str_eq, trim_str, trim_ws, u64_text, chars_of, clone_strings, owned, skip_prefixes, skip_suffixes, string_of_range, trim, trim_chars,
    views, without_prefixes, without_suffixes, TrimSet,
};

verus! {

/// The state a script runs with.
#[derive(Debug)]
pub struct ScriptState {
    /// The positional parameters `$1`, `$2`, ...
    pub positional: Vec<String>,
    /// The script's local variables.
    pub locals: Vec<(String, String)>,
    /// The functions the script defined, with their bodies.
    pub functions: Vec<(String, Vec<String>)>,
}

impl ScriptState {
    /// A state with `args` as the positional parameters, and no locals or
    /// functions.
    pub fn new(args: &[String]) -> (r: Self)
        ensures
            views(r.positional@) == views(args@),
            r.locals@.len() == 0,
            r.functions@.len() == 0,
    {
        ScriptState { positional: clone_strings(args), locals: Vec::new(), functions: Vec::new() }
    }

    /// Drops the first `n` positional parameters (all of them when there
    /// are fewer).
    pub fn shift(&mut self, n: usize)
        ensures
            final(self).positional@ == if n >= old(self).positional@.len() {
                Seq::<String>::empty()
            } else {
                old(self).positional@.subrange(n as int, old(self).positional@.len() as int)
            },
            final(self).locals@ == old(self).locals@,
            final(self).functions@ == old(self).functions@,
    {
        if n == 0 {
            assert(self.positional@.subrange(0, self.positional@.len() as int) =~= self.positional@);
            return;
        }
        if n >= self.positional.len() {
            self.positional = Vec::new();
            return;
        }
        let rest = self.positional.split_off(n);
        self.positional = rest;
    }

    /// Positional parameter `index` (counting from 0), if there is one.
    pub fn positional(&self, index: usize) -> (r: Option<&str>)
        ensures
            match r {
                Some(s) => index < self.positional@.len() && s@ == self.positional@[index as int]@,
                None => index >= self.positional@.len(),
            },
    {
        if index < self.positional.len() {
            Some(self.positional[index].as_str())
        } else {
            None
        }
    }
}

/// The condition of an `if`, `elif` or `while` line: the line without
/// leading repetitions of the keyword, trimmed, without trailing `; then`,
/// ` then` and `;` repetitions (in that order), trimmed again.
pub open spec fn condition_of(line: Seq<char>, keyword: Seq<char>) -> Seq<char> {
    let raw = trim(without_prefixes(line, keyword), TrimSet::Whitespace);
    trim(
        without_suffixes(
            without_suffixes(without_suffixes(raw, "; then"@), " then"@),
            ";"@,
        ),
        TrimSet::Whitespace,
    )
}

/// Extracts the condition of an `if`, `elif` or `while` line; an empty one
/// is an error.
pub fn extract_if_condition(line: &str, keyword: &str) -> (r: Result<String, String>)
    ensures
        condition_of(line@, keyword@).len() > 0 ==> r is Ok && r->Ok_0@ == condition_of(
            line@,
            keyword@,
        ),
        condition_of(line@, keyword@).len() == 0 ==> r is Err && r->Err_0@ == keyword@
            + " condition cannot be empty"@,
{
    let v = chars_of(line);
    let k = chars_of(keyword);
    assert(v@.subrange(0, v@.len() as int) =~= v@);
    let start = if k.len() > 0 {
        skip_prefixes(&v, 0, &k)
    } else {
        0
    };
    let raw = trim_chars(&v.as_slice()[start..v.len()], TrimSet::Whitespace);
    let a = chars_of("; then");
    let b = chars_of(" then");
    let c = chars_of(";");
    assert(raw@.subrange(0, raw@.len() as int) =~= raw@);
    let e1 = skip_suffixes(&raw, raw.len(), &a);
    let e2 = skip_suffixes(&raw, e1, &b);
    let e3 = skip_suffixes(&raw, e2, &c);
    let cond = trim_chars(&raw.as_slice()[0..e3], TrimSet::Whitespace);
    if cond.len() == 0 {
        return Err(owned(keyword).concat(" condition cannot be empty"));
    }
    Ok(crate::text::string_of(&cond))
}

/// The value of the first local variable named `name`.
pub open spec fn local_value(locals: Seq<(String, String)>, name: Seq<char>) -> Option<Seq<char>>
    decreases locals.len(),
{
    if locals.len() == 0 {
        None
    } else if locals[0].0@ == name {
        Some(locals[0].1@)
    } else {
        local_value(locals.drop_first(), name)
    }
}

/// The first shell variable whose name satisfies `same` against `name`.
pub open spec fn env_entry(env: Seq<(String, ArrayValue)>, name: Seq<char>, ignore_case: bool) -> Option<ArrayValue>
    decreases env.len(),
{
    if env.len() == 0 {
        None
    } else if (if ignore_case {
        ascii_lower_text(env[0].0@) == ascii_lower_text(name)
    } else {
        env[0].0@ == name
    }) {
        Some(env[0].1)
    } else {
        env_entry(env.drop_first(), name, ignore_case)
    }
}

/// The text of a string value.
pub open spec fn string_text(v: Option<ArrayValue>) -> Option<Seq<char>> {
    match v {
        Some(ArrayValue::String(s)) => Some(s@),
        _ => None,
    }
}

/// What a script variable reads: the local variable, else the shell
/// variable of that exact name when it holds a string, else the first shell
/// variable whose name matches ignoring ASCII case when it holds a string,
/// else nothing.
pub open spec fn script_var(locals: Seq<(String, String)>, env: Seq<(String, ArrayValue)>, name: Seq<char>) -> Seq<char> {
    match local_value(locals, name) {
        Some(v) => v,
        None => match string_text(env_entry(env, name, false)) {
            Some(v) => v,
            None => match string_text(env_entry(env, name, true)) {
                Some(v) => v,
                None => Seq::empty(),
            },
        },
    }
}

/// The first position from `i` on where `s` has `c`, or its end.
pub open spec fn char_or_end(s: Seq<char>, i: int, c: char) -> int
    decreases s.len() - i,
{
    if i >= s.len() {
        s.len() as int
    } else if s[i] == c {
        i
    } else {
        char_or_end(s, i + 1, c)
    }
}

/// The end of the run of characters from `i` on that are digits (when
/// `ident` is false) or identifier characters (letters, digits, `_`).
pub open spec fn run_end(s: Seq<char>, i: int, ident: bool) -> int
    decreases s.len() - i,
{
    if i >= s.len() {
        s.len() as int
    } else if (if ident {
        is_alnum(s[i]) || s[i] == '_'
    } else {
        is_digit(s[i])
    }) {
        run_end(s, i + 1, ident)
    } else {
        i
    }
}

/// The first position of `:-` in `s`, if any.
pub open spec fn default_mark(s: Seq<char>, i: int) -> Option<int>
    decreases s.len() - i,
{
    if i + 1 >= s.len() || i < 0 {
        None
    } else if s[i] == ':' && s[i + 1] == '-' {
        Some(i)
    } else {
        default_mark(s, i + 1)
    }
}

/// What `${name}` reads: with `name` of the form `var:-default`, the
/// variable `var` (trimmed), or the default when that is empty.
pub open spec fn braced_value(locals: Seq<(String, String)>, env: Seq<(String, ArrayValue)>, name: Seq<char>) -> Seq<char> {
    match default_mark(name, 0) {
        Some(k) => {
            let v = script_var(locals, env, trim_ws(name.subrange(0, k)));
            if v.len() == 0 {
                name.subrange(k + 2, name.len() as int)
            } else {
                v
            }
        },
        None => script_var(locals, env, name),
    }
}

/// The expansion of `s[i..]`: `${name}` and `${var:-default}`, `$#` (the
/// number of positional parameters), `$@` and `$*` (all of them, joined by
/// spaces), `$N` (the N-th one, nothing when there is none), `$name`; any
/// other `$` stays as it is.
pub open spec fn expand_from(
    s: Seq<char>,
    i: int,
    pos: Seq<Seq<char>>,
    locals: Seq<(String, String)>,
    env: Seq<(String, ArrayValue)>,
) -> Seq<char>
    decreases s.len() - i,
{
    if i < 0 || i >= s.len() {
        Seq::empty()
    } else if s[i] != '$' {
        seq![s[i]] + expand_from(s, i + 1, pos, locals, env)
    } else if i + 1 >= s.len() {
        seq!['$']
    } else {
        let n = s[i + 1];
        if n == '{' {
            let close = char_or_end(s, i + 2, '}');
            let name = s.subrange(i + 2, close);
            let next = if close < s.len() {
                close + 1
            } else {
                s.len() as int
            };
            proof {
                lemma_char_or_end(s, i + 2, '}');
            }
            braced_value(locals, env, name) + expand_from(s, next, pos, locals, env)
        } else if n == '#' {
            nat_text(pos.len()) + expand_from(s, i + 2, pos, locals, env)
        } else if n == '@' || n == '*' {
            spaced(pos) + expand_from(s, i + 2, pos, locals, env)
        } else if is_digit(n) {
            let e = run_end(s, i + 1, false);
            proof {
                lemma_run_end(s, i + 1, false);
            }
            let idx = match parse_unsigned(s.subrange(i + 1, e), usize::MAX as int) {
                Some(x) => x,
                None => 0,
            };
            (if idx > 0 && idx - 1 < pos.len() {
                pos[idx - 1]
            } else {
                Seq::empty()
            }) + expand_from(s, e, pos, locals, env)
        } else if is_alpha(n) || n == '_' {
            let e = run_end(s, i + 1, true);
            proof {
                lemma_run_end(s, i + 1, true);
            }
            script_var(locals, env, s.subrange(i + 1, e)) + expand_from(s, e, pos, locals, env)
        } else {
            seq!['$'] + expand_from(s, i + 1, pos, locals, env)
        }
    }
}

pub proof fn lemma_char_or_end(s: Seq<char>, i: int, c: char)
    requires
        0 <= i,
    ensures
        i <= char_or_end(s, i, c) <= s.len() || (i > s.len() && char_or_end(s, i, c) == s.len()),
        char_or_end(s, i, c) < s.len() ==> s[char_or_end(s, i, c)] == c,
        forall|j: int| i <= j < char_or_end(s, i, c) ==> s[j] != c,
    decreases s.len() - i,
{
    if i < s.len() && s[i] != c {
        lemma_char_or_end(s, i + 1, c);
    }
}

pub proof fn lemma_run_end(s: Seq<char>, i: int, ident: bool)
    requires
        0 <= i <= s.len(),
    ensures
        i <= run_end(s, i, ident) <= s.len(),
    decreases s.len() - i,
{
    if i < s.len() {
        let ok = if ident {
            is_alnum(s[i]) || s[i] == '_'
        } else {
            is_digit(s[i])
        };
        if ok {
            lemma_run_end(s, i + 1, ident);
        }
    }
}

proof fn lemma_char_or_end_at(s: Seq<char>, i: int, c: char, j: int)
    requires
        0 <= i <= j < s.len(),
        s[j] == c,
        forall|m: int| i <= m < j ==> s[m] != c,
    ensures
        char_or_end(s, i, c) == j,
    decreases j - i,
{
    if i < j {
        lemma_char_or_end_at(s, i + 1, c, j);
    }
}

proof fn lemma_default_mark_at(s: Seq<char>, i: int, k: int)
    requires
        0 <= i <= k,
        k + 1 < s.len(),
        s[k] == ':' && s[k + 1] == '-',
        forall|m: int| i <= m < k ==> s[m] != ':',
    ensures
        default_mark(s, i) == Some(k),
    decreases k - i,
{
    if i < k {
        lemma_default_mark_at(s, i + 1, k);
    }
}

/// Law: `${var:-default}` gives the value of the variable `var` (trimmed)
/// whenever that value is non-empty, and the default only when it is
/// empty.
pub proof fn law_default_only_when_unset(
    var: Seq<char>,
    default: Seq<char>,
    pos: Seq<Seq<char>>,
    locals: Seq<(String, String)>,
    env: Seq<(String, ArrayValue)>,
)
    requires
        forall|j: int| 0 <= j < var.len() ==> #[trigger] var[j] != '}' && var[j] != ':',
        forall|j: int| 0 <= j < default.len() ==> #[trigger] default[j] != '}',
    ensures
        ({
            let v = script_var(locals, env, trim_ws(var));
            expand_from(seq!['$', '{'] + var + seq![':', '-'] + default + seq!['}'], 0, pos, locals, env)
                == if v.len() > 0 {
                v
            } else {
                default
            }
        }),
{
    let s = seq!['$', '{'] + var + seq![':', '-'] + default + seq!['}'];
    let n = var.len() as int;
    let close = s.len() - 1;
    assert(s[0] == '$' && s[1] == '{');
    assert(s[close] == '}');
    assert forall|m: int| 2 <= m < close implies s[m] != '}' by {
        if m < n + 2 {
            assert(s[m] == var[m - 2]);
        } else if m >= n + 4 {
            assert(s[m] == default[m - n - 4]);
        }
    }
    lemma_char_or_end_at(s, 2, '}', close);
    let name = s.subrange(2, close);
    assert(name =~= var + seq![':', '-'] + default);
    assert(name[n] == ':' && name[n + 1] == '-');
    assert forall|m: int| 0 <= m < n implies name[m] != ':' by {
        assert(name[m] == var[m]);
    }
    lemma_default_mark_at(name, 0, n);
    assert(name.subrange(0, n) =~= var);
    assert(name.subrange(n + 2, name.len() as int) =~= default);
    assert(expand_from(s, s.len() as int, pos, locals, env) =~= Seq::<char>::empty());
    let v = script_var(locals, env, trim_ws(var));
    let b = braced_value(locals, env, name);
    assert(b == if v.len() > 0 { v } else { default });
    assert(expand_from(s, 0, pos, locals, env) == b + expand_from(s, s.len() as int, pos, locals, env));
    assert(b + Seq::<char>::empty() =~= b);
}

proof fn lemma_run_end_all(s: Seq<char>, i: int, ident: bool)
    requires
        0 <= i <= s.len(),
        forall|m: int|
            i <= m < s.len() ==> (if ident {
                is_alnum(#[trigger] s[m]) || s[m] == '_'
            } else {
                is_digit(s[m])
            }),
    ensures
        run_end(s, i, ident) == s.len(),
    decreases s.len() - i,
{
    if i < s.len() {
        lemma_run_end_all(s, i + 1, ident);
    }
}

/// Law: the special references read the positional parameters: `$#` their
/// number, `$@` and `$*` all of them joined by spaces, and `$N` for a digit
/// `N` from 1 the N-th one, or nothing when there are fewer.
pub proof fn law_positional_references(
    d: char,
    pos: Seq<Seq<char>>,
    locals: Seq<(String, String)>,
    env: Seq<(String, ArrayValue)>,
)
    requires
        '1' <= d <= '9',
    ensures
        expand_from(seq!['$', '#'], 0, pos, locals, env) == nat_text(pos.len()),
        expand_from(seq!['$', '@'], 0, pos, locals, env) == spaced(pos),
        expand_from(seq!['$', '*'], 0, pos, locals, env) == spaced(pos),
        expand_from(seq!['$', d], 0, pos, locals, env) == if d as int - 48 <= pos.len() {
            pos[d as int - 49]
        } else {
            Seq::<char>::empty()
        },
{
    assert(expand_from(seq!['$', '#'], 2, pos, locals, env) =~= Seq::<char>::empty());
    assert(expand_from(seq!['$', '@'], 2, pos, locals, env) =~= Seq::<char>::empty());
    assert(expand_from(seq!['$', '*'], 2, pos, locals, env) =~= Seq::<char>::empty());
    assert(expand_from(seq!['$', d], 2, pos, locals, env) =~= Seq::<char>::empty());
    assert(nat_text(pos.len()) + Seq::<char>::empty() =~= nat_text(pos.len()));
    assert(spaced(pos) + Seq::<char>::empty() =~= spaced(pos));
    let s = seq!['$', d];
    assert(is_digit(d));
    lemma_run_end_all(s, 1, false);
    assert(s.subrange(1, 2) =~= seq![d]);
    assert(seq![d].drop_last() =~= Seq::<char>::empty());
    assert(crate::text::all_digits(seq![d]));
    assert(crate::text::digits_value(Seq::<char>::empty()) == 0);
    assert(seq![d].last() == d);
    assert(crate::text::digits_value(seq![d]) == d as int - 48);
    let v: Seq<char> = if d as int - 48 <= pos.len() {
        pos[d as int - 49]
    } else {
        Seq::<char>::empty()
    };
    assert(v + Seq::<char>::empty() =~= v);
}

/// Law: `$name`, for a name of letters, digits and `_` that does not start
/// with a digit, reads the variable `name`.
pub proof fn law_named_reference(
    name: Seq<char>,
    pos: Seq<Seq<char>>,
    locals: Seq<(String, String)>,
    env: Seq<(String, ArrayValue)>,
)
    requires
        name.len() > 0,
        is_alpha(name[0]) || name[0] == '_',
        forall|m: int| 0 <= m < name.len() ==> is_alnum(#[trigger] name[m]) || name[m] == '_',
    ensures
        expand_from(seq!['$'] + name, 0, pos, locals, env) == script_var(locals, env, name),
{
    let s = seq!['$'] + name;
    assert(s[1] == name[0]);
    assert forall|m: int| 1 <= m < s.len() implies is_alnum(#[trigger] s[m]) || s[m] == '_' by {
        assert(s[m] == name[m - 1]);
    }
    lemma_run_end_all(s, 1, true);
    assert(s.subrange(1, s.len() as int) =~= name);
    assert(expand_from(s, s.len() as int, pos, locals, env) =~= Seq::<char>::empty());
    let v = script_var(locals, env, name);
    assert(v + Seq::<char>::empty() =~= v);
}

/// Law: `${name}` without a default reads the variable `name` as written.
pub proof fn law_braced_reference(
    name: Seq<char>,
    pos: Seq<Seq<char>>,
    locals: Seq<(String, String)>,
    env: Seq<(String, ArrayValue)>,
)
    requires
        forall|j: int| 0 <= j < name.len() ==> #[trigger] name[j] != '}' && name[j] != ':',
    ensures
        expand_from(seq!['$', '{'] + name + seq!['}'], 0, pos, locals, env) == script_var(locals, env, name),
{
    let s = seq!['$', '{'] + name + seq!['}'];
    let close = s.len() - 1;
    assert(s[0] == '$' && s[1] == '{');
    assert(s[close] == '}');
    assert forall|m: int| 2 <= m < close implies s[m] != '}' by {
        assert(s[m] == name[m - 2]);
    }
    lemma_char_or_end_at(s, 2, '}', close);
    assert(s.subrange(2, close) =~= name);
    assert(default_mark(name, 0) is None) by {
        lemma_default_mark_none(name, 0);
    }
    assert(expand_from(s, s.len() as int, pos, locals, env) =~= Seq::<char>::empty());
    let v = script_var(locals, env, name);
    assert(v + Seq::<char>::empty() =~= v);
}

proof fn lemma_default_mark_none(s: Seq<char>, i: int)
    requires
        0 <= i,
        forall|j: int| 0 <= j < s.len() ==> #[trigger] s[j] != ':',
    ensures
        default_mark(s, i) is None,
    decreases s.len() - i,
{
    if i + 1 < s.len() {
        lemma_default_mark_none(s, i + 1);
    }
}

/// Reads a script variable: the local of that name, else the shell
/// variable `env` holds under that exact name, else under a name equal to it
/// ignoring ASCII case (the first such in `env`), when those hold strings.
pub fn resolve_script_var(name: &str, state: &ScriptState, env: &[(String, ArrayValue)]) -> (r: String)
    ensures
        r@ == script_var(state.locals@, env@, name@),
{
    assert(state.locals@.subrange(0, state.locals@.len() as int) =~= state.locals@);
    let mut i: usize = 0;
    while i < state.locals.len()
        invariant
            i <= state.locals@.len(),
            local_value(state.locals@, name@) == local_value(
                state.locals@.subrange(i as int, state.locals@.len() as int),
                name@,
            ),
        decreases state.locals.len() - i,
    {
        let ghost rest = state.locals@.subrange(i as int, state.locals@.len() as int);
        assert(rest.drop_first() =~= state.locals@.subrange(i + 1, state.locals@.len() as int));
        if str_eq(state.locals[i].0.as_str(), name) {
            return owned(state.locals[i].1.as_str());
        }
        i += 1;
    }
    match entry_index(env, name, false) {
        Some(k) => {
            if let Some(s) = env[k].1.as_string() {
                return owned(s);
            }
        },
        None => {},
    }
    match entry_index(env, name, true) {
        Some(k) => {
            match env[k].1.as_string() {
                Some(s) => owned(s),
                None => String::new(),
            }
        },
        None => String::new(),
    }
}

pub(crate) fn entry_index(env: &[(String, ArrayValue)], name: &str, ignore_case: bool) -> (r: Option<usize>)
    ensures
        match r {
            Some(k) => k < env@.len() && env_entry(env@, name@, ignore_case) == Some(env@[k as int].1),
            None => env_entry(env@, name@, ignore_case) is None,
        },
{
    let lower = ascii_lowercase_chars(name);
    assert(env@.subrange(0, env@.len() as int) =~= env@);
    let mut j: usize = 0;
    while j < env.len()
        invariant
            j <= env@.len(),
            lower@ == ascii_lower_text(name@),
            env_entry(env@, name@, ignore_case) == env_entry(
                env@.subrange(j as int, env@.len() as int),
                name@,
                ignore_case,
            ),
        decreases env.len() - j,
    {
        let ghost rest = env@.subrange(j as int, env@.len() as int);
        assert(rest.drop_first() =~= env@.subrange(j + 1, env@.len() as int));
        let hit = if ignore_case {
            let key = ascii_lowercase_chars(env[j].0.as_str());
            chars_eq(&key, &lower)
        } else {
            str_eq(env[j].0.as_str(), name)
        };
        if hit {
            return Some(j);
        }
        j += 1;
    }
    None
}

fn char_or_end_at(v: &[char], i: usize, c: char) -> (r: usize)
    requires
        i <= v@.len(),
    ensures
        r == char_or_end(v@, i as int, c),
        i <= r <= v@.len(),
{
    proof {
        lemma_char_or_end(v@, i as int, c);
    }
    let ghost e = char_or_end(v@, i as int, c);
    match find_char_from(v, c, i) {
        Some(k) => {
            proof {
                if e < k {
                    assert(v@[e] == c);
                }
                if e > k {
                    assert(v@[k as int] != c);
                }
            }
            k
        },
        None => {
            proof {
                if e < v@.len() {
                    assert(v@[e] == c);
                }
            }
            v.len()
        },
    }
}

fn run_end_at(v: &[char], i: usize, ident: bool) -> (r: usize)
    requires
        i <= v@.len(),
    ensures
        r == run_end(v@, i as int, ident),
        i <= r <= v@.len(),
{
    let mut j = i;
    while j < v.len()
        invariant
            i <= j <= v@.len(),
            run_end(v@, i as int, ident) == run_end(v@, j as int, ident),
        decreases v.len() - j,
    {
        let c = v[j];
        let ok = if ident {
            ascii_alnum(c) || c == '_'
        } else {
            ascii_digit(c)
        };
        if !ok {
            return j;
        }
        j += 1;
    }
    j
}

fn braced(name: &str, state: &ScriptState, env: &[(String, ArrayValue)]) -> (r: String)
    ensures
        r@ == braced_value(state.locals@, env@, name@),
{
    let v = chars_of(name);
    let mut k: usize = 0;
    while k < v.len() && k + 1 < v.len()
        invariant
            v@ == name@,
            k <= v@.len(),
            default_mark(v@, 0) == default_mark(v@, k as int),
        decreases v.len() - k,
    {
        if v[k] == ':' && v[k + 1] == '-' {
            let var = string_of_range(&v, 0, k);
            let var_name = trim_str(var.as_str());
            let value = resolve_script_var(var_name.as_str(), state, env);
            if value.as_str().unicode_len() == 0 {
                return string_of_range(&v, k + 2, v.len());
            }
            return value;
        }
        k += 1;
    }
    resolve_script_var(name, state, env)
}

/// Expands the script variables in `input`: `${name}` and
/// `${var:-default}`, `$#`, `$@` and `$*`, `$N` and `$name`. Locals come
/// first, then the shell variables `env`.
#[verifier::spinoff_prover]
#[verifier::rlimit(40)]
pub fn expand_script_vars(input: &str, state: &ScriptState, env: &[(String, ArrayValue)]) -> (r: String)
    ensures
        r@ == expand_from(input@, 0, views(state.positional@), state.locals@, env@),
{
    let ghost pos = views(state.positional@);
    let ghost locals = state.locals@;
    let ghost ev = env@;
    let v = chars_of(input);
    let mut out = String::new();
    let mut i: usize = 0;
    while i < v.len()
        invariant
            i <= v@.len(),
            v@ == input@,
            pos == views(state.positional@),
            locals == state.locals@,
            ev == env@,
            out@ + expand_from(v@, i as int, pos, locals, ev) == expand_from(v@, 0, pos, locals, ev),
        decreases v.len() - i,
    {
        let ghost before = out@;
        let ch = v[i];
        if ch != '$' {
            push_char(&mut out, ch);
            assert(out@ + expand_from(v@, i + 1, pos, locals, ev) =~= before + expand_from(v@, i as int, pos, locals, ev));
            i += 1;
            continue;
        }
        if i + 1 >= v.len() {
            push_char(&mut out, '$');
            assert(out@ + expand_from(v@, v@.len() as int, pos, locals, ev) =~= before + expand_from(v@, i as int, pos, locals, ev));
            i = v.len();
            continue;
        }
        let n = v[i + 1];
        if n == '{' {
            let close = char_or_end_at(&v, i + 2, '}');
            let name = string_of_range(&v, i + 2, close);
            let value = braced(name.as_str(), state, env);
            out = out.concat(value.as_str());
            let next = if close < v.len() { close + 1 } else { v.len() };
            assert(out@ + expand_from(v@, next as int, pos, locals, ev) =~= before + expand_from(v@, i as int, pos, locals, ev));
            i = next;
        } else if n == '#' {
            let count = u64_text(state.positional.len() as u64);
            out = out.concat(count.as_str());
            assert(out@ + expand_from(v@, i + 2, pos, locals, ev) =~= before + expand_from(v@, i as int, pos, locals, ev));
            i = i + 2;
        } else if n == '@' || n == '*' {
            let all = join_spaced(state.positional.as_slice());
            out = out.concat(all.as_str());
            assert(out@ + expand_from(v@, i + 2, pos, locals, ev) =~= before + expand_from(v@, i as int, pos, locals, ev));
            i = i + 2;
        } else if ascii_digit(n) {
            let e = run_end_at(&v, i + 1, false);
            let idx: usize = match parse_unsigned_chars(&v, i + 1, e, usize::MAX as u64) {
                Some(x) => x as usize,
                None => 0,
            };
            if idx > 0 {
                match state.positional(idx - 1) {
                    Some(p) => {
                        out = out.concat(p);
                    },
                    None => {},
                }
            }
            assert(out@ + expand_from(v@, e as int, pos, locals, ev) =~= before + expand_from(v@, i as int, pos, locals, ev));
            i = e;
        } else if ascii_alpha(n) || n == '_' {
            let e = run_end_at(&v, i + 1, true);
            let name = string_of_range(&v, i + 1, e);
            let value = resolve_script_var(name.as_str(), state, env);
            out = out.concat(value.as_str());
            assert(out@ + expand_from(v@, e as int, pos, locals, ev) =~= before + expand_from(v@, i as int, pos, locals, ev));
            i = e;
        } else {
            push_char(&mut out, '$');
            assert(out@ + expand_from(v@, i + 1, pos, locals, ev) =~= before + expand_from(v@, i as int, pos, locals, ev));
            i = i + 1;
        }
    }
    assert(out@ + Seq::<char>::empty() =~= out@);
    out
}

/// The value stored under the first key `name` of `s`.
pub open spec fn lookup<V>(s: Seq<(String, V)>, name: Seq<char>) -> Option<V>
    decreases s.len(),
{
    if s.len() == 0 {
        None
    } else if s[0].0@ == name {
        Some(s[0].1)
    } else {
        lookup(s.drop_first(), name)
    }
}

/// The index of the first key `name` of `s`.
pub open spec fn first_key<V>(s: Seq<(String, V)>, name: Seq<char>) -> Option<int>
    decreases s.len(),
{
    if s.len() == 0 {
        None
    } else if s[0].0@ == name {
        Some(0)
    } else {
        match first_key(s.drop_first(), name) {
            Some(k) => Some(k + 1),
            None => None,
        }
    }
}

pub proof fn lemma_first_key<V>(s: Seq<(String, V)>, name: Seq<char>)
    ensures
        match first_key(s, name) {
            Some(k) => 0 <= k < s.len() && s[k].0@ == name && lookup(s, name) == Some(s[k].1)
                && forall|j: int| 0 <= j < k ==> s[j].0@ != name,
            None => lookup(s, name) is None && forall|j: int| 0 <= j < s.len() ==> s[j].0@ != name,
        },
    decreases s.len(),
{
    if s.len() > 0 && s[0].0@ != name {
        lemma_first_key(s.drop_first(), name);
        assert forall|j: int| 1 <= j < s.len() implies s[j] == s.drop_first()[j - 1] by {}
    }
}

/// Replacing the entry at the first key `name` changes what `name` reads
/// and nothing else.
pub proof fn lemma_lookup_update<V>(s: Seq<(String, V)>, name: Seq<char>, i: int, p: (String, V), n: Seq<char>)
    requires
        first_key(s, name) == Some(i),
        p.0@ == name,
    ensures
        lookup(s.update(i, p), n) == (if n == name {
            Some(p.1)
        } else {
            lookup(s, n)
        }),
    decreases s.len(),
{
    lemma_first_key(s, name);
    if i > 0 {
        assert(s.update(i, p).drop_first() =~= s.drop_first().update(i - 1, p));
        lemma_lookup_update(s.drop_first(), name, i - 1, p, n);
    } else {
        assert(s.update(i, p).drop_first() =~= s.drop_first());
    }
}

/// Appending an entry for a key that `s` lacks.
pub proof fn lemma_lookup_push<V>(s: Seq<(String, V)>, p: (String, V), n: Seq<char>)
    requires
        first_key(s, p.0@) is None,
    ensures
        lookup(s.push(p), n) == (if n == p.0@ {
            Some(p.1)
        } else {
            lookup(s, n)
        }),
    decreases s.len(),
{
    lemma_first_key(s, p.0@);
    let t = s.push(p);
    if s.len() == 0 {
        assert(t.drop_first() =~= Seq::<(String, V)>::empty());
        assert(t[0] == p);
        assert(lookup(t.drop_first(), n) is None);
    } else {
        assert(t[0] == s[0]);
        assert(t.drop_first() =~= s.drop_first().push(p));
        assert(s[0].0@ != p.0@);
        assert(first_key(s.drop_first(), p.0@) is None) by {
            lemma_first_key(s.drop_first(), p.0@);
            if first_key(s.drop_first(), p.0@) is Some {
                let k = first_key(s.drop_first(), p.0@)->0;
                assert(s[k + 1] == s.drop_first()[k]);
            }
        }
        lemma_lookup_push(s.drop_first(), p, n);
        if s[0].0@ == n {
            assert(lookup(t, n) == Some(s[0].1));
        } else {
            assert(lookup(t, n) == lookup(t.drop_first(), n));
            assert(lookup(s, n) == lookup(s.drop_first(), n));
        }
    }
}

/// Removing the entry at the first key `name` leaves every other key
/// reading as before.
pub proof fn lemma_lookup_remove<V>(s: Seq<(String, V)>, name: Seq<char>, i: int, n: Seq<char>)
    requires
        first_key(s, name) == Some(i),
        n != name,
    ensures
        lookup(s.remove(i), n) == lookup(s, n),
    decreases s.len(),
{
    lemma_first_key(s, name);
    if i > 0 {
        assert(s.remove(i).drop_first() =~= s.drop_first().remove(i - 1));
        lemma_lookup_remove(s.drop_first(), name, i - 1, n);
    } else {
        assert(s.remove(i) =~= s.drop_first());
    }
}

/// No key occurs twice, as in a map.
pub open spec fn keys_unique<V>(s: Seq<(String, V)>) -> bool {
    forall|i: int, j: int| 0 <= i < j < s.len() ==> #[trigger] s[i].0@ != #[trigger] s[j].0@
}

/// Replacing the entry at the first key `name` by one with the same key
/// keeps the keys unique.
pub proof fn lemma_keys_unique_update<V>(s: Seq<(String, V)>, name: Seq<char>, k: int, p: (String, V))
    requires
        keys_unique(s),
        first_key(s, name) == Some(k),
        p.0@ == name,
    ensures
        keys_unique(s.update(k, p)),
{
    lemma_first_key(s, name);
    let t = s.update(k, p);
    assert forall|i: int, j: int| 0 <= i < j < t.len() implies #[trigger] t[i].0@ != #[trigger] t[j].0@ by {
        assert(t[i].0@ == s[i].0@);
        assert(t[j].0@ == s[j].0@);
    }
}

/// Appending an entry for a key that `s` lacks keeps the keys unique.
pub proof fn lemma_keys_unique_push<V>(s: Seq<(String, V)>, p: (String, V))
    requires
        keys_unique(s),
        first_key(s, p.0@) is None,
    ensures
        keys_unique(s.push(p)),
{
    lemma_first_key(s, p.0@);
    let t = s.push(p);
    assert forall|i: int, j: int| 0 <= i < j < t.len() implies #[trigger] t[i].0@ != #[trigger] t[j].0@ by {
        assert(t[i] == s[i]);
        if j < s.len() {
            assert(t[j] == s[j]);
        }
    }
}

/// Removing an entry keeps the keys unique.
pub proof fn lemma_keys_unique_remove<V>(s: Seq<(String, V)>, k: int)
    requires
        keys_unique(s),
        0 <= k < s.len(),
    ensures
        keys_unique(s.remove(k)),
{
    let t = s.remove(k);
    assert forall|i: int, j: int| 0 <= i < j < t.len() implies #[trigger] t[i].0@ != #[trigger] t[j].0@ by {
        let i2 = if i < k { i } else { i + 1 };
        let j2 = if j < k { j } else { j + 1 };
        assert(t[i] == s[i2]);
        assert(t[j] == s[j2]);
    }
}

/// Sets the shell variable `name` to the text `value`: the entry of that
/// name is replaced, or one is added at the end.
pub fn set_string_variable(env: &mut Vec<(String, ArrayValue)>, name: &str, value: &str)
    ensures
        lookup(final(env)@, name@) matches Some(ArrayValue::String(s)) && s@ == value@,
        forall|n: Seq<char>| n != name@ ==> lookup(final(env)@, n) == lookup(old(env)@, n),
        keys_unique(old(env)@) ==> keys_unique(final(env)@),
{
    let ghost old_env = env@;
    let ghost key = name@;
    let entry = (owned(name), ArrayValue::String(owned(value)));
    match key_index(env, name) {
        Some(k) => {
            proof {
                lemma_first_key(old_env, key);
            }
            env.set(k, entry);
            proof {
                assert forall|n: Seq<char>| n != key implies lookup(env@, n) == lookup(old_env, n) by {
                    lemma_lookup_update(old_env, key, k as int, env@[k as int], n);
                }
                lemma_lookup_update(old_env, key, k as int, env@[k as int], key);
                if keys_unique(old_env) {
                    lemma_keys_unique_update(old_env, key, k as int, env@[k as int]);
                }
            }
        },
        None => {
            env.push(entry);
            proof {
                assert(old_env.push(env@.last()) =~= env@);
                assert forall|n: Seq<char>| n != key implies lookup(env@, n) == lookup(old_env, n) by {
                    lemma_lookup_push(old_env, env@.last(), n);
                }
                lemma_lookup_push(old_env, env@.last(), key);
                if keys_unique(old_env) {
                    lemma_keys_unique_push(old_env, env@.last());
                }
            }
        },
    }
}

pub proof fn lemma_local_value(s: Seq<(String, String)>, name: Seq<char>)
    ensures
        local_value(s, name) == crate::text::opt_view(lookup(s, name)),
    decreases s.len(),
{
    if s.len() > 0 && s[0].0@ != name {
        lemma_local_value(s.drop_first(), name);
    }
}

/// The body of the function named `name`, as text lines.
pub open spec fn function_body(fs: Seq<(String, Vec<String>)>, name: Seq<char>) -> Option<Seq<Seq<char>>> {
    match lookup(fs, name) {
        Some(b) => Some(views(b@)),
        None => None,
    }
}

pub(crate) fn key_index<V>(s: &Vec<(String, V)>, name: &str) -> (r: Option<usize>)
    ensures
        match r {
            Some(k) => first_key(s@, name@) == Some(k as int),
            None => first_key(s@, name@) is None,
        },
{
    proof {
        lemma_first_key(s@, name@);
    }
    let mut i: usize = 0;
    while i < s.len()
        invariant
            i <= s@.len(),
            forall|j: int| 0 <= j < i ==> s@[j].0@ != name@,
        decreases s.len() - i,
    {
        if str_eq(s[i].0.as_str(), name) {
            proof {
                lemma_first_key(s@, name@);
                match first_key(s@, name@) {
                    Some(k) => {
                        if k < i {
                            assert(s@[k].0@ != name@);
                        }
                        if k > i {
                            assert(s@[i as int].0@ != name@);
                        }
                    },
                    None => {
                        assert(s@[i as int].0@ != name@);
                    },
                }
            }
            return Some(i);
        }
        i += 1;
    }
    proof {
        lemma_first_key(s@, name@);
        if first_key(s@, name@) is Some {
            let k = first_key(s@, name@)->0;
            assert(s@[k].0@ != name@);
        }
    }
    None
}

impl ScriptState {
    /// Sets the local variable `name` to `value`.
    pub fn set_local(&mut self, name: String, value: String)
        ensures
            local_value(final(self).locals@, name@) == Some(value@),
            forall|n: Seq<char>| n != name@ ==> local_value(final(self).locals@, n) == local_value(
                old(self).locals@,
                n,
            ),
            final(self).positional@ == old(self).positional@,
            final(self).functions@ == old(self).functions@,
            keys_unique(old(self).locals@) ==> keys_unique(final(self).locals@),
    {
        let ghost old_locals = self.locals@;
        let ghost key = name@;
        let ghost val = value;
        match key_index(&self.locals, name.as_str()) {
            Some(k) => {
                proof {
                    lemma_first_key(old_locals, key);
                }
                self.locals.set(k, (name, value));
                proof {
                    assert forall|n: Seq<char>| true implies local_value(self.locals@, n) == (if n == key {
                        Some(val@)
                    } else {
                        local_value(old_locals, n)
                    }) by {
                        lemma_lookup_update(old_locals, key, k as int, self.locals@[k as int], n);
                        lemma_local_value(self.locals@, n);
                        lemma_local_value(old_locals, n);
                    }
                    if keys_unique(old_locals) {
                        lemma_keys_unique_update(old_locals, key, k as int, self.locals@[k as int]);
                    }
                }
            },
            None => {
                self.locals.push((name, value));
                proof {
                    assert forall|n: Seq<char>| true implies local_value(self.locals@, n) == (if n == key {
                        Some(val@)
                    } else {
                        local_value(old_locals, n)
                    }) by {
                        lemma_lookup_push(old_locals, self.locals@.last(), n);
                        assert(old_locals.push(self.locals@.last()) =~= self.locals@);
                        lemma_local_value(self.locals@, n);
                        lemma_local_value(old_locals, n);
                    }
                    assert(old_locals.push(self.locals@.last()) =~= self.locals@);
                    if keys_unique(old_locals) {
                        lemma_keys_unique_push(old_locals, self.locals@.last());
                    }
                }
            },
        }
        assert(local_value(self.locals@, key) == Some(val@));
    }

    /// Defines (or redefines) the function `name` with the body `body`.
    pub fn define_function(&mut self, name: String, body: Vec<String>)
        ensures
            function_body(final(self).functions@, name@) == Some(views(body@)),
            forall|n: Seq<char>| n != name@ ==> function_body(final(self).functions@, n) == function_body(
                old(self).functions@,
                n,
            ),
            final(self).positional@ == old(self).positional@,
            final(self).locals@ == old(self).locals@,
            keys_unique(old(self).functions@) ==> keys_unique(final(self).functions@),
    {
        let ghost old_fs = self.functions@;
        let ghost key = name@;
        let ghost b = body@;
        match key_index(&self.functions, name.as_str()) {
            Some(k) => {
                proof {
                    lemma_first_key(old_fs, key);
                }
                self.functions.set(k, (name, body));
                proof {
                    assert forall|n: Seq<char>| n != key implies function_body(self.functions@, n)
                        == function_body(old_fs, n) by {
                        lemma_lookup_update(old_fs, key, k as int, self.functions@[k as int], n);
                    }
                    lemma_lookup_update(old_fs, key, k as int, self.functions@[k as int], key);
                    if keys_unique(old_fs) {
                        lemma_keys_unique_update(old_fs, key, k as int, self.functions@[k as int]);
                    }
                }
            },
            None => {
                self.functions.push((name, body));
                proof {
                    assert(old_fs.push(self.functions@.last()) =~= self.functions@);
                    assert forall|n: Seq<char>| n != key implies function_body(self.functions@, n)
                        == function_body(old_fs, n) by {
                        lemma_lookup_push(old_fs, self.functions@.last(), n);
                    }
                    lemma_lookup_push(old_fs, self.functions@.last(), key);
                    if keys_unique(old_fs) {
                        lemma_keys_unique_push(old_fs, self.functions@.last());
                    }
                }
            },
        }
    }

    /// Forgets the function `name`.
    pub fn remove_function(&mut self, name: &str)
        ensures
            function_body(final(self).functions@, name@) is None,
            forall|n: Seq<char>| n != name@ ==> function_body(final(self).functions@, n) == function_body(
                old(self).functions@,
                n,
            ),
            final(self).positional@ == old(self).positional@,
            final(self).locals@ == old(self).locals@,
            keys_unique(old(self).functions@) ==> keys_unique(final(self).functions@),
    {
        loop
            invariant
                keys_unique(old(self).functions@) ==> keys_unique(self.functions@),
                forall|n: Seq<char>| n != name@ ==> function_body(self.functions@, n) == function_body(
                    old(self).functions@,
                    n,
                ),
                self.positional@ == old(self).positional@,
                self.locals@ == old(self).locals@,
            decreases self.functions@.len(),
        {
            match key_index(&self.functions, name) {
                Some(k) => {
                    let ghost before = self.functions@;
                    proof {
                        lemma_first_key(before, name@);
                    }
                    self.functions.remove(k);
                    proof {
                        assert forall|n: Seq<char>| n != name@ implies function_body(self.functions@, n)
                            == function_body(before, n) by {
                            lemma_lookup_remove(before, name@, k as int, n);
                        }
                        if keys_unique(before) {
                            lemma_keys_unique_remove(before, k as int);
                        }
                    }
                },
                None => {
                    proof {
                        lemma_first_key(self.functions@, name@);
                    }
                    return;
                },
            }
        }
    }

    /// A copy of the body of the function `name`, if the script defined one.
    pub fn function(&self, name: &str) -> (r: Option<Vec<String>>)
        ensures
            match r {
                Some(b) => function_body(self.functions@, name@) == Some(views(b@)),
                None => function_body(self.functions@, name@) is None,
            },
    {
        match key_index(&self.functions, name) {
            Some(k) => {
                proof {
                    lemma_first_key(self.functions@, name@);
                }
                Some(clone_strings(self.functions[k].1.as_slice()))
            },
            None => {
                proof {
                    lemma_first_key(self.functions@, name@);
                }
                None
            },
        }
    }
}

/// Law: a script's local variable shadows the shell variable of the same
/// name: once set, reading the name gives the local's value, whatever the
/// shell variables hold.
pub proof fn law_local_shadows_shell_variable(
    locals: Seq<(String, String)>,
    env: Seq<(String, ArrayValue)>,
    name: Seq<char>,
    value: Seq<char>,
)
    requires
        local_value(locals, name) == Some(value),
    ensures
        script_var(locals, env, name) == value,
{
}

} // verus!
