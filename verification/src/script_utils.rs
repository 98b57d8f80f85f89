//! Line-level helpers of the script interpreter: comment stripping, quote
//! handling, assignment detection, function headers, `case` patterns and
//! Windows `PATH` normalization.
use vstd::prelude::*;
use crate::text::{
    ascii_alnum, ascii_alpha, chars_of, contains_char, find_char_from, first_index, has_char,
    has_prefix, has_suffix, is_alnum, is_alpha, push_char, split_by, split_chars, str_eq,
    string_of, string_of_range, trim, trim_chars, trim_end, trim_end_index, trim_str, trim_ws,
    vviews, TrimSet,
};

verus! {

/// What remains of `s` when an unquoted, unescaped `#` starts a comment.
/// `single`/`double` tell whether a single/double quote is open, `escaped`
/// whether the previous character was an unquoted-context backslash.
pub open spec fn comment_scan(s: Seq<char>, single: bool, double: bool, escaped: bool) -> Seq<char>
    decreases s.len(),
{
    if s.len() == 0 {
        Seq::<char>::empty()
    } else {
        let ch = s[0];
        let rest = s.drop_first();
        if escaped {
            seq![ch] + comment_scan(rest, single, double, false)
        } else if ch == '\\' && !single {
            seq![ch] + comment_scan(rest, single, double, true)
        } else if ch == '\'' && !double {
            seq![ch] + comment_scan(rest, !single, double, false)
        } else if ch == '"' && !single {
            seq![ch] + comment_scan(rest, single, !double, false)
        } else if ch == '#' && !single && !double {
            Seq::<char>::empty()
        } else {
            seq![ch] + comment_scan(rest, single, double, false)
        }
    }
}

/// The line with its trailing comment removed.
pub open spec fn strip_comment(s: Seq<char>) -> Seq<char> {
    comment_scan(s, false, false, false)
}

/// Removes a trailing `#` comment that is not inside quotes and not escaped.
pub fn strip_inline_comment(line: &str) -> (out: String)
    ensures
        out@ == strip_comment(line@),
{
    let v = chars_of(line);
    let mut out = String::new();
    let mut in_single = false;
    let mut in_double = false;
    let mut escaped = false;
    let mut i: usize = 0;
    assert(v@.subrange(0, v@.len() as int) =~= v@);
    assert(out@ + strip_comment(line@) =~= strip_comment(line@));
    while i < v.len()
        invariant
            i <= v@.len(),
            v@ == line@,
            out@ + comment_scan(v@.subrange(i as int, v@.len() as int), in_single, in_double, escaped)
                == strip_comment(line@),
        decreases v.len() - i,
    {
        let ch = v[i];
        let ghost rest = v@.subrange(i + 1, v@.len() as int);
        assert(v@.subrange(i as int, v@.len() as int).drop_first() =~= rest);
        assert(v@.subrange(i as int, v@.len() as int)[0] == ch);
        if escaped {
            push_char(&mut out, ch);
            escaped = false;
            i = i + 1;
            assert(out@ + comment_scan(rest, in_single, in_double, escaped) =~= strip_comment(line@));
            continue;
        }
        if ch == '\\' && !in_single {
            push_char(&mut out, ch);
            escaped = true;
            i = i + 1;
            assert(out@ + comment_scan(rest, in_single, in_double, escaped) =~= strip_comment(line@));
            continue;
        }
        if ch == '\'' && !in_double {
            in_single = !in_single;
            push_char(&mut out, ch);
            i = i + 1;
            assert(out@ + comment_scan(rest, in_single, in_double, escaped) =~= strip_comment(line@));
            continue;
        }
        if ch == '"' && !in_single {
            in_double = !in_double;
            push_char(&mut out, ch);
            i = i + 1;
            assert(out@ + comment_scan(rest, in_single, in_double, escaped) =~= strip_comment(line@));
            continue;
        }
        if ch == '#' && !in_single && !in_double {
            assert(out@ =~= strip_comment(line@));
            return out;
        }
        push_char(&mut out, ch);
        i = i + 1;
        assert(out@ + comment_scan(rest, in_single, in_double, escaped) =~= strip_comment(line@));
    }
    assert(out@ =~= strip_comment(line@));
    out
}

/// Whatever the quote state, stripping a comment keeps a prefix of the line.
pub proof fn lemma_comment_scan_prefix(s: Seq<char>, single: bool, double: bool, escaped: bool)
    ensures
        has_prefix(s, comment_scan(s, single, double, escaped)),
    decreases s.len(),
{
    let r = comment_scan(s, single, double, escaped);
    if s.len() == 0 {
        assert(s.subrange(0, 0) =~= r);
    } else {
        let rest = s.drop_first();
        let ch = s[0];
        if !escaped && ch == '#' && !single && !double && !(ch == '\\' && !single) && !(ch
            == '\'' && !double) && !(ch == '"' && !single) {
            assert(s.subrange(0, 0) =~= r);
        } else {
            let (a, b, c) = if escaped {
                (single, double, false)
            } else if ch == '\\' && !single {
                (single, double, true)
            } else if ch == '\'' && !double {
                (!single, double, false)
            } else if ch == '"' && !single {
                (single, !double, false)
            } else {
                (single, double, false)
            };
            let tail = comment_scan(rest, a, b, c);
            lemma_comment_scan_prefix(rest, a, b, c);
            assert(r == seq![ch] + tail);
            assert forall|j: int| 0 <= j < r.len() implies s.subrange(0, r.len() as int)[j]
                == r[j] by {
                if j > 0 {
                    assert(rest.subrange(0, tail.len() as int)[j - 1] == tail[j - 1]);
                }
            }
            assert(s.subrange(0, r.len() as int) =~= r);
        }
    }
}

/// Law: the text kept by `strip_inline_comment` is always a prefix of the
/// line it was given; removing a comment never changes what precedes it.
pub proof fn law_strip_comment_keeps_prefix(line: Seq<char>)
    ensures
        has_prefix(line, strip_comment(line)),
{
    lemma_comment_scan_prefix(line, false, false, false);
}

proof fn lemma_comment_scan_idempotent(s: Seq<char>, single: bool, double: bool, escaped: bool)
    ensures
        comment_scan(comment_scan(s, single, double, escaped), single, double, escaped)
            == comment_scan(s, single, double, escaped),
    decreases s.len(),
{
    let r = comment_scan(s, single, double, escaped);
    if s.len() > 0 {
        let rest = s.drop_first();
        let ch = s[0];
        let (a, b, c) = if escaped {
            (single, double, false)
        } else if ch == '\\' && !single {
            (single, double, true)
        } else if ch == '\'' && !double {
            (!single, double, false)
        } else if ch == '"' && !single {
            (single, !double, false)
        } else {
            (single, double, false)
        };
        if escaped || !(ch == '#' && !single && !double) || (ch == '\\' && !single) || (ch
            == '\'' && !double) || (ch == '"' && !single) {
            let tail = comment_scan(rest, a, b, c);
            lemma_comment_scan_idempotent(rest, a, b, c);
            assert(r == seq![ch] + tail);
            assert(r[0] == ch);
            assert(r.drop_first() =~= tail);
        }
    }
}

/// Law: stripping the comment twice changes nothing more than stripping
/// it once.
pub proof fn law_strip_comment_idempotent(line: Seq<char>)
    ensures
        strip_comment(strip_comment(line)) == strip_comment(line),
{
    lemma_comment_scan_idempotent(line, false, false, false);
}

/// A script line after normalization: byte-order marks and white space
/// removed at both ends, then the comment, then white space again.
pub open spec fn normalized_line(line: Seq<char>) -> Seq<char> {
    trim_ws(strip_comment(trim(line, TrimSet::WhitespaceOrBom)))
}

/// Normalizes one script line: trims byte-order marks and white space,
/// removes a trailing comment and trims the rest.
pub fn normalize_script_line(line: &str) -> (r: String)
    ensures
        r@ == normalized_line(line@),
{
    let v = chars_of(line);
    let t = trim_chars(&v, TrimSet::WhitespaceOrBom);
    let ts = string_of(&t);
    let stripped = strip_inline_comment(ts.as_str());
    trim_str(stripped.as_str())
}

/// `s` without one pair of matching surrounding quotes.
pub open spec fn unquoted(s: Seq<char>) -> Seq<char> {
    if s.len() >= 2 && ((s[0] == '"' && s.last() == '"') || (s[0] == '\'' && s.last() == '\'')) {
        s.subrange(1, s.len() - 1)
    } else {
        s
    }
}

/// Removes one pair of matching surrounding `"` or `'` quotes.
pub fn strip_quotes(s: &str) -> (r: String)
    ensures
        r@ == unquoted(s@),
{
    let v = chars_of(s);
    let n = v.len();
    if n >= 2 && ((v[0] == '"' && v[n - 1] == '"') || (v[0] == '\'' && v[n - 1] == '\'')) {
        return string_of_range(&v, 1, n - 1);
    }
    string_of(&v)
}

/// `s` with its quote characters removed: a quote of one kind is dropped
/// unless it stands inside a quote of the other kind.
pub open spec fn dequote_scan(s: Seq<char>, single: bool, double: bool) -> Seq<char>
    decreases s.len(),
{
    if s.len() == 0 {
        Seq::<char>::empty()
    } else {
        let ch = s[0];
        let rest = s.drop_first();
        if ch == '\'' && !double {
            dequote_scan(rest, !single, double)
        } else if ch == '"' && !single {
            dequote_scan(rest, single, !double)
        } else {
            seq![ch] + dequote_scan(rest, single, double)
        }
    }
}

/// Removes the quote characters from the right-hand side of an assignment.
pub fn normalize_assignment_value(raw: &str) -> (out: String)
    ensures
        out@ == dequote_scan(raw@, false, false),
{
    let v = chars_of(raw);
    let mut out = String::new();
    let mut in_single = false;
    let mut in_double = false;
    let mut i: usize = 0;
    assert(v@.subrange(0, v@.len() as int) =~= v@);
    assert(out@ + dequote_scan(raw@, false, false) =~= dequote_scan(raw@, false, false));
    while i < v.len()
        invariant
            i <= v@.len(),
            out@ + dequote_scan(v@.subrange(i as int, v@.len() as int), in_single, in_double)
                == dequote_scan(raw@, false, false),
            v@ == raw@,
        decreases v.len() - i,
    {
        let ch = v[i];
        let ghost rest = v@.subrange(i + 1, v@.len() as int);
        assert(v@.subrange(i as int, v@.len() as int).drop_first() =~= rest);
        assert(v@.subrange(i as int, v@.len() as int)[0] == ch);
        if ch == '\'' && !in_double {
            in_single = !in_single;
        } else if ch == '"' && !in_single {
            in_double = !in_double;
        } else {
            push_char(&mut out, ch);
        }
        i = i + 1;
        assert(out@ + dequote_scan(rest, in_single, in_double) =~= dequote_scan(
            raw@,
            false,
            false,
        ));
    }
    assert(v@.subrange(v@.len() as int, v@.len() as int) =~= Seq::<char>::empty());
    assert(out@ =~= dequote_scan(raw@, false, false));
    out
}

/// The colon at `i` separates two `PATH` entries: it is not the colon of a
/// drive letter such as `C:\` or `C:/`.
pub open spec fn is_list_colon(s: Seq<char>, i: int) -> bool {
    s[i] == ':' && !(i > 0 && is_alpha(s[i - 1]) && i + 1 < s.len() && (s[i + 1] == '\\' || s[i
        + 1] == '/'))
}

/// A colon-separated `PATH` value rewritten with `;` separators: every
/// separating colon becomes `;`, drive-letter colons stay, and a trailing
/// separator is dropped. Values that are empty or already hold `;` stay.
pub open spec fn windows_path_list(s: Seq<char>) -> Seq<char> {
    if s.len() == 0 || has_char(s, ';') {
        s
    } else {
        let converted = Seq::new(s.len(), |i: int| if is_list_colon(s, i) { ';' } else { s[i] });
        if s.last() == ':' {
            converted.drop_last()
        } else {
            converted
        }
    }
}

/// Rewrites a Unix-style `PATH` list (`a:b`) to the Windows form (`a;b`)
/// when `on_windows` holds; elsewhere the value is returned unchanged.
pub fn normalize_path_list_for_windows(path_value: &str, on_windows: bool) -> (r: String)
    ensures
        r@ == (if on_windows { windows_path_list(path_value@) } else { path_value@ }),
{
    let v = chars_of(path_value);
    if !on_windows || v.len() == 0 || contains_char(&v, ';') {
        return string_of(&v);
    }
    let n = v.len();
    let mut out: Vec<char> = Vec::new();
    let mut i: usize = 0;
    while i < n
        invariant
            n == v@.len(),
            v@ == path_value@,
            i <= n,
            out@ =~= Seq::new(i as nat, |j: int| if is_list_colon(v@, j) { ';' } else { v@[j] }),
        decreases n - i,
    {
        let ch = v[i];
        let mut sep = false;
        if ch == ':' {
            let drive = i > 0 && ascii_alpha(v[i - 1]) && i + 1 < n && (v[i + 1] == '\\' || v[i
                + 1] == '/');
            sep = !drive;
        }
        assert(sep == is_list_colon(v@, i as int));
        if sep {
            out.push(';');
        } else {
            out.push(ch);
        }
        i = i + 1;
    }
    if v[n - 1] == ':' {
        out.pop();
    }
    string_of(&out)
}

/// `s` is a shell identifier: a letter or `_`, then letters, digits or `_`.
pub open spec fn is_identifier(s: Seq<char>) -> bool {
    s.len() > 0 && (is_alpha(s[0]) || s[0] == '_') && forall|i: int|
        1 <= i < s.len() ==> is_alnum(#[trigger] s[i]) || s[i] == '_'
}

/// The token is `NAME=value` with a shell identifier before its first `=`.
pub open spec fn assignment_token(t: Seq<char>) -> bool {
    match first_index(t, '=') {
        Some(p) => is_identifier(t.subrange(0, p)),
        None => false,
    }
}

/// Whether a script token is a variable assignment `NAME=value`.
pub fn is_assignment_token(token: &str) -> (r: bool)
    ensures
        r == assignment_token(token@),
{
    let v = chars_of(token);
    let p = match find_char_from(&v, '=', 0) {
        Some(p) => p,
        None => {
            proof {
                crate::text::lemma_first_index_none(v@, '=');
            }
            return false;
        },
    };
    proof {
        crate::text::lemma_first_index_at(v@, '=', p as int);
    }
    if p == 0 {
        return false;
    }
    let first = v[0];
    assert(v@.subrange(0, p as int)[0] == v@[0]);
    if !(ascii_alpha(first) || first == '_') {
        return false;
    }
    let mut i: usize = 1;
    while i < p
        invariant
            1 <= i <= p < v@.len(),
            v@ == token@,
            first_index(token@, '=') == Some(p as int),
            forall|j: int| 1 <= j < i ==> is_alnum(#[trigger] v@[j]) || v@[j] == '_',
        decreases p - i,
    {
        if !(ascii_alnum(v[i]) || v[i] == '_') {
            assert(!(is_alnum(v@.subrange(0, p as int)[i as int]) || v@.subrange(0, p as int)[i as int] == '_'));
            return false;
        }
        i = i + 1;
    }
    assert forall|j: int| 1 <= j < p implies is_alnum(#[trigger] v@.subrange(0, p as int)[j])
        || v@.subrange(0, p as int)[j] == '_' by {
        assert(v@.subrange(0, p as int)[j] == v@[j]);
    }
    true
}

/// The function name declared by a line `name() {`, if it is one.
pub open spec fn function_header(line: Seq<char>) -> Option<Seq<char>> {
    let t = trim_ws(line);
    if t.len() == 0 || t.last() != '{' {
        None
    } else {
        let header = trim_ws(trim_end(t, TrimSet::Only('{')));
        if has_suffix(header, seq!['(', ')']) {
            let name = trim_ws(header.subrange(0, header.len() - 2));
            if name.len() > 0 {
                Some(name)
            } else {
                None
            }
        } else {
            None
        }
    }
}

/// Recognizes a function definition header `name() {` and returns the name.
pub fn parse_function_header(line: &str) -> (r: Option<String>)
    ensures
        match function_header(line@) {
            Some(n) => r is Some && r->0@ == n,
            None => r is None,
        },
{
    let v = chars_of(line);
    let t = trim_chars(&v, TrimSet::Whitespace);
    let n = t.len();
    if n == 0 || t[n - 1] != '{' {
        return None;
    }
    let e = trim_end_index(&t, 0, n, TrimSet::Only('{'));
    assert(t@.subrange(0, n as int) =~= t@);
    let header = trim_chars(&t.as_slice()[0..e], TrimSet::Whitespace);
    let hn = header.len();
    if hn >= 2 && header[hn - 2] == '(' && header[hn - 1] == ')' {
        assert(header@.subrange(hn - 2, hn as int) =~= seq!['(', ')']);
        let name = trim_chars(&header.as_slice()[0..hn - 2], TrimSet::Whitespace);
        if name.len() > 0 {
            return Some(string_of(&name));
        }
        return None;
    }
    if hn >= 2 {
        assert(header@.subrange(hn - 2, hn as int)[0] == header@[hn - 2]);
        assert(header@.subrange(hn - 2, hn as int)[1] == header@[hn - 1]);
    }
    None
}

/// Whether `glob::Pattern::new` accepts the pattern.
pub uninterp spec fn glob_compiles(pattern: Seq<char>) -> bool;

/// What `glob::Pattern::matches` answers for a compiled pattern and a text.
pub uninterp spec fn glob_match(pattern: Seq<char>, text: Seq<char>) -> bool;

/// Compiles `pattern` with `glob::Pattern::new` and, when that succeeds,
/// tests `value` with `glob::Pattern::matches`. The contract names both
/// results: `None` exactly when the pattern does not compile.
#[verifier::external_body]
fn glob_pattern_matches(pattern: &str, value: &str) -> (r: Option<bool>)
    ensures
        r == (if glob_compiles(pattern@) {
            Some(glob_match(pattern@, value@))
        } else {
            None
        }),
{
    match glob::Pattern::new(pattern) {
        Ok(p) => Some(p.matches(value)),
        Err(_) => None,
    }
}

/// One `case` alternative, once trimmed and unquoted, matches the value: it
/// is `*`, or a glob pattern that compiles and matches, or the value itself.
pub open spec fn case_alternative_matches(raw: Seq<char>, value: Seq<char>) -> bool {
    let pat = unquoted(trim_ws(raw));
    if pat == seq!['*'] {
        true
    } else if has_char(pat, '*') || has_char(pat, '?') || has_char(pat, '[') {
        glob_compiles(pat) && glob_match(pat, value)
    } else {
        pat == value
    }
}

/// Some `|`-separated alternative of the pattern list matches the value.
pub open spec fn case_matches(patterns: Seq<char>, value: Seq<char>) -> bool {
    exists|k: int|
        0 <= k < split_by(patterns, '|').len() && case_alternative_matches(
            #[trigger] split_by(patterns, '|')[k],
            value,
        )
}

/// Whether a `case` branch pattern list such as `a|b*` matches `value`.
pub fn case_pattern_matches(patterns: &str, value: &str) -> (r: bool)
    ensures
        r == case_matches(patterns@, value@),
{
    let pv = chars_of(patterns);
    let parts = split_chars(&pv, '|');
    let mut k: usize = 0;
    while k < parts.len()
        invariant
            vviews(parts@) == split_by(patterns@, '|'),
            pv@ == patterns@,
            k <= parts@.len(),
            forall|j: int| 0 <= j < k ==> !case_alternative_matches(
                #[trigger] split_by(patterns@, '|')[j],
                value@,
            ),
        decreases parts.len() - k,
    {
        assert(vviews(parts@)[k as int] == parts@[k as int]@);
        let trimmed = trim_chars(&parts[k], TrimSet::Whitespace);
        let ts = string_of(&trimmed);
        let pat = strip_quotes(ts.as_str());
        let pc = chars_of(pat.as_str());
        let matched;
        if pc.len() == 1 && pc[0] == '*' {
            assert(pc@ =~= seq!['*']);
            matched = true;
        } else if contains_char(&pc, '*') || contains_char(&pc, '?') || contains_char(&pc, '[') {
            if pc.len() == 1 {
                assert(pc@ != seq!['*']);
            }
            matched = match glob_pattern_matches(pat.as_str(), value) {
                Some(m) => m,
                None => false,
            };
        } else {
            if pc.len() == 1 {
                assert(pc@ != seq!['*']);
            }
            matched = str_eq(pat.as_str(), value);
        }
        if matched {
            assert(case_alternative_matches(split_by(patterns@, '|')[k as int], value@));
            return true;
        }
        k = k + 1;
    }
    false
}

} // verus!
