//! The block structure of scripts: where a `while`, `case` or `if` block
//! ends, which condition and body each part has, and which commands a
//! `case` block runs. Lines are compared once normalized (comments and
//! surrounding white space removed).
use vstd::prelude::*;
use crate::array::ArrayValue;
use crate::script::{expand_from, expand_script_vars, function_body, local_value, ScriptState};
use crate::array::{join_spaced, spaced};
use crate::script_utils::{assignment_token, dequote_scan, function_header, is_assignment_token,
    normalize_assignment_value, normalize_path_list_for_windows, parse_function_header,
    windows_path_list, strip_quotes, unquoted, case_matches, case_pattern_matches, normalize_script_line, normalized_line};
use crate::text::{
    chars_of, first_index, has_prefix, lemma_first_index_at, lemma_first_index_none, owned,
    string_of_range, views, find_char_from, trim_str, ascii_lower_text, ascii_lowercase_chars,
    chars_eq, parse_unsigned, parse_unsigned_chars, split_whitespace_chars, vviews, words, has_suffix, skip_prefixes, skip_suffixes, str_ends_with, str_eq,
    str_starts_with, string_of, trim_chars, trim_ws, without_prefixes, without_suffixes, TrimSet,
};

verus! {

/// Line `i` of a script, normalized.
pub open spec fn line_at(lines: Seq<String>, i: int) -> Seq<char> {
    normalized_line(lines[i]@)
}

/// `s` without leading repetitions of `p`, trimmed (std's
/// `trim_start_matches(p).trim()`).
pub open spec fn after_prefixes(s: Seq<char>, p: Seq<char>) -> Seq<char> {
    trim_ws(without_prefixes(s, p))
}

/// `s` without trailing repetitions of `p`, trimmed (std's
/// `trim_end_matches(p).trim()`).
pub open spec fn before_suffixes(s: Seq<char>, p: Seq<char>) -> Seq<char> {
    trim_ws(without_suffixes(s, p))
}

pub(crate) fn norm_at(lines: &[String], i: usize) -> (r: String)
    requires
        i < lines@.len(),
    ensures
        r@ == line_at(lines@, i as int),
{
    normalize_script_line(lines[i].as_str())
}

pub(crate) fn strip_prefixes_trim(s: &str, p: &str) -> (r: String)
    ensures
        r@ == after_prefixes(s@, p@),
{
    let v = chars_of(s);
    let k = chars_of(p);
    assert(v@.subrange(0, v@.len() as int) =~= v@);
    if k.len() == 0 {
        let t = trim_chars(&v, TrimSet::Whitespace);
        return string_of(&t);
    }
    let start = skip_prefixes(&v, 0, &k);
    let t = trim_chars(&v.as_slice()[start..v.len()], TrimSet::Whitespace);
    string_of(&t)
}

pub(crate) fn strip_suffixes_trim(s: &str, p: &str) -> (r: String)
    ensures
        r@ == before_suffixes(s@, p@),
{
    let v = chars_of(s);
    let k = chars_of(p);
    assert(v@.subrange(0, v@.len() as int) =~= v@);
    let end = skip_suffixes(&v, v.len(), &k);
    let t = trim_chars(&v.as_slice()[0..end], TrimSet::Whitespace);
    string_of(&t)
}

/// The line at which a block opened `depth` levels deep closes, scanning
/// from line `c` up to `end`: a line starting with `opener` opens one more
/// level, a line equal to `closer` closes one.
pub open spec fn closing_index(
    lines: Seq<String>,
    c: int,
    end: int,
    depth: int,
    opener: Seq<char>,
    closer: Seq<char>,
) -> Option<int>
    decreases end - c,
{
    if c >= end {
        None
    } else if has_prefix(line_at(lines, c), opener) {
        closing_index(lines, c + 1, end, depth + 1, opener, closer)
    } else if line_at(lines, c) == closer {
        if depth - 1 == 0 {
            Some(c)
        } else {
            closing_index(lines, c + 1, end, depth - 1, opener, closer)
        }
    } else {
        closing_index(lines, c + 1, end, depth, opener, closer)
    }
}

pub proof fn lemma_closing_index_range(
    lines: Seq<String>,
    c: int,
    end: int,
    depth: int,
    opener: Seq<char>,
    closer: Seq<char>,
)
    ensures
        closing_index(lines, c, end, depth, opener, closer) matches Some(k) ==> c <= k < end,
    decreases end - c,
{
    if c < end {
        if has_prefix(line_at(lines, c), opener) {
            lemma_closing_index_range(lines, c + 1, end, depth + 1, opener, closer);
        } else if line_at(lines, c) == closer {
            if depth - 1 != 0 {
                lemma_closing_index_range(lines, c + 1, end, depth - 1, opener, closer);
            }
        } else {
            lemma_closing_index_range(lines, c + 1, end, depth, opener, closer);
        }
    }
}

/// Finds the line that closes a block opened one level deep before line `c`.
pub(crate) fn find_closing(lines: &[String], c: usize, end: usize, opener: &str, closer: &str) -> (r:
    Option<usize>)
    requires
        c <= end <= lines@.len(),
        end < usize::MAX,
    ensures
        match r {
            Some(k) => closing_index(lines@, c as int, end as int, 1, opener@, closer@) == Some(
                k as int,
            ),
            None => closing_index(lines@, c as int, end as int, 1, opener@, closer@) is None,
        },
        r matches Some(k) ==> c <= k < end,
{
    proof {
        lemma_closing_index_range(lines@, c as int, end as int, 1, opener@, closer@);
    }
    let mut depth: usize = 1;
    let mut cursor = c;
    while cursor < end
        invariant
            c <= cursor <= end <= lines@.len(),
            end < usize::MAX,
            1 <= depth <= cursor - c + 1,
            closing_index(lines@, c as int, end as int, 1, opener@, closer@) == closing_index(
                lines@,
                cursor as int,
                end as int,
                depth as int,
                opener@,
                closer@,
            ),
        decreases end - cursor,
    {
        let line = norm_at(lines, cursor);
        if str_starts_with(line.as_str(), opener) {
            depth += 1;
        } else if str_eq(line.as_str(), closer) {
            depth -= 1;
            if depth == 0 {
                return Some(cursor);
            }
        }
        cursor += 1;
    }
    None
}

/// Where a `while` body starts when the header has no `do`: after the first
/// line from `c` on that is `do`, skipping empty and `#` lines, or at
/// `dflt` when none comes before `end`; `None` when another line comes first.
pub open spec fn do_scan(lines: Seq<String>, c: int, end: int, dflt: int) -> Option<int>
    decreases end - c,
{
    if c >= end {
        Some(dflt)
    } else if line_at(lines, c).len() == 0 || has_prefix(line_at(lines, c), "#"@) {
        do_scan(lines, c + 1, end, dflt)
    } else if line_at(lines, c) == "do"@ {
        Some(c + 1)
    } else {
        None
    }
}

pub proof fn lemma_do_scan_range(lines: Seq<String>, c: int, end: int, dflt: int)
    ensures
        do_scan(lines, c, end, dflt) matches Some(b) ==> b == dflt || c < b <= end,
    decreases end - c,
{
    if c < end {
        if line_at(lines, c).len() == 0 || has_prefix(line_at(lines, c), "#"@) {
            lemma_do_scan_range(lines, c + 1, end, dflt);
        }
    }
}

/// How a `while` header reads: the condition and the line its body starts
/// at, or the error text.
pub open spec fn while_parts(lines: Seq<String>, start: int, end: int) -> Result<(Seq<char>, int), Seq<char>> {
    let head = after_prefixes(line_at(lines, start), "while"@);
    let (cond, body) = if has_suffix(head, "; do"@) {
        (before_suffixes(head, "; do"@), Some(start + 1))
    } else if has_suffix(head, " do"@) {
        (before_suffixes(head, " do"@), Some(start + 1))
    } else {
        (head, do_scan(lines, start + 1, end, start + 1))
    };
    match body {
        None => Err("while syntax expects 'do'"@),
        Some(b) => {
            let cond = if has_suffix(cond, ";"@) {
                trim_ws(cond.drop_last())
            } else {
                cond
            };
            if cond.len() == 0 {
                Err("while condition cannot be empty"@)
            } else {
                Ok((cond, b))
            }
        },
    }
}

/// A `while` block starting at line `start`: its condition, the first line
/// of its body, the line of its `done`, and the line after it.
pub open spec fn while_block(lines: Seq<String>, start: int, end: int) -> Result<
    (Seq<char>, int, int, int),
    Seq<char>,
> {
    match while_parts(lines, start, end) {
        Err(e) => Err(e),
        Ok((cond, b)) => match closing_index(lines, b, end, 1, "while "@, "done"@) {
            Some(k) => Ok((cond, b, k, k + 1)),
            None => Err("while block missing 'done'"@),
        },
    }
}

fn find_do(lines: &[String], c: usize, end: usize, dflt: usize) -> (r: Option<usize>)
    requires
        c <= end <= lines@.len(),
    ensures
        match r {
            Some(b) => do_scan(lines@, c as int, end as int, dflt as int) == Some(b as int),
            None => do_scan(lines@, c as int, end as int, dflt as int) is None,
        },
{
    proof {
        lemma_do_scan_range(lines@, c as int, end as int, dflt as int);
    }
    let mut cursor = c;
    while cursor < end
        invariant
            c <= cursor <= end <= lines@.len(),
            do_scan(lines@, c as int, end as int, dflt as int) == do_scan(
                lines@,
                cursor as int,
                end as int,
                dflt as int,
            ),
        decreases end - cursor,
    {
        let candidate = norm_at(lines, cursor);
        if candidate.as_str().unicode_len() == 0 || str_starts_with(candidate.as_str(), "#") {
            cursor += 1;
            continue;
        }
        if str_eq(candidate.as_str(), "do") {
            return Some(cursor + 1);
        }
        return None;
    }
    Some(dflt)
}

fn drop_last_trim(s: &str) -> (r: String)
    requires
        s@.len() > 0,
    ensures
        r@ == trim_ws(s@.drop_last()),
{
    let v = chars_of(s);
    let t = trim_chars(&v.as_slice()[0..v.len() - 1], TrimSet::Whitespace);
    assert(v@.subrange(0, v@.len() - 1) =~= s@.drop_last());
    string_of(&t)
}

/// Parses a `while` block that starts at line `start`, looking no further
/// than line `end`: its condition, the first line of its body, the line of
/// its `done` and the line after it.
pub fn parse_while_block(lines: &[String], start: usize, end: usize) -> (r: Result<
    (String, usize, usize, usize),
    String,
>)
    requires
        start < lines@.len() < usize::MAX,
        end <= lines@.len(),
    ensures
        match (r, while_block(lines@, start as int, end as int)) {
            (Ok((c, b, k, n)), Ok((sc, sb, sk, sn))) => c@ == sc && b == sb && k == sk && n == sn,
            (Err(e), Err(se)) => e@ == se,
            _ => false,
        },
{
    let header = norm_at(lines, start);
    let head = strip_prefixes_trim(header.as_str(), "while");
    let mut condition;
    let mut body_start = start + 1;
    if str_ends_with(head.as_str(), "; do") {
        condition = strip_suffixes_trim(head.as_str(), "; do");
    } else if str_ends_with(head.as_str(), " do") {
        condition = strip_suffixes_trim(head.as_str(), " do");
    } else {
        condition = head;
        proof {
            lemma_do_scan_range(lines@, start + 1, end as int, start + 1);
        }
        if start + 1 <= end {
            match find_do(lines, start + 1, end, start + 1) {
                Some(b) => {
                    body_start = b;
                },
                None => {
                    return Err(owned("while syntax expects 'do'"));
                },
            }
        }
    }
    if str_ends_with(condition.as_str(), ";") {
        proof {
            reveal_strlit(";");
        }
        condition = drop_last_trim(condition.as_str());
    }
    if condition.as_str().unicode_len() == 0 {
        return Err(owned("while condition cannot be empty"));
    }
    assert(while_parts(lines@, start as int, end as int) == Ok::<(Seq<char>, int), Seq<char>>((condition@, body_start as int)));
    if body_start > end {
        return Err(owned("while block missing 'done'"));
    }
    match find_closing(lines, body_start, end, "while ", "done") {
        Some(k) => {
            assert(closing_index(lines@, body_start as int, end as int, 1, "while "@, "done"@)
                == Some(k as int));
            Ok((condition, body_start, k, k + 1))
        },
        None => {
            assert(closing_index(lines@, body_start as int, end as int, 1, "while "@, "done"@)
                is None);
            Err(owned("while block missing 'done'"))
        },
    }
}

/// The last line of a multi-line `case` branch: the first from `c` on
/// that ends with `;;`, or `esac` when none does.
pub open spec fn branch_end(lines: Seq<String>, c: int, esac: int) -> int
    decreases esac - c,
{
    if c >= esac {
        esac
    } else if has_suffix(line_at(lines, c), ";;"@) {
        c
    } else {
        branch_end(lines, c + 1, esac)
    }
}

pub proof fn lemma_branch_end_range(lines: Seq<String>, c: int, esac: int)
    requires
        c <= esac,
    ensures
        c <= branch_end(lines, c, esac) <= esac,
    decreases esac - c,
{
    if c < esac && !has_suffix(line_at(lines, c), ";;"@) {
        lemma_branch_end_range(lines, c + 1, esac);
    }
}

/// The commands of a multi-line `case` branch from line `c` on: each line
/// as it is, then the last one without its `;;` when anything is left.
pub open spec fn branch_cmds(lines: Seq<String>, c: int, esac: int) -> Seq<Seq<char>>
    decreases esac - c,
{
    if c >= esac {
        Seq::empty()
    } else if has_suffix(line_at(lines, c), ";;"@) {
        let cmd = before_suffixes(line_at(lines, c), ";;"@);
        if cmd.len() > 0 {
            seq![cmd]
        } else {
            Seq::empty()
        }
    } else {
        seq![line_at(lines, c)] + branch_cmds(lines, c + 1, esac)
    }
}

/// The commands that the branches of a `case` block from line `cursor` to
/// `esac` run for the word `word`; `matched` says whether an earlier branch
/// matched. A branch is a line `patterns) ...`: only the first branch whose
/// patterns match runs, either the rest of its line (up to `;;`) or the
/// lines below it up to the one ending with `;;`.
pub open spec fn case_cmds(
    lines: Seq<String>,
    cursor: int,
    esac: int,
    word: Seq<char>,
    matched: bool,
) -> Seq<Seq<char>>
    decreases esac + 1 - cursor,
{
    if cursor >= esac {
        Seq::empty()
    } else {
        let line = line_at(lines, cursor);
        if line.len() == 0 || has_prefix(line, "#"@) {
            case_cmds(lines, cursor + 1, esac, word, matched)
        } else {
            match first_index(line, ')') {
                None => case_cmds(lines, cursor + 1, esac, word, matched),
                Some(p) => {
                    let patterns = trim_ws(line.subrange(0, p));
                    let rem = trim_ws(line.subrange(p + 1, line.len() as int));
                    let is_match = !matched && case_matches(patterns, word);
                    if has_suffix(rem, ";;"@) {
                        let cmd = before_suffixes(rem, ";;"@);
                        (if is_match && cmd.len() > 0 {
                            seq![cmd]
                        } else {
                            Seq::empty()
                        }) + case_cmds(lines, cursor + 1, esac, word, matched || is_match)
                    } else {
                        let e = branch_end(lines, cursor + 1, esac);
                        proof {
                            lemma_branch_end_range(lines, cursor + 1, esac);
                        }
                        (if is_match {
                            branch_cmds(lines, cursor + 1, esac)
                        } else {
                            Seq::empty()
                        }) + case_cmds(lines, e + 1, esac, word, matched || is_match)
                    }
                },
            }
        }
    }
}

/// The commands that a `case` block starting at line `start` runs for the
/// word `word`, and the line after its `esac`.
pub open spec fn case_block(lines: Seq<String>, start: int, end: int, word: Seq<char>) -> Result<
    (Seq<Seq<char>>, int),
    Seq<char>,
> {
    match closing_index(lines, start + 1, end, 1, "case "@, "esac"@) {
        None => Err("case block missing 'esac'"@),
        Some(esac) => Ok((case_cmds(lines, start + 1, esac, word, false), esac + 1)),
    }
}

/// The word of a `case` header `case <word> in`, or the error text.
pub open spec fn case_word_of(header: Seq<char>) -> Result<Seq<char>, Seq<char>> {
    if has_suffix(header, " in"@) {
        Ok(before_suffixes(without_prefixes(header, "case"@), " in"@))
    } else {
        Err("case syntax expects 'case <word> in'"@)
    }
}

/// The word expression of the `case` header at line `start`.
pub fn case_header_word(lines: &[String], start: usize) -> (r: Result<String, String>)
    requires
        start < lines@.len(),
    ensures
        match (r, case_word_of(line_at(lines@, start as int))) {
            (Ok(w), Ok(sw)) => w@ == sw,
            (Err(e), Err(se)) => e@ == se,
            _ => false,
        },
{
    let header = norm_at(lines, start);
    if !str_ends_with(header.as_str(), " in") {
        return Err(owned("case syntax expects 'case <word> in'"));
    }
    let v = chars_of(header.as_str());
    let k = chars_of("case");
    assert(v@.subrange(0, v@.len() as int) =~= v@);
    proof {
        reveal_strlit("case");
    }
    let from = skip_prefixes(&v, 0, &k);
    let rest = string_of_range(&v, from, v.len());
    Ok(strip_suffixes_trim(rest.as_str(), " in"))
}

/// Runs through the lines of a multi-line branch from `c`, adding them to
/// `out` when the branch matched; the result is the branch's last line.
fn branch_run(lines: &[String], c: usize, esac: usize, is_match: bool, out: &mut Vec<String>) -> (e:
    usize)
    requires
        c <= esac <= lines@.len(),
    ensures
        e == branch_end(lines@, c as int, esac as int),
        views(final(out)@) == views(old(out)@) + (if is_match {
            branch_cmds(lines@, c as int, esac as int)
        } else {
            Seq::empty()
        }),
{
    let mut cursor = c;
    while cursor < esac
        invariant
            c <= cursor <= esac <= lines@.len(),
            branch_end(lines@, c as int, esac as int) == branch_end(lines@, cursor as int, esac as int),
            views(out@) + (if is_match {
                branch_cmds(lines@, cursor as int, esac as int)
            } else {
                Seq::empty()
            }) == views(old(out)@) + (if is_match {
                branch_cmds(lines@, c as int, esac as int)
            } else {
                Seq::empty()
            }),
        decreases esac - cursor,
    {
        let line = norm_at(lines, cursor);
        if str_ends_with(line.as_str(), ";;") {
            if is_match {
                let cmd = strip_suffixes_trim(line.as_str(), ";;");
                if cmd.as_str().unicode_len() > 0 {
                    let ghost before = views(out@);
                    out.push(cmd);
                    assert(views(out@) =~= before + seq![cmd@]);
                } else {
                    assert(views(out@) + Seq::<Seq<char>>::empty() =~= views(out@));
                }
            }
            return cursor;
        }
        if is_match {
            let ghost before = views(out@);
            let ghost rest = branch_cmds(lines@, cursor + 1, esac as int);
            out.push(line);
            assert(views(out@) =~= before + seq![line_at(lines@, cursor as int)]);
            assert(views(out@) + rest =~= before + (seq![line_at(lines@, cursor as int)] + rest));
        }
        cursor += 1;
    }
    if !is_match {
        assert(views(out@) + Seq::<Seq<char>>::empty() =~= views(out@));
    }
    esac
}

/// The commands that the `case` block starting at line `start` runs for
/// the word `word` (already expanded and unquoted), and the line after its
/// `esac`.
pub fn case_plan(lines: &[String], start: usize, end: usize, word: &str) -> (r: Result<
    (Vec<String>, usize),
    String,
>)
    requires
        start < end <= lines@.len() < usize::MAX,
    ensures
        match (r, case_block(lines@, start as int, end as int, word@)) {
            (Ok((cmds, next)), Ok((scmds, snext))) => views(cmds@) == scmds && next == snext,
            (Err(e), Err(se)) => e@ == se,
            _ => false,
        },
{
    let esac = match find_closing(lines, start + 1, end, "case ", "esac") {
        Some(k) => k,
        None => {
            return Err(owned("case block missing 'esac'"));
        },
    };
    let mut out: Vec<String> = Vec::new();
    let mut cursor = start + 1;
    let mut matched = false;
    let ghost total = case_cmds(lines@, start + 1, esac as int, word@, false);
    while cursor < esac
        invariant
            start + 1 <= cursor <= esac + 1,
            esac < end <= lines@.len(),
            views(out@) + case_cmds(lines@, cursor as int, esac as int, word@, matched) == total,
        decreases esac + 1 - cursor,
    {
        let line = norm_at(lines, cursor);
        let lv = chars_of(line.as_str());
        if lv.len() == 0 || str_starts_with(line.as_str(), "#") {
            cursor += 1;
            continue;
        }
        match find_char_from(&lv, ')', 0) {
            None => {
                proof {
                    lemma_first_index_none(lv@, ')');
                }
                cursor += 1;
            },
            Some(p) => {
                proof {
                    lemma_first_index_at(lv@, ')', p as int);
                }
                let pt = trim_chars(&lv.as_slice()[0..p], TrimSet::Whitespace);
                let patterns = string_of(&pt);
                let rt = trim_chars(&lv.as_slice()[p + 1..lv.len()], TrimSet::Whitespace);
                let rem = string_of(&rt);
                let is_match = !matched && case_pattern_matches(patterns.as_str(), word);
                let ghost before = views(out@);
                if str_ends_with(rem.as_str(), ";;") {
                    let cmd = strip_suffixes_trim(rem.as_str(), ";;");
                    if is_match && cmd.as_str().unicode_len() > 0 {
                        out.push(cmd);
                        assert(views(out@) =~= before + seq![cmd@]);
                    } else {
                        assert(before + Seq::<Seq<char>>::empty() =~= before);
                    }
                    matched = matched || is_match;
                    cursor += 1;
                } else {
                    proof {
                        lemma_branch_end_range(lines@, cursor + 1, esac as int);
                    }
                    let e = branch_run(lines, cursor + 1, esac, is_match, &mut out);
                    matched = matched || is_match;
                    cursor = e + 1;
                }
            },
        }
    }
    assert(views(out@) + Seq::<Seq<char>>::empty() =~= views(out@));
    Ok((out, esac + 1))
}

/// Where the body of the branch whose header is at line `start` begins:
/// after the header when it ends with `then`, else after the first line
/// `then` up to line `fi`.
pub open spec fn then_start(lines: Seq<String>, start: int, fi: int) -> Option<int> {
    let h = line_at(lines, start);
    if has_suffix(h, "; then"@) || has_suffix(h, " then"@) {
        Some(start + 1)
    } else {
        then_scan(lines, start + 1, fi)
    }
}

pub open spec fn then_scan(lines: Seq<String>, i: int, fi: int) -> Option<int>
    decreases fi + 1 - i,
{
    if i > fi {
        None
    } else if line_at(lines, i) == "then"@ {
        Some(i + 1)
    } else {
        then_scan(lines, i + 1, fi)
    }
}

pub proof fn lemma_then_range(lines: Seq<String>, start: int, fi: int)
    requires
        start <= fi,
    ensures
        then_start(lines, start, fi) matches Some(b) ==> start + 1 <= b <= fi + 1,
{
    lemma_then_scan_range(lines, start + 1, fi);
}

proof fn lemma_then_scan_range(lines: Seq<String>, i: int, fi: int)
    ensures
        then_scan(lines, i, fi) matches Some(b) ==> i + 1 <= b <= fi + 1,
    decreases fi + 1 - i,
{
    if i <= fi && line_at(lines, i) != "then"@ {
        lemma_then_scan_range(lines, i + 1, fi);
    }
}

/// A line that ends a branch: one of `markers`, alone or followed by a space.
pub open spec fn is_marker(line: Seq<char>, markers: Seq<Seq<char>>) -> bool {
    exists|k: int|
        0 <= k < markers.len() && (line == #[trigger] markers[k] || has_prefix(
            line,
            markers[k] + " "@,
        ))
}

/// The line that ends a branch body from line `i` on, `depth` levels deep:
/// the closing `fi`, or a marker line at the branch's own level.
pub open spec fn branch_stop(
    lines: Seq<String>,
    i: int,
    fi: int,
    depth: int,
    markers: Seq<Seq<char>>,
) -> Option<int>
    decreases fi + 1 - i,
{
    if i > fi {
        None
    } else {
        let l = line_at(lines, i);
        if has_prefix(l, "if "@) {
            branch_stop(lines, i + 1, fi, depth + 1, markers)
        } else if l == "fi"@ {
            if depth - 1 == 0 {
                Some(i)
            } else {
                branch_stop(lines, i + 1, fi, depth - 1, markers)
            }
        } else if depth == 1 && is_marker(l, markers) {
            Some(i)
        } else {
            branch_stop(lines, i + 1, fi, depth, markers)
        }
    }
}

pub proof fn lemma_branch_stop_range(
    lines: Seq<String>,
    i: int,
    fi: int,
    depth: int,
    markers: Seq<Seq<char>>,
)
    ensures
        branch_stop(lines, i, fi, depth, markers) matches Some(e) ==> i <= e <= fi,
    decreases fi + 1 - i,
{
    if i <= fi {
        let l = line_at(lines, i);
        if has_prefix(l, "if "@) {
            lemma_branch_stop_range(lines, i + 1, fi, depth + 1, markers);
        } else if l == "fi"@ {
            if depth - 1 != 0 {
                lemma_branch_stop_range(lines, i + 1, fi, depth - 1, markers);
            }
        } else if !(depth == 1 && is_marker(l, markers)) {
            lemma_branch_stop_range(lines, i + 1, fi, depth, markers);
        }
    }
}

/// The markers that end an `if` branch.
pub open spec fn if_markers() -> Seq<Seq<char>> {
    seq!["elif"@, "else"@, "fi"@]
}

/// The branch whose header (`if` or `elif`, the keyword `kw`) is at line
/// `cursor`: its condition, first body line and end line, or the error text.
pub open spec fn branch_head(lines: Seq<String>, cursor: int, fi: int, kw: Seq<char>) -> Result<
    (Seq<char>, int, int),
    Seq<char>,
> {
    let cond = crate::script::condition_of(line_at(lines, cursor), kw);
    if cond.len() == 0 {
        Err(kw + " condition cannot be empty"@)
    } else {
        match then_start(lines, cursor, fi) {
            None => Err("if syntax expects 'then'"@),
            Some(b) => match branch_stop(lines, b, fi, 1, if_markers()) {
                None => Err("if branch termination not found"@),
                Some(e) => Ok((cond, b, e)),
            },
        }
    }
}

/// The branches and the `else` body of an `if` block, scanning from line
/// `cursor` to its `fi`, `nesting` levels deep.
pub open spec fn if_scan(lines: Seq<String>, cursor: int, fi: int, nesting: int) -> Result<
    (Seq<(Seq<char>, int, int)>, Option<(int, int)>),
    Seq<char>,
>
    decreases fi + 1 - cursor,
{
    if cursor > fi {
        Ok((Seq::empty(), None))
    } else {
        let l = line_at(lines, cursor);
        if has_prefix(l, "if "@) && nesting + 1 != 1 {
            if_scan(lines, cursor + 1, fi, nesting + 1)
        } else if (has_prefix(l, "if "@) && nesting + 1 == 1) || (!has_prefix(l, "if "@) && l
            != "fi"@ && nesting == 1 && has_prefix(l, "elif "@)) {
            let kw = if has_prefix(l, "if "@) {
                "if"@
            } else {
                "elif"@
            };
            let n = if has_prefix(l, "if "@) {
                nesting + 1
            } else {
                nesting
            };
            match branch_head(lines, cursor, fi, kw) {
                Err(e) => Err(e),
                Ok((cond, b, e)) => {
                    proof {
                        lemma_then_range(lines, cursor, fi);
                        lemma_branch_stop_range(lines, b, fi, 1, if_markers());
                    }
                    let next = if b > e {
                        b
                    } else {
                        e
                    };
                    match if_scan(lines, next, fi, n) {
                        Err(x) => Err(x),
                        Ok((bs, eb)) => Ok((seq![(cond, b, e)] + bs, eb)),
                    }
                },
            }
        } else if l == "fi"@ {
            if_scan(
                lines,
                cursor + 1,
                fi,
                if nesting > 0 {
                    nesting - 1
                } else {
                    0
                },
            )
        } else if nesting == 1 && l == "else"@ {
            Ok((Seq::empty(), Some((cursor + 1, fi))))
        } else {
            if_scan(lines, cursor + 1, fi, nesting)
        }
    }
}

/// An `if` block whose header is at line `start`: its branches (condition,
/// first body line, end line), its `else` body, and the line after its `fi`.
pub open spec fn if_block(lines: Seq<String>, start: int, end: int) -> Result<
    (Seq<(Seq<char>, int, int)>, Option<(int, int)>, int),
    Seq<char>,
> {
    match closing_index(lines, start + 1, end, 1, "if "@, "fi"@) {
        None => Err("if block missing 'fi'"@),
        Some(fi) => match if_scan(lines, start, fi, 0) {
            Err(e) => Err(e),
            Ok((bs, eb)) => Ok((bs, eb, fi + 1)),
        },
    }
}

/// One branch of an `if` block.
pub struct IfBranch {
    pub condition: String,
    pub body_start: usize,
    pub body_end: usize,
}

/// The structure of an `if` block: what the shell tests and runs.
pub struct IfPlan {
    pub branches: Vec<IfBranch>,
    /// The `else` body, from its first line to the `fi`.
    pub else_block: Option<(usize, usize)>,
    /// The line after the `fi`.
    pub next: usize,
}

pub open spec fn branch_views(s: Seq<IfBranch>) -> Seq<(Seq<char>, int, int)> {
    s.map_values(|b: IfBranch| (b.condition@, b.body_start as int, b.body_end as int))
}

pub open spec fn else_view(e: Option<(usize, usize)>) -> Option<(int, int)> {
    match e {
        Some((a, b)) => Some((a as int, b as int)),
        None => None,
    }
}

/// Finds where the body of the branch whose header is at line `start`
/// begins; the result is that line twice (where the body starts, and where
/// the scan goes on).
pub fn find_then_body_start(lines: &[String], start: usize, fi: usize) -> (r: Result<(usize, usize), String>)
    requires
        start <= fi < lines@.len() < usize::MAX,
    ensures
        match r {
            Ok((b, n)) => then_start(lines@, start as int, fi as int) == Some(b as int) && n == b,
            Err(e) => then_start(lines@, start as int, fi as int) is None && e@ == "if syntax expects 'then'"@,
        },
{
    let header = norm_at(lines, start);
    if str_ends_with(header.as_str(), "; then") || str_ends_with(header.as_str(), " then") {
        return Ok((start + 1, start + 1));
    }
    let mut i = start + 1;
    while i <= fi
        invariant
            start + 1 <= i <= fi + 1,
            fi < lines@.len() < usize::MAX,
            then_start(lines@, start as int, fi as int) == then_scan(lines@, start + 1, fi as int),
            then_scan(lines@, start + 1, fi as int) == then_scan(lines@, i as int, fi as int),
        decreases fi + 1 - i,
    {
        let line = norm_at(lines, i);
        if str_eq(line.as_str(), "then") {
            assert(then_scan(lines@, i as int, fi as int) == Some(i + 1));
            return Ok((i + 1, i + 1));
        }
        i += 1;
    }
    Err(owned("if syntax expects 'then'"))
}

fn marker_line(line: &str, markers: &[&str]) -> (r: bool)
    ensures
        r == is_marker(line@, markers@.map_values(|m: &str| m@)),
{
    let ghost ms = markers@.map_values(|m: &str| m@);
    let lv = chars_of(line);
    let mut k: usize = 0;
    while k < markers.len()
        invariant
            k <= markers@.len(),
            ms == markers@.map_values(|m: &str| m@),
            lv@ == line@,
            forall|j: int| 0 <= j < k ==> !(line@ == #[trigger] ms[j] || has_prefix(line@, ms[j] + " "@)),
        decreases markers.len() - k,
    {
        let m = markers[k];
        let mut mv = chars_of(m);
        mv.push(' ');
        proof {
            reveal_strlit(" ");
            assert(mv@ =~= ms[k as int] + " "@);
        }
        if str_eq(line, m) || crate::text::starts_with(&lv, &mv) {
            return true;
        }
        k += 1;
    }
    false
}

/// Finds the line that ends the branch body starting at line `start`: the
/// block's `fi`, or a line at the branch's level that is one of `markers`
/// (alone or followed by a space).
pub fn find_if_branch_end(lines: &[String], start: usize, fi: usize, markers: &[&str]) -> (r: Result<usize, String>)
    requires
        start <= fi + 1,
        fi < lines@.len() < usize::MAX,
    ensures
        match r {
            Ok(e) => branch_stop(lines@, start as int, fi as int, 1, markers@.map_values(|m: &str| m@)) == Some(e as int),
            Err(e) => branch_stop(lines@, start as int, fi as int, 1, markers@.map_values(|m: &str| m@)) is None
                && e@ == "if branch termination not found"@,
        },
{
    let ghost ms = markers@.map_values(|m: &str| m@);
    let mut depth: usize = 1;
    let mut i = start;
    while i <= fi
        invariant
            start <= i <= fi + 1,
            fi < lines@.len() < usize::MAX,
            1 <= depth <= i - start + 1,
            ms == markers@.map_values(|m: &str| m@),
            branch_stop(lines@, start as int, fi as int, 1, ms) == branch_stop(
                lines@,
                i as int,
                fi as int,
                depth as int,
                ms,
            ),
        decreases fi + 1 - i,
    {
        let line = norm_at(lines, i);
        if str_starts_with(line.as_str(), "if ") {
            depth += 1;
        } else if str_eq(line.as_str(), "fi") {
            depth -= 1;
            if depth == 0 {
                return Ok(i);
            }
        } else if depth == 1 && marker_line(line.as_str(), markers) {
            return Ok(i);
        }
        i += 1;
    }
    Err(owned("if branch termination not found"))
}

pub open spec fn prepend(
    out: Seq<(Seq<char>, int, int)>,
    r: Result<(Seq<(Seq<char>, int, int)>, Option<(int, int)>), Seq<char>>,
) -> Result<(Seq<(Seq<char>, int, int)>, Option<(int, int)>), Seq<char>> {
    match r {
        Ok((bs, eb)) => Ok((out + bs, eb)),
        Err(e) => Err(e),
    }
}

/// Reads the structure of the `if` block whose header is at line `start`,
/// looking no further than line `end`: its branches with their conditions
/// and bodies, its `else` body, and the line after its `fi`.
#[verifier::spinoff_prover]
pub fn if_block_plan(lines: &[String], start: usize, end: usize) -> (r: Result<IfPlan, String>)
    requires
        start < end <= lines@.len() < usize::MAX,
        has_prefix(line_at(lines@, start as int), "if "@),
    ensures
        match (r, if_block(lines@, start as int, end as int)) {
            (Ok(p), Ok((bs, eb, next))) => branch_views(p.branches@) == bs && else_view(p.else_block)
                == eb && p.next == next,
            (Err(e), Err(se)) => e@ == se,
            _ => false,
        },
{
    let fi = match find_closing(lines, start + 1, end, "if ", "fi") {
        Some(k) => k,
        None => {
            return Err(owned("if block missing 'fi'"));
        },
    };
    let markers: [&str; 3] = ["elif", "else", "fi"];
    let ms = markers.as_slice();
    proof {
        assert(ms@.map_values(|m: &str| m@) =~= if_markers());
    }
    let ghost total = if_scan(lines@, start as int, fi as int, 0);
    let mut branches: Vec<IfBranch> = Vec::new();
    let mut else_block: Option<(usize, usize)> = None;
    let mut cursor = start;
    let mut nesting: usize = 0;
    while cursor <= fi
        invariant
            start <= cursor <= fi + 1,
            fi < end <= lines@.len() < usize::MAX,
            nesting <= cursor - start,
            ms@.map_values(|m: &str| m@) == if_markers(),
            total == if_scan(lines@, start as int, fi as int, 0),
            closing_index(lines@, start + 1, end as int, 1, "if "@, "fi"@) == Some(fi as int),
            else_block is None,
            prepend(branch_views(branches@), if_scan(lines@, cursor as int, fi as int, nesting as int))
                == total,
        decreases fi + 1 - cursor,
    {
        let line = norm_at(lines, cursor);
        let is_if = str_starts_with(line.as_str(), "if ");
        let is_fi = str_eq(line.as_str(), "fi");
        let is_elif = str_starts_with(line.as_str(), "elif ");
        if (is_if && nesting == 0) || (!is_if && !is_fi && nesting == 1 && is_elif) {
            let kw = if is_if { "if" } else { "elif" };
            let ghost kwv: Seq<char> = if is_if { "if"@ } else { "elif"@ };
            assert(kw@ == kwv);
            let cond = match crate::script::extract_if_condition(line.as_str(), kw) {
                Ok(c) => c,
                Err(e) => {
                    assert(branch_head(lines@, cursor as int, fi as int, kwv) == Err::<(Seq<char>, int, int), Seq<char>>(e@));
                    assert(if_scan(lines@, cursor as int, fi as int, nesting as int) == Err::<(Seq<(Seq<char>, int, int)>, Option<(int, int)>), Seq<char>>(e@));
                    assert(total == Err::<(Seq<(Seq<char>, int, int)>, Option<(int, int)>), Seq<char>>(e@));
                    return Err(e);
                },
            };
            let (body_start, _next) = match find_then_body_start(lines, cursor, fi) {
                Ok(p) => p,
                Err(e) => {
                    assert(branch_head(lines@, cursor as int, fi as int, kwv) == Err::<(Seq<char>, int, int), Seq<char>>(e@));
                    assert(if_scan(lines@, cursor as int, fi as int, nesting as int) == Err::<(Seq<(Seq<char>, int, int)>, Option<(int, int)>), Seq<char>>(e@));
                    assert(total == Err::<(Seq<(Seq<char>, int, int)>, Option<(int, int)>), Seq<char>>(e@));
                    return Err(e);
                },
            };
            proof {
                lemma_then_range(lines@, cursor as int, fi as int);
            }
            let body_end = match find_if_branch_end(lines, body_start, fi, ms) {
                Ok(e) => e,
                Err(e) => {
                    assert(branch_head(lines@, cursor as int, fi as int, kwv) == Err::<(Seq<char>, int, int), Seq<char>>(e@));
                    assert(if_scan(lines@, cursor as int, fi as int, nesting as int) == Err::<(Seq<(Seq<char>, int, int)>, Option<(int, int)>), Seq<char>>(e@));
                    assert(total == Err::<(Seq<(Seq<char>, int, int)>, Option<(int, int)>), Seq<char>>(e@));
                    return Err(e);
                },
            };
            proof {
                lemma_branch_stop_range(lines@, body_start as int, fi as int, 1, if_markers());
            }
            let ghost before = branch_views(branches@);
            let b = IfBranch { condition: cond, body_start, body_end };
            branches.push(b);
            assert(branch_views(branches@) =~= before + seq![(b.condition@, body_start as int, body_end as int)]);
            let ghost old_cursor = cursor as int;
            let ghost old_nesting = nesting as int;
            let ghost x = (cond@, body_start as int, body_end as int);
            assert(branch_head(lines@, old_cursor, fi as int, kwv) == Ok::<(Seq<char>, int, int), Seq<char>>(x));
            if is_if {
                nesting = nesting + 1;
            }
            cursor = if body_start > body_end { body_start } else { body_end };
            proof {
                let rest = if_scan(lines@, cursor as int, fi as int, nesting as int);
                assert(if_scan(lines@, old_cursor, fi as int, old_nesting) == prepend(seq![x], rest));
                match rest {
                    Ok((bs, eb)) => {
                        assert(before + seq![x] + bs =~= before + (seq![x] + bs));
                    },
                    Err(_) => {},
                }
            }
            continue;
        }
        if is_if {
            nesting = nesting + 1;
        } else if is_fi {
            if nesting > 0 {
                nesting = nesting - 1;
            }
        } else if nesting == 1 && str_eq(line.as_str(), "else") {
            else_block = Some((cursor + 1, fi));
            return Ok(IfPlan { branches, else_block, next: fi + 1 });
        }
        cursor += 1;
    }
    assert(branch_views(branches@) + Seq::<(Seq<char>, int, int)>::empty() =~= branch_views(branches@));
    Ok(IfPlan { branches, else_block, next: fi + 1 })
}

/// What the `case` block at line `start` runs: its word expanded with the
/// script's variables, trimmed and unquoted, picks the branch.
pub open spec fn case_run(
    lines: Seq<String>,
    start: int,
    end: int,
    pos: Seq<Seq<char>>,
    locals: Seq<(String, String)>,
    env: Seq<(String, ArrayValue)>,
) -> Result<(Seq<Seq<char>>, int), Seq<char>> {
    match case_word_of(line_at(lines, start)) {
        Err(e) => Err(e),
        Ok(w) => case_block(
            lines,
            start,
            end,
            unquoted(trim_ws(expand_from(w, 0, pos, locals, env))),
        ),
    }
}

/// The commands that the `case` block at line `start` runs, in order, and
/// the line after its `esac`; the word is expanded with the script's
/// positional parameters and locals and the shell variables `env`.
pub fn case_block_commands(
    lines: &[String],
    start: usize,
    end: usize,
    state: &ScriptState,
    env: &[(String, ArrayValue)],
) -> (r: Result<(Vec<String>, usize), String>)
    requires
        start < end <= lines@.len() < usize::MAX,
    ensures
        match (r, case_run(lines@, start as int, end as int, views(state.positional@), state.locals@, env@)) {
            (Ok((cmds, next)), Ok((scmds, snext))) => views(cmds@) == scmds && next == snext,
            (Err(e), Err(se)) => e@ == se,
            _ => false,
        },
{
    let word_expr = match case_header_word(lines, start) {
        Ok(w) => w,
        Err(e) => {
            return Err(e);
        },
    };
    let expanded = expand_script_vars(word_expr.as_str(), state, env);
    let trimmed = trim_str(expanded.as_str());
    let word = strip_quotes(trimmed.as_str());
    case_plan(lines, start, end, word.as_str())
}

/// What a script line is, once normalized.
#[derive(Debug, Clone, PartialEq, Eq)]
pub enum LineKind {
    /// Empty or a comment.
    Skip,
    Break,
    Continue,
    /// The header of a `while` block.
    While,
    /// The header of an `if` block.
    If,
    /// The header of a `case` block.
    Case,
    /// The header `name() {` of a function definition.
    Function(String),
    /// Any other line, to run as it is.
    Simple(String),
}

/// The view of a line kind, its strings taken as text.
pub enum LineKindView {
    Skip,
    Break,
    Continue,
    While,
    If,
    Case,
    Function(Seq<char>),
    Simple(Seq<char>),
}

impl LineKind {
    pub open spec fn view(&self) -> LineKindView {
        match self {
            LineKind::Skip => LineKindView::Skip,
            LineKind::Break => LineKindView::Break,
            LineKind::Continue => LineKindView::Continue,
            LineKind::While => LineKindView::While,
            LineKind::If => LineKindView::If,
            LineKind::Case => LineKindView::Case,
            LineKind::Function(n) => LineKindView::Function(n@),
            LineKind::Simple(l) => LineKindView::Simple(l@),
        }
    }
}

/// The kind of the normalized line `l`.
pub open spec fn line_kind(l: Seq<char>) -> LineKindView {
    if l.len() == 0 || has_prefix(l, "#"@) {
        LineKindView::Skip
    } else if l == "break"@ {
        LineKindView::Break
    } else if l == "continue"@ {
        LineKindView::Continue
    } else if has_prefix(l, "while "@) {
        LineKindView::While
    } else if has_prefix(l, "if "@) {
        LineKindView::If
    } else if has_prefix(l, "case "@) {
        LineKindView::Case
    } else {
        match function_header(l) {
            Some(n) => LineKindView::Function(n),
            None => LineKindView::Simple(l),
        }
    }
}

/// The kind of line `i` of a script.
pub fn script_line_kind(lines: &[String], i: usize) -> (r: LineKind)
    requires
        i < lines@.len(),
    ensures
        r.view() == line_kind(line_at(lines@, i as int)),
{
    let line = norm_at(lines, i);
    let l = line.as_str();
    if l.unicode_len() == 0 || str_starts_with(l, "#") {
        return LineKind::Skip;
    }
    if str_eq(l, "break") {
        return LineKind::Break;
    }
    if str_eq(l, "continue") {
        return LineKind::Continue;
    }
    if str_starts_with(l, "while ") {
        return LineKind::While;
    }
    if str_starts_with(l, "if ") {
        return LineKind::If;
    }
    if str_starts_with(l, "case ") {
        return LineKind::Case;
    }
    match parse_function_header(l) {
        Some(n) => LineKind::Function(n),
        None => LineKind::Simple(line),
    }
}

/// The body of a function definition from line `c` on, `depth` braces
/// deep, collected into `body`: every line up to the `}` that closes it; a
/// line ending with `{` opens a brace, a line `}` closes one.
pub open spec fn function_block(
    lines: Seq<String>,
    c: int,
    end: int,
    depth: int,
    body: Seq<Seq<char>>,
) -> Result<(Seq<Seq<char>>, int), Seq<char>>
    decreases end - c,
{
    if c >= end {
        Err("function block missing '}'"@)
    } else {
        let l = line_at(lines, c);
        if has_suffix(l, "{"@) {
            function_block(lines, c + 1, end, depth + 1, body.push(l))
        } else if l == "}"@ {
            if depth - 1 == 0 {
                Ok((body, c + 1))
            } else {
                function_block(lines, c + 1, end, depth - 1, body.push(l))
            }
        } else {
            function_block(lines, c + 1, end, depth, body.push(l))
        }
    }
}

/// Reads the body of the function whose header is at line `start`: its
/// lines (normalized) up to the closing `}`, and the line after it.
pub fn read_function_block(lines: &[String], start: usize, end: usize) -> (r: Result<(Vec<String>, usize), String>)
    requires
        start < lines@.len() < usize::MAX,
        end <= lines@.len(),
    ensures
        match (r, function_block(lines@, start + 1, end as int, 1, Seq::empty())) {
            (Ok((b, n)), Ok((sb, sn))) => views(b@) == sb && n == sn,
            (Err(e), Err(se)) => e@ == se,
            _ => false,
        },
{
    let mut depth: usize = 1;
    let mut cursor = start + 1;
    let mut body: Vec<String> = Vec::new();
    assert(views(body@) =~= Seq::<Seq<char>>::empty());
    while cursor < end
        invariant
            start + 1 <= cursor,
            end <= lines@.len() < usize::MAX,
            1 <= depth <= cursor - start,
            function_block(lines@, start + 1, end as int, 1, Seq::empty()) == function_block(
                lines@,
                cursor as int,
                end as int,
                depth as int,
                views(body@),
            ),
        decreases end - cursor,
    {
        let line = norm_at(lines, cursor);
        let ghost lv = line@;
        if str_ends_with(line.as_str(), "{") {
            depth += 1;
        } else if str_eq(line.as_str(), "}") {
            depth -= 1;
            if depth == 0 {
                return Ok((body, cursor + 1));
            }
        }
        let ghost before = views(body@);
        body.push(line);
        assert(views(body@) =~= before.push(lv));
        cursor += 1;
    }
    Err(owned("function block missing '}'"))
}

/// What a simple script line leads to, once its assignments are made.
pub enum SimpleAction {
    /// Nothing more to do.
    Done,
    /// Run the body of a script function.
    RunFunction(Vec<String>),
    /// Run a shell command line.
    RunCommand(String),
}

/// The number of leading assignment tokens among `ws[i..]`.
pub open spec fn assignments_end(ws: Seq<Seq<char>>, i: int) -> int
    decreases ws.len() - i,
{
    if i < 0 || i >= ws.len() || !assignment_token(ws[i]) {
        i
    } else {
        assignments_end(ws, i + 1)
    }
}

/// The variable and value of an assignment token `NAME=value`: the value
/// with its quote characters removed, and a `PATH` (in any ASCII case)
/// turned into the Windows list form when `on_windows`.
pub open spec fn assignment_of(tok: Seq<char>, on_windows: bool) -> (Seq<char>, Seq<char>) {
    let k = match first_index(tok, '=') {
        Some(k) => k,
        None => tok.len() as int,
    };
    let key = tok.subrange(0, k);
    let raw = if k < tok.len() {
        tok.subrange(k + 1, tok.len() as int)
    } else {
        Seq::empty()
    };
    let v = dequote_scan(raw, false, false);
    (key, if ascii_lower_text(key) == "path"@ && on_windows {
        windows_path_list(v)
    } else {
        v
    })
}

/// The assignments of `ws[0..k]`, in order.
pub open spec fn assignments(ws: Seq<Seq<char>>, k: int, on_windows: bool) -> Seq<(Seq<char>, Seq<char>)> {
    Seq::new(k as nat, |i: int| assignment_of(ws[i], on_windows))
}

/// The value the last of `a` assigns to `n`, if any does.
pub open spec fn last_assigned(a: Seq<(Seq<char>, Seq<char>)>, n: Seq<char>) -> Option<Seq<char>>
    decreases a.len(),
{
    if a.len() == 0 {
        None
    } else if a.last().0 == n {
        Some(a.last().1)
    } else {
        last_assigned(a.drop_last(), n)
    }
}

pub open spec fn pair_views(s: Seq<(String, String)>) -> Seq<(Seq<char>, Seq<char>)> {
    s.map_values(|p: (String, String)| (p.0@, p.1@))
}

/// The words after expansion of an ordinary simple line.
pub open spec fn simple_words(line: Seq<char>, pos: Seq<Seq<char>>, locals: Seq<(String, String)>, env: Seq<(String, ArrayValue)>) -> Seq<Seq<char>> {
    words(expand_from(trim_ws(line), 0, pos, locals, env))
}

/// The count that `shift [n]` shifts by: `n` when it is a valid count, else 1.
pub open spec fn shift_count(t: Seq<char>) -> int {
    let ws = words(t);
    if ws.len() > 1 {
        match parse_unsigned(ws[1], usize::MAX as int) {
            Some(n) => n,
            None => 1,
        }
    } else {
        1
    }
}

fn join_words(ws: &Vec<Vec<char>>, from: usize) -> (r: String)
    requires
        from <= ws@.len(),
    ensures
        r@ == spaced(vviews(ws@).subrange(from as int, ws@.len() as int)),
{
    let mut parts: Vec<String> = Vec::new();
    let mut i = from;
    while i < ws.len()
        invariant
            from <= i <= ws@.len(),
            views(parts@) == vviews(ws@).subrange(from as int, i as int),
        decreases ws.len() - i,
    {
        let ghost before = views(parts@);
        let w = string_of(&ws[i]);
        assert(vviews(ws@)[i as int] == ws@[i as int]@);
        parts.push(w);
        assert(views(parts@) =~= before.push(w@));
        assert(vviews(ws@).subrange(from as int, i + 1) =~= vviews(ws@).subrange(from as int, i as int).push(vviews(ws@)[i as int]));
        i += 1;
    }
    join_spaced(parts.as_slice())
}

/// Runs the bookkeeping of a simple script line: `unset -f NAME` forgets a
/// function, `shift [n]` shifts the positional parameters; otherwise the
/// line is expanded, its leading `NAME=value` words become locals (and are
/// returned, in order, for the shell's variables), and what remains is a
/// function to run or a command line.
#[verifier::spinoff_prover]
#[verifier::rlimit(40)]
pub fn script_simple_line(
    line: &str,
    state: &mut ScriptState,
    env: &[(String, ArrayValue)],
    on_windows: bool,
) -> (r: (Vec<(String, String)>, SimpleAction))
    ensures
        ({
            let t = trim_ws(line@);
            if has_prefix(t, "unset -f "@) {
                &&& r.0@.len() == 0
                &&& r.1 is Done
                &&& final(state).positional@ == old(state).positional@
                &&& final(state).locals@ == old(state).locals@
                &&& (words(t).len() > 2 ==> function_body(final(state).functions@, words(t)[2]) is None)
                &&& forall|n: Seq<char>| (words(t).len() <= 2 || n != words(t)[2]) ==> function_body(
                    final(state).functions@,
                    n,
                ) == function_body(old(state).functions@, n)
            } else if has_prefix(t, "shift"@) {
                &&& r.0@.len() == 0
                &&& r.1 is Done
                &&& final(state).positional@ == (if shift_count(t) >= old(state).positional@.len() {
                    Seq::<String>::empty()
                } else {
                    old(state).positional@.subrange(shift_count(t), old(state).positional@.len() as int)
                })
                &&& final(state).locals@ == old(state).locals@
                &&& final(state).functions@ == old(state).functions@
            } else {
                let ws = simple_words(line@, views(old(state).positional@), old(state).locals@, env@);
                let k = assignments_end(ws, 0);
                let a = assignments(ws, k, on_windows);
                &&& pair_views(r.0@) == a
                &&& final(state).positional@ == old(state).positional@
                &&& final(state).functions@ == old(state).functions@
                &&& forall|n: Seq<char>| #[trigger] local_value(final(state).locals@, n) == match last_assigned(a, n) {
                    Some(v) => Some(v),
                    None => local_value(old(state).locals@, n),
                }
                &&& if k >= ws.len() {
                    r.1 is Done
                } else {
                    match function_body(old(state).functions@, ws[k]) {
                        Some(b) => r.1 matches SimpleAction::RunFunction(fb) && views(fb@) == b,
                        None => r.1 matches SimpleAction::RunCommand(c) && c@ == spaced(ws.subrange(k, ws.len() as int)),
                    }
                }
            }
        }),
{
    let lv = chars_of(line);
    let tv = trim_chars(&lv, TrimSet::Whitespace);
    let t = string_of(&tv);
    if str_starts_with(t.as_str(), "unset -f ") {
        let parts = split_whitespace_chars(&tv);
        if parts.len() > 2 {
            let name = string_of(&parts[2]);
            assert(name@ == words(t@)[2]);
            state.remove_function(name.as_str());
        }
        return (Vec::new(), SimpleAction::Done);
    }
    if str_starts_with(t.as_str(), "shift") {
        let parts = split_whitespace_chars(&tv);
        let n: usize = if parts.len() > 1 {
            assert(parts@[1]@.subrange(0, parts@[1]@.len() as int) =~= parts@[1]@);
            match parse_unsigned_chars(&parts[1], 0, parts[1].len(), usize::MAX as u64) {
                Some(x) => x as usize,
                None => 1,
            }
        } else {
            1
        };
        assert(n == shift_count(t@));
        state.shift(n);
        return (Vec::new(), SimpleAction::Done);
    }
    let ghost pos = views(state.positional@);
    let ghost old_locals = state.locals@;
    let expanded = expand_script_vars(t.as_str(), state, env);
    let ev = chars_of(expanded.as_str());
    let ws = split_whitespace_chars(&ev);
    let ghost wsv = vviews(ws@);
    let mut out: Vec<(String, String)> = Vec::new();
    let mut idx: usize = 0;
    let ghost k = assignments_end(wsv, 0);
    proof {
        lemma_assignments_end(wsv, 0);
    }
    while idx < ws.len() && is_assignment_token(string_of(&ws[idx]).as_str())
        invariant
            idx <= ws@.len(),
            wsv == vviews(ws@),
            k == assignments_end(wsv, 0),
            assignments_end(wsv, idx as int) == k,
            idx <= k,
            pair_views(out@) == assignments(wsv, idx as int, on_windows),
            state.positional@ == old(state).positional@,
            state.functions@ == old(state).functions@,
            forall|n: Seq<char>| #[trigger] local_value(state.locals@, n) == match last_assigned(
                assignments(wsv, idx as int, on_windows),
                n,
            ) {
                Some(v) => Some(v),
                None => local_value(old_locals, n),
            },
            old_locals == old(state).locals@,
        decreases ws.len() - idx,
    {
        let tok = &ws[idx];
        let eq = match find_char_from(tok, '=', 0) {
            Some(e) => e,
            None => tok.len(),
        };
        proof {
            if eq < tok@.len() {
                lemma_first_index_at(tok@, '=', eq as int);
            } else {
                lemma_first_index_none(tok@, '=');
            }
        }
        let key = string_of_range(tok, 0, eq);
        let raw = if eq < tok.len() {
            string_of_range(tok, eq + 1, tok.len())
        } else {
            String::new()
        };
        let mut value = normalize_assignment_value(raw.as_str());
        let lower = ascii_lowercase_chars(key.as_str());
        let path = chars_of("path");
        if chars_eq(&lower, &path) {
            value = normalize_path_list_for_windows(value.as_str(), on_windows);
        }
        assert(wsv[idx as int] == tok@);
        assert((key@, value@) == assignment_of(wsv[idx as int], on_windows));
        let ghost before = pair_views(out@);
        let ghost prev = assignments(wsv, idx as int, on_windows);
        let ghost next = assignments(wsv, idx + 1, on_windows);
        assert(next.drop_last() =~= prev);
        assert(next.last() == (key@, value@));
        let local_key = owned(key.as_str());
        let local_val = owned(value.as_str());
        state.set_local(local_key, local_val);
        out.push((key, value));
        assert(pair_views(out@) =~= before.push((key@, value@)));
        proof {
            lemma_assignments_end(wsv, idx + 1);
        }
        idx += 1;
    }
    proof {
        if idx < ws@.len() {
            assert(!assignment_token(wsv[idx as int]));
        }
    }
    if idx >= ws.len() {
        return (out, SimpleAction::Done);
    }
    let name = string_of(&ws[idx]);
    match state.function(name.as_str()) {
        Some(body) => (out, SimpleAction::RunFunction(body)),
        None => {
            let command = join_words(&ws, idx);
            (out, SimpleAction::RunCommand(command))
        },
    }
}

pub proof fn lemma_assignments_end(ws: Seq<Seq<char>>, i: int)
    requires
        0 <= i <= ws.len(),
    ensures
        i <= assignments_end(ws, i) <= ws.len(),
        assignments_end(ws, i) < ws.len() ==> !assignment_token(ws[assignments_end(ws, i)]),
    decreases ws.len() - i,
{
    if i < ws.len() && assignment_token(ws[i]) {
        lemma_assignments_end(ws, i + 1);
    }
}

} // verus!
