//! Character-level helpers shared by the parsers of this crate: conversion
//! between strings and character vectors, trimming, prefix/suffix tests and
//! ASCII character classes, each with the mathematical statement it meets.
use vstd::prelude::*;

verus! {

/// Appends one character to a `String` (std's `String::push`).
#[verifier::external_body]
pub fn push_char(s: &mut String, c: char)
    ensures
        final(s)@ == old(s)@.push(c),
{
    s.push(c);
}

/// The characters of `s`, in order.
pub fn chars_of(s: &str) -> (v: Vec<char>)
    ensures
        v@ == s@,
{
    let n = s.unicode_len();
    let mut v: Vec<char> = Vec::new();
    let mut i: usize = 0;
    while i < n
        invariant
            n == s@.len(),
            i <= n,
            v@ == s@.subrange(0, i as int),
        decreases n - i,
    {
        let c = s.get_char(i);
        v.push(c);
        i = i + 1;
    }
    v
}

/// A vector holding exactly the characters of `v`.
pub fn chars_of_slice(v: &[char]) -> (r: Vec<char>)
    ensures
        r@ == v@,
{
    let mut r: Vec<char> = Vec::new();
    let mut i: usize = 0;
    while i < v.len()
        invariant
            i <= v.len(),
            r@ == v@.subrange(0, i as int),
        decreases v.len() - i,
    {
        r.push(v[i]);
        i = i + 1;
    }
    assert(r@ =~= v@);
    r
}

/// A `String` holding exactly the characters of `v`.
pub fn string_of(v: &[char]) -> (s: String)
    ensures
        s@ == v@,
{
    let mut s = String::new();
    let mut i: usize = 0;
    while i < v.len()
        invariant
            i <= v.len(),
            s@ == v@.subrange(0, i as int),
        decreases v.len() - i,
    {
        push_char(&mut s, v[i]);
        i = i + 1;
    }
    s
}

/// A `String` holding the characters `v[from..to]`.
pub fn string_of_range(v: &[char], from: usize, to: usize) -> (s: String)
    requires
        from <= to <= v@.len(),
    ensures
        s@ == v@.subrange(from as int, to as int),
{
    let mut s = String::new();
    let mut i: usize = from;
    while i < to
        invariant
            from <= i <= to <= v@.len(),
            s@ == v@.subrange(from as int, i as int),
        decreases to - i,
    {
        push_char(&mut s, v[i]);
        i = i + 1;
    }
    s
}

/// A copy of a string slice as an owned `String`.
pub fn owned(s: &str) -> (r: String)
    ensures
        r@ == s@,
{
    String::from_str(s)
}

/// Appends `b` to the characters of `a`.
pub fn concat(a: String, b: &str) -> (r: String)
    ensures
        r@ == a@ + b@,
{
    a.concat(b)
}

/// Whether two string slices hold the same characters.
pub fn str_eq(a: &str, b: &str) -> (r: bool)
    ensures
        r == (a@ == b@),
{
    let va = chars_of(a);
    let vb = chars_of(b);
    chars_eq(&va, &vb)
}

/// Whether two character slices are equal.
pub fn chars_eq(a: &[char], b: &[char]) -> (r: bool)
    ensures
        r == (a@ == b@),
{
    if a.len() != b.len() {
        return false;
    }
    let mut i: usize = 0;
    while i < a.len()
        invariant
            a@.len() == b@.len(),
            i <= a@.len(),
            forall|j: int| 0 <= j < i ==> a@[j] == b@[j],
        decreases a.len() - i,
    {
        if a[i] != b[i] {
            return false;
        }
        i = i + 1;
    }
    assert(a@ =~= b@);
    true
}

/// `p` is a prefix of `s`.
pub open spec fn has_prefix(s: Seq<char>, p: Seq<char>) -> bool {
    p.len() <= s.len() && s.subrange(0, p.len() as int) == p
}

/// `p` is a suffix of `s`.
pub open spec fn has_suffix(s: Seq<char>, p: Seq<char>) -> bool {
    p.len() <= s.len() && s.subrange(s.len() - p.len(), s.len() as int) == p
}

/// Whether `p` is a prefix of `s`.
pub fn starts_with(s: &[char], p: &[char]) -> (r: bool)
    ensures
        r == has_prefix(s@, p@),
{
    if p.len() > s.len() {
        return false;
    }
    let mut i: usize = 0;
    while i < p.len()
        invariant
            p@.len() <= s@.len(),
            i <= p@.len(),
            forall|j: int| 0 <= j < i ==> s@[j] == p@[j],
        decreases p.len() - i,
    {
        if s[i] != p[i] {
            assert(s@.subrange(0, p@.len() as int)[i as int] != p@[i as int]);
            return false;
        }
        i = i + 1;
    }
    assert(s@.subrange(0, p@.len() as int) =~= p@);
    true
}

/// Whether `p` is a suffix of `s`.
pub fn ends_with(s: &[char], p: &[char]) -> (r: bool)
    ensures
        r == has_suffix(s@, p@),
{
    if p.len() > s.len() {
        return false;
    }
    let off = s.len() - p.len();
    let mut i: usize = 0;
    while i < p.len()
        invariant
            p@.len() <= s@.len(),
            off + p@.len() == s.len(),
            i <= p@.len(),
            forall|j: int| 0 <= j < i ==> s@[off + j] == p@[j],
        decreases p.len() - i,
    {
        if s[off + i] != p[i] {
            assert(s@.subrange(off as int, s@.len() as int)[i as int] != p@[i as int]);
            return false;
        }
        i = i + 1;
    }
    assert(s@.subrange(off as int, s@.len() as int) =~= p@);
    true
}

/// Whether the string `s` starts with the string `p`.
pub fn str_starts_with(s: &str, p: &str) -> (r: bool)
    ensures
        r == has_prefix(s@, p@),
{
    let vs = chars_of(s);
    let vp = chars_of(p);
    starts_with(&vs, &vp)
}

/// Whether the string `s` ends with the string `p`.
pub fn str_ends_with(s: &str, p: &str) -> (r: bool)
    ensures
        r == has_suffix(s@, p@),
{
    let vs = chars_of(s);
    let vp = chars_of(p);
    ends_with(&vs, &vp)
}

/// `c` occurs in `s`.
pub open spec fn has_char(s: Seq<char>, c: char) -> bool {
    exists|i: int| 0 <= i < s.len() && s[i] == c
}

/// Index of the first occurrence of `c` in `s`, if any.
pub open spec fn first_index(s: Seq<char>, c: char) -> Option<int>
    decreases s.len(),
{
    if s.len() == 0 {
        None
    } else if s[0] == c {
        Some(0)
    } else {
        match first_index(s.drop_first(), c) {
            Some(i) => Some(i + 1),
            None => None,
        }
    }
}

/// What `first_index` means.
pub proof fn lemma_first_index(s: Seq<char>, c: char)
    ensures
        match first_index(s, c) {
            Some(i) => 0 <= i < s.len() && s[i] == c && forall|j: int| 0 <= j < i ==> s[j] != c,
            None => forall|j: int| 0 <= j < s.len() ==> s[j] != c,
        },
    decreases s.len(),
{
    if s.len() > 0 && s[0] != c {
        lemma_first_index(s.drop_first(), c);
        match first_index(s.drop_first(), c) {
            Some(i) => {
                assert forall|j: int| 0 <= j < i + 1 implies s[j] != c by {
                    if j > 0 {
                        assert(s[j] == s.drop_first()[j - 1]);
                    }
                }
            },
            None => {
                assert forall|j: int| 0 <= j < s.len() implies s[j] != c by {
                    if j > 0 {
                        assert(s[j] == s.drop_first()[j - 1]);
                    }
                }
            },
        }
    }
}

/// Position of the first `c` in `v[from..]`, if any.
pub fn find_char_from(v: &[char], c: char, from: usize) -> (r: Option<usize>)
    requires
        from <= v@.len(),
    ensures
        match r {
            Some(i) => from <= i < v@.len() && v@[i as int] == c && forall|j: int|
                from <= j < i ==> v@[j] != c,
            None => forall|j: int| from <= j < v@.len() ==> v@[j] != c,
        },
{
    let mut i: usize = from;
    while i < v.len()
        invariant
            from <= i <= v@.len(),
            forall|j: int| from <= j < i ==> v@[j] != c,
        decreases v.len() - i,
    {
        if v[i] == c {
            return Some(i);
        }
        i = i + 1;
    }
    None
}

/// Whether `c` occurs in `v`.
pub fn contains_char(v: &[char], c: char) -> (r: bool)
    ensures
        r == has_char(v@, c),
{
    match find_char_from(v, c, 0) {
        Some(i) => {
            assert(v@[i as int] == c);
            true
        },
        None => false,
    }
}

/// Unicode `White_Space`, the set that std's `char::is_whitespace` tests.
pub open spec fn is_ws(c: char) -> bool {
    ||| ('\u{9}' <= c && c <= '\u{d}')
    ||| c == ' '
    ||| c == '\u{85}'
    ||| c == '\u{a0}'
    ||| c == '\u{1680}'
    ||| ('\u{2000}' <= c && c <= '\u{200a}')
    ||| c == '\u{2028}'
    ||| c == '\u{2029}'
    ||| c == '\u{202f}'
    ||| c == '\u{205f}'
    ||| c == '\u{3000}'
}

/// Whether `c` is Unicode white space.
pub fn is_whitespace(c: char) -> (r: bool)
    ensures
        r == is_ws(c),
{
    ('\u{9}' <= c && c <= '\u{d}') || c == ' ' || c == '\u{85}' || c == '\u{a0}' || c
        == '\u{1680}' || ('\u{2000}' <= c && c <= '\u{200a}') || c == '\u{2028}' || c
        == '\u{2029}' || c == '\u{202f}' || c == '\u{205f}' || c == '\u{3000}'
}

/// An ASCII decimal digit.
pub open spec fn is_digit(c: char) -> bool {
    '0' <= c && c <= '9'
}

/// An ASCII letter.
pub open spec fn is_alpha(c: char) -> bool {
    ('a' <= c && c <= 'z') || ('A' <= c && c <= 'Z')
}

/// An ASCII letter or digit.
pub open spec fn is_alnum(c: char) -> bool {
    is_alpha(c) || is_digit(c)
}

/// An ASCII upper-case letter.
pub open spec fn is_upper(c: char) -> bool {
    'A' <= c && c <= 'Z'
}

/// Whether `c` is an ASCII digit.
pub fn ascii_digit(c: char) -> (r: bool)
    ensures
        r == is_digit(c),
{
    '0' <= c && c <= '9'
}

/// Whether `c` is an ASCII letter.
pub fn ascii_alpha(c: char) -> (r: bool)
    ensures
        r == is_alpha(c),
{
    ('a' <= c && c <= 'z') || ('A' <= c && c <= 'Z')
}

/// Whether `c` is an ASCII letter or digit.
pub fn ascii_alnum(c: char) -> (r: bool)
    ensures
        r == is_alnum(c),
{
    ascii_alpha(c) || ascii_digit(c)
}

/// The sets of characters that trimming removes.
#[derive(Clone, Copy, PartialEq, Eq, Debug)]
pub enum TrimSet {
    /// Unicode white space.
    Whitespace,
    /// Unicode white space and the byte-order marks U+FEFF and U+FFFE.
    WhitespaceOrBom,
    /// `/` and `\`.
    Separators,
    /// One given character.
    Only(char),
}

/// `c` belongs to the set `k`.
pub open spec fn in_set(k: TrimSet, c: char) -> bool {
    match k {
        TrimSet::Whitespace => is_ws(c),
        TrimSet::WhitespaceOrBom => is_ws(c) || c == '\u{feff}' || c == '\u{fffe}',
        TrimSet::Separators => c == '/' || c == '\\',
        TrimSet::Only(x) => c == x,
    }
}

/// Whether `c` belongs to the set `k`.
pub fn in_trim_set(k: TrimSet, c: char) -> (r: bool)
    ensures
        r == in_set(k, c),
{
    match k {
        TrimSet::Whitespace => is_whitespace(c),
        TrimSet::WhitespaceOrBom => is_whitespace(c) || c == '\u{feff}' || c == '\u{fffe}',
        TrimSet::Separators => c == '/' || c == '\\',
        TrimSet::Only(x) => c == x,
    }
}

/// `s` without its leading characters from `k`.
pub open spec fn trim_start(s: Seq<char>, k: TrimSet) -> Seq<char>
    decreases s.len(),
{
    if s.len() > 0 && in_set(k, s[0]) {
        trim_start(s.drop_first(), k)
    } else {
        s
    }
}

/// `s` without its trailing characters from `k`.
pub open spec fn trim_end(s: Seq<char>, k: TrimSet) -> Seq<char>
    decreases s.len(),
{
    if s.len() > 0 && in_set(k, s.last()) {
        trim_end(s.drop_last(), k)
    } else {
        s
    }
}

/// `s` without its leading and trailing characters from `k`.
pub open spec fn trim(s: Seq<char>, k: TrimSet) -> Seq<char> {
    trim_end(trim_start(s, k), k)
}

/// White space trimmed from both ends (std's `str::trim`).
pub open spec fn trim_ws(s: Seq<char>) -> Seq<char> {
    trim(s, TrimSet::Whitespace)
}

/// The index where `trim_start(v[from..to])` begins.
pub fn trim_start_index(v: &[char], from: usize, to: usize, k: TrimSet) -> (i: usize)
    requires
        from <= to <= v@.len(),
    ensures
        from <= i <= to,
        trim_start(v@.subrange(from as int, to as int), k) == v@.subrange(i as int, to as int),
{
    let mut i = from;
    while i < to && in_trim_set(k, v[i])
        invariant
            from <= i <= to <= v@.len(),
            trim_start(v@.subrange(from as int, to as int), k) == trim_start(
                v@.subrange(i as int, to as int),
                k,
            ),
        decreases to - i,
    {
        assert(v@.subrange(i as int, to as int).drop_first() =~= v@.subrange(
            i + 1,
            to as int,
        ));
        i = i + 1;
    }
    i
}

/// The index where `trim_end(v[from..to])` ends.
pub fn trim_end_index(v: &[char], from: usize, to: usize, k: TrimSet) -> (j: usize)
    requires
        from <= to <= v@.len(),
    ensures
        from <= j <= to,
        trim_end(v@.subrange(from as int, to as int), k) == v@.subrange(from as int, j as int),
{
    let mut j = to;
    while j > from && in_trim_set(k, v[j - 1])
        invariant
            from <= j <= to <= v@.len(),
            trim_end(v@.subrange(from as int, to as int), k) == trim_end(
                v@.subrange(from as int, j as int),
                k,
            ),
        decreases j - from,
    {
        assert(v@.subrange(from as int, j as int).drop_last() =~= v@.subrange(
            from as int,
            j - 1,
        ));
        j = j - 1;
    }
    j
}

/// `v` trimmed of characters from `k` at both ends.
pub fn trim_chars(v: &[char], k: TrimSet) -> (r: Vec<char>)
    ensures
        r@ == trim(v@, k),
{
    assert(v@.subrange(0, v@.len() as int) =~= v@);
    let i = trim_start_index(v, 0, v.len(), k);
    let j = trim_end_index(v, i, v.len(), k);
    let mut r: Vec<char> = Vec::new();
    let mut p = i;
    while p < j
        invariant
            i <= p <= j <= v@.len(),
            r@ == v@.subrange(i as int, p as int),
        decreases j - p,
    {
        r.push(v[p]);
        p = p + 1;
    }
    r
}

/// The string `s` trimmed of white space at both ends (std's `str::trim`).
pub fn trim_str(s: &str) -> (r: String)
    ensures
        r@ == trim_ws(s@),
{
    let v = chars_of(s);
    let t = trim_chars(&v, TrimSet::Whitespace);
    string_of(&t)
}

/// The text of an optional string.
pub open spec fn opt_view(o: Option<String>) -> Option<Seq<char>> {
    match o {
        Some(s) => Some(s@),
        None => None,
    }
}

/// Every element of `s` is the view of the corresponding string.
pub open spec fn views(s: Seq<String>) -> Seq<Seq<char>> {
    s.map_values(|x: String| x@)
}

/// Copies a slice of strings.
pub fn clone_strings(v: &[String]) -> (r: Vec<String>)
    ensures
        views(r@) == views(v@),
{
    let mut r: Vec<String> = Vec::new();
    let mut i: usize = 0;
    while i < v.len()
        invariant
            i <= v@.len(),
            r@.len() == i,
            views(r@) == views(v@.subrange(0, i as int)),
        decreases v.len() - i,
    {
        let ghost before = r@;
        let x = v[i].clone();
        r.push(x);
        assert(r@ == before.push(v@[i as int]));
        assert forall|j: int| 0 <= j < i + 1 implies #[trigger] views(r@)[j] == views(
            v@.subrange(0, i + 1),
        )[j] by {
            assert(views(r@)[j] == r@[j]@);
            assert(views(v@.subrange(0, i + 1))[j] == v@.subrange(0, i + 1)[j]@);
            if j < i {
                assert(views(before)[j] == before[j]@);
                assert(views(v@.subrange(0, i as int))[j] == v@.subrange(0, i as int)[j]@);
                assert(views(before)[j] == views(v@.subrange(0, i as int))[j]);
            }
        }
        assert(views(r@) =~= views(v@.subrange(0, i + 1)));
        i = i + 1;
    }
    assert(v@.subrange(0, v@.len() as int) =~= v@);
    r
}


/// The pieces of `s` between occurrences of `c` (std's `str::split`).
pub open spec fn split_by(s: Seq<char>, c: char) -> Seq<Seq<char>>
    decreases s.len(),
{
    if s.len() == 0 {
        seq![Seq::<char>::empty()]
    } else {
        let prev = split_by(s.drop_last(), c);
        if s.last() == c {
            prev.push(Seq::<char>::empty())
        } else {
            prev.update(prev.len() - 1, prev.last().push(s.last()))
        }
    }
}

/// `split_by` always yields at least one piece.
pub proof fn lemma_split_nonempty(s: Seq<char>, c: char)
    ensures
        split_by(s, c).len() >= 1,
    decreases s.len(),
{
    if s.len() > 0 {
        lemma_split_nonempty(s.drop_last(), c);
    }
}

/// The runs of non-white-space characters of `s` (std's
/// `str::split_whitespace`).
pub open spec fn words(s: Seq<char>) -> Seq<Seq<char>>
    decreases s.len(),
{
    if s.len() == 0 {
        Seq::empty()
    } else {
        let prev = words(s.drop_last());
        let c = s.last();
        if is_ws(c) {
            prev
        } else if s.len() >= 2 && !is_ws(s[s.len() - 2]) {
            prev.update(prev.len() - 1, prev.last().push(c))
        } else {
            prev.push(seq![c])
        }
    }
}

/// The runs of non-white-space characters of `v`.
pub fn split_whitespace_chars(v: &[char]) -> (r: Vec<Vec<char>>)
    ensures
        vviews(r@) == words(v@),
{
    let mut out: Vec<Vec<char>> = Vec::new();
    let mut i: usize = 0;
    assert(v@.subrange(0, 0) =~= Seq::<char>::empty());
    assert(vviews(out@) =~= Seq::<Seq<char>>::empty());
    while i < v.len()
        invariant
            i <= v@.len(),
            vviews(out@) == words(v@.subrange(0, i as int)),
            i > 0 && !is_ws(v@[i - 1]) ==> out@.len() > 0,
        decreases v.len() - i,
    {
        let ghost pre = v@.subrange(0, i as int);
        let ghost next = v@.subrange(0, i + 1);
        assert(next.drop_last() =~= pre);
        let ghost before = vviews(out@);
        let c = v[i];
        if is_whitespace(c) {
        } else if i > 0 && !is_whitespace(v[i - 1]) {
            assert(next[next.len() - 2] == v@[i - 1]);
            let last = out.len() - 1;
            let mut w = out[last].clone();
            w.push(c);
            out.set(last, w);
            assert(vviews(out@) =~= before.update(before.len() - 1, before.last().push(c)));
        } else {
            if i > 0 {
                assert(next[next.len() - 2] == v@[i - 1]);
            }
            let mut w: Vec<char> = Vec::new();
            w.push(c);
            out.push(w);
            assert(vviews(out@) =~= before.push(seq![c]));
        }
        i = i + 1;
    }
    assert(v@.subrange(0, v@.len() as int) =~= v@);
    out
}

/// The views of a sequence of character vectors.
pub open spec fn vviews(s: Seq<Vec<char>>) -> Seq<Seq<char>> {
    s.map_values(|x: Vec<char>| x@)
}

/// The pieces of `v` between occurrences of `c`.
pub fn split_chars(v: &[char], c: char) -> (parts: Vec<Vec<char>>)
    ensures
        vviews(parts@) == split_by(v@, c),
        parts@.len() >= 1,
{
    let mut parts: Vec<Vec<char>> = Vec::new();
    let mut cur: Vec<char> = Vec::new();
    let mut i: usize = 0;
    assert(v@.subrange(0, 0) =~= Seq::<char>::empty());
    assert(vviews(parts@).push(cur@) =~= split_by(v@.subrange(0, 0), c));
    while i < v.len()
        invariant
            i <= v@.len(),
            vviews(parts@).push(cur@) == split_by(v@.subrange(0, i as int), c),
        decreases v.len() - i,
    {
        let ghost pv = vviews(parts@);
        let ghost pc = cur@;
        assert(v@.subrange(0, i + 1).drop_last() =~= v@.subrange(0, i as int));
        if v[i] == c {
            let done = cur;
            parts.push(done);
            cur = Vec::new();
            assert(vviews(parts@) =~= pv.push(pc));
            assert(vviews(parts@).push(cur@) =~= pv.push(pc).push(Seq::<char>::empty()));
        } else {
            cur.push(v[i]);
            assert(vviews(parts@).push(cur@) =~= pv.push(pc).update(
                pv.push(pc).len() - 1,
                pv.push(pc).last().push(v@[i as int]),
            ));
        }
        i = i + 1;
    }
    assert(v@.subrange(0, v@.len() as int) =~= v@);
    let ghost pv = vviews(parts@);
    parts.push(cur);
    assert(vviews(parts@) =~= pv.push(parts@.last()@));
    parts
}


/// The ASCII digit for `d < 10`.
pub open spec fn digit_char(d: int) -> char {
    ((d + 48) as u8) as char
}

/// Digit characters are `'0'..='9'`.
pub proof fn lemma_digit_char_range(d: int)
    requires
        0 <= d < 10,
    ensures
        '0' <= digit_char(d) <= '9',
        digit_char(d) as int == d + 48,
{
    assert(((d + 48) as u8) as int == d + 48);
}

/// The decimal digits of `n`, most significant first, without leading zeros.
pub open spec fn nat_text(n: nat) -> Seq<char>
    decreases n,
{
    if n < 10 {
        seq![digit_char(n as int)]
    } else {
        nat_text(n / 10).push(digit_char((n % 10) as int))
    }
}

/// Decimal text reads back: it is a non-empty run of digits whose value is
/// the number, so std's integer parsing gives the number back.
pub proof fn lemma_nat_text_value(n: nat)
    ensures
        nat_text(n).len() > 0,
        all_digits(nat_text(n)),
        digits_value(nat_text(n)) == n,
        forall|max: int| n <= max ==> #[trigger] parse_unsigned(nat_text(n), max) == Some(n as int),
    decreases n,
{
    lemma_digit_char_range((n % 10) as int);
    if n < 10 {
        let t = nat_text(n);
        assert(t.drop_last() =~= Seq::<char>::empty());
        assert(digits_value(t) == digits_value(t.drop_last()) * 10 + (t.last() as int - 48));
    } else {
        lemma_nat_text_value(n / 10);
        let t = nat_text(n);
        assert(t.drop_last() =~= nat_text(n / 10));
        assert(digits_value(t) == digits_value(t.drop_last()) * 10 + (t.last() as int - 48));
        assert forall|j: int| 0 <= j < t.len() implies is_digit(#[trigger] t[j]) by {
            if j < nat_text(n / 10).len() {
                assert(t[j] == nat_text(n / 10)[j]);
            }
        }
    }
    let t = nat_text(n);
    assert(is_digit(t[0]));
}

/// The decimal text of an integer, with `-` before negative values (what
/// `to_string` prints for Rust's integer types).
pub open spec fn int_text(n: int) -> Seq<char> {
    if n < 0 {
        seq!['-'] + nat_text((-n) as nat)
    } else {
        nat_text(n as nat)
    }
}

/// The ASCII digit for `d < 10`.
pub fn digit_to_char(d: u64) -> (c: char)
    requires
        d < 10,
    ensures
        c == digit_char(d as int),
{
    ((d + 48) as u8) as char
}

/// The decimal text of `n`.
pub fn u64_text(n: u64) -> (s: String)
    ensures
        s@ == nat_text(n as nat),
    decreases n,
{
    if n < 10 {
        let mut s = String::new();
        push_char(&mut s, digit_to_char(n));
        assert(s@ =~= seq![digit_char(n as int)]);
        s
    } else {
        let mut s = u64_text(n / 10);
        push_char(&mut s, digit_to_char(n % 10));
        s
    }
}

/// The decimal text of `n`, with `-` before negative values.
pub fn i64_text(n: i64) -> (s: String)
    ensures
        s@ == int_text(n as int),
{
    if n < 0 {
        let m: u64 = if n == i64::MIN {
            9223372036854775808u64
        } else {
            (-n) as u64
        };
        let digits = u64_text(m);
        let mut s = String::new();
        push_char(&mut s, '-');
        let r = s.concat(digits.as_str());
        assert(r@ =~= seq!['-'] + nat_text((-(n as int)) as nat));
        r
    } else {
        u64_text(n as u64)
    }
}

/// The value of a non-empty run of ASCII digits.
pub open spec fn digits_value(s: Seq<char>) -> int
    decreases s.len(),
{
    if s.len() == 0 {
        0
    } else {
        digits_value(s.drop_last()) * 10 + (s.last() as int - 48)
    }
}

/// Every character of `s` is an ASCII digit.
pub open spec fn all_digits(s: Seq<char>) -> bool {
    forall|i: int| 0 <= i < s.len() ==> is_digit(#[trigger] s[i])
}

/// A part of an all-digit run is all digits.
pub proof fn lemma_all_digits_sub(s: Seq<char>, a: int, b: int)
    requires
        all_digits(s),
        0 <= a <= b <= s.len(),
    ensures
        all_digits(s.subrange(a, b)),
{
    assert forall|i: int| 0 <= i < b - a implies is_digit(#[trigger] s.subrange(a, b)[i]) by {
        assert(s.subrange(a, b)[i] == s[a + i]);
    }
}

/// Whether `v[from..to]` is all ASCII digits.
pub fn all_digits_range(v: &[char], from: usize, to: usize) -> (r: bool)
    requires
        from <= to <= v@.len(),
    ensures
        r == all_digits(v@.subrange(from as int, to as int)),
{
    let mut k = from;
    while k < to
        invariant
            from <= k <= to <= v@.len(),
            forall|q: int| from <= q < k ==> is_digit(#[trigger] v@[q]),
        decreases to - k,
    {
        if !('0' <= v[k] && v[k] <= '9') {
            assert(!is_digit(v@.subrange(from as int, to as int)[k - from]));
            return false;
        }
        k = k + 1;
    }
    assert forall|q: int| 0 <= q < to - from implies is_digit(
        #[trigger] v@.subrange(from as int, to as int)[q],
    ) by {
        assert(v@.subrange(from as int, to as int)[q] == v@[from + q]);
    }
    true
}

/// What std's `from_str` for an unsigned integer type with largest value
/// `max` returns: an optional `+`, then at least one ASCII digit, and a value
/// that fits.
pub open spec fn parse_unsigned(s: Seq<char>, max: int) -> Option<int> {
    let body = if s.len() > 0 && s[0] == '+' {
        s.drop_first()
    } else {
        s
    };
    if body.len() > 0 && all_digits(body) && digits_value(body) <= max {
        Some(digits_value(body))
    } else {
        None
    }
}

/// What std's `from_str` for a signed integer type with range `min..=max`
/// returns: an optional `+` or `-`, then at least one ASCII digit, and a value
/// that fits.
pub open spec fn parse_signed(s: Seq<char>, min: int, max: int) -> Option<int> {
    if s.len() > 0 && s[0] == '-' {
        let body = s.drop_first();
        if body.len() > 0 && all_digits(body) && -digits_value(body) >= min {
            Some(-digits_value(body))
        } else {
            None
        }
    } else {
        match parse_unsigned(s, max) {
            Some(v) => Some(v),
            None => None,
        }
    }
}

proof fn lemma_digits_value_nonneg(s: Seq<char>)
    requires
        all_digits(s),
    ensures
        digits_value(s) >= 0,
    decreases s.len(),
{
    if s.len() > 0 {
        assert(all_digits(s.drop_last())) by {
            assert forall|i: int| 0 <= i < s.drop_last().len() implies is_digit(
                #[trigger] s.drop_last()[i],
            ) by {
                assert(s.drop_last()[i] == s[i]);
            }
        }
        lemma_digits_value_nonneg(s.drop_last());
        assert(is_digit(s[s.len() - 1]));
    }
}

proof fn lemma_digits_value_grows(s: Seq<char>)
    requires
        all_digits(s),
        s.len() > 0,
    ensures
        digits_value(s) >= digits_value(s.drop_last()),
{
    assert(all_digits(s.drop_last())) by {
        assert forall|i: int| 0 <= i < s.drop_last().len() implies is_digit(
            #[trigger] s.drop_last()[i],
        ) by {
            assert(s.drop_last()[i] == s[i]);
        }
    }
    lemma_digits_value_nonneg(s.drop_last());
    assert(is_digit(s[s.len() - 1]));
}

/// The value of the digits `v[from..to]` when they are all ASCII digits and
/// the value is at most `max`.
pub fn digits_upto(v: &[char], from: usize, to: usize, max: u64) -> (r: Option<u64>)
    requires
        from <= to <= v@.len(),
    ensures
        match r {
            Some(x) => all_digits(v@.subrange(from as int, to as int)) && x == digits_value(
                v@.subrange(from as int, to as int),
            ) && x <= max,
            None => !(all_digits(v@.subrange(from as int, to as int)) && digits_value(
                v@.subrange(from as int, to as int),
            ) <= max),
        },
{
    let mut acc: u64 = 0;
    let mut i = from;
    assert(v@.subrange(from as int, from as int) =~= Seq::<char>::empty());
    while i < to
        invariant
            from <= i <= to <= v@.len(),
            all_digits(v@.subrange(from as int, i as int)),
            acc == digits_value(v@.subrange(from as int, i as int)),
            acc <= max,
        decreases to - i,
    {
        let c = v[i];
        let ghost pre = v@.subrange(from as int, i as int);
        let ghost next = v@.subrange(from as int, i + 1);
        assert(next.drop_last() =~= pre);
        if !('0' <= c && c <= '9') {
            proof {
                assert(!is_digit(v@.subrange(from as int, to as int)[i - from]));
            }
            return None;
        }
        let d = (c as u64) - 48;
        assert(all_digits(next)) by {
            assert forall|k: int| 0 <= k < next.len() implies is_digit(#[trigger] next[k]) by {
                if k < pre.len() {
                    assert(next[k] == pre[k]);
                }
            }
        }
        if d > max || acc > (max - d) / 10 {
            proof {
                assert(digits_value(next) == acc * 10 + d);
                if d <= max {
                    assert(digits_value(next) > max) by (nonlinear_arith)
                        requires
                            acc > (max - d) / 10,
                            digits_value(next) == acc * 10 + d,
                            d <= max,
                    ;
                }
                assert(v@.subrange(from as int, to as int).subrange(0, (i + 1 - from) as int) =~= next);
                lemma_digits_prefix_bound(v@.subrange(from as int, to as int), (i + 1 - from) as int, max as int);
            }
            return None;
        }
        proof {
            assert(acc * 10 + d <= max) by (nonlinear_arith)
                requires
                    acc <= (max - d) / 10,
                    d <= max,
            ;
        }
        acc = acc * 10 + d;
        i = i + 1;
    }
    Some(acc)
}

/// If some prefix of an all-digit run already exceeds `max`, the whole run does.
proof fn lemma_digits_prefix_bound(s: Seq<char>, k: int, max: int)
    requires
        0 <= k <= s.len(),
        all_digits(s.subrange(0, k)),
        digits_value(s.subrange(0, k)) > max,
    ensures
        !(all_digits(s) && digits_value(s) <= max),
    decreases s.len() - k,
{
    if all_digits(s) && k < s.len() {
        let t = s.subrange(0, k + 1);
        assert(t.drop_last() =~= s.subrange(0, k));
        assert(all_digits(t)) by {
            assert forall|i: int| 0 <= i < t.len() implies is_digit(#[trigger] t[i]) by {
                assert(t[i] == s[i]);
            }
        }
        lemma_digits_value_grows(t);
        lemma_digits_prefix_bound(s, k + 1, max);
    } else if all_digits(s) {
        assert(s.subrange(0, k) =~= s);
    }
}

/// std's unsigned `from_str` for a type whose largest value is `max`.
pub fn parse_unsigned_str(s: &str, max: u64) -> (r: Option<u64>)
    ensures
        parse_unsigned(s@, max as int) matches Some(x) ==> 0 <= x <= max,
        match parse_unsigned(s@, max as int) {
            Some(x) => r == Some(x as u64),
            None => r is None,
        },
{
    let v = chars_of(s);
    assert(v@.subrange(0, v@.len() as int) =~= v@);
    parse_unsigned_chars(&v, 0, v.len(), max)
}

/// std's unsigned `from_str` on the characters `v[from..to]`.
pub fn parse_unsigned_chars(v: &[char], from: usize, to: usize, max: u64) -> (r: Option<u64>)
    requires
        from <= to <= v@.len(),
    ensures
        parse_unsigned(v@.subrange(from as int, to as int), max as int) matches Some(x) ==> 0 <= x
            <= max,
        match parse_unsigned(v@.subrange(from as int, to as int), max as int) {
            Some(x) => r == Some(x as u64),
            None => r is None,
        },
{
    let ghost s = v@.subrange(from as int, to as int);
    let mut start = from;
    if from < to && v[from] == '+' {
        start = from + 1;
        assert(s.drop_first() =~= v@.subrange(start as int, to as int));
    }
    if start == to {
        return None;
    }
    let r = digits_upto(v, start, to, max);
    proof {
        match r {
            Some(x) => {
                lemma_digits_value_nonneg(v@.subrange(start as int, to as int));
            },
            None => {},
        }
    }
    r
}

/// std's signed `from_str` for a type with range `min..=max`, on `v[from..to]`.
pub fn parse_signed_chars(v: &[char], from: usize, to: usize, min: i64, max: i64) -> (r: Option<i64>)
    requires
        from <= to <= v@.len(),
        min < 0 <= max,
    ensures
        parse_signed(v@.subrange(from as int, to as int), min as int, max as int) matches Some(x)
            ==> min <= x <= max,
        match parse_signed(v@.subrange(from as int, to as int), min as int, max as int) {
            Some(x) => r == Some(x as i64),
            None => r is None,
        },
{
    let ghost s = v@.subrange(from as int, to as int);
    if from < to && v[from] == '-' {
        assert(s.drop_first() =~= v@.subrange(from + 1, to as int));
        if from + 1 == to {
            return None;
        }
        let lim: u64 = if min == i64::MIN {
            9223372036854775808u64
        } else {
            (-min) as u64
        };
        match digits_upto(v, from + 1, to, lim) {
            Some(x) => {
                proof {
                    lemma_digits_value_nonneg(v@.subrange(from + 1, to as int));
                }
                if x == 9223372036854775808u64 {
                    return Some(i64::MIN);
                }
                return Some(-(x as i64));
            },
            None => {
                return None;
            },
        }
    }
    assert(from < to ==> s[0] == v@[from as int]);
    match parse_unsigned_chars(v, from, to, max as u64) {
        Some(x) => Some(x as i64),
        None => None,
    }
}

/// std's signed `from_str` for a type with range `min..=max`.
pub fn parse_signed_str(s: &str, min: i64, max: i64) -> (r: Option<i64>)
    requires
        min < 0 <= max,
    ensures
        parse_signed(s@, min as int, max as int) matches Some(x) ==> min <= x <= max,
        match parse_signed(s@, min as int, max as int) {
            Some(x) => r == Some(x as i64),
            None => r is None,
        },
{
    let v = chars_of(s);
    assert(v@.subrange(0, v@.len() as int) =~= v@);
    parse_signed_chars(&v, 0, v.len(), min, max)
}

/// What std's `char::is_alphanumeric` answers: the Unicode `Alphabetic`
/// property or a numeric general category.
pub uninterp spec fn unicode_alnum(c: char) -> bool;

/// std's `char::is_alphanumeric`; its answer is named by `unicode_alnum`,
/// and for ASCII characters it holds exactly of letters and digits.
#[verifier::external_body]
pub fn is_alphanumeric(c: char) -> (r: bool)
    ensures
        r == unicode_alnum(c),
        (c as int) < 128 ==> (r == is_alnum(c)),
{
    c.is_alphanumeric()
}

/// What std's `str::to_lowercase` returns (Unicode lower-case mapping).
pub uninterp spec fn lowercase(s: Seq<char>) -> Seq<char>;

/// std's `str::to_lowercase`; its result is named by `lowercase`, and on
/// ASCII text it is the ASCII lower-casing (the Unicode lower-case mapping
/// sends `A`..`Z` to `a`..`z` and keeps the other ASCII characters).
#[verifier::external_body]
pub fn to_lowercase(s: &str) -> (r: String)
    ensures
        r@ == lowercase(s@),
        (forall|i: int| 0 <= i < s@.len() ==> (s@[i] as int) < 128) ==> r@ == ascii_lower_text(s@),
{
    s.to_lowercase()
}


/// `i` is the first position of `c` in `s`.
pub proof fn lemma_first_index_at(s: Seq<char>, c: char, i: int)
    requires
        0 <= i < s.len(),
        s[i] == c,
        forall|j: int| 0 <= j < i ==> s[j] != c,
    ensures
        first_index(s, c) == Some(i),
{
    lemma_first_index(s, c);
    match first_index(s, c) {
        Some(k) => {
            if k < i {
                assert(s[k] != c);
            }
            if i < k {
                assert(s[i] != c);
            }
        },
        None => {
            assert(s[i] != c);
        },
    }
}

/// `c` does not occur in `s`.
pub proof fn lemma_first_index_none(s: Seq<char>, c: char)
    requires
        forall|j: int| 0 <= j < s.len() ==> s[j] != c,
    ensures
        first_index(s, c) is None,
{
    lemma_first_index(s, c);
    match first_index(s, c) {
        Some(k) => {
            assert(s[k] != c);
        },
        None => {},
    }
}


/// Index of the last occurrence of `c` in `s`, if any.
pub open spec fn last_index(s: Seq<char>, c: char) -> Option<int>
    decreases s.len(),
{
    if s.len() == 0 {
        None
    } else if s.last() == c {
        Some(s.len() - 1)
    } else {
        last_index(s.drop_last(), c)
    }
}

/// What `last_index` means.
pub proof fn lemma_last_index(s: Seq<char>, c: char)
    ensures
        match last_index(s, c) {
            Some(i) => 0 <= i < s.len() && s[i] == c && forall|j: int| i < j < s.len() ==> s[j]
                != c,
            None => forall|j: int| 0 <= j < s.len() ==> s[j] != c,
        },
    decreases s.len(),
{
    if s.len() > 0 && s.last() != c {
        lemma_last_index(s.drop_last(), c);
        match last_index(s.drop_last(), c) {
            Some(i) => {
                assert forall|j: int| i < j < s.len() implies s[j] != c by {
                    if j < s.len() - 1 {
                        assert(s[j] == s.drop_last()[j]);
                    }
                }
            },
            None => {
                assert forall|j: int| 0 <= j < s.len() implies s[j] != c by {
                    if j < s.len() - 1 {
                        assert(s[j] == s.drop_last()[j]);
                    }
                }
            },
        }
    }
}

/// Position of the last `c` in `v`, if any.
pub fn find_last_char(v: &[char], c: char) -> (r: Option<usize>)
    ensures
        match r {
            Some(i) => last_index(v@, c) == Some(i as int),
            None => last_index(v@, c) is None,
        },
{
    let mut j = v.len();
    assert(v@.subrange(0, j as int) =~= v@);
    while j > 0
        invariant
            j <= v@.len(),
            last_index(v@, c) == last_index(v@.subrange(0, j as int), c),
        decreases j,
    {
        let ghost t = v@.subrange(0, j as int);
        assert(t.last() == v@[j - 1]);
        if v[j - 1] == c {
            return Some(j - 1);
        }
        assert(t.drop_last() =~= v@.subrange(0, j - 1));
        j = j - 1;
    }
    None
}

/// ASCII lower-casing of one character (std's `char::to_ascii_lowercase`).
pub open spec fn ascii_lower(c: char) -> char {
    if is_upper(c) {
        ((c as int) + 32) as char
    } else {
        c
    }
}

/// ASCII lower-casing of a text (std's `str::to_ascii_lowercase`).
pub open spec fn ascii_lower_text(s: Seq<char>) -> Seq<char> {
    s.map_values(|c: char| ascii_lower(c))
}

/// ASCII lower-casing of one character.
pub fn to_ascii_lower(c: char) -> (r: char)
    ensures
        r == ascii_lower(c),
{
    if 'A' <= c && c <= 'Z' {
        (((c as u32) + 32) as u8) as char
    } else {
        c
    }
}

/// ASCII lower-casing of a string's characters.
pub fn ascii_lowercase_chars(s: &str) -> (r: Vec<char>)
    ensures
        r@ == ascii_lower_text(s@),
{
    let v = chars_of(s);
    let mut r: Vec<char> = Vec::new();
    let mut i: usize = 0;
    while i < v.len()
        invariant
            i <= v@.len(),
            v@ == s@,
            r@ =~= ascii_lower_text(v@.subrange(0, i as int)),
        decreases v.len() - i,
    {
        r.push(to_ascii_lower(v[i]));
        i = i + 1;
    }
    assert(v@.subrange(0, v@.len() as int) =~= v@);
    r
}


/// `p` occurs in `s`.
pub open spec fn has_infix(s: Seq<char>, p: Seq<char>) -> bool {
    exists|i: int| 0 <= i <= s.len() - p.len() && #[trigger] s.subrange(i, i + p.len()) == p
}

/// Whether `p` occurs in `v`.
pub fn contains_chars(v: &[char], p: &[char]) -> (r: bool)
    ensures
        r == has_infix(v@, p@),
{
    let mut i: usize = 0;
    while i < v.len() || (i == v.len() && p.len() == 0)
        invariant
            i <= v@.len(),
            forall|j: int| 0 <= j < i && j <= v@.len() - p@.len() ==> #[trigger] v@.subrange(j, j + p@.len()) != p@,
        decreases v.len() + 1 - i,
    {
        if starts_with_at(v, i, p) {
            assert(v@.subrange(i as int, v@.len() as int).subrange(0, p@.len() as int) =~= v@.subrange(i as int, i + p@.len()));
            return true;
        }
        proof {
            if i <= v@.len() - p@.len() {
                assert(v@.subrange(i as int, v@.len() as int).subrange(0, p@.len() as int) =~= v@.subrange(i as int, i + p@.len()));
            }
        }
        if i == v.len() {
            return false;
        }
        i = i + 1;
    }
    false
}

/// Whether `v[from..]` starts with `p`.
pub fn starts_with_at(v: &[char], from: usize, p: &[char]) -> (r: bool)
    requires
        from <= v@.len(),
    ensures
        r == has_prefix(v@.subrange(from as int, v@.len() as int), p@),
{
    let ghost t = v@.subrange(from as int, v@.len() as int);
    if p.len() > v.len() - from {
        return false;
    }
    let mut i: usize = 0;
    while i < p.len()
        invariant
            from <= v.len(),
            p@.len() <= v.len() - from,
            t == v@.subrange(from as int, v@.len() as int),
            i <= p@.len(),
            forall|j: int| 0 <= j < i ==> t[j] == p@[j],
        decreases p.len() - i,
    {
        if v[from + i] != p[i] {
            assert(t.subrange(0, p@.len() as int)[i as int] != p@[i as int]);
            return false;
        }
        i = i + 1;
    }
    assert(t.subrange(0, p@.len() as int) =~= p@);
    true
}

/// `s` without the prefix `p`, when it has it (std's `str::strip_prefix`,
/// falling back to `s`).
pub open spec fn without_prefix(s: Seq<char>, p: Seq<char>) -> Seq<char> {
    if has_prefix(s, p) {
        s.subrange(p.len() as int, s.len() as int)
    } else {
        s
    }
}

/// `s` without all repetitions of the non-empty prefix `p` (std's
/// `str::trim_start_matches`).
pub open spec fn without_prefixes(s: Seq<char>, p: Seq<char>) -> Seq<char>
    decreases s.len(),
{
    if p.len() > 0 && has_prefix(s, p) {
        without_prefixes(s.subrange(p.len() as int, s.len() as int), p)
    } else {
        s
    }
}

/// The characters `v[from..]` without all leading repetitions of `p`; the
/// result is the index where they start.
pub fn skip_prefixes(v: &[char], from: usize, p: &[char]) -> (r: usize)
    requires
        from <= v@.len(),
        p@.len() > 0,
    ensures
        from <= r <= v@.len(),
        without_prefixes(v@.subrange(from as int, v@.len() as int), p@) == v@.subrange(
            r as int,
            v@.len() as int,
        ),
{
    let mut i = from;
    while i < v.len() && starts_with_at(v, i, p)
        invariant
            from <= i <= v@.len(),
            p@.len() > 0,
            without_prefixes(v@.subrange(from as int, v@.len() as int), p@) == without_prefixes(
                v@.subrange(i as int, v@.len() as int),
                p@,
            ),
        decreases v.len() - i,
    {
        let ghost t = v@.subrange(i as int, v@.len() as int);
        assert(t.subrange(p@.len() as int, t.len() as int) =~= v@.subrange(i + p@.len(), v@.len() as int));
        i = i + p.len();
    }
    if i == v.len() {
        assert(v@.subrange(i as int, v@.len() as int) =~= Seq::<char>::empty());
    }
    i
}

/// `s` without all trailing repetitions of `p` (std's
/// `str::trim_end_matches` with a string pattern).
pub open spec fn without_suffixes(s: Seq<char>, p: Seq<char>) -> Seq<char>
    decreases s.len(),
{
    if p.len() > 0 && has_suffix(s, p) {
        without_suffixes(s.subrange(0, s.len() - p.len()), p)
    } else {
        s
    }
}

/// The end of `v[..to]` once all trailing repetitions of `p` are removed.
pub fn skip_suffixes(v: &[char], to: usize, p: &[char]) -> (r: usize)
    requires
        to <= v@.len(),
    ensures
        r <= to,
        without_suffixes(v@.subrange(0, to as int), p@) == v@.subrange(0, r as int),
{
    let mut j = to;
    while p.len() > 0 && j >= p.len() && starts_with_at(v, j - p.len(), p)
        invariant
            j <= to <= v@.len(),
            without_suffixes(v@.subrange(0, to as int), p@) == without_suffixes(
                v@.subrange(0, j as int),
                p@,
            ),
        decreases j,
    {
        let ghost t = v@.subrange(0, j as int);
        assert(v@.subrange(j - p@.len(), v@.len() as int).subrange(0, p@.len() as int) =~= t.subrange(
            t.len() - p@.len(),
            t.len() as int,
        ));
        assert(t.subrange(0, t.len() - p@.len()) =~= v@.subrange(0, j - p@.len()));
        j = j - p.len();
    }
    proof {
        let t = v@.subrange(0, j as int);
        if p@.len() > 0 && j >= p@.len() {
            assert(v@.subrange(j - p@.len(), v@.len() as int).subrange(0, p@.len() as int)
                =~= t.subrange(t.len() - p@.len(), t.len() as int));
        }
    }
    j
}

/// ASCII upper-casing of one character (std's `char::to_ascii_uppercase`).
pub open spec fn ascii_upper(c: char) -> char {
    if 'a' <= c && c <= 'z' {
        ((c as int) - 32) as char
    } else {
        c
    }
}

/// ASCII upper-casing of a text (std's `str::to_ascii_uppercase`).
pub open spec fn ascii_upper_text(s: Seq<char>) -> Seq<char> {
    s.map_values(|c: char| ascii_upper(c))
}

/// ASCII upper-casing of one character.
pub fn to_ascii_upper(c: char) -> (r: char)
    ensures
        r == ascii_upper(c),
{
    if 'a' <= c && c <= 'z' {
        (((c as u32) - 32) as u8) as char
    } else {
        c
    }
}

/// ASCII upper-casing of the characters `v[from..]`.
pub fn ascii_uppercase_range(v: &[char], from: usize) -> (r: Vec<char>)
    requires
        from <= v@.len(),
    ensures
        r@ == ascii_upper_text(v@.subrange(from as int, v@.len() as int)),
{
    let mut r: Vec<char> = Vec::new();
    let mut i: usize = from;
    while i < v.len()
        invariant
            from <= i <= v@.len(),
            r@ =~= ascii_upper_text(v@.subrange(from as int, i as int)),
        decreases v.len() - i,
    {
        r.push(to_ascii_upper(v[i]));
        i = i + 1;
    }
    r
}

} // verus!
