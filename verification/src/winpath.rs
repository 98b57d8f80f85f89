//! Windows paths as std's `Path` reads them: the prefix (`C:`, `\\server\share`,
//! `\\?\...`, `\\.\...`), the root, whether a path is absolute, and what
//! `PathBuf::push` makes of a directory and a path, verbatim directories
//! included (their `.` and `..` are resolved when a path is pushed).
use vstd::prelude::*;
use crate::text::{vviews};

verus! {

/// A separator: `\`, and outside verbatim text also `/`.
pub open spec fn is_sep(c: char, verbatim: bool) -> bool {
    c == '\\' || (!verbatim && c == '/')
}

/// Either separator.
pub open spec fn any_sep(c: char) -> bool {
    c == '/' || c == '\\'
}

/// An ASCII letter.
pub open spec fn letter(c: char) -> bool {
    ('a' <= c && c <= 'z') || ('A' <= c && c <= 'Z')
}

/// The first separator at or after `i`, or the end of `s`.
pub open spec fn sep_from(s: Seq<char>, i: int, verbatim: bool) -> int
    decreases s.len() - i,
{
    if i < 0 || i >= s.len() {
        s.len() as int
    } else if is_sep(s[i], verbatim) {
        i
    } else {
        sep_from(s, i + 1, verbatim)
    }
}

/// `sep_from` stays within `s` and lands on a separator when it stops early.
pub proof fn lemma_sep_from(s: Seq<char>, i: int, verbatim: bool)
    requires
        0 <= i,
    ensures
        i <= sep_from(s, i, verbatim) || i > s.len(),
        sep_from(s, i, verbatim) <= s.len(),
        sep_from(s, i, verbatim) < s.len() ==> is_sep(s[sep_from(s, i, verbatim)], verbatim),
    decreases s.len() - i,
{
    if i < s.len() && !is_sep(s[i], verbatim) {
        lemma_sep_from(s, i + 1, verbatim);
    }
}

/// Where the text after a component ending at `e` starts.
pub open spec fn after(s: Seq<char>, e: int) -> int {
    if e < s.len() {
        e + 1
    } else {
        s.len() as int
    }
}

/// The kinds of Windows path prefixes.
#[derive(Clone, Copy, Debug, PartialEq, Eq, Structural)]
pub enum PrefixKind {
    /// `\\?\name`
    Verbatim,
    /// `\\?\UNC\server\share`
    VerbatimUnc,
    /// `\\?\C:`
    VerbatimDisk,
    /// `\\.\device`
    DeviceNs,
    /// `\\server\share`
    Unc,
    /// `C:`
    Disk,
}

/// The prefix of a Windows path and its length, as std parses it: after two
/// separators, `?\` (written with backslashes only) starts a verbatim prefix
/// (`UNC\server\share`, an exact drive `C:`, or one name), `.\` a device
/// name, anything else a `server\share` pair with both parts non-empty;
/// otherwise a drive letter and `:`.
pub open spec fn win_prefix(s: Seq<char>) -> Option<(PrefixKind, int)> {
    if s.len() >= 2 && any_sep(s[0]) && any_sep(s[1]) {
        if s.len() >= 4 && s[0] == '\\' && s[1] == '\\' && s[2] == '?' && s[3] == '\\' {
            if s.len() >= 8 && s[4] == 'U' && s[5] == 'N' && s[6] == 'C' && any_sep(s[7]) {
                let e1 = sep_from(s, 8, true);
                let e2 = sep_from(s, after(s, e1), true);
                Some(
                    (
                        PrefixKind::VerbatimUnc,
                        if e2 > after(s, e1) {
                            e2
                        } else {
                            e1
                        },
                    ),
                )
            } else if s.len() >= 6 && letter(s[4]) && s[5] == ':' && (s.len() == 6 || s[6] == '\\') {
                Some((PrefixKind::VerbatimDisk, 6))
            } else {
                Some((PrefixKind::Verbatim, sep_from(s, 4, true)))
            }
        } else if s.len() >= 4 && s[2] == '.' && any_sep(s[3]) {
            Some((PrefixKind::DeviceNs, sep_from(s, 4, false)))
        } else {
            let e1 = sep_from(s, 2, false);
            let e2 = sep_from(s, after(s, e1), false);
            if e1 > 2 && e2 > after(s, e1) {
                Some((PrefixKind::Unc, e2))
            } else {
                None
            }
        }
    } else if s.len() >= 2 && letter(s[0]) && s[1] == ':' {
        Some((PrefixKind::Disk, 2))
    } else {
        None
    }
}

/// Whether a prefix is verbatim.
pub open spec fn verbatim_kind(k: PrefixKind) -> bool {
    k == PrefixKind::Verbatim || k == PrefixKind::VerbatimUnc || k == PrefixKind::VerbatimDisk
}

/// The length of the prefix, 0 without one.
pub open spec fn prefix_len(s: Seq<char>) -> int {
    match win_prefix(s) {
        Some((_, n)) => n,
        None => 0,
    }
}

/// A separator right after the prefix.
pub open spec fn physical_root(s: Seq<char>) -> bool {
    0 <= prefix_len(s) < s.len() && any_sep(s[prefix_len(s)])
}

/// Absolute on Windows: a prefix, and a root (which every prefix but a
/// drive has implicitly).
pub open spec fn win_absolute(s: Seq<char>) -> bool {
    match win_prefix(s) {
        Some((k, _)) => k != PrefixKind::Disk || physical_root(s),
        None => false,
    }
}

/// The pieces of `s` between separators (std's `split`).
pub open spec fn split_seps(s: Seq<char>, verbatim: bool) -> Seq<Seq<char>>
    decreases s.len(),
{
    if s.len() == 0 {
        seq![Seq::<char>::empty()]
    } else {
        let prev = split_seps(s.drop_last(), verbatim);
        if is_sep(s.last(), verbatim) {
            prev.push(Seq::<char>::empty())
        } else {
            prev.update(prev.len() - 1, prev.last().push(s.last()))
        }
    }
}

/// A component after the prefix.
pub enum PartModel {
    Root,
    Cur,
    Parent,
    Normal(Seq<char>),
}

/// The component a piece makes: none for an empty piece, `.` only where
/// `keep_cur`, `..`, or a name.
pub open spec fn part_of(piece: Seq<char>, keep_cur: bool) -> Seq<PartModel> {
    if piece.len() == 0 {
        Seq::empty()
    } else if piece == seq!['.'] {
        if keep_cur {
            seq![PartModel::Cur]
        } else {
            Seq::empty()
        }
    } else if piece == seq!['.', '.'] {
        seq![PartModel::Parent]
    } else {
        seq![PartModel::Normal(piece)]
    }
}

/// The components of a list of pieces.
pub open spec fn parts_of(pieces: Seq<Seq<char>>, keep_cur: bool) -> Seq<PartModel>
    decreases pieces.len(),
{
    if pieces.len() == 0 {
        Seq::empty()
    } else {
        parts_of(pieces.drop_last(), keep_cur) + part_of(pieces.last(), keep_cur)
    }
}

/// The components after the prefix of a verbatim directory: its root, then
/// the pieces between backslashes (`.` kept).
pub open spec fn verbatim_dir_parts(dir: Seq<char>) -> Seq<PartModel> {
    let n = prefix_len(dir);
    let start = if physical_root(dir) {
        n + 1
    } else {
        n
    };
    (if physical_root(dir) {
        seq![PartModel::Root]
    } else {
        Seq::empty()
    }) + parts_of(split_seps(dir.subrange(start, dir.len() as int), true), true)
}

/// The components of a path without a prefix: its root, then the pieces
/// between separators (`.` dropped).
pub open spec fn pushed_parts(p: Seq<char>) -> Seq<PartModel> {
    let root = p.len() > 0 && any_sep(p[0]);
    (if root {
        seq![PartModel::Root]
    } else {
        Seq::empty()
    }) + parts_of(
        split_seps(
            p.subrange(
                if root {
                    1
                } else {
                    0
                },
                p.len() as int,
            ),
            false,
        ),
        false,
    )
}

/// One component pushed onto a verbatim path: a root drops all but the
/// prefix, `.` does nothing, `..` drops a last name, a name is added.
pub open spec fn step(b: Seq<PartModel>, c: PartModel) -> Seq<PartModel> {
    match c {
        PartModel::Root => seq![PartModel::Root],
        PartModel::Cur => b,
        PartModel::Parent => if b.len() > 0 && b.last() is Normal {
            b.drop_last()
        } else {
            b
        },
        PartModel::Normal(_) => b.push(c),
    }
}

/// The components pushed one after another.
pub open spec fn fold_parts(b: Seq<PartModel>, cs: Seq<PartModel>) -> Seq<PartModel>
    decreases cs.len(),
{
    if cs.len() == 0 {
        b
    } else {
        step(fold_parts(b, cs.drop_last()), cs.last())
    }
}

/// The text of a component.
pub open spec fn part_text(c: PartModel) -> Seq<char> {
    match c {
        PartModel::Root => seq!['\\'],
        PartModel::Cur => seq!['.'],
        PartModel::Parent => seq!['.', '.'],
        PartModel::Normal(x) => x,
    }
}

/// A verbatim prefix and components written out: a backslash before each
/// component other than the root, unless it follows the root.
pub open spec fn rendered(pre: Seq<char>, cs: Seq<PartModel>) -> Seq<char>
    decreases cs.len(),
{
    if cs.len() == 0 {
        pre
    } else {
        rendered(pre, cs.drop_last()) + (if !(cs.last() is Root) && (cs.len() == 1 || !(cs[cs.len()
            - 2] is Root)) {
            seq!['\\']
        } else {
            Seq::empty()
        }) + part_text(cs.last())
    }
}

/// `dir` with `p` pushed onto it on Windows, as `PathBuf::push` does: a
/// `p` with a prefix replaces `dir`; onto a verbatim `dir` the components
/// of `p` are resolved; a `p` with a root keeps only `dir`'s prefix;
/// otherwise a backslash goes between them unless `dir` is empty, ends with
/// a separator, or is a bare drive.
pub open spec fn joined_win(dir: Seq<char>, p: Seq<char>) -> Seq<char> {
    if win_prefix(p) is Some {
        p
    } else if (win_prefix(dir) matches Some((k, _)) && verbatim_kind(k)) && p.len() > 0 {
        rendered(
            dir.subrange(0, prefix_len(dir)),
            fold_parts(verbatim_dir_parts(dir), pushed_parts(p)),
        )
    } else if p.len() > 0 && any_sep(p[0]) {
        dir.subrange(0, prefix_len(dir)) + p
    } else if dir.len() > 0 && !any_sep(dir.last()) && !(win_prefix(dir) == Some(
        (PrefixKind::Disk, 2int),
    ) && dir.len() == 2) {
        dir + seq!['\\'] + p
    } else {
        dir + p
    }
}

/// A component after the prefix.
#[derive(Debug)]
pub enum PathPart {
    Root,
    Cur,
    Parent,
    Normal(Vec<char>),
}

/// A component as a plain value.
pub open spec fn part_model(c: PathPart) -> PartModel {
    match c {
        PathPart::Root => PartModel::Root,
        PathPart::Cur => PartModel::Cur,
        PathPart::Parent => PartModel::Parent,
        PathPart::Normal(v) => PartModel::Normal(v@),
    }
}

/// Components as plain values.
pub open spec fn parts_model(s: Seq<PathPart>) -> Seq<PartModel> {
    s.map_values(|c: PathPart| part_model(c))
}

/// The first separator at or after `i`, or the length of `v`.
fn sep_index(v: &[char], i: usize, verbatim: bool) -> (r: usize)
    requires
        i <= v@.len(),
    ensures
        r == sep_from(v@, i as int, verbatim),
        i <= r <= v@.len(),
{
    proof {
        lemma_sep_from(v@, i as int, verbatim);
    }
    let mut j = i;
    while j < v.len()
        invariant
            i <= j <= v@.len(),
            sep_from(v@, i as int, verbatim) == sep_from(v@, j as int, verbatim),
        decreases v.len() - j,
    {
        if v[j] == '\\' || (!verbatim && v[j] == '/') {
            return j;
        }
        j += 1;
    }
    j
}

/// Where the text after a component ending at `e` starts.
fn after_index(v: &[char], e: usize) -> (r: usize)
    requires
        e <= v@.len(),
    ensures
        r == after(v@, e as int),
{
    if e < v.len() {
        e + 1
    } else {
        v.len()
    }
}

/// Either separator.
fn sep_char(c: char) -> (r: bool)
    ensures
        r == any_sep(c),
{
    c == '/' || c == '\\'
}

/// An ASCII letter.
fn letter_char(c: char) -> (r: bool)
    ensures
        r == letter(c),
{
    ('a' <= c && c <= 'z') || ('A' <= c && c <= 'Z')
}

/// The prefix of a Windows path and its length.
pub fn windows_prefix(v: &[char]) -> (r: Option<(PrefixKind, usize)>)
    ensures
        r is Some <==> win_prefix(v@) is Some,
        r is Some ==> r.unwrap().0 == win_prefix(v@).unwrap().0 && r.unwrap().1 as int
            == win_prefix(v@).unwrap().1 && r.unwrap().1 <= v@.len(),
{
    let n = v.len();
    if n >= 2 && sep_char(v[0]) && sep_char(v[1]) {
        if n >= 4 && v[0] == '\\' && v[1] == '\\' && v[2] == '?' && v[3] == '\\' {
            if n >= 8 && v[4] == 'U' && v[5] == 'N' && v[6] == 'C' && sep_char(v[7]) {
                let e1 = sep_index(v, 8, true);
                let a = after_index(v, e1);
                let e2 = sep_index(v, a, true);
                Some((PrefixKind::VerbatimUnc, if e2 > a { e2 } else { e1 }))
            } else if n >= 6 && letter_char(v[4]) && v[5] == ':' && (n == 6 || v[6] == '\\') {
                Some((PrefixKind::VerbatimDisk, 6))
            } else {
                Some((PrefixKind::Verbatim, sep_index(v, 4, true)))
            }
        } else if n >= 4 && v[2] == '.' && sep_char(v[3]) {
            Some((PrefixKind::DeviceNs, sep_index(v, 4, false)))
        } else {
            let e1 = sep_index(v, 2, false);
            let a = after_index(v, e1);
            let e2 = sep_index(v, a, false);
            if e1 > 2 && e2 > a {
                Some((PrefixKind::Unc, e2))
            } else {
                None
            }
        }
    } else if n >= 2 && letter_char(v[0]) && v[1] == ':' {
        Some((PrefixKind::Disk, 2))
    } else {
        None
    }
}

/// The length of the prefix, 0 without one.
pub(crate) fn prefix_length(v: &[char]) -> (r: usize)
    ensures
        r == prefix_len(v@),
        r <= v@.len(),
{
    let r = windows_prefix(v);
    match r {
        Some((_, n)) => {
            n
        },
        None => 0,
    }
}

/// Whether a path is absolute on Windows.
pub fn windows_absolute(v: &[char]) -> (r: bool)
    ensures
        r == win_absolute(v@),
{
    match windows_prefix(v) {
        Some((k, n)) => {
            k != PrefixKind::Disk || (n < v.len() && sep_char(v[n]))
        },
        None => false,
    }
}

/// The pieces of `v[from..]` between separators.
pub(crate) fn split_pieces(v: &[char], from: usize, verbatim: bool) -> (r: Vec<Vec<char>>)
    requires
        from <= v@.len(),
    ensures
        vviews(r@) == split_seps(v@.subrange(from as int, v@.len() as int), verbatim),
        r@.len() >= 1,
{
    let mut parts: Vec<Vec<char>> = Vec::new();
    let mut cur: Vec<char> = Vec::new();
    let mut i: usize = from;
    assert(v@.subrange(from as int, from as int) =~= Seq::<char>::empty());
    assert(vviews(parts@).push(cur@) =~= split_seps(v@.subrange(from as int, from as int), verbatim));
    while i < v.len()
        invariant
            from <= i <= v@.len(),
            vviews(parts@).push(cur@) == split_seps(v@.subrange(from as int, i as int), verbatim),
        decreases v.len() - i,
    {
        let ghost pv = vviews(parts@);
        let ghost pc = cur@;
        assert(v@.subrange(from as int, i + 1).drop_last() =~= v@.subrange(from as int, i as int));
        assert(v@.subrange(from as int, i + 1).last() == v@[i as int]);
        if v[i] == '\\' || (!verbatim && v[i] == '/') {
            let done = cur;
            parts.push(done);
            cur = Vec::new();
            assert(vviews(parts@) =~= pv.push(pc));
            assert(vviews(parts@).push(cur@) =~= pv.push(pc).push(Seq::<char>::empty()));
        } else {
            cur.push(v[i]);
            assert(vviews(parts@).push(cur@) =~= pv.push(pc).update(
                pv.push(pc).len() - 1,
                pv.push(pc).last().push(v@[i as int]),
            ));
        }
        i = i + 1;
    }
    let ghost pv = vviews(parts@);
    parts.push(cur);
    assert(vviews(parts@) =~= pv.push(parts@.last()@));
    parts
}

/// The components the pieces make.
pub(crate) fn parts_from(pieces: &Vec<Vec<char>>, keep_cur: bool, out: &mut Vec<PathPart>)
    ensures
        parts_model(final(out)@) == parts_model(old(out)@) + parts_of(vviews(pieces@), keep_cur),
{
    let ghost start = parts_model(out@);
    let mut i: usize = 0;
    assert(vviews(pieces@).subrange(0, 0) =~= Seq::<Seq<char>>::empty());
    assert(parts_model(out@) =~= start + parts_of(vviews(pieces@).subrange(0, 0), keep_cur));
    while i < pieces.len()
        invariant
            i <= pieces@.len(),
            parts_model(out@) == start + parts_of(vviews(pieces@).subrange(0, i as int), keep_cur),
        decreases pieces.len() - i,
    {
        let ghost before = parts_model(out@);
        let ghost sub = vviews(pieces@).subrange(0, i + 1);
        assert(sub.drop_last() =~= vviews(pieces@).subrange(0, i as int));
        assert(sub.last() == pieces@[i as int]@);
        let piece = &pieces[i];
        if piece.len() == 0 {
            assert(part_of(piece@, keep_cur) =~= Seq::<PartModel>::empty());
            assert(parts_model(out@) =~= before + part_of(piece@, keep_cur));
        } else if piece.len() == 1 && piece[0] == '.' {
            assert(piece@ =~= seq!['.']);
            if keep_cur {
                out.push(PathPart::Cur);
                assert(parts_model(out@) =~= before + part_of(piece@, keep_cur));
            } else {
                assert(parts_model(out@) =~= before + part_of(piece@, keep_cur));
            }
        } else if piece.len() == 2 && piece[0] == '.' && piece[1] == '.' {
            assert(piece@ =~= seq!['.', '.']);
            out.push(PathPart::Parent);
            assert(parts_model(out@) =~= before + part_of(piece@, keep_cur));
        } else {
            assert(piece@ != seq!['.']) by {
                if piece@ == seq!['.'] {
                    assert(piece@.len() == 1 && piece@[0] == '.');
                }
            }
            assert(piece@ != seq!['.', '.']) by {
                if piece@ == seq!['.', '.'] {
                    assert(piece@.len() == 2 && piece@[0] == '.' && piece@[1] == '.');
                }
            }
            let copy = crate::text::chars_of_slice(piece.as_slice());
            out.push(PathPart::Normal(copy));
            assert(parts_model(out@) =~= before + part_of(piece@, keep_cur));
        }
        i += 1;
    }
    assert(vviews(pieces@).subrange(0, i as int) =~= vviews(pieces@));
}

/// Pushes each component of `cs` onto `buf` as a verbatim path takes them.
fn fold_into(buf: &mut Vec<PathPart>, cs: &Vec<PathPart>)
    ensures
        parts_model(final(buf)@) == fold_parts(parts_model(old(buf)@), parts_model(cs@)),
{
    let ghost b0 = parts_model(buf@);
    let ghost all = parts_model(cs@);
    assert(all.subrange(0, 0) =~= Seq::<PartModel>::empty());
    let mut k: usize = 0;
    while k < cs.len()
        invariant
            k <= cs@.len(),
            all == parts_model(cs@),
            parts_model(buf@) == fold_parts(b0, all.subrange(0, k as int)),
        decreases cs.len() - k,
    {
        let ghost b = parts_model(buf@);
        let ghost sub = all.subrange(0, k + 1);
        assert(sub.drop_last() =~= all.subrange(0, k as int));
        assert(sub.last() == part_model(cs@[k as int]));
        match &cs[k] {
            PathPart::Root => {
                buf.clear();
                buf.push(PathPart::Root);
                assert(parts_model(buf@) =~= seq![PartModel::Root]);
            },
            PathPart::Cur => {},
            PathPart::Parent => {
                let last_is_name = buf.len() > 0 && match &buf[buf.len() - 1] {
                    PathPart::Normal(_) => true,
                    _ => false,
                };
                if last_is_name {
                    assert(b.last() == part_model(buf@[buf@.len() - 1]));
                    buf.pop();
                    assert(parts_model(buf@) =~= b.drop_last());
                } else {
                    assert(buf@.len() > 0 ==> b.last() == part_model(buf@[buf@.len() - 1]));
                }
            },
            PathPart::Normal(x) => {
                let copy = crate::text::chars_of_slice(x.as_slice());
                buf.push(PathPart::Normal(copy));
                assert(parts_model(buf@) =~= b.push(sub.last()));
            },
        }
        k += 1;
    }
    assert(all.subrange(0, k as int) =~= all);
}

/// Writes out a verbatim prefix and components.
fn render(pre: &[char], n: usize, cs: &Vec<PathPart>) -> (r: Vec<char>)
    requires
        n <= pre@.len(),
    ensures
        r@ == rendered(pre@.subrange(0, n as int), parts_model(cs@)),
{
    let ghost all = parts_model(cs@);
    let mut out: Vec<char> = Vec::new();
    let mut i: usize = 0;
    while i < n
        invariant
            i <= n <= pre@.len(),
            out@ == pre@.subrange(0, i as int),
        decreases n - i,
    {
        out.push(pre[i]);
        assert(out@ =~= pre@.subrange(0, i + 1));
        i += 1;
    }
    assert(all.subrange(0, 0) =~= Seq::<PartModel>::empty());
    let mut j: usize = 0;
    while j < cs.len()
        invariant
            j <= cs@.len(),
            all == parts_model(cs@),
            out@ == rendered(pre@.subrange(0, n as int), all.subrange(0, j as int)),
        decreases cs.len() - j,
    {
        let ghost before = out@;
        let ghost sub = all.subrange(0, j + 1);
        assert(sub.drop_last() =~= all.subrange(0, j as int));
        assert(sub.last() == part_model(cs@[j as int]));
        assert(j >= 1 ==> sub[sub.len() - 2] == part_model(cs@[j - 1]));
        let is_root = match &cs[j] {
            PathPart::Root => true,
            _ => false,
        };
        let prev_root = j >= 1 && match &cs[j - 1] {
            PathPart::Root => true,
            _ => false,
        };
        if !is_root && !prev_root {
            out.push('\\');
        }
        match &cs[j] {
            PathPart::Root => {
                out.push('\\');
            },
            PathPart::Cur => {
                out.push('.');
            },
            PathPart::Parent => {
                out.push('.');
                out.push('.');
            },
            PathPart::Normal(x) => {
                let mut q: usize = 0;
                let ghost base = out@;
                while q < x.len()
                    invariant
                        q <= x@.len(),
                        out@ == base + x@.subrange(0, q as int),
                    decreases x.len() - q,
                {
                    out.push(x[q]);
                    assert(out@ =~= base + x@.subrange(0, q + 1));
                    q += 1;
                }
                assert(x@.subrange(0, q as int) =~= x@);
            },
        }
        assert(out@ =~= rendered(pre@.subrange(0, n as int), sub));
        j += 1;
    }
    assert(all.subrange(0, j as int) =~= all);
    out
}

/// `d` with `q` pushed onto it on Windows.
pub fn join_windows(d: &[char], q: &[char]) -> (r: Vec<char>)
    ensures
        r@ == joined_win(d@, q@),
{
    if windows_prefix(q).is_some() {
        return crate::text::chars_of_slice(q);
    }
    let dp = windows_prefix(d);
    let dn = prefix_length(d);
    let verbatim_dir = match dp {
        Some((k, _)) => k == PrefixKind::Verbatim || k == PrefixKind::VerbatimUnc || k
            == PrefixKind::VerbatimDisk,
        None => false,
    };
    if verbatim_dir && q.len() > 0 {
        let root = dn < d.len() && sep_char(d[dn]);
        let start = if root { dn + 1 } else { dn };
        let mut buf: Vec<PathPart> = Vec::new();
        if root {
            buf.push(PathPart::Root);
        }
        let ghost head = parts_model(buf@);
        let pieces = split_pieces(d, start, true);
        parts_from(&pieces, true, &mut buf);
        assert(parts_model(buf@) =~= verbatim_dir_parts(d@));
        let qroot = sep_char(q[0]);
        let mut pushed: Vec<PathPart> = Vec::new();
        if qroot {
            pushed.push(PathPart::Root);
        }
        let qpieces = split_pieces(q, if qroot { 1 } else { 0 }, false);
        parts_from(&qpieces, false, &mut pushed);
        assert(parts_model(pushed@) =~= pushed_parts(q@));
        fold_into(&mut buf, &pushed);
        return render(d, dn, &buf);
    }
    if q.len() > 0 && sep_char(q[0]) {
        let mut out = crate::text::chars_of_slice(d);
        out.truncate(dn);
        assert(out@ =~= d@.subrange(0, dn as int));
        let mut i: usize = 0;
        let ghost base = out@;
        while i < q.len()
            invariant
                i <= q@.len(),
                out@ == base + q@.subrange(0, i as int),
            decreases q.len() - i,
        {
            out.push(q[i]);
            assert(out@ =~= base + q@.subrange(0, i + 1));
            i += 1;
        }
        assert(q@.subrange(0, i as int) =~= q@);
        return out;
    }
    let bare_drive = match dp {
        Some((PrefixKind::Disk, 2)) => d.len() == 2,
        _ => false,
    };
    let mut out = crate::text::chars_of_slice(d);
    if d.len() > 0 && !sep_char(d[d.len() - 1]) && !bare_drive {
        out.push('\\');
    }
    let ghost base = out@;
    let mut i: usize = 0;
    while i < q.len()
        invariant
            i <= q@.len(),
            out@ == base + q@.subrange(0, i as int),
        decreases q.len() - i,
    {
        out.push(q[i]);
        assert(out@ =~= base + q@.subrange(0, i + 1));
        i += 1;
    }
    assert(q@.subrange(0, i as int) =~= q@);
    proof {
        if d@.len() > 0 && !any_sep(d@.last()) && !(win_prefix(d@) == Some((PrefixKind::Disk, 2int))
            && d@.len() == 2) {
            assert(out@ =~= d@ + seq!['\\'] + q@);
        } else {
            assert(out@ =~= d@ + q@);
        }
    }
    out
}

} // verus!
