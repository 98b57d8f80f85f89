//! Path text as the file builtins read it: the components of a path (what
//! std's `Path::components` yields, elsewhere or on Windows with its
//! prefixes), the last name of a path, and trailing separators.
use vstd::prelude::*;
use crate::winpath::{
    parts_from, parts_model, parts_of, part_model, physical_root, prefix_len, prefix_length,
    split_pieces, split_seps, verbatim_kind, win_prefix, windows_prefix, PartModel, PathPart,
    PrefixKind,
};
use crate::text::{
    chars_of, has_suffix, opt_view, owned, split_by, split_chars, str_eq,
    string_of, string_of_range, views, vviews,
};

verus! {

/// A component of a path.
#[derive(Debug, PartialEq, Eq)]
pub enum PathComponent {
    /// A Windows prefix such as `C:` or `\\server\share`.
    Prefix(String),
    /// The root separator.
    RootDir,
    /// A leading `.`.
    CurDir,
    /// `..`.
    ParentDir,
    /// A name.
    Normal(String),
}

/// `PathComponent` as plain values.
pub enum CompModel {
    Prefix(Seq<char>),
    RootDir,
    CurDir,
    ParentDir,
    Normal(Seq<char>),
}

/// The plain-value form of a component.
pub open spec fn comp_view(c: PathComponent) -> CompModel {
    match c {
        PathComponent::Prefix(s) => CompModel::Prefix(s@),
        PathComponent::RootDir => CompModel::RootDir,
        PathComponent::CurDir => CompModel::CurDir,
        PathComponent::ParentDir => CompModel::ParentDir,
        PathComponent::Normal(s) => CompModel::Normal(s@),
    }
}

/// The plain-value form of a list of components.
pub open spec fn comps_view(s: Seq<PathComponent>) -> Seq<CompModel> {
    s.map_values(|c: PathComponent| comp_view(c))
}

/// The components named by the pieces between separators: empty pieces
/// and `.` name nothing, `..` is the parent.
pub open spec fn part_comps(parts: Seq<Seq<char>>) -> Seq<CompModel>
    decreases parts.len(),
{
    if parts.len() == 0 {
        Seq::empty()
    } else {
        let prev = part_comps(parts.drop_last());
        let p = parts.last();
        if p.len() == 0 || p == "."@ {
            prev
        } else if p == ".."@ {
            prev.push(CompModel::ParentDir)
        } else {
            prev.push(CompModel::Normal(p))
        }
    }
}

/// The components of a path where only `/` separates: the root, a leading
/// `.` of a path without a root, then the names.
pub open spec fn unix_comps(s: Seq<char>) -> Seq<CompModel> {
    let rooted = s.len() > 0 && s[0] == '/';
    let parts = split_by(s, '/');
    (if rooted {
        seq![CompModel::RootDir]
    } else {
        Seq::empty()
    }) + (if !rooted && parts.len() > 0 && parts[0] == "."@ {
        seq![CompModel::CurDir]
    } else {
        Seq::empty()
    }) + part_comps(parts)
}

/// The component that a part after a Windows prefix is.
pub open spec fn comp_of_part(c: PartModel) -> CompModel {
    match c {
        PartModel::Root => CompModel::RootDir,
        PartModel::Cur => CompModel::CurDir,
        PartModel::Parent => CompModel::ParentDir,
        PartModel::Normal(x) => CompModel::Normal(x),
    }
}

/// The components of a Windows path: the prefix; the root, written or
/// implied by a UNC or device prefix; a leading `.` of a path with neither a
/// root nor a prefix other than a drive; then the parts between separators
/// (only `\` separates after a verbatim prefix, where `.` is kept).
pub open spec fn win_comps(s: Seq<char>) -> Seq<CompModel> {
    let n = prefix_len(s);
    let verbatim = win_prefix(s) matches Some((k, _)) && verbatim_kind(k);
    let implicit = win_prefix(s) matches Some((k, _)) && k != PrefixKind::Disk;
    let phys = physical_root(s);
    let pieces = split_seps(
        s.subrange(
            if phys {
                n + 1
            } else {
                n
            },
            s.len() as int,
        ),
        verbatim,
    );
    (if win_prefix(s) is Some {
        seq![CompModel::Prefix(s.subrange(0, n))]
    } else {
        Seq::empty()
    }) + (if phys || (implicit && !verbatim) {
        seq![CompModel::RootDir]
    } else {
        Seq::empty()
    }) + (if !phys && !implicit && pieces[0] == seq!['.'] {
        seq![CompModel::CurDir]
    } else {
        Seq::empty()
    }) + parts_of(pieces, verbatim).map_values(|c: PartModel| comp_of_part(c))
}

/// The components of a path, as std's `Path::components` yields them on
/// Windows or elsewhere.
pub open spec fn path_comps(s: Seq<char>, windows: bool) -> Seq<CompModel> {
    if windows {
        win_comps(s)
    } else {
        unix_comps(s)
    }
}

/// Splits a path where only `/` separates into its components.
fn unix_components(v: &Vec<char>) -> (r: Vec<PathComponent>)
    ensures
        comps_view(r@) == unix_comps(v@),
{
    let rooted = v.len() > 0 && v[0] == '/';
    let parts = split_chars(v, '/');
    let ghost ps = split_by(v@, '/');
    let mut out: Vec<PathComponent> = Vec::new();
    if rooted {
        out.push(PathComponent::RootDir);
    }
    if !rooted && parts.len() > 0 {
        let first = string_of(&parts[0]);
        if str_eq(first.as_str(), ".") {
            out.push(PathComponent::CurDir);
        }
    }
    let ghost head = comps_view(out@);
    assert(head =~= unix_comps(v@).subrange(0, head.len() as int));
    assert(ps.subrange(0, 0) =~= Seq::<Seq<char>>::empty());
    let mut j: usize = 0;
    while j < parts.len()
        invariant
            j <= parts@.len(),
            vviews(parts@) == ps,
            comps_view(out@) == head + part_comps(ps.subrange(0, j as int)),
        decreases parts.len() - j,
    {
        assert(ps.subrange(0, j + 1).drop_last() =~= ps.subrange(0, j as int));
        assert(ps[j as int] == parts@[j as int]@);
        let ghost before = comps_view(out@);
        let p = string_of(&parts[j]);
        if p.as_str().unicode_len() == 0 || str_eq(p.as_str(), ".") {
        } else if str_eq(p.as_str(), "..") {
            out.push(PathComponent::ParentDir);
            assert(comps_view(out@) =~= before.push(CompModel::ParentDir));
        } else {
            out.push(PathComponent::Normal(p));
            assert(comps_view(out@) =~= before.push(CompModel::Normal(ps[j as int])));
        }
        j = j + 1;
    }
    assert(ps.subrange(0, ps.len() as int) =~= ps);
    out
}

/// Splits a Windows path into its components.
fn win_components(v: &Vec<char>) -> (r: Vec<PathComponent>)
    ensures
        comps_view(r@) == win_comps(v@),
{
    let pre = windows_prefix(v.as_slice());
    let n = prefix_length(v.as_slice());
    let verbatim = match pre {
        Some((k, _)) => k == PrefixKind::Verbatim || k == PrefixKind::VerbatimUnc || k
            == PrefixKind::VerbatimDisk,
        None => false,
    };
    let implicit = match pre {
        Some((k, _)) => k != PrefixKind::Disk,
        None => false,
    };
    let phys = n < v.len() && (v[n] == '/' || v[n] == '\\');
    let start = if phys {
        n + 1
    } else {
        n
    };
    let pieces = split_pieces(v.as_slice(), start, verbatim);
    let ghost ps = split_seps(v@.subrange(start as int, v@.len() as int), verbatim);
    assert(pieces@[0]@ == ps[0]);
    let mut out: Vec<PathComponent> = Vec::new();
    if pre.is_some() {
        out.push(PathComponent::Prefix(string_of_range(v.as_slice(), 0, n)));
    }
    if phys || (implicit && !verbatim) {
        out.push(PathComponent::RootDir);
    }
    if !phys && !implicit && pieces[0].len() == 1 && pieces[0][0] == '.' {
        out.push(PathComponent::CurDir);
    }
    proof {
        if pieces@[0]@ == seq!['.'] {
            assert(pieces@[0]@.len() == 1 && pieces@[0]@[0] == '.');
        }
        if pieces@[0]@.len() == 1 && pieces@[0]@[0] == '.' {
            assert(pieces@[0]@ =~= seq!['.']);
        }
    }
    let ghost head = comps_view(out@);
    let mut parts: Vec<PathPart> = Vec::new();
    parts_from(&pieces, verbatim, &mut parts);
    assert(parts_model(parts@) =~= parts_of(ps, verbatim));
    let ghost all = parts_model(parts@).map_values(|c: PartModel| comp_of_part(c));
    let mut i: usize = 0;
    assert(head + all.subrange(0, 0) =~= head);
    while i < parts.len()
        invariant
            i <= parts@.len(),
            all == parts_model(parts@).map_values(|c: PartModel| comp_of_part(c)),
            comps_view(out@) == head + all.subrange(0, i as int),
        decreases parts.len() - i,
    {
        let ghost before = comps_view(out@);
        assert(all[i as int] == comp_of_part(part_model(parts@[i as int])));
        let c = match &parts[i] {
            PathPart::Root => PathComponent::RootDir,
            PathPart::Cur => PathComponent::CurDir,
            PathPart::Parent => PathComponent::ParentDir,
            PathPart::Normal(x) => PathComponent::Normal(string_of(x.as_slice())),
        };
        out.push(c);
        assert(comps_view(out@) =~= before.push(all[i as int]));
        assert(all.subrange(0, i + 1) =~= all.subrange(0, i as int).push(all[i as int]));
        i += 1;
    }
    assert(all.subrange(0, i as int) =~= all);
    assert(comps_view(out@) =~= win_comps(v@));
    out
}

/// Splits a path into its components, as std's `Path::components` does on
/// Windows or elsewhere.
pub fn path_components(path: &str, windows: bool) -> (r: Vec<PathComponent>)
    ensures
        comps_view(r@) == path_comps(path@, windows),
{
    let v = chars_of(path);
    if windows {
        win_components(&v)
    } else {
        unix_components(&v)
    }
}

/// The last name of a path, when its last component is a name.
pub open spec fn file_name_of(s: Seq<char>, windows: bool) -> Option<Seq<char>> {
    let cs = path_comps(s, windows);
    if cs.len() > 0 && cs.last() is Normal {
        Some(cs.last()->Normal_0)
    } else {
        None
    }
}

/// The last name of a path (std's `Path::file_name`).
pub fn file_name(path: &str, windows: bool) -> (r: Option<String>)
    ensures
        match file_name_of(path@, windows) {
            Some(n) => r is Some && r->0@ == n,
            None => r is None,
        },
{
    let cs = path_components(path, windows);
    if cs.len() == 0 {
        return None;
    }
    assert(comps_view(cs@).last() == comp_view(cs@[cs@.len() - 1]));
    match &cs[cs.len() - 1] {
        PathComponent::Normal(n) => Some(n.clone()),
        _ => None,
    }
}

/// `s` without any trailing `/` or `\`.
pub open spec fn trim_trailing_seps(s: Seq<char>) -> Seq<char>
    decreases s.len(),
{
    if s.len() > 0 && (s.last() == '/' || s.last() == '\\') {
        trim_trailing_seps(s.drop_last())
    } else {
        s
    }
}

/// The length of `v[..end]` once trailing `/` and `\` are removed.
pub fn trimmed_len(v: &[char]) -> (r: usize)
    ensures
        r <= v@.len(),
        v@.subrange(0, r as int) == trim_trailing_seps(v@),
{
    let mut end = v.len();
    assert(v@.subrange(0, end as int) =~= v@);
    while end > 0 && (v[end - 1] == '/' || v[end - 1] == '\\')
        invariant
            end <= v@.len(),
            trim_trailing_seps(v@) == trim_trailing_seps(v@.subrange(0, end as int)),
        decreases end,
    {
        assert(v@.subrange(0, end as int).drop_last() =~= v@.subrange(0, end - 1));
        end = end - 1;
    }
    end
}

/// `s` without trailing separators, or all of `s` if nothing else is left.
pub open spec fn strip_seps_or_keep(s: Seq<char>) -> Seq<char> {
    if trim_trailing_seps(s).len() == 0 {
        s
    } else {
        trim_trailing_seps(s)
    }
}

/// Removes trailing `/` and `\`, unless nothing else is left.
pub fn strip_trailing_separators(value: &str) -> (r: String)
    ensures
        r@ == strip_seps_or_keep(value@),
{
    let v = chars_of(value);
    let end = trimmed_len(&v);
    if end == 0 {
        owned(value)
    } else {
        string_of_range(&v, 0, end)
    }
}

/// `s` with every `\` written as `/`.
pub open spec fn backslashes_to_slashes(s: Seq<char>) -> Seq<char> {
    s.map_values(|c: char| if c == '\\' { '/' } else { c })
}

/// The name a source gets inside a destination directory: `.` for a path
/// that ends in `/.`, else the last name of the path without trailing
/// separators, else `resolved` (the last name of where the path leads),
/// else the path without trailing separators.
pub open spec fn basename_of(display: Seq<char>, resolved: Option<Seq<char>>, windows: bool) -> Seq<
    char,
> {
    if has_suffix(backslashes_to_slashes(display), "/."@) {
        "."@
    } else {
        let cleaned = strip_seps_or_keep(display);
        match file_name_of(cleaned, windows) {
            Some(n) => n,
            None => match resolved {
                Some(n) => n,
                None => cleaned,
            },
        }
    }
}

/// The name a source gets inside a destination directory.
pub fn source_basename(display: &str, resolved: Option<String>, windows: bool) -> (r: String)
    ensures
        r@ == basename_of(display@, opt_view(resolved), windows),
{
    let v = chars_of(display);
    let n = v.len();
    let dot_tail = n >= 2 && v[n - 1] == '.' && (v[n - 2] == '/' || v[n - 2] == '\\');
    proof {
        let b = backslashes_to_slashes(display@);
        reveal_strlit("/.");
        assert("/."@ =~= seq!['/', '.']);
        assert(b.len() == n);
        assert(dot_tail == has_suffix(b, "/."@)) by {
            if n >= 2 {
                assert(b.subrange(b.len() - 2, b.len() as int) =~= seq![b[n - 2], b[n - 1]]);
                assert(b[n - 1] == (if v@[n - 1] == '\\' {
                    '/'
                } else {
                    v@[n - 1]
                }));
                assert(b[n - 2] == (if v@[n - 2] == '\\' {
                    '/'
                } else {
                    v@[n - 2]
                }));
            }
        }
    }
    if dot_tail {
        return owned(".");
    }
    let cleaned = strip_trailing_separators(display);
    match file_name(cleaned.as_str(), windows) {
        Some(name) => name,
        None => match resolved {
            Some(name) => name,
            None => cleaned,
        },
    }
}

/// The names a source keeps under the destination with `--parents`: its
/// names and `..` in order, a drive without its `:`, and nothing for the
/// root or a leading `.`.
pub open spec fn relative_names(cs: Seq<CompModel>) -> Seq<Seq<char>>
    decreases cs.len(),
{
    if cs.len() == 0 {
        Seq::empty()
    } else {
        let prev = relative_names(cs.drop_last());
        match cs.last() {
            CompModel::Normal(v) => prev.push(v),
            CompModel::ParentDir => prev.push(".."@),
            CompModel::Prefix(p) => prev.push(drop_colons(p)),
            _ => prev,
        }
    }
}

/// The path under the destination with `--parents`, as the names to join;
/// a path with no such name falls back to its basename.
pub open spec fn parent_preserving(display: Seq<char>, windows: bool) -> Seq<Seq<char>> {
    let names = relative_names(path_comps(display, windows));
    if names.len() == 0 {
        seq![basename_of(display, file_name_of(display, windows), windows)]
    } else {
        names
    }
}

/// `s` without its colons.
pub open spec fn drop_colons(s: Seq<char>) -> Seq<char>
    decreases s.len(),
{
    if s.len() == 0 {
        s
    } else if s.last() == ':' {
        drop_colons(s.drop_last())
    } else {
        drop_colons(s.drop_last()).push(s.last())
    }
}

/// `s` without its colons.
fn without_colons(s: &String) -> (r: String)
    ensures
        r@ == drop_colons(s@),
{
    let v = chars_of(s.as_str());
    let mut out: Vec<char> = Vec::new();
    let mut i: usize = 0;
    assert(v@.subrange(0, 0) =~= Seq::<char>::empty());
    while i < v.len()
        invariant
            i <= v@.len(),
            v@ == s@,
            out@ == drop_colons(v@.subrange(0, i as int)),
        decreases v.len() - i,
    {
        assert(v@.subrange(0, i + 1).drop_last() =~= v@.subrange(0, i as int));
        if v[i] != ':' {
            out.push(v[i]);
        }
        i = i + 1;
    }
    assert(v@.subrange(0, v@.len() as int) =~= v@);
    string_of(&out)
}

/// The names that place a source under the destination with `--parents`.
pub fn parent_preserving_relative_path(display: &str, windows: bool) -> (r: Vec<String>)
    ensures
        views(r@) == parent_preserving(display@, windows),
{
    let cs = path_components(display, windows);
    let ghost cv = comps_view(cs@);
    let mut names: Vec<String> = Vec::new();
    let mut i: usize = 0;
    assert(cv.subrange(0, 0) =~= Seq::<CompModel>::empty());
    while i < cs.len()
        invariant
            i <= cs@.len(),
            cv == comps_view(cs@),
            views(names@) == relative_names(cv.subrange(0, i as int)),
        decreases cs.len() - i,
    {
        assert(cv.subrange(0, i + 1).drop_last() =~= cv.subrange(0, i as int));
        assert(cv.subrange(0, i + 1).last() == comp_view(cs@[i as int]));
        let ghost before = views(names@);
        match &cs[i] {
            PathComponent::Normal(v) => {
                names.push(v.clone());
                assert(views(names@) =~= before.push(v@));
            },
            PathComponent::ParentDir => {
                names.push(owned(".."));
                assert(views(names@) =~= before.push(".."@));
            },
            PathComponent::Prefix(p) => {
                let q = without_colons(p);
                names.push(q);
                assert(views(names@) =~= before.push(
                    drop_colons(p@),
                ));
            },
            _ => {
                assert(views(names@) =~= before);
            },
        }
        i = i + 1;
    }
    assert(cv.subrange(0, cv.len() as int) =~= cv);
    if names.len() == 0 {
        let b = source_basename(display, file_name(display, windows), windows);
        let mut one: Vec<String> = Vec::new();
        one.push(b);
        assert(views(one@) =~= seq![b@]);
        return one;
    }
    names
}

/// A path that is the root of a file system: the root alone, or a drive
/// followed by the root alone.
pub open spec fn root_only(comps: Seq<CompModel>) -> bool {
    ||| comps.len() == 1 && comps[0] is RootDir
    ||| comps.len() == 2 && comps[0] is Prefix && comps[1] is RootDir
}

/// Whether the path names the root of a file system (`/`, or `C:\` on
/// Windows).
pub fn is_filesystem_root(path: &str, windows: bool) -> (r: bool)
    ensures
        r == root_only(path_comps(path@, windows)),
{
    let comps = path_components(path, windows);
    assert(comps_view(comps@).len() == comps@.len());
    if comps.len() == 1 {
        assert(comps_view(comps@)[0] == comp_view(comps@[0]));
        match &comps[0] {
            PathComponent::RootDir => true,
            _ => false,
        }
    } else if comps.len() == 2 {
        assert(comps_view(comps@)[0] == comp_view(comps@[0]));
        assert(comps_view(comps@)[1] == comp_view(comps@[1]));
        match (&comps[0], &comps[1]) {
            (PathComponent::Prefix(_), PathComponent::RootDir) => true,
            _ => false,
        }
    } else {
        false
    }
}

} // verus!
