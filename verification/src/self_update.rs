//! Self-update: option parsing, URL splitting for the HTTP client, request
//! headers, release-asset selection and release-tag comparison.
use vstd::prelude::*;
use crate::text::{
    all_digits, ascii_lower_text, ascii_lowercase_chars, chars_eq, chars_of, ends_with,
    find_char_from, find_last_char, first_index, has_char, has_prefix, has_suffix, is_alnum,
    last_index, lemma_first_index, lemma_first_index_at, lemma_first_index_none, lemma_last_index,
    owned, parse_unsigned, parse_unsigned_chars, push_char, split_by, split_chars, starts_with,
    str_eq, string_of, string_of_range, trim_chars, trim_ws, vviews, views, ascii_alnum, TrimSet,
};

verus! {

/// Options of `--self-update`.
#[derive(Debug, Clone, PartialEq, Eq)]
pub struct SelfUpdateOptions {
    pub check: bool,
    pub dry_run: bool,
    pub force: bool,
    pub repo: String,
}

/// The repository that releases are looked up in by default.
pub open spec fn default_repo() -> Seq<char> {
    "unixwin/winuxsh"@
}

impl Default for SelfUpdateOptions {
    fn default() -> (r: Self)
        ensures
            !r.check && !r.dry_run && !r.force && r.repo@ == default_repo(),
    {
        SelfUpdateOptions { check: false, dry_run: false, force: false, repo: owned("unixwin/winuxsh") }
    }
}

/// The options as plain values: check, dry run, force, repository.
pub open spec fn options_model(o: SelfUpdateOptions) -> (bool, bool, bool, Seq<char>) {
    (o.check, o.dry_run, o.force, o.repo@)
}

/// The result of parsing `args[i..]` on top of the options `st`; an error is
/// the message that `--self-update` reports.
pub open spec fn parse_update_args(
    args: Seq<Seq<char>>,
    i: int,
    st: (bool, bool, bool, Seq<char>),
) -> Result<(bool, bool, bool, Seq<char>), Seq<char>>
    decreases args.len() - i,
{
    if i < 0 || i >= args.len() {
        Ok(st)
    } else {
        let a = args[i];
        if a == "--check"@ {
            parse_update_args(args, i + 1, (true, st.1, st.2, st.3))
        } else if a == "--dry-run"@ {
            parse_update_args(args, i + 1, (st.0, true, st.2, st.3))
        } else if a == "--force"@ {
            parse_update_args(args, i + 1, (st.0, st.1, true, st.3))
        } else if a == "--repo"@ {
            if i + 1 < args.len() {
                parse_update_args(args, i + 2, (st.0, st.1, st.2, args[i + 1]))
            } else {
                Err("--repo requires owner/name"@)
            }
        } else {
            Err("unknown --self-update option '"@ + a + "'"@)
        }
    }
}

/// Parses the arguments that follow `--self-update`.
pub fn parse_options(args: &[String]) -> (r: Result<SelfUpdateOptions, String>)
    ensures
        match parse_update_args(views(args@), 0, (false, false, false, default_repo())) {
            Ok(m) => r is Ok && options_model(r->Ok_0) == m,
            Err(e) => r is Err && r->Err_0@ == e,
        },
{
    let mut options = SelfUpdateOptions::default();
    let ghost all = views(args@);
    let mut i: usize = 0;
    while i < args.len()
        invariant
            i <= args@.len(),
            all == views(args@),
            parse_update_args(all, i as int, options_model(options)) == parse_update_args(
                all,
                0,
                (false, false, false, default_repo()),
            ),
        decreases args.len() - i,
    {
        let a = args[i].as_str();
        assert(all[i as int] == args@[i as int]@);
        if str_eq(a, "--check") {
            options.check = true;
        } else if str_eq(a, "--dry-run") {
            options.dry_run = true;
        } else if str_eq(a, "--force") {
            options.force = true;
        } else if str_eq(a, "--repo") {
            i = i + 1;
            if i >= args.len() {
                return Err(owned("--repo requires owner/name"));
            }
            assert(all[i as int] == args@[i as int]@);
            options.repo = args[i].clone();
        } else {
            let m = owned("unknown --self-update option '").concat(a).concat("'");
            return Err(m);
        }
        i = i + 1;
    }
    Ok(options)
}

/// A URL split into what the HTTP client needs.
#[derive(Debug)]
pub struct ParsedUrl {
    pub secure: bool,
    pub host: String,
    pub port: u16,
    pub path: String,
}

/// Where the authority of a URL ends: at its first `/`, `?` or `#`.
pub open spec fn authority_end(s: Seq<char>) -> int
    decreases s.len(),
{
    if s.len() == 0 {
        0
    } else if s[0] == '/' || s[0] == '?' || s[0] == '#' {
        0
    } else {
        1 + authority_end(s.drop_first())
    }
}

/// The message for a port that is not a valid `u16`.
pub open spec fn port_error(raw: Seq<char>) -> Seq<char> {
    "invalid URL port '"@ + raw + "'"@
}

/// Host and port of an authority; bracketed IPv6 hosts keep their brackets.
pub open spec fn host_port(a: Seq<char>, secure: bool) -> Result<(Seq<char>, int), Seq<char>> {
    let default_port: int = if secure { 443 } else { 80 };
    if a.len() > 0 && a[0] == '[' {
        match first_index(a, ']') {
            None => Err("invalid IPv6 URL host"@),
            Some(e) => {
                let host = a.subrange(0, e + 1);
                let rest = a.subrange(e + 1, a.len() as int);
                if rest.len() > 0 && rest[0] == ':' {
                    match parse_unsigned(rest.drop_first(), 65535) {
                        Some(p) => Ok((host, p)),
                        None => Err(port_error(rest.drop_first())),
                    }
                } else if rest.len() == 0 {
                    Ok((host, default_port))
                } else {
                    Err("invalid URL authority"@)
                }
            },
        }
    } else {
        match last_index(a, ':') {
            Some(c) => {
                let host = a.subrange(0, c);
                let raw = a.subrange(c + 1, a.len() as int);
                if raw.len() == 0 || !all_digits(raw) {
                    Err(port_error(raw))
                } else if host.len() == 0 {
                    Err("invalid URL host"@)
                } else {
                    match parse_unsigned(raw, 65535) {
                        Some(p) => Ok((host, p)),
                        None => Err(port_error(raw)),
                    }
                }
            },
            None => Ok((a, default_port)),
        }
    }
}

/// The request path for what follows the authority (fragment removed).
pub open spec fn request_path(tail: Seq<char>) -> Seq<char> {
    if tail.len() == 0 {
        "/"@
    } else if tail[0] == '/' {
        tail
    } else {
        seq!['/'] + tail
    }
}

/// `tail` without a `#` fragment.
pub open spec fn without_fragment(tail: Seq<char>) -> Seq<char> {
    match first_index(tail, '#') {
        Some(j) => tail.subrange(0, j),
        None => tail,
    }
}

/// A URL split into security, host, port and path, or the error message.
pub open spec fn url_parts(url: Seq<char>) -> Result<(bool, Seq<char>, int, Seq<char>), Seq<char>> {
    let https = "https://"@;
    let http = "http://"@;
    if !has_prefix(url, https) && !has_prefix(url, http) {
        Err("unsupported URL scheme in "@ + url)
    } else {
        let secure = has_prefix(url, https);
        let rest = if secure {
            url.subrange(https.len() as int, url.len() as int)
        } else {
            url.subrange(http.len() as int, url.len() as int)
        };
        let k = authority_end(rest);
        let authority = rest.subrange(0, k);
        let tail = without_fragment(rest.subrange(k, rest.len() as int));
        if authority.len() == 0 || has_char(authority, '@') {
            Err("unsupported URL authority in "@ + url)
        } else {
            match host_port(authority, secure) {
                Err(e) => Err(e),
                Ok((host, port)) => Ok((secure, host, port, request_path(tail))),
            }
        }
    }
}

/// Parses a port number.
pub fn parse_port(raw: &str) -> (r: Result<u16, String>)
    ensures
        match parse_unsigned(raw@, 65535) {
            Some(p) => r matches Ok(q) && q == p,
            None => r is Err && r->Err_0@ == port_error(raw@),
        },
{
    match crate::text::parse_unsigned_str(raw, 65535) {
        Some(p) => Ok(p as u16),
        None => Err(owned("invalid URL port '").concat(raw).concat("'")),
    }
}

/// Splits an authority into host and port.
pub fn split_host_port(authority: &str, secure: bool) -> (r: Result<(String, u16), String>)
    ensures
        match host_port(authority@, secure) {
            Ok((h, p)) => r is Ok && r->Ok_0.0@ == h && r->Ok_0.1 == p,
            Err(e) => r is Err && r->Err_0@ == e,
        },
{
    let a = chars_of(authority);
    let n = a.len();
    let default_port: u16 = if secure {
        443
    } else {
        80
    };
    if n > 0 && a[0] == '[' {
        proof {
            lemma_first_index(a@, ']');
        }
        let end = match find_char_from(&a, ']', 0) {
            Some(e) => e,
            None => {
                proof {
                    lemma_first_index_none(a@, ']');
                }
                return Err(owned("invalid IPv6 URL host"));
            },
        };
        proof {
            lemma_first_index_at(a@, ']', end as int);
        }
        let host = string_of_range(&a, 0, end + 1);
        assert(host@ == a@.subrange(0, end + 1));
        assert(end + 1 < n ==> a@.subrange(end + 1, n as int)[0] == a@[end + 1]);
        assert(end + 1 == n ==> a@.subrange(end + 1, n as int).len() == 0);
        if end + 1 < n && a[end + 1] == ':' {
            let raw = string_of_range(&a, end + 2, n);
            assert(a@.subrange(end + 1, n as int).drop_first() =~= a@.subrange(end + 2, n as int));
            match parse_port(raw.as_str()) {
                Ok(p) => {
                    return Ok((host, p));
                },
                Err(e) => {
                    return Err(e);
                },
            }
        } else if end + 1 == n {
            return Ok((host, default_port));
        } else {
            return Err(owned("invalid URL authority"));
        }
    }
    proof {
        lemma_last_index(a@, ':');
    }
    match find_last_char(&a, ':') {
        Some(c) => {
            let raw = string_of_range(&a, c + 1, n);
            let rc = chars_of(raw.as_str());
            let mut digits = rc.len() > 0;
            let mut k: usize = 0;
            while k < rc.len()
                invariant
                    k <= rc@.len(),
                    digits ==> rc@.len() > 0 && all_digits(rc@.subrange(0, k as int)),
                    !digits ==> rc@.len() == 0 || !all_digits(rc@),
                decreases rc.len() - k,
            {
                if !crate::text::ascii_digit(rc[k]) {
                    digits = false;
                }
                k = k + 1;
            }
            assert(rc@.subrange(0, rc@.len() as int) =~= rc@);
            if !digits {
                return Err(owned("invalid URL port '").concat(raw.as_str()).concat("'"));
            }
            if c == 0 {
                return Err(owned("invalid URL host"));
            }
            let host = string_of_range(&a, 0, c);
            match parse_port(raw.as_str()) {
                Ok(p) => Ok((host, p)),
                Err(e) => Err(e),
            }
        },
        None => Ok((owned(authority), default_port)),
    }
}

impl ParsedUrl {
    /// The URL as plain values: security, host, port, path.
    pub open spec fn model(&self) -> (bool, Seq<char>, int, Seq<char>) {
        (self.secure, self.host@, self.port as int, self.path@)
    }

    /// Splits an `http://` or `https://` URL for the HTTP client.
    pub fn parse(url: &str) -> (r: Result<ParsedUrl, String>)
        ensures
            match url_parts(url@) {
                Ok(m) => r is Ok && r->Ok_0.model() == m,
                Err(e) => r is Err && r->Err_0@ == e,
            },
    {
        let v = chars_of(url);
        let n = v.len();
        let https = chars_of("https://");
        let http = chars_of("http://");
        let secure;
        let start;
        if starts_with(&v, &https) {
            secure = true;
            start = https.len();
        } else if starts_with(&v, &http) {
            secure = false;
            start = http.len();
        } else {
            return Err(owned("unsupported URL scheme in ").concat(url));
        }
        let ghost rest = v@.subrange(start as int, n as int);
        let mut k = start;
        while k < n && !(v[k] == '/' || v[k] == '?' || v[k] == '#')
            invariant
                start <= k <= n == v@.len(),
                authority_end(rest) == (k - start) + authority_end(v@.subrange(k as int, n as int)),
            decreases n - k,
        {
            assert(v@.subrange(k as int, n as int).drop_first() =~= v@.subrange(k + 1, n as int));
            k = k + 1;
        }
        let ghost ka = authority_end(rest);
        assert(ka == k - start);
        assert(rest.subrange(0, ka) =~= v@.subrange(start as int, k as int));
        assert(rest.subrange(ka, rest.len() as int) =~= v@.subrange(k as int, n as int));
        let ghost tail0 = v@.subrange(k as int, n as int);
        let frag = find_char_from(&v, '#', k);
        let tail_end = match frag {
            Some(j) => j,
            None => n,
        };
        proof {
            match frag {
                Some(j) => {
                    assert forall|x: int| 0 <= x < j - k implies tail0[x] != '#' by {
                        assert(tail0[x] == v@[x + k]);
                    }
                    lemma_first_index_at(tail0, '#', j - k);
                },
                None => {
                    assert forall|x: int| 0 <= x < tail0.len() implies tail0[x] != '#' by {
                        assert(tail0[x] == v@[x + k]);
                    }
                    lemma_first_index_none(tail0, '#');
                },
            }
            assert(without_fragment(tail0) =~= v@.subrange(k as int, tail_end as int));
        }
        if k == start || crate::text::contains_char(&v.as_slice()[start..k], '@') {
            return Err(owned("unsupported URL authority in ").concat(url));
        }
        let authority = string_of_range(&v, start, k);
        let (host, port) = match split_host_port(authority.as_str(), secure) {
            Ok(hp) => hp,
            Err(e) => {
                return Err(e);
            },
        };
        let path;
        if tail_end == k {
            path = owned("/");
        } else if v[k] == '/' {
            path = string_of_range(&v, k, tail_end);
        } else {
            let mut p = String::new();
            push_char(&mut p, '/');
            let t = string_of_range(&v, k, tail_end);
            path = p.concat(t.as_str());
            assert(path@ =~= seq!['/'] + v@.subrange(k as int, tail_end as int));
        }
        Ok(ParsedUrl { secure, host, port, path })
    }
}

/// The fixed request headers of GitHub REST calls.
pub open spec fn base_headers() -> Seq<char> {
    "User-Agent: winuxsh/0.6.0\r\nAccept: application/vnd.github+json\r\nX-GitHub-Api-Version: 2022-11-28\r\n"@
}

/// A header value is usable when, once trimmed, it is non-empty and holds no
/// line break (which could inject another header).
pub open spec fn clean_value(v: Seq<char>) -> Option<Seq<char>> {
    let t = trim_ws(v);
    if t.len() == 0 || has_char(t, '\r') || has_char(t, '\n') {
        None
    } else {
        Some(t)
    }
}

/// The trimmed header value, or `None` when it is empty or holds a line break.
pub fn clean_header_value(value: &str) -> (r: Option<String>)
    ensures
        match clean_value(value@) {
            Some(t) => r is Some && r->0@ == t,
            None => r is None,
        },
{
    let v = chars_of(value);
    let t = trim_chars(&v, TrimSet::Whitespace);
    if t.len() == 0 || crate::text::contains_char(&t, '\r') || crate::text::contains_char(&t, '\n') {
        None
    } else {
        Some(string_of(&t))
    }
}

/// The request headers, with a bearer token when one is usable.
pub open spec fn headers_for(token: Option<Seq<char>>) -> Seq<char> {
    match token {
        Some(t) => match clean_value(t) {
            Some(c) => base_headers() + "Authorization: Bearer "@ + c + "\r\n"@,
            None => base_headers(),
        },
        None => base_headers(),
    }
}

/// The headers sent with every GitHub request, with `Authorization` when a
/// clean token is given.
pub fn request_headers_for_token(token: Option<&str>) -> (r: String)
    ensures
        r@ == headers_for(match token {
            Some(t) => Some(t@),
            None => None,
        }),
{
    let headers = owned(
        "User-Agent: winuxsh/0.6.0\r\nAccept: application/vnd.github+json\r\nX-GitHub-Api-Version: 2022-11-28\r\n",
    );
    match token {
        Some(t) => match clean_header_value(t) {
            Some(c) => headers.concat("Authorization: Bearer ").concat(c.as_str()).concat("\r\n"),
            None => headers,
        },
        None => headers,
    }
}

/// What `String::from_utf8_lossy` decodes from the bytes.
pub uninterp spec fn lossy_utf8(bytes: Seq<u8>) -> Seq<char>;

/// std's `String::from_utf8_lossy`; the result is named by `lossy_utf8`.
/// Valid UTF-8 comes back unchanged, so ASCII bytes come back one
/// character each.
#[verifier::external_body]
fn utf8_lossy(bytes: &[u8]) -> (r: String)
    ensures
        r@ == lossy_utf8(bytes@),
        (forall|i: int| 0 <= i < bytes@.len() ==> bytes@[i] < 128) ==> r@ == bytes@.map_values(
            |b: u8| b as char,
        ),
{
    String::from_utf8_lossy(bytes).into_owned()
}

/// The non-empty lines of `parts`, each trimmed.
pub open spec fn kept_lines(parts: Seq<Seq<char>>) -> Seq<Seq<char>>
    decreases parts.len(),
{
    if parts.len() == 0 {
        Seq::<Seq<char>>::empty()
    } else {
        let prev = kept_lines(parts.drop_last());
        let t = trim_ws(parts.last());
        if t.len() > 0 {
            prev.push(t)
        } else {
            prev
        }
    }
}

/// The texts joined with single spaces.
pub open spec fn join_space(ls: Seq<Seq<char>>) -> Seq<char>
    decreases ls.len(),
{
    if ls.len() == 0 {
        Seq::<char>::empty()
    } else if ls.len() == 1 {
        ls[0]
    } else {
        join_space(ls.drop_last()) + seq![' '] + ls.last()
    }
}

/// At most the first `n` elements of `s`.
pub open spec fn first_n<A>(s: Seq<A>, n: int) -> Seq<A> {
    if s.len() <= n {
        s
    } else {
        s.subrange(0, n)
    }
}

/// The summary of an error response body: its first three non-blank lines,
/// trimmed and joined with spaces, cut to 300 characters.
pub open spec fn error_detail(text: Seq<char>) -> Seq<char> {
    first_n(join_space(first_n(kept_lines(split_by(text, '\n')), 3)), 300)
}

/// Summarizes an HTTP error body for an error message.
pub fn response_error_detail(body: &[u8]) -> (r: String)
    ensures
        r@ == error_detail(lossy_utf8(body@)),
        (forall|i: int| 0 <= i < body@.len() ==> body@[i] < 128) ==> r@ == error_detail(
            body@.map_values(|b: u8| b as char),
        ),
        r@.len() <= 300,
{
    let text = utf8_lossy(body);
    let tv = chars_of(text.as_str());
    let parts = split_chars(&tv, '\n');
    let mut kept: Vec<Vec<char>> = Vec::new();
    let mut i: usize = 0;
    while i < parts.len()
        invariant
            i <= parts@.len(),
            vviews(parts@) == split_by(text@, '\n'),
            vviews(kept@) == kept_lines(vviews(parts@).subrange(0, i as int)),
        decreases parts.len() - i,
    {
        let ghost before = vviews(kept@);
        assert(vviews(parts@).subrange(0, i + 1).drop_last() =~= vviews(parts@).subrange(0, i as int));
        assert(vviews(parts@)[i as int] == parts@[i as int]@);
        let t = trim_chars(&parts[i], TrimSet::Whitespace);
        if t.len() > 0 {
            kept.push(t);
            assert(vviews(kept@) =~= before.push(kept@.last()@));
        }
        i = i + 1;
    }
    assert(vviews(parts@).subrange(0, parts@.len() as int) =~= vviews(parts@));
    let ghost lines = first_n(vviews(kept@), 3);
    let take = if kept.len() < 3 {
        kept.len()
    } else {
        3
    };
    assert(lines =~= vviews(kept@).subrange(0, take as int));
    let mut joined: Vec<char> = Vec::new();
    let mut j: usize = 0;
    while j < take
        invariant
            take <= kept@.len(),
            j <= take,
            joined@ == join_space(vviews(kept@).subrange(0, j as int)),
        decreases take - j,
    {
        assert(vviews(kept@).subrange(0, j + 1).drop_last() =~= vviews(kept@).subrange(0, j as int));
        assert(vviews(kept@)[j as int] == kept@[j as int]@);
        if j > 0 {
            joined.push(' ');
        }
        let mut q: usize = 0;
        let ghost base = joined@;
        while q < kept[j].len()
            invariant
                j < take <= kept@.len(),
                q <= kept@[j as int]@.len(),
                joined@ == base + kept@[j as int]@.subrange(0, q as int),
            decreases kept@[j as int]@.len() - q,
        {
            joined.push(kept[j][q]);
            q = q + 1;
        }
        assert(kept@[j as int]@.subrange(0, kept@[j as int]@.len() as int) =~= kept@[j as int]@);
        if j == 0 {
            assert(joined@ =~= join_space(vviews(kept@).subrange(0, 1)));
        } else {
            assert(joined@ =~= join_space(vviews(kept@).subrange(0, j + 1)));
        }
        j = j + 1;
    }
    let lim = if joined.len() < 300 {
        joined.len()
    } else {
        300
    };
    string_of_range(&joined, 0, lim)
}

/// A file name character that is kept as is; others become `_`.
pub open spec fn safe_char(c: char) -> char {
    if is_alnum(c) || c == '.' || c == '-' || c == '_' {
        c
    } else {
        '_'
    }
}

/// Makes a release asset name safe to use as a file name: every character
/// other than ASCII letters, digits, `.`, `-` and `_` becomes `_`.
pub fn safe_asset_name(name: &str) -> (r: String)
    ensures
        r@ == name@.map_values(|c: char| safe_char(c)),
        r@.len() == name@.len(),
{
    let v = chars_of(name);
    let mut out: Vec<char> = Vec::new();
    let mut i: usize = 0;
    while i < v.len()
        invariant
            i <= v@.len(),
            v@ == name@,
            out@ =~= v@.subrange(0, i as int).map_values(|c: char| safe_char(c)),
        decreases v.len() - i,
    {
        let c = v[i];
        if ascii_alnum(c) || c == '.' || c == '-' || c == '_' {
            out.push(c);
        } else {
            out.push('_');
        }
        i = i + 1;
    }
    assert(v@.subrange(0, v@.len() as int) =~= v@);
    string_of(&out)
}

/// A downloadable file of a release.
#[derive(Debug, Clone, PartialEq, Eq)]
pub struct GitHubAsset {
    pub name: String,
    pub browser_download_url: String,
}

/// The kinds of release packages.
#[derive(Debug, Clone, Copy, PartialEq, Eq)]
pub enum PackageKind {
    /// `winuxsh-v*-win-<arch>-setup.exe`
    Installer,
    /// `winuxsh-v*-win-<arch>.zip`
    Portable,
}

/// The file name ending of a package for an architecture.
pub open spec fn package_suffix(kind: PackageKind, arch: Seq<char>) -> Seq<char> {
    match kind {
        PackageKind::Installer => "-win-"@ + arch + "-setup.exe"@,
        PackageKind::Portable => "-win-"@ + arch + ".zip"@,
    }
}

/// The asset name, ASCII-lower-cased, names a package of this kind.
pub open spec fn asset_is(name: Seq<char>, kind: PackageKind, arch: Seq<char>) -> bool {
    let n = ascii_lower_text(name);
    has_prefix(n, "winuxsh-v"@) && has_suffix(n, package_suffix(kind, arch))
}

/// Index of the first asset that is a package of this kind.
pub open spec fn first_package(assets: Seq<GitHubAsset>, kind: PackageKind, arch: Seq<char>) -> Option<int>
    decreases assets.len(),
{
    if assets.len() == 0 {
        None
    } else if asset_is(assets[0].name@, kind, arch) {
        Some(0)
    } else {
        match first_package(assets.drop_first(), kind, arch) {
            Some(i) => Some(i + 1),
            None => None,
        }
    }
}

/// The first asset that is a package of the kind for the architecture.
pub fn select_asset<'a>(assets: &'a [GitHubAsset], arch: &str, kind: PackageKind) -> (r: Option<&'a GitHubAsset>)
    ensures
        match first_package(assets@, kind, arch@) {
            Some(i) => 0 <= i < assets@.len() && r == Some(&assets@[i]),
            None => r is None,
        },
{
    let suffix = match kind {
        PackageKind::Installer => owned("-win-").concat(arch).concat("-setup.exe"),
        PackageKind::Portable => owned("-win-").concat(arch).concat(".zip"),
    };
    let sv = chars_of(suffix.as_str());
    let prefix = chars_of("winuxsh-v");
    let mut i: usize = 0;
    assert(assets@.subrange(0, assets@.len() as int) =~= assets@);
    proof {
        match first_package(assets@, kind, arch@) {
            Some(j) => assert(j + 0 == j),
            None => {},
        }
    }
    while i < assets.len()
        invariant
            i <= assets@.len(),
            sv@ == package_suffix(kind, arch@),
            prefix@ == "winuxsh-v"@,
            first_package(assets@, kind, arch@) == match first_package(
                assets@.subrange(i as int, assets@.len() as int),
                kind,
                arch@,
            ) {
                Some(j) => Some(j + i),
                None => None,
            },
        decreases assets.len() - i,
    {
        let ghost t = assets@.subrange(i as int, assets@.len() as int);
        assert(t[0] == assets@[i as int]);
        let name = ascii_lowercase_chars(assets[i].name.as_str());
        if starts_with(&name, &prefix) && ends_with(&name, &sv) {
            return Some(&assets[i]);
        }
        assert(t.drop_first() =~= assets@.subrange(i + 1, assets@.len() as int));
        i = i + 1;
    }
    None
}

/// The first installer asset (`winuxsh-v*-win-<arch>-setup.exe`).
pub fn select_installer_asset<'a>(assets: &'a [GitHubAsset], arch: &str) -> (r: Option<&'a GitHubAsset>)
    ensures
        match first_package(assets@, PackageKind::Installer, arch@) {
            Some(i) => 0 <= i < assets@.len() && r == Some(&assets@[i]),
            None => r is None,
        },
{
    select_asset(assets, arch, PackageKind::Installer)
}

/// The first portable package asset (`winuxsh-v*-win-<arch>.zip`).
pub fn select_portable_asset<'a>(assets: &'a [GitHubAsset], arch: &str) -> (r: Option<&'a GitHubAsset>)
    ensures
        match first_package(assets@, PackageKind::Portable, arch@) {
            Some(i) => 0 <= i < assets@.len() && r == Some(&assets@[i]),
            None => r is None,
        },
{
    select_asset(assets, arch, PackageKind::Portable)
}

/// The release architecture name for Rust's `std::env::consts::ARCH`.
pub fn release_arch_for(arch: &str) -> (r: &'static str)
    ensures
        r@ == (if arch@ == "aarch64"@ { "arm64"@ } else { "x64"@ }),
{
    if str_eq(arch, "aarch64") {
        "arm64"
    } else {
        "x64"
    }
}

/// A release tag `vMAJOR.MINOR.PATCH` (the `v` is optional) as numbers.
pub open spec fn version_of(tag: Seq<char>) -> Option<(int, int, int)> {
    let t = if tag.len() > 0 && tag[0] == 'v' {
        tag.drop_first()
    } else {
        tag
    };
    let parts = split_by(t, '.');
    if parts.len() == 3 && parse_unsigned(parts[0], 0xffff_ffff_ffff_ffff) is Some && parse_unsigned(
        parts[1],
        0xffff_ffff_ffff_ffff,
    ) is Some && parse_unsigned(parts[2], 0xffff_ffff_ffff_ffff) is Some {
        Some(
            (
                parse_unsigned(parts[0], 0xffff_ffff_ffff_ffff)->0,
                parse_unsigned(parts[1], 0xffff_ffff_ffff_ffff)->0,
                parse_unsigned(parts[2], 0xffff_ffff_ffff_ffff)->0,
            ),
        )
    } else {
        None
    }
}

/// Lexicographic order on version triples.
pub open spec fn version_gt(a: (int, int, int), b: (int, int, int)) -> bool {
    a.0 > b.0 || (a.0 == b.0 && (a.1 > b.1 || (a.1 == b.1 && a.2 > b.2)))
}

/// Whether the release is newer than the running version: by version
/// numbers when both tags parse, `true` when only the release's parses, and
/// by inequality of the texts when the release's does not.
pub open spec fn newer(release: Seq<char>, current: Seq<char>) -> bool {
    match version_of(release) {
        None => release != current,
        Some(r) => match version_of(current) {
            None => true,
            Some(c) => version_gt(r, c),
        },
    }
}

/// Parses a release tag such as `v0.8.1`.
pub fn parse_version_tag(tag: &str) -> (r: Option<(u64, u64, u64)>)
    ensures
        match (version_of(tag@), r) {
            (Some((a, b, c)), Some((x, y, z))) => a == x && b == y && c == z,
            (None, None) => true,
            _ => false,
        },
{
    let v = chars_of(tag);
    let t: Vec<char> = if v.len() > 0 && v[0] == 'v' {
        let mut t: Vec<char> = Vec::new();
        let mut i: usize = 1;
        while i < v.len()
            invariant
                1 <= i <= v@.len(),
                t@ == v@.subrange(1, i as int),
            decreases v.len() - i,
        {
            t.push(v[i]);
            i = i + 1;
        }
        assert(t@ =~= v@.drop_first());
        t
    } else {
        v
    };
    let parts = split_chars(&t, '.');
    if parts.len() != 3 {
        return None;
    }
    assert(vviews(parts@)[0] == parts@[0]@);
    assert(vviews(parts@)[1] == parts@[1]@);
    assert(vviews(parts@)[2] == parts@[2]@);
    assert(parts@[0]@.subrange(0, parts@[0]@.len() as int) =~= parts@[0]@);
    assert(parts@[1]@.subrange(0, parts@[1]@.len() as int) =~= parts@[1]@);
    assert(parts@[2]@.subrange(0, parts@[2]@.len() as int) =~= parts@[2]@);
    let major = match parse_unsigned_chars(&parts[0], 0, parts[0].len(), 0xffff_ffff_ffff_ffff) {
        Some(x) => x,
        None => {
            return None;
        },
    };
    let minor = match parse_unsigned_chars(&parts[1], 0, parts[1].len(), 0xffff_ffff_ffff_ffff) {
        Some(x) => x,
        None => {
            return None;
        },
    };
    let patch = match parse_unsigned_chars(&parts[2], 0, parts[2].len(), 0xffff_ffff_ffff_ffff) {
        Some(x) => x,
        None => {
            return None;
        },
    };
    Some((major, minor, patch))
}

/// Whether the release tag names a newer version than the current tag.
pub fn release_is_newer(release_tag: &str, current_tag: &str) -> (r: bool)
    ensures
        r == newer(release_tag@, current_tag@),
{
    let release = match parse_version_tag(release_tag) {
        Some(x) => x,
        None => {
            return !str_eq(release_tag, current_tag);
        },
    };
    let current = match parse_version_tag(current_tag) {
        Some(x) => x,
        None => {
            return true;
        },
    };
    release.0 > current.0 || (release.0 == current.0 && (release.1 > current.1 || (release.1
        == current.1 && release.2 > current.2)))
}

/// Law: no tag is newer than itself, so a release never replaces the same
/// version.
pub proof fn law_release_not_newer_than_itself(tag: Seq<char>)
    ensures
        !newer(tag, tag),
{
}

/// Law: of two tags that both parse, at most one is newer than the other, so
/// an update never goes back and forth.
pub proof fn law_release_newer_is_asymmetric(a: Seq<char>, b: Seq<char>)
    requires
        version_of(a) is Some,
        version_of(b) is Some,
    ensures
        !(newer(a, b) && newer(b, a)),
{
}

/// Law: when both tags parse, versions compare from the major number down:
/// a larger major number is newer and a smaller one is not, whatever the
/// minor and patch numbers; with equal majors the minor numbers decide the
/// same way; with equal majors and minors the release is newer exactly when
/// its patch number is larger. Of two tags naming different versions, one
/// is newer than the other.
pub proof fn law_release_newer_is_lexicographic(release: Seq<char>, current: Seq<char>)
    requires
        version_of(release) is Some,
        version_of(current) is Some,
    ensures
        ({
            let r = version_of(release)->0;
            let c = version_of(current)->0;
            &&& r.0 > c.0 ==> newer(release, current)
            &&& r.0 < c.0 ==> !newer(release, current)
            &&& r.0 == c.0 && r.1 > c.1 ==> newer(release, current)
            &&& r.0 == c.0 && r.1 < c.1 ==> !newer(release, current)
            &&& r.0 == c.0 && r.1 == c.1 ==> (newer(release, current) <==> r.2 > c.2)
            &&& r != c ==> (newer(release, current) || newer(current, release))
        }),
{
}

/// Law: a release tag that does not parse counts as newer exactly when its
/// text differs from the current tag; a release tag that parses is newer
/// than a current tag that does not.
pub proof fn law_release_unparsed_tags(release: Seq<char>, current: Seq<char>)
    ensures
        version_of(release) is None ==> (newer(release, current) <==> release != current),
        version_of(release) is Some && version_of(current) is None ==> newer(release, current),
{
}

/// The architecture part of release asset names for the machine's
/// architecture as std names it: `arm64` for `aarch64`, else `x64`.
pub fn release_arch_of(arch: &str) -> (r: &'static str)
    ensures
        r@ == if arch@ == "aarch64"@ {
            "arm64"@
        } else {
            "x64"@
        },
{
    if str_eq(arch, "aarch64") {
        "arm64"
    } else {
        "x64"
    }
}

/// The UTF-16 code units of one character: itself below `0x10000`, else a
/// high and a low surrogate.
pub open spec fn utf16_units(c: char) -> Seq<u16> {
    let v = (c as u32) as int;
    if v < 0x10000 {
        seq![v as u16]
    } else {
        seq![(0xD800 + (v - 0x10000) / 0x400) as u16, (0xDC00 + (v - 0x10000) % 0x400) as u16]
    }
}

/// The UTF-16 encoding of a text.
pub open spec fn utf16_of(s: Seq<char>) -> Seq<u16>
    decreases s.len(),
{
    if s.len() == 0 {
        Seq::empty()
    } else {
        utf16_of(s.drop_last()) + utf16_units(s.last())
    }
}

/// The text in UTF-16 with a terminating zero unit, as Windows APIs take
/// strings.
pub fn wide_null(value: &str) -> (r: Vec<u16>)
    ensures
        r@ == utf16_of(value@).push(0u16),
{
    let v = crate::text::chars_of(value);
    let mut out: Vec<u16> = Vec::new();
    let mut i: usize = 0;
    while i < v.len()
        invariant
            i <= v@.len(),
            v@ == value@,
            out@ == utf16_of(v@.subrange(0, i as int)),
        decreases v.len() - i,
    {
        let ghost pre = v@.subrange(0, i + 1);
        assert(pre.drop_last() =~= v@.subrange(0, i as int));
        assert(pre.last() == v@[i as int]);
        let ch = v[i];
        let c = ch as u32;
        proof {
            vstd::utf8::char_is_scalar(ch);
        }
        assert(c <= 0x10FFFF);
        let ghost before = out@;
        if c < 0x10000 {
            out.push(c as u16);
        } else {
            let w = c - 0x10000;
            let hi: u32 = 0xD800 + w / 0x400;
            let lo: u32 = 0xDC00 + w % 0x400;
            assert(hi < 0x10000 && lo < 0x10000);
            assert(hi as int == 0xD800 + (c as int - 0x10000) / 0x400);
            assert(lo as int == 0xDC00 + (c as int - 0x10000) % 0x400);
            out.push(hi as u16);
            out.push(lo as u16);
        }
        assert(out@ =~= before + utf16_units(v@[i as int]));
        i += 1;
    }
    assert(v@.subrange(0, i as int) =~= v@);
    out.push(0);
    out
}

} // verus!
