//! Prompt rendering: the `~`-abbreviated working directory and zsh-style
//! prompt templates (`%F{color}`, `%f`, `%n`, `%m`, `%~`, `%#`, `%T`, `%?`).
use vstd::prelude::*;
use crate::text::{
    chars_of, first_index, has_prefix, i64_text, int_text, lemma_first_index_at,
    lemma_first_index_none, lowercase, nat_text, owned, parse_unsigned, parse_unsigned_chars,
    push_char, str_eq, string_of_range, to_lowercase, u64_text, find_char_from, digit_char,
};

use crate::clock::{secs_since_epoch, system_now};

verus! {

/// The values a prompt template can show.
pub struct PromptContext<'a> {
    pub user: &'a str,
    pub host: &'a str,
    pub dir: &'a str,
    pub last_exit_code: i32,
}

/// The directory as the prompt shows it: `~` for the home directory and a
/// `~` prefix for directories whose text starts with the home directory's.
pub open spec fn shown_dir(dir: Seq<char>, home: Option<Seq<char>>) -> Seq<char> {
    match home {
        None => dir,
        Some(h) => if dir == h {
            seq!['~']
        } else if has_prefix(dir, h) {
            seq!['~'] + dir.subrange(h.len() as int, dir.len() as int)
        } else {
            dir
        },
    }
}

/// The working directory for the prompt, given the displayed texts of the
/// current directory and of the home directory.
pub fn display_dir(current_dir: &str, home_dir: Option<&str>) -> (r: String)
    ensures
        r@ == shown_dir(current_dir@, match home_dir {
            Some(h) => Some(h@),
            None => None,
        }),
{
    let dir = chars_of(current_dir);
    let home = match home_dir {
        None => {
            return owned(current_dir);
        },
        Some(h) => chars_of(h),
    };
    if crate::text::chars_eq(&dir, &home) {
        let mut r = String::new();
        push_char(&mut r, '~');
        assert(r@ =~= seq!['~']);
        return r;
    }
    if crate::text::starts_with(&dir, &home) {
        let mut r = String::new();
        push_char(&mut r, '~');
        let rest = string_of_range(&dir, home.len(), dir.len());
        let out = r.concat(rest.as_str());
        assert(out@ =~= seq!['~'] + dir@.subrange(home@.len() as int, dir@.len() as int));
        return out;
    }
    owned(current_dir)
}

/// The escape sequence that `%F{color}` produces: a named colour (compared
/// after Unicode lower-casing), a 256-colour index that parses as `u8`, or
/// nothing.
pub open spec fn ansi_fg_text(color: Seq<char>) -> Seq<char> {
    let l = lowercase(color);
    if l == "black"@ {
        "\x1b[30m"@
    } else if l == "red"@ {
        "\x1b[31m"@
    } else if l == "green"@ {
        "\x1b[32m"@
    } else if l == "yellow"@ {
        "\x1b[33m"@
    } else if l == "blue"@ {
        "\x1b[34m"@
    } else if l == "magenta"@ {
        "\x1b[35m"@
    } else if l == "cyan"@ {
        "\x1b[36m"@
    } else if l == "white"@ {
        "\x1b[37m"@
    } else if parse_unsigned(color, 255) is Some {
        "\x1b[38;5;"@ + color + "m"@
    } else {
        Seq::<char>::empty()
    }
}

/// The ANSI foreground escape for a colour name or 256-colour index.
pub fn ansi_fg(color: &str) -> (r: String)
    ensures
        r@ == ansi_fg_text(color@),
{
    let l = to_lowercase(color);
    let ls = l.as_str();
    if str_eq(ls, "black") {
        owned("\x1b[30m")
    } else if str_eq(ls, "red") {
        owned("\x1b[31m")
    } else if str_eq(ls, "green") {
        owned("\x1b[32m")
    } else if str_eq(ls, "yellow") {
        owned("\x1b[33m")
    } else if str_eq(ls, "blue") {
        owned("\x1b[34m")
    } else if str_eq(ls, "magenta") {
        owned("\x1b[35m")
    } else if str_eq(ls, "cyan") {
        owned("\x1b[36m")
    } else if str_eq(ls, "white") {
        owned("\x1b[37m")
    } else if crate::text::parse_unsigned_str(color, 255).is_some() {
        let a = owned("\x1b[38;5;");
        let b = a.concat(color);
        b.concat("m")
    } else {
        String::new()
    }
}

/// Where a `%F{` colour name ends inside `body`: at its first `}` or at the end.
pub open spec fn brace_end(body: Seq<char>) -> int {
    match first_index(body, '}') {
        Some(i) => i,
        None => body.len() as int,
    }
}

/// What follows a `%F{...}` colour name.
pub open spec fn after_brace(body: Seq<char>) -> Seq<char> {
    match first_index(body, '}') {
        Some(i) => body.subrange(i + 1, body.len() as int),
        None => Seq::<char>::empty(),
    }
}

/// The rendered template; `code` is the text of the last exit status and
/// `clock` the text that `%T` shows.
pub open spec fn rendered(
    t: Seq<char>,
    user: Seq<char>,
    host: Seq<char>,
    dir: Seq<char>,
    code: Seq<char>,
    clock: Seq<char>,
) -> Seq<char>
    decreases t.len(),
{
    if t.len() == 0 {
        Seq::<char>::empty()
    } else if t[0] != '%' {
        seq![t[0]] + rendered(t.drop_first(), user, host, dir, code, clock)
    } else if t.len() == 1 {
        seq!['%']
    } else {
        let c2 = t[1];
        let rest = t.subrange(2, t.len() as int);
        if c2 == 'F' {
            if rest.len() > 0 && rest[0] == '{' {
                let body = rest.drop_first();
                proof {
                    crate::text::lemma_first_index(body, '}');
                }
                ansi_fg_text(body.subrange(0, brace_end(body))) + rendered(
                    after_brace(body),
                    user,
                    host,
                    dir,
                    code,
                    clock,
                )
            } else {
                rendered(rest, user, host, dir, code, clock)
            }
        } else if c2 == 'f' {
            "\x1b[39m"@ + rendered(rest, user, host, dir, code, clock)
        } else if c2 == 'n' {
            user + rendered(rest, user, host, dir, code, clock)
        } else if c2 == 'm' {
            host + rendered(rest, user, host, dir, code, clock)
        } else if c2 == '~' {
            dir + rendered(rest, user, host, dir, code, clock)
        } else if c2 == '#' {
            seq!['%'] + rendered(rest, user, host, dir, code, clock)
        } else if c2 == 'T' {
            clock + rendered(rest, user, host, dir, code, clock)
        } else if c2 == '?' {
            code + rendered(rest, user, host, dir, code, clock)
        } else {
            seq!['%', c2] + rendered(rest, user, host, dir, code, clock)
        }
    }
}

/// The template rendered for `context`, with `%T` showing `clock`.
pub open spec fn rendered_for(t: Seq<char>, context: PromptContext, clock: Seq<char>) -> Seq<char> {
    rendered(
        t,
        context.user@,
        context.host@,
        context.dir@,
        int_text(context.last_exit_code as int),
        clock,
    )
}

proof fn lemma_rendered_plain(
    a: Seq<char>,
    b: Seq<char>,
    user: Seq<char>,
    host: Seq<char>,
    dir: Seq<char>,
    code: Seq<char>,
    clock: Seq<char>,
)
    requires
        forall|k: int| 0 <= k < a.len() ==> a[k] != '%',
    ensures
        rendered(a + b, user, host, dir, code, clock) == a + rendered(b, user, host, dir, code, clock),
    decreases a.len(),
{
    if a.len() == 0 {
        assert(a + b =~= b);
        assert(a + rendered(b, user, host, dir, code, clock) =~= rendered(b, user, host, dir, code, clock));
    } else {
        let t = a + b;
        assert(t[0] == a[0]);
        assert(t.drop_first() =~= a.drop_first() + b);
        lemma_rendered_plain(a.drop_first(), b, user, host, dir, code, clock);
        assert(seq![a[0]] + (a.drop_first() + rendered(b, user, host, dir, code, clock)) =~= a
            + rendered(b, user, host, dir, code, clock));
    }
}

/// Text without `%` is copied as it is: alone it renders as itself, and in
/// front of the rest of a template it stays in front.
pub proof fn law_render_plain_text(
    a: Seq<char>,
    b: Seq<char>,
    context: PromptContext,
    clock: Seq<char>,
)
    requires
        forall|k: int| 0 <= k < a.len() ==> a[k] != '%',
    ensures
        rendered_for(a + b, context, clock) == a + rendered_for(b, context, clock),
        rendered_for(a, context, clock) == a,
{
    let code = int_text(context.last_exit_code as int);
    lemma_rendered_plain(a, b, context.user@, context.host@, context.dir@, code, clock);
    lemma_rendered_plain(a, Seq::empty(), context.user@, context.host@, context.dir@, code, clock);
    assert(a + Seq::<char>::empty() =~= a);
    assert(a + rendered(Seq::<char>::empty(), context.user@, context.host@, context.dir@, code, clock) =~= a);
}

/// A `%` that ends the template is copied, and so is `%` followed by a
/// character that is no escape of the template language.
pub proof fn law_render_unknown_escape(c: char, t: Seq<char>, context: PromptContext, clock: Seq<char>)
    requires
        c != 'F' && c != 'f' && c != 'n' && c != 'm' && c != '~' && c != '#' && c != 'T' && c
            != '?',
    ensures
        rendered_for(seq!['%', c] + t, context, clock) == seq!['%', c] + rendered_for(t, context, clock),
        rendered_for(seq!['%'], context, clock) == seq!['%'],
{
    assert((seq!['%', c] + t).subrange(2, t.len() as int + 2) =~= t);
}

/// The escapes insert their values: `%n` the user, `%m` the host, `%~` the
/// directory, `%?` the last exit status, `%#` a `%`, `%f` the default
/// colour, `%T` the clock.
pub proof fn law_render_escapes(t: Seq<char>, context: PromptContext, clock: Seq<char>)
    ensures
        rendered_for(seq!['%', 'n'] + t, context, clock) == context.user@ + rendered_for(t, context, clock),
        rendered_for(seq!['%', 'm'] + t, context, clock) == context.host@ + rendered_for(t, context, clock),
        rendered_for(seq!['%', '~'] + t, context, clock) == context.dir@ + rendered_for(t, context, clock),
        rendered_for(seq!['%', '?'] + t, context, clock) == int_text(context.last_exit_code as int)
            + rendered_for(t, context, clock),
        rendered_for(seq!['%', '#'] + t, context, clock) == seq!['%'] + rendered_for(t, context, clock),
        rendered_for(seq!['%', 'f'] + t, context, clock) == "\x1b[39m"@ + rendered_for(t, context, clock),
        rendered_for(seq!['%', 'T'] + t, context, clock) == clock + rendered_for(t, context, clock),
{
    assert((seq!['%', 'n'] + t).subrange(2, t.len() as int + 2) =~= t);
    assert((seq!['%', 'm'] + t).subrange(2, t.len() as int + 2) =~= t);
    assert((seq!['%', '~'] + t).subrange(2, t.len() as int + 2) =~= t);
    assert((seq!['%', '?'] + t).subrange(2, t.len() as int + 2) =~= t);
    assert((seq!['%', '#'] + t).subrange(2, t.len() as int + 2) =~= t);
    assert((seq!['%', 'f'] + t).subrange(2, t.len() as int + 2) =~= t);
    assert((seq!['%', 'T'] + t).subrange(2, t.len() as int + 2) =~= t);
}

/// `%F{color}` inserts the escape of the colour (a named colour in any
/// case, a `u8` index, or nothing), and `%F` without a `{` inserts nothing.
pub proof fn law_render_colour(color: Seq<char>, t: Seq<char>, context: PromptContext, clock: Seq<char>)
    requires
        forall|k: int| 0 <= k < color.len() ==> color[k] != '}',
    ensures
        rendered_for(seq!['%', 'F', '{'] + color + seq!['}'] + t, context, clock) == ansi_fg_text(color)
            + rendered_for(t, context, clock),
        (t.len() == 0 || t[0] != '{') ==> rendered_for(seq!['%', 'F'] + t, context, clock)
            == rendered_for(t, context, clock),
{
    let whole = seq!['%', 'F', '{'] + color + seq!['}'] + t;
    let body = whole.subrange(2, whole.len() as int).drop_first();
    assert(body =~= color + seq!['}'] + t);
    assert(body[color.len() as int] == '}');
    lemma_first_index_at(body, '}', color.len() as int);
    assert(body.subrange(0, color.len() as int) =~= color);
    assert(body.subrange(color.len() as int + 1, body.len() as int) =~= t);
    assert((seq!['%', 'F'] + t).subrange(2, t.len() as int + 2) =~= t);
}

/// Renders a zsh-style prompt template; `%T` shows the text `clock`.
pub fn render_template_at(template: &str, context: &PromptContext, clock: &str) -> (result: String)
    ensures
        result@ == rendered_for(template@, *context, clock@),
{
    let v = chars_of(template);
    let n = v.len();
    let code = i64_text(context.last_exit_code as i64);
    let ghost user = context.user@;
    let ghost host = context.host@;
    let ghost dir = context.dir@;
    let ghost whole = rendered(v@, user, host, dir, code@, clock@);
    let mut result = String::new();
    let mut i: usize = 0;
    assert(v@.subrange(0, n as int) =~= v@);
    assert(result@ + whole =~= whole);
    while i < n
        invariant
            n == v@.len(),
            v@ == template@,
            i <= n,
            user == context.user@,
            host == context.host@,
            dir == context.dir@,
            code@ == int_text(context.last_exit_code as int),
            whole == rendered(v@, user, host, dir, code@, clock@),
            result@ + rendered(v@.subrange(i as int, n as int), user, host, dir, code@, clock@)
                == whole,
        decreases n - i,
    {
        let ghost t = v@.subrange(i as int, n as int);
        let ghost before = result@;
        let c = v[i];
        assert(t[0] == c);
        if c != '%' {
            assert(t.drop_first() =~= v@.subrange(i + 1, n as int));
            push_char(&mut result, c);
            i = i + 1;
            assert(result@ + rendered(v@.subrange(i as int, n as int), user, host, dir, code@, clock@)
                =~= whole);
            continue;
        }
        if i + 1 == n {
            push_char(&mut result, '%');
            i = i + 1;
            assert(v@.subrange(i as int, n as int) =~= Seq::<char>::empty());
            assert(result@ + rendered(v@.subrange(i as int, n as int), user, host, dir, code@, clock@)
                =~= whole);
            continue;
        }
        let c2 = v[i + 1];
        assert(t[1] == c2);
        let ghost rest = t.subrange(2, t.len() as int);
        assert(rest =~= v@.subrange(i + 2, n as int));
        if c2 == 'F' {
            if i + 2 < n && v[i + 2] == '{' {
                let ghost body = rest.drop_first();
                assert(body =~= v@.subrange(i + 3, n as int));
                let found = find_char_from(&v, '}', i + 3);
                let end = match found {
                    Some(e) => e,
                    None => n,
                };
                proof {
                    match found {
                        Some(e) => {
                            assert(body[e - (i + 3)] == '}');
                            assert forall|j: int| 0 <= j < e - (i + 3) implies body[j] != '}' by {
                                assert(body[j] == v@[j + i + 3]);
                            }
                            lemma_first_index_at(body, '}', e - (i + 3));
                            assert(after_brace(body) =~= v@.subrange(e + 1, n as int));
                        },
                        None => {
                            assert forall|j: int| 0 <= j < body.len() implies body[j] != '}' by {
                                assert(body[j] == v@[j + i + 3]);
                            }
                            lemma_first_index_none(body, '}');
                            assert(v@.subrange(n as int, n as int) =~= after_brace(body));
                        },
                    }
                    assert(body.subrange(0, brace_end(body)) =~= v@.subrange(i + 3, end as int));
                }
                let color = string_of_range(&v, i + 3, end);
                let esc = ansi_fg(color.as_str());
                result = result.concat(esc.as_str());
                i = match found {
                    Some(e) => e + 1,
                    None => n,
                };
                assert(result@ + rendered(v@.subrange(i as int, n as int), user, host, dir, code@, clock@)
                    =~= whole);
                continue;
            }
            i = i + 2;
            assert(result@ + rendered(v@.subrange(i as int, n as int), user, host, dir, code@, clock@)
                =~= whole);
            continue;
        }
        if c2 == 'f' {
            result = result.concat("\x1b[39m");
        } else if c2 == 'n' {
            result = result.concat(context.user);
        } else if c2 == 'm' {
            result = result.concat(context.host);
        } else if c2 == '~' {
            result = result.concat(context.dir);
        } else if c2 == '#' {
            push_char(&mut result, '%');
            assert(result@ =~= before + seq!['%']);
        } else if c2 == 'T' {
            result = result.concat(clock);
        } else if c2 == '?' {
            result = result.concat(code.as_str());
        } else {
            push_char(&mut result, '%');
            push_char(&mut result, c2);
            assert(result@ =~= before + seq!['%', c2]);
        }
        i = i + 2;
        assert(result@ + rendered(v@.subrange(i as int, n as int), user, host, dir, code@, clock@)
            =~= whole);
    }
    assert(v@.subrange(n as int, n as int) =~= Seq::<char>::empty());
    assert(result@ =~= whole);
    result
}

/// Two decimal digits of `n < 100` (`{:02}`).
pub open spec fn two_digits(n: int) -> Seq<char> {
    seq![digit_char(n / 10), digit_char(n % 10)]
}

/// The `HH:MM` (UTC) text for a count of seconds since the Unix epoch.
pub open spec fn hhmm_text(secs: int) -> Seq<char> {
    two_digits((secs / 3600) % 24) + seq![':'] + two_digits((secs / 60) % 60)
}

/// Formats the UTC hour and minute of a Unix time as `HH:MM`.
pub fn hhmm_from_secs(secs: u64) -> (r: String)
    ensures
        r@ == hhmm_text(secs as int),
{
    let h = (secs / 3600) % 24;
    let m = (secs / 60) % 60;
    let mut r = String::new();
    push_char(&mut r, crate::text::digit_to_char(h / 10));
    push_char(&mut r, crate::text::digit_to_char(h % 10));
    push_char(&mut r, ':');
    push_char(&mut r, crate::text::digit_to_char(m / 10));
    push_char(&mut r, crate::text::digit_to_char(m % 10));
    assert(r@ =~= hhmm_text(secs as int));
    r
}

/// A text that `%T` may show: empty, or the `HH:MM` of some Unix time.
pub open spec fn clock_text(c: Seq<char>) -> bool {
    c.len() == 0 || exists|secs: int| 0 <= secs && c == hhmm_text(secs)
}

/// The current UTC time as `HH:MM`, or an empty text when the system clock
/// reads before the Unix epoch.
pub fn current_hhmm() -> (r: String)
    ensures
        clock_text(r@),
{
    let now = system_now();
    match secs_since_epoch(&now) {
        Some(secs) => {
            let r = hhmm_from_secs(secs);
            assert(r@ == hhmm_text(secs as int));
            r
        },
        None => String::new(),
    }
}

/// Renders a zsh-style prompt template: `%F{color}`, `%f`, `%n`, `%m`, `%~`,
/// `%#`, `%T` and `%?`; `%T` shows the current time.
pub fn render_template(template: &str, context: &PromptContext) -> (result: String)
    ensures
        exists|clock: Seq<char>| clock_text(clock) && result@ == rendered_for(template@, *context, clock),
{
    let clock = current_hhmm();
    render_template_at(template, context, clock.as_str())
}

} // verus!
