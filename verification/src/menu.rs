//! The interactive menu's logic: what a key press does, which options are
//! visible in a window, and text measured in terminal columns (wide glyphs
//! take two, ANSI escape sequences none).
use vstd::prelude::*;
use crate::text::{chars_of, concat, is_alpha, owned, push_char, string_of, u64_text, nat_text, views};

verus! {

/// Result of an interactive menu selection.
#[derive(Debug, Clone, Copy, PartialEq, Eq, Structural)]
pub enum Selection {
    /// The user confirmed this option (0-indexed).
    Confirmed(usize),
    /// The user pressed Esc: the caller uses its default.
    UseDefault,
    /// The user pressed Ctrl-C: the caller aborts the whole flow.
    Abort,
}

/// What a key press does to the menu.
#[derive(Debug, Clone, Copy, PartialEq, Eq, Structural)]
pub enum MenuAction {
    /// Highlight another option.
    MoveTo(usize),
    /// Confirm the highlighted option.
    Confirm,
    /// Take the caller's default (Esc).
    UseDefault,
    /// Abort the whole flow (Ctrl-C).
    Abort,
    /// Nothing.
    Ignore,
}

/// The key of a key event.
#[derive(Debug, Clone, Copy, PartialEq, Eq, Structural)]
pub enum KeyCodeInput {
    Up,
    Down,
    Left,
    Right,
    Enter,
    Esc,
    Char(char),
    Other,
}

/// A key event: the key, whether Control was held, and whether it is a key
/// release (press and repeat events are not).
#[derive(Debug, Clone, Copy, PartialEq, Eq, Structural)]
pub struct KeyInput {
    pub code: KeyCodeInput,
    pub ctrl: bool,
    pub release: bool,
}

/// The action of a key with the option `selected` highlighted among `len`.
pub open spec fn action_of(key: KeyInput, selected: int, len: int) -> MenuAction {
    if key.release {
        MenuAction::Ignore
    } else if (key.code == KeyCodeInput::Up || key.code == KeyCodeInput::Char('k')) && !key.ctrl {
        MenuAction::MoveTo(if selected > 0 { (selected - 1) as usize } else { 0usize })
    } else if (key.code == KeyCodeInput::Down || key.code == KeyCodeInput::Char('j'))
        && !key.ctrl {
        let last = if len > 0 { len - 1 } else { 0 };
        MenuAction::MoveTo(if selected + 1 < last { (selected + 1) as usize } else { last as usize })
    } else if key.code == KeyCodeInput::Enter {
        MenuAction::Confirm
    } else if key.code == KeyCodeInput::Esc {
        MenuAction::UseDefault
    } else if key.code == KeyCodeInput::Char('c') && key.ctrl {
        MenuAction::Abort
    } else {
        match key.code {
            KeyCodeInput::Char(c) => if '0' <= c <= '9' && 1 <= (c as int) - 48 <= len {
                MenuAction::MoveTo(((c as int) - 49) as usize)
            } else {
                MenuAction::Ignore
            },
            _ => MenuAction::Ignore,
        }
    }
}

/// Maps a key event to a menu action. Release events are ignored, so a key
/// is handled once on platforms that report both press and release.
pub fn key_action(key: &KeyInput, selected: usize, len: usize) -> (r: MenuAction)
    requires
        selected < usize::MAX,
    ensures
        r == action_of(*key, selected as int, len as int),
{
    if key.release {
        return MenuAction::Ignore;
    }
    let ctrl = key.ctrl;
    if (key.code == KeyCodeInput::Up || key.code == KeyCodeInput::Char('k')) && !ctrl {
        return MenuAction::MoveTo(if selected > 0 { selected - 1 } else { 0 });
    }
    if (key.code == KeyCodeInput::Down || key.code == KeyCodeInput::Char('j')) && !ctrl {
        let last = if len > 0 { len - 1 } else { 0 };
        return MenuAction::MoveTo(if selected + 1 < last { selected + 1 } else { last });
    }
    if key.code == KeyCodeInput::Enter {
        return MenuAction::Confirm;
    }
    if key.code == KeyCodeInput::Esc {
        return MenuAction::UseDefault;
    }
    if key.code == KeyCodeInput::Char('c') && ctrl {
        return MenuAction::Abort;
    }
    match key.code {
        KeyCodeInput::Char(c) => {
            if '0' <= c && c <= '9' {
                let idx = (c as u32 - 48) as usize;
                if idx >= 1 && idx <= len {
                    return MenuAction::MoveTo(idx - 1);
                }
            }
            MenuAction::Ignore
        },
        _ => MenuAction::Ignore,
    }
}

/// What the menu loop does after a key: return a selection, or go on with
/// the highlighted option (redrawing when it changed).
pub open spec fn step_of(action: MenuAction, selected: usize) -> Result<Selection, usize> {
    match action {
        MenuAction::Confirm => Ok(Selection::Confirmed(selected)),
        MenuAction::UseDefault => Ok(Selection::UseDefault),
        MenuAction::Abort => Ok(Selection::Abort),
        MenuAction::MoveTo(n) => Err(n),
        MenuAction::Ignore => Err(selected),
    }
}

/// The next state of the menu loop: a selection to return, or the option to
/// highlight next.
pub fn menu_step(action: MenuAction, selected: usize) -> (r: Result<Selection, usize>)
    ensures
        r == step_of(action, selected),
{
    match action {
        MenuAction::Confirm => Ok(Selection::Confirmed(selected)),
        MenuAction::UseDefault => Ok(Selection::UseDefault),
        MenuAction::Abort => Ok(Selection::Abort),
        MenuAction::MoveTo(n) => Err(n),
        MenuAction::Ignore => Err(selected),
    }
}

/// The option highlighted first: the default, kept inside the list.
pub fn initial_selection(default_idx: usize, len: usize) -> (r: usize)
    ensures
        r == if default_idx < (if len > 0 { len - 1 } else { 0 }) {
            default_idx as int
        } else {
            if len > 0 { len - 1 } else { 0 }
        },
{
    let last = if len > 0 { len - 1 } else { 0 };
    if default_idx < last {
        default_idx
    } else {
        last
    }
}

/// How many option rows fit: the terminal height less the rows around the
/// options (help lines, preview rows and nine more), at least five, at
/// most the number of options.
pub fn max_visible_options(height: usize, help_lines: usize, preview_height: usize, len: usize) -> (r:
    usize)
    requires
        help_lines + preview_height + 9 <= usize::MAX,
    ensures
        ({
            let chrome = help_lines + preview_height + 9;
            let room = if height > chrome { height - chrome } else { 0 };
            let atleast = if room > 5 { room } else { 5 };
            r == if atleast < len { atleast } else { len as int }
        }),
{
    let chrome = help_lines + preview_height + 9;
    let room = if height > chrome { height - chrome } else { 0 };
    let atleast = if room > 5 { room } else { 5 };
    if atleast < len {
        atleast
    } else {
        len
    }
}

/// The visible window `[start, end)` of a long menu: all options when they
/// fit, else `max_visible` options around the selection.
pub open spec fn window_of(len: int, selected: int, max_visible: int) -> (int, int) {
    if len <= max_visible {
        (0, len)
    } else {
        let back = if selected > max_visible / 2 { selected - max_visible / 2 } else { 0 };
        let start = if back < len - max_visible { back } else { len - max_visible };
        (start, start + max_visible)
    }
}

/// The visible option window.
pub fn window_bounds(len: usize, selected: usize, max_visible: usize) -> (r: (usize, usize))
    ensures
        r.0 == window_of(len as int, selected as int, max_visible as int).0,
        r.1 == window_of(len as int, selected as int, max_visible as int).1,
{
    if len <= max_visible {
        return (0, len);
    }
    let half = max_visible / 2;
    let back = if selected > half { selected - half } else { 0 };
    let start = if back < len - max_visible { back } else { len - max_visible };
    (start, start + max_visible)
}

/// The window always holds `max_visible` options (or all of them), lies
/// inside the list, and shows the selected option.
pub proof fn law_window_shows_selection(len: int, selected: int, max_visible: int)
    requires
        0 <= selected < len,
        max_visible >= 1,
    ensures
        ({
            let (start, end) = window_of(len, selected, max_visible);
            &&& 0 <= start <= end <= len
            &&& end - start == if len <= max_visible { len } else { max_visible }
            &&& start <= selected < end
        }),
{
}

/// Law: the menu only ever highlights or confirms an option of the list.
/// The first highlighted option is in the list, and from an option in the
/// list any key leads to a selection of an option in the list, to the
/// default, to an abort, or to highlighting an option in the list.
pub proof fn law_selection_stays_in_list(key: KeyInput, default_idx: usize, selected: usize, len: usize)
    requires
        0 <= selected < len,
    ensures
        (if default_idx < len - 1 { default_idx as int } else { len - 1 }) < len,
        match step_of(action_of(key, selected as int, len as int), selected) {
            Ok(Selection::Confirmed(k)) => k < len,
            Ok(_) => true,
            Err(k) => k < len,
        },
{
}

/// The escape character that starts an ANSI sequence.
pub open spec fn esc() -> char {
    '\u{1b}'
}

/// Wide characters: East Asian wide and fullwidth glyphs and emoji.
pub open spec fn is_wide(c: int) -> bool {
    ||| 0x1100 <= c <= 0x115F
    ||| 0x2E80 <= c <= 0x303E
    ||| 0x3041 <= c <= 0x33FF
    ||| 0x3400 <= c <= 0x4DBF
    ||| 0x4E00 <= c <= 0x9FFF
    ||| 0xA000 <= c <= 0xA4CF
    ||| 0xAC00 <= c <= 0xD7A3
    ||| 0xF900 <= c <= 0xFAFF
    ||| 0xFE30 <= c <= 0xFE4F
    ||| 0xFF00 <= c <= 0xFF60
    ||| 0xFFE0 <= c <= 0xFFE6
    ||| c == 0x1F004
    ||| c == 0x1F0CF
    ||| c == 0x1F18E
    ||| 0x1F191 <= c <= 0x1F19A
    ||| 0x1F200 <= c <= 0x1F320
    ||| 0x1F32D <= c <= 0x1F335
    ||| 0x1F337 <= c <= 0x1F37C
    ||| 0x1F37E <= c <= 0x1F393
    ||| 0x1F3A0 <= c <= 0x1F3CA
    ||| 0x1F3CF <= c <= 0x1F3D3
    ||| 0x1F3E0 <= c <= 0x1F3F0
    ||| c == 0x1F3F4
    ||| 0x1F3F8 <= c <= 0x1F43E
    ||| c == 0x1F440
    ||| 0x1F442 <= c <= 0x1F4FC
    ||| 0x1F4FF <= c <= 0x1F53D
    ||| 0x1F54B <= c <= 0x1F54E
    ||| 0x1F550 <= c <= 0x1F567
    ||| c == 0x1F57A
    ||| 0x1F595 <= c <= 0x1F596
    ||| c == 0x1F5A4
    ||| 0x1F5FB <= c <= 0x1F64F
    ||| 0x1F680 <= c <= 0x1F6C5
    ||| c == 0x1F6CC
    ||| 0x1F6D0 <= c <= 0x1F6D2
    ||| 0x1F6EB <= c <= 0x1F6EC
    ||| 0x1F910 <= c <= 0x1F93E
    ||| 0x1F940 <= c <= 0x1F970
    ||| 0x1F973 <= c <= 0x1F976
    ||| c == 0x1F97A
    ||| 0x1F97C <= c <= 0x1F9A2
    ||| 0x1F9B0 <= c <= 0x1F9B9
    ||| 0x1F9C0 <= c <= 0x1F9C2
    ||| 0x1F9D0 <= c <= 0x1F9FF
    ||| 0x20024 <= c <= 0x20042
}

/// Columns a character takes: two for wide glyphs, one otherwise.
pub open spec fn width_of(c: char) -> int {
    if is_wide(c as int) {
        2
    } else {
        1
    }
}

/// The display width of one character in terminal columns.
pub fn char_width(ch: char) -> (r: usize)
    ensures
        r == width_of(ch),
{
    let c = ch as u32;
    let wide = (0x1100 <= c && c <= 0x115F) || (0x2E80 <= c && c <= 0x303E) || (0x3041 <= c && c
        <= 0x33FF) || (0x3400 <= c && c <= 0x4DBF) || (0x4E00 <= c && c <= 0x9FFF) || (0xA000
        <= c && c <= 0xA4CF) || (0xAC00 <= c && c <= 0xD7A3) || (0xF900 <= c && c <= 0xFAFF)
        || (0xFE30 <= c && c <= 0xFE4F) || (0xFF00 <= c && c <= 0xFF60) || (0xFFE0 <= c && c
        <= 0xFFE6) || c == 0x1F004 || c == 0x1F0CF || c == 0x1F18E || (0x1F191 <= c && c
        <= 0x1F19A) || (0x1F200 <= c && c <= 0x1F320) || (0x1F32D <= c && c <= 0x1F335) || (
    0x1F337 <= c && c <= 0x1F37C) || (0x1F37E <= c && c <= 0x1F393) || (0x1F3A0 <= c && c
        <= 0x1F3CA) || (0x1F3CF <= c && c <= 0x1F3D3) || (0x1F3E0 <= c && c <= 0x1F3F0) || c
        == 0x1F3F4 || (0x1F3F8 <= c && c <= 0x1F43E) || c == 0x1F440 || (0x1F442 <= c && c
        <= 0x1F4FC) || (0x1F4FF <= c && c <= 0x1F53D) || (0x1F54B <= c && c <= 0x1F54E) || (
    0x1F550 <= c && c <= 0x1F567) || c == 0x1F57A || (0x1F595 <= c && c <= 0x1F596) || c
        == 0x1F5A4 || (0x1F5FB <= c && c <= 0x1F64F) || (0x1F680 <= c && c <= 0x1F6C5) || c
        == 0x1F6CC || (0x1F6D0 <= c && c <= 0x1F6D2) || (0x1F6EB <= c && c <= 0x1F6EC) || (
    0x1F910 <= c && c <= 0x1F93E) || (0x1F940 <= c && c <= 0x1F970) || (0x1F973 <= c && c
        <= 0x1F976) || c == 0x1F97A || (0x1F97C <= c && c <= 0x1F9A2) || (0x1F9B0 <= c && c
        <= 0x1F9B9) || (0x1F9C0 <= c && c <= 0x1F9C2) || (0x1F9D0 <= c && c <= 0x1F9FF) || (
    0x20024 <= c && c <= 0x20042);
    if wide {
        2
    } else {
        1
    }
}

/// The columns `s[i..]` takes, `esc` telling whether an escape sequence is
/// open: an escape sequence runs from the escape character to the next
/// ASCII letter and takes no columns.
pub open spec fn width_from(s: Seq<char>, i: int, in_esc: bool) -> int
    decreases s.len() - i,
{
    if i < 0 || i >= s.len() {
        0
    } else if s[i] == esc() {
        width_from(s, i + 1, true)
    } else if in_esc {
        width_from(s, i + 1, !is_alpha(s[i]))
    } else {
        width_of(s[i]) + width_from(s, i + 1, false)
    }
}

/// The columns a text takes.
pub open spec fn text_width(s: Seq<char>) -> int {
    width_from(s, 0, false)
}

/// Whether an escape sequence is still open after `s[i..]`, starting in
/// state `in_esc`.
pub open spec fn open_after(s: Seq<char>, i: int, in_esc: bool) -> bool
    decreases s.len() - i,
{
    if i < 0 || i >= s.len() {
        in_esc
    } else if s[i] == esc() {
        open_after(s, i + 1, true)
    } else if in_esc {
        open_after(s, i + 1, !is_alpha(s[i]))
    } else {
        open_after(s, i + 1, false)
    }
}

/// The width never goes below zero nor above two columns a character.
pub proof fn lemma_width_bounds(s: Seq<char>, i: int, in_esc: bool)
    requires
        0 <= i <= s.len(),
    ensures
        0 <= width_from(s, i, in_esc) <= 2 * (s.len() - i),
    decreases s.len() - i,
{
    if i < s.len() {
        if s[i] == esc() {
            lemma_width_bounds(s, i + 1, true);
        } else if in_esc {
            lemma_width_bounds(s, i + 1, !is_alpha(s[i]));
        } else {
            lemma_width_bounds(s, i + 1, false);
        }
    }
}

/// Visible width of a text in terminal columns, escape sequences excluded.
pub fn strip_ansi_width(s: &str) -> (r: usize)
    requires
        2 * s@.len() <= usize::MAX,
    ensures
        r == text_width(s@),
{
    let v = chars_of(s);
    let mut width: usize = 0;
    let mut in_escape = false;
    let mut i: usize = 0;
    proof {
        lemma_width_bounds(v@, 0, false);
    }
    while i < v.len()
        invariant
            i <= v@.len(),
            v@ == s@,
            2 * v@.len() <= usize::MAX,
            width <= 2 * i,
            width + width_from(v@, i as int, in_escape) == width_from(v@, 0, false),
        decreases v.len() - i,
    {
        let ch = v[i];
        if ch == '\u{1b}' {
            in_escape = true;
        } else if in_escape {
            if ('a' <= ch && ch <= 'z') || ('A' <= ch && ch <= 'Z') {
                in_escape = false;
            }
        } else {
            width = width + char_width(ch);
        }
        i = i + 1;
    }
    width
}

/// Terminal display width of a text, escape sequences excluded.
pub fn display_width(s: &str) -> (r: usize)
    requires
        2 * s@.len() <= usize::MAX,
    ensures
        r == text_width(s@),
{
    strip_ansi_width(s)
}

/// `n` spaces.
pub open spec fn spaces(n: nat) -> Seq<char> {
    Seq::new(n, |i: int| ' ')
}

/// `s` padded with spaces to `width` columns (unchanged when it is already
/// that wide).
pub open spec fn padded(s: Seq<char>, width: int) -> Seq<char> {
    if text_width(s) >= width {
        s
    } else {
        s + spaces((width - text_width(s)) as nat)
    }
}

/// Pads `s` with spaces to `width` display columns.
pub fn pad_display(s: &str, width: usize) -> (r: String)
    requires
        2 * s@.len() <= usize::MAX,
    ensures
        r@ == padded(s@, width as int),
{
    let len = display_width(s);
    if len >= width {
        return owned(s);
    }
    let mut r = owned(s);
    let mut k: usize = 0;
    while k < width - len
        invariant
            k <= width - len,
            r@ == s@ + spaces(k as nat),
        decreases width - len - k,
    {
        push_char(&mut r, ' ');
        assert(s@ + spaces((k + 1) as nat) =~= (s@ + spaces(k as nat)).push(' '));
        k = k + 1;
    }
    r
}

/// Spaces after the text, outside any escape, add one column each.
proof fn lemma_width_spaces(s: Seq<char>, n: nat, i: int, in_esc: bool)
    requires
        0 <= i <= s.len(),
        !open_after(s, i, in_esc),
    ensures
        width_from(s + spaces(n), i, in_esc) == width_from(s, i, in_esc) + n,
    decreases s.len() + n - i,
{
    let t = s + spaces(n);
    if i < s.len() {
        assert(t[i] == s[i]);
        if s[i] == esc() {
            lemma_width_spaces(s, n, i + 1, true);
        } else if in_esc {
            lemma_width_spaces(s, n, i + 1, !is_alpha(s[i]));
        } else {
            lemma_width_spaces(s, n, i + 1, false);
        }
    } else {
        assert(!in_esc);
        lemma_spaces_width(n, t, i);
    }
}

/// Trailing spaces outside an escape take one column each.
proof fn lemma_spaces_width(n: nat, t: Seq<char>, i: int)
    requires
        0 <= i <= t.len(),
        t.len() == i + n,
        forall|k: int| i <= k < t.len() ==> t[k] == ' ',
    ensures
        width_from(t, i, false) == n,
    decreases n,
{
    if n > 0 {
        assert(t[i] == ' ');
        assert(width_of(' ') == 1);
        lemma_spaces_width((n - 1) as nat, t, i + 1);
    }
}

/// Padding reaches the width asked for: a padded text is as wide as the
/// larger of its own width and `width`, unless it ends inside an unfinished
/// escape sequence (which would swallow the spaces).
pub proof fn law_pad_reaches_width(s: Seq<char>, width: int)
    requires
        !open_after(s, 0, false),
    ensures
        text_width(padded(s, width)) == if text_width(s) >= width {
            text_width(s)
        } else {
            width
        },
{
    if text_width(s) < width {
        lemma_width_spaces(s, (width - text_width(s)) as nat, 0, false);
    }
}

/// The reset sequence `ESC [ 0 m`.
pub open spec fn reset_seq() -> Seq<char> {
    seq![esc(), '[', '0', 'm']
}

/// What `s[i..]` contributes to a line clipped to `budget` more columns,
/// `in_esc` telling whether an escape sequence is open: escape sequences
/// pass through whole, a character that does not fit ends the line with a
/// reset.
pub open spec fn clip_from(s: Seq<char>, i: int, budget: int, in_esc: bool) -> Seq<char>
    decreases s.len() - i,
{
    if i < 0 || i >= s.len() {
        Seq::empty()
    } else if in_esc {
        seq![s[i]] + clip_from(s, i + 1, budget, !is_alpha(s[i]))
    } else if s[i] == esc() {
        seq![s[i]] + clip_from(s, i + 1, budget, true)
    } else if width_of(s[i]) > budget {
        reset_seq()
    } else {
        seq![s[i]] + clip_from(s, i + 1, budget - width_of(s[i]), false)
    }
}

/// Truncates `s` to at most `max` display columns, passing escape sequences
/// through and appending a reset when anything was cut.
pub fn clip_line(s: &str, max: usize) -> (r: String)
    ensures
        r@ == clip_from(s@, 0, max as int, false),
{
    let v = chars_of(s);
    let mut out: Vec<char> = Vec::new();
    let mut budget: usize = max;
    let mut in_escape = false;
    let mut i: usize = 0;
    while i < v.len()
        invariant
            i <= v@.len(),
            v@ == s@,
            out@ + clip_from(v@, i as int, budget as int, in_escape) == clip_from(
                v@,
                0,
                max as int,
                false,
            ),
        decreases v.len() - i,
    {
        let ch = v[i];
        let ghost before = out@;
        if in_escape {
            out.push(ch);
            in_escape = !(('a' <= ch && ch <= 'z') || ('A' <= ch && ch <= 'Z'));
            assert(before + clip_from(v@, i as int, budget as int, true) =~= out@ + clip_from(
                v@,
                i + 1,
                budget as int,
                in_escape,
            ));
        } else if ch == '\u{1b}' {
            out.push(ch);
            in_escape = true;
            assert(before + clip_from(v@, i as int, budget as int, false) =~= out@ + clip_from(
                v@,
                i + 1,
                budget as int,
                true,
            ));
        } else {
            let w = char_width(ch);
            if w > budget {
                out.push('\u{1b}');
                out.push('[');
                out.push('0');
                out.push('m');
                assert(out@ =~= before + reset_seq());
                assert(v@.subrange(0, v@.len() as int) =~= v@);
                return string_of(&out);
            }
            out.push(ch);
            budget = budget - w;
            assert(before + clip_from(v@, i as int, (budget + w) as int, false) =~= out@
                + clip_from(v@, i + 1, budget as int, false));
        }
        i = i + 1;
    }
    string_of(&out)
}

/// Where a clipped line is cut: at `j`, a visible character that no longer
/// fits, after the text `s[i..j]` that does, with no escape sequence open.
pub open spec fn clip_cut_at(s: Seq<char>, i: int, budget: int, in_esc: bool, j: int) -> bool {
    &&& i <= j < s.len()
    &&& !open_after(s.subrange(0, j), i, in_esc)
    &&& s[j] != esc()
    &&& width_from(s.subrange(0, j), i, in_esc) <= budget
    &&& width_from(s.subrange(0, j + 1), i, in_esc) > budget
}

proof fn lemma_clip_cut(s: Seq<char>, i: int, budget: int, in_esc: bool)
    requires
        0 <= i <= s.len(),
        budget >= 0,
    ensures
        width_from(s, i, in_esc) <= budget ==> clip_from(s, i, budget, in_esc) == s.subrange(
            i,
            s.len() as int,
        ),
        width_from(s, i, in_esc) > budget ==> exists|j: int|
            #[trigger] clip_cut_at(s, i, budget, in_esc, j) && clip_from(s, i, budget, in_esc)
                == s.subrange(i, j) + reset_seq(),
    decreases s.len() - i,
{
    if i == s.len() {
        assert(s.subrange(i, s.len() as int) =~= Seq::<char>::empty());
        return;
    }
    let c = s[i];
    let tail = s.subrange(i + 1, s.len() as int);
    assert(s.subrange(i, s.len() as int) =~= seq![c] + tail);
    if in_esc || c == esc() {
        let next = if c == esc() {
            true
        } else {
            !is_alpha(c)
        };
        assert(clip_from(s, i, budget, in_esc) == seq![c] + clip_from(s, i + 1, budget, next));
        assert(width_from(s, i, in_esc) == width_from(s, i + 1, next));
        lemma_clip_cut(s, i + 1, budget, next);
        if width_from(s, i, in_esc) > budget {
            let j = choose|j: int|
                #[trigger] clip_cut_at(s, i + 1, budget, next, j) && clip_from(s, i + 1, budget, next)
                    == s.subrange(i + 1, j) + reset_seq();
            let a = s.subrange(0, j);
            let b = s.subrange(0, j + 1);
            assert(a[i] == c && b[i] == c);
            assert(open_after(a, i, in_esc) == open_after(a, i + 1, next));
            assert(width_from(a, i, in_esc) == width_from(a, i + 1, next));
            assert(width_from(b, i, in_esc) == width_from(b, i + 1, next));
            assert(s.subrange(i, j) + reset_seq() =~= seq![c] + (s.subrange(i + 1, j)
                + reset_seq()));
            assert(clip_cut_at(s, i, budget, in_esc, j));
        }
    } else {
        let w = width_of(c);
        lemma_width_bounds(s, i + 1, false);
        if w > budget {
            let a = s.subrange(0, i);
            let b = s.subrange(0, i + 1);
            assert(b[i] == c);
            assert(width_from(b, i + 1, false) == 0);
            assert(s.subrange(i, i) + reset_seq() =~= reset_seq());
            assert(clip_cut_at(s, i, budget, in_esc, i));
        } else {
            lemma_clip_cut(s, i + 1, budget - w, false);
            if width_from(s, i, in_esc) > budget {
                let j = choose|j: int|
                    #[trigger] clip_cut_at(s, i + 1, budget - w, false, j) && clip_from(
                        s,
                        i + 1,
                        budget - w,
                        false,
                    ) == s.subrange(i + 1, j) + reset_seq();
                let a = s.subrange(0, j);
                let b = s.subrange(0, j + 1);
                assert(a[i] == c && b[i] == c);
                assert(open_after(a, i, false) == open_after(a, i + 1, false));
                assert(width_from(a, i, false) == w + width_from(a, i + 1, false));
                assert(width_from(b, i, false) == w + width_from(b, i + 1, false));
                assert(s.subrange(i, j) + reset_seq() =~= seq![c] + (s.subrange(i + 1, j)
                    + reset_seq()));
                assert(clip_cut_at(s, i, budget, in_esc, j));
            }
        }
    }
}

/// A line that fits is left as it is; one that does not keeps its longest
/// prefix that fits, up to a visible character that would overflow, with
/// no escape sequence left open there, and gets a reset after it.
pub proof fn law_clip_keeps_longest_fit(s: Seq<char>, max: nat)
    ensures
        text_width(s) <= max ==> clip_from(s, 0, max as int, false) == s,
        text_width(s) > max ==> exists|j: int|
            #![trigger s.subrange(0, j)]
            0 <= j < s.len() && !open_after(s.subrange(0, j), 0, false) && s[j] != esc()
                && text_width(s.subrange(0, j)) <= max < text_width(s.subrange(0, j + 1))
                && clip_from(s, 0, max as int, false) == s.subrange(0, j) + reset_seq(),
{
    lemma_clip_cut(s, 0, max as int, false);
    assert(s.subrange(0, s.len() as int) =~= s);
    if text_width(s) > max {
        let j = choose|j: int|
            #[trigger] clip_cut_at(s, 0, max as int, false, j) && clip_from(s, 0, max as int, false)
                == s.subrange(0, j) + reset_seq();
        assert(0 <= j < s.len() && !open_after(s.subrange(0, j), 0, false) && s[j] != esc()
            && text_width(s.subrange(0, j)) <= max < text_width(s.subrange(0, j + 1))
            && clip_from(s, 0, max as int, false) == s.subrange(0, j) + reset_seq());
    }
}

/// `t` padded with spaces to `n` characters, as `{:<n}` formats it.
pub open spec fn pad_chars(t: Seq<char>, n: int) -> Seq<char> {
    if t.len() >= n {
        t
    } else {
        t + spaces((n - t.len()) as nat)
    }
}

/// Pads `t` with spaces to `n` characters.
fn pad_to_chars(t: String, n: usize) -> (r: String)
    ensures
        r@ == pad_chars(t@, n as int),
{
    let len = t.as_str().unicode_len();
    if len >= n {
        return t;
    }
    let mut r = t;
    let ghost t0 = r@;
    let mut k: usize = 0;
    while k < n - len
        invariant
            k <= n - len,
            len == t0.len(),
            r@ == t0 + spaces(k as nat),
        decreases n - len - k,
    {
        push_char(&mut r, ' ');
        assert(t0 + spaces((k + 1) as nat) =~= (t0 + spaces(k as nat)).push(' '));
        k = k + 1;
    }
    r
}

/// One option line: its number, and its text clipped to the terminal width
/// less ten columns and padded to twenty characters; the highlighted option
/// is shown in reverse video with a diamond.
pub open spec fn option_text(idx: int, opt: Seq<char>, highlight: bool, term_width: int) -> Seq<
    char,
> {
    let text = pad_chars(
        clip_from(opt, 0, if term_width > 10 { term_width - 10 } else { 0 }, false),
        20,
    );
    if highlight {
        "  "@ + seq![esc()] + "[7m ◆ "@ + nat_text((idx + 1) as nat) + ") "@ + text + " "@
            + seq![esc()] + "[0m"@
    } else {
        "    "@ + nat_text((idx + 1) as nat) + ") "@ + text + " "@
    }
}

/// The line of option `idx` (without a newline).
pub fn write_option(idx: usize, opt: &str, highlight: bool, term_width: usize) -> (r: String)
    requires
        idx < usize::MAX,
    ensures
        r@ == option_text(idx as int, opt@, highlight, term_width as int),
{
    let avail = if term_width > 10 { term_width - 10 } else { 0 };
    let text = pad_to_chars(clip_line(opt, avail), 20);
    let num = u64_text((idx + 1) as u64);
    if highlight {
        let mut r = owned("  ");
        push_char(&mut r, '\u{1b}');
        let r = r.concat("[7m ◆ ").concat(num.as_str()).concat(") ").concat(text.as_str()).concat(
            " ",
        );
        let mut r = r;
        push_char(&mut r, '\u{1b}');
        let r = r.concat("[0m");
        r
    } else {
        owned("    ").concat(num.as_str()).concat(") ").concat(text.as_str()).concat(" ")
    }
}

/// One row of the option window: a dim `↑ N more` marker in the first row
/// when options are hidden above, a `↓ N more` marker in the last row when
/// options are hidden below, else the option.
pub open spec fn row_text(
    options: Seq<Seq<char>>,
    row: int,
    selected: int,
    start: int,
    end: int,
    term_width: int,
) -> Seq<char> {
    if row == start && start > 0 {
        "  "@ + seq![esc()] + "[2m  ↑ "@ + nat_text(start as nat) + " more"@ + seq![esc()] + "[0m"@
    } else if row == end - 1 && end < options.len() {
        "  "@ + seq![esc()] + "[2m  ↓ "@ + nat_text((options.len() - (end - 1)) as nat) + " more"@
            + seq![esc()] + "[0m"@
    } else {
        option_text(row, options[row], row == selected, term_width)
    }
}

/// The text of one row of the option window (without a newline).
pub fn write_option_row(
    options: &[&str],
    row: usize,
    selected: usize,
    start: usize,
    end: usize,
    term_width: usize,
) -> (r: String)
    requires
        start <= row < end <= options@.len(),
    ensures
        r@ == row_text(
            options@.map_values(|o: &str| o@),
            row as int,
            selected as int,
            start as int,
            end as int,
            term_width as int,
        ),
{
    let ghost opts = options@.map_values(|o: &str| o@);
    if row == start && start > 0 {
        let mut r = owned("  ");
        push_char(&mut r, '\u{1b}');
        let r = r.concat("[2m  ↑ ").concat(u64_text(start as u64).as_str()).concat(" more");
        let mut r = r;
        push_char(&mut r, '\u{1b}');
        return r.concat("[0m");
    }
    if row == end - 1 && end < options.len() {
        let mut r = owned("  ");
        push_char(&mut r, '\u{1b}');
        let r = r.concat("[2m  ↓ ").concat(u64_text((options.len() - (end - 1)) as u64).as_str())
            .concat(" more");
        let mut r = r;
        push_char(&mut r, '\u{1b}');
        return r.concat("[0m");
    }
    assert(opts[row as int] == options@[row as int]@);
    write_option(row, options[row], row == selected, term_width)
}

/// The menu's hint line, in Chinese when the wizard speaks Chinese.
pub fn menu_hint(chinese: bool) -> (r: &'static str)
    ensures
        r@ == if chinese {
            "\x1b[2m↑↓ 移动  1-9 跳转  Enter 确认  Esc 全部用默认  Ctrl+C 退出\x1b[0m"@
        } else {
            "\x1b[2m↑↓ navigate  1-9 jump  Enter confirm  Esc defaults  Ctrl+C quit\x1b[0m"@
        },
{
    if chinese {
        "\x1b[2m↑↓ 移动  1-9 跳转  Enter 确认  Esc 全部用默认  Ctrl+C 退出\x1b[0m"
    } else {
        "\x1b[2m↑↓ navigate  1-9 jump  Enter confirm  Esc defaults  Ctrl+C quit\x1b[0m"
    }
}


/// The move of the cursor two columns right, `ESC [ 2 C`, that separates
/// the logo from the text beside it.
pub open spec fn gap_seq() -> Seq<char> {
    seq![esc(), '[', '2', 'C']
}

/// The row `row` of a list of lines, or nothing past its end.
pub open spec fn line_or_empty(lines: Seq<String>, row: int) -> Seq<char> {
    if 0 <= row < lines.len() {
        lines[row]@
    } else {
        Seq::empty()
    }
}

/// The column the logo takes: a third of the terminal, at most 50.
pub open spec fn logo_column(width: int) -> int {
    if width / 3 < 50 {
        width / 3
    } else {
        50
    }
}

/// The lines printed for a logo beside a text: on a terminal narrower than
/// `min_width`, or with no logo, the logo's lines and then the text's;
/// otherwise as many rows as the longer of the two, each the logo's line
/// padded to the logo column, the cursor moved two columns right, and the
/// text's line.
pub open spec fn side_by_side(logo: Seq<String>, content: Seq<String>, width: int, min_width: int) -> Seq<
    Seq<char>,
> {
    if width < min_width || logo.len() == 0 {
        views(logo) + views(content)
    } else {
        let rows = if logo.len() < content.len() {
            content.len()
        } else {
            logo.len()
        };
        Seq::new(
            rows,
            |r: int|
                padded(line_or_empty(logo, r), logo_column(width)) + gap_seq() + line_or_empty(
                    content,
                    r,
                ),
        )
    }
}

/// The lines of a logo laid out beside a text on a terminal `width` columns
/// wide, falling back to one above the other below `min_width` columns.
pub fn side_by_side_lines(logo: &[String], content: &[String], width: u16, min_width: u16) -> (r: Vec<
    String,
>)
    requires
        forall|i: int| 0 <= i < logo@.len() ==> 2 * logo@[i]@.len() <= usize::MAX,
    ensures
        views(r@) == side_by_side(logo@, content@, width as int, min_width as int),
{
    let mut out: Vec<String> = Vec::new();
    if width < min_width || logo.len() == 0 {
        let mut i: usize = 0;
        while i < logo.len()
            invariant
                i <= logo@.len(),
                views(out@) == views(logo@).subrange(0, i as int),
            decreases logo.len() - i,
        {
            let ghost before = views(out@);
            out.push(owned(logo[i].as_str()));
            assert(views(out@) =~= before.push(logo@[i as int]@));
            assert(views(logo@).subrange(0, i + 1) =~= views(logo@).subrange(0, i as int).push(
                logo@[i as int]@,
            ));
            i += 1;
        }
        let mut j: usize = 0;
        while j < content.len()
            invariant
                i == logo@.len(),
                j <= content@.len(),
                views(out@) == views(logo@) + views(content@).subrange(0, j as int),
            decreases content.len() - j,
        {
            let ghost before = views(out@);
            out.push(owned(content[j].as_str()));
            assert(views(out@) =~= before.push(content@[j as int]@));
            assert(views(content@).subrange(0, j + 1) =~= views(content@).subrange(
                0,
                j as int,
            ).push(content@[j as int]@));
            j += 1;
        }
        assert(views(logo@).subrange(0, i as int) =~= views(logo@));
        assert(views(content@).subrange(0, j as int) =~= views(content@));
        return out;
    }
    let third = width / 3;
    let logo_w: usize = if third < 50 {
        third as usize
    } else {
        50
    };
    let rows = if logo.len() < content.len() {
        content.len()
    } else {
        logo.len()
    };
    let ghost want = side_by_side(logo@, content@, width as int, min_width as int);
    let mut row: usize = 0;
    while row < rows
        invariant
            row <= rows,
            rows == want.len(),
            logo_w == logo_column(width as int),
            !(width < min_width || logo@.len() == 0),
            want == side_by_side(logo@, content@, width as int, min_width as int),
            forall|i: int| 0 <= i < logo@.len() ==> 2 * logo@[i]@.len() <= usize::MAX,
            views(out@) == want.subrange(0, row as int),
        decreases rows - row,
    {
        let logo_part: &str = if row < logo.len() {
            logo[row].as_str()
        } else {
            ""
        };
        let content_part: &str = if row < content.len() {
            content[row].as_str()
        } else {
            ""
        };
        proof {
            reveal_strlit("");
        }
        assert(logo_part@ == line_or_empty(logo@, row as int));
        assert(content_part@ == line_or_empty(content@, row as int));
        let mut line = pad_display(logo_part, logo_w);
        push_char(&mut line, '\u{1b}');
        push_char(&mut line, '[');
        push_char(&mut line, '2');
        push_char(&mut line, 'C');
        let line = concat(line, content_part);
        let ghost before = views(out@);
        assert(line@ =~= want[row as int]);
        out.push(line);
        assert(views(out@) =~= before.push(line@));
        assert(want.subrange(0, row + 1) =~= want.subrange(0, row as int).push(want[row as int]));
        row += 1;
    }
    assert(want.subrange(0, row as int) =~= want);
    out
}

} // verus!
