use winuxsh::menu::{
    char_width, clip_line, display_width, initial_selection, key_action, menu_step, pad_display, window_bounds,
    KeyCodeInput, KeyInput, MenuAction, Selection,
};

fn key(code: KeyCodeInput) -> KeyInput {
    KeyInput { code, ctrl: false, release: false }
}

#[test]
fn release_events_are_ignored() {
    let ev = KeyInput { code: KeyCodeInput::Down, ctrl: false, release: true };
    assert_eq!(key_action(&ev, 0, 3), MenuAction::Ignore);
    let ev = KeyInput { code: KeyCodeInput::Enter, ctrl: false, release: true };
    assert_eq!(key_action(&ev, 0, 3), MenuAction::Ignore);
}

#[test]
fn arrow_press_moves_once() {
    assert_eq!(key_action(&key(KeyCodeInput::Down), 0, 3), MenuAction::MoveTo(1));
    assert_eq!(key_action(&key(KeyCodeInput::Up), 2, 3), MenuAction::MoveTo(1));
    // A repeated key is not a release, so it navigates too.
    let ev = KeyInput { code: KeyCodeInput::Down, ctrl: false, release: false };
    assert_eq!(key_action(&ev, 0, 3), MenuAction::MoveTo(1));
}

#[test]
fn arrows_clamp_at_edges() {
    assert_eq!(key_action(&key(KeyCodeInput::Up), 0, 3), MenuAction::MoveTo(0));
    assert_eq!(key_action(&key(KeyCodeInput::Down), 2, 3), MenuAction::MoveTo(2));
}

#[test]
fn enter_confirms_and_esc_uses_default() {
    assert_eq!(key_action(&key(KeyCodeInput::Enter), 1, 3), MenuAction::Confirm);
    assert_eq!(key_action(&key(KeyCodeInput::Esc), 1, 3), MenuAction::UseDefault);
    let ctrl_c = KeyInput { code: KeyCodeInput::Char('c'), ctrl: true, release: false };
    assert_eq!(key_action(&ctrl_c, 1, 3), MenuAction::Abort);
}

#[test]
fn digits_jump_to_option() {
    assert_eq!(key_action(&key(KeyCodeInput::Char('2')), 0, 3), MenuAction::MoveTo(1));
    assert_eq!(key_action(&key(KeyCodeInput::Char('9')), 0, 3), MenuAction::Ignore);
    assert_eq!(key_action(&key(KeyCodeInput::Char('0')), 0, 3), MenuAction::Ignore);
}

#[test]
fn wide_glyphs_count_two_columns() {
    assert_eq!(char_width('a'), 1);
    assert_eq!(char_width('│'), 1);
    assert_eq!(char_width('中'), 2);
    assert_eq!(char_width('，'), 2);
    assert_eq!(char_width('Ａ'), 2);
    assert_eq!(display_width("中文ab"), 6);
    assert_eq!(display_width("\x1b[7m中文\x1b[0m"), 4);
}

#[test]
fn clip_line_uses_display_width() {
    assert_eq!(clip_line("abcde", 5), "abcde");
    assert_eq!(clip_line("中文abc", 5), "中文a\x1b[0m");
    assert_eq!(clip_line("ab中c", 3), "ab\x1b[0m");
    assert_eq!(clip_line("\x1b[7m中文\x1b[0m", 4), "\x1b[7m中文\x1b[0m");
}

#[test]
fn pad_display_aligns_mixed_scripts() {
    assert_eq!(pad_display("中文", 6), "中文  ");
    assert_eq!(pad_display("abc", 2), "abc");
    assert_eq!(display_width(&pad_display("中文ab", 10)), 10);
}

#[test]
fn menu_step_confirms_the_highlighted_option() {
    assert_eq!(menu_step(MenuAction::Confirm, 2), Ok(Selection::Confirmed(2)));
    assert_eq!(menu_step(MenuAction::MoveTo(1), 2), Err(1));
    assert_eq!(menu_step(MenuAction::Abort, 0), Ok(Selection::Abort));
}

#[test]
fn window_keeps_the_selection_visible() {
    let (start, end) = window_bounds(20, 15, 5);
    assert!(start <= 15 && 15 < end);
    assert_eq!(end - start, 5);
    assert_eq!(window_bounds(3, 1, 10), (0, 3));
}

#[test]
fn selection_never_leaves_the_list() {
    let keys = [
        KeyCodeInput::Up,
        KeyCodeInput::Down,
        KeyCodeInput::Enter,
        KeyCodeInput::Char('j'),
        KeyCodeInput::Char('k'),
        KeyCodeInput::Char('1'),
        KeyCodeInput::Char('3'),
        KeyCodeInput::Char('9'),
    ];
    let len = 3;
    for selected in 0..len {
        for code in keys {
            let key = KeyInput { code, ctrl: false, release: false };
            match menu_step(key_action(&key, selected, len), selected) {
                Ok(Selection::Confirmed(k)) => assert!(k < len),
                Ok(_) => {}
                Err(k) => assert!(k < len),
            }
        }
    }
    assert_eq!(initial_selection(7, len), 2);
}

#[test]
fn clip_line_keeps_longest_fitting_prefix() {
    assert_eq!(clip_line("abc", 3), "abc");
    assert_eq!(clip_line("abcd", 3), "abc\x1b[0m");
    assert_eq!(clip_line("a中b", 2), "a\x1b[0m");
    assert_eq!(clip_line("\x1b[1mab", 1), "\x1b[1ma\x1b[0m");
    assert_eq!(clip_line("", 0), "");
}
