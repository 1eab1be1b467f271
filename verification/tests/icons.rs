use nalarch::icons::{enabled, in_console, repo, repo_width};

#[test]
fn nothing_is_drawn_when_icons_are_off() {
    let on = enabled(None);
    assert!(!on);
    assert_eq!(repo(on, "core"), "");
    assert_eq!(repo_width(on), 0);
}

#[test]
fn icons_nothing_is_drawn_when_icons_are_off() {
    let on = enabled(None);
    assert!(!on);
    assert_eq!(repo(on, "core"), "");
    assert_eq!(repo_width(on), 0);
}

#[test]
fn a_console_cannot_draw_them() {
    assert!(in_console("linux"));
    assert!(in_console("vt220"));
    assert!(in_console(""));
    assert!(!in_console("tmux-256color"));
    assert!(!in_console("screen-256color"));
    assert!(!in_console("xterm-256color"));
}

#[test]
fn an_unknown_repository_gets_no_icon() {
    assert_eq!(repo(true, "chaotic-aur"), "");
}

#[test]
fn icons_an_unknown_repository_gets_no_icon() {
    assert_eq!(repo(enabled(Some(true)), "chaotic-aur"), "");
}

// ---- further cases ----

#[test]
fn a_known_repository_gets_its_glyph_when_icons_are_on() {
    assert!(!repo(true, "core").is_empty());
    assert_eq!(repo_width(true), 2);
}
