use nalarch::ui::{hms, truncate, wrap_indent};

/// Wrapping must indent the continuation rows, otherwise a detail detaches
/// visually from the title it explains.
#[test]
fn wrapping_indents_the_following_rows() {
    let l = wrap_indent("one two three four five six", 24, "   ");
    assert!(l.len() > 1);
    assert!(l[0].starts_with("   "));
    assert!(l[1].starts_with("   "));
    assert!(l.iter().all(|x| x.chars().count() <= 24));
}

#[test]
fn truncation_never_cuts_a_character_in_half() {
    assert_eq!(truncate("écran", 3), "éc…");
    assert_eq!(truncate("court", 20), "court");
}

#[test]
fn truncation_keeps_room_for_the_ellipsis() {
    assert_eq!(truncate("écran", 0), "…");
    assert_eq!(truncate("écran", 5), "écran");
    assert_eq!(truncate("écrans", 5), "écra…");
}

#[test]
fn wrapping_keeps_every_word_once() {
    let l = wrap_indent("one two three four five six seven eight nine ten", 24, "  ");
    let words: Vec<String> = l.iter().flat_map(|x| x.split_whitespace().map(String::from)).collect();
    assert_eq!(words, vec!["one", "two", "three", "four", "five", "six", "seven", "eight", "nine", "ten"]);
    assert!(l.iter().all(|x| x.chars().count() <= 24));
    // A very narrow column still gets twenty characters of text per row.
    let l = wrap_indent("one two three four five six", 12, "  ");
    assert_eq!(l, vec!["  one two three four", "  five six"]);
}

#[test]
fn durations_read_as_hours_minutes_seconds() {
    assert_eq!(hms(0), "0:00:00");
    assert_eq!(hms(3725), "1:02:05");
    assert_eq!(hms(36000), "10:00:00");
}

use nalarch::i18n::Lang;
use nalarch::journal::Journal;
use nalarch::plan::{empty, Kind, PlanRow};
use nalarch::ui::{
    download_figures, journal_window, markdown_line, note_lines, run_footer, summary_height, summary_kinds,
    version_of, shows_frozen, Markdown, Note,
};

fn row(name: &str, from: &str, to: &str, kind: Kind) -> PlanRow {
    PlanRow {
        name: name.into(),
        repo: "core".into(),
        from_version: from.into(),
        to_version: to.into(),
        dl: Some(10),
        net: Some(1),
        aur: false,
        kind,
        is_downgrade: false,
    }
}

#[test]
fn release_notes_keep_their_headings_and_bullets() {
    assert!(matches!(markdown_line("## Features"), Markdown::Heading(t) if t == "Features"));
    assert!(matches!(markdown_line("  # Fixes"), Markdown::Heading(t) if t == "Fixes"));
    assert!(matches!(markdown_line("  - faster start"), Markdown::Bullet(2, t) if t == "faster start"));
    assert!(matches!(markdown_line("* one"), Markdown::Bullet(0, t) if t == "one"));
    assert!(matches!(markdown_line("plain text"), Markdown::Plain(t) if t == "plain text"));
    assert!(matches!(markdown_line("#hashtag"), Markdown::Plain(t) if t == "#hashtag"));
}

#[test]
fn the_operations_window_follows_the_tail_until_scrolled_back() {
    assert_eq!(journal_window(100, 10, None), (90, 100, None));
    assert_eq!(journal_window(100, 10, Some(20)), (20, 30, Some(20)));
    // Scrolled back down to the tail: following again.
    assert_eq!(journal_window(100, 10, Some(95)), (90, 100, None));
    assert_eq!(journal_window(3, 10, Some(1)), (0, 3, None));
}

#[test]
fn an_operation_takes_its_versions_from_the_plan() {
    let mut p = empty();
    p.rows = vec![
        row("fastfetch", "2.66.0-1", "2.67.1-1", Kind::Upgrade),
        row("libfoo", "", "1.4.2-1", Kind::New),
        row("gone", "3.2-1", "", Kind::Removal),
    ];
    assert_eq!(version_of(&p, "fastfetch"), "2.66.0-1 → 2.67.1-1");
    assert_eq!(version_of(&p, "libfoo"), "1.4.2-1");
    assert_eq!(version_of(&p, "gone"), "3.2-1");
    assert_eq!(version_of(&p, "absent"), "");
}

#[test]
fn without_a_plan_the_download_compares_with_what_was_seen() {
    let mut p = empty();
    assert_eq!(download_figures(3, &p, 4096), (3, 3, 4096));
    p.rows = vec![row("a", "1", "2", Kind::Upgrade), row("b", "1", "2", Kind::Upgrade)];
    p.total_dl = 20;
    assert_eq!(download_figures(1, &p, 4096), (1, 2, 20));
    assert_eq!(download_figures(5, &p, 4096), (2, 2, 20));
}

#[test]
fn the_summary_lists_the_kinds_that_structure_the_plan() {
    let mut p = empty();
    p.rows = vec![row("a", "1", "2", Kind::Upgrade)];
    assert_eq!(summary_kinds(&p, false), vec![Kind::Upgrade, Kind::New]);
    p.rows = vec![row("a", "2", "1", Kind::Downgrade)];
    assert_eq!(summary_kinds(&p, false), vec![Kind::Downgrade, Kind::Removal]);
    p.rows = vec![row("a", "1", "", Kind::AutoRemoval)];
    assert_eq!(summary_kinds(&p, true), vec![Kind::Removal, Kind::AutoRemoval]);
    assert_eq!(summary_height(&p, true, 0), 8);
    p.aur_count = 1;
    p.unknown = 1;
    assert_eq!(summary_height(&p, false, 3), 12);
}

#[test]
fn the_notes_say_what_is_left_to_do() {
    let mut j = Journal::new(Lang::En);
    j.errors.push("failed to commit transaction".into());
    j.pacnew.push("/etc/pacman.conf.pacnew".into());
    for w in ["a", "b", "c", "d", "e"] {
        j.warnings.push(w.into());
    }
    let mut p = empty();
    p.rows = vec![row("linux", "6.1", "6.2", Kind::Upgrade)];
    let notes = note_lines(Lang::En, &j, Some(0), Some(&p));
    assert_eq!(notes.len(), 1 + 3 + 1 + 4);
    assert!(matches!(&notes[0], Note::Failed(e) if e == "failed to commit transaction"));
    assert!(matches!(&notes[1], Note::Merge(m) if m == "1 configuration file(s) to merge: /etc/pacman.conf.pacnew"));
    assert!(matches!(&notes[3], Note::MergeHow(_, c, _) if c == "sudo pacdiff -s"));
    assert!(matches!(&notes[4], Note::Reboot(m) if m == "Reboot required: linux"));
    assert!(matches!(&notes[8], Note::Warning(w) if w == "d"));
    // Before the end, or after a failure, no reboot is announced.
    assert_eq!(note_lines(Lang::En, &j, None, Some(&p)).len(), 8);
    assert_eq!(note_lines(Lang::En, &j, Some(1), Some(&p)).len(), 8);
}

#[test]
fn the_footer_says_how_the_run_ended() {
    assert_eq!(
        run_footer(Lang::En, None, false, false),
        " j paru's raw output · ↑↓ scroll · every other key is forwarded to paru"
    );
    assert_eq!(
        run_footer(Lang::En, Some(0), false, true),
        " Finished · j back to the transcript · ↑↓ PgUp PgDn scroll · Enter to return"
    );
    assert_eq!(
        run_footer(Lang::En, Some(3), false, false),
        " Failed (code 3) · j paru's raw output · ↑↓ PgUp PgDn scroll · Enter back to the table"
    );
    assert!(run_footer(Lang::En, Some(130), true, false).starts_with(" Interrupted · "));
}

#[test]
fn frozen_packages_are_recalled_on_an_upgrade_only() {
    let mut up = empty();
    up.rows = vec![row("bat", "1-1", "2-1", Kind::Upgrade)];
    assert!(shows_frozen(&up, false, 2));
    assert!(!shows_frozen(&up, false, 0));
    assert!(!shows_frozen(&up, true, 2));
    let mut back = empty();
    back.rows = vec![row("bat", "2-1", "1-1", Kind::Downgrade)];
    assert!(!shows_frozen(&back, false, 2));
}
