use nalarch::exec::{is_question, progress, prompt_at, scroll_after, step_text, strip_ansi, pty_size, LineSplitter};
use nalarch::journal::Journal;
use nalarch::i18n::{Lang, t};

#[test]
fn ansi_sequences_disappear() {
    assert_eq!(strip_ansi("\x1b[1;32m==>\x1b[0m Cleaning…"), "==> Cleaning…");
    assert_eq!(strip_ansi("no colour"), "no colour");
}

#[test]
fn a_charset_designation_does_not_leave_its_letter_behind() {
    assert_eq!(
        strip_ansi("\x1b[1m\x1b[34m==>\x1b(B\x1b[m Checking sources...\x1b(B\x1b[m"),
        "==> Checking sources..."
    );
}

#[test]
fn a_string_escape_is_swallowed_whole() {
    assert_eq!(strip_ansi("\x1b]0;building\x07done"), "done");
    assert_eq!(strip_ansi("\x1b]0;building\x1b\\done"), "done");
}

#[test]
fn a_cut_inside_a_character_does_not_break_the_accents() {
    let whole = ":: Création du paquet…\n".as_bytes();
    for cut in [6, 7, 23, 24] {
        let mut d = LineSplitter::new();
        let mut rows = d.push(&whole[..cut]);
        rows.extend(d.push(&whole[cut..]));
        assert_eq!(rows, vec![":: Création du paquet…".to_string()], "cut after {cut} bytes");
    }
}

#[test]
fn a_carriage_return_ends_a_line_just_like_a_line_feed() {
    let mut d = LineSplitter::new();
    let rows = d.push(b"thing [##--]  40%\rthing [####]  80%\n");
    assert_eq!(rows, vec!["thing [##--]  40%", "thing [####]  80%"]);
}

#[test]
fn a_question_is_recognised_whatever_the_case() {
    assert!(is_question("procéder à l'installation ? [o/n]"));
    assert!(is_question(":: proceed with installation? [y/n]"));
    assert!(!is_question("(1/3) upgrading fastfetch"));
}

#[test]
fn a_prompt_ending_in_a_colon_is_a_question_too() {
    assert!(is_question("enter a number (default=1):"));
    assert!(is_question("[sudo] password for ksh:"));
    assert!(!is_question("(1/3) upgrading fastfetch [###] 100%"));
    assert!(!is_question(" fastfetch-2.67.1-1-x86_64.pkg.tar.zst  638.5 kib"));
}

// ---- further cases ----

#[test]
fn an_unfinished_line_waits_for_its_end() {
    let mut d = LineSplitter::new();
    assert!(d.push(b"half a li").is_empty());
    assert_eq!(d.push(b"ne\n\n"), vec!["half a line".to_string()]);
}

#[test]
fn an_endless_line_is_capped() {
    let mut d = LineSplitter::new();
    let long = vec![b'x'; 9000];
    assert!(d.push(&long).is_empty());
    let rows = d.push(b"\n");
    assert_eq!(rows.len(), 1);
    assert_eq!(rows[0].len(), 8192);
}

#[test]
fn invalid_bytes_are_replaced_not_dropped() {
    let mut d = LineSplitter::new();
    let rows = d.push(b"a\xffb\n");
    assert_eq!(rows, vec!["a\u{fffd}b".to_string()]);
}

#[test]
fn a_password_prompt_is_masked() {
    let p = prompt_at("  [sudo] Password for ksh:  ").expect("a prompt");
    assert!(p.masked);
    assert_eq!(p.text, "[sudo] Password for ksh:");
    let q = prompt_at(":: Proceed with installation? [Y/n]").expect("a question");
    assert!(!q.masked);
    assert!(prompt_at("(1/3) upgrading fastfetch [###] 100%").is_none());
    assert!(prompt_at("   ").is_none());
}

#[test]
fn progress_follows_the_counter_then_completes() {
    let mut j = Journal::default();
    j.analyze(":: Processing package changes...");
    j.analyze("(3/6) upgrading spotify [####----] 50%");
    let p = progress(None, &j).unwrap();
    assert_eq!(p.fraction, Some((250, 600)));
    assert_eq!(p.counter, Some((3, 6)));
    assert_eq!(p.label, "installing");
    let done = progress(Some(0), &j).unwrap();
    assert_eq!(done.fraction, Some((1, 1)));
    assert_eq!(done.label, "finished");
    let mut b = Journal::default();
    b.analyze("==> Making package: infisical-bin");
    let p = progress(None, &b).unwrap();
    assert_eq!(p.fraction, None);
    assert_eq!(p.label, "Making package: infisical-bin");
}

#[test]
fn the_step_says_how_it_ended() {
    let j = Journal::default();
    assert_eq!(step_text(None, &j), "preparing");
    assert_eq!(step_text(Some(0), &j), "every step succeeded");
    assert_eq!(step_text(Some(3), &j), "interrupted during: preparing");
    let f = Journal::new(Lang::Fr);
    assert_eq!(step_text(Some(3), &f), format!("interrompu pendant : {}", t(Lang::Fr, "preparing")));
}

#[test]
fn nothing_announced_means_no_progress() {
    let j = Journal::default();
    assert!(progress(None, &j).is_none());
    assert!(progress(Some(2), &j).is_none());
    assert_eq!(progress(Some(0), &j).unwrap().fraction, Some((1, 1)));
}

#[test]
fn scrolling_stops_at_the_bottom() {
    assert_eq!(scroll_after(5, -10), 0);
    assert_eq!(scroll_after(5, 3), 8);
    assert_eq!(scroll_after(5, -2), 3);
    assert_eq!(pty_size(1, 200), (4, 200));
    assert_eq!(pty_size(40, 10), (40, 20));
}
