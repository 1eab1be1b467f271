use nalarch::i18n::Lang;
use nalarch::journal::{
    name_from_file, read_counter, read_default, read_percent, read_size, read_speed,
    translate_warning, Action, Journal, Phase,
};

fn replay(rows: &[&str]) -> Journal {
    let mut j = Journal::default();
    for l in rows {
        j.analyze(l);
    }
    j
}

fn handled(j: &Journal) -> Vec<String> {
    j.handled()
}

#[test]
fn le_nom_se_retrouve_depuis_le_fichier_telecharge() {
    assert_eq!(
        name_from_file("fastfetch-2.67.1-1-x86_64.pkg.tar.zst").as_deref(),
        Some("fastfetch")
    );
    assert_eq!(
        name_from_file("python-pbs-installer-2026.08.14-1-any.pkg.tar.zst").as_deref(),
        Some("python-pbs-installer")
    );
    assert_eq!(name_from_file("not-a-package.txt"), None);
}

#[test]
fn taille_et_vitesse_ne_se_confondent_pas() {
    let l = " fastfetch-2.67.1-1-x86_64.pkg.tar.zst   638.5 KiB  1863 KiB/s 00:00 [###] 100%";
    assert_eq!(read_size(l), Some(653_824));
    assert_eq!(read_speed(l).as_deref(), Some("1863 KiB/s"));
}

#[test]
fn a_complete_transaction_produces_its_events() {
    let j = replay(&[
        ":: Synchronizing package databases...",
        ":: Retrieving packages...",
        " fastfetch-2.67.1-1-x86_64.pkg.tar.zst  638.5 KiB  1863 KiB/s 00:00 [###] 100%",
        ":: Checking keyring...",
        "(1/1) checking keys in keyring [###] 100%",
        ":: Processing package changes...",
        "(1/1) upgrading fastfetch [###] 100%",
        ":: Running post-transaction hooks...",
        "(1/2) Arming ConditionNeedsUpdate...",
        "(2/2) Updating the desktop file MIME type cache...",
    ]);
    let verbs: Vec<Action> = j.events.iter().map(|e| e.action).collect();
    assert_eq!(
        verbs,
        vec![Action::Downloaded, Action::Verified, Action::Upgraded, Action::Hook, Action::Hook]
    );
    assert_eq!(j.downloads.finished, vec!["fastfetch".to_string()]);
    assert_eq!(j.downloads.bytes, 653_824);
    assert_eq!(handled(&j), vec!["fastfetch"]);
    assert_eq!(j.phase, Phase::Hooks);
}

#[test]
fn parus_aur_phases_reset_nothing() {
    let j = replay(&[
        ":: Processing package changes...",
        "(1/1) upgrading fastfetch [###] 100%",
        ":: Looking for AUR upgrades...",
        ":: Looking for devel upgrades...",
    ]);
    assert_eq!(j.phase, Phase::Installing);
    assert_eq!(handled(&j), vec!["fastfetch"]);
}

#[test]
fn pacnew_files_are_kept_apart_from_warnings() {
    let j = replay(&[
        "warning: /etc/pacman.conf installed as /etc/pacman.conf.pacnew",
        "warning: kitty: ignoring package upgrade (0.45.0-4 => 0.48.2-1)",
    ]);
    assert_eq!(j.pacnew, vec!["/etc/pacman.conf.pacnew".to_string()]);
    assert_eq!(j.warnings.len(), 1);
}

#[test]
fn a_build_drops_the_counter_it_inherited() {
    let j = replay(&[
        ":: Processing package changes...",
        "(1/1) upgrading fastfetch [###] 100%",
        "==> Making package: plakar-git 1.0.3.r384",
        "==> Starting build()...",
    ]);
    assert_eq!(j.phase, Phase::Building);
    assert_eq!(j.counter, None);
    assert_eq!(j.percent, None);
}

#[test]
fn makepkg_warnings_are_not_build_steps() {
    let j = replay(&[
        "==> Starting build()...",
        "==> WARNING: Using existing $srcdir/ tree",
        "==> ERROR: A failure occurred in build().",
    ]);
    assert_eq!(j.warnings, vec!["Using existing $srcdir/ tree".to_string()]);
    assert_eq!(j.errors, vec!["A failure occurred in build().".to_string()]);
    assert_eq!(j.events.len(), 1);
}

#[test]
fn a_provider_question_is_read_whole() {
    let j = replay(&[
        ":: Resolving dependencies...",
        ":: There are 2 providers available for plakar:",
        ":: Repository AUR:",
        "    1) plakar  2) plakar-git",
        "Enter a number (default=1):",
    ]);
    let c = j.choice.expect("a question is pending");
    assert_eq!(c.about, "plakar");
    assert_eq!(c.default, Some(1));
    assert_eq!(c.candidates.len(), 2);
    assert_eq!(c.candidates[0].number, 1);
    assert_eq!(c.candidates[0].name, "plakar");
    assert_eq!(c.candidates[0].group, "AUR");
    assert_eq!(c.candidates[1].name, "plakar-git");
}

#[test]
fn the_question_goes_once_something_happens() {
    let j = replay(&[
        ":: There are 2 providers available for plakar:",
        ":: Repository AUR:",
        "    1) plakar  2) plakar-git",
        "Enter a number (default=1):",
        ":: Processing package changes...",
        "(1/1) installing plakar [###] 100%",
    ]);
    assert!(j.choice.is_none());
    assert_eq!(handled(&j), vec!["plakar"]);
}

#[test]
fn parus_resolution_table_is_read() {
    let j = replay(&[
        ":: Resolving dependencies...",
        "Repo (1)        Old Version  New Version  Make Only",
        "extra/go                     2:1.26.6-1   Yes",
        "Aur (1)         Old Version  New Version  Make Only",
        "aur/plakar-git               1.0.3.r384.gd77c14a2-1  No",
        ":: Proceed with installation? [Y/n]:",
    ]);
    assert_eq!(j.resolution.len(), 2);
    let go = &j.resolution[0];
    assert_eq!((go.repo.as_str(), go.name.as_str()), ("extra", "go"));
    assert_eq!(go.from, None);
    assert_eq!(go.to, "2:1.26.6-1");
    assert!(go.make_only);
    let aur = &j.resolution[1];
    assert_eq!(aur.repo, "aur");
    assert!(!aur.make_only);
    assert_eq!(aur.to, "1.0.3.r384.gd77c14a2-1");
}

#[test]
fn a_resolution_row_with_two_versions_is_an_upgrade() {
    let j = replay(&[
        "Repo (1)        Old Version  New Version  Make Only",
        "extra/foo       1.0-1        2.0-1        No",
    ]);
    assert_eq!(j.resolution[0].from.as_deref(), Some("1.0-1"));
    assert_eq!(j.resolution[0].to, "2.0-1");
}

#[test]
fn the_table_ends_when_the_rows_do() {
    let j = replay(&[
        "Repo (1)        Old Version  New Version  Make Only",
        "extra/go                     2:1.26.6-1   Yes",
        ":: Processing package changes...",
        "(1/1) upgrading fastfetch [###] 100%",
    ]);
    assert_eq!(j.resolution.len(), 1);
    assert_eq!(j.phase, Phase::Installing);
    assert_eq!(handled(&j), vec!["fastfetch"]);
}

#[test]
fn warnings_are_restated_as_sentences() {
    let j = replay(&["warning: kitty: ignoring package upgrade (0.45.0-4 => 0.48.2-1)"]);
    assert_eq!(j.warnings, vec!["kitty: upgrade skipped (0.45.0-4 → 0.48.2-1)".to_string()]);
    assert_eq!(translate_warning(Lang::En, "something odd"), "something odd");
}

#[test]
fn une_erreur_est_conservee_a_part() {
    let j = replay(&["error: failed to commit transaction"]);
    assert_eq!(j.errors, vec!["failed to commit transaction".to_string()]);
}

// ---- further cases ----

#[test]
fn a_counter_tolerates_padding_and_cuts_the_bar() {
    assert_eq!(
        read_counter("( 3/17) upgrading spotify [####----] 50%"),
        Some((3, 17, "upgrading spotify".to_string()))
    );
    assert_eq!(read_counter("(x/2) nothing"), None);
    assert_eq!(read_counter("no counter"), None);
}

#[test]
fn a_percentage_needs_its_brackets() {
    assert_eq!(read_percent("thing [##--]  40%"), Some(40));
    assert_eq!(read_percent("thing 40%"), None);
    assert_eq!(read_percent("thing [####] 180%"), None);
    assert_eq!(read_percent("thing [####]  100%  "), Some(100));
}

#[test]
fn sizes_read_every_unit_and_comma() {
    assert_eq!(read_size("a.pkg.tar.zst 2,5 MiB 1 KiB/s"), Some(2_621_440));
    assert_eq!(read_size("a 3 B"), Some(3));
    assert_eq!(read_size("a 1 GiB"), Some(1_073_741_824));
    assert_eq!(read_size("a 0.1 KiB"), Some(102));
    assert_eq!(read_size("KiB 12"), None);
    assert_eq!(read_size("only 1863 KiB/s"), None);
    assert_eq!(read_speed("no rate here"), None);
    assert_eq!(read_speed("1863 XB/s"), None);
}

#[test]
fn the_default_answer_is_read_from_the_prompt() {
    assert_eq!(read_default("Enter a number (default=1):"), Some(1));
    assert_eq!(read_default("Enter a number (default= 12 ):"), Some(12));
    assert_eq!(read_default("Enter a number:"), None);
}

#[test]
fn an_error_is_recorded_once() {
    let j = replay(&["error: boom", "error: boom", "==> ERROR: boom"]);
    assert_eq!(j.errors, vec!["boom".to_string()]);
}

#[test]
fn a_file_is_counted_once() {
    let line = " fastfetch-2.67.1-1-x86_64.pkg.tar.zst  638.5 KiB  1863 KiB/s 00:00 [###] 100%";
    let j = replay(&[line, line]);
    assert_eq!(j.downloads.finished.len(), 1);
    assert_eq!(j.downloads.bytes, 653_824);
    assert_eq!(j.events.len(), 1);
    assert_eq!(j.events[0].detail, "638.5 KiB");
    assert_eq!(j.downloads.speed.as_deref(), Some("1863 KiB/s"));
}

#[test]
fn the_events_stay_bounded() {
    let mut j = Journal::default();
    for i in 0..2100 {
        j.analyze(&format!("==> step {i}"));
    }
    assert_eq!(j.events.len(), 2000);
    assert_eq!(j.events[0].target, "step 100");
}

#[test]
fn hooks_are_named_without_their_ellipsis() {
    let j = replay(&[":: Running post-transaction hooks...", "(1/1) Reloading system manager…"]);
    assert_eq!(j.events[0].action, Action::Hook);
    assert_eq!(j.events[0].target, "Reloading system manager");
}

#[test]
fn french_journals_speak_french() {
    let mut j = Journal::new(Lang::Fr);
    j.analyze("(1/1) checking keys in keyring [###] 100%");
    assert_eq!(j.events[0].action, Action::Verified);
    assert_ne!(j.events[0].target, "keyring keys");
    assert_eq!(Phase::Hooks.label(Lang::En), "post-transaction hooks");
    assert_eq!(Action::Built.symbol(), "⚒");
}

#[test]
fn a_repeated_error_is_recorded_once() {
    let mut j = Journal::default();
    j.analyze("error: failed to commit transaction (conflicting files)");
    j.analyze("error: failed to commit transaction (conflicting files)");
    assert_eq!(j.errors.len(), 1);
    j.analyze("   ");
    assert_eq!(j.errors.len(), 1);
}
