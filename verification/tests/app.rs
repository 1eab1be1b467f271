use nalarch::app::{cache_intent, purge_intent, removal_intent, rollback_intent, upgrade_intent, wrap_index, Refusal, Tab};
use nalarch::data::{Origin, Pkg, Resolved, State};
use nalarch::history::{analyze as read_log, Caches};
use nalarch::i18n::Lang;
use nalarch::plan::{empty, quick_plan};

fn pkg(name: &str, target: Option<&str>, origin: Origin) -> Pkg {
    Pkg {
        name: name.into(),
        version: "1-1".into(),
        target_version: target.map(String::from),
        repo: "extra".into(),
        description: String::new(),
        installed_size: 100,
        download_size: Some(10),
        target_size: Some(120),
        explicit: true,
        required_by: Vec::new(),
        optional_for: Vec::new(),
        depends_on: Vec::new(),
        origin,
    }
}

fn state() -> State {
    State {
        installed: vec![pkg("bat", None, Origin::Repo), pkg("tmux", None, Origin::Repo), pkg("qt6-wayland", None, Origin::Repo)],
        updates: vec![pkg("bat", Some("2-1"), Origin::Repo), pkg("tmux", Some("2-1"), Origin::Repo)],
        ignored: Vec::new(),
        cache_bytes: 0,
        cache_files: 0,
        cache_prunable: 2048,
        cache_uninstalled: 1024,
        cache_keep: 2,
        sync: Vec::new(),
        update_deps: Vec::new(),
        update_provides: Vec::new(),
    }
}

fn v(names: &[&str]) -> Vec<String> {
    names.iter().map(|s| s.to_string()).collect()
}

#[test]
fn nothing_checked_means_nothing_to_approve() {
    let st = state();
    let e = upgrade_intent(Lang::En, &st, &[], empty()).err().unwrap();
    assert_eq!(e, "No package checked — press a to check them all");
}

#[test]
fn an_upgrade_of_part_of_the_system_says_what_is_left_out() {
    let st = state();
    let targets = v(&["bat"]);
    let plan = quick_plan(&st, &targets);
    let i = upgrade_intent(Lang::En, &st, &targets, plan).ok().unwrap();
    assert_eq!(i.cmd, v(&["paru", "-Syu", "--ignore", "tmux", "--noconfirm"]));
    assert_eq!(i.title, "Update · 1 package(s) · 1 left out");
    assert_eq!(i.notes[0], "1 update(s) excluded through --ignore: tmux.");
    assert!(!i.removal);
    assert_eq!(i.risks[0].title, "Partial upgrade: 1 package(s) left out");
}

#[test]
fn a_full_upgrade_runs_without_questions() {
    let st = state();
    let targets = v(&["bat", "tmux"]);
    let plan = quick_plan(&st, &targets);
    let i = upgrade_intent(Lang::En, &st, &targets, plan).ok().unwrap();
    assert_eq!(i.cmd, v(&["paru", "-Syu", "--noconfirm"]));
    assert_eq!(i.title, "Update · 2 package(s)");
    assert_eq!(i.notes, v(&["paru will run without asking again: this approval is what counts."]));
    assert!(i.risks.is_empty());
}

#[test]
fn protected_packages_are_never_removed() {
    let st = state();
    let e = removal_intent(Lang::En, &st, &v(&["qt6-wayland"]), &v(&["qt6-wayland"]), &[]).err().unwrap();
    assert_eq!(e, "No package checked");
    let cascade = vec![Resolved { name: "tmux".into(), version: "1-1".into(), repo: String::new() }];
    let i = removal_intent(Lang::En, &st, &v(&["qt6-wayland", "tmux"]), &v(&["qt6-wayland"]), &cascade)
        .ok()
        .unwrap();
    assert_eq!(i.cmd, v(&["paru", "-Rns", "--noconfirm", "tmux"]));
    assert_eq!(i.title, "Removal · 1 package(s)");
    assert!(i.removal);
    assert_eq!(i.plan.net, -100);
}

#[test]
fn the_cache_is_pruned_to_the_configured_retention() {
    let st = state();
    let i = cache_intent(Lang::En, &st);
    assert_eq!(i.cmd, v(&["sudo", "paccache", "-rk2"]));
    assert_eq!(i.title, "Cleaning the cache (keep 2 versions)");
    assert_eq!(cache_intent(Lang::Fr, &st).title, "Nettoyage du cache (garder 2 versions)");
    assert!(i.removal);
    assert!(i.plan.rows.is_empty());
    let p = purge_intent(Lang::En, &st);
    assert_eq!(p.cmd, v(&["sudo", "paccache", "-ruk0"]));
    assert_eq!(p.title, "Purge uninstalled packages from the cache");
}

const LOG: &str = "\
[2026-08-18T00:38:45+0200] [PACMAN] Running 'pacman -S fastfetch'
[2026-08-18T00:38:46+0200] [ALPM] transaction started
[2026-08-18T00:38:46+0200] [ALPM] upgraded fastfetch (2.66.0-1 -> 2.67.1-1)
[2026-08-18T00:38:50+0200] [ALPM] transaction completed
";

const REINSTALL: &str = "\
[2026-08-18T00:38:45+0200] [PACMAN] Running 'pacman -S fastfetch'
[2026-08-18T00:38:46+0200] [ALPM] transaction started
[2026-08-18T00:38:46+0200] [ALPM] reinstalled fastfetch (2.67.1-1)
[2026-08-18T00:38:50+0200] [ALPM] transaction completed
";

#[test]
fn a_rollback_needs_a_cached_version() {
    let st = state();
    let tx = &read_log(LOG)[0];
    let none = Caches::new();
    assert!(matches!(rollback_intent(Lang::En, &none, tx, &st), Err(Refusal::NothingCached)));
    let mut c = Caches::new();
    c.add("fastfetch-2.66.0-1-x86_64.pkg.tar.zst", "/var/cache/pacman/pkg/fastfetch-2.66.0-1-x86_64.pkg.tar.zst");
    let i = rollback_intent(Lang::En, &c, tx, &st).ok().unwrap();
    assert_eq!(i.title, "Rollback · 1 package(s) of 1");
    assert!(i.display_command.is_some());
    assert!(!i.removal);
}

#[test]
fn a_reinstall_has_nothing_to_undo() {
    let st = state();
    let all = read_log(REINSTALL);
    if let Some(tx) = all.first() {
        assert!(matches!(rollback_intent(Lang::En, &Caches::new(), tx, &st), Err(Refusal::NothingToUndo)));
    }
}

#[test]
fn the_cursor_wraps_around() {
    assert_eq!(wrap_index(0, -1, 5), 4);
    assert_eq!(wrap_index(4, 1, 5), 0);
    assert_eq!(wrap_index(2, 7, 5), 4);
    assert_eq!(wrap_index(0, -11, 5), 4);
}

#[test]
fn tabs_have_their_titles() {
    assert_eq!(Tab::Installed.title(Lang::En), "Installed");
    assert_eq!(Tab::ALL.len(), 6);
}

// ---- the table screen ----

use nalarch::app::{App, Mode};
use nalarch::app::Severity;
use nalarch::search::Hit;

fn table() -> App {
    let mut st = state();
    let mut dep = pkg("libdep", None, Origin::Repo);
    dep.explicit = false;
    let mut needed = pkg("libneeded", None, Origin::Repo);
    needed.explicit = false;
    needed.required_by = vec!["bat".into()];
    st.installed.push(dep);
    st.installed.push(needed);
    let mut yay = pkg("yay-bin", Some("2-1"), Origin::Aur);
    yay.description = "AUR helper".into();
    st.updates.push(yay);
    App::new(Lang::En, st, v(&["qt6-wayland"]), read_log(LOG), Caches::new())
}

fn names(rows: Vec<&Pkg>) -> Vec<String> {
    rows.iter().map(|p| p.name.clone()).collect()
}

#[test]
fn each_tab_lists_its_own_packages() {
    let mut a = table();
    assert_eq!(a.mode, Mode::Table);
    assert_eq!(names(a.rows()), v(&["bat", "tmux", "yay-bin"]));
    a.switch_tab(1);
    assert_eq!(a.current_tab(), Tab::Installed);
    assert_eq!(names(a.rows()), v(&["bat", "tmux", "qt6-wayland"]));
    a.switch_tab(1);
    assert_eq!(names(a.rows()), v(&["libdep"]));
    a.switch_tab(1);
    assert_eq!(a.row_count(), 1);
    a.switch_tab(-4);
    assert_eq!(a.current_tab(), Tab::Cache);
    assert_eq!(a.row_count(), 0);
    assert_eq!(a.cursor, None);
}

#[test]
fn the_filter_reads_names_and_descriptions_whatever_the_case() {
    let mut a = table();
    a.filter = "HELPER".into();
    assert_eq!(names(a.rows()), v(&["yay-bin"]));
    a.filter = "T".into();
    assert_eq!(names(a.rows()), v(&["bat", "tmux"]));
    a.filter = "fastfetch".into();
    a.tab = 3;
    assert_eq!(a.filtered_history().len(), 1);
    a.filter = "nothing-like-it".into();
    assert_eq!(a.filtered_history().len(), 0);
}

#[test]
fn the_cursor_wraps_and_stays_on_the_list() {
    let mut a = table();
    a.move_by(-1);
    assert_eq!(a.cursor, Some(2));
    a.move_by(1);
    assert_eq!(a.cursor, Some(0));
    a.go_to(usize::MAX);
    assert_eq!(a.cursor, Some(2));
    assert_eq!(a.selected().unwrap().name, "yay-bin");
    a.detail_scroll = 5;
    a.scroll_detail(-10);
    assert_eq!(a.detail_scroll, 0);
    a.scroll_detail(10);
    assert_eq!(a.detail_scroll, 10);
}

#[test]
fn checking_twice_gives_back_the_selection() {
    let mut a = table();
    a.toggle_check();
    assert_eq!(a.checked, v(&["bat"]));
    assert_eq!(a.cursor, Some(1));
    a.go_to(0);
    a.toggle_check();
    assert!(a.checked.is_empty());
}

#[test]
fn a_protected_package_cannot_be_checked_for_removal() {
    let mut a = table();
    a.switch_tab(1);
    a.go_to(2);
    a.toggle_check();
    assert!(a.checked.is_empty());
    assert_eq!(a.cursor, Some(2));
    let (m, s) = a.message.clone().unwrap();
    assert_eq!(m, "qt6-wayland is protected — press p to lift the protection");
    assert_eq!(s, Severity::Warning);
    a.check_all();
    assert_eq!(a.checked, v(&["bat", "tmux"]));
    assert_eq!(a.message.clone().unwrap().0, "2 package(s) checked");
    a.check_all();
    assert_eq!(a.checked, v(&["bat", "tmux"]));
    a.uncheck_all();
    assert!(a.checked.is_empty());
    assert_eq!(a.message.clone().unwrap().0, "Selection cleared");
}

#[test]
fn the_selection_is_summed_up_under_the_list() {
    let mut a = table();
    assert_eq!(a.selection_summary(), None);
    a.check_all();
    assert_eq!(
        a.selection_summary().unwrap(),
        "3 to update · 30 B to download · 1 from the AUR (built from source)"
    );
    let mut b = table();
    b.switch_tab(1);
    b.toggle_check();
    assert_eq!(b.checked_visible(), v(&["bat"]));
    assert_eq!(b.selection_summary().unwrap(), "1 to remove · 100 B freed");
}

#[test]
fn protecting_a_name_unchecks_it() {
    let mut a = table();
    a.switch_tab(1);
    a.check_all();
    a.record_protection("bat", true);
    assert_eq!(a.checked, v(&["tmux"]));
    assert!(a.is_protected("bat"));
    assert_eq!(a.message.clone().unwrap().0, "bat protected");
    a.record_protection("bat", false);
    assert!(!a.is_protected("bat"));
    assert_eq!(a.message.clone().unwrap().0, "bat unprotected");
}

fn hit(name: &str, repo: &str) -> Hit {
    Hit {
        name: name.into(),
        version: "1-1".into(),
        repo: repo.into(),
        description: String::new(),
        installed: None,
        votes: None,
        popularity: None,
        out_of_date: false,
        maintainer: None,
        url: None,
    }
}

#[test]
fn checked_results_are_qualified_by_their_repository() {
    let mut a = table();
    a.switch_tab(4);
    a.search.finish(Ok(vec![hit("plakar", "aur"), hit("ripgrep", "extra"), hit("fd", "extra")]));
    a.go_to(0);
    a.toggle_check();
    a.toggle_check();
    assert_eq!(a.checked_targets(), v(&["aur/plakar", "extra/ripgrep"]));
    let (repos, aur) = a.checked_hits();
    assert_eq!(repos, v(&["ripgrep"]));
    assert_eq!(aur, v(&["plakar"]));
    a.check_all();
    assert_eq!(a.checked.len(), 2);
    assert_eq!(a.selected_hit().unwrap().name, "fd");
}

#[test]
fn an_install_names_its_targets_with_their_repository() {
    let st = state();
    let e = nalarch::app::install_intent(Lang::En, &st, &[], &[], empty()).err().unwrap();
    assert_eq!(e, "No package checked — space to check one");
    let i = nalarch::app::install_intent(Lang::En, &st, &v(&["extra/ripgrep"]), &[], empty()).ok().unwrap();
    assert_eq!(i.cmd, v(&["paru", "-S", "--noprovides", "--noconfirm", "extra/ripgrep"]));
    assert_eq!(i.title, "Install · 0 package(s)");
    assert_eq!(i.notes, v(&["1 asked for, 0 pulled in as dependencies."]));
    let i = nalarch::app::install_intent(Lang::En, &st, &v(&["aur/plakar"]), &v(&["plakar"]), empty()).ok().unwrap();
    assert_eq!(i.cmd, v(&["paru", "-S", "--noprovides", "aur/plakar"]));
    assert_eq!(i.notes.len(), 2);
    assert!(!i.removal);
}

#[test]
fn searching_the_installed_tab_for_a_dependency_says_why_nothing_shows() {
    let mut a = table();
    a.switch_tab(1);
    assert_eq!(a.dependency_hint(), None);
    a.filter = "libneeded".into();
    assert_eq!(
        a.dependency_hint().unwrap(),
        "libneeded is installed, as a dependency: this tab lists only what you installed yourself."
    );
    a.filter = "nothing".into();
    assert_eq!(
        a.dependency_hint().unwrap(),
        "This tab lists only what you installed yourself: dependencies are found in Search."
    );
    a.filter = "bat".into();
    assert_eq!(a.dependency_hint(), None);
}

#[test]
fn the_updates_tab_recalls_the_frozen_packages() {
    let mut app = table();
    assert_eq!(app.frozen_note(), None);
    app.state.ignored.push(nalarch::data::Ignore {
        name: "linux".into(),
        from_version: "6.9-1".into(),
        to_version: "6.10-1".into(),
    });
    app.state.ignored.push(nalarch::data::Ignore {
        name: "mesa".into(),
        from_version: "1-1".into(),
        to_version: "2-1".into(),
    });
    assert_eq!(app.frozen_note().as_deref(), Some("2 update(s) frozen by IgnorePkg: linux, mesa"));
    app.switch_tab(1);
    assert_eq!(app.frozen_note(), None);
}
