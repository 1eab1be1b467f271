use nalarch::data::{Origin, Pkg, Resolved, State, SyncEntry};
use nalarch::history::{Rollback, Source};
use nalarch::i18n::Lang;
use nalarch::plan::{
    build, empty, exclusions, from_rollback, quick_plan, removal_plan, upgrade_command, Kind,
};

fn v(names: &[&str]) -> Vec<String> {
    names.iter().map(|s| s.to_string()).collect()
}

#[test]
fn checking_everything_gives_a_full_system_upgrade() {
    let available = v(&["elfutils", "libelf", "tmux"]);
    assert_eq!(
        upgrade_command(&available, &available, false),
        v(&["paru", "-Syu", "--noconfirm"])
    );
}

#[test]
fn an_aur_package_keeps_parus_questions() {
    let available = v(&["elfutils"]);
    let cmd = upgrade_command(&available, &available, true);
    assert!(!cmd.contains(&"--noconfirm".to_string()));
}

#[test]
fn checking_one_package_excludes_all_the_others() {
    let available = v(&["elfutils", "libelf", "tmux"]);
    let cmd = upgrade_command(&available, &v(&["elfutils"]), true);
    assert_eq!(cmd, v(&["paru", "-Syu", "--ignore", "libelf", "--ignore", "tmux"]));
    assert!(!cmd.contains(&"elfutils".to_string()));
}

#[test]
fn checking_nothing_excludes_everything() {
    let available = v(&["elfutils", "tmux"]);
    let cmd = upgrade_command(&available, &[], true);
    assert_eq!(cmd.iter().filter(|a| *a == "--ignore").count(), 2);
}

#[test]
fn aur_packages_are_excluded_like_any_other() {
    let available = v(&["elfutils", "infisical-bin"]);
    let cmd = upgrade_command(&available, &v(&["elfutils"]), true);
    assert_eq!(cmd, v(&["paru", "-Syu", "--ignore", "infisical-bin"]));
}

#[test]
fn exclusions_are_the_complement_of_the_targets() {
    let available = v(&["a", "b", "c"]);
    assert_eq!(exclusions(&available, &v(&["b"])), v(&["a", "c"]));
    assert!(exclusions(&available, &available).is_empty());
}

// ---- further cases ----

fn pkg(name: &str, version: &str, size: i64, origin: Origin) -> Pkg {
    Pkg {
        name: name.into(),
        version: version.into(),
        target_version: None,
        repo: "extra".into(),
        description: String::new(),
        installed_size: size,
        download_size: None,
        target_size: None,
        explicit: true,
        required_by: Vec::new(),
        optional_for: Vec::new(),
        depends_on: Vec::new(),
        origin,
    }
}

fn state(installed: Vec<Pkg>, updates: Vec<Pkg>, sync: Vec<SyncEntry>) -> State {
    State {
        installed,
        updates,
        ignored: Vec::new(),
        cache_bytes: 0,
        cache_files: 0,
        cache_prunable: 0,
        cache_uninstalled: 0,
        cache_keep: 3,
        sync,
        update_deps: Vec::new(),
        update_provides: Vec::new(),
    }
}

#[test]
fn a_removal_frees_space_and_names_its_cascade() {
    let st = state(
        vec![pkg("asciiquarium", "1.1-1", 100, Origin::Repo), pkg("perl-curses", "1.0-1", 40, Origin::Repo)],
        Vec::new(),
        Vec::new(),
    );
    let cascade = vec![
        Resolved { name: "asciiquarium".into(), version: "1.1-1".into(), repo: String::new() },
        Resolved { name: "perl-curses".into(), version: "1.0-1".into(), repo: String::new() },
    ];
    let p = removal_plan(&st, &v(&["asciiquarium"]), &cascade);
    assert_eq!(p.rows.len(), 2);
    assert_eq!(p.rows[0].kind, Kind::Removal);
    assert_eq!(p.rows[1].kind, Kind::AutoRemoval);
    assert_eq!(p.net, -140);
    assert_eq!(p.total_installed, 0);
    assert_eq!(p.count(Kind::AutoRemoval), 1);
    assert!(p.sizes_known());
}

#[test]
fn a_quick_plan_sizes_what_it_knows() {
    let mut up = pkg("bat", "0.26.1-1", 1000, Origin::Repo);
    up.target_version = Some("0.26.1-2".into());
    up.download_size = Some(300);
    up.target_size = Some(1200);
    let mut aur = pkg("yay-bin", "1-1", 10, Origin::Aur);
    aur.target_version = Some("2-1".into());
    let st = state(Vec::new(), vec![up, aur], Vec::new());
    let p = quick_plan(&st, &v(&["bat", "yay-bin", "absent"]));
    assert_eq!(p.rows.len(), 2);
    assert_eq!(p.total_dl, 300);
    assert_eq!(p.net, 200);
    assert_eq!(p.aur_count, 1);
    assert_eq!(p.unknown, 1);
    assert_eq!(p.rows[0].to_version, "0.26.1-2");
}

#[test]
fn a_full_plan_reads_updates_new_packages_then_the_aur() {
    let st = state(
        vec![pkg("zlib", "1.3-1", 100, Origin::Repo), pkg("glibc", "2.40-1", 500, Origin::Repo)],
        {
            let mut a = pkg("paru-bin", "2.0-1", 5, Origin::Aur);
            a.target_version = Some("2.1-1".into());
            vec![a]
        },
        vec![
            SyncEntry { name: "zlib".into(), version: "1.3.1-1".into(), download_size: 50, installed_size: 110 },
            SyncEntry { name: "glibc".into(), version: "2.39-1".into(), download_size: 70, installed_size: 490 },
            SyncEntry { name: "libnew".into(), version: "1.0-1".into(), download_size: 20, installed_size: 60 },
        ],
    );
    let resolved = vec![
        Resolved { name: "zlib".into(), version: "1.3.1-1".into(), repo: "core".into() },
        Resolved { name: "libnew".into(), version: "1.0-1".into(), repo: "extra".into() },
        Resolved { name: "glibc".into(), version: "2.39-1".into(), repo: "core".into() },
    ];
    let p = build(&st, &resolved, &[false, false, true], &v(&["paru-bin"]));
    let names: Vec<&str> = p.rows.iter().map(|r| r.name.as_str()).collect();
    assert_eq!(names, vec!["glibc", "zlib", "libnew", "paru-bin"]);
    assert_eq!(p.rows[0].kind, Kind::Downgrade);
    assert!(p.rows[0].is_downgrade);
    assert_eq!(p.rows[2].kind, Kind::New);
    assert!(p.rows[3].aur);
    assert_eq!(p.total_installed, 660);
    assert_eq!(p.total_dl, 140);
    assert_eq!(p.net, 60);
    assert_eq!(p.aur_count, 1);
    assert_eq!(p.unknown, 1);
}

#[test]
fn a_rollback_plan_skips_what_no_cache_holds() {
    let rollbacks = vec![
        Rollback {
            name: "fastfetch".into(),
            current: Some("2.67.1-1".into()),
            target: Some("2.66.0-1".into()),
            source: Source::File("/home/u/.cache/paru/clone/fastfetch/f.pkg.tar.zst".into()),
        },
        Rollback { name: "libtruc".into(), current: Some("1.0-1".into()), target: None, source: Source::Remove },
        Rollback { name: "gone".into(), current: None, target: Some("1-1".into()), source: Source::Missing },
    ];
    let p = from_rollback(Lang::En, &rollbacks);
    assert_eq!(p.rows.len(), 2);
    assert_eq!(p.rows[0].kind, Kind::Downgrade);
    assert_eq!(p.rows[0].repo, "paru cache");
    assert!(p.rows[0].aur);
    assert_eq!(p.rows[1].kind, Kind::Removal);
    assert_eq!(p.rows[1].to_version, "—");
    assert!(!p.sizes_known());
}

#[test]
fn an_empty_plan_is_empty() {
    let p = empty();
    assert!(p.is_empty());
    assert_eq!(p.total_dl, 0);
    assert_eq!(Kind::AutoRemoval.symbol(), "⌫");
    assert_eq!(Kind::New.label(Lang::En), "New packages");
    assert_eq!(Kind::ALL.len(), 5);
}

#[test]
fn the_demo_plan_adds_up() {
    let p = nalarch::demo::plan();
    assert_eq!(p.rows.len(), 3);
    let dl: i64 = p.rows.iter().filter_map(|r| r.dl).sum();
    let net: i64 = p.rows.iter().filter_map(|r| r.net).sum();
    assert_eq!(dl, p.total_dl);
    assert_eq!(net, p.net);
}
