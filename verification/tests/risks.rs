use nalarch::data::{Ignore, Origin, Pkg, State};
use nalarch::history::{analyze as read_log, Rollback, Source};
use nalarch::i18n::Lang;
use nalarch::plan::{empty, Kind, Plan, PlanRow};
use nalarch::risks::{analyze, analyze_rollback, needs_reboot, Level};

fn row(name: &str, kind: Kind, aur: bool, downgrade: bool) -> PlanRow {
    PlanRow {
        name: name.into(),
        repo: if aur { "aur".into() } else { "core".into() },
        from_version: "1-1".into(),
        to_version: "2-1".into(),
        dl: Some(10),
        net: Some(5),
        aur,
        kind,
        is_downgrade: downgrade,
    }
}

fn plan(rows: Vec<PlanRow>) -> Plan {
    let mut p = empty();
    p.rows = rows;
    p
}

fn pkg(name: &str, required_by: &[&str]) -> Pkg {
    Pkg {
        name: name.into(),
        version: "1-1".into(),
        target_version: None,
        repo: "extra".into(),
        description: String::new(),
        installed_size: 100,
        download_size: None,
        target_size: None,
        explicit: false,
        required_by: required_by.iter().map(|s| s.to_string()).collect(),
        optional_for: Vec::new(),
        depends_on: Vec::new(),
        origin: Origin::Repo,
    }
}

fn state(installed: Vec<Pkg>) -> State {
    State {
        installed,
        updates: Vec::new(),
        ignored: Vec::new(),
        cache_bytes: 0,
        cache_files: 0,
        cache_prunable: 0,
        cache_uninstalled: 0,
        cache_keep: 3,
        sync: Vec::new(),
        update_deps: Vec::new(),
        update_provides: Vec::new(),
    }
}

#[test]
fn kernels_and_critical_pieces_need_a_reboot() {
    let p = plan(vec![
        row("linux", Kind::Upgrade, false, false),
        row("bat", Kind::Upgrade, false, false),
        row("glibc", Kind::Upgrade, false, false),
    ]);
    assert_eq!(needs_reboot(&p), vec!["linux".to_string(), "glibc".to_string()]);
}

#[test]
fn the_most_severe_risk_comes_first() {
    let p = plan(vec![
        row("libnew", Kind::New, false, false),
        row("linux", Kind::Upgrade, false, false),
        row("paru-bin", Kind::Upgrade, true, false),
    ]);
    let mut st = state(vec![pkg("nvidia-dkms", &[])]);
    st.ignored.push(Ignore { name: "kitty".into(), from_version: "0.45".into(), to_version: "0.48".into() });
    let r = analyze(Lang::En, &p, &st, &["tmux".to_string()], false);
    let levels: Vec<Level> = r.iter().map(|x| x.level).collect();
    assert_eq!(
        levels,
        vec![Level::Serious, Level::Serious, Level::Caution, Level::Info, Level::Info]
    );
    assert_eq!(r[0].title, "1 package(s) built from the AUR: paru-bin");
    assert_eq!(r[1].title, "Partial upgrade: 1 package(s) left out");
    assert_eq!(r[2].title, "Kernel upgraded (linux): reboot required");
    assert!(r[2].detail.ends_with("1 DKMS module(s) will be rebuilt, which lengthens the operation."));
    assert_eq!(r[3].title, "1 new package(s) pulled in as dependencies");
    assert_eq!(r[4].title, "1 update(s) available but frozen");
    assert!(r[4].detail.starts_with("kitty 0.45 → 0.48."));
}

#[test]
fn a_quiet_upgrade_raises_nothing() {
    let p = plan(vec![row("bat", Kind::Upgrade, false, false)]);
    assert!(analyze(Lang::En, &p, &state(Vec::new()), &[], false).is_empty());
}

#[test]
fn a_downgrade_is_pointed_out() {
    let p = plan(vec![row("glibc", Kind::Downgrade, false, true)]);
    let r = analyze(Lang::En, &p, &state(Vec::new()), &[], false);
    assert_eq!(r.len(), 2);
    assert_eq!(r[0].title, "Essential system components: glibc");
    assert_eq!(r[1].title, "Back to an earlier version: glibc");
}

#[test]
fn a_removal_always_warns_about_what_nothing_declares() {
    let p = plan(vec![
        row("asciiquarium", Kind::Removal, false, false),
        row("perl-curses", Kind::AutoRemoval, false, false),
    ]);
    let st = state(vec![
        pkg("asciiquarium", &[]),
        pkg("perl-curses", &["asciiquarium", "other"]),
    ]);
    let r = analyze(Lang::En, &p, &st, &[], true);
    let titles: Vec<&str> = r.iter().map(|x| x.title.as_str()).collect();
    assert_eq!(
        titles,
        vec![
            "1 extra package(s) will be removed as a cascade",
            "1 package(s) still needed by packages that stay: perl-curses (1)",
            "Dependencies loaded at run time are invisible",
            "Configuration files will be deleted",
        ]
    );
    let r = analyze(Lang::En, &plan(Vec::new()), &state(Vec::new()), &[], true);
    assert_eq!(r.len(), 2);
}

const LOG: &str = "\
[2026-08-18T00:38:45+0200] [PACMAN] Running 'pacman -S fastfetch'
[2026-08-18T00:38:46+0200] [ALPM] transaction started
[2026-08-18T00:38:46+0200] [ALPM] upgraded fastfetch (2.66.0-1 -> 2.67.1-1)
[2026-08-18T00:38:47+0200] [ALPM] installed libtruc (1.0-1)
[2026-08-18T00:38:48+0200] [ALPM] warning: /etc/foo.conf installed as /etc/foo.conf.pacnew
[2026-08-18T00:38:50+0200] [ALPM] transaction completed
";

#[test]
fn a_rollback_says_what_it_cannot_undo() {
    let tx = &read_log(LOG)[0];
    let rollbacks = vec![
        Rollback {
            name: "fastfetch".into(),
            current: Some("2.67.1-1".into()),
            target: Some("2.66.0-1".into()),
            source: Source::File("/var/cache/pacman/pkg/f.pkg.tar.zst".into()),
        },
        Rollback { name: "libtruc".into(), current: Some("1.0-1".into()), target: None, source: Source::Remove },
        Rollback { name: "gone".into(), current: None, target: Some("1-1".into()), source: Source::Missing },
    ];
    let r = analyze_rollback(Lang::En, &rollbacks, tx, &state(Vec::new()));
    let titles: Vec<&str> = r.iter().map(|x| x.title.as_str()).collect();
    assert_eq!(
        titles,
        vec![
            "1 package(s) not found: partial rollback",
            "The next full upgrade will undo this rollback",
            "Partial state: the rest of the system does not go back",
            "1 package(s) will be uninstalled",
            "1 warning(s) during the original transaction",
            "Rolling back packages is not rolling back the system",
        ]
    );
    assert!(r[0].detail.contains("gone 1-1"));
    assert!(r[0].detail.contains("keeps only 3 version(s)"));
    assert_eq!(r.last().unwrap().level, Level::Info);
}
