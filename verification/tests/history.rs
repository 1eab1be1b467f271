use nalarch::history::{days_from_civil, duration_text, out_of_cache, rollback_verdict, Outlook};
use nalarch::history::{
    analyze, epoch, rollback_command, rollback_plan, version_key, Act, Caches, Rollback, Source,
    Transaction,
};
use nalarch::i18n::{lang, Lang};

const EXCERPT: &str = "\
[2026-08-18T00:38:45+0200] [PACMAN] Running 'pacman --sync -y -u --noconfirm --'
[2026-08-18T00:38:45+0200] [PACMAN] synchronizing package lists
[2026-08-18T00:38:46+0200] [ALPM] transaction started
[2026-08-18T00:38:46+0200] [ALPM] upgraded fastfetch (2.66.0-1 -> 2.67.1-1)
[2026-08-18T00:38:47+0200] [ALPM] installed libtruc (1.0-1)
[2026-08-18T00:38:48+0200] [ALPM] removed vieux (3.2-1)
[2026-08-18T00:38:49+0200] [ALPM] warning: /etc/foo.conf installed as /etc/foo.conf.pacnew
[2026-08-18T00:38:50+0200] [ALPM] transaction completed
[2026-08-18T00:38:50+0200] [ALPM] running '35-systemd-update.hook'...
";

#[test]
fn a_transaction_is_rebuilt_with_its_operations() {
    let t = analyze(EXCERPT);
    assert_eq!(t.len(), 1);
    let t = &t[0];
    assert!(t.completed);
    assert_eq!(t.duration, Some(4));
    assert_eq!(t.operations.len(), 3);
    assert_eq!(t.warnings.len(), 1);
    assert_eq!(t.command.as_deref(), Some("pacman --sync -y -u --noconfirm --"));
}

#[test]
fn versions_are_read_the_right_way_round() {
    let all = analyze(EXCERPT);
    let t = &all[0];
    let updates = &t.operations[0];
    assert_eq!(updates.act, Act::Upgraded);
    assert_eq!(updates.before.as_deref(), Some("2.66.0-1"));
    assert_eq!(updates.after.as_deref(), Some("2.67.1-1"));
    let sup = &t.operations[2];
    assert_eq!(sup.act, Act::Removed);
    assert_eq!(sup.before.as_deref(), Some("3.2-1"));
    assert_eq!(sup.after, None);
}

#[test]
fn the_rollback_inverts_every_operation() {
    let all = analyze(EXCERPT);
    let t = &all[0];
    let r = rollback_plan(&Caches::default(), t);
    assert_eq!(r.len(), 3);
    assert_eq!(r[0].target.as_deref(), Some("2.66.0-1"));
    assert!(!r[0].is_possible());
    assert!(matches!(r[1].source, Source::Remove));
    assert!(r[1].is_possible());
    assert_eq!(r[2].target.as_deref(), Some("3.2-1"));
}

#[test]
fn an_interrupted_transaction_stays_marked_incomplete() {
    let truncated = "\
[2026-08-18T00:38:46+0200] [ALPM] transaction started
[2026-08-18T00:38:46+0200] [ALPM] upgraded fastfetch (2.66.0-1 -> 2.67.1-1)
";
    let t = analyze(truncated);
    assert_eq!(t.len(), 1);
    assert!(!t[0].completed);
}

#[test]
fn transactions_with_no_operation_are_not_listed() {
    let empty = "\
[2026-08-18T00:34:21+0200] [PACMAN] Running 'pacman --sync -y -u --'
[2026-08-18T00:34:21+0200] [PACMAN] synchronizing package lists
";
    assert!(analyze(empty).is_empty());
}

fn with_command(cmd: &str) -> Transaction {
    Transaction {
        timestamp: String::new(),
        instant: None,
        command: Some(cmd.into()),
        operations: Vec::new(),
        warnings: Vec::new(),
        duration: None,
        completed: true,
    }
}

#[test]
fn the_trigger_does_not_mistake_an_ignore_for_a_target() {
    let t = with_command("paru -Syu --ignore firefox elfutils");
    assert_eq!(t.trigger(lang(None)), "system upgrade · elfutils");
}

#[test]
fn the_trigger_names_the_package_not_the_path() {
    let t = with_command("pacman -U /var/cache/pacman/pkg/fastfetch-2.66.0-1-x86_64.pkg.tar.zst");
    assert_eq!(t.trigger(lang(None)), "install from file · fastfetch");
}

#[test]
fn a_full_upgrade_says_so_plainly() {
    assert_eq!(with_command("pacman --sync -y -u --").trigger(lang(None)), "system upgrade");
    assert_eq!(
        with_command("pacman -R --noconfirm kdeconnect").trigger(lang(None)),
        "removal · kdeconnect"
    );
}

#[test]
fn the_version_key_ignores_architecture_and_extension() {
    assert_eq!(
        version_key("fastfetch-2.66.0-1-x86_64.pkg.tar.zst").as_deref(),
        Some("fastfetch-2.66.0-1")
    );
    assert_eq!(
        version_key("qt6-wayland-6.9.0-2-x86_64.pkg.tar.zst").as_deref(),
        Some("qt6-wayland-6.9.0-2")
    );
}

#[test]
fn the_rollback_command_chains_install_then_removal() {
    let rollbacks = vec![
        Rollback {
            name: "fastfetch".into(),
            current: Some("2.67.1-1".into()),
            target: Some("2.66.0-1".into()),
            source: Source::File("/var/cache/pacman/pkg/f.pkg.tar.zst".into()),
        },
        Rollback {
            name: "libtruc".into(),
            current: Some("1.0-1".into()),
            target: None,
            source: Source::Remove,
        },
    ];
    let cmd = rollback_command(&rollbacks).unwrap();
    assert_eq!(cmd[0], "sudo");
    assert_eq!(cmd[1], "sh");
    let script = &cmd[3];
    assert!(script.starts_with("pacman -U"));
    assert!(script.contains("&& pacman -R --noconfirm libtruc"));
}

#[test]
fn a_timestamp_converts_to_an_absolute_instant() {
    let a = epoch("2026-08-18T00:38:46+0200").unwrap();
    let b = epoch("2026-08-17T22:38:46+0000").unwrap();
    assert_eq!(a, b);
}

// ---- further cases ----

#[test]
fn the_first_cached_file_wins() {
    let mut c = Caches::new();
    c.add("fastfetch-2.66.0-1-x86_64.pkg.tar.zst", "/var/cache/pacman/pkg/a");
    c.add("fastfetch-2.66.0-1-x86_64.pkg.tar.zst", "/home/u/.cache/paru/clone/fastfetch/b");
    c.add("fastfetch-2.66.0-1-x86_64.pkg.tar.zst.sig", "/var/cache/pacman/pkg/sig");
    assert_eq!(c.find("fastfetch", "2.66.0-1").as_deref(), Some("/var/cache/pacman/pkg/a"));
    assert_eq!(c.find("fastfetch", "2.67.1-1"), None);
}

#[test]
fn a_cached_version_makes_the_rollback_possible() {
    let all = analyze(EXCERPT);
    let mut c = Caches::new();
    c.add("fastfetch-2.66.0-1-x86_64.pkg.tar.zst", "/var/cache/pacman/pkg/fastfetch-2.66.0-1-x86_64.pkg.tar.zst");
    let r = rollback_plan(&c, &all[0]);
    assert!(r[0].is_possible());
    let cmd = rollback_command(&r).unwrap();
    assert!(cmd[3].contains("/var/cache/pacman/pkg/fastfetch-2.66.0-1-x86_64.pkg.tar.zst"));
}

#[test]
fn a_summary_counts_by_kind() {
    let all = analyze(EXCERPT);
    let s = all[0].summary(Lang::En);
    assert!(s.contains('1'));
    assert_eq!(all[0].count(Act::Installed), 1);
    assert!(all[0].matches_text("fastfetch"));
    assert!(!all[0].matches_text("nothing-like-it"));
}

fn rb(name: &str, source: Source) -> Rollback {
    Rollback { name: name.into(), current: Some("2-1".into()), target: Some("1-1".into()), source }
}

#[test]
fn the_rollback_verdict_comes_before_the_list() {
    let none = rollback_verdict(Lang::En, &[]);
    assert_eq!(none.outlook, Outlook::NothingToUndo);
    assert_eq!(none.text, "Nothing to undo: this transaction only reinstalled.");
    let gone = vec![rb("a", Source::Missing)];
    assert_eq!(rollback_verdict(Lang::En, &gone).outlook, Outlook::Impossible);
    let full = vec![rb("a", Source::Remove), rb("b", Source::File("/c/b.pkg.tar.zst".into()))];
    let v = rollback_verdict(Lang::En, &full);
    assert_eq!(v.outlook, Outlook::Complete);
    assert_eq!(v.text, "2 package(s) restorable — a complete rollback is possible.");
    let part = vec![rb("a", Source::Remove), rb("b", Source::Missing), rb("c", Source::Missing)];
    let v = rollback_verdict(Lang::En, &part);
    assert_eq!(v.outlook, Outlook::Partial);
    assert_eq!(v.text, "1 restorable of 3 — 2 out of cache, left as they are.");
    assert_eq!(out_of_cache(&part), vec!["b".to_string(), "c".to_string()]);
    assert!(out_of_cache(&full).is_empty());
}

#[test]
fn durations_read_at_a_glance() {
    assert_eq!(duration_text(Lang::En, 0), "less than a second");
    assert_eq!(duration_text(Lang::En, 42), "42 s");
    assert_eq!(duration_text(Lang::En, 125), "2 min 5 s");
}

#[test]
fn french_plurals_inflect() {
    assert_eq!(Act::Installed.label_n(Lang::Fr, 3), "installés");
    assert_eq!(Act::Upgraded.label_n(Lang::Fr, 2), "mis à jour");
    assert_eq!(Act::Downgraded.label_n(Lang::Fr, 2), "rétrogradés");
    assert_eq!(Act::Removed.label_n(Lang::Fr, 2), "supprimés");
    assert_eq!(Act::Reinstalled.label_n(Lang::Fr, 2), "réinstallés");
    assert_eq!(Act::Removed.label_n(Lang::Fr, 1), "supprimé");
    assert_eq!(Act::Removed.label_n(Lang::En, 4), "removed");
}

#[test]
fn days_count_from_the_epoch_far_and_wide() {
    assert_eq!(days_from_civil(1970, 1, 1), 0);
    assert_eq!(days_from_civil(2000, 3, 1), 11017);
    assert_eq!(days_from_civil(-1_000_000, 3, 1), -365961968);
    assert_eq!(days_from_civil(100_000, -20, 5), 35804084);
}
