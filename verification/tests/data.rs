use nalarch::data::{
    configured_repos, ignored_packages, install_args, install_transaction, keep_seed, load_keep,
    paccache_dry_run, paccache_keep, parse_updates, remove_make, removal_args, removal_cascade,
    resolved_args, resolved_transaction, toggle_keep, RemoveMake,
};
use nalarch::i18n::Lang;

fn s(v: &[&str]) -> Vec<String> {
    v.iter().map(|x| x.to_string()).collect()
}

#[test]
fn a_resolved_transaction_is_read_line_by_line() {
    let r = resolved_transaction("fastfetch|2.67.1-1|extra\n  libx|1.0-1|core  \n\nnothing\n|1|x\n");
    assert_eq!(r.len(), 2);
    assert_eq!(r[0].name, "fastfetch");
    assert_eq!(r[0].version, "2.67.1-1");
    assert_eq!(r[0].repo, "extra");
    assert_eq!(r[1].name, "libx");
    assert_eq!(r[1].repo, "core");
}

#[test]
fn an_install_line_without_a_repository_has_an_empty_one() {
    let r = install_transaction("plakar|1.0-1\n");
    assert_eq!(r.len(), 1);
    assert_eq!(r[0].repo, "");
}

#[test]
fn a_removal_cascade_has_no_repository() {
    let r = removal_cascade("asciiquarium|1.1-9|ignored\nperl-curses|1.41-1\n");
    assert_eq!(r.len(), 2);
    assert_eq!(r[0].name, "asciiquarium");
    assert_eq!(r[0].repo, "");
    assert_eq!(r[1].name, "perl-curses");
}

#[test]
fn the_dry_run_arguments_ignore_the_excluded() {
    assert_eq!(
        resolved_args(&s(&["tmux", "paru"]), Some("/tmp/db")),
        s(&["-Sup", "--print-format", "%n|%v|%r", "--dbpath", "/tmp/db", "--ignore", "tmux", "--ignore", "paru"])
    );
    assert_eq!(resolved_args(&[], None), s(&["-Sup", "--print-format", "%n|%v|%r"]));
    assert_eq!(
        install_args(&s(&["plakar"]), None),
        s(&["-Sp", "--print-format", "%n|%v|%r", "plakar"])
    );
    assert_eq!(
        removal_args(&s(&["asciiquarium"])),
        s(&["-Rsp", "--print-format", "%n|%v", "asciiquarium"])
    );
}

#[test]
fn ignorepkg_accepts_several_names_and_repeats() {
    let mut v = ignored_packages("[options]\nIgnorePkg = kitty linux\n#IgnorePkg = foo\nIgnorePkg=bar\nIgnoreGroup = x\n");
    v.sort();
    assert_eq!(v, s(&["bar", "kitty", "linux"]));
    assert!(ignored_packages("").is_empty());
}

#[test]
fn repositories_are_every_section_but_options() {
    assert_eq!(
        configured_repos("[options]\nHoldPkg = pacman\n[core]\nInclude = x\n  [extra]  \n"),
        s(&["core", "extra"])
    );
}

#[test]
fn removemake_is_read_as_paru_reads_it() {
    assert_eq!(remove_make(None), RemoveMake::No);
    assert_eq!(remove_make(Some("")), RemoveMake::No);
    assert_eq!(remove_make(Some("[options]\nRemoveMake\n")), RemoveMake::Yes);
    assert_eq!(remove_make(Some("RemoveMake = ask\n")), RemoveMake::Ask);
    assert_eq!(remove_make(Some("RemoveMake = no\n")), RemoveMake::No);
    assert_eq!(remove_make(Some("#RemoveMake\nRemoveMake = yes\n")), RemoveMake::Yes);
}

#[test]
fn the_cache_policy_comes_from_the_configuration() {
    assert_eq!(paccache_keep(None), 3);
    assert_eq!(paccache_keep(Some("PACCACHE_ARGS='-k2'\n")), 2);
    assert_eq!(paccache_keep(Some("#PACCACHE_ARGS='-k1'\nPACCACHE_ARGS=\"-v -k5\"\n")), 5);
    assert_eq!(paccache_keep(Some("PACCACHE_ARGS='-v'\n")), 3);
}

#[test]
fn update_lines_give_name_and_new_version() {
    let u = parse_updates("fastfetch 2.66.0-1 -> 2.67.1-1\nnot an update\nbat 0.24 => 0.25\n");
    assert_eq!(u, vec![("fastfetch".to_string(), "2.67.1-1".to_string())]);
}

#[test]
fn the_dry_run_volume_is_read_in_its_unit() {
    assert_eq!(paccache_dry_run("==> finished dry run: 6 candidates (disk space saved: 2.59 MiB)\n"), 2715811);
    assert_eq!(paccache_dry_run("==> finished dry run: 1 candidates (disk space saved: 512 KiB)"), 524288);
    assert_eq!(paccache_dry_run("==> no candidate packages found for pruning"), 0);
}

#[test]
fn the_protection_list_skips_comments_and_blanks() {
    let k = load_keep("# comment\nqt6-wayland\n\n  foo  \nqt6-wayland\n");
    assert_eq!(k, s(&["qt6-wayland", "foo"]));
    let seed = load_keep(&keep_seed(Lang::En));
    assert_eq!(seed, s(&["qt6-wayland", "qt6-avif-image-plugin"]));
}

#[test]
fn protecting_then_releasing_a_name() {
    assert_eq!(toggle_keep("", "x", true), "x\n");
    assert_eq!(toggle_keep("a", "x", true), "a\nx\n");
    assert_eq!(toggle_keep("a\n", "x", true), "a\nx\n");
    assert_eq!(toggle_keep("a\nx\nb\n", "x", false), "a\nb\n");
    assert_eq!(toggle_keep("  x  \na\n", "x", false), "a\n");
}
