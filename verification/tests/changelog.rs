use nalarch::changelog::{
    commit_date, content, github, note_rows, packaging_url, release_tags, release_url, upstream_url,
    Changelog, Commit, Content, Packaging, State,
};
use nalarch::i18n::Lang;

#[test]
fn a_github_url_is_recognised() {
    assert_eq!(
        github("https://github.com/fastfetch-cli/fastfetch"),
        Some(("fastfetch-cli".into(), "fastfetch".into()))
    );
    assert_eq!(github("https://github.com/sharkdp/bat.git"), Some(("sharkdp".into(), "bat".into())));
    assert_eq!(github("https://gitlab.com/volian/nala"), None);
}

// ---- further cases ----

#[test]
fn the_upstream_url_is_read_from_pacman() {
    let out = "Repository      : extra\nName            : bat\nURL             : https://github.com/sharkdp/bat\nLicenses        : MIT\n";
    assert_eq!(upstream_url(out).as_deref(), Some("https://github.com/sharkdp/bat"));
    assert_eq!(upstream_url("Name : x\nURL :   \n"), None);
    assert_eq!(upstream_url("Name : x\n"), None);
}

#[test]
fn a_tag_drops_the_revision_and_the_epoch() {
    assert_eq!(release_tags("2.67.1-1"), ("2.67.1".to_string(), "v2.67.1".to_string()));
    assert_eq!(release_tags("1:1.2.3-4"), ("1.2.3".to_string(), "v1.2.3".to_string()));
}

#[test]
fn release_notes_are_trimmed_and_bounded() {
    let body: String = (0..80).map(|i| format!("line {i}   \n")).collect();
    let rows = note_rows(&body);
    assert_eq!(rows.len(), 60);
    assert_eq!(rows[0], "line 0");
}

#[test]
fn a_commit_keeps_its_day() {
    assert_eq!(commit_date("2026-08-17T10:20:30.000+02:00").as_deref(), Some("2026-08-17"));
    assert_eq!(commit_date("short"), None);
}

#[test]
fn the_urls_are_built_for_each_service() {
    assert_eq!(
        packaging_url("bat"),
        "https://gitlab.archlinux.org/api/v4/projects/archlinux%2Fpackaging%2Fpackages%2Fbat/repository/commits?per_page=15"
    );
    assert_eq!(
        release_url("sharkdp", "bat", "v0.26.1"),
        "https://api.github.com/repos/sharkdp/bat/releases/tags/v0.26.1"
    );
}

#[test]
fn what_could_not_be_read_is_said() {
    let c = content(Lang::En, Some("https://gitlab.com/x/y".into()), false, Packaging::Unreachable, (Vec::new(), None));
    assert_eq!(
        c.gaps,
        vec![
            "Packaging log unreachable (network?).".to_string(),
            "Upstream notes cannot be fetched automatically: https://gitlab.com/x/y".to_string(),
        ]
    );
    let c = content(
        Lang::En,
        Some("https://github.com/sharkdp/bat".into()),
        false,
        Packaging::Commits(vec![Commit { date: "2026-08-17".into(), title: "upgpkg".into() }]),
        (vec!["notes".into()], Some("v1".into())),
    );
    assert!(c.gaps.is_empty());
    assert_eq!(c.packaging.len(), 1);
    assert_eq!(c.upstream_tag.as_deref(), Some("v1"));
    let c = content(Lang::En, None, true, Packaging::NoRepository, (Vec::new(), None));
    assert_eq!(c.gaps.len(), 1);
    assert!(c.packaging.is_empty());
}

#[test]
fn a_changelog_loads_then_is_ready() {
    let mut c = Changelog::new("bat", "0.26.1-1", "0.26.1-2");
    assert!(matches!(c.state, State::Loading));
    c.gone();
    match &c.state {
        State::Ready(content) => assert!(content.gaps.is_empty()),
        State::Loading => panic!("still loading"),
    }
    c.ready(Content::default());
    assert!(matches!(c.state, State::Ready(_)));
}

#[test]
fn the_log_shows_what_the_update_brings() {
    let commits = vec![
        Commit { date: "2026-08-14".into(), title: "upgpkg: 2.67.1-1".into() },
        Commit { date: "2026-08-01".into(), title: "Rebuild against libfoo".into() },
        Commit { date: "2026-07-20".into(), title: "upgpkg: 2.66.0-1 ".into() },
        Commit { date: "2026-07-01".into(), title: "upgpkg: 2.65.0-1".into() },
    ];
    let rows = nalarch::changelog::commit_rows(&commits, "2.66.0-1");
    let brings: Vec<bool> = rows.iter().map(|r| r.brings).collect();
    assert_eq!(brings, vec![true, true, false, false]);
    let marked: Vec<bool> = rows.iter().map(|r| r.installed).collect();
    assert_eq!(marked, vec![false, false, true, false]);
    assert_eq!(rows[0].title, "2.67.1-1");
    assert_eq!(rows[1].title, "Rebuild against libfoo");
    assert_eq!(rows[2].date, "2026-07-20");
    let unknown = nalarch::changelog::commit_rows(&commits, "1.0-1");
    assert!(unknown.iter().all(|r| r.brings && !r.installed));
}

#[test]
fn a_release_bump_alone_brings_no_feature() {
    assert!(nalarch::changelog::release_only("6.29.0-1", "6.29.0-2"));
    assert!(!nalarch::changelog::release_only("2.66.0-1", "2.67.1-1"));
    assert!(nalarch::changelog::release_only("1:1.2-1", "1:1.2-3"));
    assert!(!nalarch::changelog::release_only("1.2-1", "1.2-1"));
    assert_eq!(
        nalarch::changelog::verdict(Lang::En, "6.29.0-1", "6.29.0-2"),
        "Same upstream version: a rebuild, a packaging fix or a dependency change — no new feature."
    );
    assert_eq!(nalarch::changelog::verdict(Lang::Fr, "1.0-1", "2.0-1"), "Nouvelle version amont.");
}

#[test]
fn the_packaging_log_is_read_from_the_forges_answer() {
    let body = r#"[{"id":"a1","title":"upgpkg: 2.67.1-1","created_at":"2026-08-14T10:00:00.000+00:00"},
                   {"id":"a2","title":"broken","created_at":null},
                   {"id":"a3","title":"upgpkg: 2.66.0-1","created_at":"2026-07-20T09:00:00.000+00:00"}]"#;
    match nalarch::changelog::packaging_from(Some(body.to_string())) {
        Packaging::Commits(c) => {
            assert_eq!(c.len(), 2);
            assert_eq!(c[0].date, "2026-08-14");
            assert_eq!(c[1].title, "upgpkg: 2.66.0-1");
        }
        _ => panic!("a list of commits was expected"),
    }
    assert!(matches!(nalarch::changelog::packaging_from(None), Packaging::Unreachable));
    assert!(matches!(
        nalarch::changelog::packaging_from(Some(r#"{"message":"404 Project Not Found"}"#.to_string())),
        Packaging::NoRepository
    ));
}

#[test]
fn release_notes_come_from_the_body_of_the_release() {
    let rows = nalarch::changelog::notes_from(Some(r###"{"tag_name":"2.67.1","body":"## Fixes\r\n* one  \n* two"}"###.to_string()));
    assert_eq!(rows, vec!["## Fixes".to_string(), "* one".to_string(), "* two".to_string()]);
    assert!(nalarch::changelog::notes_from(Some(r#"{"message":"Not Found"}"#.to_string())).is_empty());
    assert!(nalarch::changelog::notes_from(None).is_empty());
}
