use nalarch::i18n::Lang;
use nalarch::search::{ranked, run, urlencode, Hit, Search, State};

#[test]
fn a_query_is_encoded_before_reaching_the_url() {
    assert_eq!(urlencode("gtk3"), "gtk3");
    // A space would end the URL and silently search for the first word only.
    assert_eq!(urlencode("hello world"), "hello%20world");
    assert_eq!(urlencode("c++"), "c%2B%2B");
}

fn hit(name: &str, repo: &str, popularity: i64) -> Hit {
    Hit {
        name: name.into(),
        version: "1-1".into(),
        repo: repo.into(),
        description: String::new(),
        installed: None,
        votes: None,
        popularity: Some(popularity),
        out_of_date: false,
        maintainer: None,
        url: None,
    }
}

/// Relevance first, then the reviewed source, then popularity.
#[test]
fn results_are_ordered_by_what_was_probably_meant() {
    let hits = vec![
        hit("libyazi", "extra", 0),
        hit("yazi-git", "aur", 9000),
        hit("yazi", "aur", 1000),
        hit("yazi", "extra", 0),
    ];
    let hits = ranked(hits, "yazi", &[]);
    let vu: Vec<(&str, &str)> = hits.iter().map(|h| (h.name.as_str(), h.repo.as_str())).collect();
    assert_eq!(
        vu,
        vec![("yazi", "extra"), ("yazi", "aur"), ("yazi-git", "aur"), ("libyazi", "extra")]
    );
}

#[test]
fn non_ascii_bytes_are_percent_encoded() {
    assert_eq!(urlencode("é"), "%C3%A9");
    assert_eq!(urlencode("a-b_c.d~e"), "a-b_c.d~e");
}

#[test]
fn popularity_breaks_ties_within_a_source() {
    let hits = vec![hit("yazi-a", "aur", 10), hit("yazi-b", "aur", 5000)];
    let hits = ranked(hits, "yazi", &[]);
    assert_eq!(hits[0].name, "yazi-b");
    assert_eq!(hits[1].name, "yazi-a");
}

#[test]
fn installed_packages_are_marked() {
    let hits = vec![hit("yazi", "extra", 0), hit("bat", "extra", 0)];
    let installed = vec![("yazi".to_string(), "25.5.31-1".to_string())];
    let hits = ranked(hits, "yazi", &installed);
    let yazi = hits.iter().find(|h| h.name == "yazi").unwrap();
    assert_eq!(yazi.installed.as_deref(), Some("25.5.31-1"));
    let bat = hits.iter().find(|h| h.name == "bat").unwrap();
    assert_eq!(bat.installed, None);
}

#[test]
fn results_are_bounded() {
    let hits: Vec<Hit> = (0..500).map(|i| hit(&format!("pkg{i}"), "aur", i)).collect();
    let hits = ranked(hits, "pkg", &[]);
    assert!(hits.len() < 500);
    assert!(!hits.is_empty());
}

#[test]
fn an_aur_outage_keeps_the_repository_results() {
    let r = run("yazi", &[], vec![hit("yazi", "extra", 0)], Err("timeout".into()));
    let v = r.unwrap();
    assert_eq!(v.len(), 1);
    assert_eq!(v[0].repo, "extra");
    let r = run("yazi", &[], vec![], Err("timeout".into()));
    assert_eq!(r.err().as_deref(), Some("timeout"));
    let r = run("yazi", &[], vec![hit("yazi", "extra", 0)], Ok(vec![hit("yazi", "aur", 0)]));
    assert_eq!(r.unwrap().len(), 2);
}

#[test]
fn a_query_too_short_is_refused() {
    let mut s = Search::new();
    assert_eq!(s.start(Lang::En, " y "), None);
    assert!(matches!(s.state, State::Failed(_)));
    assert_eq!(s.start(Lang::En, "  yazi "), Some("yazi".to_string()));
    assert_eq!(s.query, "yazi");
    assert!(matches!(s.state, State::Running));
    assert!(s.hits().is_empty());
    s.finish(Ok(vec![hit("yazi", "extra", 0)]));
    assert_eq!(s.hits().len(), 1);
    s.interrupted(Lang::En);
    assert!(matches!(s.state, State::Failed(ref m) if m == "Search interrupted."));
}

#[test]
fn only_the_aur_counts_as_aur() {
    assert!(hit("x", "aur", 0).is_aur());
    assert!(!hit("x", "extra", 0).is_aur());
}

use nalarch::json::Leaf;
use nalarch::search::{aur_hits, read_aur, AurColumns};

const AUR: &str = r#"{"resultcount":3,"results":[
 {"Name":"yazi-git","Version":"25.5.31.r10-1","Description":"Blazing fast file manager","NumVotes":12,"Popularity":0.523,"OutOfDate":null,"Maintainer":"someone","URL":"https://github.com/sxyazi/yazi"},
 {"Name":"yazi-bin","Version":"25.5.31-1","Description":null,"NumVotes":3,"Popularity":0,"OutOfDate":1717000000,"Maintainer":null,"URL":null},
 {"Version":"1-1"}
],"type":"search","version":5}"#;

#[test]
fn the_aurs_answer_is_read_field_by_field() {
    let hits = aur_hits(Lang::En, Ok(AUR.to_string())).unwrap();
    assert_eq!(hits.len(), 2);
    assert_eq!(hits[0].name, "yazi-git");
    assert_eq!(hits[0].repo, "aur");
    assert_eq!(hits[0].votes, Some(12));
    assert_eq!(hits[0].popularity, Some(523));
    assert!(!hits[0].out_of_date);
    assert_eq!(hits[0].maintainer.as_deref(), Some("someone"));
    assert_eq!(hits[1].description, "");
    assert!(hits[1].out_of_date);
    assert_eq!(hits[1].maintainer, None);
    assert_eq!(hits[1].popularity, Some(0));
}

#[test]
fn an_aur_answer_can_fail_in_several_ways() {
    assert_eq!(aur_hits(Lang::En, Err("no curl".into())).err().as_deref(), Some("no curl"));
    assert_eq!(
        aur_hits(Lang::En, Ok("  \n".into())).err().as_deref(),
        Some("The AUR did not answer (network?).")
    );
    assert_eq!(aur_hits(Lang::En, Ok("<html>".into())).err().as_deref(), Some("Unreadable AUR answer."));
    assert_eq!(
        aur_hits(Lang::En, Ok(r#"{"error":"Too many package results."}"#.into())).err().as_deref(),
        Some("Too many package results.")
    );
    assert!(aur_hits(Lang::En, Ok(r#"{"resultcount":0}"#.into())).unwrap().is_empty());
}

#[test]
fn a_result_needs_a_name_and_a_version() {
    let cols = AurColumns {
        name: vec![Leaf::Text("a".into()), Leaf::Text("b".into()), Leaf::Null],
        version: vec![Leaf::Number("2".into()), Leaf::Absent],
        description: vec![],
        votes: vec![Leaf::Number("4294967297".into())],
        popularity: vec![Leaf::Number("1.2345".into())],
        out_of_date: vec![],
        maintainer: vec![],
        url: vec![],
    };
    let hits = read_aur(Lang::En, false, Some(Leaf::Absent), Some(Some(cols))).unwrap();
    assert_eq!(hits.len(), 1);
    assert_eq!(hits[0].name, "a");
    assert_eq!(hits[0].version, "");
    assert_eq!(hits[0].votes, Some(1));
    assert_eq!(hits[0].popularity, Some(1234));
}
