use nalarch::data::Origin;
use nalarch::snapshot::{classify, Entry, LocalPkg, Offer};

fn local(name: &str, version: &str) -> LocalPkg {
    LocalPkg {
        name: name.into(),
        version: version.into(),
        description: String::new(),
        installed_size: 100,
        explicit: true,
        required_by: Vec::new(),
        optional_for: Vec::new(),
        depends_on: Vec::new(),
    }
}

fn offer(repo: &str, version: &str) -> Option<Offer> {
    Some(Offer { repo: repo.into(), version: version.into(), download_size: 10, installed_size: 20 })
}

fn entry(name: &str, version: &str, offered: Option<Offer>, repo: Option<&str>, aur: Option<&str>, frozen: bool) -> Entry {
    Entry {
        local: local(name, version),
        offer: offered,
        repo_update: repo.map(String::from),
        aur_update: aur.map(String::from),
        frozen,
    }
}

#[test]
fn the_snapshot_sorts_classifies_and_freezes() {
    let s = classify(vec![
        entry("zsh", "5.9-1", offer("extra", "5.9-2"), Some("5.9-2"), None, false),
        entry("yay-bin", "12-1", None, None, Some("13-1"), false),
        entry("bat", "0.24-1", offer("extra", "0.24-1"), Some("0.25-1"), None, false),
        entry("linux", "6.9-1", offer("core", "6.10-1"), None, None, true),
        entry("local-tool", "1-1", None, None, None, false),
    ]);
    let names: Vec<&str> = s.installed.iter().map(|p| p.name.as_str()).collect();
    assert_eq!(names, ["bat", "linux", "local-tool", "yay-bin", "zsh"]);
    let ups: Vec<&str> = s.updates.iter().map(|p| p.name.as_str()).collect();
    assert_eq!(ups, ["bat", "zsh", "yay-bin"]);
    let zsh = &s.updates[1];
    assert_eq!(zsh.repo, "extra");
    assert_eq!(zsh.download_size, Some(10));
    assert_eq!(zsh.target_size, Some(20));
    let bat = &s.updates[0];
    assert_eq!(bat.download_size, None, "the sync database lags behind: no size");
    let yay = &s.updates[2];
    assert_eq!(yay.origin, Origin::Aur);
    assert_eq!(yay.repo, "aur");
    assert_eq!(s.installed[2].repo, "aur", "in no database means AUR or local");
    assert_eq!(s.ignored.len(), 1);
    assert_eq!(s.ignored[0].name, "linux");
    assert_eq!(s.ignored[0].to_version, "6.10-1");
}
