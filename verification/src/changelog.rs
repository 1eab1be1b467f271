//! What an update changes, before downloading it.
//!
//! Packages almost never ship a changelog. The information exists elsewhere,
//! in two complementary places: Arch's packaging log, which says why the
//! package moved (a new upstream release, or a plain rebuild), and the
//! upstream release notes, fetched when the project is hosted on GitHub. The
//! fetching is done outside; what is asked for, and what is made of the
//! answers, is decided here.

use vstd::prelude::*;
use crate::i18n::{Lang, t, translate, subst};
use crate::journal::fill1;
use crate::text::{
    chars_of, string_of, owned, slice, append, split_once, split_once_at, strip_prefix,
    without_prefix, trim, trimmed, trim_end, trimmed_end, trim_end_matches, trimmed_end_matches,
    pieces, split_char, lines, str_lines, views, strs, contains, trim_start_matches,
    trimmed_start_matches, has, rsplit_once, rsplit_once_at, seq_eq,
};
use vstd::string::StringSliceAdditionalSpecFns;
use crate::json::{Leaf, LeafView, leaf_views, cell, cell_at, json_leaf, json_column, leaf_at, column_at};

verus! {

pub struct Commit {
    pub date: String,
    pub title: String,
}

pub struct Content {
    pub url: Option<String>,
    pub packaging: Vec<Commit>,
    /// Upstream release notes, already split into lines.
    pub upstream: Vec<String>,
    pub upstream_tag: Option<String>,
    /// What could not be obtained, said out loud rather than left blank.
    pub gaps: Vec<String>,
}

impl Default for Content {
    fn default() -> (r: Content)
        ensures
            r.url is None,
            r.packaging@.len() == 0,
            r.upstream@.len() == 0,
            r.upstream_tag is None,
            r.gaps@.len() == 0,
    {
        Content {
            url: None,
            packaging: Vec::new(),
            upstream: Vec::new(),
            upstream_tag: None,
            gaps: Vec::new(),
        }
    }
}

/// `https://github.com/owner/repo(.git)(/)` → `(owner, repo)`.
pub open spec fn github_spec(url: Seq<char>) -> Option<(Seq<char>, Seq<char>)> {
    match split_once(url, "github.com/"@) {
        Some((_, r)) => {
            let rest = trim_end_matches(trim_end_matches(r, "/"@), ".git"@);
            let p = pieces(rest, '/');
            if p.len() >= 2 && p[0].len() > 0 && p[1].len() > 0 {
                Some((p[0], p[1]))
            } else {
                None
            }
        },
        None => None,
    }
}

/// Extracts owner and repository from a GitHub URL.
pub fn github(url: &str) -> (r: Option<(String, String)>)
    ensures
        match r {
            Some((o, p)) => github_spec(url@) == Some((o@, p@)),
            None => github_spec(url@) is None,
        },
{
    let v = chars_of(url);
    let (_, r) = split_once_at(v.as_slice(), "github.com/")?;
    let a = trimmed_end_matches(r.as_slice(), "/");
    let rest = trimmed_end_matches(a.as_slice(), ".git");
    let p = split_char(rest.as_slice(), '/');
    if p.len() >= 2 && p[0].len() > 0 && p[1].len() > 0 {
        Some((string_of(p[0].as_slice()), string_of(p[1].as_slice())))
    } else {
        None
    }
}

/// The first line of `pacman -Si` that starts with `URL`.
pub open spec fn url_line(ls: Seq<Seq<char>>) -> Option<Seq<char>>
    decreases ls.len(),
{
    if ls.len() == 0 {
        None
    } else if strip_prefix(ls[0], "URL"@) is Some {
        strip_prefix(ls[0], "URL"@)
    } else {
        url_line(ls.drop_first())
    }
}

/// The upstream project URL, as the package declares it in `pacman -Si`.
pub open spec fn upstream_url_spec(output: Seq<char>) -> Option<Seq<char>> {
    match url_line(lines(output)) {
        Some(v) => match split_once(v, ":"@) {
            Some((_, u)) => if trim(u).len() > 0 {
                Some(trim(u))
            } else {
                None
            },
            None => None,
        },
        None => None,
    }
}

pub fn upstream_url(output: &str) -> (r: Option<String>)
    ensures
        match r {
            Some(u) => upstream_url_spec(output@) == Some(u@),
            None => upstream_url_spec(output@) is None,
        },
{
    let ls = str_lines(output);
    let ghost lv = views(ls@);
    let mut i: usize = 0;
    assert(lv.skip(0) =~= lv);
    while i < ls.len()
        invariant
            i <= ls.len(),
            lv == views(ls@),
            lv == lines(output@),
            url_line(lv) == url_line(lv.skip(i as int)),
        decreases ls.len() - i,
    {
        let ghost rest = lv.skip(i as int);
        assert(rest[0] == ls@[i as int]@);
        assert(rest.drop_first() =~= lv.skip(i + 1));
        if let Some(v) = without_prefix(ls[i].as_slice(), "URL") {
            let (_, u) = split_once_at(v.as_slice(), ":")?;
            let u = trimmed(u.as_slice());
            if u.len() > 0 {
                return Some(string_of(u.as_slice()));
            }
            return None;
        }
        i = i + 1;
    }
    assert(lv.skip(ls.len() as int) =~= seq![]);
    None
}

/// The upstream version of an Arch version: without the package revision
/// (`2.67.1-1`) and without the epoch (`1:1.2.3`).
pub open spec fn tag_base(version: Seq<char>) -> Seq<char> {
    let base = pieces(version, '-')[0];
    match split_once(base, ":"@) {
        Some((_, v)) => v,
        None => base,
    }
}

/// The tags tried for the release notes: projects may or may not prefix them
/// with `v`, so both forms are tried rather than one imposed.
pub fn release_tags(version: &str) -> (r: (String, String))
    ensures
        r.0@ == tag_base(version@),
        r.1@ == seq!['v'] + tag_base(version@),
{
    let v = chars_of(version);
    let p = split_char(v.as_slice(), '-');
    proof {
        crate::text::lemma_pieces_nonempty(v@, '-', seq![]);
    }
    let first = &p[0];
    let base = match split_once_at(first.as_slice(), ":") {
        Some((_, b)) => b,
        None => slice(first.as_slice(), 0, first.len()),
    };
    assert(first@ =~= first@.subrange(0, first@.len() as int));
    let mut w: Vec<char> = Vec::new();
    w.push('v');
    append(&mut w, base.as_slice());
    (string_of(base.as_slice()), string_of(w.as_slice()))
}

/// At most sixty lines of release notes, without their trailing blanks.
pub open spec fn note_rows_spec(body: Seq<char>) -> Seq<Seq<char>> {
    let ls = lines(body).map_values(|l: Seq<char>| trim_end(l));
    if ls.len() > 60 {
        ls.take(60)
    } else {
        ls
    }
}

pub fn note_rows(body: &str) -> (r: Vec<String>)
    ensures
        strs(r@) == note_rows_spec(body@),
{
    let ls = str_lines(body);
    let ghost all = views(ls@).map_values(|l: Seq<char>| trim_end(l));
    let n = if ls.len() > 60 {
        60
    } else {
        ls.len()
    };
    let mut out: Vec<String> = Vec::new();
    let mut i: usize = 0;
    while i < n
        invariant
            i <= n <= ls.len(),
            n == (if ls.len() > 60 {
                60
            } else {
                ls.len()
            }),
            all == views(ls@).map_values(|l: Seq<char>| trim_end(l)),
            strs(out@) == all.take(i as int),
        decreases n - i,
    {
        let e = trimmed_end(ls[i].as_slice());
        let ghost before = strs(out@);
        out.push(string_of(e.as_slice()));
        assert(strs(out@) =~= before.push(e@));
        assert(all.take(i + 1) =~= all.take(i as int).push(all[i as int]));
        i = i + 1;
    }
    assert(all.take(n as int) =~= note_rows_spec(body@));
    out
}

/// The day of a commit: the first ten bytes of its timestamp, when they end
/// on a character boundary.
pub open spec fn commit_date_spec(created: Seq<char>) -> Option<Seq<char>> {
    let b = vstd::utf8::encode_utf8(created);
    if b.len() >= 10 && vstd::utf8::is_char_boundary(b, 10) {
        Some(vstd::utf8::decode_utf8(b.subrange(0, 10)))
    } else {
        None
    }
}

pub fn commit_date(created: &str) -> (r: Option<String>)
    ensures
        match r {
            Some(d) => commit_date_spec(created@) == Some(d@),
            None => commit_date_spec(created@) is None,
        },
{
    proof {
        vstd::utf8::encode_utf8_valid_utf8(created@);
    }
    let bytes = created.as_bytes();
    if bytes.len() >= 10 && created.is_char_boundary(10) {
        let (a, _) = created.split_at(10);
        proof {
            vstd::utf8::encode_utf8_decode_utf8(a@);
        }
        assert(a.spec_bytes() =~= created.spec_bytes().subrange(0, 10));
        Some(owned(a))
    } else {
        None
    }
}

/// The packaging log of a package on Arch's GitLab, its last fifteen commits.
pub open spec fn packaging_url_spec(package: Seq<char>) -> Seq<char> {
    "https://gitlab.archlinux.org/api/v4/projects/archlinux%2Fpackaging%2Fpackages%2F"@ + package
        + "/repository/commits?per_page=15"@
}

pub fn packaging_url(package: &str) -> (r: String)
    ensures
        r@ == packaging_url_spec(package@),
{
    let mut v = chars_of("https://gitlab.archlinux.org/api/v4/projects/archlinux%2Fpackaging%2Fpackages%2F");
    append(&mut v, chars_of(package).as_slice());
    append(&mut v, chars_of("/repository/commits?per_page=15").as_slice());
    string_of(v.as_slice())
}

/// The release of one tag, on GitHub's API.
pub open spec fn release_url_spec(owner: Seq<char>, repo: Seq<char>, tag: Seq<char>) -> Seq<char> {
    "https://api.github.com/repos/"@ + owner + "/"@ + repo + "/releases/tags/"@ + tag
}

pub fn release_url(owner: &str, repo: &str, tag: &str) -> (r: String)
    ensures
        r@ == release_url_spec(owner@, repo@, tag@),
{
    let mut v = chars_of("https://api.github.com/repos/");
    append(&mut v, chars_of(owner).as_slice());
    append(&mut v, chars_of("/").as_slice());
    append(&mut v, chars_of(repo).as_slice());
    append(&mut v, chars_of("/releases/tags/").as_slice());
    append(&mut v, chars_of(tag).as_slice());
    string_of(v.as_slice())
}

/// What reading the packaging log gave.
pub enum Packaging {
    /// The request got no answer.
    Unreachable,
    /// The answer was not a list: the package has no packaging repository.
    NoRepository,
    Commits(Vec<Commit>),
}

/// The gaps of a changelog, in the order they are met.
pub open spec fn gaps_spec(
    l: Lang,
    url: Option<Seq<char>>,
    aur: bool,
    packaging: Packaging,
    notes_empty: bool,
) -> Seq<Seq<char>> {
    (if aur {
        seq![translate(l, "AUR package: no packaging log. paru will show the PKGBUILD before building."@)]
    } else {
        match packaging {
            Packaging::Unreachable => seq![translate(l, "Packaging log unreachable (network?)."@)],
            Packaging::NoRepository => seq![translate(l, "This package has no Arch packaging repository."@)],
            Packaging::Commits(_) => seq![],
        }
    }) + match url {
        None => seq![],
        Some(u) => match github_spec(u) {
            Some(_) => if notes_empty {
                seq![translate(l, "No release notes published for this tag."@)]
            } else {
                seq![]
            },
            None => seq![subst(translate(l, "Upstream notes cannot be fetched automatically: {0}"@), seq![u])],
        },
    }
}

fn push_text(v: &mut Vec<String>, s: String)
    ensures
        strs(final(v)@) == strs(old(v)@).push(s@),
{
    let ghost before = strs(v@);
    let ghost sv = s@;
    v.push(s);
    assert(strs(v@) =~= before.push(sv));
}

/// The changelog of an update from what was fetched: the upstream URL, the
/// packaging log (not read for the AUR, which has no packaging repository —
/// the PKGBUILD is the only source, and paru offers to show it), and the
/// release notes, fetched when the URL is GitHub's.
pub fn content(l: Lang, url: Option<String>, aur: bool, packaging: Packaging, notes: (Vec<String>, Option<String>)) -> (c: Content)
    ensures
        c.url == url,
        strs(c.gaps@) == gaps_spec(
            l,
            match url {
                Some(u) => Some(u@),
                None => None,
            },
            aur,
            packaging,
            notes.0@.len() == 0,
        ),
        aur || !(packaging is Commits) ==> c.packaging@.len() == 0,
        !aur ==> (match packaging {
            Packaging::Commits(v) => c.packaging@ == v@,
            _ => true,
        }),
        (match url {
            Some(u) => github_spec(u@) is Some,
            None => false,
        }) ==> c.upstream@ == notes.0@ && c.upstream_tag == notes.1,
        !(match url {
            Some(u) => github_spec(u@) is Some,
            None => false,
        }) ==> c.upstream@.len() == 0 && c.upstream_tag is None,
{
    let ghost pk = packaging;
    let ghost ne = notes.0@.len() == 0;
    let mut gaps: Vec<String> = Vec::new();
    let mut commits: Vec<Commit> = Vec::new();
    if aur {
        push_text(&mut gaps, t(l, "AUR package: no packaging log. paru will show the PKGBUILD before building."));
    } else {
        match packaging {
            Packaging::Unreachable => push_text(&mut gaps, t(l, "Packaging log unreachable (network?).")),
            Packaging::NoRepository => push_text(&mut gaps, t(l, "This package has no Arch packaging repository.")),
            Packaging::Commits(v) => {
                commits = v;
            },
        }
    }
    let ghost first = strs(gaps@);
    let mut upstream: Vec<String> = Vec::new();
    let mut tag: Option<String> = None;
    match &url {
        Some(u) => match github(u.as_str()) {
            Some(_) => {
                let (rows, tg) = notes;
                if rows.len() == 0 {
                    push_text(&mut gaps, t(l, "No release notes published for this tag."));
                }
                upstream = rows;
                tag = tg;
            },
            None => {
                let s = fill1(l, "Upstream notes cannot be fetched automatically: {0}", chars_of(u.as_str()).as_slice());
                push_text(&mut gaps, s);
            },
        },
        None => {},
    }
    assert(strs(gaps@) =~= gaps_spec(
        l,
        match url {
            Some(u) => Some(u@),
            None => None,
        },
        aur,
        pk,
        ne,
    ));
    Content { url, packaging: commits, upstream, upstream_tag: tag, gaps }
}

pub enum State {
    Loading,
    Ready(Content),
}

/// The changelog screen of one update.
pub struct Changelog {
    pub package: String,
    pub from_version: String,
    pub to_version: String,
    pub state: State,
}

impl Changelog {
    pub fn new(package: &str, from_version: &str, to_version: &str) -> (r: Changelog)
        ensures
            r.package@ == package@,
            r.from_version@ == from_version@,
            r.to_version@ == to_version@,
            r.state is Loading,
    {
        Changelog {
            package: owned(package),
            from_version: owned(from_version),
            to_version: owned(to_version),
            state: State::Loading,
        }
    }

    /// The fetch has answered.
    pub fn ready(&mut self, c: Content)
        ensures
            final(self).package == old(self).package,
            final(self).from_version == old(self).from_version,
            final(self).to_version == old(self).to_version,
            final(self).state == State::Ready(c),
    {
        self.state = State::Ready(c);
    }

    /// The fetch went away without answering: an empty changelog, rather than
    /// a screen loading forever.
    pub fn gone(&mut self)
        ensures
            final(self).package == old(self).package,
            final(self).from_version == old(self).from_version,
            final(self).to_version == old(self).to_version,
            final(self).state matches State::Ready(c) && c.url is None && c.packaging@.len() == 0
                && c.upstream@.len() == 0 && c.upstream_tag is None && c.gaps@.len() == 0,
    {
        self.state = State::Ready(Content::default());
    }
}


/// A commit of the packaging log as the changes screen lists it.
pub struct CommitRow {
    pub date: String,
    /// The title without its conventional `upgpkg:` prefix.
    pub title: String,
    /// Newer than the installed version: part of what the update brings.
    pub brings: bool,
    /// The installed version's own commit: the line after it marks it.
    pub installed: bool,
}

pub struct CommitRowView {
    pub date: Seq<char>,
    pub title: Seq<char>,
    pub brings: bool,
    pub installed: bool,
}

impl View for CommitRow {
    type V = CommitRowView;

    open spec fn view(&self) -> CommitRowView {
        CommitRowView { date: self.date@, title: self.title@, brings: self.brings, installed: self.installed }
    }
}

pub open spec fn commit_row_views(v: Seq<CommitRow>) -> Seq<CommitRowView> {
    v.map_values(|c: CommitRow| c@)
}

/// The position of the first commit naming the installed version: the log
/// is newest first, so everything above it is what the update brings.
pub open spec fn installed_at(titles: Seq<Seq<char>>, version: Seq<char>) -> Option<int>
    decreases titles.len(),
{
    if titles.len() == 0 {
        None
    } else if contains(titles[0], version) {
        Some(0)
    } else {
        match installed_at(titles.drop_first(), version) {
            Some(k) => Some(k + 1),
            None => None,
        }
    }
}

pub open spec fn commit_titles(c: Seq<Commit>) -> Seq<Seq<char>> {
    c.map_values(|x: Commit| x.title@)
}

pub open spec fn commit_rows_spec(c: Seq<Commit>, version: Seq<char>) -> Seq<CommitRowView> {
    let at = installed_at(commit_titles(c), version);
    Seq::new(
        c.len(),
        |i: int|
            CommitRowView {
                date: c[i].date@,
                title: trim(trim_start_matches(c[i].title@, "upgpkg:"@)),
                brings: match at {
                    Some(k) => i < k,
                    None => true,
                },
                installed: at == Some(i),
            },
    )
}

proof fn lemma_installed_at_step(t: Seq<Seq<char>>, v: Seq<char>, i: int)
    requires
        0 <= i < t.len(),
        forall|j: int| 0 <= j < i ==> !contains(#[trigger] t[j], v),
    ensures
        contains(t[i], v) ==> installed_at(t, v) == Some(i),
        installed_at(t, v) == (match installed_at(t.skip(i), v) {
            Some(k) => Some(k + i),
            None => None,
        }),
    decreases i,
{
    if i > 0 {
        assert forall|j: int| 0 <= j < i - 1 implies !contains(#[trigger] t.drop_first()[j], v) by {
            assert(t.drop_first()[j] == t[j + 1]);
        }
        assert(!contains(t[0], v));
        lemma_installed_at_step(t.drop_first(), v, i - 1);
        assert(t.drop_first().skip(i - 1) =~= t.skip(i));
        assert(t.drop_first()[i - 1] == t[i]);
    } else {
        assert(t.skip(0) =~= t);
    }
}

proof fn lemma_installed_absent(t: Seq<Seq<char>>, v: Seq<char>)
    requires
        forall|j: int| 0 <= j < t.len() ==> !contains(#[trigger] t[j], v),
    ensures
        installed_at(t, v) is None,
    decreases t.len(),
{
    if t.len() > 0 {
        assert forall|j: int| 0 <= j < t.drop_first().len() implies !contains(#[trigger] t.drop_first()[j], v) by {
            assert(t.drop_first()[j] == t[j + 1]);
        }
        assert(!contains(t[0], v));
        lemma_installed_absent(t.drop_first(), v);
    }
}

/// The packaging log laid out for the changes screen, against the installed
/// version.
pub fn commit_rows(commits: &[Commit], installed: &str) -> (r: Vec<CommitRow>)
    ensures
        commit_row_views(r@) == commit_rows_spec(commits@, installed@),
{
    let ghost titles = commit_titles(commits@);
    let v = chars_of(installed);
    let mut at: Option<usize> = None;
    let mut i: usize = 0;
    while i < commits.len()
        invariant_except_break
            at is None,
        invariant
            i <= commits.len(),
            titles == commit_titles(commits@),
            v@ == installed@,
            forall|j: int| 0 <= j < i ==> !contains(#[trigger] titles[j], installed@),
        ensures
            match at {
                Some(k) => installed_at(titles, installed@) == Some(k as int),
                None => forall|j: int| 0 <= j < commits.len() ==> !contains(#[trigger] titles[j], installed@),
            },
        decreases commits.len() - i,
    {
        let ti = chars_of(commits[i].title.as_str());
        if has(ti.as_slice(), v.as_slice()) {
            proof {
                lemma_installed_at_step(titles, installed@, i as int);
            }
            at = Some(i);
            break;
        }
        i = i + 1;
    }
    proof {
        if at is None {
            lemma_installed_absent(titles, installed@);
        }
    }
    assert(match at {
        Some(k) => installed_at(titles, installed@) == Some(k as int),
        None => installed_at(titles, installed@) is None,
    });
    let mut out: Vec<CommitRow> = Vec::new();
    let mut k: usize = 0;
    while k < commits.len()
        invariant
            k <= commits.len(),
            titles == commit_titles(commits@),
            match at {
                Some(a) => installed_at(titles, installed@) == Some(a as int),
                None => installed_at(titles, installed@) is None,
            },
            commit_row_views(out@) == commit_rows_spec(commits@, installed@).take(k as int),
        decreases commits.len() - k,
    {
        let c = &commits[k];
        let stripped = trimmed_start_matches(chars_of(c.title.as_str()).as_slice(), "upgpkg:");
        let title = string_of(trimmed(stripped.as_slice()).as_slice());
        let brings = match at {
            Some(a) => k < a,
            None => true,
        };
        let here = match at {
            Some(a) => a == k,
            None => false,
        };
        let ghost before = commit_row_views(out@);
        out.push(CommitRow { date: c.date.clone(), title, brings, installed: here });
        assert(commit_row_views(out@) =~= before.push(commit_rows_spec(commits@, installed@)[k as int]));
        assert(commit_rows_spec(commits@, installed@).take(k + 1) =~= commit_rows_spec(commits@, installed@).take(
            k as int,
        ).push(commit_rows_spec(commits@, installed@)[k as int]));
        k = k + 1;
    }
    assert(commit_rows_spec(commits@, installed@).take(commits.len() as int) =~= commit_rows_spec(
        commits@,
        installed@,
    ));
    out
}


/// The upstream part of a version: what comes before the package release.
pub open spec fn upstream_version(v: Seq<char>) -> Seq<char> {
    match rsplit_once(v, "-"@) {
        Some((a, _)) => a,
        None => v,
    }
}

fn upstream_of(v: &str) -> (r: Vec<char>)
    ensures
        r@ == upstream_version(v@),
{
    let c = chars_of(v);
    match rsplit_once_at(c.as_slice(), "-") {
        Some((a, _)) => a,
        None => c,
    }
}

/// True when an update only bumps the package release — `6.29.0-1 →
/// 6.29.0-2`: a rebuild, a packaging fix or a dependency change, never a new
/// feature. That is the most common answer, and the hardest to read off a
/// list of commits.
pub fn release_only(from: &str, to: &str) -> (r: bool)
    ensures
        r == (upstream_version(from@) == upstream_version(to@) && from@ != to@),
{
    let a = upstream_of(from);
    let b = upstream_of(to);
    let same = seq_eq(a.as_slice(), b.as_slice());
    let whole = seq_eq(chars_of(from).as_slice(), chars_of(to).as_slice());
    same && !whole
}

/// The line the changes screen reads first: whether the update brings a new
/// upstream version at all.
pub fn verdict(l: Lang, from: &str, to: &str) -> (r: String)
    ensures
        r@ == (if upstream_version(from@) == upstream_version(to@) && from@ != to@ {
            translate(l, "Same upstream version: a rebuild, a packaging fix or a dependency change — no new feature."@)
        } else {
            translate(l, "New upstream version."@)
        }),
{
    if release_only(from, to) {
        t(l, "Same upstream version: a rebuild, a packaging fix or a dependency change — no new feature.")
    } else {
        t(l, "New upstream version.")
    }
}


// ---------------------------------------------------------------------------
// Reading the forges' answers
// ---------------------------------------------------------------------------

/// A commit by what it holds.
pub open spec fn commit_pairs(c: Seq<Commit>) -> Seq<(Seq<char>, Seq<char>)> {
    c.map_values(|x: Commit| (x.date@, x.title@))
}

/// Commit `i` of the log: it needs a creation date of at least ten bytes and
/// a title, both texts.
pub open spec fn commit_entry(created: Seq<LeafView>, titles: Seq<LeafView>, i: int) -> Option<(Seq<char>, Seq<char>)> {
    match (cell(created, i), cell(titles, i)) {
        (LeafView::Text(c), LeafView::Text(t)) => match commit_date_spec(c) {
            Some(d) => Some((d, t)),
            None => None,
        },
        _ => None,
    }
}

pub open spec fn commit_entries(created: Seq<LeafView>, titles: Seq<LeafView>, n: nat) -> Seq<(Seq<char>, Seq<char>)>
    decreases n,
{
    if n == 0 {
        seq![]
    } else {
        match commit_entry(created, titles, n - 1) {
            Some(e) => commit_entries(created, titles, (n - 1) as nat).push(e),
            None => commit_entries(created, titles, (n - 1) as nat),
        }
    }
}

/// What reading the packaging log gave, by the values it holds.
pub enum PackagingView {
    Unreachable,
    NoRepository,
    Commits(Seq<(Seq<char>, Seq<char>)>),
}

pub open spec fn packaging_view(p: Packaging) -> PackagingView {
    match p {
        Packaging::Unreachable => PackagingView::Unreachable,
        Packaging::NoRepository => PackagingView::NoRepository,
        Packaging::Commits(v) => PackagingView::Commits(commit_pairs(v@)),
    }
}

/// What the packaging log says, from the columns read of its answer:
/// `created` the creation dates (`None` when the answer is not JSON,
/// `Some(None)` when it is not a list) and `titles` the titles.
pub open spec fn packaging_spec(created: Option<Option<Seq<LeafView>>>, titles: Seq<LeafView>) -> PackagingView {
    match created {
        Some(Some(c)) => PackagingView::Commits(commit_entries(c, titles, c.len())),
        _ => PackagingView::NoRepository,
    }
}

pub fn read_packaging(created: Option<Option<Vec<Leaf>>>, titles: Vec<Leaf>) -> (r: Packaging)
    ensures
        packaging_view(r) == packaging_spec(crate::json::opt_column(created), leaf_views(titles@)),
{
    let c = match created {
        Some(Some(c)) => c,
        _ => return Packaging::NoRepository,
    };
    let ghost cv = leaf_views(c@);
    let ghost tv = leaf_views(titles@);
    let mut out: Vec<Commit> = Vec::new();
    let mut i: usize = 0;
    while i < c.len()
        invariant
            i <= c.len(),
            cv == leaf_views(c@),
            tv == leaf_views(titles@),
            commit_pairs(out@) == commit_entries(cv, tv, i as nat),
        decreases c.len() - i,
    {
        let ghost before = commit_pairs(out@);
        if let (Leaf::Text(made), Leaf::Text(title)) = (cell_at(&c, i), cell_at(&titles, i)) {
            if let Some(date) = commit_date(made.as_str()) {
                let ghost e = (date@, title@);
                out.push(Commit { date, title });
                assert(commit_pairs(out@) =~= before.push(e));
            }
        }
        i = i + 1;
    }
    Packaging::Commits(out)
}

/// The packaging log of a package, from the text fetched for it; `None`
/// when nothing could be fetched.
pub fn packaging_from(body: Option<String>) -> (r: Packaging)
    ensures
        packaging_view(r) == (match body {
            None => PackagingView::Unreachable,
            Some(b) => packaging_spec(
                json_column(b@, ""@, "created_at"@),
                match json_column(b@, ""@, "title"@) {
                    Some(Some(v)) => v,
                    _ => seq![],
                },
            ),
        }),
{
    let b = match body {
        None => return Packaging::Unreachable,
        Some(b) => b,
    };
    let created = column_at(b.as_str(), "", "created_at");
    let titles = match column_at(b.as_str(), "", "title") {
        Some(Some(v)) => v,
        _ => {
            let e: Vec<Leaf> = Vec::new();
            assert(leaf_views(e@) =~= seq![]);
            e
        },
    };
    read_packaging(created, titles)
}

/// The release notes an answer gives: its `body`, when it is a text, as
/// rows.
pub open spec fn notes_spec(body: Option<LeafView>) -> Seq<Seq<char>> {
    match body {
        Some(LeafView::Text(n)) => note_rows_spec(n),
        _ => seq![],
    }
}

pub fn notes_from(fetched: Option<String>) -> (r: Vec<String>)
    ensures
        strs(r@) == (match fetched {
            None => seq![],
            Some(b) => notes_spec(json_leaf(b@, "/body"@)),
        }),
{
    let empty: Vec<String> = Vec::new();
    assert(strs(empty@) =~= seq![]);
    match fetched {
        None => empty,
        Some(b) => match leaf_at(b.as_str(), "/body") {
            Some(Leaf::Text(n)) => note_rows(n.as_str()),
            _ => empty,
        },
    }
}

} // verus!
