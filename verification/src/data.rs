//! The system's state, as plain values, and the readers of the text that
//! feeds it.
//!
//! Metadata comes from libalpm; the authoritative list of pending updates from
//! `checkupdates` and `paru -Qua`; the complete makeup of a transaction from
//! `pacman --print-format`, which needs no privilege and writes nothing. What
//! those programs print, and what the configuration files say, is read here.

use vstd::prelude::*;
use crate::i18n::{Lang, t, translate};
use crate::journal::{
    u32_of, DecimalView, decimal_spec, magnitude, decimal_parts, scaled_magnitude,
};
use crate::text::{
    chars_of, string_of, owned, eq_lit, seq_eq, slice, append, split_once, split_once_at,
    strip_prefix, strip_suffix, without_prefix, without_suffix, trim, trimmed, trim_start,
    trimmed_start, trim_end, contains, has_str, views, strs, join, words, split_ws, begins_str,
    starts_with, ends_with, parse_nat, parse_u32, pieces, split_char, lines, str_lines, find,
    find_in, swap_char, swapped_char,
};

verus! {

#[derive(Debug, Clone, Copy, PartialEq, Eq, Structural)]
pub enum Origin {
    Repo,
    Aur,
}

#[derive(Debug, Clone)]
pub struct Pkg {
    pub name: String,
    pub version: String,
    /// Only set for packages that have an update.
    pub target_version: Option<String>,
    pub repo: String,
    pub description: String,
    pub installed_size: i64,
    /// Download size, known only if the sync database is up to date.
    pub download_size: Option<i64>,
    /// Installed size of the target version, same condition.
    pub target_size: Option<i64>,
    pub explicit: bool,
    pub required_by: Vec<String>,
    pub optional_for: Vec<String>,
    pub depends_on: Vec<String>,
    pub origin: Origin,
}

pub open spec fn opt_str(o: Option<String>) -> Option<Seq<char>> {
    match o {
        Some(s) => Some(s@),
        None => None,
    }
}

pub open spec fn opt_i64(o: Option<i64>) -> Option<int> {
    match o {
        Some(v) => Some(v as int),
        None => None,
    }
}

pub struct PkgView {
    pub name: Seq<char>,
    pub version: Seq<char>,
    pub target_version: Option<Seq<char>>,
    pub repo: Seq<char>,
    pub description: Seq<char>,
    pub installed_size: int,
    pub download_size: Option<int>,
    pub target_size: Option<int>,
    pub explicit: bool,
    pub required_by: Seq<Seq<char>>,
    pub optional_for: Seq<Seq<char>>,
    pub depends_on: Seq<Seq<char>>,
    pub origin: Origin,
}

impl View for Pkg {
    type V = PkgView;

    open spec fn view(&self) -> PkgView {
        PkgView {
            name: self.name@,
            version: self.version@,
            target_version: opt_str(self.target_version),
            repo: self.repo@,
            description: self.description@,
            installed_size: self.installed_size as int,
            download_size: opt_i64(self.download_size),
            target_size: opt_i64(self.target_size),
            explicit: self.explicit,
            required_by: strs(self.required_by@),
            optional_for: strs(self.optional_for@),
            depends_on: strs(self.depends_on@),
            origin: self.origin,
        }
    }
}

pub open spec fn pkg_views(v: Seq<Pkg>) -> Seq<PkgView> {
    v.map_values(|p: Pkg| p@)
}

impl Pkg {
    /// Pulled in as a dependency, and nothing needs it any more. That status
    /// is not enough to allow removal: a package loaded at run time has no
    /// declared link.
    pub fn is_orphan(&self) -> (r: bool)
        ensures
            r == (!self.explicit && self.required_by@.len() == 0 && self.optional_for@.len() == 0),
    {
        !self.explicit && self.required_by.len() == 0 && self.optional_for.len() == 0
    }

    /// Installed on purpose and hard-required by nothing: the top of the tree,
    /// what the user can uninstall (`pacman -Qett`).
    pub fn is_root(&self) -> (r: bool)
        ensures
            r == (self.explicit && self.required_by@.len() == 0),
    {
        self.explicit && self.required_by.len() == 0
    }
}

/// An update that is available but held back by `IgnorePkg`.
#[derive(Debug, Clone)]
pub struct Ignore {
    pub name: String,
    pub from_version: String,
    pub to_version: String,
}

pub struct IgnoreView {
    pub name: Seq<char>,
    pub from_version: Seq<char>,
    pub to_version: Seq<char>,
}

impl View for Ignore {
    type V = IgnoreView;

    open spec fn view(&self) -> IgnoreView {
        IgnoreView { name: self.name@, from_version: self.from_version@, to_version: self.to_version@ }
    }
}

pub open spec fn ignore_views(v: Seq<Ignore>) -> Seq<IgnoreView> {
    v.map_values(|i: Ignore| i@)
}

/// What a sync database offers for one name: the version, its download size
/// and its installed size.
#[derive(Debug, Clone)]
pub struct SyncEntry {
    pub name: String,
    pub version: String,
    pub download_size: i64,
    pub installed_size: i64,
}

/// Complete snapshot of the system state.
pub struct State {
    pub installed: Vec<Pkg>,
    pub updates: Vec<Pkg>,
    /// Updates held back by IgnorePkg: paru mentions them in a warning, so
    /// they are shown outright rather than left invisible.
    pub ignored: Vec<Ignore>,
    pub cache_bytes: u64,
    pub cache_files: usize,
    /// Reclaimable by keeping only `cache_keep` versions of each package.
    pub cache_prunable: u64,
    /// Reclaimable by purging packages that are no longer installed at all.
    pub cache_uninstalled: u64,
    /// Retention policy read from /etc/conf.d/pacman-contrib.
    pub cache_keep: u32,
    /// What the sync databases offer, first database first. Kept so that
    /// packages not yet installed can still be sized.
    pub sync: Vec<SyncEntry>,
    /// Dependency strings of the target version of each available update.
    pub update_deps: Vec<(String, Vec<String>)>,
    /// Provided name → update package that provides it.
    pub update_provides: Vec<(String, String)>,
}

/// A package as pacman would resolve it in the transaction.
#[derive(Debug, Clone)]
pub struct Resolved {
    pub name: String,
    pub version: String,
    pub repo: String,
}

pub struct ResolvedView {
    pub name: Seq<char>,
    pub version: Seq<char>,
    pub repo: Seq<char>,
}

impl View for Resolved {
    type V = ResolvedView;

    open spec fn view(&self) -> ResolvedView {
        ResolvedView { name: self.name@, version: self.version@, repo: self.repo@ }
    }
}

pub open spec fn resolved_views(v: Seq<Resolved>) -> Seq<ResolvedView> {
    v.map_values(|r: Resolved| r@)
}

// ---------------------------------------------------------------------------
// `pacman --print-format '%n|%v|%r'`
// ---------------------------------------------------------------------------

/// One printed line: name, version, and the repository where the format
/// carries one. A line without a version is skipped, and so is an empty name.
pub open spec fn resolved_line(l: Seq<char>, with_repo: bool) -> Option<ResolvedView> {
    let p = pieces(trim(l), '|');
    if p.len() < 2 || p[0].len() == 0 {
        None
    } else {
        Some(
            ResolvedView {
                name: p[0],
                version: p[1],
                repo: if with_repo && p.len() >= 3 {
                    p[2]
                } else {
                    seq![]
                },
            },
        )
    }
}

pub open spec fn resolved_lines(ls: Seq<Seq<char>>, with_repo: bool) -> Seq<ResolvedView>
    decreases ls.len(),
{
    if ls.len() == 0 {
        seq![]
    } else {
        let rest = resolved_lines(ls.drop_last(), with_repo);
        match resolved_line(ls.last(), with_repo) {
            Some(r) => rest.push(r),
            None => rest,
        }
    }
}

fn parse_resolved(output: &str, with_repo: bool) -> (r: Vec<Resolved>)
    ensures
        resolved_views(r@) == resolved_lines(lines(output@), with_repo),
{
    let ls = str_lines(output);
    let ghost lv = views(ls@);
    let mut out: Vec<Resolved> = Vec::new();
    let mut i: usize = 0;
    assert(lv.take(0) =~= seq![]);
    assert(resolved_views(out@) =~= seq![]);
    while i < ls.len()
        invariant
            i <= ls.len(),
            lv == views(ls@),
            lv == lines(output@),
            resolved_views(out@) == resolved_lines(lv.take(i as int), with_repo),
        decreases ls.len() - i,
    {
        assert(lv.take(i + 1).drop_last() =~= lv.take(i as int));
        assert(lv.take(i + 1).last() == ls@[i as int]@);
        let l = trimmed(ls[i].as_slice());
        let p = split_char(l.as_slice(), '|');
        if p.len() >= 2 && p[0].len() > 0 {
            let repo = if with_repo && p.len() >= 3 {
                string_of(p[2].as_slice())
            } else {
                String::new()
            };
            let r = Resolved {
                name: string_of(p[0].as_slice()),
                version: string_of(p[1].as_slice()),
                repo,
            };
            let ghost before = resolved_views(out@);
            out.push(r);
            assert(resolved_views(out@) =~= before.push(resolved_line(lv[i as int], with_repo).unwrap()));
        }
        i = i + 1;
    }
    assert(lv.take(ls.len() as int) =~= lv);
    out
}

/// The transaction pacman would actually carry out for an upgrade, read from
/// what `pacman -Sup --print-format '%n|%v|%r'` printed. It names the new
/// dependencies an upgrade pulls in, which `checkupdates` does not.
pub fn resolved_transaction(output: &str) -> (r: Vec<Resolved>)
    ensures
        resolved_views(r@) == resolved_lines(lines(output@), true),
{
    parse_resolved(output, true)
}

/// The transaction pacman would carry out to install packages, read from
/// what `pacman -Sp --print-format '%n|%v|%r'` printed. Names pacman does not
/// know (AUR) produce no line.
pub fn install_transaction(output: &str) -> (r: Vec<Resolved>)
    ensures
        resolved_views(r@) == resolved_lines(lines(output@), true),
{
    parse_resolved(output, true)
}

/// Packages `-Rns` really removes, cascade included, read from what
/// `pacman -Rsp --print-format '%n|%v'` printed.
pub fn removal_cascade(output: &str) -> (r: Vec<Resolved>)
    ensures
        resolved_views(r@) == resolved_lines(lines(output@), false),
{
    parse_resolved(output, false)
}

/// The arguments of the pacman dry run that resolves an upgrade, pointed at
/// `checkupdates`' database when there is one, with the excluded packages
/// ignored.
pub open spec fn resolved_args_spec(excluded: Seq<Seq<char>>, db: Option<Seq<char>>) -> Seq<Seq<char>>
    decreases excluded.len(),
{
    if excluded.len() == 0 {
        seq!["-Sup"@, "--print-format"@, "%n|%v|%r"@] + match db {
            Some(d) => seq!["--dbpath"@, d],
            None => seq![],
        }
    } else {
        resolved_args_spec(excluded.drop_last(), db) + seq!["--ignore"@, excluded.last()]
    }
}

fn push_str_arg(v: &mut Vec<String>, s: &str)
    ensures
        strs(final(v)@) == strs(old(v)@).push(s@),
{
    let ghost before = strs(v@);
    v.push(owned(s));
    assert(strs(v@) =~= before.push(s@));
}

pub fn resolved_args(excluded: &[String], db: Option<&str>) -> (r: Vec<String>)
    ensures
        strs(r@) == resolved_args_spec(
            strs(excluded@),
            match db {
                Some(d) => Some(d@),
                None => None,
            },
        ),
{
    let ghost dbv = match db {
        Some(d) => Some(d@),
        None => None,
    };
    let mut r: Vec<String> = Vec::new();
    push_str_arg(&mut r, "-Sup");
    push_str_arg(&mut r, "--print-format");
    push_str_arg(&mut r, "%n|%v|%r");
    if let Some(d) = db {
        push_str_arg(&mut r, "--dbpath");
        push_str_arg(&mut r, d);
    }
    let ghost ex = strs(excluded@);
    assert(strs(r@) =~= resolved_args_spec(ex.take(0), dbv));
    let mut i: usize = 0;
    while i < excluded.len()
        invariant
            i <= excluded.len(),
            ex == strs(excluded@),
            strs(r@) == resolved_args_spec(ex.take(i as int), dbv),
        decreases excluded.len() - i,
    {
        push_str_arg(&mut r, "--ignore");
        push_str_arg(&mut r, excluded[i].as_str());
        assert(ex.take(i + 1).drop_last() =~= ex.take(i as int));
        assert(strs(r@) =~= resolved_args_spec(ex.take(i + 1), dbv));
        i = i + 1;
    }
    assert(ex.take(excluded.len() as int) =~= ex);
    r
}

/// The arguments of the dry run that resolves an install.
pub open spec fn install_args_spec(names: Seq<Seq<char>>, db: Option<Seq<char>>) -> Seq<Seq<char>> {
    seq!["-Sp"@, "--print-format"@, "%n|%v|%r"@] + match db {
        Some(d) => seq!["--dbpath"@, d],
        None => seq![],
    } + names
}

fn push_all(r: &mut Vec<String>, names: &[String])
    ensures
        strs(final(r)@) == strs(old(r)@) + strs(names@),
{
    let ghost start = strs(r@);
    let mut i: usize = 0;
    assert(strs(names@).take(0) =~= seq![]);
    assert(strs(r@) =~= start + strs(names@).take(0));
    while i < names.len()
        invariant
            i <= names.len(),
            strs(r@) == start + strs(names@).take(i as int),
        decreases names.len() - i,
    {
        push_str_arg(r, names[i].as_str());
        assert(strs(names@).take(i + 1) =~= strs(names@).take(i as int).push(names@[i as int]@));
        assert(strs(r@) =~= start + strs(names@).take(i + 1));
        i = i + 1;
    }
    assert(strs(names@).take(names.len() as int) =~= strs(names@));
}

pub fn install_args(names: &[String], db: Option<&str>) -> (r: Vec<String>)
    ensures
        strs(r@) == install_args_spec(
            strs(names@),
            match db {
                Some(d) => Some(d@),
                None => None,
            },
        ),
{
    let mut r: Vec<String> = Vec::new();
    push_str_arg(&mut r, "-Sp");
    push_str_arg(&mut r, "--print-format");
    push_str_arg(&mut r, "%n|%v|%r");
    if let Some(d) = db {
        push_str_arg(&mut r, "--dbpath");
        push_str_arg(&mut r, d);
    }
    let ghost head = strs(r@);
    push_all(&mut r, names);
    proof {
        let dbv = match db {
            Some(d) => Some(d@),
            None => None,
        };
        assert(head =~= seq!["-Sp"@, "--print-format"@, "%n|%v|%r"@] + match dbv {
            Some(d) => seq!["--dbpath"@, d],
            None => seq![],
        });
    }
    r
}

/// The arguments of the dry run that lists a removal with its cascade. `-n`
/// and `-p` are incompatible, so `-n` is dropped: it concerns configuration
/// files, not the list of removed packages.
pub open spec fn removal_args_spec(names: Seq<Seq<char>>) -> Seq<Seq<char>> {
    seq!["-Rsp"@, "--print-format"@, "%n|%v"@] + names
}

pub fn removal_args(names: &[String]) -> (r: Vec<String>)
    ensures
        strs(r@) == removal_args_spec(strs(names@)),
{
    let mut r: Vec<String> = Vec::new();
    push_str_arg(&mut r, "-Rsp");
    push_str_arg(&mut r, "--print-format");
    push_str_arg(&mut r, "%n|%v");
    push_all(&mut r, names);
    r
}

// ---------------------------------------------------------------------------
// Configuration files
// ---------------------------------------------------------------------------

/// The first occurrence of each element, in order.
pub open spec fn dedup(s: Seq<Seq<char>>) -> Seq<Seq<char>>
    decreases s.len(),
{
    if s.len() == 0 {
        seq![]
    } else {
        let d = dedup(s.drop_last());
        if d.contains(s.last()) {
            d
        } else {
            d.push(s.last())
        }
    }
}

/// The names an `IgnorePkg = a b` line freezes, none for any other line.
pub open spec fn ignore_line(l: Seq<char>) -> Seq<Seq<char>> {
    let t = trim(l);
    if starts_with(t, "#"@) {
        seq![]
    } else {
        match strip_prefix(t, "IgnorePkg"@) {
            Some(r) => match strip_prefix(trim_start(r), "="@) {
                Some(v) => words(v),
                None => seq![],
            },
            None => seq![],
        }
    }
}

pub open spec fn ignore_names(ls: Seq<Seq<char>>) -> Seq<Seq<char>>
    decreases ls.len(),
{
    if ls.len() == 0 {
        seq![]
    } else {
        ignore_names(ls.drop_last()) + ignore_line(ls.last())
    }
}

/// Adds `s` to `out` unless it is there already.
fn push_new(out: &mut Vec<String>, s: &[char])
    ensures
        strs(final(out)@) == (if strs(old(out)@).contains(s@) {
            strs(old(out)@)
        } else {
            strs(old(out)@).push(s@)
        }),
{
    let mut i: usize = 0;
    while i < out.len()
        invariant
            i <= out.len(),
            forall|k: int| 0 <= k < i ==> strs(out@)[k] != s@,
        decreases out.len() - i,
    {
        let w = chars_of(out[i].as_str());
        if seq_eq(w.as_slice(), s) {
            assert(strs(out@)[i as int] == s@);
            return;
        }
        i = i + 1;
    }
    let ghost before = strs(out@);
    out.push(string_of(s));
    assert(strs(out@) =~= before.push(s@));
}

fn ignore_line_exec(l: &[char]) -> (r: Vec<Vec<char>>)
    ensures
        views(r@) == ignore_line(l@),
{
    let t = trimmed(l);
    if begins_str(t.as_slice(), "#") {
        let e: Vec<Vec<char>> = Vec::new();
        assert(views(e@) =~= seq![]);
        return e;
    }
    if let Some(r) = without_prefix(t.as_slice(), "IgnorePkg") {
        let r2 = trimmed_start(r.as_slice());
        if let Some(v) = without_prefix(r2.as_slice(), "=") {
            return split_ws(v.as_slice());
        }
    }
    let e: Vec<Vec<char>> = Vec::new();
    assert(views(e@) =~= seq![]);
    e
}

/// Packages frozen by `IgnorePkg` in pacman.conf. The directive takes several
/// names per line and may be repeated; each name is listed once.
pub fn ignored_packages(contents: &str) -> (r: Vec<String>)
    ensures
        strs(r@) == dedup(ignore_names(lines(contents@))),
{
    let ls = str_lines(contents);
    let ghost lv = views(ls@);
    let mut out: Vec<String> = Vec::new();
    let mut i: usize = 0;
    assert(lv.take(0) =~= seq![]);
    assert(strs(out@) =~= seq![]);
    while i < ls.len()
        invariant
            i <= ls.len(),
            lv == views(ls@),
            lv == lines(contents@),
            strs(out@) == dedup(ignore_names(lv.take(i as int))),
        decreases ls.len() - i,
    {
        assert(lv.take(i + 1).drop_last() =~= lv.take(i as int));
        assert(lv.take(i + 1).last() == ls@[i as int]@);
        let ws = ignore_line_exec(ls[i].as_slice());
        let ghost base = ignore_names(lv.take(i as int));
        let mut k: usize = 0;
        assert(ws@.len() == views(ws@).len());
        assert(base + views(ws@).take(0) =~= base);
        while k < ws.len()
            invariant
                k <= ws.len(),
                strs(out@) == dedup(base + views(ws@).take(k as int)),
            decreases ws.len() - k,
        {
            let ghost s = base + views(ws@).take(k as int);
            push_new(&mut out, ws[k].as_slice());
            assert((base + views(ws@).take(k + 1)).drop_last() =~= s);
            assert((base + views(ws@).take(k + 1)).last() == ws@[k as int]@);
            k = k + 1;
        }
        assert(views(ws@).take(ws.len() as int) =~= views(ws@));
        assert(ignore_names(lv.take(i + 1)) == base + views(ws@));
        i = i + 1;
    }
    assert(lv.take(ls.len() as int) =~= lv);
    out
}

/// `[extra]` → `extra`: a section of pacman.conf that names a repository,
/// which is any section but `[options]`.
pub open spec fn repo_line(l: Seq<char>) -> Option<Seq<char>> {
    match strip_prefix(trim(l), "["@) {
        Some(r) => match strip_suffix(r, "]"@) {
            Some(name) => if name == "options"@ {
                None
            } else {
                Some(name)
            },
            None => None,
        },
        None => None,
    }
}

pub open spec fn repo_names(ls: Seq<Seq<char>>) -> Seq<Seq<char>>
    decreases ls.len(),
{
    if ls.len() == 0 {
        seq![]
    } else {
        match repo_line(ls.last()) {
            Some(n) => repo_names(ls.drop_last()).push(n),
            None => repo_names(ls.drop_last()),
        }
    }
}

/// The repository names declared in pacman.conf.
pub fn configured_repos(contents: &str) -> (r: Vec<String>)
    ensures
        strs(r@) == repo_names(lines(contents@)),
{
    let ls = str_lines(contents);
    let ghost lv = views(ls@);
    let mut out: Vec<String> = Vec::new();
    let mut i: usize = 0;
    assert(lv.take(0) =~= seq![]);
    assert(strs(out@) =~= seq![]);
    while i < ls.len()
        invariant
            i <= ls.len(),
            lv == views(ls@),
            lv == lines(contents@),
            strs(out@) == repo_names(lv.take(i as int)),
        decreases ls.len() - i,
    {
        assert(lv.take(i + 1).drop_last() =~= lv.take(i as int));
        assert(lv.take(i + 1).last() == ls@[i as int]@);
        let t = trimmed(ls[i].as_slice());
        if let Some(r) = without_prefix(t.as_slice(), "[") {
            if let Some(name) = without_suffix(r.as_slice(), "]") {
                if !eq_lit(name.as_slice(), "options") {
                    let ghost before = strs(out@);
                    out.push(string_of(name.as_slice()));
                    assert(strs(out@) =~= before.push(name@));
                }
            }
        }
        i = i + 1;
    }
    assert(lv.take(ls.len() as int) =~= lv);
    out
}

/// What paru does with build dependencies once the build is over.
#[derive(Debug, Clone, Copy, PartialEq, Eq, Structural)]
pub enum RemoveMake {
    /// They are removed again.
    Yes,
    /// They stay installed.
    No,
    /// paru asks.
    Ask,
}

/// The first `RemoveMake` line of paru's configuration decides: bare, it
/// means yes; `= ask` and `= no` are their own answers; any other value is a
/// yes. With no such line, or no file, the option is off.
pub open spec fn remove_make_lines(ls: Seq<Seq<char>>) -> RemoveMake
    decreases ls.len(),
{
    if ls.len() == 0 {
        RemoveMake::No
    } else {
        let l = trim(ls[0]);
        if starts_with(l, "#"@) {
            remove_make_lines(ls.drop_first())
        } else {
            match strip_prefix(l, "RemoveMake"@) {
                None => remove_make_lines(ls.drop_first()),
                Some(rest) => match strip_prefix(trim_start(rest), "="@) {
                    None => RemoveMake::Yes,
                    Some(v) => if trim(v) == "ask"@ {
                        RemoveMake::Ask
                    } else if trim(v) == "no"@ {
                        RemoveMake::No
                    } else {
                        RemoveMake::Yes
                    },
                },
            }
        }
    }
}

/// Reads `RemoveMake` from the paru configuration paru itself would read
/// (the user's file if it exists, `/etc/paru.conf` otherwise); `None` when
/// that file could not be read.
pub fn remove_make(contents: Option<&str>) -> (r: RemoveMake)
    ensures
        r == (match contents {
            Some(c) => remove_make_lines(lines(c@)),
            None => RemoveMake::No,
        }),
{
    match contents {
        Some(c) => remove_make_text(c),
        None => RemoveMake::No,
    }
}

fn remove_make_text(c: &str) -> (r: RemoveMake)
    ensures
        r == remove_make_lines(lines(c@)),
{
    let ls = str_lines(c);
    let ghost lv = views(ls@);
    let mut i: usize = 0;
    assert(lv.skip(0) =~= lv);
    while i < ls.len()
        invariant
            i <= ls.len(),
            lv == views(ls@),
            lv == lines(c@),
            remove_make_lines(lv) == remove_make_lines(lv.skip(i as int)),
        decreases ls.len() - i,
    {
        let ghost rest = lv.skip(i as int);
        assert(rest[0] == ls@[i as int]@);
        assert(rest.drop_first() =~= lv.skip(i + 1));
        let l = trimmed(ls[i].as_slice());
        if !begins_str(l.as_slice(), "#") {
            if let Some(rest) = without_prefix(l.as_slice(), "RemoveMake") {
                let r2 = trimmed_start(rest.as_slice());
                return match without_prefix(r2.as_slice(), "=") {
                    None => RemoveMake::Yes,
                    Some(v) => {
                        let v = trimmed(v.as_slice());
                        if eq_lit(v.as_slice(), "ask") {
                            RemoveMake::Ask
                        } else if eq_lit(v.as_slice(), "no") {
                            RemoveMake::No
                        } else {
                            RemoveMake::Yes
                        }
                    },
                };
            }
        }
        i = i + 1;
    }
    assert(lv.skip(ls.len() as int) =~= seq![]);
    RemoveMake::No
}

// ---------------------------------------------------------------------------
// paccache
// ---------------------------------------------------------------------------

pub open spec fn is_quote(c: char) -> bool {
    c == '\'' || c == '"'
}

/// The text without the quotes around it (`trim_matches(['\'', '"'])`).
pub open spec fn unquote_start(s: Seq<char>) -> Seq<char>
    decreases s.len(),
{
    if s.len() > 0 && is_quote(s[0]) {
        unquote_start(s.drop_first())
    } else {
        s
    }
}

pub open spec fn unquote_end(s: Seq<char>) -> Seq<char>
    decreases s.len(),
{
    if s.len() > 0 && is_quote(s.last()) {
        unquote_end(s.drop_last())
    } else {
        s
    }
}

pub open spec fn unquote(s: Seq<char>) -> Seq<char> {
    unquote_end(unquote_start(s))
}

fn unquoted(s: &[char]) -> (r: Vec<char>)
    ensures
        r@ == unquote(s@),
{
    let mut a: usize = 0;
    assert(s@.skip(0) =~= s@);
    while a < s.len() && (s[a] == '\'' || s[a] == '"')
        invariant
            a <= s.len(),
            unquote_start(s@) == unquote_start(s@.skip(a as int)),
        decreases s.len() - a,
    {
        assert(s@.skip(a as int).drop_first() =~= s@.skip(a + 1));
        a = a + 1;
    }
    let mid = slice(s, a, s.len());
    assert(mid@ =~= s@.skip(a as int));
    let mut b: usize = mid.len();
    assert(mid@.take(b as int) =~= mid@);
    while b > 0 && (mid[b - 1] == '\'' || mid[b - 1] == '"')
        invariant
            b <= mid.len(),
            unquote_end(mid@) == unquote_end(mid@.take(b as int)),
        decreases b,
    {
        assert(mid@.take(b as int).drop_last() =~= mid@.take(b - 1));
        assert(mid@.take(b as int).last() == mid@[b - 1]);
        b = b - 1;
    }
    proof {
        if b > 0 {
            assert(mid@.take(b as int).last() == mid@[b - 1]);
        }
        if a < s.len() {
            assert(s@.skip(a as int)[0] == s@[a as int]);
        }
    }
    slice(mid.as_slice(), 0, b)
}

/// The value of `PACCACHE_ARGS=` on the first line that sets it.
pub open spec fn args_line(ls: Seq<Seq<char>>) -> Option<Seq<char>>
    decreases ls.len(),
{
    if ls.len() == 0 {
        None
    } else {
        let l = trim(ls[0]);
        if !starts_with(l, "#"@) && strip_prefix(l, "PACCACHE_ARGS="@) is Some {
            strip_prefix(l, "PACCACHE_ARGS="@)
        } else {
            args_line(ls.drop_first())
        }
    }
}

/// What follows `-k` in the first word that starts with it.
pub open spec fn k_arg(ws: Seq<Seq<char>>) -> Option<Seq<char>>
    decreases ws.len(),
{
    if ws.len() == 0 {
        None
    } else if strip_prefix(ws[0], "-k"@) is Some {
        strip_prefix(ws[0], "-k"@)
    } else {
        k_arg(ws.drop_first())
    }
}

/// How many versions paccache is meant to keep, as `paccache.timer` is told
/// in `/etc/conf.d/pacman-contrib`: offering another value would make the
/// cache oscillate between two policies. paccache's own default is 3.
pub open spec fn keep_spec(ls: Seq<Seq<char>>) -> u32 {
    match args_line(ls) {
        Some(v) => match k_arg(words(unquote(v))) {
            Some(n) => match u32_of(n) {
                Some(k) => k,
                None => 3,
            },
            None => 3,
        },
        None => 3,
    }
}

fn args_line_exec(ls: &Vec<Vec<char>>) -> (r: Option<Vec<char>>)
    ensures
        match r {
            Some(v) => args_line(views(ls@)) == Some(v@),
            None => args_line(views(ls@)) is None,
        },
{
    let ghost lv = views(ls@);
    let mut i: usize = 0;
    assert(lv.skip(0) =~= lv);
    while i < ls.len()
        invariant
            i <= ls.len(),
            lv == views(ls@),
            args_line(lv) == args_line(lv.skip(i as int)),
        decreases ls.len() - i,
    {
        let ghost rest = lv.skip(i as int);
        assert(rest[0] == ls@[i as int]@);
        assert(rest.drop_first() =~= lv.skip(i + 1));
        let l = trimmed(ls[i].as_slice());
        if !begins_str(l.as_slice(), "#") {
            if let Some(v) = without_prefix(l.as_slice(), "PACCACHE_ARGS=") {
                return Some(v);
            }
        }
        i = i + 1;
    }
    assert(lv.skip(ls.len() as int) =~= seq![]);
    None
}

fn k_arg_exec(ws: &Vec<Vec<char>>) -> (r: Option<Vec<char>>)
    ensures
        match r {
            Some(v) => k_arg(views(ws@)) == Some(v@),
            None => k_arg(views(ws@)) is None,
        },
{
    let ghost wv = views(ws@);
    let mut i: usize = 0;
    assert(wv.skip(0) =~= wv);
    while i < ws.len()
        invariant
            i <= ws.len(),
            wv == views(ws@),
            k_arg(wv) == k_arg(wv.skip(i as int)),
        decreases ws.len() - i,
    {
        let ghost rest = wv.skip(i as int);
        assert(rest[0] == ws@[i as int]@);
        assert(rest.drop_first() =~= wv.skip(i + 1));
        if let Some(n) = without_prefix(ws[i].as_slice(), "-k") {
            return Some(n);
        }
        i = i + 1;
    }
    assert(wv.skip(ws.len() as int) =~= seq![]);
    None
}

/// The retention count from the contents of `/etc/conf.d/pacman-contrib`;
/// `None` when the file could not be read.
pub fn paccache_keep(contents: Option<&str>) -> (r: u32)
    ensures
        r == (match contents {
            Some(c) => keep_spec(lines(c@)),
            None => 3,
        }),
{
    let c = match contents {
        Some(c) => c,
        None => return 3,
    };
    let ls = str_lines(c);
    match args_line_exec(&ls) {
        Some(v) => {
            let q = unquoted(v.as_slice());
            let ws = split_ws(q.as_slice());
            match k_arg_exec(&ws) {
                Some(n) => match parse_u32(n.as_slice()) {
                    Some(k) => k,
                    None => 3,
                },
                None => 3,
            }
        },
        None => 3,
    }
}

/// `name old -> new`, as `checkupdates` and `paru -Qua` print an update.
pub open spec fn update_line(l: Seq<char>) -> Option<(Seq<char>, Seq<char>)> {
    let ws = words(l);
    if ws.len() >= 4 && ws[2] == "->"@ {
        Some((ws[0], ws[3]))
    } else {
        None
    }
}

pub open spec fn update_pairs(ls: Seq<Seq<char>>) -> Seq<(Seq<char>, Seq<char>)>
    decreases ls.len(),
{
    if ls.len() == 0 {
        seq![]
    } else {
        match update_line(ls.last()) {
            Some(p) => update_pairs(ls.drop_last()).push(p),
            None => update_pairs(ls.drop_last()),
        }
    }
}

pub open spec fn pair_views(v: Seq<(String, String)>) -> Seq<(Seq<char>, Seq<char>)> {
    v.map_values(|p: (String, String)| (p.0@, p.1@))
}

/// The updates a listing announces, name and new version, in order; where a
/// name comes twice, the later line is the one that counts.
pub fn parse_updates(raw: &str) -> (r: Vec<(String, String)>)
    ensures
        pair_views(r@) == update_pairs(lines(raw@)),
{
    let ls = str_lines(raw);
    let ghost lv = views(ls@);
    let mut out: Vec<(String, String)> = Vec::new();
    let mut i: usize = 0;
    assert(lv.take(0) =~= seq![]);
    assert(pair_views(out@) =~= seq![]);
    while i < ls.len()
        invariant
            i <= ls.len(),
            lv == views(ls@),
            lv == lines(raw@),
            pair_views(out@) == update_pairs(lv.take(i as int)),
        decreases ls.len() - i,
    {
        assert(lv.take(i + 1).drop_last() =~= lv.take(i as int));
        assert(lv.take(i + 1).last() == ls@[i as int]@);
        let ws = split_ws(ls[i].as_slice());
        if ws.len() >= 4 && eq_lit(ws[2].as_slice(), "->") {
            let ghost before = pair_views(out@);
            out.push((string_of(ws[0].as_slice()), string_of(ws[3].as_slice())));
            assert(pair_views(out@) =~= before.push((ws@[0]@, ws@[3]@)));
        }
        i = i + 1;
    }
    assert(lv.take(ls.len() as int) =~= lv);
    out
}

pub open spec fn is_alpha(c: char) -> bool {
    ('a' <= c && c <= 'z') || ('A' <= c && c <= 'Z')
}

pub open spec fn upper(c: char) -> char {
    if 'a' <= c && c <= 'z' {
        ((c as u32) - 32) as char
    } else {
        c
    }
}

/// The letters of a word, upper-cased: `MiB)` → `MIB`.
pub open spec fn letters_upper(s: Seq<char>) -> Seq<char>
    decreases s.len(),
{
    if s.len() == 0 {
        seq![]
    } else if is_alpha(s.last()) {
        letters_upper(s.drop_last()).push(upper(s.last()))
    } else {
        letters_upper(s.drop_last())
    }
}

fn letters_upper_exec(s: &[char]) -> (r: Vec<char>)
    ensures
        r@ == letters_upper(s@),
{
    let mut r: Vec<char> = Vec::new();
    let mut i: usize = 0;
    assert(s@.take(0) =~= seq![]);
    while i < s.len()
        invariant
            i <= s.len(),
            r@ == letters_upper(s@.take(i as int)),
        decreases s.len() - i,
    {
        let c = s[i];
        assert(s@.take(i + 1).drop_last() =~= s@.take(i as int));
        assert(s@.take(i + 1).last() == c);
        if ('a' <= c && c <= 'z') || ('A' <= c && c <= 'Z') {
            let u = if 'a' <= c && c <= 'z' {
                ((c as u8) - 32) as char
            } else {
                c
            };
            assert(u == upper(c)) by {
                if 'a' <= c && c <= 'z' {
                    assert((c as u8) as u32 == c as u32);
                }
            }
            r.push(u);
        }
        i = i + 1;
    }
    assert(s@.take(s.len() as int) =~= s@);
    r
}

/// Bytes in the unit paccache prints, the unknown ones counting as bytes.
pub open spec fn paccache_unit(u: Seq<char>) -> nat {
    if u == "KIB"@ || u == "K"@ {
        1024
    } else if u == "MIB"@ || u == "M"@ {
        1048576
    } else if u == "GIB"@ || u == "G"@ {
        1073741824
    } else if u == "TIB"@ || u == "T"@ {
        1099511627776
    } else {
        1
    }
}

fn paccache_unit_exec(u: &[char]) -> (r: u64)
    ensures
        r == paccache_unit(u@),
{
    if eq_lit(u, "KIB") || eq_lit(u, "K") {
        1024
    } else if eq_lit(u, "MIB") || eq_lit(u, "M") {
        1048576
    } else if eq_lit(u, "GIB") || eq_lit(u, "G") {
        1073741824
    } else if eq_lit(u, "TIB") || eq_lit(u, "T") {
        1099511627776
    } else {
        1
    }
}

/// A value forced into `u64`, as a float-to-integer conversion does.
pub open spec fn clamp_u64(v: int) -> int {
    if v < 0 {
        0
    } else if v > u64::MAX {
        u64::MAX as int
    } else {
        v
    }
}

pub open spec fn scaled_u64(d: DecimalView, m: nat) -> int {
    clamp_u64(
        if d.neg {
            -magnitude(d, m)
        } else {
            magnitude(d, m) as int
        },
    )
}

/// `==> finished dry run: 6 candidates (disk space saved: 2.59 MiB)`: the
/// volume after the marker, truncated to whole bytes.
pub open spec fn dry_run_line(l: Seq<char>) -> Option<int> {
    match find(l, "disk space saved:"@) {
        None => None,
        Some(idx) => {
            let ws = words(l.skip(idx + "disk space saved:"@.len()));
            if ws.len() < 2 {
                None
            } else {
                match decimal_spec(swap_char(ws[0], ',', '.')) {
                    Some(d) => Some(scaled_u64(d, paccache_unit(letters_upper(ws[1])))),
                    None => None,
                }
            }
        },
    }
}

/// The volume a dry run announces, from its first line that gives one; 0
/// when there is nothing to prune.
pub open spec fn dry_run_spec(ls: Seq<Seq<char>>) -> int
    decreases ls.len(),
{
    if ls.len() == 0 {
        0
    } else {
        match dry_run_line(ls[0]) {
            Some(v) => v,
            None => dry_run_spec(ls.drop_first()),
        }
    }
}

fn dry_run_line_exec(l: &[char]) -> (r: Option<u64>)
    ensures
        match r {
            Some(v) => dry_run_line(l@) == Some(v as int),
            None => dry_run_line(l@) is None,
        },
{
    let marker = chars_of("disk space saved:");
    let idx = find_in(l, marker.as_slice())?;
    let n = marker.len();
    let ll = l.len();
    assert(idx + n <= ll);
    let rest = slice(l, idx + n, ll);
    assert(rest@ =~= l@.skip(idx + "disk space saved:"@.len()));
    let ws = split_ws(rest.as_slice());
    if ws.len() < 2 {
        return None;
    }
    let num = swapped_char(ws[0].as_slice(), ',', '.');
    let (neg, whole, frac) = decimal_parts(num.as_slice())?;
    let unit = letters_upper_exec(ws[1].as_slice());
    let m = paccache_unit_exec(unit.as_slice());
    let ghost d = decimal_spec(num@).unwrap();
    assert(magnitude(d, m as nat) == magnitude(
        DecimalView { neg: false, whole: whole@, frac: frac@ },
        m as nat,
    ));
    match scaled_magnitude(whole.as_slice(), frac.as_slice(), m) {
        None => Some(
            if neg {
                0
            } else {
                u64::MAX
            },
        ),
        Some(v) => Some(
            if neg {
                0
            } else {
                v
            },
        ),
    }
}

/// The reclaimable volume a `paccache -d` dry run announces. It announces what
/// would be deleted without touching anything.
pub fn paccache_dry_run(out: &str) -> (r: u64)
    ensures
        r == dry_run_spec(lines(out@)),
{
    let ls = str_lines(out);
    let ghost lv = views(ls@);
    let mut i: usize = 0;
    assert(lv.skip(0) =~= lv);
    while i < ls.len()
        invariant
            i <= ls.len(),
            lv == views(ls@),
            lv == lines(out@),
            dry_run_spec(lv) == dry_run_spec(lv.skip(i as int)),
        decreases ls.len() - i,
    {
        let ghost rest = lv.skip(i as int);
        assert(rest[0] == ls@[i as int]@);
        assert(rest.drop_first() =~= lv.skip(i + 1));
        if let Some(v) = dry_run_line_exec(ls[i].as_slice()) {
            return v;
        }
        i = i + 1;
    }
    assert(lv.skip(ls.len() as int) =~= seq![]);
    0
}

// ---------------------------------------------------------------------------
// The protection list
// ---------------------------------------------------------------------------

/// Seed contents of keep.list, written on first run. The comments speak the
/// language of the interface, since the file is meant to be edited by hand;
/// package names do not.
pub open spec fn keep_seed_text(l: Lang) -> Seq<char> {
    "# "@ + translate(l, "nalarch — packages protected from removal."@) + "\n# "@ + translate(
        l,
        "One name per line. They stay visible in the Orphans tab but cannot be checked for removal."@,
    ) + "\n#\n# "@ + translate(
        l,
        "libalpm only knows about declared dependencies. A package loaded dynamically (a Qt plugin, a Wayland backend, a GStreamer plugin) therefore looks like an orphan while being vital. Hence this list."@,
    ) + "\n\n# "@ + translate(
        l,
        "Needed by Qt applications under Wayland, with no alpm dependency link:"@,
    ) + "\nqt6-wayland\nqt6-avif-image-plugin\n"@
}

fn append_str(v: &mut Vec<char>, s: &str)
    ensures
        final(v)@ == old(v)@ + s@,
{
    let c = chars_of(s);
    append(v, c.as_slice());
}

pub fn keep_seed(l: Lang) -> (r: String)
    ensures
        r@ == keep_seed_text(l),
{
    let mut v: Vec<char> = Vec::new();
    append_str(&mut v, "# ");
    append_str(&mut v, t(l, "nalarch — packages protected from removal.").as_str());
    append_str(&mut v, "\n# ");
    append_str(
        &mut v,
        t(
            l,
            "One name per line. They stay visible in the Orphans tab but cannot be checked for removal.",
        ).as_str(),
    );
    append_str(&mut v, "\n#\n# ");
    append_str(
        &mut v,
        t(
            l,
            "libalpm only knows about declared dependencies. A package loaded dynamically (a Qt plugin, a Wayland backend, a GStreamer plugin) therefore looks like an orphan while being vital. Hence this list.",
        ).as_str(),
    );
    append_str(&mut v, "\n\n# ");
    append_str(
        &mut v,
        t(l, "Needed by Qt applications under Wayland, with no alpm dependency link:").as_str(),
    );
    append_str(&mut v, "\nqt6-wayland\nqt6-avif-image-plugin\n");
    assert(v@ =~= keep_seed_text(l));
    string_of(v.as_slice())
}

/// The names a protection list holds: one per line, blank lines and comments
/// aside.
pub open spec fn keep_names(ls: Seq<Seq<char>>) -> Seq<Seq<char>>
    decreases ls.len(),
{
    if ls.len() == 0 {
        seq![]
    } else {
        let t = trim(ls.last());
        if t.len() > 0 && !starts_with(t, "#"@) {
            keep_names(ls.drop_last()).push(t)
        } else {
            keep_names(ls.drop_last())
        }
    }
}

/// The protected names read from the contents of keep.list, each once.
pub fn load_keep(contents: &str) -> (r: Vec<String>)
    ensures
        strs(r@) == dedup(keep_names(lines(contents@))),
{
    let ls = str_lines(contents);
    let ghost lv = views(ls@);
    let mut out: Vec<String> = Vec::new();
    let mut i: usize = 0;
    assert(lv.take(0) =~= seq![]);
    assert(strs(out@) =~= seq![]);
    while i < ls.len()
        invariant
            i <= ls.len(),
            lv == views(ls@),
            lv == lines(contents@),
            strs(out@) == dedup(keep_names(lv.take(i as int))),
        decreases ls.len() - i,
    {
        assert(lv.take(i + 1).drop_last() =~= lv.take(i as int));
        assert(lv.take(i + 1).last() == ls@[i as int]@);
        let t = trimmed(ls[i].as_slice());
        if t.len() > 0 && !begins_str(t.as_slice(), "#") {
            let ghost base = keep_names(lv.take(i as int));
            assert(base.push(t@).drop_last() =~= base);
            assert(base.push(t@).last() == t@);
            push_new(&mut out, t.as_slice());
        }
        i = i + 1;
    }
    assert(lv.take(ls.len() as int) =~= lv);
    out
}

/// The lines that do not name `name`.
pub open spec fn lines_without(ls: Seq<Seq<char>>, name: Seq<char>) -> Seq<Seq<char>>
    decreases ls.len(),
{
    if ls.len() == 0 {
        seq![]
    } else if trim(ls.last()) != name {
        lines_without(ls.drop_last(), name).push(ls.last())
    } else {
        lines_without(ls.drop_last(), name)
    }
}

/// The protection list after protecting `name` (a line added) or releasing
/// it (every line naming it dropped).
pub open spec fn toggled_text(contents: Seq<char>, name: Seq<char>, protect: bool) -> Seq<char> {
    if protect {
        (if contents.len() > 0 && !ends_with(contents, "\n"@) {
            contents + "\n"@
        } else {
            contents
        }) + name + "\n"@
    } else {
        join(lines_without(lines(contents), name), "\n"@) + "\n"@
    }
}

pub fn toggle_keep(contents: &str, name: &str, protect: bool) -> (r: String)
    ensures
        r@ == toggled_text(contents@, name@, protect),
{
    let c = chars_of(contents);
    if protect {
        let mut v = slice(c.as_slice(), 0, c.len());
        assert(c@ =~= c@.subrange(0, c@.len() as int));
        if c.len() > 0 && !crate::text::finishes_str(c.as_slice(), "\n") {
            append_str(&mut v, "\n");
        }
        append_str(&mut v, name);
        append_str(&mut v, "\n");
        return string_of(v.as_slice());
    }
    let ls = str_lines(contents);
    let ghost lv = views(ls@);
    let nm = chars_of(name);
    let mut kept: Vec<Vec<char>> = Vec::new();
    let mut i: usize = 0;
    assert(lv.take(0) =~= seq![]);
    assert(views(kept@) =~= seq![]);
    while i < ls.len()
        invariant
            i <= ls.len(),
            lv == views(ls@),
            lv == lines(contents@),
            nm@ == name@,
            views(kept@) == lines_without(lv.take(i as int), name@),
        decreases ls.len() - i,
    {
        assert(lv.take(i + 1).drop_last() =~= lv.take(i as int));
        assert(lv.take(i + 1).last() == ls@[i as int]@);
        let t = trimmed(ls[i].as_slice());
        if !seq_eq(t.as_slice(), nm.as_slice()) {
            let ghost before = views(kept@);
            let copy = slice(ls[i].as_slice(), 0, ls[i].len());
            assert(copy@ =~= ls@[i as int]@);
            kept.push(copy);
            assert(views(kept@) =~= before.push(ls@[i as int]@));
        }
        i = i + 1;
    }
    assert(lv.take(ls.len() as int) =~= lv);
    let mut v = crate::text::join_str(kept.as_slice(), "\n");
    append_str(&mut v, "\n");
    string_of(v.as_slice())
}

// ---------------------------------------------------------------------------
// Laws
// ---------------------------------------------------------------------------

/// A list read as a set holds each name once, and exactly the names read.
pub proof fn law_dedup_is_a_set(s: Seq<Seq<char>>)
    ensures
        forall|i: int, j: int| 0 <= i < j < dedup(s).len() ==> dedup(s)[i] != dedup(s)[j],
        forall|x: Seq<char>| #[trigger] dedup(s).contains(x) <==> s.contains(x),
    decreases s.len(),
{
    if s.len() > 0 {
        let d = dedup(s.drop_last());
        let e = s.last();
        law_dedup_is_a_set(s.drop_last());
        assert(s =~= s.drop_last().push(e));
        assert forall|x: Seq<char>| #[trigger] dedup(s).contains(x) <==> s.contains(x) by {
            if s.drop_last().contains(x) {
                let i = choose|i: int| 0 <= i < s.drop_last().len() && s.drop_last()[i] == x;
                assert(s[i] == x);
            }
            if s.contains(x) {
                let i = choose|i: int| 0 <= i < s.len() && s[i] == x;
                if i < s.len() - 1 {
                    assert(s.drop_last()[i] == x);
                }
            }
            if !d.contains(e) {
                if d.push(e).contains(x) {
                    let k = choose|k: int| 0 <= k < d.push(e).len() && d.push(e)[k] == x;
                    if k < d.len() {
                        assert(d[k] == x);
                    }
                }
                if d.contains(x) {
                    let k = choose|k: int| 0 <= k < d.len() && d[k] == x;
                    assert(d.push(e)[k] == x);
                }
                if x == e {
                    assert(d.push(e)[d.len() as int] == x);
                }
            }
        }
        if !d.contains(e) {
            assert forall|i: int, j: int| 0 <= i < j < d.push(e).len() implies d.push(e)[i] != d.push(e)[j] by {
                if j == d.len() {
                    assert(d.push(e)[i] == d[i]);
                    if d[i] == e {
                        assert(d.contains(e));
                    }
                } else {
                    assert(d.push(e)[i] == d[i] && d.push(e)[j] == d[j]);
                }
            }
        }
    }
}

} // verus!
