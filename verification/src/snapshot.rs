//! The system snapshot put together: what the local database holds, matched
//! with what the sync databases offer and what the update listings announce,
//! becomes the installed list, the pending updates and the frozen ones.
//!
//! Matching by name is the caller's: for each installed package it hands over
//! the first offer the sync databases make for that name, the version each
//! listing announces for it, and whether `IgnorePkg` names it. Everything
//! decided from there is here.

use vstd::prelude::*;
use crate::data::{Pkg, PkgView, Origin, Ignore, IgnoreView, pkg_views, ignore_views};
use crate::plan::{lex_lt, text_lt, copy_strings, lemma_lex_transitive, lemma_lex_irreflexive, lemma_lex_total};
use crate::text::{owned, strs};

verus! {

/// A package of the local database.
pub struct LocalPkg {
    pub name: String,
    pub version: String,
    pub description: String,
    pub installed_size: i64,
    /// Installed on purpose rather than as a dependency.
    pub explicit: bool,
    pub required_by: Vec<String>,
    pub optional_for: Vec<String>,
    pub depends_on: Vec<String>,
}

pub struct LocalView {
    pub name: Seq<char>,
    pub version: Seq<char>,
    pub description: Seq<char>,
    pub installed_size: int,
    pub explicit: bool,
    pub required_by: Seq<Seq<char>>,
    pub optional_for: Seq<Seq<char>>,
    pub depends_on: Seq<Seq<char>>,
}

impl View for LocalPkg {
    type V = LocalView;

    open spec fn view(&self) -> LocalView {
        LocalView {
            name: self.name@,
            version: self.version@,
            description: self.description@,
            installed_size: self.installed_size as int,
            explicit: self.explicit,
            required_by: strs(self.required_by@),
            optional_for: strs(self.optional_for@),
            depends_on: strs(self.depends_on@),
        }
    }
}

/// What a sync database offers for a name: the database, the version and its
/// sizes.
pub struct Offer {
    pub repo: String,
    pub version: String,
    pub download_size: i64,
    pub installed_size: i64,
}

pub struct OfferView {
    pub repo: Seq<char>,
    pub version: Seq<char>,
    pub download_size: int,
    pub installed_size: int,
}

impl View for Offer {
    type V = OfferView;

    open spec fn view(&self) -> OfferView {
        OfferView {
            repo: self.repo@,
            version: self.version@,
            download_size: self.download_size as int,
            installed_size: self.installed_size as int,
        }
    }
}

/// An installed package with what is known of it elsewhere.
pub struct Entry {
    pub local: LocalPkg,
    /// The first offer the sync databases make for its name.
    pub offer: Option<Offer>,
    /// The version `checkupdates` announces for it.
    pub repo_update: Option<String>,
    /// The version `paru -Qua` announces for it.
    pub aur_update: Option<String>,
    /// Named by `IgnorePkg`.
    pub frozen: bool,
}

pub struct EntryView {
    pub local: LocalView,
    pub offer: Option<OfferView>,
    pub repo_update: Option<Seq<char>>,
    pub aur_update: Option<Seq<char>>,
    pub frozen: bool,
}

impl View for Entry {
    type V = EntryView;

    open spec fn view(&self) -> EntryView {
        EntryView {
            local: self.local@,
            offer: match self.offer {
                Some(o) => Some(o@),
                None => None,
            },
            repo_update: match self.repo_update {
                Some(s) => Some(s@),
                None => None,
            },
            aur_update: match self.aur_update {
                Some(s) => Some(s@),
                None => None,
            },
            frozen: self.frozen,
        }
    }
}

pub open spec fn entry_views(v: Seq<Entry>) -> Seq<EntryView> {
    v.map_values(|e: Entry| e@)
}

/// The version to install and where it comes from: the repositories first,
/// the AUR for what they do not have.
pub open spec fn target_of(e: EntryView) -> (Option<Seq<char>>, Origin) {
    match e.repo_update {
        Some(v) => (Some(v), Origin::Repo),
        None => match e.aur_update {
            Some(v) => (Some(v), Origin::Aur),
            None => (None, Origin::Repo),
        },
    }
}

/// The repository shown: `aur` for an AUR update, the database that offers
/// the package otherwise, and `aur` again for a package no database has (AUR
/// or local).
pub open spec fn repo_of(e: EntryView) -> Seq<char> {
    if target_of(e).1 == Origin::Aur {
        "aur"@
    } else {
        match e.offer {
            Some(o) => o.repo,
            None => "aur"@,
        }
    }
}

/// Sizes are trusted only when the sync database already carries the version
/// about to be installed: showing nothing beats showing something wrong.
pub open spec fn sized(e: EntryView) -> bool {
    match (target_of(e).0, e.offer) {
        (Some(t), Some(o)) => o.version == t,
        _ => false,
    }
}

pub open spec fn pkg_of(e: EntryView) -> PkgView {
    PkgView {
        name: e.local.name,
        version: e.local.version,
        target_version: target_of(e).0,
        repo: repo_of(e),
        description: e.local.description,
        installed_size: e.local.installed_size,
        download_size: if sized(e) {
            Some(e.offer.unwrap().download_size)
        } else {
            None
        },
        target_size: if sized(e) {
            Some(e.offer.unwrap().installed_size)
        } else {
            None
        },
        explicit: e.local.explicit,
        required_by: e.local.required_by,
        optional_for: e.local.optional_for,
        depends_on: e.local.depends_on,
        origin: target_of(e).1,
    }
}

/// An update `IgnorePkg` holds back: a frozen package whose version the sync
/// databases offer differs from the installed one. `checkupdates` leaves it
/// out, so without this it would be invisible.
pub open spec fn frozen_of(e: EntryView) -> Option<IgnoreView> {
    match e.offer {
        Some(o) => if e.frozen && o.version != e.local.version {
            Some(IgnoreView { name: e.local.name, from_version: e.local.version, to_version: o.version })
        } else {
            None
        },
        None => None,
    }
}

pub open spec fn insert_entry(s: Seq<EntryView>, x: EntryView) -> Seq<EntryView>
    decreases s.len(),
{
    if s.len() == 0 {
        seq![x]
    } else if lex_lt(x.local.name, s.last().local.name) {
        insert_entry(s.drop_last(), x).push(s.last())
    } else {
        s.push(x)
    }
}

/// The entries in name order; equal names keep their order.
pub open spec fn by_name(s: Seq<EntryView>) -> Seq<EntryView>
    decreases s.len(),
{
    if s.len() == 0 {
        seq![]
    } else {
        insert_entry(by_name(s.drop_last()), s.last())
    }
}

/// The pending updates of one origin, in order.
pub open spec fn updates_from(s: Seq<EntryView>, origin: Origin) -> Seq<PkgView>
    decreases s.len(),
{
    if s.len() == 0 {
        seq![]
    } else if target_of(s.last()).0 is Some && target_of(s.last()).1 == origin {
        updates_from(s.drop_last(), origin).push(pkg_of(s.last()))
    } else {
        updates_from(s.drop_last(), origin)
    }
}

pub open spec fn frozen_in(s: Seq<EntryView>) -> Seq<IgnoreView>
    decreases s.len(),
{
    if s.len() == 0 {
        seq![]
    } else {
        match frozen_of(s.last()) {
            Some(i) => frozen_in(s.drop_last()).push(i),
            None => frozen_in(s.drop_last()),
        }
    }
}

pub struct Snapshot {
    /// Every installed package, in name order.
    pub installed: Vec<Pkg>,
    /// The packages with an update, repositories first and AUR last — an AUR
    /// update means a build, a cost of another nature — each part in name
    /// order.
    pub updates: Vec<Pkg>,
    /// The updates `IgnorePkg` holds back, in name order.
    pub ignored: Vec<Ignore>,
}

proof fn lemma_insert_entry_at(s: Seq<EntryView>, x: EntryView, k: int)
    requires
        0 <= k <= s.len(),
        forall|j: int| k <= j < s.len() ==> lex_lt(x.local.name, #[trigger] s[j].local.name),
        k == 0 || !lex_lt(x.local.name, s[k - 1].local.name),
    ensures
        insert_entry(s, x) == s.insert(k, x),
    decreases s.len() - k,
{
    if s.len() == 0 {
        assert(s.insert(k, x) =~= seq![x]);
    } else if k == s.len() {
        assert(s.insert(k, x) =~= s.push(x));
    } else {
        assert(lex_lt(x.local.name, s[s.len() - 1].local.name));
        let d = s.drop_last();
        assert forall|j: int| k <= j < d.len() implies lex_lt(x.local.name, #[trigger] d[j].local.name) by {
            assert(d[j] == s[j]);
        }
        if k > 0 {
            assert(d[k - 1] == s[k - 1]);
        }
        lemma_insert_entry_at(d, x, k);
        assert(d.insert(k, x).push(s.last()) =~= s.insert(k, x));
    }
}

fn sort_entries(entries: Vec<Entry>) -> (r: Vec<Entry>)
    ensures
        entry_views(r@) == by_name(entry_views(entries@)),
{
    let ghost all = entry_views(entries@);
    let mut rest = entries;
    let mut out: Vec<Entry> = Vec::new();
    assert(all.take(0) =~= seq![]);
    assert(entry_views(out@) =~= seq![]);
    assert(all.skip(0) =~= all);
    while rest.len() > 0
        invariant
            all.len() == entry_views(out@).len() + rest.len(),
            entry_views(rest@) == all.skip(all.len() - rest.len()),
            entry_views(out@) == by_name(all.take(all.len() - rest.len())),
        decreases rest.len(),
    {
        let ghost done = all.len() - rest.len();
        let ghost old_rest = rest@;
        let x = rest.remove(0);
        assert(all[done] == x@) by {
            assert(all.skip(done)[0] == all[done]);
            assert(entry_views(old_rest)[0] == old_rest[0]@);
        }
        assert(rest@ =~= old_rest.subrange(1, old_rest.len() as int));
        assert forall|j: int| 0 <= j < rest@.len() implies entry_views(rest@)[j] == all.skip(done + 1)[j] by {
            assert(rest@[j] == old_rest[j + 1]);
            assert(entry_views(old_rest)[j + 1] == all.skip(done)[j + 1]);
        }
        assert(entry_views(rest@) =~= all.skip(done + 1));
        let ghost s = entry_views(out@);
        let mut k: usize = out.len();
        while k > 0 && text_lt(x.local.name.as_str(), out[k - 1].local.name.as_str())
            invariant
                k <= out.len(),
                s == entry_views(out@),
                forall|j: int| k <= j < s.len() ==> lex_lt(x@.local.name, #[trigger] s[j].local.name),
            decreases k,
        {
            k = k - 1;
        }
        proof {
            lemma_insert_entry_at(s, x@, k as int);
        }
        out.insert(k, x);
        assert(entry_views(out@) =~= s.insert(k as int, x@));
        assert(all.take(done + 1).drop_last() =~= all.take(done));
        assert(all.take(done + 1).last() == x@);
    }
    assert(all.take(all.len() as int) =~= all);
    out
}

fn copy_opt(o: &Option<String>) -> (r: Option<String>)
    ensures
        match r {
            Some(s) => *o matches Some(t) && s@ == t@,
            None => o is None,
        },
{
    match o {
        Some(s) => Some(owned(s.as_str())),
        None => None,
    }
}

/// The package as the rest of the program sees it.
fn pkg_exec(e: &Entry) -> (r: Pkg)
    ensures
        r@ == pkg_of(e@),
{
    let (target_version, origin) = match &e.repo_update {
        Some(v) => (Some(owned(v.as_str())), Origin::Repo),
        None => match &e.aur_update {
            Some(v) => (Some(owned(v.as_str())), Origin::Aur),
            None => (None, Origin::Repo),
        },
    };
    let repo = match origin {
        Origin::Aur => owned("aur"),
        Origin::Repo => match &e.offer {
            Some(o) => owned(o.repo.as_str()),
            None => owned("aur"),
        },
    };
    let sized = match (&target_version, &e.offer) {
        (Some(t), Some(o)) => crate::text::str_eq(o.version.as_str(), t.as_str()),
        _ => false,
    };
    let (download_size, target_size) = if sized {
        match &e.offer {
            Some(o) => (Some(o.download_size), Some(o.installed_size)),
            None => (None, None),
        }
    } else {
        (None, None)
    };
    let r = Pkg {
        name: owned(e.local.name.as_str()),
        version: owned(e.local.version.as_str()),
        target_version,
        repo,
        description: owned(e.local.description.as_str()),
        installed_size: e.local.installed_size,
        download_size,
        target_size,
        explicit: e.local.explicit,
        required_by: copy_strings(e.local.required_by.as_slice()),
        optional_for: copy_strings(e.local.optional_for.as_slice()),
        depends_on: copy_strings(e.local.depends_on.as_slice()),
        origin,
    };
    r
}

fn frozen_exec(e: &Entry) -> (r: Option<Ignore>)
    ensures
        match r {
            Some(i) => frozen_of(e@) == Some(i@),
            None => frozen_of(e@) is None,
        },
{
    match &e.offer {
        Some(o) => if e.frozen && !crate::text::str_eq(o.version.as_str(), e.local.version.as_str()) {
            Some(
                Ignore {
                    name: owned(e.local.name.as_str()),
                    from_version: owned(e.local.version.as_str()),
                    to_version: owned(o.version.as_str()),
                },
            )
        } else {
            None
        },
        None => None,
    }
}

fn push_updates(out: &mut Vec<Pkg>, s: &Vec<Entry>, origin: Origin)
    ensures
        pkg_views(final(out)@) == pkg_views(old(out)@) + updates_from(entry_views(s@), origin),
{
    let ghost start = pkg_views(out@);
    let ghost all = entry_views(s@);
    let mut i: usize = 0;
    assert(start + updates_from(all.take(0), origin) =~= start);
    while i < s.len()
        invariant
            i <= s.len(),
            all == entry_views(s@),
            pkg_views(out@) == start + updates_from(all.take(i as int), origin),
        decreases s.len() - i,
    {
        let e = &s[i];
        assert(all.take(i + 1).drop_last() =~= all.take(i as int));
        assert(all.take(i + 1).last() == e@);
        let wanted = match (&e.repo_update, &e.aur_update) {
            (Some(_), _) => origin == Origin::Repo,
            (None, Some(_)) => origin == Origin::Aur,
            (None, None) => false,
        };
        if wanted {
            let ghost before = pkg_views(out@);
            let p = pkg_exec(e);
            out.push(p);
            assert(pkg_views(out@) =~= before.push(pkg_of(e@)));
            assert(start + updates_from(all.take(i as int), origin).push(pkg_of(e@))
                =~= (start + updates_from(all.take(i as int), origin)).push(pkg_of(e@)));
        }
        i = i + 1;
    }
    assert(all.take(s.len() as int) =~= all);
}

/// Puts the snapshot together from the installed packages and what is known
/// of each.
pub fn classify(entries: Vec<Entry>) -> (r: Snapshot)
    ensures
        pkg_views(r.installed@) == by_name(entry_views(entries@)).map_values(|e: EntryView| pkg_of(e)),
        pkg_views(r.updates@) == updates_from(by_name(entry_views(entries@)), Origin::Repo) + updates_from(
            by_name(entry_views(entries@)),
            Origin::Aur,
        ),
        ignore_views(r.ignored@) == frozen_in(by_name(entry_views(entries@))),
{
    let sorted = sort_entries(entries);
    let ghost all = entry_views(sorted@);
    let mut installed: Vec<Pkg> = Vec::new();
    let mut ignored: Vec<Ignore> = Vec::new();
    let mut i: usize = 0;
    assert(all.take(0) =~= seq![]);
    assert(pkg_views(installed@) =~= seq![]);
    assert(ignore_views(ignored@) =~= seq![]);
    while i < sorted.len()
        invariant
            i <= sorted.len(),
            all == entry_views(sorted@),
            pkg_views(installed@) == all.take(i as int).map_values(|e: EntryView| pkg_of(e)),
            ignore_views(ignored@) == frozen_in(all.take(i as int)),
        decreases sorted.len() - i,
    {
        let e = &sorted[i];
        assert(all.take(i + 1).drop_last() =~= all.take(i as int));
        assert(all.take(i + 1).last() == e@);
        let ghost before = pkg_views(installed@);
        installed.push(pkg_exec(e));
        assert(pkg_views(installed@) =~= before.push(pkg_of(e@)));
        assert(all.take(i + 1).map_values(|e: EntryView| pkg_of(e)) =~= all.take(i as int).map_values(
            |e: EntryView| pkg_of(e),
        ).push(pkg_of(e@)));
        match frozen_exec(e) {
            Some(x) => {
                let ghost fb = ignore_views(ignored@);
                let ghost xv = x@;
                ignored.push(x);
                assert(ignore_views(ignored@) =~= fb.push(xv));
            },
            None => {},
        }
        i = i + 1;
    }
    assert(all.take(sorted.len() as int) =~= all);
    let mut updates: Vec<Pkg> = Vec::new();
    assert(pkg_views(updates@) =~= seq![]);
    push_updates(&mut updates, &sorted, Origin::Repo);
    push_updates(&mut updates, &sorted, Origin::Aur);
    assert(seq![] + updates_from(all, Origin::Repo) =~= updates_from(all, Origin::Repo));
    Snapshot { installed, updates, ignored }
}

pub open spec fn names_sorted(r: Seq<EntryView>) -> bool {
    forall|i: int, j: int|
        0 <= i < j < r.len() ==> !lex_lt(#[trigger] r[j].local.name, #[trigger] r[i].local.name)
}

proof fn lemma_insert_entry(s: Seq<EntryView>, x: EntryView)
    requires
        names_sorted(s),
    ensures
        names_sorted(insert_entry(s, x)),
        insert_entry(s, x).to_multiset() == s.to_multiset().insert(x),
    decreases s.len(),
{
    broadcast use vstd::seq_lib::group_to_multiset_ensures;

    if s.len() == 0 {
        assert(seq![x] =~= Seq::<EntryView>::empty().push(x));
    } else {
        let d = s.drop_last();
        let e = s.last();
        assert(s =~= d.push(e));
        assert(names_sorted(d)) by {
            assert forall|i: int, j: int| 0 <= i < j < d.len() implies !lex_lt(
                #[trigger] d[j].local.name,
                #[trigger] d[i].local.name,
            ) by {
                assert(d[i] == s[i] && d[j] == s[j]);
            }
        }
        if lex_lt(x.local.name, e.local.name) {
            lemma_insert_entry(d, x);
            let m = insert_entry(d, x);
            let r = m.push(e);
            assert forall|k: int| 0 <= k < m.len() implies !lex_lt(e.local.name, #[trigger] m[k].local.name) by {
                assert(m.to_multiset().contains(m[k]));
                assert(d.to_multiset().insert(x).contains(m[k]));
                if m[k] == x {
                    if lex_lt(e.local.name, x.local.name) {
                        lemma_lex_transitive(x.local.name, e.local.name, x.local.name);
                        lemma_lex_irreflexive(x.local.name);
                    }
                } else {
                    assert(d.to_multiset().contains(m[k]));
                    assert(d.contains(m[k]));
                    let i = choose|i: int| 0 <= i < d.len() && d[i] == m[k];
                    assert(s[i] == m[k]);
                    assert(s[s.len() - 1] == e);
                }
            }
            assert forall|i: int, j: int| 0 <= i < j < r.len() implies !lex_lt(
                #[trigger] r[j].local.name,
                #[trigger] r[i].local.name,
            ) by {
                if j == r.len() - 1 {
                    assert(r[j] == e);
                    assert(r[i] == m[i]);
                } else {
                    assert(r[i] == m[i] && r[j] == m[j]);
                }
            }
            assert(m.push(e).to_multiset() =~= m.to_multiset().insert(e));
            assert(s.to_multiset() =~= d.to_multiset().insert(e));
            assert(r.to_multiset() =~= s.to_multiset().insert(x));
        } else {
            let r = s.push(x);
            assert forall|i: int, j: int| 0 <= i < j < r.len() implies !lex_lt(
                #[trigger] r[j].local.name,
                #[trigger] r[i].local.name,
            ) by {
                if j == r.len() - 1 {
                    assert(r[j] == x);
                    assert(r[i] == s[i]);
                    if i < s.len() - 1 {
                        assert(!lex_lt(s[s.len() - 1].local.name, s[i].local.name));
                        if lex_lt(x.local.name, s[i].local.name) {
                            lemma_lex_total(s[i].local.name, e.local.name);
                            if s[i].local.name != e.local.name {
                                lemma_lex_transitive(x.local.name, s[i].local.name, e.local.name);
                            }
                        }
                    }
                } else {
                    assert(r[i] == s[i] && r[j] == s[j]);
                }
            }
        }
    }
}

/// The installed list comes in name order and holds every installed package,
/// each once: sorting loses nothing and invents nothing.
pub proof fn law_installed_in_name_order(s: Seq<EntryView>)
    ensures
        names_sorted(by_name(s)),
        by_name(s).to_multiset() == s.to_multiset(),
    decreases s.len(),
{
    broadcast use vstd::seq_lib::group_to_multiset_ensures;

    if s.len() == 0 {
        assert(by_name(s) =~= s);
    } else {
        law_installed_in_name_order(s.drop_last());
        lemma_insert_entry(by_name(s.drop_last()), s.last());
        assert(s =~= s.drop_last().push(s.last()));
    }
}

} // verus!
