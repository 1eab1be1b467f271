//! Transaction plan.
//!
//! The table paru prints is never re-parsed. Versions and sizes come from
//! alpm, and the exact makeup of the transaction — new dependencies included —
//! from `pacman -Sup --print-format`, which needs no privilege and writes
//! nothing.

use vstd::prelude::*;
use crate::i18n::{Lang, t, translate};
use crate::data::{State, Pkg, PkgView, Origin, Resolved, ResolvedView, pkg_views, resolved_views, SyncEntry};
use crate::journal::DecimalView;
use crate::history::{Rollback, RbView, Source, SourceView, rbs};
use crate::journal::{clamp_i64, sat_add};
use crate::text::{chars_of, string_of, owned, seq_eq, contains, has_str, strs};

verus! {

#[derive(Debug, Clone, Copy, PartialEq, Eq, Structural)]
pub enum Kind {
    /// Already installed, moving to a newer version.
    Upgrade,
    /// Not installed: arrives as a dependency of something being upgraded.
    New,
    /// Back to an earlier version.
    Downgrade,
    /// Removal asked for explicitly.
    Removal,
    /// Removal pulled in by the `-s` cascade: a dependency nothing needs now.
    AutoRemoval,
}

impl Kind {
    pub open spec fn symbol_text(self) -> Seq<char> {
        match self {
            Kind::Upgrade => "↑"@,
            Kind::New => "+"@,
            Kind::Downgrade => "↓"@,
            Kind::Removal => "−"@,
            Kind::AutoRemoval => "⌫"@,
        }
    }

    pub fn symbol(self) -> (r: &'static str)
        ensures
            r@ == self.symbol_text(),
    {
        match self {
            Kind::Upgrade => "↑",
            Kind::New => "+",
            Kind::Downgrade => "↓",
            Kind::Removal => "−",
            Kind::AutoRemoval => "⌫",
        }
    }

    pub open spec fn label_key(self) -> Seq<char> {
        match self {
            Kind::Upgrade => "Updates"@,
            Kind::New => "New packages"@,
            Kind::Downgrade => "Downgrades"@,
            Kind::Removal => "Removals"@,
            Kind::AutoRemoval => "Removed as a cascade"@,
        }
    }

    pub fn label(self, l: Lang) -> (r: String)
        ensures
            r@ == translate(l, self.label_key()),
    {
        t(
            l,
            match self {
                Kind::Upgrade => "Updates",
                Kind::New => "New packages",
                Kind::Downgrade => "Downgrades",
                Kind::Removal => "Removals",
                Kind::AutoRemoval => "Removed as a cascade",
            },
        )
    }

    /// Every kind, in the order they read.
    pub const ALL: [Kind; 5] = [
        Kind::Upgrade,
        Kind::New,
        Kind::Downgrade,
        Kind::Removal,
        Kind::AutoRemoval,
    ];
}

pub struct PlanRow {
    pub name: String,
    pub repo: String,
    pub from_version: String,
    pub to_version: String,
    pub dl: Option<i64>,
    /// Change in disk space. Unknown when the sync database does not yet carry
    /// the target version — the normal case for the AUR, which gets built.
    pub net: Option<i64>,
    pub aur: bool,
    pub kind: Kind,
    /// The offered version is older than the installed one.
    pub is_downgrade: bool,
}

pub struct RowView {
    pub name: Seq<char>,
    pub repo: Seq<char>,
    pub from_version: Seq<char>,
    pub to_version: Seq<char>,
    pub dl: Option<int>,
    pub net: Option<int>,
    pub aur: bool,
    pub kind: Kind,
    pub is_downgrade: bool,
}

pub open spec fn oi(o: Option<i64>) -> Option<int> {
    match o {
        Some(v) => Some(v as int),
        None => None,
    }
}

impl View for PlanRow {
    type V = RowView;

    open spec fn view(&self) -> RowView {
        RowView {
            name: self.name@,
            repo: self.repo@,
            from_version: self.from_version@,
            to_version: self.to_version@,
            dl: oi(self.dl),
            net: oi(self.net),
            aur: self.aur,
            kind: self.kind,
            is_downgrade: self.is_downgrade,
        }
    }
}

pub open spec fn row_views(v: Seq<PlanRow>) -> Seq<RowView> {
    v.map_values(|r: PlanRow| r@)
}

pub struct Plan {
    pub rows: Vec<PlanRow>,
    pub total_dl: i64,
    pub total_installed: i64,
    pub net: i64,
    pub aur_count: usize,
    /// Packages whose size is unknown: the totals are therefore a lower bound.
    pub unknown: usize,
}

#[verifier::ext_equal]
pub struct PlanView {
    pub rows: Seq<RowView>,
    pub total_dl: int,
    pub total_installed: int,
    pub net: int,
    pub aur_count: nat,
    pub unknown: nat,
}

impl View for Plan {
    type V = PlanView;

    open spec fn view(&self) -> PlanView {
        PlanView {
            rows: row_views(self.rows@),
            total_dl: self.total_dl as int,
            total_installed: self.total_installed as int,
            net: self.net as int,
            aur_count: self.aur_count as nat,
            unknown: self.unknown as nat,
        }
    }
}

/// How many rows are of kind `k`.
pub open spec fn count_kind(rows: Seq<RowView>, k: Kind) -> nat
    decreases rows.len(),
{
    if rows.len() == 0 {
        0
    } else {
        count_kind(rows.drop_last(), k) + if rows.last().kind == k {
            1nat
        } else {
            0nat
        }
    }
}

impl Plan {
    pub fn is_empty(&self) -> (r: bool)
        ensures
            r == (self@.rows.len() == 0),
    {
        self.rows.len() == 0
    }

    pub fn count(&self, k: Kind) -> (r: usize)
        ensures
            r == count_kind(self@.rows, k),
    {
        let ghost rv = self@.rows;
        let mut n: usize = 0;
        let mut i: usize = 0;
        assert(rv.take(0) =~= seq![]);
        while i < self.rows.len()
            invariant
                i <= self.rows.len(),
                rv == self@.rows,
                n == count_kind(rv.take(i as int), k),
                n <= i,
            decreases self.rows.len() - i,
        {
            assert(rv.take(i + 1).drop_last() =~= rv.take(i as int));
            assert(rv.take(i + 1).last() == self.rows@[i as int]@);
            if self.rows[i].kind == k {
                n = n + 1;
            }
            i = i + 1;
        }
        assert(rv.take(self.rows.len() as int) =~= rv);
        n
    }

    /// True when at least one package has known sizes. When the whole plan is
    /// AUR, the totals are zero not because there is nothing to do but because
    /// nothing is measurable before building: showing them would be a lie.
    pub fn sizes_known(&self) -> (r: bool)
        ensures
            r == (self@.unknown < self@.rows.len()),
    {
        self.unknown < self.rows.len()
    }
}

// ---------------------------------------------------------------------------
// The upgrade command
// ---------------------------------------------------------------------------

/// The available updates that are not checked.
pub open spec fn left_out(available: Seq<Seq<char>>, targets: Seq<Seq<char>>) -> Seq<Seq<char>>
    decreases available.len(),
{
    if available.len() == 0 {
        seq![]
    } else if targets.contains(available.last()) {
        left_out(available.drop_last(), targets)
    } else {
        left_out(available.drop_last(), targets).push(available.last())
    }
}

/// `--ignore` and the name, for each name.
pub open spec fn ignore_flags(names: Seq<Seq<char>>) -> Seq<Seq<char>>
    decreases names.len(),
{
    if names.len() == 0 {
        seq![]
    } else {
        ignore_flags(names.drop_last()) + seq!["--ignore"@, names.last()]
    }
}

/// The upgrade command for a selection.
///
/// `paru -Syu <package>` does not upgrade that package alone: `-u` asks for a
/// full system upgrade and the named package is merely one more target. The
/// only way to narrow it down is to exclude the others with `--ignore`, which
/// paru applies to AUR packages as well. With no AUR package the transaction
/// is fully known from the summary, so paru is not made to ask again; with
/// one, paru keeps its questions — reading the PKGBUILD, picking a provider —
/// which nalarch cannot answer on the user's behalf.
pub open spec fn upgrade_command_spec(available: Seq<Seq<char>>, targets: Seq<Seq<char>>, aur: bool) -> Seq<Seq<char>> {
    seq!["paru"@, "-Syu"@] + ignore_flags(left_out(available, targets)) + if aur {
        seq![]
    } else {
        seq!["--noconfirm"@]
    }
}

/// `s` is among `v`.
pub(crate) fn among(v: &[String], s: &str) -> (r: bool)
    ensures
        r == strs(v@).contains(s@),
{
    let mut i: usize = 0;
    while i < v.len()
        invariant
            i <= v.len(),
            forall|k: int| 0 <= k < i ==> strs(v@)[k] != s@,
        decreases v.len() - i,
    {
        if crate::text::str_eq(v[i].as_str(), s) {
            assert(strs(v@)[i as int] == s@);
            return true;
        }
        i = i + 1;
    }
    false
}

fn push_lit(v: &mut Vec<String>, s: &str)
    ensures
        strs(final(v)@) == strs(old(v)@).push(s@),
{
    let ghost before = strs(v@);
    v.push(owned(s));
    assert(strs(v@) =~= before.push(s@));
}

/// Packages left out of an upgrade, derived from what is checked.
pub fn exclusions(available: &[String], targets: &[String]) -> (r: Vec<String>)
    ensures
        strs(r@) == left_out(strs(available@), strs(targets@)),
{
    let ghost av = strs(available@);
    let mut r: Vec<String> = Vec::new();
    let mut i: usize = 0;
    assert(av.take(0) =~= seq![]);
    assert(strs(r@) =~= seq![]);
    while i < available.len()
        invariant
            i <= available.len(),
            av == strs(available@),
            strs(r@) == left_out(av.take(i as int), strs(targets@)),
        decreases available.len() - i,
    {
        assert(av.take(i + 1).drop_last() =~= av.take(i as int));
        assert(av.take(i + 1).last() == available@[i as int]@);
        if !among(targets, available[i].as_str()) {
            push_lit(&mut r, available[i].as_str());
        }
        i = i + 1;
    }
    assert(av.take(available.len() as int) =~= av);
    r
}

pub fn upgrade_command(available: &[String], targets: &[String], aur: bool) -> (r: Vec<String>)
    ensures
        strs(r@) == upgrade_command_spec(strs(available@), strs(targets@), aur),
{
    let mut cmd: Vec<String> = Vec::new();
    push_lit(&mut cmd, "paru");
    push_lit(&mut cmd, "-Syu");
    let ghost head = strs(cmd@);
    let out = exclusions(available, targets);
    let ghost ov = strs(out@);
    let mut i: usize = 0;
    assert(ov.take(0) =~= seq![]);
    assert(strs(cmd@) =~= head + ignore_flags(ov.take(0)));
    while i < out.len()
        invariant
            i <= out.len(),
            ov == strs(out@),
            strs(cmd@) == head + ignore_flags(ov.take(i as int)),
        decreases out.len() - i,
    {
        push_lit(&mut cmd, "--ignore");
        push_lit(&mut cmd, out[i].as_str());
        assert(ov.take(i + 1).drop_last() =~= ov.take(i as int));
        assert(ov.take(i + 1).last() == out@[i as int]@);
        assert(strs(cmd@) =~= head + ignore_flags(ov.take(i + 1)));
        i = i + 1;
    }
    assert(ov.take(out.len() as int) =~= ov);
    if !aur {
        push_lit(&mut cmd, "--noconfirm");
    }
    assert(head =~= seq!["paru"@, "-Syu"@]);
    cmd
}

// ---------------------------------------------------------------------------
// Totals
// ---------------------------------------------------------------------------

/// The download sizes added up, each sum saturating at the range of `i64`.
pub open spec fn dl_total(rows: Seq<RowView>) -> int
    decreases rows.len(),
{
    if rows.len() == 0 {
        0
    } else {
        sat_add(
            dl_total(rows.drop_last()),
            match rows.last().dl {
                Some(v) => v,
                None => 0,
            },
        )
    }
}

pub open spec fn net_total(rows: Seq<RowView>) -> int
    decreases rows.len(),
{
    if rows.len() == 0 {
        0
    } else {
        sat_add(
            net_total(rows.drop_last()),
            match rows.last().net {
                Some(v) => v,
                None => 0,
            },
        )
    }
}

pub open spec fn aur_rows(rows: Seq<RowView>) -> nat
    decreases rows.len(),
{
    if rows.len() == 0 {
        0
    } else {
        aur_rows(rows.drop_last()) + if rows.last().aur {
            1nat
        } else {
            0nat
        }
    }
}

pub open spec fn unknown_rows(rows: Seq<RowView>) -> nat
    decreases rows.len(),
{
    if rows.len() == 0 {
        0
    } else {
        unknown_rows(rows.drop_last()) + if rows.last().net is None {
            1nat
        } else {
            0nat
        }
    }
}

/// The plan of these rows, its totals computed from them.
pub open spec fn totals(rows: Seq<RowView>, installed: int) -> PlanView {
    PlanView {
        rows,
        total_dl: dl_total(rows),
        total_installed: installed,
        net: net_total(rows),
        aur_count: aur_rows(rows),
        unknown: unknown_rows(rows),
    }
}

pub(crate) fn sat_add_i64(a: i64, b: i64) -> (r: i64)
    ensures
        r == sat_add(a as int, b as int),
{
    match a.checked_add(b) {
        Some(v) => v,
        None => if b > 0 {
            i64::MAX
        } else {
            i64::MIN
        },
    }
}

fn with_totals(rows: Vec<PlanRow>, installed: i64) -> (p: Plan)
    ensures
        p@ == totals(row_views(rows@), installed as int),
{
    let ghost rv = row_views(rows@);
    let mut dl: i64 = 0;
    let mut net: i64 = 0;
    let mut aur: usize = 0;
    let mut unknown: usize = 0;
    let mut i: usize = 0;
    assert(rv.take(0) =~= seq![]);
    while i < rows.len()
        invariant
            i <= rows.len(),
            rv == row_views(rows@),
            dl == dl_total(rv.take(i as int)),
            net == net_total(rv.take(i as int)),
            aur == aur_rows(rv.take(i as int)),
            unknown == unknown_rows(rv.take(i as int)),
            aur <= i,
            unknown <= i,
        decreases rows.len() - i,
    {
        assert(rv.take(i + 1).drop_last() =~= rv.take(i as int));
        assert(rv.take(i + 1).last() == rows@[i as int]@);
        let r = &rows[i];
        dl = sat_add_i64(
            dl,
            match r.dl {
                Some(v) => v,
                None => 0,
            },
        );
        net = sat_add_i64(
            net,
            match r.net {
                Some(v) => v,
                None => 0,
            },
        );
        if r.aur {
            aur = aur + 1;
        }
        if r.net.is_none() {
            unknown = unknown + 1;
        }
        i = i + 1;
    }
    assert(rv.take(rows.len() as int) =~= rv);
    Plan { rows, total_dl: dl, total_installed: installed, net, aur_count: aur, unknown }
}

/// A plan with no per-package detail, for actions that have none (cache).
pub fn empty() -> (p: Plan)
    ensures
        p@ == totals(seq![], 0),
{
    let p = Plan {
        rows: Vec::new(),
        total_dl: 0,
        total_installed: 0,
        net: 0,
        aur_count: 0,
        unknown: 0,
    };
    assert(p@.rows =~= seq![]);
    p
}

// ---------------------------------------------------------------------------
// A rollback as a plan
// ---------------------------------------------------------------------------

pub open spec fn or_dash(o: Option<Seq<char>>) -> Seq<char> {
    match o {
        Some(v) => v,
        None => "—"@,
    }
}

/// The row of one rollback step; none for a version no cache holds.
///
/// Sizes stay unknown: the packages come from local caches, there is nothing
/// to download, and the space used afterwards cannot be read without opening
/// every archive. Where the file comes from is decided before translating it,
/// so the flag does not depend on the interface language.
pub open spec fn rollback_row(l: Lang, r: RbView) -> Option<RowView> {
    match r.source {
        SourceView::Missing => None,
        SourceView::Remove => Some(
            RowView {
                name: r.name,
                repo: translate(l, "installed"@),
                from_version: or_dash(r.current),
                to_version: or_dash(r.target),
                dl: None,
                net: None,
                aur: false,
                kind: Kind::Removal,
                is_downgrade: false,
            },
        ),
        SourceView::File(p) => {
            let from_paru = contains(p, "/.cache/paru/"@);
            let kind = if r.current is None {
                Kind::New
            } else {
                Kind::Downgrade
            };
            Some(
                RowView {
                    name: r.name,
                    repo: if from_paru {
                        translate(l, "paru cache"@)
                    } else {
                        translate(l, "cache"@)
                    },
                    from_version: or_dash(r.current),
                    to_version: or_dash(r.target),
                    dl: None,
                    net: None,
                    aur: from_paru,
                    kind,
                    is_downgrade: kind == Kind::Downgrade,
                },
            )
        },
    }
}

pub open spec fn rollback_rows(l: Lang, rs: Seq<RbView>) -> Seq<RowView>
    decreases rs.len(),
{
    if rs.len() == 0 {
        seq![]
    } else {
        match rollback_row(l, rs.last()) {
            Some(row) => rollback_rows(l, rs.drop_last()).push(row),
            None => rollback_rows(l, rs.drop_last()),
        }
    }
}

fn or_dash_exec(o: &Option<String>) -> (r: String)
    ensures
        r@ == or_dash(match o {
            Some(v) => Some(v@),
            None => None,
        }),
{
    match o {
        Some(v) => v.clone(),
        None => owned("—"),
    }
}

/// A rollback plan built from a transaction in the log.
pub fn from_rollback(l: Lang, rollbacks: &[Rollback]) -> (p: Plan)
    ensures
        p@ == totals(rollback_rows(l, rbs(rollbacks@)), 0),
{
    let ghost rv = rbs(rollbacks@);
    let mut rows: Vec<PlanRow> = Vec::new();
    let mut i: usize = 0;
    assert(rv.take(0) =~= seq![]);
    assert(row_views(rows@) =~= seq![]);
    while i < rollbacks.len()
        invariant
            i <= rollbacks.len(),
            rv == rbs(rollbacks@),
            row_views(rows@) == rollback_rows(l, rv.take(i as int)),
        decreases rollbacks.len() - i,
    {
        assert(rv.take(i + 1).drop_last() =~= rv.take(i as int));
        assert(rv.take(i + 1).last() == rollbacks@[i as int]@);
        let r = &rollbacks[i];
        let ghost before = row_views(rows@);
        match &r.source {
            Source::Missing => {},
            Source::Remove => {
                let row = PlanRow {
                    name: r.name.clone(),
                    repo: t(l, "installed"),
                    from_version: or_dash_exec(&r.current),
                    to_version: or_dash_exec(&r.target),
                    dl: None,
                    net: None,
                    aur: false,
                    kind: Kind::Removal,
                    is_downgrade: false,
                };
                rows.push(row);
                assert(row_views(rows@) =~= before.push(rollback_row(l, r@).unwrap()));
            },
            Source::File(p) => {
                let from_paru = has_str(chars_of(p.as_str()).as_slice(), "/.cache/paru/");
                let kind = if r.current.is_none() {
                    Kind::New
                } else {
                    Kind::Downgrade
                };
                let repo = if from_paru {
                    t(l, "paru cache")
                } else {
                    t(l, "cache")
                };
                let row = PlanRow {
                    name: r.name.clone(),
                    repo,
                    from_version: or_dash_exec(&r.current),
                    to_version: or_dash_exec(&r.target),
                    dl: None,
                    net: None,
                    aur: from_paru,
                    kind,
                    is_downgrade: kind == Kind::Downgrade,
                };
                rows.push(row);
                assert(row_views(rows@) =~= before.push(rollback_row(l, r@).unwrap()));
            },
        }
        i = i + 1;
    }
    assert(rv.take(rollbacks.len() as int) =~= rv);
    with_totals(rows, 0)
}

// ---------------------------------------------------------------------------
// Removals and quick estimates
// ---------------------------------------------------------------------------

/// The first package of that name.
pub open spec fn first_named(ps: Seq<PkgView>, name: Seq<char>) -> Option<PkgView>
    decreases ps.len(),
{
    if ps.len() == 0 {
        None
    } else if ps[0].name == name {
        Some(ps[0])
    } else {
        first_named(ps.drop_first(), name)
    }
}

pub(crate) fn find_pkg(ps: &Vec<Pkg>, name: &str) -> (r: Option<usize>)
    ensures
        match r {
            Some(i) => i < ps@.len() && first_named(pkg_views(ps@), name@) == Some(ps@[i as int]@),
            None => first_named(pkg_views(ps@), name@) is None,
        },
{
    let ghost pv = pkg_views(ps@);
    let mut i: usize = 0;
    assert(pv.skip(0) =~= pv);
    while i < ps.len()
        invariant
            i <= ps.len(),
            pv == pkg_views(ps@),
            first_named(pv, name@) == first_named(pv.skip(i as int), name@),
        decreases ps.len() - i,
    {
        let ghost rest = pv.skip(i as int);
        assert(rest[0] == ps@[i as int]@);
        assert(rest.drop_first() =~= pv.skip(i + 1));
        if crate::text::str_eq(ps[i].name.as_str(), name) {
            return Some(i);
        }
        i = i + 1;
    }
    assert(pv.skip(ps.len() as int) =~= seq![]);
    None
}

/// What a removal lists: the cascade pacman announced when it announced one,
/// the names asked for otherwise. The cascade is authoritative: `-s` takes
/// along dependencies nothing needs any more, often the bulk of the operation.
pub open spec fn removal_names(names: Seq<Seq<char>>, cascade: Seq<ResolvedView>) -> Seq<Seq<char>> {
    if cascade.len() == 0 {
        names
    } else {
        cascade.map_values(|r: ResolvedView| r.name)
    }
}

/// The space a removal hands back, as a negative change.
pub open spec fn freed(size: int) -> int {
    clamp_i64(-size)
}

pub open spec fn removal_row(names: Seq<Seq<char>>, p: PkgView) -> RowView {
    RowView {
        name: p.name,
        repo: p.repo,
        from_version: p.version,
        to_version: seq![],
        dl: None,
        net: Some(freed(p.installed_size)),
        aur: p.origin == Origin::Aur,
        kind: if names.contains(p.name) {
            Kind::Removal
        } else {
            Kind::AutoRemoval
        },
        is_downgrade: false,
    }
}

pub open spec fn removal_rows(installed: Seq<PkgView>, names: Seq<Seq<char>>, src: Seq<Seq<char>>) -> Seq<RowView>
    decreases src.len(),
{
    if src.len() == 0 {
        seq![]
    } else {
        match first_named(installed, src.last()) {
            Some(p) => removal_rows(installed, names, src.drop_last()).push(removal_row(names, p)),
            None => removal_rows(installed, names, src.drop_last()),
        }
    }
}

fn freed_exec(size: i64) -> (r: i64)
    ensures
        r == freed(size as int),
{
    if size == i64::MIN {
        i64::MAX
    } else {
        -size
    }
}

fn names_of(cascade: &[Resolved]) -> (r: Vec<String>)
    ensures
        strs(r@) == resolved_views(cascade@).map_values(|x: ResolvedView| x.name),
{
    let mut r: Vec<String> = Vec::new();
    let mut i: usize = 0;
    while i < cascade.len()
        invariant
            i <= cascade.len(),
            strs(r@) == resolved_views(cascade@).map_values(|x: ResolvedView| x.name).take(i as int),
        decreases cascade.len() - i,
    {
        push_lit(&mut r, cascade[i].name.as_str());
        assert(strs(r@) =~= resolved_views(cascade@).map_values(|x: ResolvedView| x.name).take(i + 1));
        i = i + 1;
    }
    assert(resolved_views(cascade@).map_values(|x: ResolvedView| x.name).take(cascade.len() as int)
        =~= resolved_views(cascade@).map_values(|x: ResolvedView| x.name));
    r
}

pub(crate) fn copy_strings(v: &[String]) -> (r: Vec<String>)
    ensures
        strs(r@) == strs(v@),
{
    let mut r: Vec<String> = Vec::new();
    let mut i: usize = 0;
    while i < v.len()
        invariant
            i <= v.len(),
            strs(r@) == strs(v@).take(i as int),
        decreases v.len() - i,
    {
        push_lit(&mut r, v[i].as_str());
        assert(strs(r@) =~= strs(v@).take(i + 1));
        i = i + 1;
    }
    assert(strs(v@).take(v.len() as int) =~= strs(v@));
    r
}

/// Plan of a removal: nothing to download, and "net" is the space handed back
/// to the disk, therefore negative. `cascade` is what the removal dry run
/// announced.
pub fn removal_plan(state: &State, names: &[String], cascade: &[Resolved]) -> (p: Plan)
    ensures
        p@ == totals(
            removal_rows(
                pkg_views(state.installed@),
                strs(names@),
                removal_names(strs(names@), resolved_views(cascade@)),
            ),
            0,
        ),
{
    let source = if cascade.len() == 0 {
        copy_strings(names)
    } else {
        names_of(cascade)
    };
    let ghost sv = strs(source@);
    let ghost inst = pkg_views(state.installed@);
    let ghost nv = strs(names@);
    let mut rows: Vec<PlanRow> = Vec::new();
    let mut i: usize = 0;
    assert(sv.take(0) =~= seq![]);
    assert(row_views(rows@) =~= seq![]);
    while i < source.len()
        invariant
            i <= source.len(),
            sv == strs(source@),
            inst == pkg_views(state.installed@),
            nv == strs(names@),
            row_views(rows@) == removal_rows(inst, nv, sv.take(i as int)),
        decreases source.len() - i,
    {
        assert(sv.take(i + 1).drop_last() =~= sv.take(i as int));
        assert(sv.take(i + 1).last() == source@[i as int]@);
        if let Some(k) = find_pkg(&state.installed, source[i].as_str()) {
            let p = &state.installed[k];
            let row = PlanRow {
                name: p.name.clone(),
                repo: p.repo.clone(),
                from_version: p.version.clone(),
                to_version: String::new(),
                dl: None,
                net: Some(freed_exec(p.installed_size)),
                aur: p.origin == Origin::Aur,
                kind: if among(names, p.name.as_str()) {
                    Kind::Removal
                } else {
                    Kind::AutoRemoval
                },
                is_downgrade: false,
            };
            let ghost before = row_views(rows@);
            rows.push(row);
            assert(row_views(rows@) =~= before.push(removal_row(nv, p@)));
        }
        i = i + 1;
    }
    assert(sv.take(source.len() as int) =~= sv);
    with_totals(rows, 0)
}

pub open spec fn or_empty(o: Option<Seq<char>>) -> Seq<char> {
    match o {
        Some(v) => v,
        None => seq![],
    }
}

/// The change in disk space from the installed size to the target's.
pub open spec fn growth(target: Option<int>, installed: int) -> Option<int> {
    match target {
        Some(c) => Some(clamp_i64(c - installed)),
        None => None,
    }
}

pub open spec fn quick_row(p: PkgView) -> RowView {
    RowView {
        name: p.name,
        repo: p.repo,
        from_version: p.version,
        to_version: or_empty(p.target_version),
        dl: p.download_size,
        net: growth(p.target_size, p.installed_size),
        aur: p.origin == Origin::Aur,
        kind: Kind::Upgrade,
        is_downgrade: false,
    }
}

pub open spec fn quick_rows(updates: Seq<PkgView>, names: Seq<Seq<char>>) -> Seq<RowView>
    decreases names.len(),
{
    if names.len() == 0 {
        seq![]
    } else {
        match first_named(updates, names.last()) {
            Some(p) => quick_rows(updates, names.drop_last()).push(quick_row(p)),
            None => quick_rows(updates, names.drop_last()),
        }
    }
}

fn sub_sat(a: i64, b: i64) -> (r: i64)
    ensures
        r == clamp_i64(a - b),
{
    match a.checked_sub(b) {
        Some(v) => v,
        None => if b > 0 {
            i64::MIN
        } else {
            i64::MAX
        },
    }
}

fn copy_opt(o: &Option<String>) -> (r: String)
    ensures
        r@ == or_empty(match o {
            Some(v) => Some(v@),
            None => None,
        }),
{
    match o {
        Some(v) => v.clone(),
        None => String::new(),
    }
}

/// Immediate estimate, without a subprocess: it only knows the packages
/// already listed, not the new dependencies. It feeds a status line redrawn on
/// every keystroke, where a full resolution would restart pacman continuously.
pub fn quick_plan(state: &State, names: &[String]) -> (p: Plan)
    ensures
        p@ == totals(quick_rows(pkg_views(state.updates@), strs(names@)), 0),
{
    let ghost nv = strs(names@);
    let ghost up = pkg_views(state.updates@);
    let mut rows: Vec<PlanRow> = Vec::new();
    let mut i: usize = 0;
    assert(nv.take(0) =~= seq![]);
    assert(row_views(rows@) =~= seq![]);
    while i < names.len()
        invariant
            i <= names.len(),
            nv == strs(names@),
            up == pkg_views(state.updates@),
            row_views(rows@) == quick_rows(up, nv.take(i as int)),
        decreases names.len() - i,
    {
        assert(nv.take(i + 1).drop_last() =~= nv.take(i as int));
        assert(nv.take(i + 1).last() == names@[i as int]@);
        if let Some(k) = find_pkg(&state.updates, names[i].as_str()) {
            let p = &state.updates[k];
            let row = PlanRow {
                name: p.name.clone(),
                repo: p.repo.clone(),
                from_version: p.version.clone(),
                to_version: copy_opt(&p.target_version),
                dl: p.download_size,
                net: match p.target_size {
                    Some(c) => Some(sub_sat(c, p.installed_size)),
                    None => None,
                },
                aur: p.origin == Origin::Aur,
                kind: Kind::Upgrade,
                is_downgrade: false,
            };
            let ghost before = row_views(rows@);
            rows.push(row);
            assert(row_views(rows@) =~= before.push(quick_row(p@)));
        }
        i = i + 1;
    }
    assert(nv.take(names.len() as int) =~= nv);
    with_totals(rows, 0)
}

// ---------------------------------------------------------------------------
// Ordering rows
// ---------------------------------------------------------------------------

/// `a` sorts before `b`: code point by code point, a prefix first, as
/// `String`'s order compares.
pub open spec fn lex_lt(a: Seq<char>, b: Seq<char>) -> bool
    decreases a.len(),
{
    if a.len() == 0 {
        b.len() > 0
    } else if b.len() == 0 {
        false
    } else if a[0] != b[0] {
        a[0] < b[0]
    } else {
        lex_lt(a.drop_first(), b.drop_first())
    }
}

pub(crate) fn text_lt(a: &str, b: &str) -> (r: bool)
    ensures
        r == lex_lt(a@, b@),
{
    let x = chars_of(a);
    let y = chars_of(b);
    let mut i: usize = 0;
    assert(x@.skip(0) =~= x@);
    assert(y@.skip(0) =~= y@);
    while i < x.len() && i < y.len() && x[i] == y[i]
        invariant
            i <= x.len(),
            i <= y.len(),
            x@ == a@,
            y@ == b@,
            lex_lt(a@, b@) == lex_lt(x@.skip(i as int), y@.skip(i as int)),
        decreases x.len() - i,
    {
        assert(x@.skip(i as int)[0] == x@[i as int]);
        assert(y@.skip(i as int)[0] == y@[i as int]);
        assert(x@.skip(i as int).drop_first() =~= x@.skip(i + 1));
        assert(y@.skip(i as int).drop_first() =~= y@.skip(i + 1));
        i = i + 1;
    }
    if i == x.len() {
        return i < y.len();
    }
    if i == y.len() {
        return false;
    }
    assert(x@.skip(i as int)[0] == x@[i as int]);
    assert(y@.skip(i as int)[0] == y@[i as int]);
    x[i] < y[i]
}

/// Updates first, new packages next, AUR last, each by name: the order a plan
/// reads in, the AUR being what deserves the most attention.
pub open spec fn row_lt(a: RowView, b: RowView) -> bool {
    let an = a.kind == Kind::New;
    let bn = b.kind == Kind::New;
    if a.aur != b.aur {
        !a.aur
    } else if an != bn {
        !an
    } else {
        lex_lt(a.name, b.name)
    }
}

/// `x` placed after every row of the sorted `s` that does not sort after it.
pub open spec fn insert_row(s: Seq<RowView>, x: RowView) -> Seq<RowView>
    decreases s.len(),
{
    if s.len() == 0 {
        seq![x]
    } else if row_lt(x, s.last()) {
        insert_row(s.drop_last(), x).push(s.last())
    } else {
        s.push(x)
    }
}

/// The rows in that order; rows that compare equal keep their order.
pub open spec fn sort_rows_spec(s: Seq<RowView>) -> Seq<RowView>
    decreases s.len(),
{
    if s.len() == 0 {
        seq![]
    } else {
        insert_row(sort_rows_spec(s.drop_last()), s.last())
    }
}

proof fn lemma_insert_at(s: Seq<RowView>, x: RowView, k: int)
    requires
        0 <= k <= s.len(),
        forall|j: int| k <= j < s.len() ==> row_lt(x, #[trigger] s[j]),
        k == 0 || !row_lt(x, s[k - 1]),
    ensures
        insert_row(s, x) == s.insert(k, x),
    decreases s.len() - k,
{
    if s.len() == 0 {
        assert(s.insert(k, x) =~= seq![x]);
    } else if k == s.len() {
        assert(s.insert(k, x) =~= s.push(x));
    } else {
        assert(row_lt(x, s[s.len() - 1]));
        assert(s.last() == s[s.len() - 1]);
        let d = s.drop_last();
        assert forall|j: int| k <= j < d.len() implies row_lt(x, #[trigger] d[j]) by {
            assert(d[j] == s[j]);
        }
        if k > 0 {
            assert(d[k - 1] == s[k - 1]);
        }
        lemma_insert_at(d, x, k);
        assert(d.insert(k, x).push(s.last()) =~= s.insert(k, x));
    }
}

fn row_lt_exec(a: &PlanRow, b: &PlanRow) -> (r: bool)
    ensures
        r == row_lt(a@, b@),
{
    let an = a.kind == Kind::New;
    let bn = b.kind == Kind::New;
    if a.aur != b.aur {
        !a.aur
    } else if an != bn {
        !an
    } else {
        text_lt(a.name.as_str(), b.name.as_str())
    }
}

fn sort_rows(rows: Vec<PlanRow>) -> (r: Vec<PlanRow>)
    ensures
        row_views(r@) == sort_rows_spec(row_views(rows@)),
{
    let ghost all = row_views(rows@);
    let mut rest = rows;
    let mut out: Vec<PlanRow> = Vec::new();
    assert(all.take(0) =~= seq![]);
    assert(row_views(out@) =~= seq![]);
    assert(all.skip(0) =~= all);
    while rest.len() > 0
        invariant
            all.len() == row_views(out@).len() + rest.len(),
            row_views(rest@) == all.skip(all.len() - rest.len()),
            row_views(out@) == sort_rows_spec(all.take(all.len() - rest.len())),
        decreases rest.len(),
    {
        let ghost done = all.len() - rest.len();
        let ghost old_rest = rest@;
        let x = rest.remove(0);
        assert(all[done] == x@) by {
            assert(all.skip(done)[0] == all[done]);
            assert(row_views(old_rest)[0] == old_rest[0]@);
        }
        assert(rest@ =~= old_rest.subrange(1, old_rest.len() as int));
        assert forall|j: int| 0 <= j < rest@.len() implies row_views(rest@)[j] == all.skip(done + 1)[j] by {
            assert(rest@[j] == old_rest[j + 1]);
            assert(row_views(old_rest)[j + 1] == all.skip(done)[j + 1]);
        }
        assert(row_views(rest@) =~= all.skip(done + 1));
        let ghost s = row_views(out@);
        let mut k: usize = out.len();
        while k > 0 && row_lt_exec(&x, &out[k - 1])
            invariant
                k <= out.len(),
                s == row_views(out@),
                forall|j: int| k <= j < s.len() ==> row_lt(x@, #[trigger] s[j]),
            decreases k,
        {
            k = k - 1;
        }
        proof {
            lemma_insert_at(s, x@, k as int);
        }
        out.insert(k, x);
        assert(row_views(out@) =~= s.insert(k as int, x@));
        assert(all.take(done + 1).drop_last() =~= all.take(done));
        assert(all.take(done + 1).last() == x@);
    }
    assert(all.take(all.len() as int) =~= all);
    out
}

// ---------------------------------------------------------------------------
// The full plan of an upgrade
// ---------------------------------------------------------------------------

pub struct SyncView {
    pub name: Seq<char>,
    pub version: Seq<char>,
    pub download_size: int,
    pub installed_size: int,
}

pub open spec fn sync_views(v: Seq<SyncEntry>) -> Seq<SyncView> {
    v.map_values(
        |e: SyncEntry|
            SyncView {
                name: e.name@,
                version: e.version@,
                download_size: e.download_size as int,
                installed_size: e.installed_size as int,
            },
    )
}

/// What the first sync database that knows the name offers.
pub open spec fn first_sync(es: Seq<SyncView>, name: Seq<char>) -> Option<SyncView>
    decreases es.len(),
{
    if es.len() == 0 {
        None
    } else if es[0].name == name {
        Some(es[0])
    } else {
        first_sync(es.drop_first(), name)
    }
}

/// The sync entry of a resolved package, when it carries the very version
/// the transaction brings: only then do its sizes hold.
pub open spec fn target_sync(es: Seq<SyncView>, r: ResolvedView) -> Option<SyncView> {
    match first_sync(es, r.name) {
        Some(e) => if e.version == r.version {
            Some(e)
        } else {
            None
        },
        None => None,
    }
}

/// The row of one package pacman resolved. `backwards` says the resolved
/// version is older than the installed one (alpm's `vercmp`).
pub open spec fn resolved_row(installed: Seq<PkgView>, es: Seq<SyncView>, r: ResolvedView, backwards: bool) -> RowView {
    let inst = first_named(installed, r.name);
    let ts = target_sync(es, r);
    RowView {
        name: r.name,
        repo: r.repo,
        from_version: match inst {
            Some(p) => p.version,
            None => seq![],
        },
        to_version: r.version,
        dl: match ts {
            Some(e) => Some(e.download_size),
            None => None,
        },
        net: match ts {
            Some(e) => growth(
                Some(e.installed_size),
                match inst {
                    Some(p) => p.installed_size,
                    None => 0,
                },
            ),
            None => None,
        },
        aur: false,
        kind: match inst {
            Some(_) => if backwards {
                Kind::Downgrade
            } else {
                Kind::Upgrade
            },
            None => Kind::New,
        },
        is_downgrade: inst is Some && backwards,
    }
}

pub open spec fn resolved_rows(installed: Seq<PkgView>, es: Seq<SyncView>, rs: Seq<ResolvedView>, back: Seq<bool>) -> Seq<RowView>
    decreases rs.len(),
{
    if rs.len() == 0 {
        seq![]
    } else {
        resolved_rows(installed, es, rs.drop_last(), back.drop_last()).push(
            resolved_row(installed, es, rs.last(), back.last()),
        )
    }
}

/// The installed size of everything the transaction brings, as far as known.
pub open spec fn installed_total(es: Seq<SyncView>, rs: Seq<ResolvedView>) -> int
    decreases rs.len(),
{
    if rs.len() == 0 {
        0
    } else {
        sat_add(
            installed_total(es, rs.drop_last()),
            match target_sync(es, rs.last()) {
                Some(e) => e.installed_size,
                None => 0,
            },
        )
    }
}

/// The first AUR update of that name.
pub open spec fn first_aur(ps: Seq<PkgView>, name: Seq<char>) -> Option<PkgView>
    decreases ps.len(),
{
    if ps.len() == 0 {
        None
    } else if ps[0].name == name && ps[0].origin == Origin::Aur {
        Some(ps[0])
    } else {
        first_aur(ps.drop_first(), name)
    }
}

/// pacman ignores the AUR: those targets come from paru, with no size known
/// before building.
pub open spec fn aur_row(p: PkgView) -> RowView {
    RowView {
        name: p.name,
        repo: p.repo,
        from_version: p.version,
        to_version: or_empty(p.target_version),
        dl: None,
        net: None,
        aur: true,
        kind: Kind::Upgrade,
        is_downgrade: false,
    }
}

pub open spec fn aur_target_rows(updates: Seq<PkgView>, targets: Seq<Seq<char>>) -> Seq<RowView>
    decreases targets.len(),
{
    if targets.len() == 0 {
        seq![]
    } else {
        match first_aur(updates, targets.last()) {
            Some(p) => aur_target_rows(updates, targets.drop_last()).push(aur_row(p)),
            None => aur_target_rows(updates, targets.drop_last()),
        }
    }
}

/// The full plan of an upgrade, as pacman would resolve it: unlike the quick
/// estimate, it surfaces the packages nobody asked for that arrive as
/// dependencies.
pub open spec fn build_spec(state_installed: Seq<PkgView>, state_updates: Seq<PkgView>, es: Seq<SyncView>, rs: Seq<ResolvedView>, back: Seq<bool>, targets: Seq<Seq<char>>) -> PlanView {
    totals(
        sort_rows_spec(
            resolved_rows(state_installed, es, rs, back) + aur_target_rows(state_updates, targets),
        ),
        installed_total(es, rs),
    )
}

fn find_sync(es: &Vec<SyncEntry>, name: &str) -> (r: Option<usize>)
    ensures
        match r {
            Some(i) => i < es@.len() && first_sync(sync_views(es@), name@) == Some(sync_views(es@)[i as int]),
            None => first_sync(sync_views(es@), name@) is None,
        },
{
    let ghost ev = sync_views(es@);
    let mut i: usize = 0;
    assert(ev.skip(0) =~= ev);
    while i < es.len()
        invariant
            i <= es.len(),
            ev == sync_views(es@),
            first_sync(ev, name@) == first_sync(ev.skip(i as int), name@),
        decreases es.len() - i,
    {
        let ghost rest = ev.skip(i as int);
        assert(rest[0] == ev[i as int]);
        assert(rest.drop_first() =~= ev.skip(i + 1));
        if crate::text::str_eq(es[i].name.as_str(), name) {
            return Some(i);
        }
        i = i + 1;
    }
    assert(ev.skip(es.len() as int) =~= seq![]);
    None
}

fn find_aur(ps: &Vec<Pkg>, name: &str) -> (r: Option<usize>)
    ensures
        match r {
            Some(i) => i < ps@.len() && first_aur(pkg_views(ps@), name@) == Some(ps@[i as int]@),
            None => first_aur(pkg_views(ps@), name@) is None,
        },
{
    let ghost pv = pkg_views(ps@);
    let mut i: usize = 0;
    assert(pv.skip(0) =~= pv);
    while i < ps.len()
        invariant
            i <= ps.len(),
            pv == pkg_views(ps@),
            first_aur(pv, name@) == first_aur(pv.skip(i as int), name@),
        decreases ps.len() - i,
    {
        let ghost rest = pv.skip(i as int);
        assert(rest[0] == ps@[i as int]@);
        assert(rest.drop_first() =~= pv.skip(i + 1));
        if crate::text::str_eq(ps[i].name.as_str(), name) && ps[i].origin == Origin::Aur {
            return Some(i);
        }
        i = i + 1;
    }
    assert(pv.skip(ps.len() as int) =~= seq![]);
    None
}

/// Full plan of an upgrade. `resolved` is the transaction pacman announced
/// for the selection, `backwards[i]` whether its `i`-th package goes back to
/// an older version than the installed one, and `targets` the checked names.
pub fn build(state: &State, resolved: &[Resolved], backwards: &[bool], targets: &[String]) -> (p: Plan)
    requires
        backwards.len() == resolved.len(),
    ensures
        p@ == build_spec(
            pkg_views(state.installed@),
            pkg_views(state.updates@),
            sync_views(state.sync@),
            resolved_views(resolved@),
            backwards@,
            strs(targets@),
        ),
{
    let ghost inst = pkg_views(state.installed@);
    let ghost up = pkg_views(state.updates@);
    let ghost es = sync_views(state.sync@);
    let ghost rv = resolved_views(resolved@);
    let mut rows: Vec<PlanRow> = Vec::new();
    let mut total: i64 = 0;
    let mut i: usize = 0;
    assert(rv.take(0) =~= seq![]);
    assert(backwards@.take(0) =~= seq![]);
    assert(row_views(rows@) =~= seq![]);
    while i < resolved.len()
        invariant
            i <= resolved.len(),
            backwards.len() == resolved.len(),
            inst == pkg_views(state.installed@),
            es == sync_views(state.sync@),
            rv == resolved_views(resolved@),
            row_views(rows@) == resolved_rows(inst, es, rv.take(i as int), backwards@.take(i as int)),
            total == installed_total(es, rv.take(i as int)),
        decreases resolved.len() - i,
    {
        assert(rv.take(i + 1).drop_last() =~= rv.take(i as int));
        assert(rv.take(i + 1).last() == resolved@[i as int]@);
        assert(backwards@.take(i + 1).drop_last() =~= backwards@.take(i as int));
        assert(backwards@.take(i + 1).last() == backwards@[i as int]);
        let r = &resolved[i];
        let back = backwards[i];
        let (dl, ts): (Option<i64>, Option<i64>) = match find_sync(&state.sync, r.name.as_str()) {
            Some(k) => if crate::text::str_eq(state.sync[k].version.as_str(), r.version.as_str()) {
                (Some(state.sync[k].download_size), Some(state.sync[k].installed_size))
            } else {
                (None, None)
            },
            None => (None, None),
        };
        if let Some(v) = ts {
            total = sat_add_i64(total, v);
        }
        let inst_i = find_pkg(&state.installed, r.name.as_str());
        let (kind, from_version, current): (Kind, String, i64) = match inst_i {
            Some(k) => (
                if back {
                    Kind::Downgrade
                } else {
                    Kind::Upgrade
                },
                state.installed[k].version.clone(),
                state.installed[k].installed_size,
            ),
            None => (Kind::New, String::new(), 0),
        };
        let row = PlanRow {
            name: r.name.clone(),
            repo: r.repo.clone(),
            from_version,
            to_version: r.version.clone(),
            dl,
            net: match ts {
                Some(c) => Some(sub_sat(c, current)),
                None => None,
            },
            aur: false,
            kind,
            is_downgrade: inst_i.is_some() && back,
        };
        let ghost before = row_views(rows@);
        rows.push(row);
        assert(row_views(rows@) =~= before.push(resolved_row(inst, es, r@, back)));
        i = i + 1;
    }
    assert(rv.take(resolved.len() as int) =~= rv);
    assert(backwards@.take(resolved.len() as int) =~= backwards@);
    let ghost first = row_views(rows@);
    let ghost tv = strs(targets@);
    let mut j: usize = 0;
    assert(tv.take(0) =~= seq![]);
    assert(first + aur_target_rows(up, tv.take(0)) =~= first);
    while j < targets.len()
        invariant
            j <= targets.len(),
            up == pkg_views(state.updates@),
            tv == strs(targets@),
            row_views(rows@) == first + aur_target_rows(up, tv.take(j as int)),
        decreases targets.len() - j,
    {
        assert(tv.take(j + 1).drop_last() =~= tv.take(j as int));
        assert(tv.take(j + 1).last() == targets@[j as int]@);
        if let Some(k) = find_aur(&state.updates, targets[j].as_str()) {
            let p = &state.updates[k];
            let row = PlanRow {
                name: p.name.clone(),
                repo: p.repo.clone(),
                from_version: p.version.clone(),
                to_version: copy_opt(&p.target_version),
                dl: None,
                net: None,
                aur: true,
                kind: Kind::Upgrade,
                is_downgrade: false,
            };
            let ghost before = row_views(rows@);
            rows.push(row);
            assert(row_views(rows@) =~= before.push(aur_row(p@)));
        }
        j = j + 1;
    }
    assert(tv.take(targets.len() as int) =~= tv);
    let sorted = sort_rows(rows);
    with_totals(sorted, total)
}

// ---------------------------------------------------------------------------
// Laws
// ---------------------------------------------------------------------------

/// The packages left out are exactly the available ones that are not
/// checked.
pub proof fn law_exclusions_are_the_complement(available: Seq<Seq<char>>, targets: Seq<Seq<char>>)
    ensures
        forall|x: Seq<char>|
            #![trigger left_out(available, targets).contains(x)]
            left_out(available, targets).contains(x) <==> (available.contains(x) && !targets.contains(x)),
    decreases available.len(),
{
    if available.len() > 0 {
        let d = available.drop_last();
        let e = available.last();
        law_exclusions_are_the_complement(d, targets);
        assert(available =~= d.push(e));
        assert forall|x: Seq<char>|
            #![trigger left_out(available, targets).contains(x)]
            left_out(available, targets).contains(x) <==> (available.contains(x) && !targets.contains(x)) by {
            lemma_contains_push(d, e, x);
            lemma_contains_push(left_out(d, targets), e, x);
            assert(left_out(d, targets).contains(x) <==> (d.contains(x) && !targets.contains(x)));
        }
    }
}

proof fn lemma_contains_push(s: Seq<Seq<char>>, e: Seq<char>, x: Seq<char>)
    ensures
        s.push(e).contains(x) <==> (s.contains(x) || x == e),
{
    if s.contains(x) {
        let i = choose|i: int| 0 <= i < s.len() && s[i] == x;
        assert(s.push(e)[i] == x);
    }
    if x == e {
        assert(s.push(e)[s.len() as int] == x);
    }
    if s.push(e).contains(x) {
        let i = choose|i: int| 0 <= i < s.push(e).len() && s.push(e)[i] == x;
        if i < s.len() {
            assert(s[i] == x);
        }
    }
}

proof fn lemma_ignore_flags(names: Seq<Seq<char>>, i: int)
    requires
        0 <= i < ignore_flags(names).len(),
    ensures
        ignore_flags(names).len() == 2 * names.len(),
        ignore_flags(names)[i] == "--ignore"@ || names.contains(ignore_flags(names)[i]),
    decreases names.len(),
{
    if names.len() > 0 {
        let d = names.drop_last();
        let f = ignore_flags(d);
        if i < f.len() {
            lemma_ignore_flags(d, i);
            assert(ignore_flags(names)[i] == f[i]);
            if d.contains(f[i]) {
                let k = choose|k: int| 0 <= k < d.len() && d[k] == f[i];
                assert(names[k] == f[i]);
            }
        } else {
            if f.len() > 0 {
                lemma_ignore_flags(d, 0);
            }
            assert(f.len() == 2 * d.len());
            if i == f.len() + 1 {
                assert(names[names.len() - 1] == names.last());
            }
        }
    }
}

/// The upgrade command never passes a checked package as a target: besides
/// its fixed words, it only names available packages that are not checked,
/// each after `--ignore`.
pub proof fn law_command_names_no_target(available: Seq<Seq<char>>, targets: Seq<Seq<char>>, aur: bool, i: int)
    requires
        0 <= i < upgrade_command_spec(available, targets, aur).len(),
    ensures
        ({
            let w = upgrade_command_spec(available, targets, aur)[i];
            ||| w == "paru"@
            ||| w == "-Syu"@
            ||| w == "--ignore"@
            ||| w == "--noconfirm"@
            ||| (available.contains(w) && !targets.contains(w))
        }),
{
    let lo = left_out(available, targets);
    let f = ignore_flags(lo);
    let c = upgrade_command_spec(available, targets, aur);
    law_exclusions_are_the_complement(available, targets);
    if 2 <= i < 2 + f.len() {
        lemma_ignore_flags(lo, i - 2);
        assert(c[i] == f[i - 2]);
        if lo.contains(f[i - 2]) {
            assert(left_out(available, targets).contains(f[i - 2]));
        }
    } else if i >= 2 + f.len() {
        if f.len() > 0 {
            lemma_ignore_flags(lo, 0);
        }
        assert(c[i] == "--noconfirm"@);
    }
}

/// Checking every available update gives a full system upgrade: nothing is
/// ignored.
pub proof fn law_checking_everything_ignores_nothing(available: Seq<Seq<char>>, targets: Seq<Seq<char>>, aur: bool)
    requires
        forall|x: Seq<char>| available.contains(x) ==> targets.contains(x),
    ensures
        upgrade_command_spec(available, targets, aur) == seq!["paru"@, "-Syu"@] + if aur {
            seq![]
        } else {
            seq!["--noconfirm"@]
        },
{
    law_exclusions_are_the_complement(available, targets);
    let lo = left_out(available, targets);
    if lo.len() > 0 {
        assert(lo.contains(lo[0]));
        assert(false);
    }
    assert(lo =~= seq![]);
    assert(ignore_flags(lo) =~= seq![]);
    assert(seq!["paru"@, "-Syu"@] + ignore_flags(lo) =~= seq!["paru"@, "-Syu"@]);
}

/// A removal hands space back: when the installed sizes are not negative,
/// neither is any row's change, and the total change is at most zero.
pub proof fn law_removal_frees_space(installed: Seq<PkgView>, names: Seq<Seq<char>>, src: Seq<Seq<char>>)
    requires
        forall|i: int| 0 <= i < installed.len() ==> (#[trigger] installed[i]).installed_size >= 0,
    ensures
        net_total(removal_rows(installed, names, src)) <= 0,
    decreases src.len(),
{
    if src.len() > 0 {
        law_removal_frees_space(installed, names, src.drop_last());
        match first_named(installed, src.last()) {
            Some(p) => {
                lemma_first_named_in(installed, src.last());
                let rows = removal_rows(installed, names, src);
                assert(rows.drop_last() =~= removal_rows(installed, names, src.drop_last()));
            },
            None => {},
        }
    }
}

proof fn lemma_first_named_in(ps: Seq<PkgView>, name: Seq<char>)
    ensures
        first_named(ps, name) matches Some(p) ==> exists|i: int| 0 <= i < ps.len() && ps[i] == p,
    decreases ps.len(),
{
    if ps.len() > 0 && ps[0].name != name {
        lemma_first_named_in(ps.drop_first(), name);
        if first_named(ps, name) is Some {
            let p = first_named(ps, name).unwrap();
            let i = choose|i: int| 0 <= i < ps.drop_first().len() && ps.drop_first()[i] == p;
            assert(ps[i + 1] == p);
        }
    } else if ps.len() > 0 {
        assert(ps[0] == ps[0]);
    }
}

pub proof fn lemma_lex_irreflexive(a: Seq<char>)
    ensures
        !lex_lt(a, a),
    decreases a.len(),
{
    if a.len() > 0 {
        lemma_lex_irreflexive(a.drop_first());
    }
}

pub proof fn lemma_lex_transitive(a: Seq<char>, b: Seq<char>, c: Seq<char>)
    requires
        lex_lt(a, b),
        lex_lt(b, c),
    ensures
        lex_lt(a, c),
    decreases a.len(),
{
    if a.len() > 0 && b.len() > 0 && c.len() > 0 {
        if a[0] == b[0] && b[0] == c[0] {
            lemma_lex_transitive(a.drop_first(), b.drop_first(), c.drop_first());
        }
    }
}

pub proof fn lemma_lex_total(a: Seq<char>, b: Seq<char>)
    ensures
        a == b || lex_lt(a, b) || lex_lt(b, a),
    decreases a.len(),
{
    if a.len() > 0 && b.len() > 0 && a[0] == b[0] {
        lemma_lex_total(a.drop_first(), b.drop_first());
        if a.drop_first() == b.drop_first() {
            assert(a =~= seq![a[0]] + a.drop_first());
            assert(b =~= seq![b[0]] + b.drop_first());
        }
    } else if a.len() == 0 && b.len() == 0 {
        assert(a =~= b);
    } else if a.len() > 0 && b.len() > 0 {
        assert(a[0] < b[0] || b[0] < a[0]);
    }
}

proof fn lemma_row_asymmetric(a: RowView, b: RowView)
    requires
        row_lt(a, b),
    ensures
        !row_lt(b, a),
{
    if a.aur == b.aur && (a.kind == Kind::New) == (b.kind == Kind::New) {
        if lex_lt(b.name, a.name) {
            lemma_lex_transitive(a.name, b.name, a.name);
            lemma_lex_irreflexive(a.name);
        }
    }
}

/// Not sorting before is transitive: `c` before `a` puts `c` before `b` or
/// `b` before `a`.
proof fn lemma_row_negatively_transitive(a: RowView, b: RowView, c: RowView)
    requires
        row_lt(c, a),
    ensures
        row_lt(c, b) || row_lt(b, a),
{
    lemma_lex_total(a.name, b.name);
    lemma_lex_total(b.name, c.name);
    if lex_lt(c.name, a.name) && !lex_lt(c.name, b.name) && !lex_lt(b.name, a.name) {
        if b.name != c.name && b.name != a.name {
            lemma_lex_transitive(b.name, c.name, a.name);
        }
    }
}

pub open spec fn rows_sorted(r: Seq<RowView>) -> bool {
    forall|i: int, j: int| 0 <= i < j < r.len() ==> !row_lt(#[trigger] r[j], #[trigger] r[i])
}

proof fn lemma_insert_row(s: Seq<RowView>, x: RowView)
    requires
        rows_sorted(s),
    ensures
        rows_sorted(insert_row(s, x)),
        insert_row(s, x).to_multiset() == s.to_multiset().insert(x),
    decreases s.len(),
{
    broadcast use vstd::seq_lib::group_to_multiset_ensures;

    if s.len() == 0 {
        assert(seq![x] =~= Seq::<RowView>::empty().push(x));
    } else {
        let d = s.drop_last();
        let e = s.last();
        assert(s =~= d.push(e));
        assert(rows_sorted(d)) by {
            assert forall|i: int, j: int| 0 <= i < j < d.len() implies !row_lt(#[trigger] d[j], #[trigger] d[i]) by {
                assert(d[i] == s[i] && d[j] == s[j]);
            }
        }
        if row_lt(x, e) {
            lemma_insert_row(d, x);
            let m = insert_row(d, x);
            let r = m.push(e);
            assert forall|k: int| 0 <= k < m.len() implies !row_lt(e, #[trigger] m[k]) by {
                assert(m.to_multiset().contains(m[k]));
                assert(d.to_multiset().insert(x).contains(m[k]));
                if m[k] == x {
                    lemma_row_asymmetric(x, e);
                } else {
                    assert(d.to_multiset().contains(m[k]));
                    assert(d.contains(m[k]));
                    let i = choose|i: int| 0 <= i < d.len() && d[i] == m[k];
                    assert(s[i] == m[k]);
                    assert(s[s.len() - 1] == e);
                }
            }
            assert forall|i: int, j: int| 0 <= i < j < r.len() implies !row_lt(#[trigger] r[j], #[trigger] r[i]) by {
                if j == r.len() - 1 {
                    assert(r[j] == e);
                    assert(r[i] == m[i]);
                } else {
                    assert(r[i] == m[i] && r[j] == m[j]);
                }
            }
            assert(m.push(e).to_multiset() =~= m.to_multiset().insert(e));
            assert(s.to_multiset() =~= d.to_multiset().insert(e));
            assert(r.to_multiset() =~= s.to_multiset().insert(x));
        } else {
            let r = s.push(x);
            assert forall|i: int, j: int| 0 <= i < j < r.len() implies !row_lt(#[trigger] r[j], #[trigger] r[i]) by {
                if j == r.len() - 1 {
                    assert(r[j] == x);
                    assert(r[i] == s[i]);
                    if i < s.len() - 1 {
                        assert(!row_lt(s[s.len() - 1], s[i]));
                        if row_lt(x, s[i]) {
                            lemma_row_negatively_transitive(s[i], e, x);
                        }
                    }
                } else {
                    assert(r[i] == s[i] && r[j] == s[j]);
                }
            }
        }
    }
}

/// The rows of a plan come in reading order — updates first, new packages
/// next, AUR last, each by name — and are exactly the rows given.
pub proof fn law_rows_in_reading_order(s: Seq<RowView>)
    ensures
        rows_sorted(sort_rows_spec(s)),
        sort_rows_spec(s).to_multiset() == s.to_multiset(),
    decreases s.len(),
{
    broadcast use vstd::seq_lib::group_to_multiset_ensures;

    if s.len() == 0 {
        assert(sort_rows_spec(s) =~= s);
    } else {
        law_rows_in_reading_order(s.drop_last());
        lemma_insert_row(sort_rows_spec(s.drop_last()), s.last());
        assert(s =~= s.drop_last().push(s.last()));
    }
}

} // verus!
