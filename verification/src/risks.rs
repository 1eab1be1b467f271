//! Points of attention in a transaction.
//!
//! pacman's output holds everything needed to judge whether an operation is
//! harmless, but buried in the middle of everything else. This module
//! surfaces those points and states them plainly.
//!
//! The rule followed here: only announce what is verified from the data. A
//! vague warning is quickly ignored, and a list that gets ignored protects
//! nothing.

use vstd::prelude::*;
use crate::i18n::{Lang, t, translate, subst};
use crate::data::{State, Pkg, PkgView, Ignore, IgnoreView, pkg_views, ignore_views};
use crate::plan::{Plan, PlanRow, RowView, Kind, row_views, count_kind, first_named};
use crate::history::{Rollback, RbView, Source, SourceView, Transaction, rbs};
use crate::journal::{fill1, fill2};
use crate::text::{
    chars_of, string_of, owned, eq_lit, seq_eq, slice, append, join, join_str, views, strs, dec,
    fmt_usize, ends_with, finishes_str,
};

verus! {

#[derive(Debug, Clone, Copy, PartialEq, Eq, Structural)]
pub enum Level {
    /// Worth knowing, without consequence.
    Info,
    /// Deserves a look before approving.
    Caution,
    /// Can break the system, or run code nobody reviewed.
    Serious,
}

pub struct Risk {
    pub level: Level,
    pub title: String,
    /// One sentence explaining the concrete consequence, not the mechanism.
    pub detail: String,
}

pub struct RiskView {
    pub level: Level,
    pub title: Seq<char>,
    pub detail: Seq<char>,
}

impl View for Risk {
    type V = RiskView;

    open spec fn view(&self) -> RiskView {
        RiskView { level: self.level, title: self.title@, detail: self.detail@ }
    }
}

pub open spec fn risk_views(v: Seq<Risk>) -> Seq<RiskView> {
    v.map_values(|r: Risk| r@)
}

/// Packages whose upgrade only takes effect after a reboot.
pub open spec fn is_kernel(n: Seq<char>) -> bool {
    n == "linux"@ || n == "linux-lts"@ || n == "linux-zen"@ || n == "linux-hardened"@ || n
        == "linux-rt"@ || n == "linux-rt-lts"@
}

/// Building blocks the whole rest of the system depends on.
pub open spec fn is_critical(n: Seq<char>) -> bool {
    n == "glibc"@ || n == "systemd"@ || n == "pacman"@ || n == "openssl"@ || n == "gcc-libs"@
        || n == "bash"@
}

fn is_kernel_exec(n: &[char]) -> (r: bool)
    ensures
        r == is_kernel(n@),
{
    eq_lit(n, "linux") || eq_lit(n, "linux-lts") || eq_lit(n, "linux-zen") || eq_lit(
        n,
        "linux-hardened",
    ) || eq_lit(n, "linux-rt") || eq_lit(n, "linux-rt-lts")
}

fn is_critical_exec(n: &[char]) -> (r: bool)
    ensures
        r == is_critical(n@),
{
    eq_lit(n, "glibc") || eq_lit(n, "systemd") || eq_lit(n, "pacman") || eq_lit(n, "openssl")
        || eq_lit(n, "gcc-libs") || eq_lit(n, "bash")
}

/// Which rows a list of names is about.
#[derive(Clone, Copy)]
pub enum Sel {
    Aur,
    Kernel,
    Critical,
    Reboot,
    Downgrade,
    New,
    Cascade,
}

pub open spec fn selected(r: RowView, s: Sel) -> bool {
    match s {
        Sel::Aur => r.aur,
        Sel::Kernel => is_kernel(r.name),
        Sel::Critical => is_critical(r.name),
        Sel::Reboot => is_kernel(r.name) || is_critical(r.name),
        Sel::Downgrade => r.is_downgrade,
        Sel::New => r.kind == Kind::New,
        Sel::Cascade => r.kind == Kind::AutoRemoval,
    }
}

/// The names of the selected rows, in order.
pub open spec fn names_of(rows: Seq<RowView>, s: Sel) -> Seq<Seq<char>>
    decreases rows.len(),
{
    if rows.len() == 0 {
        seq![]
    } else if selected(rows.last(), s) {
        names_of(rows.drop_last(), s).push(rows.last().name)
    } else {
        names_of(rows.drop_last(), s)
    }
}

fn selected_exec(r: &PlanRow, s: Sel) -> (b: bool)
    ensures
        b == selected(r@, s),
{
    let n = chars_of(r.name.as_str());
    match s {
        Sel::Aur => r.aur,
        Sel::Kernel => is_kernel_exec(n.as_slice()),
        Sel::Critical => is_critical_exec(n.as_slice()),
        Sel::Reboot => is_kernel_exec(n.as_slice()) || is_critical_exec(n.as_slice()),
        Sel::Downgrade => r.is_downgrade,
        Sel::New => r.kind == Kind::New,
        Sel::Cascade => r.kind == Kind::AutoRemoval,
    }
}

fn names_exec(rows: &Vec<PlanRow>, s: Sel) -> (r: Vec<Vec<char>>)
    ensures
        views(r@) == names_of(row_views(rows@), s),
{
    let ghost rv = row_views(rows@);
    let mut out: Vec<Vec<char>> = Vec::new();
    let mut i: usize = 0;
    assert(rv.take(0) =~= seq![]);
    assert(views(out@) =~= seq![]);
    while i < rows.len()
        invariant
            i <= rows.len(),
            rv == row_views(rows@),
            views(out@) == names_of(rv.take(i as int), s),
        decreases rows.len() - i,
    {
        assert(rv.take(i + 1).drop_last() =~= rv.take(i as int));
        assert(rv.take(i + 1).last() == rows@[i as int]@);
        if selected_exec(&rows[i], s) {
            let ghost before = views(out@);
            out.push(chars_of(rows[i].name.as_str()));
            assert(views(out@) =~= before.push(rows@[i as int].name@));
        }
        i = i + 1;
    }
    assert(rv.take(rows.len() as int) =~= rv);
    out
}

/// Packages in the plan whose upgrade only takes effect after a reboot.
///
/// pacman does not say so: the system keeps running on the old kernel, whose
/// modules are no longer on disk, and the symptom shows up much later.
pub fn needs_reboot(plan: &Plan) -> (r: Vec<String>)
    ensures
        strs(r@) == names_of(plan@.rows, Sel::Reboot),
{
    let v = names_exec(&plan.rows, Sel::Reboot);
    let mut out: Vec<String> = Vec::new();
    let mut i: usize = 0;
    while i < v.len()
        invariant
            i <= v.len(),
            strs(out@) == views(v@).take(i as int),
        decreases v.len() - i,
    {
        let ghost before = strs(out@);
        let st = string_of(v[i].as_slice());
        out.push(st);
        assert(strs(out@) =~= before.push(v@[i as int]@));
        assert(views(v@).take(i + 1) =~= views(v@).take(i as int).push(v@[i as int]@));
        i = i + 1;
    }
    assert(views(v@).take(v.len() as int) =~= views(v@));
    out
}

// ---------------------------------------------------------------------------
// Building risks
// ---------------------------------------------------------------------------

pub open spec fn risk(level: Level, title: Seq<char>, detail: Seq<char>) -> RiskView {
    RiskView { level, title, detail }
}

/// A risk when it applies, none otherwise.
pub open spec fn when(cond: bool, r: RiskView) -> Seq<RiskView> {
    if cond {
        seq![r]
    } else {
        seq![]
    }
}

pub open spec fn msg(l: Lang, key: Seq<char>) -> Seq<char> {
    translate(l, key)
}

pub open spec fn msg1(l: Lang, key: Seq<char>, a: Seq<char>) -> Seq<char> {
    subst(translate(l, key), seq![a])
}

pub open spec fn msg2(l: Lang, key: Seq<char>, a: Seq<char>, b: Seq<char>) -> Seq<char> {
    subst(translate(l, key), seq![a, b])
}

pub open spec fn comma(names: Seq<Seq<char>>) -> Seq<char> {
    join(names, ", "@)
}

/// How many installed packages are DKMS modules, rebuilt with each kernel.
pub open spec fn dkms_count(ps: Seq<PkgView>) -> nat
    decreases ps.len(),
{
    if ps.len() == 0 {
        0
    } else {
        dkms_count(ps.drop_last()) + if ends_with(ps.last().name, "-dkms"@) {
            1nat
        } else {
            0nat
        }
    }
}

/// `name from → to`, one frozen update.
pub open spec fn frozen_text(i: IgnoreView) -> Seq<char> {
    i.name + " "@ + i.from_version + " → "@ + i.to_version
}

pub open spec fn frozen_texts(v: Seq<IgnoreView>) -> Seq<Seq<char>> {
    v.map_values(|i: IgnoreView| frozen_text(i))
}

pub open spec fn ellipsis(more: bool) -> Seq<char> {
    if more {
        "…"@
    } else {
        ""@
    }
}

/// Unreviewed code running under your account.
pub open spec fn up_aur(l: Lang, rows: Seq<RowView>) -> Seq<RiskView> {
    let aur = names_of(rows, Sel::Aur);
    when(
        aur.len() > 0,
        risk(
            Level::Serious,
            msg2(l, "{0} package(s) built from the AUR: {1}"@, dec(aur.len()), comma(aur)),
            msg(l, "A PKGBUILD is a script run under your account, reviewed by nobody. paru will offer to show it before building: that is the moment to read it."@),
        ),
    )
}

/// Partial upgrade: Arch packages are built against one another.
pub open spec fn up_partial(l: Lang, excluded: Seq<Seq<char>>) -> Seq<RiskView> {
    when(
        excluded.len() > 0,
        risk(
            Level::Serious,
            msg1(l, "Partial upgrade: {0} package(s) left out"@, dec(excluded.len())),
            msg1(l, "Left out: {0}. Arch packages are compiled against one another; keeping old ones alongside new ones can break programs with no apparent connection."@, comma(excluded)),
        ),
    )
}

pub open spec fn kernel_detail(l: Lang, dkms: nat) -> Seq<char> {
    let base = msg(l, "Until you reboot, plugging in a device or mounting an unusual filesystem may fail: the running kernel's modules are no longer on disk."@);
    if dkms > 0 {
        base + " "@ + msg1(l, "{0} DKMS module(s) will be rebuilt, which lengthens the operation."@, dec(dkms))
    } else {
        base
    }
}

/// Kernel: the running kernel's modules disappear from disk, which shows up
/// much later and is bewildering.
pub open spec fn up_kernel(l: Lang, rows: Seq<RowView>, installed: Seq<PkgView>) -> Seq<RiskView> {
    let kernels = names_of(rows, Sel::Kernel);
    when(
        kernels.len() > 0,
        risk(
            Level::Caution,
            msg1(l, "Kernel upgraded ({0}): reboot required"@, comma(kernels)),
            kernel_detail(l, dkms_count(installed)),
        ),
    )
}

/// Critical system pieces: an interruption here is hard to recover from.
pub open spec fn up_critical(l: Lang, rows: Seq<RowView>) -> Seq<RiskView> {
    let critical = names_of(rows, Sel::Critical);
    when(
        critical.len() > 0,
        risk(
            Level::Caution,
            msg1(l, "Essential system components: {0}"@, comma(critical)),
            msg(l, "Do not interrupt the operation once started. A cut here can stop the machine from booting."@),
        ),
    )
}

/// Downgrades: rare, and almost always unintended.
pub open spec fn up_back(l: Lang, rows: Seq<RowView>) -> Seq<RiskView> {
    let back = names_of(rows, Sel::Downgrade);
    when(
        back.len() > 0,
        risk(
            Level::Caution,
            msg1(l, "Back to an earlier version: {0}"@, comma(back)),
            msg(l, "The offered version is older than the installed one. Normal after a deliberate rollback, suspicious otherwise."@),
        ),
    )
}

/// At most `n` of the names.
pub open spec fn first_n(v: Seq<Seq<char>>, n: int) -> Seq<Seq<char>> {
    v.take(if v.len() > n { n } else { v.len() as int })
}

/// New dependencies: what pacman's output drowns and `checkupdates` does not
/// show at all. Six are named, the rest implied.
pub open spec fn up_new(l: Lang, rows: Seq<RowView>) -> Seq<RiskView> {
    let n = count_kind(rows, Kind::New);
    when(
        n > 0,
        risk(
            Level::Info,
            msg1(l, "{0} new package(s) pulled in as dependencies"@, dec(n)),
            msg2(l, "You did not ask for them; they arrive because something you asked for needs them. {0}{1}"@, comma(first_n(names_of(rows, Sel::New), 6)), ellipsis(n > 6)),
        ),
    )
}

/// Frozen updates: they explain why an expected update never arrives.
pub open spec fn up_frozen(l: Lang, ignored: Seq<IgnoreView>) -> Seq<RiskView> {
    when(
        ignored.len() > 0,
        risk(
            Level::Info,
            msg1(l, "{0} update(s) available but frozen"@, dec(ignored.len())),
            msg1(l, "{0}. Held back by IgnorePkg in /etc/pacman.conf: they will not be installed while that line is there."@, comma(frozen_texts(ignored))),
        ),
    )
}

/// The points of attention of an upgrade, in the order they are found.
pub open spec fn upgrade_risks(
    l: Lang,
    rows: Seq<RowView>,
    installed: Seq<PkgView>,
    ignored: Seq<IgnoreView>,
    excluded: Seq<Seq<char>>,
) -> Seq<RiskView> {
    up_aur(l, rows) + up_partial(l, excluded) + up_kernel(l, rows, installed) + up_critical(l, rows)
        + up_back(l, rows) + up_new(l, rows) + up_frozen(l, ignored)
}

/// How many of `req` are not among `names`.
pub open spec fn outside(req: Seq<Seq<char>>, names: Seq<Seq<char>>) -> nat
    decreases req.len(),
{
    if req.len() == 0 {
        0
    } else {
        outside(req.drop_last(), names) + if names.contains(req.last()) {
            0nat
        } else {
            1nat
        }
    }
}

/// The packages of a removal still required by packages that stay, with how
/// many of those there are. Requirers inside the plan do not count: a
/// dependency is by definition needed by the package that pulled it in, and
/// that one leaves with it.
pub open spec fn still_needed(rows: Seq<RowView>, installed: Seq<PkgView>, plan_names: Seq<Seq<char>>) -> Seq<(Seq<char>, nat)>
    decreases rows.len(),
{
    if rows.len() == 0 {
        seq![]
    } else {
        let before = still_needed(rows.drop_last(), installed, plan_names);
        match first_named(installed, rows.last().name) {
            Some(p) => {
                let c = outside(p.required_by, plan_names);
                if c > 0 {
                    before.push((p.name, c))
                } else {
                    before
                }
            },
            None => before,
        }
    }
}

pub open spec fn needed_texts(v: Seq<(Seq<char>, nat)>) -> Seq<Seq<char>> {
    v.map_values(|e: (Seq<char>, nat)| e.0 + " ("@ + dec(e.1) + ")"@)
}

pub open spec fn all_names(rows: Seq<RowView>) -> Seq<Seq<char>> {
    rows.map_values(|r: RowView| r.name)
}

/// The points of attention of a removal.
pub open spec fn removal_risks(l: Lang, rows: Seq<RowView>, installed: Seq<PkgView>) -> Seq<RiskView> {
    let cascade = names_of(rows, Sel::Cascade);
    let needed = still_needed(rows, installed, all_names(rows));
    when(
        cascade.len() > 0,
        risk(
            Level::Serious,
            msg1(l, "{0} extra package(s) will be removed as a cascade"@, dec(cascade.len())),
            msg2(l, "You did not check {0}{1}: they leave because nothing will need them once your selection is gone."@, comma(cascade.take(if cascade.len() > 8 { 8 } else { cascade.len() as int })), ellipsis(cascade.len() > 8)),
        ),
    ) + when(
        needed.len() > 0,
        risk(
            Level::Serious,
            msg2(l, "{0} package(s) still needed by packages that stay: {1}"@, dec(needed.len()), comma(needed_texts(needed))),
            msg(l, "Packages outside this removal depend on them. pacman will refuse the operation, or take along whatever depends on them. Check \"Required by\" in the detail panel before approving."@),
        ),
    ) + seq![
        risk(
            Level::Caution,
            msg(l, "Dependencies loaded at run time are invisible"@),
            msg(l, "Qt plugins, Wayland backends, GStreamer modules: nothing declares them, so nothing protects them but keep.list. When in doubt, protect rather than remove."@),
        ),
        risk(
            Level::Info,
            msg(l, "Configuration files will be deleted"@),
            msg(l, "The -Rns option also removes dependencies nothing needs any more, along with the package's configuration files. Your own files under ~/ are untouched."@),
        ),
    ]
}

/// The risks of one level, in order.
pub open spec fn at_level(rs: Seq<RiskView>, lv: Level) -> Seq<RiskView>
    decreases rs.len(),
{
    if rs.len() == 0 {
        seq![]
    } else if rs.last().level == lv {
        at_level(rs.drop_last(), lv).push(rs.last())
    } else {
        at_level(rs.drop_last(), lv)
    }
}

/// Most severe first, the order otherwise kept: that is what gets read when
/// only one line is read.
pub open spec fn by_severity(rs: Seq<RiskView>) -> Seq<RiskView> {
    at_level(rs, Level::Serious) + at_level(rs, Level::Caution) + at_level(rs, Level::Info)
}


// ---------------------------------------------------------------------------
// Rollbacks
// ---------------------------------------------------------------------------

/// A few names, then a count of the rest: three hundred packages dumped into
/// a warning make it unreadable, and therefore useless.
pub open spec fn list_some_text(l: Lang, names: Seq<Seq<char>>, max: nat) -> Seq<char> {
    if names.len() <= max {
        comma(names)
    } else {
        msg2(l, "{0}, and {1} others"@, comma(names.take(max as int)), dec((names.len() - max) as nat))
    }
}

pub open spec fn or_nothing(o: Option<Seq<char>>) -> Seq<char> {
    match o {
        Some(v) => v,
        None => seq![],
    }
}

/// `name version` of each step whose version no cache holds.
pub open spec fn missing_texts(rs: Seq<RbView>) -> Seq<Seq<char>>
    decreases rs.len(),
{
    if rs.len() == 0 {
        seq![]
    } else if rs.last().source is Missing {
        missing_texts(rs.drop_last()).push(rs.last().name + " "@ + or_nothing(rs.last().target))
    } else {
        missing_texts(rs.drop_last())
    }
}

/// The packages a rollback puts back at an earlier version.
pub open spec fn restored_names(rs: Seq<RbView>) -> Seq<Seq<char>>
    decreases rs.len(),
{
    if rs.len() == 0 {
        seq![]
    } else if rs.last().source is File && rs.last().current is Some {
        restored_names(rs.drop_last()).push(rs.last().name)
    } else {
        restored_names(rs.drop_last())
    }
}

/// The critical packages a rollback actually moves: one out of cache will not
/// move, and announcing it would be a false alarm.
pub open spec fn critical_moved(rs: Seq<RbView>) -> Seq<Seq<char>>
    decreases rs.len(),
{
    if rs.len() == 0 {
        seq![]
    } else if !(rs.last().source is Missing) && (is_critical(rs.last().name) || is_kernel(rs.last().name)) {
        critical_moved(rs.drop_last()).push(rs.last().name)
    } else {
        critical_moved(rs.drop_last())
    }
}

pub open spec fn removal_steps(rs: Seq<RbView>) -> nat
    decreases rs.len(),
{
    if rs.len() == 0 {
        0
    } else {
        removal_steps(rs.drop_last()) + if rs.last().source is Remove {
            1nat
        } else {
            0nat
        }
    }
}

pub open spec fn rb_missing(l: Lang, rs: Seq<RbView>, keep: nat) -> Seq<RiskView> {
    let m = missing_texts(rs);
    when(
        m.len() > 0,
        risk(
            Level::Serious,
            msg1(l, "{0} package(s) not found: partial rollback"@, dec(m.len())),
            msg2(l, "These versions are no longer in any local cache and will stay as they are: {0}. They were pruned by paccache, which keeps only {1} version(s) per package."@, list_some_text(l, m, 6), dec(keep)),
        ),
    )
}

/// A rollback that recovers only a fraction of a large transaction does not
/// bring back the earlier state: it manufactures a third one nobody tested.
pub open spec fn rb_untested(l: Lang, rs: Seq<RbView>) -> Seq<RiskView> {
    let missing = missing_texts(rs).len();
    let recoverable = (rs.len() - missing) as nat;
    when(
        missing > recoverable && rs.len() > 20,
        risk(
            Level::Serious,
            msg(l, "This rollback rebuilds an untested state, not the earlier one"@),
            msg2(l, "Fewer than half the packages ({0} of {1}) can go back down. The system would end up with a mix of both versions, never shipped nor tested that way. To really undo a transaction of this size, you need a filesystem snapshot."@, dec(recoverable), dec(rs.len())),
        ),
    )
}

pub open spec fn rb_restored(l: Lang, rs: Seq<RbView>) -> Seq<RiskView> {
    let r = restored_names(rs);
    when(
        r.len() > 0,
        risk(
            Level::Caution,
            msg(l, "The next full upgrade will undo this rollback"@),
            msg1(l, "pacman will offer the recent version again on the next -Syu. To freeze it for good, add IgnorePkg = {0} to /etc/pacman.conf."@, list_some_text(l, r, 8)),
        ),
    )
}

pub open spec fn rb_critical(l: Lang, rs: Seq<RbView>) -> Seq<RiskView> {
    let c = critical_moved(rs);
    when(
        c.len() > 0,
        risk(
            Level::Serious,
            msg1(l, "Critical component downgraded: {0}"@, comma(c)),
            msg(l, "The whole system is tied to these packages. An earlier version can make pacman itself unusable — keep rescue media within reach."@),
        ),
    )
}

/// An isolated downgrade leaves the rest of the system on the recent
/// versions: a partial upgrade, with the same consequences.
pub open spec fn rb_partial(l: Lang, rs: Seq<RbView>) -> Seq<RiskView> {
    when(
        restored_names(rs).len() > 0,
        risk(
            Level::Caution,
            msg(l, "Partial state: the rest of the system does not go back"@),
            msg(l, "Only the packages from this transaction go back. If one of them is linked against a library upgraded since, pacman will refuse — or the program will start against a version it does not know."@),
        ),
    )
}

pub open spec fn rb_removals(l: Lang, rs: Seq<RbView>) -> Seq<RiskView> {
    let n = removal_steps(rs);
    when(
        n > 0,
        risk(
            Level::Caution,
            msg1(l, "{0} package(s) will be uninstalled"@, dec(n)),
            msg(l, "These are the ones the transaction had installed. Their configuration files under /etc are kept, but everything created since (data, enabled systemd units) stays on disk."@),
        ),
    )
}

pub open spec fn rb_warnings(l: Lang, ws: Seq<Seq<char>>) -> Seq<RiskView> {
    when(
        ws.len() > 0,
        risk(
            Level::Info,
            msg1(l, "{0} warning(s) during the original transaction"@, dec(ws.len())),
            join(ws, " · "@),
        ),
    )
}

/// Undoing a package does not undo what that package did on the next boot.
pub open spec fn rb_last(l: Lang) -> Seq<RiskView> {
    seq![
        risk(
            Level::Info,
            msg(l, "Rolling back packages is not rolling back the system"@),
            msg(l, "The files the packages laid down go back. What a scriptlet or a hook has written since — a database migration, a rewritten configuration, a regenerated cache — stays as it is. For a real state rollback you need a snapshot (snapper/Btrfs)."@),
        ),
    ]
}

/// The points of attention of a rollback: here the transaction is perfectly
/// known, but it runs against what the system expects, and it undoes only
/// part of what was done.
pub open spec fn rollback_risks(l: Lang, rs: Seq<RbView>, warnings: Seq<Seq<char>>, keep: nat) -> Seq<RiskView> {
    rb_missing(l, rs, keep) + rb_untested(l, rs) + rb_restored(l, rs) + rb_critical(l, rs)
        + rb_partial(l, rs) + rb_removals(l, rs) + rb_warnings(l, warnings) + rb_last(l)
}

// ---------------------------------------------------------------------------
// Executable pieces
// ---------------------------------------------------------------------------

fn push_risk(out: &mut Vec<Risk>, level: Level, title: String, detail: String)
    ensures
        risk_views(final(out)@) == risk_views(old(out)@) + seq![risk(level, title@, detail@)],
{
    let ghost before = risk_views(out@);
    out.push(Risk { level, title, detail });
    assert(risk_views(out@) =~= before + seq![risk(level, title@, detail@)]);
}

fn comma_exec(v: &Vec<Vec<char>>) -> (r: Vec<char>)
    ensures
        r@ == comma(views(v@)),
{
    join_str(v.as_slice(), ", ")
}

fn take_rows(v: &Vec<Vec<char>>, n: usize) -> (r: Vec<Vec<char>>)
    ensures
        views(r@) == views(v@).take(if v@.len() > n {
            n as int
        } else {
            v@.len() as int
        }),
{
    let k = if v.len() > n {
        n
    } else {
        v.len()
    };
    crate::history::slice_rows(v.as_slice(), k)
}

fn dkms_exec(ps: &Vec<Pkg>) -> (r: usize)
    ensures
        r == dkms_count(pkg_views(ps@)),
{
    let ghost pv = pkg_views(ps@);
    let mut n: usize = 0;
    let mut i: usize = 0;
    assert(pv.take(0) =~= seq![]);
    while i < ps.len()
        invariant
            i <= ps.len(),
            pv == pkg_views(ps@),
            n == dkms_count(pv.take(i as int)),
            n <= i,
        decreases ps.len() - i,
    {
        assert(pv.take(i + 1).drop_last() =~= pv.take(i as int));
        assert(pv.take(i + 1).last() == ps@[i as int]@);
        if finishes_str(chars_of(ps[i].name.as_str()).as_slice(), "-dkms") {
            n = n + 1;
        }
        i = i + 1;
    }
    assert(pv.take(ps.len() as int) =~= pv);
    n
}

fn frozen_exec(v: &Vec<Ignore>) -> (r: Vec<Vec<char>>)
    ensures
        views(r@) == frozen_texts(ignore_views(v@)),
{
    let mut out: Vec<Vec<char>> = Vec::new();
    let mut i: usize = 0;
    while i < v.len()
        invariant
            i <= v.len(),
            views(out@) == frozen_texts(ignore_views(v@)).take(i as int),
        decreases v.len() - i,
    {
        let mut s = chars_of(v[i].name.as_str());
        append(&mut s, chars_of(" ").as_slice());
        append(&mut s, chars_of(v[i].from_version.as_str()).as_slice());
        append(&mut s, chars_of(" → ").as_slice());
        append(&mut s, chars_of(v[i].to_version.as_str()).as_slice());
        assert(s@ =~= frozen_text(v@[i as int]@));
        let ghost before = views(out@);
        let ghost sv = s@;
        out.push(s);
        assert(views(out@) =~= before.push(sv));
        assert(frozen_texts(ignore_views(v@)).take(i + 1) =~= frozen_texts(ignore_views(v@)).take(i as int).push(frozen_text(v@[i as int]@)));
        i = i + 1;
    }
    assert(frozen_texts(ignore_views(v@)).take(v.len() as int) =~= frozen_texts(ignore_views(v@)));
    out
}

fn ellipsis_exec(more: bool) -> (r: Vec<char>)
    ensures
        r@ == ellipsis(more),
{
    if more {
        chars_of("…")
    } else {
        chars_of("")
    }
}

fn strings_to_rows(v: &[String]) -> (r: Vec<Vec<char>>)
    ensures
        views(r@) == strs(v@),
{
    let mut out: Vec<Vec<char>> = Vec::new();
    let mut i: usize = 0;
    while i < v.len()
        invariant
            i <= v.len(),
            views(out@) == strs(v@).take(i as int),
        decreases v.len() - i,
    {
        let ghost before = views(out@);
        let c = chars_of(v[i].as_str());
        out.push(c);
        assert(views(out@) =~= before.push(v@[i as int]@));
        assert(strs(v@).take(i + 1) =~= strs(v@).take(i as int).push(v@[i as int]@));
        i = i + 1;
    }
    assert(strs(v@).take(v.len() as int) =~= strs(v@));
    out
}

fn add_aur(l: Lang, plan: &Plan, out: &mut Vec<Risk>)
    ensures
        risk_views(final(out)@) == risk_views(old(out)@) + up_aur(l, plan@.rows),
{
    let aur = names_exec(&plan.rows, Sel::Aur);
    if aur.len() > 0 {
        let title = fill2(l, "{0} package(s) built from the AUR: {1}", fmt_usize(aur.len()).as_slice(), comma_exec(&aur).as_slice());
        push_risk(out, Level::Serious, title, t(l, "A PKGBUILD is a script run under your account, reviewed by nobody. paru will offer to show it before building: that is the moment to read it."));
    } else {
        assert(risk_views(out@) =~= risk_views(out@) + seq![]);
    }
}

fn add_partial(l: Lang, excluded: &[String], out: &mut Vec<Risk>)
    ensures
        risk_views(final(out)@) == risk_views(old(out)@) + up_partial(l, strs(excluded@)),
{
    if excluded.len() > 0 {
        let n = fmt_usize(excluded.len());
        let ex = strings_to_rows(excluded);
        let title = fill1(l, "Partial upgrade: {0} package(s) left out", n.as_slice());
        let detail = fill1(l, "Left out: {0}. Arch packages are compiled against one another; keeping old ones alongside new ones can break programs with no apparent connection.", comma_exec(&ex).as_slice());
        push_risk(out, Level::Serious, title, detail);
    } else {
        assert(risk_views(out@) =~= risk_views(out@) + seq![]);
    }
}

fn add_kernel(l: Lang, plan: &Plan, state: &State, out: &mut Vec<Risk>)
    ensures
        risk_views(final(out)@) == risk_views(old(out)@) + up_kernel(l, plan@.rows, pkg_views(state.installed@)),
{
    let kernels = names_exec(&plan.rows, Sel::Kernel);
    if kernels.len() > 0 {
        let dkms = dkms_exec(&state.installed);
        let mut detail = chars_of(t(l, "Until you reboot, plugging in a device or mounting an unusual filesystem may fail: the running kernel's modules are no longer on disk.").as_str());
        if dkms > 0 {
            let ghost base = detail@;
            detail.push(' ');
            let more = fill1(l, "{0} DKMS module(s) will be rebuilt, which lengthens the operation.", fmt_usize(dkms).as_slice());
            append(&mut detail, chars_of(more.as_str()).as_slice());
            proof {
                reveal_strlit(" ");
                assert(" "@ =~= seq![' ']);
                assert(detail@ =~= base + " "@ + more@);
            }
        }
        assert(detail@ == kernel_detail(l, dkms_count(pkg_views(state.installed@))));
        let title = fill1(l, "Kernel upgraded ({0}): reboot required", comma_exec(&kernels).as_slice());
        push_risk(out, Level::Caution, title, string_of(detail.as_slice()));
    } else {
        assert(risk_views(out@) =~= risk_views(out@) + seq![]);
    }
}

fn add_critical(l: Lang, plan: &Plan, out: &mut Vec<Risk>)
    ensures
        risk_views(final(out)@) == risk_views(old(out)@) + up_critical(l, plan@.rows),
{
    let critical = names_exec(&plan.rows, Sel::Critical);
    if critical.len() > 0 {
        let title = fill1(l, "Essential system components: {0}", comma_exec(&critical).as_slice());
        push_risk(out, Level::Caution, title, t(l, "Do not interrupt the operation once started. A cut here can stop the machine from booting."));
    } else {
        assert(risk_views(out@) =~= risk_views(out@) + seq![]);
    }
}

fn add_back(l: Lang, plan: &Plan, out: &mut Vec<Risk>)
    ensures
        risk_views(final(out)@) == risk_views(old(out)@) + up_back(l, plan@.rows),
{
    let back = names_exec(&plan.rows, Sel::Downgrade);
    if back.len() > 0 {
        let title = fill1(l, "Back to an earlier version: {0}", comma_exec(&back).as_slice());
        push_risk(out, Level::Caution, title, t(l, "The offered version is older than the installed one. Normal after a deliberate rollback, suspicious otherwise."));
    } else {
        assert(risk_views(out@) =~= risk_views(out@) + seq![]);
    }
}

fn add_new(l: Lang, plan: &Plan, out: &mut Vec<Risk>)
    ensures
        risk_views(final(out)@) == risk_views(old(out)@) + up_new(l, plan@.rows),
{
    let new_count = plan.count(Kind::New);
    if new_count > 0 {
        let names = names_exec(&plan.rows, Sel::New);
        let shown = take_rows(&names, 6);
        let title = fill1(l, "{0} new package(s) pulled in as dependencies", fmt_usize(new_count).as_slice());
        let detail = fill2(l, "You did not ask for them; they arrive because something you asked for needs them. {0}{1}", comma_exec(&shown).as_slice(), ellipsis_exec(new_count > 6).as_slice());
        push_risk(out, Level::Info, title, detail);
    } else {
        assert(risk_views(out@) =~= risk_views(out@) + seq![]);
    }
}

fn add_frozen(l: Lang, state: &State, out: &mut Vec<Risk>)
    ensures
        risk_views(final(out)@) == risk_views(old(out)@) + up_frozen(l, ignore_views(state.ignored@)),
{
    if state.ignored.len() > 0 {
        let frozen = frozen_exec(&state.ignored);
        let title = fill1(l, "{0} update(s) available but frozen", fmt_usize(state.ignored.len()).as_slice());
        let detail = fill1(l, "{0}. Held back by IgnorePkg in /etc/pacman.conf: they will not be installed while that line is there.", comma_exec(&frozen).as_slice());
        push_risk(out, Level::Info, title, detail);
    } else {
        assert(risk_views(out@) =~= risk_views(out@) + seq![]);
    }
}

fn upgrade_exec(l: Lang, plan: &Plan, state: &State, excluded: &[String], out: &mut Vec<Risk>)
    ensures
        risk_views(final(out)@) == risk_views(old(out)@) + upgrade_risks(
            l,
            plan@.rows,
            pkg_views(state.installed@),
            ignore_views(state.ignored@),
            strs(excluded@),
        ),
{
    let ghost s0 = risk_views(out@);
    add_aur(l, plan, out);
    add_partial(l, excluded, out);
    add_kernel(l, plan, state, out);
    add_critical(l, plan, out);
    add_back(l, plan, out);
    add_new(l, plan, out);
    add_frozen(l, state, out);
    assert(risk_views(out@) =~= s0 + upgrade_risks(
        l,
        plan@.rows,
        pkg_views(state.installed@),
        ignore_views(state.ignored@),
        strs(excluded@),
    ));
}

fn add_cascade(l: Lang, plan: &Plan, out: &mut Vec<Risk>)
    ensures
        risk_views(final(out)@) == risk_views(old(out)@) + when(
            names_of(plan@.rows, Sel::Cascade).len() > 0,
            risk(
                Level::Serious,
                msg1(l, "{0} extra package(s) will be removed as a cascade"@, dec(names_of(plan@.rows, Sel::Cascade).len())),
                msg2(l, "You did not check {0}{1}: they leave because nothing will need them once your selection is gone."@, comma(names_of(plan@.rows, Sel::Cascade).take(if names_of(plan@.rows, Sel::Cascade).len() > 8 { 8 } else { names_of(plan@.rows, Sel::Cascade).len() as int })), ellipsis(names_of(plan@.rows, Sel::Cascade).len() > 8)),
            ),
        ),
{
    let cascade = names_exec(&plan.rows, Sel::Cascade);
    if cascade.len() > 0 {
        let preview = take_rows(&cascade, 8);
        let title = fill1(l, "{0} extra package(s) will be removed as a cascade", fmt_usize(cascade.len()).as_slice());
        let detail = fill2(l, "You did not check {0}{1}: they leave because nothing will need them once your selection is gone.", comma_exec(&preview).as_slice(), ellipsis_exec(cascade.len() > 8).as_slice());
        push_risk(out, Level::Serious, title, detail);
    } else {
        assert(risk_views(out@) =~= risk_views(out@) + seq![]);
    }
}

fn outside_exec(req: &Vec<String>, names: &Vec<Vec<char>>) -> (r: usize)
    ensures
        r == outside(strs(req@), views(names@)),
{
    let ghost rq = strs(req@);
    let mut n: usize = 0;
    let mut i: usize = 0;
    assert(rq.take(0) =~= seq![]);
    while i < req.len()
        invariant
            i <= req.len(),
            rq == strs(req@),
            n == outside(rq.take(i as int), views(names@)),
            n <= i,
        decreases req.len() - i,
    {
        assert(rq.take(i + 1).drop_last() =~= rq.take(i as int));
        assert(rq.take(i + 1).last() == req@[i as int]@);
        let w = chars_of(req[i].as_str());
        let mut found = false;
        let mut k: usize = 0;
        while k < names.len()
            invariant
                k <= names.len(),
                found == (exists|j: int| 0 <= j < k && views(names@)[j] == w@),
            decreases names.len() - k,
        {
            if seq_eq(names[k].as_slice(), w.as_slice()) {
                assert(views(names@)[k as int] == w@);
                found = true;
            }
            k = k + 1;
        }
        proof {
            if views(names@).contains(w@) {
                let j = choose|j: int| 0 <= j < views(names@).len() && views(names@)[j] == w@;
                assert(exists|j: int| 0 <= j < k && views(names@)[j] == w@);
            }
        }
        if !found {
            n = n + 1;
        }
        i = i + 1;
    }
    assert(rq.take(req.len() as int) =~= rq);
    n
}

fn all_names_exec(rows: &Vec<PlanRow>) -> (r: Vec<Vec<char>>)
    ensures
        views(r@) == all_names(row_views(rows@)),
{
    let mut out: Vec<Vec<char>> = Vec::new();
    let mut i: usize = 0;
    while i < rows.len()
        invariant
            i <= rows.len(),
            views(out@) == all_names(row_views(rows@)).take(i as int),
        decreases rows.len() - i,
    {
        let ghost before = views(out@);
        let c = chars_of(rows[i].name.as_str());
        out.push(c);
        assert(views(out@) =~= before.push(rows@[i as int].name@));
        assert(all_names(row_views(rows@)).take(i + 1) =~= all_names(row_views(rows@)).take(i as int).push(rows@[i as int].name@));
        i = i + 1;
    }
    assert(all_names(row_views(rows@)).take(rows.len() as int) =~= all_names(row_views(rows@)));
    out
}

fn needed_exec(plan: &Plan, state: &State) -> (r: Vec<Vec<char>>)
    ensures
        views(r@) == needed_texts(still_needed(plan@.rows, pkg_views(state.installed@), all_names(plan@.rows))),
{
    let ghost rv = plan@.rows;
    let ghost inst = pkg_views(state.installed@);
    let names = all_names_exec(&plan.rows);
    let ghost nv = all_names(rv);
    let mut out: Vec<Vec<char>> = Vec::new();
    let mut i: usize = 0;
    assert(rv.take(0) =~= seq![]);
    assert(views(out@) =~= seq![]);
    while i < plan.rows.len()
        invariant
            i <= plan.rows.len(),
            rv == plan@.rows,
            inst == pkg_views(state.installed@),
            views(names@) == nv,
            nv == all_names(rv),
            views(out@) == needed_texts(still_needed(rv.take(i as int), inst, nv)),
        decreases plan.rows.len() - i,
    {
        assert(rv.take(i + 1).drop_last() =~= rv.take(i as int));
        assert(rv.take(i + 1).last() == plan.rows@[i as int]@);
        if let Some(k) = crate::plan::find_pkg(&state.installed, plan.rows[i].name.as_str()) {
            let p = &state.installed[k];
            let c = outside_exec(&p.required_by, &names);
            if c > 0 {
                let mut s = chars_of(p.name.as_str());
                append(&mut s, chars_of(" (").as_slice());
                append(&mut s, fmt_usize(c).as_slice());
                append(&mut s, chars_of(")").as_slice());
                let ghost before = views(out@);
                let ghost sv = s@;
                out.push(s);
                assert(views(out@) =~= before.push(sv));
                let ghost sn = still_needed(rv.take(i as int), inst, nv);
                assert(still_needed(rv.take(i + 1), inst, nv) == sn.push((p@.name, c as nat)));
                assert(needed_texts(sn.push((p@.name, c as nat))) =~= needed_texts(sn).push(sv));
            }
        }
        i = i + 1;
    }
    assert(rv.take(plan.rows.len() as int) =~= rv);
    out
}

fn add_needed(l: Lang, plan: &Plan, state: &State, out: &mut Vec<Risk>)
    ensures
        risk_views(final(out)@) == risk_views(old(out)@) + when(
            still_needed(plan@.rows, pkg_views(state.installed@), all_names(plan@.rows)).len() > 0,
            risk(
                Level::Serious,
                msg2(l, "{0} package(s) still needed by packages that stay: {1}"@, dec(still_needed(plan@.rows, pkg_views(state.installed@), all_names(plan@.rows)).len()), comma(needed_texts(still_needed(plan@.rows, pkg_views(state.installed@), all_names(plan@.rows))))),
                msg(l, "Packages outside this removal depend on them. pacman will refuse the operation, or take along whatever depends on them. Check \"Required by\" in the detail panel before approving."@),
            ),
        ),
{
    let needed = needed_exec(plan, state);
    if needed.len() > 0 {
        let title = fill2(l, "{0} package(s) still needed by packages that stay: {1}", fmt_usize(needed.len()).as_slice(), comma_exec(&needed).as_slice());
        push_risk(out, Level::Serious, title, t(l, "Packages outside this removal depend on them. pacman will refuse the operation, or take along whatever depends on them. Check \"Required by\" in the detail panel before approving."));
    } else {
        assert(risk_views(out@) =~= risk_views(out@) + seq![]);
    }
}

fn removal_exec(l: Lang, plan: &Plan, state: &State, out: &mut Vec<Risk>)
    ensures
        risk_views(final(out)@) == risk_views(old(out)@) + removal_risks(l, plan@.rows, pkg_views(state.installed@)),
{
    let ghost s0 = risk_views(out@);
    add_cascade(l, plan, out);
    add_needed(l, plan, state, out);
    push_risk(out, Level::Caution, t(l, "Dependencies loaded at run time are invisible"), t(l, "Qt plugins, Wayland backends, GStreamer modules: nothing declares them, so nothing protects them but keep.list. When in doubt, protect rather than remove."));
    push_risk(out, Level::Info, t(l, "Configuration files will be deleted"), t(l, "The -Rns option also removes dependencies nothing needs any more, along with the package's configuration files. Your own files under ~/ are untouched."));
    assert(risk_views(out@) =~= s0 + removal_risks(l, plan@.rows, pkg_views(state.installed@)));
}

fn take_level(rs: &Vec<Risk>, lv: Level, out: &mut Vec<Risk>)
    ensures
        risk_views(final(out)@) == risk_views(old(out)@) + at_level(risk_views(rs@), lv),
{
    let ghost s0 = risk_views(out@);
    let ghost rv = risk_views(rs@);
    let mut i: usize = 0;
    assert(rv.take(0) =~= seq![]);
    assert(risk_views(out@) =~= s0 + at_level(rv.take(0), lv));
    while i < rs.len()
        invariant
            i <= rs.len(),
            rv == risk_views(rs@),
            risk_views(out@) == s0 + at_level(rv.take(i as int), lv),
        decreases rs.len() - i,
    {
        assert(rv.take(i + 1).drop_last() =~= rv.take(i as int));
        assert(rv.take(i + 1).last() == rs@[i as int]@);
        if rs[i].level == lv {
            let ghost before = risk_views(out@);
            push_risk(out, rs[i].level, rs[i].title.clone(), rs[i].detail.clone());
            assert(risk_views(out@) =~= s0 + at_level(rv.take(i + 1), lv));
        }
        i = i + 1;
    }
    assert(rv.take(rs.len() as int) =~= rv);
}

/// The points of attention of a plan, most severe first.
pub fn analyze(l: Lang, plan: &Plan, state: &State, excluded: &[String], removal: bool) -> (r: Vec<Risk>)
    ensures
        risk_views(r@) == by_severity(
            if removal {
                removal_risks(l, plan@.rows, pkg_views(state.installed@))
            } else {
                upgrade_risks(
                    l,
                    plan@.rows,
                    pkg_views(state.installed@),
                    ignore_views(state.ignored@),
                    strs(excluded@),
                )
            },
        ),
{
    let mut found: Vec<Risk> = Vec::new();
    assert(risk_views(found@) =~= seq![]);
    if removal {
        removal_exec(l, plan, state, &mut found);
    } else {
        upgrade_exec(l, plan, state, excluded, &mut found);
    }
    assert(risk_views(found@) =~= seq![] + risk_views(found@));
    let mut r: Vec<Risk> = Vec::new();
    assert(risk_views(r@) =~= seq![]);
    take_level(&found, Level::Serious, &mut r);
    take_level(&found, Level::Caution, &mut r);
    take_level(&found, Level::Info, &mut r);
    assert(risk_views(r@) =~= by_severity(risk_views(found@)));
    r
}

fn list_some(l: Lang, names: &Vec<Vec<char>>, max: usize) -> (r: Vec<char>)
    ensures
        r@ == list_some_text(l, views(names@), max as nat),
{
    if names.len() <= max {
        return comma_exec(names);
    }
    let head = crate::history::slice_rows(names.as_slice(), max);
    let s = fill2(l, "{0}, and {1} others", comma_exec(&head).as_slice(), fmt_usize(names.len() - max).as_slice());
    chars_of(s.as_str())
}

fn rb_lists(rollbacks: &[Rollback]) -> (r: (Vec<Vec<char>>, Vec<Vec<char>>, Vec<Vec<char>>, usize))
    ensures
        views(r.0@) == missing_texts(rbs(rollbacks@)),
        views(r.1@) == restored_names(rbs(rollbacks@)),
        views(r.2@) == critical_moved(rbs(rollbacks@)),
        r.3 == removal_steps(rbs(rollbacks@)),
{
    let ghost rv = rbs(rollbacks@);
    let mut missing: Vec<Vec<char>> = Vec::new();
    let mut restored: Vec<Vec<char>> = Vec::new();
    let mut critical: Vec<Vec<char>> = Vec::new();
    let mut removals: usize = 0;
    let mut i: usize = 0;
    assert(rv.take(0) =~= seq![]);
    assert(views(missing@) =~= seq![]);
    assert(views(restored@) =~= seq![]);
    assert(views(critical@) =~= seq![]);
    while i < rollbacks.len()
        invariant
            i <= rollbacks.len(),
            rv == rbs(rollbacks@),
            views(missing@) == missing_texts(rv.take(i as int)),
            views(restored@) == restored_names(rv.take(i as int)),
            views(critical@) == critical_moved(rv.take(i as int)),
            removals == removal_steps(rv.take(i as int)),
            removals <= i,
        decreases rollbacks.len() - i,
    {
        assert(rv.take(i + 1).drop_last() =~= rv.take(i as int));
        assert(rv.take(i + 1).last() == rollbacks@[i as int]@);
        let r = &rollbacks[i];
        let name = chars_of(r.name.as_str());
        match &r.source {
            Source::Missing => {
                let mut s = slice(name.as_slice(), 0, name.len());
                assert(s@ =~= name@);
                append(&mut s, chars_of(" ").as_slice());
                match &r.target {
                    Some(tg) => append(&mut s, chars_of(tg.as_str()).as_slice()),
                    None => {},
                }
                let ghost before = views(missing@);
                let ghost sv = s@;
                missing.push(s);
                assert(views(missing@) =~= before.push(sv));
                assert(sv =~= r@.name + " "@ + or_nothing(r@.target));
            },
            Source::Remove => {
                removals = removals + 1;
            },
            Source::File(_) => {
                if r.current.is_some() {
                    let ghost before = views(restored@);
                    let c = slice(name.as_slice(), 0, name.len());
                    assert(c@ =~= name@);
                    restored.push(c);
                    assert(views(restored@) =~= before.push(name@));
                }
            },
        }
        let is_missing = match &r.source {
            Source::Missing => true,
            _ => false,
        };
        if !is_missing && (is_critical_exec(name.as_slice()) || is_kernel_exec(name.as_slice())) {
            let ghost before = views(critical@);
            let c = slice(name.as_slice(), 0, name.len());
            assert(c@ =~= name@);
            critical.push(c);
            assert(views(critical@) =~= before.push(name@));
        }
        i = i + 1;
    }
    assert(rv.take(rollbacks.len() as int) =~= rv);
    (missing, restored, critical, removals)
}

/// Points of attention specific to a rollback.
pub fn analyze_rollback(l: Lang, rollbacks: &[Rollback], transaction: &Transaction, state: &State) -> (r: Vec<Risk>)
    ensures
        risk_views(r@) == rollback_risks(l, rbs(rollbacks@), transaction@.warnings, state.cache_keep as nat),
{
    let ghost rv = rbs(rollbacks@);
    let (missing, restored, critical, removals) = rb_lists(rollbacks);
    let mut r: Vec<Risk> = Vec::new();
    assert(risk_views(r@) =~= seq![]);
    let ghost s0 = risk_views(r@);
    if missing.len() > 0 {
        let title = fill1(l, "{0} package(s) not found: partial rollback", fmt_usize(missing.len()).as_slice());
        let keep = crate::text::fmt_u64(state.cache_keep as u64);
        let detail = fill2(l, "These versions are no longer in any local cache and will stay as they are: {0}. They were pruned by paccache, which keeps only {1} version(s) per package.", list_some(l, &missing, 6).as_slice(), keep.as_slice());
        push_risk(&mut r, Level::Serious, title, detail);
    }
    assert(risk_views(r@) =~= s0 + rb_missing(l, rv, state.cache_keep as nat));
    let ghost s1 = risk_views(r@);
    assert(missing.len() <= rollbacks.len()) by {
        lemma_missing_len(rv);
    }
    let recoverable = rollbacks.len() - missing.len();
    if missing.len() > recoverable && rollbacks.len() > 20 {
        let detail = fill2(l, "Fewer than half the packages ({0} of {1}) can go back down. The system would end up with a mix of both versions, never shipped nor tested that way. To really undo a transaction of this size, you need a filesystem snapshot.", fmt_usize(recoverable).as_slice(), fmt_usize(rollbacks.len()).as_slice());
        push_risk(&mut r, Level::Serious, t(l, "This rollback rebuilds an untested state, not the earlier one"), detail);
    }
    assert(risk_views(r@) =~= s1 + rb_untested(l, rv));
    let ghost s2 = risk_views(r@);
    if restored.len() > 0 {
        let detail = fill1(l, "pacman will offer the recent version again on the next -Syu. To freeze it for good, add IgnorePkg = {0} to /etc/pacman.conf.", list_some(l, &restored, 8).as_slice());
        push_risk(&mut r, Level::Caution, t(l, "The next full upgrade will undo this rollback"), detail);
    }
    assert(risk_views(r@) =~= s2 + rb_restored(l, rv));
    let ghost s3 = risk_views(r@);
    if critical.len() > 0 {
        let title = fill1(l, "Critical component downgraded: {0}", comma_exec(&critical).as_slice());
        push_risk(&mut r, Level::Serious, title, t(l, "The whole system is tied to these packages. An earlier version can make pacman itself unusable — keep rescue media within reach."));
    }
    assert(risk_views(r@) =~= s3 + rb_critical(l, rv));
    let ghost s4 = risk_views(r@);
    if restored.len() > 0 {
        push_risk(&mut r, Level::Caution, t(l, "Partial state: the rest of the system does not go back"), t(l, "Only the packages from this transaction go back. If one of them is linked against a library upgraded since, pacman will refuse — or the program will start against a version it does not know."));
    }
    assert(risk_views(r@) =~= s4 + rb_partial(l, rv));
    let ghost s5 = risk_views(r@);
    if removals > 0 {
        let title = fill1(l, "{0} package(s) will be uninstalled", fmt_usize(removals).as_slice());
        push_risk(&mut r, Level::Caution, title, t(l, "These are the ones the transaction had installed. Their configuration files under /etc are kept, but everything created since (data, enabled systemd units) stays on disk."));
    }
    assert(risk_views(r@) =~= s5 + rb_removals(l, rv));
    let ghost s6 = risk_views(r@);
    if transaction.warnings.len() > 0 {
        let title = fill1(l, "{0} warning(s) during the original transaction", fmt_usize(transaction.warnings.len()).as_slice());
        let ws = strings_to_rows(transaction.warnings.as_slice());
        let detail = join_str(ws.as_slice(), " · ");
        push_risk(&mut r, Level::Info, title, string_of(detail.as_slice()));
    }
    assert(risk_views(r@) =~= s6 + rb_warnings(l, transaction@.warnings));
    let ghost s7 = risk_views(r@);
    push_risk(&mut r, Level::Info, t(l, "Rolling back packages is not rolling back the system"), t(l, "The files the packages laid down go back. What a scriptlet or a hook has written since — a database migration, a rewritten configuration, a regenerated cache — stays as it is. For a real state rollback you need a snapshot (snapper/Btrfs)."));
    assert(risk_views(r@) =~= s7 + rb_last(l));
    assert(risk_views(r@) =~= rollback_risks(l, rv, transaction@.warnings, state.cache_keep as nat));
    r
}

proof fn lemma_missing_len(rs: Seq<RbView>)
    ensures
        missing_texts(rs).len() <= rs.len(),
    decreases rs.len(),
{
    if rs.len() > 0 {
        lemma_missing_len(rs.drop_last());
    }
}

// ---------------------------------------------------------------------------
// Laws
// ---------------------------------------------------------------------------

/// The order risks are read in: serious, then caution, then information.
pub open spec fn severity_rank(lv: Level) -> nat {
    match lv {
        Level::Serious => 0,
        Level::Caution => 1,
        Level::Info => 2,
    }
}

proof fn lemma_at_level(rs: Seq<RiskView>, lv: Level)
    ensures
        forall|i: int| 0 <= i < at_level(rs, lv).len() ==> (#[trigger] at_level(rs, lv)[i]).level == lv,
    decreases rs.len(),
{
    if rs.len() > 0 {
        lemma_at_level(rs.drop_last(), lv);
        let a = at_level(rs.drop_last(), lv);
        if rs.last().level == lv {
            assert forall|i: int| 0 <= i < a.push(rs.last()).len() implies (#[trigger] a.push(rs.last())[i]).level == lv by {
                if i < a.len() {
                    assert(a.push(rs.last())[i] == a[i]);
                }
            }
        }
    }
}

proof fn lemma_levels_partition(rs: Seq<RiskView>)
    ensures
        by_severity(rs).to_multiset() == rs.to_multiset(),
    decreases rs.len(),
{
    broadcast use vstd::seq_lib::group_to_multiset_ensures;
    broadcast use vstd::seq_lib::lemma_multiset_commutative;

    if rs.len() == 0 {
        assert(by_severity(rs) =~= seq![]);
    } else {
        let d = rs.drop_last();
        let e = rs.last();
        lemma_levels_partition(d);
        assert(rs =~= d.push(e));
        let s = at_level(d, Level::Serious);
        let c = at_level(d, Level::Caution);
        let f = at_level(d, Level::Info);
        assert(by_severity(d).to_multiset() =~= s.to_multiset().add(c.to_multiset()).add(f.to_multiset()));
        match e.level {
            Level::Serious => {
                assert(by_severity(rs) == s.push(e) + c + f);
            },
            Level::Caution => {
                assert(by_severity(rs) == s + c.push(e) + f);
            },
            Level::Info => {
                assert(by_severity(rs) == s + c + f.push(e));
            },
        }
        assert(by_severity(rs).to_multiset() =~= rs.to_multiset());
    }
}

/// Risks are listed most severe first, and the listing neither loses nor
/// invents one: what gets read when only one line is read is the worst.
pub proof fn law_most_severe_first(rs: Seq<RiskView>)
    ensures
        forall|i: int, j: int|
            0 <= i < j < by_severity(rs).len() ==> severity_rank((#[trigger] by_severity(rs)[i]).level)
                <= severity_rank((#[trigger] by_severity(rs)[j]).level),
        by_severity(rs).to_multiset() == rs.to_multiset(),
{
    lemma_at_level(rs, Level::Serious);
    lemma_at_level(rs, Level::Caution);
    lemma_at_level(rs, Level::Info);
    lemma_levels_partition(rs);
    let s = at_level(rs, Level::Serious);
    let c = at_level(rs, Level::Caution);
    let f = at_level(rs, Level::Info);
    let b = by_severity(rs);
    assert forall|i: int, j: int| 0 <= i < j < b.len() implies severity_rank((#[trigger] b[i]).level)
        <= severity_rank((#[trigger] b[j]).level) by {
        if i < s.len() {
            assert(b[i] == s[i]);
        } else if i < s.len() + c.len() {
            assert(b[i] == c[i - s.len()]);
        } else {
            assert(b[i] == f[i - s.len() - c.len()]);
        }
        if j < s.len() {
            assert(b[j] == s[j]);
        } else if j < s.len() + c.len() {
            assert(b[j] == c[j - s.len()]);
        } else {
            assert(b[j] == f[j - s.len() - c.len()]);
        }
    }
}

/// A removal always warns about what nothing declares and about the
/// configuration files that go with the package.
pub proof fn law_removal_always_warns(l: Lang, rows: Seq<RowView>, installed: Seq<PkgView>)
    ensures
        ({
            let r = removal_risks(l, rows, installed);
            &&& r.len() >= 2
            &&& r[r.len() - 2].level == Level::Caution
            &&& r[r.len() - 2].title == msg(l, "Dependencies loaded at run time are invisible"@)
            &&& r[r.len() - 1].level == Level::Info
            &&& r[r.len() - 1].title == msg(l, "Configuration files will be deleted"@)
        }),
{
}

proof fn lemma_named_row_is_listed(rows: Seq<RowView>, s: Sel, i: int)
    requires
        0 <= i < rows.len(),
        selected(rows[i], s),
    ensures
        names_of(rows, s).contains(rows[i].name),
        names_of(rows, s).len() > 0,
    decreases rows.len(),
{
    if i == rows.len() - 1 {
        assert(names_of(rows, s).last() == rows[i].name);
    } else {
        lemma_named_row_is_listed(rows.drop_last(), s, i);
        assert(rows.drop_last()[i] == rows[i]);
        let k = choose|k: int| 0 <= k < names_of(rows.drop_last(), s).len() && names_of(rows.drop_last(), s)[k] == rows[i].name;
        if selected(rows.last(), s) {
            assert(names_of(rows, s)[k] == rows[i].name);
        }
    }
}

proof fn lemma_level_kept(rs: Seq<RiskView>, x: RiskView)
    requires
        rs.contains(x),
    ensures
        at_level(rs, x.level).contains(x),
    decreases rs.len(),
{
    let k = choose|k: int| 0 <= k < rs.len() && rs[k] == x;
    if k == rs.len() - 1 {
        assert(at_level(rs, x.level).last() == x);
    } else {
        assert(rs.drop_last()[k] == x);
        lemma_level_kept(rs.drop_last(), x);
        let j = choose|j: int| 0 <= j < at_level(rs.drop_last(), x.level).len() && at_level(rs.drop_last(), x.level)[j] == x;
        if rs.last().level == x.level {
            assert(at_level(rs, x.level)[j] == x);
        }
    }
}

/// Every one of Arch's kernels in an upgrade asks for a reboot: it is named
/// among the packages that need one, and the upgrade's points of attention
/// carry the caution "Kernel upgraded (…): reboot required" naming it.
pub proof fn law_kernels_need_a_reboot(
    l: Lang,
    rows: Seq<RowView>,
    installed: Seq<PkgView>,
    ignored: Seq<IgnoreView>,
    excluded: Seq<Seq<char>>,
    i: int,
)
    requires
        0 <= i < rows.len(),
        rows[i].name == "linux"@ || rows[i].name == "linux-lts"@ || rows[i].name == "linux-zen"@
            || rows[i].name == "linux-hardened"@ || rows[i].name == "linux-rt"@ || rows[i].name
            == "linux-rt-lts"@,
    ensures
        names_of(rows, Sel::Reboot).contains(rows[i].name),
        names_of(rows, Sel::Kernel).contains(rows[i].name),
        by_severity(upgrade_risks(l, rows, installed, ignored, excluded)).contains(
            RiskView {
                level: Level::Caution,
                title: subst(translate(l, "Kernel upgraded ({0}): reboot required"@), seq![comma(names_of(rows, Sel::Kernel))]),
                detail: kernel_detail(l, dkms_count(installed)),
            },
        ),
{
    lemma_named_row_is_listed(rows, Sel::Reboot, i);
    lemma_named_row_is_listed(rows, Sel::Kernel, i);
    let x = RiskView {
        level: Level::Caution,
        title: subst(translate(l, "Kernel upgraded ({0}): reboot required"@), seq![comma(names_of(rows, Sel::Kernel))]),
        detail: kernel_detail(l, dkms_count(installed)),
    };
    let a = up_aur(l, rows) + up_partial(l, excluded);
    let rs = upgrade_risks(l, rows, installed, ignored, excluded);
    assert(up_kernel(l, rows, installed) == seq![x]);
    assert(rs[a.len() as int] == x);
    lemma_level_kept(rs, x);
    let c = at_level(rs, Level::Caution);
    let j = choose|j: int| 0 <= j < c.len() && c[j] == x;
    let s = at_level(rs, Level::Serious);
    assert(by_severity(rs)[s.len() + j] == x);
}

/// The building blocks the rest of the system depends on — glibc, systemd,
/// pacman, openssl, gcc-libs, bash — are flagged in an upgrade: named among
/// the packages after which to reboot, and under the caution "Essential
/// system components".
pub proof fn law_essential_components_are_flagged(
    l: Lang,
    rows: Seq<RowView>,
    installed: Seq<PkgView>,
    ignored: Seq<IgnoreView>,
    excluded: Seq<Seq<char>>,
    i: int,
)
    requires
        0 <= i < rows.len(),
        rows[i].name == "glibc"@ || rows[i].name == "systemd"@ || rows[i].name == "pacman"@
            || rows[i].name == "openssl"@ || rows[i].name == "gcc-libs"@ || rows[i].name == "bash"@,
    ensures
        names_of(rows, Sel::Reboot).contains(rows[i].name),
        names_of(rows, Sel::Critical).contains(rows[i].name),
        by_severity(upgrade_risks(l, rows, installed, ignored, excluded)).contains(
            RiskView {
                level: Level::Caution,
                title: subst(translate(l, "Essential system components: {0}"@), seq![comma(names_of(rows, Sel::Critical))]),
                detail: translate(l, "Do not interrupt the operation once started. A cut here can stop the machine from booting."@),
            },
        ),
{
    lemma_named_row_is_listed(rows, Sel::Reboot, i);
    lemma_named_row_is_listed(rows, Sel::Critical, i);
    let x = RiskView {
        level: Level::Caution,
        title: subst(translate(l, "Essential system components: {0}"@), seq![comma(names_of(rows, Sel::Critical))]),
        detail: translate(l, "Do not interrupt the operation once started. A cut here can stop the machine from booting."@),
    };
    let a = up_aur(l, rows) + up_partial(l, excluded) + up_kernel(l, rows, installed);
    let rs = upgrade_risks(l, rows, installed, ignored, excluded);
    assert(up_critical(l, rows) == seq![x]);
    assert(rs[a.len() as int] == x);
    lemma_level_kept(rs, x);
    let c = at_level(rs, Level::Caution);
    let j = choose|j: int| 0 <= j < c.len() && c[j] == x;
    let s = at_level(rs, Level::Serious);
    assert(by_severity(rs)[s.len() + j] == x);
}

} // verus!
