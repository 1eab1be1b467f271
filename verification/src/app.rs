//! Screens, tabs, and the navigation state between them.

use vstd::prelude::*;
use crate::i18n::{Lang, t, tf, translate, subst};
use crate::data::{State, Pkg, PkgView, Resolved, ResolvedView, pkg_views, ignore_views, resolved_views};
use crate::plan::{
    Plan, PlanView, Kind, count_kind, upgrade_command, exclusions, left_out, upgrade_command_spec,
    removal_plan, removal_rows, removal_names, totals, from_rollback, rollback_rows, empty,
    quick_plan, quick_rows,
};
use crate::risks::{Risk, RiskView, risk_views, analyze, by_severity, upgrade_risks, removal_risks, analyze_rollback, rollback_risks};
use crate::history::{
    Caches, Transaction, Rollback, rbs, ops, rollback_plan, inverse_all, rollback_command,
    rollback_command_spec, readable_command, readable_spec, short_date, short_date_spec,
    summary_text,
};
use crate::theme::{human_size, size_text};
use crate::journal::{fill1, fill2};
use crate::text::{
    chars_of, string_of, owned, append, join, join_str, strs, views, dec, fmt_usize, fmt_u64, contains,
    lowercase, lowered, has,
};
use crate::search::{Search, Hit, HitView};

verus! {

/// Active screen. The path is always the same: pick in the table, approve a
/// plan, then watch paru work.
#[derive(Debug, Clone, Copy, PartialEq, Eq, Structural)]
pub enum Mode {
    Table,
    Plan,
    Running,
    /// What an update changes, before launching it.
    Changelog,
    /// The AUR recipes of the plan, before launching it.
    Pkgbuild,
}

#[derive(Debug, Clone, Copy, PartialEq, Eq, Structural)]
pub enum Tab {
    Updates,
    Installed,
    Orphans,
    History,
    Search,
    Cache,
}

impl Tab {
    /// Every tab, in display order.
    pub const ALL: [Tab; 6] = [
        Tab::Updates,
        Tab::Installed,
        Tab::Orphans,
        Tab::History,
        Tab::Search,
        Tab::Cache,
    ];

    pub open spec fn title_key(self) -> Seq<char> {
        match self {
            Tab::Updates => "Updates"@,
            Tab::Installed => "tab|Installed"@,
            Tab::Orphans => "Orphans"@,
            Tab::History => "History"@,
            Tab::Search => "Search"@,
            Tab::Cache => "Cache"@,
        }
    }

    pub fn title(self, l: Lang) -> (r: String)
        ensures
            r@ == translate(l, self.title_key()),
    {
        t(
            l,
            match self {
                Tab::Updates => "Updates",
                Tab::Installed => "tab|Installed",
                Tab::Orphans => "Orphans",
                Tab::History => "History",
                Tab::Search => "Search",
                Tab::Cache => "Cache",
            },
        )
    }
}

#[derive(Debug, Clone, Copy, PartialEq, Eq, Structural)]
pub enum Severity {
    Info,
    Success,
    Warning,
}

/// What the user is about to launch, with everything needed to show it first.
pub struct Intent {
    pub title: String,
    pub cmd: Vec<String>,
    /// Readable form of the command, when the real one is unreadable: a
    /// rollback lists a hundred and eighty cache paths.
    pub display_command: Option<String>,
    pub plan: Plan,
    /// Flips how totals read: space is freed rather than taken.
    pub removal: bool,
    pub notes: Vec<String>,
    /// Points of attention, computed once when the plan is built.
    pub risks: Vec<Risk>,
}

pub struct IntentView {
    pub title: Seq<char>,
    pub cmd: Seq<Seq<char>>,
    pub display_command: Option<Seq<char>>,
    pub plan: PlanView,
    pub removal: bool,
    pub notes: Seq<Seq<char>>,
    pub risks: Seq<RiskView>,
}

impl View for Intent {
    type V = IntentView;

    open spec fn view(&self) -> IntentView {
        IntentView {
            title: self.title@,
            cmd: strs(self.cmd@),
            display_command: match self.display_command {
                Some(d) => Some(d@),
                None => None,
            },
            plan: self.plan@,
            removal: self.removal,
            notes: strs(self.notes@),
            risks: risk_views(self.risks@),
        }
    }
}

pub open spec fn m0(l: Lang, key: Seq<char>) -> Seq<char> {
    translate(l, key)
}

pub open spec fn m1(l: Lang, key: Seq<char>, a: Seq<char>) -> Seq<char> {
    subst(translate(l, key), seq![a])
}

pub open spec fn m2(l: Lang, key: Seq<char>, a: Seq<char>, b: Seq<char>) -> Seq<char> {
    subst(translate(l, key), seq![a, b])
}

/// The names of the pending updates.
pub open spec fn update_names(st: Seq<crate::data::PkgView>) -> Seq<Seq<char>> {
    st.map_values(|p: crate::data::PkgView| p.name)
}

/// The title announces what will really happen, not the command: in front of
/// a single package to update, "full system upgrade" suggested a major
/// undertaking.
pub open spec fn upgrade_title(l: Lang, p: PlanView, excluded: nat) -> Seq<char> {
    let n = count_kind(p.rows, Kind::New);
    m1(l, "Update · {0} package(s)"@, dec(p.rows.len())) + (if n > 0 {
        m1(l, ", {0} of them new"@, dec(n))
    } else {
        seq![]
    }) + (if excluded > 0 {
        m1(l, " · {0} left out"@, dec(excluded))
    } else {
        seq![]
    })
}

pub open spec fn upgrade_notes(l: Lang, p: PlanView, excluded: Seq<Seq<char>>) -> Seq<Seq<char>> {
    (if excluded.len() > 0 {
        seq![
            m2(l, "{0} update(s) excluded through --ignore: {1}."@, dec(excluded.len()), join(excluded, ", "@)),
            m0(l, "A partial upgrade is not supported on Arch: keep it for one-off cases."@),
        ]
    } else {
        seq![]
    }) + if p.aur_count > 0 {
        seq![
            m1(l, "{0} AUR package(s): built from source, with unpredictable duration and size."@, dec(p.aur_count)),
            m0(l, "paru will ask its own questions (reading the PKGBUILD, PGP keys)."@),
        ]
    } else {
        seq![m0(l, "paru will run without asking again: this approval is what counts."@)]
    }
}

fn push_s(v: &mut Vec<String>, s: String)
    ensures
        strs(final(v)@) == strs(old(v)@).push(s@),
{
    let ghost before = strs(v@);
    let ghost sv = s@;
    v.push(s);
    assert(strs(v@) =~= before.push(sv));
}

fn names_of_updates(st: &State) -> (r: Vec<String>)
    ensures
        strs(r@) == update_names(pkg_views(st.updates@)),
{
    let mut out: Vec<String> = Vec::new();
    let mut i: usize = 0;
    while i < st.updates.len()
        invariant
            i <= st.updates.len(),
            strs(out@) == update_names(pkg_views(st.updates@)).take(i as int),
        decreases st.updates.len() - i,
    {
        push_s(&mut out, st.updates[i].name.clone());
        assert(update_names(pkg_views(st.updates@)).take(i + 1) =~= update_names(pkg_views(st.updates@)).take(i as int).push(st.updates@[i as int].name@));
        i = i + 1;
    }
    assert(update_names(pkg_views(st.updates@)).take(st.updates.len() as int) =~= update_names(pkg_views(st.updates@)));
    out
}

fn rows_of(v: &Vec<String>) -> (r: Vec<Vec<char>>)
    ensures
        views(r@) == strs(v@),
{
    let mut out: Vec<Vec<char>> = Vec::new();
    let mut i: usize = 0;
    while i < v.len()
        invariant
            i <= v.len(),
            views(out@) == strs(v@).take(i as int),
        decreases v.len() - i,
    {
        let ghost before = views(out@);
        let c = chars_of(v[i].as_str());
        out.push(c);
        assert(views(out@) =~= before.push(v@[i as int]@));
        assert(strs(v@).take(i + 1) =~= strs(v@).take(i as int).push(v@[i as int]@));
        i = i + 1;
    }
    assert(strs(v@).take(v.len() as int) =~= strs(v@));
    out
}

/// The plan screen of an upgrade, from the checked names and the plan built
/// for them. With nothing checked there is nothing to approve.
pub fn upgrade_intent(l: Lang, state: &State, targets: &[String], plan: Plan) -> (r: Result<Intent, String>)
    ensures
        targets@.len() == 0 ==> (r matches Err(m) && m@ == m0(l, "No package checked — press a to check them all"@)),
        targets@.len() > 0 ==> (r matches Ok(i) && {
            let av = update_names(pkg_views(state.updates@));
            let ex = left_out(av, strs(targets@));
            &&& i@.plan == plan@
            &&& i@.cmd == upgrade_command_spec(av, strs(targets@), plan@.aur_count > 0)
            &&& i@.title == upgrade_title(l, plan@, ex.len())
            &&& i@.notes == upgrade_notes(l, plan@, ex)
            &&& i@.risks == by_severity(upgrade_risks(l, plan@.rows, pkg_views(state.installed@), ignore_views(state.ignored@), ex))
            &&& i@.display_command is None
            &&& !i@.removal
        }),
{
    if targets.len() == 0 {
        return Err(t(l, "No package checked — press a to check them all"));
    }
    let available = names_of_updates(state);
    let excluded = exclusions(available.as_slice(), targets);
    let cmd = upgrade_command(available.as_slice(), targets, plan.aur_count > 0);
    let mut notes: Vec<String> = Vec::new();
    if excluded.len() > 0 {
        let ex = rows_of(&excluded);
        push_s(&mut notes, fill2(l, "{0} update(s) excluded through --ignore: {1}.", fmt_usize(excluded.len()).as_slice(), join_str(ex.as_slice(), ", ").as_slice()));
        push_s(&mut notes, t(l, "A partial upgrade is not supported on Arch: keep it for one-off cases."));
    }
    if plan.aur_count > 0 {
        push_s(&mut notes, fill1(l, "{0} AUR package(s): built from source, with unpredictable duration and size.", fmt_usize(plan.aur_count).as_slice()));
        push_s(&mut notes, t(l, "paru will ask its own questions (reading the PKGBUILD, PGP keys)."));
    } else {
        push_s(&mut notes, t(l, "paru will run without asking again: this approval is what counts."));
    }
    assert(strs(notes@) =~= upgrade_notes(l, plan@, strs(excluded@)));
    let n = plan.rows.len();
    let new_count = plan.count(Kind::New);
    let mut title = chars_of(fill1(l, "Update · {0} package(s)", fmt_usize(n).as_slice()).as_str());
    if new_count > 0 {
        append(&mut title, chars_of(fill1(l, ", {0} of them new", fmt_usize(new_count).as_slice()).as_str()).as_slice());
    }
    if excluded.len() > 0 {
        append(&mut title, chars_of(fill1(l, " · {0} left out", fmt_usize(excluded.len()).as_slice()).as_str()).as_slice());
    }
    assert(title@ =~= upgrade_title(l, plan@, strs(excluded@).len()));
    let risks = analyze(l, &plan, state, excluded.as_slice(), false);
    Ok(Intent {
        title: string_of(title.as_slice()),
        cmd,
        display_command: None,
        plan,
        removal: false,
        notes,
        risks,
    })
}

/// The checked names that are not protected: keep.list exists so that they
/// cannot be removed.
pub open spec fn unprotected(names: Seq<Seq<char>>, keep: Seq<Seq<char>>) -> Seq<Seq<char>>
    decreases names.len(),
{
    if names.len() == 0 {
        seq![]
    } else if keep.contains(names.last()) {
        unprotected(names.drop_last(), keep)
    } else {
        unprotected(names.drop_last(), keep).push(names.last())
    }
}

/// The plan screen of a removal. `cascade` is what the removal dry run
/// announced for the unprotected names.
pub fn removal_intent(l: Lang, state: &State, checked: &[String], keep: &[String], cascade: &[Resolved]) -> (r: Result<Intent, String>)
    ensures
        unprotected(strs(checked@), strs(keep@)).len() == 0 ==> (r matches Err(m) && m@ == m0(l, "No package checked"@)),
        unprotected(strs(checked@), strs(keep@)).len() > 0 ==> (r matches Ok(i) && {
            let tg = unprotected(strs(checked@), strs(keep@));
            let p = totals(removal_rows(pkg_views(state.installed@), tg, removal_names(tg, resolved_views(cascade@))), 0);
            &&& i@.plan == p
            &&& i@.cmd == seq!["paru"@, "-Rns"@, "--noconfirm"@] + tg
            &&& i@.title == m1(l, "Removal · {0} package(s)"@, dec(p.rows.len()))
            &&& i@.notes == seq![m0(l, "-Rns also removes dependencies nothing needs any more, along with configuration files."@)]
            &&& i@.risks == by_severity(removal_risks(l, p.rows, pkg_views(state.installed@)))
            &&& i@.display_command is None
            &&& i@.removal
        }),
{
    let ghost ck = strs(checked@);
    let ghost kp = strs(keep@);
    let mut targets: Vec<String> = Vec::new();
    let mut i: usize = 0;
    assert(ck.take(0) =~= seq![]);
    assert(strs(targets@) =~= seq![]);
    while i < checked.len()
        invariant
            i <= checked.len(),
            ck == strs(checked@),
            kp == strs(keep@),
            strs(targets@) == unprotected(ck.take(i as int), kp),
        decreases checked.len() - i,
    {
        assert(ck.take(i + 1).drop_last() =~= ck.take(i as int));
        assert(ck.take(i + 1).last() == checked@[i as int]@);
        if !crate::plan::among(keep, checked[i].as_str()) {
            push_s(&mut targets, checked[i].clone());
        }
        i = i + 1;
    }
    assert(ck.take(checked.len() as int) =~= ck);
    if targets.len() == 0 {
        return Err(t(l, "No package checked"));
    }
    let mut cmd: Vec<String> = Vec::new();
    push_s(&mut cmd, owned("paru"));
    push_s(&mut cmd, owned("-Rns"));
    push_s(&mut cmd, owned("--noconfirm"));
    let ghost head = strs(cmd@);
    let mut k: usize = 0;
    while k < targets.len()
        invariant
            k <= targets.len(),
            strs(cmd@) == head + strs(targets@).take(k as int),
        decreases targets.len() - k,
    {
        push_s(&mut cmd, targets[k].clone());
        assert(strs(targets@).take(k + 1) =~= strs(targets@).take(k as int).push(targets@[k as int]@));
        assert(strs(cmd@) =~= head + strs(targets@).take(k + 1));
        k = k + 1;
    }
    assert(strs(targets@).take(targets.len() as int) =~= strs(targets@));
    let plan = removal_plan(state, targets.as_slice(), cascade);
    let title = fill1(l, "Removal · {0} package(s)", fmt_usize(plan.rows.len()).as_slice());
    let risks = analyze(l, &plan, state, &[], true);
    let mut notes: Vec<String> = Vec::new();
    push_s(&mut notes, t(l, "-Rns also removes dependencies nothing needs any more, along with configuration files."));
    Ok(Intent { title, cmd, display_command: None, plan, removal: true, notes, risks })
}

/// Why a rollback cannot be offered.
pub enum Refusal {
    /// A reinstall only: nothing to undo.
    NothingToUndo,
    /// None of the versions involved is still in cache.
    NothingCached,
}

pub open spec fn missing_count(rs: Seq<crate::history::RbView>) -> nat
    decreases rs.len(),
{
    if rs.len() == 0 {
        0
    } else {
        missing_count(rs.drop_last()) + if rs.last().source is Missing {
            1nat
        } else {
            0nat
        }
    }
}

pub open spec fn rollback_notes(l: Lang, t: crate::history::TxView, rs: Seq<crate::history::RbView>) -> Seq<Seq<char>> {
    seq![
        m2(l, "Transaction of {0} — {1}."@, short_date_spec(t.timestamp), summary_text(l, t.operations)),
        m0(l, "The packages come from local caches: nothing is downloaded, no repository is queried."@),
    ] + if missing_count(rs) > 0 {
        seq![m1(l, "{0} package(s) will stay as they are, for lack of a cached version."@, dec(missing_count(rs)))]
    } else {
        seq![]
    }
}

/// The inverse of a transaction from the history, as a plan to approve.
pub fn rollback_intent(l: Lang, caches: &Caches, tx: &Transaction, state: &State) -> (r: Result<Intent, Refusal>)
    ensures
        ({
            let rs = inverse_all(*caches, ops(tx.operations@));
            &&& rs.len() == 0 ==> (r matches Err(Refusal::NothingToUndo))
            &&& rs.len() > 0 && rollback_command_spec(rs) is None ==> (r matches Err(Refusal::NothingCached))
            &&& rs.len() > 0 && rollback_command_spec(rs) is Some ==> (r matches Ok(i) && {
                let p = totals(rollback_rows(l, rs), 0);
                &&& i@.plan == p
                &&& Some(i@.cmd) == rollback_command_spec(rs)
                &&& i@.display_command == Some(readable_spec(l, rs))
                &&& i@.title == m2(l, "Rollback · {0} package(s) of {1}"@, dec(p.rows.len()), dec(rs.len()))
                &&& i@.notes == rollback_notes(l, tx@, rs)
                &&& i@.risks == rollback_risks(l, rs, tx@.warnings, state.cache_keep as nat)
                &&& !i@.removal
            })
        }),
{
    let rollbacks = rollback_plan(caches, tx);
    if rollbacks.len() == 0 {
        return Err(Refusal::NothingToUndo);
    }
    let cmd = match rollback_command(rollbacks.as_slice()) {
        Some(c) => c,
        None => return Err(Refusal::NothingCached),
    };
    let plan = from_rollback(l, rollbacks.as_slice());
    let ghost rv = rbs(rollbacks@);
    let mut missing: usize = 0;
    let mut i: usize = 0;
    assert(rv.take(0) =~= seq![]);
    while i < rollbacks.len()
        invariant
            i <= rollbacks.len(),
            rv == rbs(rollbacks@),
            missing == missing_count(rv.take(i as int)),
            missing <= i,
        decreases rollbacks.len() - i,
    {
        assert(rv.take(i + 1).drop_last() =~= rv.take(i as int));
        assert(rv.take(i + 1).last() == rollbacks@[i as int]@);
        if !rollbacks[i].is_possible() {
            missing = missing + 1;
        }
        i = i + 1;
    }
    assert(rv.take(rollbacks.len() as int) =~= rv);
    let mut notes: Vec<String> = Vec::new();
    let date = short_date(tx.timestamp.as_str());
    let summary = tx.summary(l);
    push_s(&mut notes, fill2(l, "Transaction of {0} — {1}.", chars_of(date.as_str()).as_slice(), chars_of(summary.as_str()).as_slice()));
    push_s(&mut notes, t(l, "The packages come from local caches: nothing is downloaded, no repository is queried."));
    if missing > 0 {
        push_s(&mut notes, fill1(l, "{0} package(s) will stay as they are, for lack of a cached version.", fmt_usize(missing).as_slice()));
    }
    assert(strs(notes@) =~= rollback_notes(l, tx@, rv));
    let risks = analyze_rollback(l, rollbacks.as_slice(), tx, state);
    let title = fill2(l, "Rollback · {0} package(s) of {1}", fmt_usize(plan.rows.len()).as_slice(), fmt_usize(rollbacks.len()).as_slice());
    Ok(Intent {
        title,
        cmd,
        display_command: Some(readable_command(l, rollbacks.as_slice())),
        plan,
        removal: false,
        notes,
        risks,
    })
}

/// Pruning the cache to the retention configured for `paccache.timer`, so the
/// cache does not oscillate between two policies.
pub open spec fn cache_title(l: Lang, keep: nat) -> Seq<char> {
    m1(l, "Cleaning the cache (keep {0} versions)"@, dec(keep))
}

pub fn cache_intent(l: Lang, state: &State) -> (r: Intent)
    ensures
        r@.title == cache_title(l, state.cache_keep as nat),
        r@.cmd == seq!["sudo"@, "paccache"@, "-rk"@ + dec(state.cache_keep as nat)],
        r@.notes == seq![m1(l, "Frees roughly {0} of old versions."@, size_text(l, (state.cache_prunable as i64) as int))],
        r@.plan == totals(seq![], 0),
        r@.risks.len() == 0,
        r@.display_command is None,
        r@.removal,
{
    let keep = fmt_u64(state.cache_keep as u64);
    let title = fill1(l, "Cleaning the cache (keep {0} versions)", keep.as_slice());
    let mut arg = chars_of("-rk");
    append(&mut arg, keep.as_slice());
    let mut cmd: Vec<String> = Vec::new();
    push_s(&mut cmd, owned("sudo"));
    push_s(&mut cmd, owned("paccache"));
    push_s(&mut cmd, string_of(arg.as_slice()));
    let size = human_size(l, state.cache_prunable as i64);
    let mut notes: Vec<String> = Vec::new();
    push_s(&mut notes, fill1(l, "Frees roughly {0} of old versions.", chars_of(size.as_str()).as_slice()));
    let risks: Vec<Risk> = Vec::new();
    assert(risk_views(risks@).len() == 0);
    Intent {
        title,
        cmd,
        display_command: None,
        plan: empty(),
        removal: true,
        notes,
        risks,
    }
}

/// Purging from the cache the packages that are no longer installed.
pub fn purge_intent(l: Lang, state: &State) -> (r: Intent)
    ensures
        r@.title == m0(l, "Purge uninstalled packages from the cache"@),
        r@.cmd == seq!["sudo"@, "paccache"@, "-ruk0"@],
        r@.notes == seq![m1(l, "Frees roughly {0} — these packages are no longer installed, but you lose the ability to reinstall them offline."@, size_text(l, (state.cache_uninstalled as i64) as int))],
        r@.plan == totals(seq![], 0),
        r@.risks.len() == 0,
        r@.display_command is None,
        r@.removal,
{
    let mut cmd: Vec<String> = Vec::new();
    push_s(&mut cmd, owned("sudo"));
    push_s(&mut cmd, owned("paccache"));
    push_s(&mut cmd, owned("-ruk0"));
    let size = human_size(l, state.cache_uninstalled as i64);
    let mut notes: Vec<String> = Vec::new();
    push_s(&mut notes, fill1(l, "Frees roughly {0} — these packages are no longer installed, but you lose the ability to reinstall them offline.", chars_of(size.as_str()).as_slice()));
    let risks: Vec<Risk> = Vec::new();
    assert(risk_views(risks@).len() == 0);
    Intent {
        title: t(l, "Purge uninstalled packages from the cache"),
        cmd,
        display_command: None,
        plan: empty(),
        removal: true,
        notes,
        risks,
    }
}

/// The row the cursor moves to: `delta` rows away, wrapping around the `n`
/// rows of the list.
pub fn wrap_index(current: usize, delta: isize, n: usize) -> (r: usize)
    requires
        n > 0,
    ensures
        r < n,
        r as int == (current as int + delta as int) % (n as int),
{
    let c: u128 = (current % n) as u128;
    let nn: u128 = n as u128;
    proof {
        vstd::arithmetic::div_mod::lemma_mod_bound(current as int, n as int);
    }
    if delta >= 0 {
        let d: u128 = (delta as u128) % nn;
        let r = ((c + d) % nn) as usize;
        proof {
            vstd::arithmetic::div_mod::lemma_add_mod_noop(current as int, delta as int, n as int);
        }
        r
    } else {
        let e: u128 = (0 - (delta as i128)) as u128;
        let d: u128 = e % nn;
        let r = ((c + nn - d) % nn) as usize;
        proof {
            let x = current as int;
            let y = e as int;
            let m = n as int;
            vstd::arithmetic::div_mod::lemma_sub_mod_noop(x, y, m);
            vstd::arithmetic::div_mod::lemma_mod_add_multiples_vanish((x % m) - (y % m), m);
            assert(m + ((x % m) - (y % m)) == (c + nn - d) as int);
            assert(x - y == current as int + delta as int);
        }
        r
    }
}


// ---------------------------------------------------------------------------
// The table screen
// ---------------------------------------------------------------------------

/// The tab at a position of `Tab::ALL`.
pub open spec fn tab_at(i: int) -> Tab {
    if i == 0 {
        Tab::Updates
    } else if i == 1 {
        Tab::Installed
    } else if i == 2 {
        Tab::Orphans
    } else if i == 3 {
        Tab::History
    } else if i == 4 {
        Tab::Search
    } else {
        Tab::Cache
    }
}

/// The tabs that lead to a removal.
pub open spec fn is_removal_tab(t: Tab) -> bool {
    t == Tab::Installed || t == Tab::Orphans
}

/// The filter matches a package by its name or its description, whatever the
/// case.
pub open spec fn matches_filter(p: PkgView, f: Seq<char>) -> bool {
    contains(lowercase(p.name), lowercase(f)) || contains(lowercase(p.description), lowercase(f))
}

/// Whether a tab lists a package: every update in the updates tab, the
/// packages installed on purpose that nothing requires in the installed tab,
/// the orphans in theirs, nothing elsewhere; then the filter, when one is
/// typed.
pub open spec fn shown(t: Tab, p: PkgView, f: Seq<char>) -> bool {
    (match t {
        Tab::Updates => true,
        Tab::Installed => p.explicit && p.required_by.len() == 0,
        Tab::Orphans => !p.explicit && p.required_by.len() == 0 && p.optional_for.len() == 0,
        _ => false,
    }) && (f.len() == 0 || matches_filter(p, f))
}

/// The packages of `s` that a tab lists, in order.
pub open spec fn listed(s: Seq<PkgView>, t: Tab, f: Seq<char>) -> Seq<PkgView>
    decreases s.len(),
{
    if s.len() == 0 {
        seq![]
    } else if shown(t, s.last(), f) {
        listed(s.drop_last(), t, f).push(s.last())
    } else {
        listed(s.drop_last(), t, f)
    }
}

/// The rows of a tab: drawn from the updates for the updates tab, from the
/// installed packages otherwise.
pub open spec fn rows_spec(t: Tab, installed: Seq<PkgView>, updates: Seq<PkgView>, f: Seq<char>) -> Seq<PkgView> {
    listed(if t == Tab::Updates { updates } else { installed }, t, f)
}

/// The transactions of the history the filter keeps, in order.
pub open spec fn kept_history(h: Seq<Transaction>, f: Seq<char>) -> Seq<Transaction>
    decreases h.len(),
{
    if h.len() == 0 {
        seq![]
    } else if f.len() == 0 || h.last().matches_spec(f) {
        kept_history(h.drop_last(), f).push(h.last())
    } else {
        kept_history(h.drop_last(), f)
    }
}

pub open spec fn pkg_ref_views(v: Seq<&Pkg>) -> Seq<PkgView> {
    v.map_values(|p: &Pkg| p@)
}

pub open spec fn tx_refs(v: Seq<&Transaction>) -> Seq<Transaction> {
    v.map_values(|t: &Transaction| *t)
}

/// The state of the table screen: the snapshot it shows, the tab, the
/// cursor, what is checked. The screens built on top of it (plans, runs)
/// live in the intent.
pub struct App {
    pub lang: Lang,
    pub state: State,
    /// Names protected from removal.
    pub keep: Vec<String>,
    /// Past transactions, most recent first.
    pub history: Vec<Transaction>,
    pub caches: Caches,
    pub search: Search,
    /// Position of the current tab in `Tab::ALL`.
    pub tab: usize,
    /// Row under the cursor; `None` on an empty list.
    pub cursor: Option<usize>,
    /// Scroll inside the selected transaction's detail.
    pub detail_scroll: u16,
    /// Checked names, each once.
    pub checked: Vec<String>,
    pub filter: String,
    /// The filter is being typed.
    pub search_mode: bool,
    pub message: Option<(String, Severity)>,
    pub mode: Mode,
    pub intent: Option<Intent>,
    pub quit: bool,
}

impl App {
    /// Its invariant: a tab that exists, and no name checked twice.
    pub open spec fn wf(&self) -> bool {
        &&& self.tab < 6
        &&& strs(self.checked@).no_duplicates()
        &&& self.caches.wf()
    }

    pub open spec fn tab_spec(&self) -> Tab {
        tab_at(self.tab as int)
    }

    pub open spec fn rows_view(&self) -> Seq<PkgView> {
        rows_spec(self.tab_spec(), pkg_views(self.state.installed@), pkg_views(self.state.updates@), self.filter@)
    }

    pub open spec fn history_view(&self) -> Seq<Transaction> {
        kept_history(self.history@, self.filter@)
    }

    pub open spec fn hits_view(&self) -> Seq<Hit> {
        match self.search.state {
            crate::search::State::Done(v) => v@,
            _ => seq![],
        }
    }

    /// How many rows the current tab can move through: the history lists
    /// transactions, the search its results, the cache nothing.
    pub open spec fn count_spec(&self) -> nat {
        match self.tab_spec() {
            Tab::History => self.history_view().len(),
            Tab::Search => self.hits_view().len(),
            Tab::Cache => 0,
            _ => self.rows_view().len(),
        }
    }

    /// Everything but the tab, the cursor, the detail scroll, the filter,
    /// the checked names and the message.
    pub open spec fn same_content(&self, other: &App) -> bool {
        &&& self.lang == other.lang
        &&& self.state == other.state
        &&& self.keep == other.keep
        &&& self.history == other.history
        &&& self.caches == other.caches
        &&& self.search == other.search
        &&& self.search_mode == other.search_mode
        &&& self.mode == other.mode
        &&& self.intent == other.intent
        &&& self.quit == other.quit
    }

    /// The table screen on a fresh snapshot: the updates tab, the cursor on
    /// its first row, nothing checked.
    pub fn new(lang: Lang, state: State, keep: Vec<String>, history: Vec<Transaction>, caches: Caches) -> (r: App)
        requires
            caches.wf(),
        ensures
            r.wf(),
            r.lang == lang,
            r.state == state,
            r.keep == keep,
            r.history == history,
            r.caches == caches,
            r.tab == 0,
            r.cursor == Some(0usize),
            r.detail_scroll == 0,
            r.checked@.len() == 0,
            r.filter@.len() == 0,
            !r.search_mode,
            r.message is None,
            r.mode == Mode::Table,
            r.intent is None,
            !r.quit,
            r.search.query@.len() == 0,
            r.search.state is Idle,
    {
        let r = App {
            lang,
            state,
            keep,
            history,
            caches,
            search: Search::new(),
            tab: 0,
            cursor: Some(0),
            detail_scroll: 0,
            checked: Vec::new(),
            filter: String::new(),
            search_mode: false,
            message: None,
            mode: Mode::Table,
            intent: None,
            quit: false,
        };
        assert(strs(r.checked@) =~= seq![]);
        r
    }

    pub fn current_tab(&self) -> (r: Tab)
        requires
            self.tab < 6,
        ensures
            r == self.tab_spec(),
    {
        match self.tab {
            0 => Tab::Updates,
            1 => Tab::Installed,
            2 => Tab::Orphans,
            3 => Tab::History,
            4 => Tab::Search,
            _ => Tab::Cache,
        }
    }

    /// True when the current tab leads to a removal.
    pub fn is_removal_view(&self) -> (r: bool)
        requires
            self.tab < 6,
        ensures
            r == is_removal_tab(self.tab_spec()),
    {
        let t = self.current_tab();
        t == Tab::Installed || t == Tab::Orphans
    }

    pub fn is_protected(&self, name: &str) -> (r: bool)
        ensures
            r == strs(self.keep@).contains(name@),
    {
        crate::plan::among(self.keep.as_slice(), name)
    }

    /// The packages the current tab shows, the filter applied.
    pub fn rows(&self) -> (r: Vec<&Pkg>)
        requires
            self.tab < 6,
        ensures
            pkg_ref_views(r@) == self.rows_view(),
    {
        let t = self.current_tab();
        let source = if t == Tab::Updates {
            &self.state.updates
        } else {
            &self.state.installed
        };
        let ghost sv = pkg_views(source@);
        let fv = chars_of(self.filter.as_str());
        let f = lowered(&fv);
        let filtering = fv.len() > 0;
        let mut out: Vec<&Pkg> = Vec::new();
        let mut i: usize = 0;
        while i < source.len()
            invariant
                i <= source.len(),
                sv == pkg_views(source@),
                f@ == lowercase(self.filter@),
                filtering == (self.filter@.len() > 0),
                pkg_ref_views(out@) == listed(sv.take(i as int), t, self.filter@),
            decreases source.len() - i,
        {
            let p = &source[i];
            let by_tab = match t {
                Tab::Updates => true,
                Tab::Installed => p.is_root(),
                Tab::Orphans => p.is_orphan(),
                _ => false,
            };
            let keep = by_tab && (!filtering || {
                let n = lowered(&chars_of(p.name.as_str()));
                let d = lowered(&chars_of(p.description.as_str()));
                has(n.as_slice(), f.as_slice()) || has(d.as_slice(), f.as_slice())
            });
            let ghost before = pkg_ref_views(out@);
            assert(sv.take(i + 1).drop_last() =~= sv.take(i as int));
            assert(sv.take(i + 1).last() == sv[i as int]);
            assert(sv[i as int] == p@);
            if keep {
                out.push(p);
                assert(pkg_ref_views(out@) =~= before.push(p@));
            }
            i = i + 1;
        }
        assert(sv.take(source.len() as int) =~= sv);
        out
    }

    /// The transactions of the history the filter keeps.
    pub fn filtered_history(&self) -> (r: Vec<&Transaction>)
        ensures
            tx_refs(r@) == self.history_view(),
    {
        let ghost h = self.history@;
        let empty_filter = chars_of(self.filter.as_str()).len() == 0;
        let mut out: Vec<&Transaction> = Vec::new();
        let mut i: usize = 0;
        while i < self.history.len()
            invariant
                i <= self.history.len(),
                h == self.history@,
                empty_filter == (self.filter@.len() == 0),
                tx_refs(out@) == kept_history(h.take(i as int), self.filter@),
            decreases self.history.len() - i,
        {
            let tx = &self.history[i];
            let ghost before = tx_refs(out@);
            assert(h.take(i + 1).drop_last() =~= h.take(i as int));
            assert(h.take(i + 1).last() == h[i as int]);
            if empty_filter || tx.matches_text(self.filter.as_str()) {
                out.push(tx);
                assert(tx_refs(out@) =~= before.push(*tx));
            }
            i = i + 1;
        }
        assert(h.take(self.history.len() as int) =~= h);
        out
    }

    /// Number of navigable rows in the current tab.
    pub fn row_count(&self) -> (r: usize)
        requires
            self.tab < 6,
        ensures
            r == self.count_spec(),
    {
        match self.current_tab() {
            Tab::History => self.filtered_history().len(),
            Tab::Search => self.search.hits().len(),
            Tab::Cache => 0,
            _ => self.rows().len(),
        }
    }

    /// The package under the cursor.
    pub fn selected(&self) -> (r: Option<&Pkg>)
        requires
            self.tab < 6,
        ensures
            match self.cursor {
                Some(i) if i < self.rows_view().len() => r matches Some(p) && p@ == self.rows_view()[i as int],
                _ => r is None,
            },
    {
        let rows = self.rows();
        match self.cursor {
            Some(i) => if i < rows.len() {
                Some(rows[i])
            } else {
                None
            },
            None => None,
        }
    }

    /// The search result under the cursor.
    pub fn selected_hit(&self) -> (r: Option<&Hit>)
        ensures
            match self.cursor {
                Some(i) if i < self.hits_view().len() => r == Some(&self.hits_view()[i as int]),
                _ => r is None,
            },
    {
        let hits = self.search.hits();
        match self.cursor {
            Some(i) => if i < hits.len() {
                Some(&hits[i])
            } else {
                None
            },
            None => None,
        }
    }

    /// The transaction under the cursor.
    pub fn selected_transaction(&self) -> (r: Option<&Transaction>)
        ensures
            match self.cursor {
                Some(i) if i < self.history_view().len() => r == Some(&self.history_view()[i as int]),
                _ => r is None,
            },
    {
        let list = self.filtered_history();
        match self.cursor {
            Some(i) => if i < list.len() {
                Some(list[i])
            } else {
                None
            },
            None => None,
        }
    }
}


/// Where the cursor lands `delta` rows away on a list of `n` rows, wrapping
/// around; from the top when there was no cursor.
pub open spec fn moved(cursor: Option<usize>, delta: int, n: nat) -> Option<usize> {
    if n == 0 {
        None
    } else {
        Some(
            ((match cursor {
                Some(c) => c as int,
                None => 0,
            } + delta) % (n as int)) as usize,
        )
    }
}

/// The cursor put on row `pos`, or on the last row when the list is shorter.
pub open spec fn placed(pos: int, n: nat) -> Option<usize> {
    if n == 0 {
        None
    } else if pos < n {
        Some(pos as usize)
    } else {
        Some((n - 1) as usize)
    }
}

/// `s` without any occurrence of `n`, in order.
pub open spec fn without(s: Seq<Seq<char>>, n: Seq<char>) -> Seq<Seq<char>>
    decreases s.len(),
{
    if s.len() == 0 {
        seq![]
    } else if s.last() == n {
        without(s.drop_last(), n)
    } else {
        without(s.drop_last(), n).push(s.last())
    }
}

/// A name checked becomes unchecked, and the other way round.
pub open spec fn toggled(s: Seq<Seq<char>>, n: Seq<char>) -> Seq<Seq<char>> {
    if s.contains(n) {
        without(s, n)
    } else {
        s.push(n)
    }
}

/// `s` with the names of `ns` it lacks added at the end, in order.
pub open spec fn added(s: Seq<Seq<char>>, ns: Seq<Seq<char>>) -> Seq<Seq<char>>
    decreases ns.len(),
{
    if ns.len() == 0 {
        s
    } else {
        let a = added(s, ns.drop_last());
        if a.contains(ns.last()) {
            a
        } else {
            a.push(ns.last())
        }
    }
}

/// The names of the rows that are checked, in the order of the rows.
pub open spec fn visible_checked(rows: Seq<PkgView>, checked: Seq<Seq<char>>) -> Seq<Seq<char>>
    decreases rows.len(),
{
    if rows.len() == 0 {
        seq![]
    } else if checked.contains(rows.last().name) {
        visible_checked(rows.drop_last(), checked).push(rows.last().name)
    } else {
        visible_checked(rows.drop_last(), checked)
    }
}

/// The names of the rows "check all" checks: every row, but the protected
/// ones in a removal tab.
pub open spec fn checkable(rows: Seq<PkgView>, removal: bool, keep: Seq<Seq<char>>) -> Seq<Seq<char>>
    decreases rows.len(),
{
    if rows.len() == 0 {
        seq![]
    } else if removal && keep.contains(rows.last().name) {
        checkable(rows.drop_last(), removal, keep)
    } else {
        checkable(rows.drop_last(), removal, keep).push(rows.last().name)
    }
}

pub proof fn lemma_without_within(s: Seq<Seq<char>>, n: Seq<char>, x: Seq<char>)
    ensures
        without(s, n).contains(x) ==> s.contains(x) && x != n,
    decreases s.len(),
{
    if s.len() > 0 {
        lemma_without_within(s.drop_last(), n, x);
        if without(s, n).contains(x) && x != s.last() {
            let w = without(s.drop_last(), n);
            if s.last() != n {
                let k = choose|k: int| 0 <= k < without(s, n).len() && without(s, n)[k] == x;
                assert(w.push(s.last())[k] == x);
                assert(k < w.len());
                assert(w.contains(x));
            }
            let j = choose|j: int| 0 <= j < s.drop_last().len() && s.drop_last()[j] == x;
            assert(s[j] == x);
        }
    }
}

proof fn lemma_push_fresh(s: Seq<Seq<char>>, x: Seq<char>)
    requires
        s.no_duplicates(),
        !s.contains(x),
    ensures
        s.push(x).no_duplicates(),
{
    assert forall|i: int, j: int| 0 <= i < s.push(x).len() && 0 <= j < s.push(x).len() && i != j
        implies s.push(x)[i] != s.push(x)[j] by {
        if i < s.len() && j < s.len() {
        } else if i < s.len() {
            assert(s.push(x)[i] == s[i]);
        } else {
            assert(s.push(x)[j] == s[j]);
        }
    }
}

pub proof fn lemma_without_unique(s: Seq<Seq<char>>, n: Seq<char>)
    requires
        s.no_duplicates(),
    ensures
        without(s, n).no_duplicates(),
        !without(s, n).contains(n),
    decreases s.len(),
{
    if s.len() > 0 {
        let d = s.drop_last();
        assert forall|i: int, j: int| 0 <= i < d.len() && 0 <= j < d.len() && i != j implies d[i] != d[j] by {
            assert(s[i] != s[j]);
        }
        lemma_without_unique(d, n);
        lemma_without_within(d, n, s.last());
        lemma_without_within(d, n, n);
        if s.last() != n {
            if d.contains(s.last()) {
                let k = choose|k: int| 0 <= k < d.len() && d[k] == s.last();
                assert(s[k] == s[s.len() - 1]);
            }
            lemma_push_fresh(without(d, n), s.last());
            let w = without(d, n);
            if w.push(s.last()).contains(n) {
                let k = choose|k: int| 0 <= k < w.push(s.last()).len() && w.push(s.last())[k] == n;
                assert(k < w.len());
                assert(w[k] == n);
            }
        }
    }
}

pub proof fn lemma_added_unique(s: Seq<Seq<char>>, ns: Seq<Seq<char>>)
    requires
        s.no_duplicates(),
    ensures
        added(s, ns).no_duplicates(),
    decreases ns.len(),
{
    if ns.len() > 0 {
        lemma_added_unique(s, ns.drop_last());
        let a = added(s, ns.drop_last());
        if !a.contains(ns.last()) {
            lemma_push_fresh(a, ns.last());
        }
    }
}

fn contains_name(v: &Vec<String>, n: &str) -> (r: bool)
    ensures
        r == strs(v@).contains(n@),
{
    crate::plan::among(v.as_slice(), n)
}

impl App {
    /// The name under the cursor: a search result in the search tab, a
    /// package elsewhere.
    pub open spec fn cursor_name(&self) -> Option<Seq<char>> {
        match self.cursor {
            Some(i) => if self.tab_spec() == Tab::Search {
                if i < self.hits_view().len() {
                    Some(self.hits_view()[i as int].name@)
                } else {
                    None
                }
            } else if i < self.rows_view().len() {
                Some(self.rows_view()[i as int].name)
            } else {
                None
            },
            None => None,
        }
    }

    /// Moves the cursor `delta` rows, wrapping around. The detail goes back
    /// to its top: keeping its scroll would show the middle of a list just
    /// opened.
    pub fn move_by(&mut self, delta: isize)
        requires
            old(self).tab < 6,
        ensures
            final(self).same_content(old(self)),
            final(self).tab == old(self).tab,
            final(self).filter == old(self).filter,
            final(self).checked == old(self).checked,
            final(self).message == old(self).message,
            final(self).detail_scroll == 0,
            final(self).cursor == moved(old(self).cursor, delta as int, old(self).count_spec()),
    {
        self.detail_scroll = 0;
        let n = self.row_count();
        if n == 0 {
            self.cursor = None;
            return;
        }
        let current = match self.cursor {
            Some(c) => c,
            None => 0,
        };
        self.cursor = Some(wrap_index(current, delta, n));
    }

    /// Puts the cursor on row `pos`, or on the last row.
    pub fn go_to(&mut self, pos: usize)
        requires
            old(self).tab < 6,
        ensures
            final(self).same_content(old(self)),
            final(self).tab == old(self).tab,
            final(self).filter == old(self).filter,
            final(self).checked == old(self).checked,
            final(self).message == old(self).message,
            final(self).detail_scroll == 0,
            final(self).cursor == placed(pos as int, old(self).count_spec()),
    {
        self.detail_scroll = 0;
        let n = self.row_count();
        if n == 0 {
            self.cursor = None;
        } else if pos < n {
            self.cursor = Some(pos);
        } else {
            self.cursor = Some(n - 1);
        }
    }

    /// Moves to another tab, wrapping around; the filter is cleared and the
    /// cursor goes to the top.
    pub fn switch_tab(&mut self, delta: isize)
        requires
            old(self).tab < 6,
        ensures
            final(self).same_content(old(self)),
            final(self).tab as int == (old(self).tab as int + delta as int) % 6,
            final(self).filter@.len() == 0,
            final(self).checked == old(self).checked,
            final(self).message == old(self).message,
            final(self).detail_scroll == 0,
            final(self).cursor == placed(0, final(self).count_spec()),
    {
        self.tab = wrap_index(self.tab, delta, 6);
        self.filter = String::new();
        self.go_to(0);
    }

    /// Scrolls the selected transaction's detail, never above its top.
    pub fn scroll_detail(&mut self, delta: i32)
        requires
            old(self).detail_scroll + delta <= u16::MAX,
        ensures
            final(self).same_content(old(self)),
            final(self).tab == old(self).tab,
            final(self).filter == old(self).filter,
            final(self).checked == old(self).checked,
            final(self).message == old(self).message,
            final(self).cursor == old(self).cursor,
            final(self).detail_scroll == (if old(self).detail_scroll + delta < 0 {
                0
            } else {
                old(self).detail_scroll + delta
            }),
    {
        let v: i32 = self.detail_scroll as i32 + delta;
        self.detail_scroll = if v < 0 {
            0
        } else {
            v as u16
        };
    }

    /// The checked names the current tab shows, in its order.
    pub fn checked_visible(&self) -> (r: Vec<String>)
        requires
            self.tab < 6,
        ensures
            strs(r@) == visible_checked(self.rows_view(), strs(self.checked@)),
    {
        let rows = self.rows();
        let ghost rv = pkg_ref_views(rows@);
        let mut out: Vec<String> = Vec::new();
        let mut i: usize = 0;
        while i < rows.len()
            invariant
                i <= rows.len(),
                rv == pkg_ref_views(rows@),
                strs(out@) == visible_checked(rv.take(i as int), strs(self.checked@)),
            decreases rows.len() - i,
        {
            let ghost before = strs(out@);
            assert(rv.take(i + 1).drop_last() =~= rv.take(i as int));
            assert(rv.take(i + 1).last() == rv[i as int]);
            assert(rv[i as int] == rows@[i as int]@);
            if contains_name(&self.checked, rows[i].name.as_str()) {
                out.push(rows[i].name.clone());
                assert(strs(out@) =~= before.push(rows@[i as int].name@));
            }
            i = i + 1;
        }
        assert(rv.take(rows.len() as int) =~= rv);
        out
    }

    /// Checks the name under the cursor, or unchecks it, then moves down a
    /// row. A protected package cannot be checked in a removal tab: that is
    /// what keep.list is for.
    pub fn toggle_check(&mut self)
        requires
            old(self).wf(),
        ensures
            final(self).wf(),
            match old(self).cursor_name() {
                None => *final(self) == *old(self),
                Some(n) => if is_removal_tab(old(self).tab_spec()) && strs(old(self).keep@).contains(n) {
                    &&& final(self).same_content(old(self))
                    &&& final(self).tab == old(self).tab
                    &&& final(self).filter == old(self).filter
                    &&& final(self).checked == old(self).checked
                    &&& final(self).cursor == old(self).cursor
                    &&& final(self).detail_scroll == old(self).detail_scroll
                    &&& final(self).message matches Some(m) && m.0@ == m1(
                        old(self).lang,
                        "{0} is protected — press p to lift the protection"@,
                        n,
                    ) && m.1 == Severity::Warning
                } else {
                    &&& final(self).same_content(old(self))
                    &&& final(self).tab == old(self).tab
                    &&& final(self).filter == old(self).filter
                    &&& final(self).message == old(self).message
                    &&& strs(final(self).checked@) == toggled(strs(old(self).checked@), n)
                    &&& final(self).detail_scroll == 0
                    &&& final(self).cursor == moved(old(self).cursor, 1, old(self).count_spec())
                },
            },
    {
        let name: String = if self.current_tab() == Tab::Search {
            match self.selected_hit() {
                Some(h) => h.name.clone(),
                None => return,
            }
        } else {
            match self.selected() {
                Some(p) => p.name.clone(),
                None => return,
            }
        };
        assert(old(self).cursor_name() == Some(name@));
        if self.is_removal_view() && self.is_protected(name.as_str()) {
            let n = chars_of(name.as_str());
            self.message = Some(
                (fill1(self.lang, "{0} is protected — press p to lift the protection", n.as_slice()), Severity::Warning),
            );
            return;
        }
        let ghost before = strs(self.checked@);
        if contains_name(&self.checked, name.as_str()) {
            self.checked = drop_name(&self.checked, name.as_str());
            proof {
                lemma_without_unique(before, name@);
            }
        } else {
            proof {
                lemma_push_fresh(before, name@);
            }
            self.checked.push(name);
            assert(strs(self.checked@) =~= before.push(old(self).cursor_name().unwrap()));
        }
        self.move_by(1);
    }

    /// Checks every row of the current tab, but the protected ones in a
    /// removal tab. Not in the search tab: that would install a hundred
    /// packages by accident.
    pub fn check_all(&mut self)
        requires
            old(self).wf(),
        ensures
            final(self).wf(),
            final(self).same_content(old(self)),
            final(self).tab == old(self).tab,
            final(self).filter == old(self).filter,
            final(self).cursor == old(self).cursor,
            final(self).detail_scroll == old(self).detail_scroll,
            old(self).tab_spec() == Tab::Search ==> {
                &&& final(self).checked == old(self).checked
                &&& final(self).message matches Some(m) && m.0@ == m0(
                    old(self).lang,
                    "Check search results one by one — there is no “all”."@,
                ) && m.1 == Severity::Info
            },
            old(self).tab_spec() != Tab::Search ==> {
                let names = checkable(
                    old(self).rows_view(),
                    is_removal_tab(old(self).tab_spec()),
                    strs(old(self).keep@),
                );
                &&& strs(final(self).checked@) == added(strs(old(self).checked@), names)
                &&& final(self).message matches Some(m) && m.0@ == m1(
                    old(self).lang,
                    "{0} package(s) checked"@,
                    dec(names.len()),
                ) && m.1 == Severity::Info
            },
    {
        if self.current_tab() == Tab::Search {
            self.message = Some((t(self.lang, "Check search results one by one — there is no “all”."), Severity::Info));
            return;
        }
        let removal = self.is_removal_view();
        let rows = self.rows();
        let ghost rv = pkg_ref_views(rows@);
        let ghost kp = strs(self.keep@);
        let ghost start = strs(self.checked@);
        let mut checked: Vec<String> = self.checked.clone();
        assert(checked@ == self.checked@);
        let mut count: usize = 0;
        let mut i: usize = 0;
        while i < rows.len()
            invariant
                i <= rows.len(),
                rv == pkg_ref_views(rows@),
                kp == strs(self.keep@),
                removal == is_removal_tab(self.tab_spec()),
                start.no_duplicates(),
                strs(checked@) == added(start, checkable(rv.take(i as int), removal, kp)),
                count == checkable(rv.take(i as int), removal, kp).len(),
                count <= i,
            decreases rows.len() - i,
        {
            assert(rv.take(i + 1).drop_last() =~= rv.take(i as int));
            assert(rv.take(i + 1).last() == rv[i as int]);
            assert(rv[i as int] == rows@[i as int]@);
            let name = rows[i].name.as_str();
            if !(removal && self.is_protected(name)) {
                let ghost before = strs(checked@);
                let ghost ns = checkable(rv.take(i + 1), removal, kp);
                assert(ns.drop_last() == checkable(rv.take(i as int), removal, kp));
                assert(ns.last() == name@);
                if !contains_name(&checked, name) {
                    checked.push(rows[i].name.clone());
                    assert(strs(checked@) =~= before.push(name@));
                }
                count = count + 1;
            }
            i = i + 1;
        }
        assert(rv.take(rows.len() as int) =~= rv);
        proof {
            lemma_added_unique(start, checkable(rv, removal, kp));
        }
        self.checked = checked;
        let c = fmt_usize(count);
        self.message = Some((fill1(self.lang, "{0} package(s) checked", c.as_slice()), Severity::Info));
    }

    /// Unchecks everything.
    pub fn uncheck_all(&mut self)
        requires
            old(self).wf(),
        ensures
            final(self).wf(),
            final(self).same_content(old(self)),
            final(self).tab == old(self).tab,
            final(self).filter == old(self).filter,
            final(self).cursor == old(self).cursor,
            final(self).detail_scroll == old(self).detail_scroll,
            final(self).checked@.len() == 0,
            final(self).message matches Some(m) && m.0@ == m0(old(self).lang, "Selection cleared"@) && m.1
                == Severity::Info,
    {
        self.checked = Vec::new();
        assert(strs(self.checked@) =~= seq![]);
        self.message = Some((t(self.lang, "Selection cleared"), Severity::Info));
    }
}


/// `-n`, or the largest value when `-n` does not fit.
pub open spec fn negated(n: int) -> int {
    if n == i64::MIN {
        i64::MAX as int
    } else {
        -n
    }
}

/// The names of the checked search results, qualified by their repository
/// (`aur/plakar`), in the order of the results.
pub open spec fn qualified_targets(hits: Seq<Hit>, checked: Seq<Seq<char>>) -> Seq<Seq<char>>
    decreases hits.len(),
{
    if hits.len() == 0 {
        seq![]
    } else if checked.contains(hits.last().name@) {
        qualified_targets(hits.drop_last(), checked).push(hits.last().repo@ + "/"@ + hits.last().name@)
    } else {
        qualified_targets(hits.drop_last(), checked)
    }
}

/// The names of the checked search results from one side: the AUR when
/// `aur`, the repositories otherwise.
pub open spec fn checked_from(hits: Seq<Hit>, checked: Seq<Seq<char>>, aur: bool) -> Seq<Seq<char>>
    decreases hits.len(),
{
    if hits.len() == 0 {
        seq![]
    } else if checked.contains(hits.last().name@) && (hits.last().repo@ == "aur"@) == aur {
        checked_from(hits.drop_last(), checked, aur).push(hits.last().name@)
    } else {
        checked_from(hits.drop_last(), checked, aur)
    }
}

impl App {
    /// What is checked, summed up under the list: how much an update
    /// downloads, how much a removal frees.
    pub open spec fn summary_spec(&self) -> Option<Seq<char>> {
        let l = self.lang;
        let names = visible_checked(self.rows_view(), strs(self.checked@));
        if names.len() == 0 {
            None
        } else {
            match self.tab_spec() {
                Tab::Updates => {
                    let p = totals(quick_rows(pkg_views(self.state.updates@), names), 0);
                    Some(
                        m2(l, "{0} to update · {1} to download"@, dec(names.len()), size_text(l, p.total_dl))
                            + if p.aur_count > 0 {
                            m1(l, " · {0} from the AUR (built from source)"@, dec(p.aur_count))
                        } else {
                            seq![]
                        },
                    )
                },
                Tab::Installed | Tab::Orphans => {
                    let p = totals(
                        removal_rows(pkg_views(self.state.installed@), names, removal_names(names, seq![])),
                        0,
                    );
                    Some(m2(l, "{0} to remove · {1} freed"@, dec(names.len()), size_text(l, negated(p.net))))
                },
                _ => None,
            }
        }
    }

    pub fn selection_summary(&self) -> (r: Option<String>)
        requires
            self.tab < 6,
        ensures
            match r {
                Some(s) => self.summary_spec() == Some(s@),
                None => self.summary_spec() is None,
            },
    {
        let names = self.checked_visible();
        if names.len() == 0 {
            return None;
        }
        let l = self.lang;
        let n = fmt_usize(names.len());
        match self.current_tab() {
            Tab::Updates => {
                let p = quick_plan(&self.state, names.as_slice());
                let size = human_size(l, p.total_dl);
                let mut v = chars_of(fill2(l, "{0} to update · {1} to download", n.as_slice(), chars_of(size.as_str()).as_slice()).as_str());
                if p.aur_count > 0 {
                    let a = fmt_usize(p.aur_count);
                    append(&mut v, chars_of(fill1(l, " · {0} from the AUR (built from source)", a.as_slice()).as_str()).as_slice());
                }
                Some(string_of(v.as_slice()))
            },
            Tab::Installed | Tab::Orphans => {
                let none: Vec<Resolved> = Vec::new();
                let p = removal_plan(&self.state, names.as_slice(), none.as_slice());
                proof {
                    assert(resolved_views(none@) =~= seq![]);
                }
                let freed = if p.net == i64::MIN {
                    i64::MAX
                } else {
                    -p.net
                };
                let size = human_size(l, freed);
                Some(fill2(l, "{0} to remove · {1} freed", n.as_slice(), chars_of(size.as_str()).as_slice()))
            },
            _ => None,
        }
    }

    /// The checked search results, qualified by their repository: paru then
    /// has no provider to ask about, the choice having been made by checking
    /// a row.
    pub fn checked_targets(&self) -> (r: Vec<String>)
        ensures
            strs(r@) == qualified_targets(self.hits_view(), strs(self.checked@)),
    {
        let hits = self.search.hits();
        let ghost hv = hits@;
        let mut out: Vec<String> = Vec::new();
        let mut i: usize = 0;
        while i < hits.len()
            invariant
                i <= hits.len(),
                hv == hits@,
                hv == self.hits_view(),
                strs(out@) == qualified_targets(hv.take(i as int), strs(self.checked@)),
            decreases hits.len() - i,
        {
            let ghost before = strs(out@);
            assert(hv.take(i + 1).drop_last() =~= hv.take(i as int));
            assert(hv.take(i + 1).last() == hv[i as int]);
            if contains_name(&self.checked, hits[i].name.as_str()) {
                let mut v = chars_of(hits[i].repo.as_str());
                v.push('/');
                append(&mut v, chars_of(hits[i].name.as_str()).as_slice());
                let ghost q = hv[i as int].repo@ + "/"@ + hv[i as int].name@;
                proof {
                    reveal_strlit("/");
                }
                assert(v@ =~= q);
                out.push(string_of(v.as_slice()));
                assert(strs(out@) =~= before.push(q));
            }
            i = i + 1;
        }
        assert(hv.take(hits.len() as int) =~= hv);
        out
    }

    /// The checked search results split by where they come from: pacman
    /// resolves the repository ones, only paru knows the others.
    pub fn checked_hits(&self) -> (r: (Vec<String>, Vec<String>))
        ensures
            strs(r.0@) == checked_from(self.hits_view(), strs(self.checked@), false),
            strs(r.1@) == checked_from(self.hits_view(), strs(self.checked@), true),
    {
        let hits = self.search.hits();
        let ghost hv = hits@;
        let mut repos: Vec<String> = Vec::new();
        let mut aur: Vec<String> = Vec::new();
        let mut i: usize = 0;
        while i < hits.len()
            invariant
                i <= hits.len(),
                hv == hits@,
                hv == self.hits_view(),
                strs(repos@) == checked_from(hv.take(i as int), strs(self.checked@), false),
                strs(aur@) == checked_from(hv.take(i as int), strs(self.checked@), true),
            decreases hits.len() - i,
        {
            let ghost r0 = strs(repos@);
            let ghost a0 = strs(aur@);
            assert(hv.take(i + 1).drop_last() =~= hv.take(i as int));
            assert(hv.take(i + 1).last() == hv[i as int]);
            if contains_name(&self.checked, hits[i].name.as_str()) {
                if hits[i].is_aur() {
                    aur.push(hits[i].name.clone());
                    assert(strs(aur@) =~= a0.push(hv[i as int].name@));
                } else {
                    repos.push(hits[i].name.clone());
                    assert(strs(repos@) =~= r0.push(hv[i as int].name@));
                }
            }
            i = i + 1;
        }
        assert(hv.take(hits.len() as int) =~= hv);
        (repos, aur)
    }

    /// Records that a name was protected, or released, once the list on disk
    /// says so. A protected name cannot stay checked.
    pub fn record_protection(&mut self, name: &str, protect: bool)
        requires
            old(self).wf(),
        ensures
            final(self).wf(),
            final(self).lang == old(self).lang,
            final(self).state == old(self).state,
            final(self).history == old(self).history,
            final(self).caches == old(self).caches,
            final(self).search == old(self).search,
            final(self).search_mode == old(self).search_mode,
            final(self).mode == old(self).mode,
            final(self).intent == old(self).intent,
            final(self).quit == old(self).quit,
            final(self).tab == old(self).tab,
            final(self).filter == old(self).filter,
            final(self).cursor == old(self).cursor,
            final(self).detail_scroll == old(self).detail_scroll,
            protect ==> {
                &&& strs(final(self).keep@) == strs(old(self).keep@).push(name@)
                &&& strs(final(self).checked@) == without(strs(old(self).checked@), name@)
                &&& final(self).message matches Some(m) && m.0@ == m1(old(self).lang, "{0} protected"@, name@)
                    && m.1 == Severity::Success
            },
            !protect ==> {
                &&& strs(final(self).keep@) == without(strs(old(self).keep@), name@)
                &&& final(self).checked == old(self).checked
                &&& final(self).message matches Some(m) && m.0@ == m1(old(self).lang, "{0} unprotected"@, name@)
                    && m.1 == Severity::Warning
            },
    {
        let n = chars_of(name);
        if protect {
            let ghost k0 = strs(self.keep@);
            self.keep.push(owned(name));
            assert(strs(self.keep@) =~= k0.push(name@));
            self.checked = drop_name(&self.checked, name);
            proof {
                lemma_without_unique(strs(old(self).checked@), name@);
            }
            self.message = Some((fill1(self.lang, "{0} protected", n.as_slice()), Severity::Success));
        } else {
            self.keep = drop_name(&self.keep, name);
            self.message = Some((fill1(self.lang, "{0} unprotected", n.as_slice()), Severity::Warning));
        }
    }
}

/// `v` without the entries equal to `name`, in order.
fn drop_name(v: &Vec<String>, name: &str) -> (r: Vec<String>)
    ensures
        strs(r@) == without(strs(v@), name@),
{
    let ghost sv = strs(v@);
    let mut kept: Vec<String> = Vec::new();
    let mut i: usize = 0;
    while i < v.len()
        invariant
            i <= v.len(),
            sv == strs(v@),
            strs(kept@) == without(sv.take(i as int), name@),
        decreases v.len() - i,
    {
        let ghost k0 = strs(kept@);
        assert(sv.take(i + 1).drop_last() =~= sv.take(i as int));
        assert(sv.take(i + 1).last() == sv[i as int]);
        if !crate::text::str_eq(v[i].as_str(), name) {
            kept.push(v[i].clone());
            assert(strs(kept@) =~= k0.push(sv[i as int]));
        }
        i = i + 1;
    }
    assert(sv.take(v.len() as int) =~= sv);
    kept
}


proof fn lemma_without_absent(s: Seq<Seq<char>>, n: Seq<char>)
    requires
        !s.contains(n),
    ensures
        without(s, n) == s,
    decreases s.len(),
{
    if s.len() > 0 {
        if s.drop_last().contains(n) {
            let k = choose|k: int| 0 <= k < s.drop_last().len() && s.drop_last()[k] == n;
            assert(s[k] == n);
        }
        lemma_without_absent(s.drop_last(), n);
        assert(s.drop_last().push(s.last()) =~= s);
    }
}

/// Checking a name that was not checked, then checking it again, gives back
/// the checked names as they were.
pub proof fn law_checking_twice_undoes(checked: Seq<Seq<char>>, n: Seq<char>)
    requires
        !checked.contains(n),
    ensures
        toggled(toggled(checked, n), n) == checked,
{
    assert(checked.push(n).contains(n)) by {
        assert(checked.push(n)[checked.len() as int] == n);
    }
    assert(checked.push(n).drop_last() =~= checked);
    lemma_without_absent(checked, n);
}


/// The command that installs checked search results: with no AUR package
/// the transaction is fully known and paru need not ask again; with one, its
/// questions stay, reading the PKGBUILD being the one chance to see what will
/// run. `--noprovides` keeps paru from asking which provider was meant after
/// the choice was made by checking a row.
pub open spec fn install_command(targets: Seq<Seq<char>>, aur: bool) -> Seq<Seq<char>> {
    seq!["paru"@, "-S"@, "--noprovides"@] + (if aur { seq![] } else { seq!["--noconfirm"@] }) + targets
}

/// The plan screen of an install from the search results: `targets` are the
/// qualified names (`aur/plakar`), `aur` those the AUR provides, `plan` what
/// pacman resolved for the others.
pub fn install_intent(l: Lang, state: &State, targets: &[String], aur: &[String], plan: Plan) -> (r: Result<Intent, String>)
    ensures
        targets@.len() == 0 ==> (r matches Err(m) && m@ == m0(l, "No package checked — space to check one"@)),
        targets@.len() > 0 ==> (r matches Ok(i) && {
            &&& i@.plan == plan@
            &&& i@.cmd == install_command(strs(targets@), aur@.len() > 0)
            &&& i@.title == m1(l, "Install · {0} package(s)"@, dec(plan@.rows.len()))
            &&& i@.notes == seq![
                m2(
                    l,
                    "{0} asked for, {1} pulled in as dependencies."@,
                    dec(targets@.len()),
                    dec(count_kind(plan@.rows, Kind::New)),
                ),
            ] + if aur@.len() > 0 {
                seq![m0(l, "AUR packages are built from source: their size and duration cannot be known beforehand."@)]
            } else {
                seq![]
            }
            &&& i@.risks == by_severity(upgrade_risks(l, plan@.rows, pkg_views(state.installed@), ignore_views(state.ignored@), seq![]))
            &&& i@.display_command is None
            &&& !i@.removal
        }),
{
    if targets.len() == 0 {
        return Err(t(l, "No package checked — space to check one"));
    }
    let mut cmd: Vec<String> = Vec::new();
    push_s(&mut cmd, owned("paru"));
    push_s(&mut cmd, owned("-S"));
    push_s(&mut cmd, owned("--noprovides"));
    if aur.len() == 0 {
        push_s(&mut cmd, owned("--noconfirm"));
    }
    let ghost head = strs(cmd@);
    let mut k: usize = 0;
    while k < targets.len()
        invariant
            k <= targets.len(),
            strs(cmd@) == head + strs(targets@).take(k as int),
        decreases targets.len() - k,
    {
        push_s(&mut cmd, targets[k].clone());
        assert(strs(targets@).take(k + 1) =~= strs(targets@).take(k as int).push(targets@[k as int]@));
        k = k + 1;
    }
    assert(strs(targets@).take(targets.len() as int) =~= strs(targets@));
    let none: [String; 0] = [];
    let risks = analyze(l, &plan, state, &none, false);
    proof {
        assert(strs(none@) =~= seq![]);
    }
    let mut notes: Vec<String> = Vec::new();
    let asked = fmt_usize(targets.len());
    let pulled = fmt_usize(plan.count(Kind::New));
    push_s(&mut notes, fill2(l, "{0} asked for, {1} pulled in as dependencies.", asked.as_slice(), pulled.as_slice()));
    if aur.len() > 0 {
        push_s(&mut notes, t(l, "AUR packages are built from source: their size and duration cannot be known beforehand."));
    }
    let n = fmt_usize(plan.rows.len());
    let title = fill1(l, "Install · {0} package(s)", n.as_slice());
    let r = Intent { title, cmd, display_command: None, plan, removal: false, notes, risks };
    assert(r@.cmd =~= install_command(strs(targets@), aur@.len() > 0));
    Ok(r)
}


proof fn lemma_added_within(s: Seq<Seq<char>>, ns: Seq<Seq<char>>, x: Seq<char>)
    ensures
        added(s, ns).contains(x) ==> s.contains(x) || ns.contains(x),
    decreases ns.len(),
{
    if ns.len() > 0 {
        lemma_added_within(s, ns.drop_last(), x);
        let a = added(s, ns.drop_last());
        if added(s, ns).contains(x) && !a.contains(x) {
            let k = choose|k: int| 0 <= k < added(s, ns).len() && added(s, ns)[k] == x;
            assert(a.push(ns.last())[k] == x);
            assert(ns[ns.len() - 1] == x);
        }
        if ns.drop_last().contains(x) {
            let k = choose|k: int| 0 <= k < ns.drop_last().len() && ns.drop_last()[k] == x;
            assert(ns[k] == x);
        }
    }
}

proof fn lemma_checkable_unprotected(rows: Seq<PkgView>, keep: Seq<Seq<char>>, x: Seq<char>)
    requires
        keep.contains(x),
    ensures
        !checkable(rows, true, keep).contains(x),
    decreases rows.len(),
{
    if rows.len() > 0 {
        lemma_checkable_unprotected(rows.drop_last(), keep, x);
        let c = checkable(rows.drop_last(), true, keep);
        if !keep.contains(rows.last().name) && c.push(rows.last().name).contains(x) {
            let k = choose|k: int| 0 <= k < c.push(rows.last().name).len() && c.push(rows.last().name)[k] == x;
            assert(k < c.len());
            assert(c[k] == x);
        }
    }
}

/// A protected package never becomes checked in a removal tab: checking
/// everything leaves it out, as checking it alone refuses it.
pub proof fn law_protected_stay_unchecked(rows: Seq<PkgView>, keep: Seq<Seq<char>>, checked: Seq<Seq<char>>, n: Seq<char>)
    requires
        keep.contains(n),
        !checked.contains(n),
    ensures
        !added(checked, checkable(rows, true, keep)).contains(n),
{
    lemma_checkable_unprotected(rows, keep, n);
    lemma_added_within(checked, checkable(rows, true, keep), n);
}


/// The first installed package whose name is `name`.
pub open spec fn installed_named(s: Seq<PkgView>, name: Seq<char>) -> bool {
    exists|i: int| 0 <= i < s.len() && #[trigger] s[i].name == name
}

impl App {
    /// What the status line says when the installed tab, filtered, shows
    /// nothing: that tab leaves dependencies out, so searching it for one
    /// finds nothing — said, and the package named when it is installed
    /// after all.
    pub open spec fn dependency_hint_spec(&self) -> Option<Seq<char>> {
        if self.tab_spec() == Tab::Installed && self.filter@.len() > 0 && self.rows_view().len() == 0 {
            if installed_named(pkg_views(self.state.installed@), self.filter@) {
                Some(m1(self.lang, "{0} is installed, as a dependency: this tab lists only what you installed yourself."@, self.filter@))
            } else {
                Some(m0(self.lang, "This tab lists only what you installed yourself: dependencies are found in Search."@))
            }
        } else {
            None
        }
    }

    pub fn dependency_hint(&self) -> (r: Option<String>)
        requires
            self.tab < 6,
        ensures
            match r {
                Some(s) => self.dependency_hint_spec() == Some(s@),
                None => self.dependency_hint_spec() is None,
            },
    {
        let f = chars_of(self.filter.as_str());
        if self.current_tab() != Tab::Installed || f.len() == 0 || self.rows().len() > 0 {
            return None;
        }
        let mut i: usize = 0;
        while i < self.state.installed.len()
            invariant
                i <= self.state.installed.len(),
                f@ == self.filter@,
                self.tab_spec() == Tab::Installed,
                self.filter@.len() > 0,
                self.rows_view().len() == 0,
                forall|k: int| 0 <= k < i ==> pkg_views(self.state.installed@)[k].name != self.filter@,
            decreases self.state.installed.len() - i,
        {
            if crate::text::str_eq(self.state.installed[i].name.as_str(), self.filter.as_str()) {
                assert(pkg_views(self.state.installed@)[i as int].name == self.filter@);
                assert(installed_named(pkg_views(self.state.installed@), self.filter@));
                return Some(fill1(
                    self.lang,
                    "{0} is installed, as a dependency: this tab lists only what you installed yourself.",
                    f.as_slice(),
                ));
            }
            i = i + 1;
        }
        Some(t(self.lang, "This tab lists only what you installed yourself: dependencies are found in Search."))
    }
}

/// The names of the packages IgnorePkg holds back.
pub open spec fn frozen_names(v: Seq<crate::data::IgnoreView>) -> Seq<Seq<char>> {
    v.map_values(|i: crate::data::IgnoreView| i.name)
}

impl App {
    /// What the status line recalls on the updates tab when nothing else is to
    /// be said: the updates IgnorePkg holds back, which would otherwise appear
    /// nowhere.
    pub open spec fn frozen_note_spec(&self) -> Option<Seq<char>> {
        let names = frozen_names(ignore_views(self.state.ignored@));
        if self.tab_spec() == Tab::Updates && names.len() > 0 {
            Some(m2(self.lang, "{0} update(s) frozen by IgnorePkg: {1}"@, dec(names.len()), join(names, ", "@)))
        } else {
            None
        }
    }

    pub fn frozen_note(&self) -> (r: Option<String>)
        requires
            self.tab < 6,
        ensures
            match r {
                Some(s) => self.frozen_note_spec() == Some(s@),
                None => self.frozen_note_spec() is None,
            },
    {
        if self.current_tab() != Tab::Updates || self.state.ignored.len() == 0 {
            return None;
        }
        let ghost all = frozen_names(ignore_views(self.state.ignored@));
        let mut names: Vec<Vec<char>> = Vec::new();
        let mut i: usize = 0;
        while i < self.state.ignored.len()
            invariant
                i <= self.state.ignored.len(),
                all == frozen_names(ignore_views(self.state.ignored@)),
                views(names@) == all.take(i as int),
            decreases self.state.ignored.len() - i,
        {
            let ghost before = views(names@);
            names.push(chars_of(self.state.ignored[i].name.as_str()));
            assert(views(names@) =~= before.push(all[i as int]));
            assert(all.take(i + 1) =~= all.take(i as int).push(all[i as int]));
            i = i + 1;
        }
        assert(all.take(all.len() as int) =~= all);
        let listed = join_str(names.as_slice(), ", ");
        Some(fill2(self.lang, "{0} update(s) frozen by IgnorePkg: {1}", fmt_usize(self.state.ignored.len()).as_slice(), listed.as_slice()))
    }
}

} // verus!
