//! Text shaping for the screens: what fits in a column, how a long sentence
//! wraps under its title, how a duration reads.

use vstd::prelude::*;
use crate::text::{
    chars_of, string_of, slice, append, words, split_ws, views, strs, dec, fmt_u64, trim_start,
    start_of_text, strip_prefix, without_prefix,
};
use crate::plan::{Plan, RowView, Kind, count_kind};
use crate::i18n::{Lang, t, translate, subst};
use crate::journal::{Journal, fill1, fill2};
use crate::risks::{needs_reboot, names_of, Sel};
use crate::text::{join, join_str, fmt_usize};

verus! {

/// At most `n` characters, the last one replaced by `…` when the text is cut.
/// Characters, never bytes: an accented name would make a raw byte cut panic.
pub open spec fn truncate_spec(s: Seq<char>, n: nat) -> Seq<char> {
    if s.len() > n {
        s.take(
            if n >= 1 {
                n - 1
            } else {
                0
            },
        ) + "…"@
    } else {
        s
    }
}

pub fn truncate(s: &str, n: usize) -> (r: String)
    ensures
        r@ == truncate_spec(s@, n as nat),
{
    let v = chars_of(s);
    if v.len() > n {
        let k = if n >= 1 {
            n - 1
        } else {
            0
        };
        let mut kept = slice(v.as_slice(), 0, k);
        append(&mut kept, chars_of("…").as_slice());
        string_of(kept.as_slice())
    } else {
        string_of(v.as_slice())
    }
}

/// The rows completed so far and the row under construction, after the
/// words read.
pub open spec fn wrap_step(st: (Seq<Seq<char>>, Seq<char>), w: Seq<char>, indent: Seq<char>, usable: nat) -> (Seq<Seq<char>>, Seq<char>) {
    let flushed = st.1.len() > 0 && st.1.len() + 1 + w.len() > usable;
    let rows = if flushed {
        st.0.push(indent + st.1)
    } else {
        st.0
    };
    let cur = if flushed {
        seq![]
    } else {
        st.1
    };
    (
        rows,
        if cur.len() > 0 {
            cur + seq![' '] + w
        } else {
            w
        },
    )
}

pub open spec fn wrap_fold(ws: Seq<Seq<char>>, indent: Seq<char>, usable: nat) -> (Seq<Seq<char>>, Seq<char>)
    decreases ws.len(),
{
    if ws.len() == 0 {
        (seq![], seq![])
    } else {
        wrap_step(wrap_fold(ws.drop_last(), indent, usable), ws.last(), indent, usable)
    }
}

/// The usable width: what the indent leaves, never below 20 columns.
pub open spec fn usable_width(width: nat, indent: Seq<char>) -> nat {
    let left = if width > indent.len() {
        (width - indent.len()) as nat
    } else {
        0
    };
    if left < 20 {
        20
    } else {
        left
    }
}

/// A text wrapped to a width, every row — the first included — starting with
/// the indent, so that a detail stays visibly attached to its title.
pub open spec fn wrap_spec(text: Seq<char>, width: nat, indent: Seq<char>) -> Seq<Seq<char>> {
    let st = wrap_fold(words(text), indent, usable_width(width, indent));
    if st.1.len() > 0 {
        st.0.push(indent + st.1)
    } else {
        st.0
    }
}

pub fn wrap_indent(text: &str, width: usize, indent: &str) -> (r: Vec<String>)
    ensures
        strs(r@) == wrap_spec(text@, width as nat, indent@),
{
    let ind = chars_of(indent);
    let margin = ind.len();
    let left = if width > margin {
        width - margin
    } else {
        0
    };
    let usable = if left < 20 {
        20
    } else {
        left
    };
    let ghost u = usable_width(width as nat, indent@);
    assert(usable == u);
    let ws = split_ws(chars_of(text).as_slice());
    let ghost wv = views(ws@);
    let mut rows: Vec<Vec<char>> = Vec::new();
    let mut cur: Vec<char> = Vec::new();
    let mut i: usize = 0;
    assert(wv.take(0) =~= seq![]);
    assert(views(rows@) =~= seq![]);
    while i < ws.len()
        invariant
            i <= ws.len(),
            wv == views(ws@),
            wv == words(text@),
            ind@ == indent@,
            usable == u,
            (views(rows@), cur@) == wrap_fold(wv.take(i as int), indent@, u),
        decreases ws.len() - i,
    {
        assert(wv.take(i + 1).drop_last() =~= wv.take(i as int));
        assert(wv.take(i + 1).last() == ws@[i as int]@);
        let w = &ws[i];
        if cur.len() > 0 && cur.len() as u128 + 1 + w.len() as u128 > usable as u128 {
            let mut row = slice(ind.as_slice(), 0, ind.len());
            assert(row@ =~= ind@);
            append(&mut row, cur.as_slice());
            let ghost before = views(rows@);
            let ghost rv = row@;
            rows.push(row);
            assert(views(rows@) =~= before.push(rv));
            cur = Vec::new();
        }
        if cur.len() > 0 {
            cur.push(' ');
        }
        append(&mut cur, w.as_slice());
        assert(cur@ =~= wrap_fold(wv.take(i + 1), indent@, u).1);
        i = i + 1;
    }
    assert(wv.take(ws.len() as int) =~= wv);
    if cur.len() > 0 {
        let mut row = slice(ind.as_slice(), 0, ind.len());
        assert(row@ =~= ind@);
        append(&mut row, cur.as_slice());
        let ghost before = views(rows@);
        let ghost rv = row@;
        rows.push(row);
        assert(views(rows@) =~= before.push(rv));
    }
    let mut out: Vec<String> = Vec::new();
    let mut k: usize = 0;
    while k < rows.len()
        invariant
            k <= rows.len(),
            strs(out@) == views(rows@).take(k as int),
        decreases rows.len() - k,
    {
        let ghost before = strs(out@);
        let s = string_of(rows[k].as_slice());
        out.push(s);
        assert(strs(out@) =~= before.push(rows@[k as int]@));
        assert(views(rows@).take(k + 1) =~= views(rows@).take(k as int).push(rows@[k as int]@));
        k = k + 1;
    }
    assert(views(rows@).take(rows.len() as int) =~= views(rows@));
    out
}

proof fn lemma_wrap_fold_fits(ws: Seq<Seq<char>>, indent: Seq<char>, usable: nat)
    requires
        forall|i: int| 0 <= i < ws.len() ==> (#[trigger] ws[i]).len() <= usable,
    ensures
        wrap_fold(ws, indent, usable).1.len() <= usable,
        forall|j: int|
            0 <= j < wrap_fold(ws, indent, usable).0.len() ==> (#[trigger] wrap_fold(ws, indent, usable).0[j]).len()
                <= indent.len() + usable && indent.is_prefix_of(wrap_fold(ws, indent, usable).0[j]),
    decreases ws.len(),
{
    if ws.len() > 0 {
        let d = ws.drop_last();
        assert forall|i: int| 0 <= i < d.len() implies (#[trigger] d[i]).len() <= usable by {
            assert(d[i] == ws[i]);
        }
        lemma_wrap_fold_fits(d, indent, usable);
        let st = wrap_fold(d, indent, usable);
        assert(ws.last() == ws[ws.len() - 1]);
        let flushed = st.1.len() > 0 && st.1.len() + 1 + ws.last().len() > usable;
        if flushed {
            let rows = st.0.push(indent + st.1);
            assert forall|j: int| 0 <= j < rows.len() implies (#[trigger] rows[j]).len() <= indent.len()
                + usable && indent.is_prefix_of(rows[j]) by {
                if j == rows.len() - 1 {
                    assert(rows[j] == indent + st.1);
                    assert((indent + st.1).subrange(0, indent.len() as int) =~= indent);
                } else {
                    assert(rows[j] == st.0[j]);
                }
            }
        }
    }
}

/// Every row of a wrapped text starts with the indent, and no row is wider
/// than the indent and the usable width together when no single word is.
pub proof fn law_wrapped_rows_fit(text: Seq<char>, width: nat, indent: Seq<char>)
    requires
        forall|i: int|
            0 <= i < words(text).len() ==> (#[trigger] words(text)[i]).len() <= usable_width(width, indent),
    ensures
        forall|j: int|
            0 <= j < wrap_spec(text, width, indent).len() ==> (#[trigger] wrap_spec(text, width, indent)[j]).len()
                <= indent.len() + usable_width(width, indent) && indent.is_prefix_of(wrap_spec(text, width, indent)[j]),
{
    let u = usable_width(width, indent);
    lemma_wrap_fold_fits(words(text), indent, u);
    let st = wrap_fold(words(text), indent, u);
    if st.1.len() > 0 {
        let rows = st.0.push(indent + st.1);
        assert forall|j: int| 0 <= j < rows.len() implies (#[trigger] rows[j]).len() <= indent.len() + u
            && indent.is_prefix_of(rows[j]) by {
            if j == rows.len() - 1 {
                assert(rows[j] == indent + st.1);
                assert((indent + st.1).subrange(0, indent.len() as int) =~= indent);
            } else {
                assert(rows[j] == st.0[j]);
            }
        }
    }
}

/// Two digits, a leading zero under ten.
pub open spec fn two_digits(n: nat) -> Seq<char> {
    if n < 10 {
        seq!['0'] + dec(n)
    } else {
        dec(n)
    }
}

/// A duration as `h:mm:ss`.
pub open spec fn hms_spec(secs: nat) -> Seq<char> {
    dec(secs / 3600) + seq![':'] + two_digits((secs % 3600) / 60) + seq![':'] + two_digits(secs % 60)
}

fn two_digits_exec(n: u64) -> (r: Vec<char>)
    ensures
        r@ == two_digits(n as nat),
{
    let d = fmt_u64(n);
    if n < 10 {
        let mut v: Vec<char> = Vec::new();
        v.push('0');
        append(&mut v, d.as_slice());
        v
    } else {
        d
    }
}

pub fn hms(secs: u64) -> (r: String)
    ensures
        r@ == hms_spec(secs as nat),
{
    let mut v = fmt_u64(secs / 3600);
    v.push(':');
    append(&mut v, two_digits_exec((secs % 3600) / 60).as_slice());
    v.push(':');
    append(&mut v, two_digits_exec(secs % 60).as_slice());
    string_of(v.as_slice())
}

/// A truncated text never exceeds its width, and a text that fits is left
/// as it is.
pub proof fn law_truncation_fits(s: Seq<char>, n: nat)
    requires
        n >= 1,
    ensures
        truncate_spec(s, n).len() <= n,
        s.len() <= n ==> truncate_spec(s, n) == s,
{
    reveal_strlit("…");
}


// ---------------------------------------------------------------------------
// Release notes
// ---------------------------------------------------------------------------

/// A line of release notes, as far as the screen renders Markdown: headings
/// and bullets are enough to make the text readable.
pub enum Markdown {
    Heading(String),
    /// Its indent in characters, then its text.
    Bullet(usize, String),
    Plain(String),
}

pub enum MarkdownView {
    Heading(Seq<char>),
    Bullet(nat, Seq<char>),
    Plain(Seq<char>),
}

impl View for Markdown {
    type V = MarkdownView;

    open spec fn view(&self) -> MarkdownView {
        match self {
            Markdown::Heading(t) => MarkdownView::Heading(t@),
            Markdown::Bullet(n, t) => MarkdownView::Bullet(*n as nat, t@),
            Markdown::Plain(t) => MarkdownView::Plain(t@),
        }
    }
}

/// `## ` or `# ` opens a heading, `* ` or `- ` a bullet, after any leading
/// whitespace; anything else is plain text.
pub open spec fn markdown_spec(l: Seq<char>) -> MarkdownView {
    let body = trim_start(l);
    let indent = (l.len() - body.len()) as nat;
    match strip_prefix(body, "## "@) {
        Some(t) => MarkdownView::Heading(t),
        None => match strip_prefix(body, "# "@) {
            Some(t) => MarkdownView::Heading(t),
            None => match strip_prefix(body, "* "@) {
                Some(r) => MarkdownView::Bullet(indent, r),
                None => match strip_prefix(body, "- "@) {
                    Some(r) => MarkdownView::Bullet(indent, r),
                    None => MarkdownView::Plain(l),
                },
            },
        },
    }
}

pub fn markdown_line(l: &str) -> (r: Markdown)
    ensures
        r@ == markdown_spec(l@),
{
    let v = chars_of(l);
    let i = start_of_text(v.as_slice());
    let body = slice(v.as_slice(), i, v.len());
    assert(body@ == trim_start(l@));
    if let Some(t) = without_prefix(body.as_slice(), "## ") {
        return Markdown::Heading(string_of(t.as_slice()));
    }
    if let Some(t) = without_prefix(body.as_slice(), "# ") {
        return Markdown::Heading(string_of(t.as_slice()));
    }
    if let Some(r) = without_prefix(body.as_slice(), "* ") {
        return Markdown::Bullet(i, string_of(r.as_slice()));
    }
    if let Some(r) = without_prefix(body.as_slice(), "- ") {
        return Markdown::Bullet(i, string_of(r.as_slice()));
    }
    Markdown::Plain(string_of(v.as_slice()))
}

// ---------------------------------------------------------------------------
// The run screen
// ---------------------------------------------------------------------------

/// The slice of the operations on screen, with `room` rows for them. The tail
/// is followed until the reader scrolls back; scrolled back down to it, the
/// window follows again. Returns the first and one-past-last event shown, and
/// where the window stays pinned from now on (`None`: following).
pub open spec fn window_spec(events: nat, room: nat, anchor: Option<usize>) -> (nat, nat, Option<usize>) {
    let overflow: nat = if events > room { (events - room) as nat } else { 0 };
    let (start, pinned) = match anchor {
        Some(a) => if a < overflow { (a as nat, Some(a)) } else { (overflow, None) },
        None => (overflow, None),
    };
    (start, if start + room < events { start + room } else { events }, pinned)
}

pub fn journal_window(events: usize, room: usize, anchor: Option<usize>) -> (r: (usize, usize, Option<usize>))
    ensures
        (r.0 as nat, r.1 as nat, r.2) == window_spec(events as nat, room as nat, anchor),
{
    let overflow = if events > room { events - room } else { 0 };
    let (start, pinned) = match anchor {
        Some(a) => if a < overflow { (a, Some(a)) } else { (overflow, None) },
        None => (overflow, None),
    };
    let end = if room < events - start { start + room } else { events };
    (start, end, pinned)
}

/// The window never shows more rows than it has, nor events that do not
/// exist, and while following it ends on the last event.
pub proof fn law_window_fits(events: nat, room: nat, anchor: Option<usize>)
    ensures
        window_spec(events, room, anchor).0 <= window_spec(events, room, anchor).1 <= events,
        window_spec(events, room, anchor).1 - window_spec(events, room, anchor).0 <= room,
        window_spec(events, room, anchor).2 is None ==> window_spec(events, room, anchor).1 == events,
{
}

/// The versions the plan gives a package, for the operations that name only
/// the package: `from → to`, or the one version there is.
pub open spec fn version_spec(rows: Seq<RowView>, name: Seq<char>) -> Seq<char>
    decreases rows.len(),
{
    if rows.len() == 0 {
        seq![]
    } else if rows[0].name == name {
        let r = rows[0];
        if r.to_version.len() == 0 {
            r.from_version
        } else if r.from_version.len() == 0 {
            r.to_version
        } else {
            r.from_version + " → "@ + r.to_version
        }
    } else {
        version_spec(rows.drop_first(), name)
    }
}

pub fn version_of(plan: &Plan, name: &str) -> (r: String)
    ensures
        r@ == version_spec(plan@.rows, name@),
{
    let ghost rv = plan@.rows;
    let mut i: usize = 0;
    assert(rv.skip(0) =~= rv);
    while i < plan.rows.len()
        invariant
            i <= plan.rows.len(),
            rv == plan@.rows,
            version_spec(rv, name@) == version_spec(rv.skip(i as int), name@),
        decreases plan.rows.len() - i,
    {
        let ghost rest = rv.skip(i as int);
        assert(rest[0] == rv[i as int]);
        assert(rest.drop_first() =~= rv.skip(i + 1));
        let row = &plan.rows[i];
        if crate::text::str_eq(row.name.as_str(), name) {
            let from = chars_of(row.from_version.as_str());
            let to = chars_of(row.to_version.as_str());
            if to.len() == 0 {
                return string_of(from.as_slice());
            } else if from.len() == 0 {
                return string_of(to.as_slice());
            }
            let mut v = from;
            append(&mut v, chars_of(" → ").as_slice());
            append(&mut v, to.as_slice());
            return string_of(v.as_slice());
        }
        i = i + 1;
    }
    assert(rv.skip(plan.rows.len() as int) =~= seq![]);
    String::new()
}

/// Download figures: files fetched over files expected, bytes fetched over
/// bytes expected. Without a plan to compare with (a demo, an action with no
/// detail), what was observed is the reference, rather than a "3/0".
pub open spec fn download_spec(done: nat, rows: nat, plan_bytes: int, fetched: int) -> (nat, nat, int) {
    let expected = if rows > 0 { rows } else { done };
    (if done < expected { done } else { expected }, expected, if plan_bytes > 0 { plan_bytes } else { fetched })
}

/// Files fetched (never more than expected), files expected, bytes expected.
pub fn download_figures(done: usize, plan: &Plan, fetched: i64) -> (r: (usize, usize, i64))
    ensures
        (r.0 as nat, r.1 as nat, r.2 as int) == download_spec(
            done as nat,
            plan@.rows.len(),
            plan@.total_dl,
            fetched as int,
        ),
{
    let expected = if plan.rows.len() > 0 {
        plan.rows.len()
    } else {
        done
    };
    let shown = if done < expected {
        done
    } else {
        expected
    };
    (shown, expected, if plan.total_dl > 0 {
        plan.total_dl
    } else {
        fetched
    })
}

// ---------------------------------------------------------------------------
// The plan summary
// ---------------------------------------------------------------------------

/// The kinds the summary lists: every kind present, plus those that structure
/// the operation even at zero — knowing that nothing will be removed counts
/// as much as the rest. A rollback is a plan that goes down and never up.
pub open spec fn always_listed(rows: Seq<RowView>, removal: bool, k: Kind) -> bool {
    if count_kind(rows, Kind::Downgrade) > 0 && count_kind(rows, Kind::Upgrade) == 0 {
        k == Kind::Downgrade || k == Kind::Removal
    } else if removal {
        k == Kind::Removal || k == Kind::AutoRemoval
    } else {
        k == Kind::Upgrade || k == Kind::New
    }
}

pub open spec fn kinds_listed(rows: Seq<RowView>, removal: bool, ks: Seq<Kind>) -> Seq<Kind>
    decreases ks.len(),
{
    if ks.len() == 0 {
        seq![]
    } else if count_kind(rows, ks.last()) > 0 || always_listed(rows, removal, ks.last()) {
        kinds_listed(rows, removal, ks.drop_last()).push(ks.last())
    } else {
        kinds_listed(rows, removal, ks.drop_last())
    }
}

pub open spec fn all_kinds() -> Seq<Kind> {
    seq![Kind::Upgrade, Kind::New, Kind::Downgrade, Kind::Removal, Kind::AutoRemoval]
}

pub fn summary_kinds(plan: &Plan, removal: bool) -> (r: Vec<Kind>)
    ensures
        r@ == kinds_listed(plan@.rows, removal, all_kinds()),
{
    let rollback = plan.count(Kind::Downgrade) > 0 && plan.count(Kind::Upgrade) == 0;
    let ks = [Kind::Upgrade, Kind::New, Kind::Downgrade, Kind::Removal, Kind::AutoRemoval];
    let ghost all = all_kinds();
    assert(ks@ =~= all);
    let mut out: Vec<Kind> = Vec::new();
    let mut i: usize = 0;
    while i < 5
        invariant
            i <= 5,
            ks@ == all,
            rollback == (count_kind(plan@.rows, Kind::Downgrade) > 0 && count_kind(plan@.rows, Kind::Upgrade) == 0),
            out@ == kinds_listed(plan@.rows, removal, all.take(i as int)),
        decreases 5 - i,
    {
        let k = ks[i];
        assert(all.take(i + 1).drop_last() =~= all.take(i as int));
        assert(all.take(i + 1).last() == k);
        let always = if rollback {
            k == Kind::Downgrade || k == Kind::Removal
        } else if removal {
            k == Kind::Removal || k == Kind::AutoRemoval
        } else {
            k == Kind::Upgrade || k == Kind::New
        };
        if plan.count(k) > 0 || always {
            out.push(k);
        }
        i = i + 1;
    }
    assert(all.take(5) =~= all);
    out
}

/// A plan that only goes back to older versions: the inverse of a
/// transaction.
pub open spec fn is_rollback_plan(rows: Seq<RowView>) -> bool {
    count_kind(rows, Kind::Downgrade) > 0 && count_kind(rows, Kind::Upgrade) == 0
}

/// Whether the summary recalls the packages IgnorePkg froze. They are not
/// part of the transaction, but they explain why an expected update is
/// missing from it; a removal has nothing to do with them, and on a rollback
/// the list speaks of pending updates, not of the transaction shown.
pub open spec fn shows_frozen_spec(rows: Seq<RowView>, removal: bool, frozen: nat) -> bool {
    !removal && !is_rollback_plan(rows) && frozen > 0
}

pub fn shows_frozen(plan: &Plan, removal: bool, frozen: usize) -> (r: bool)
    ensures
        r == shows_frozen_spec(plan@.rows, removal, frozen as nat),
{
    let rollback = plan.count(Kind::Downgrade) > 0 && plan.count(Kind::Upgrade) == 0;
    !removal && !rollback && frozen > 0
}

/// Height the plan summary needs: borders and a blank line, its kinds, the
/// frozen line, the AUR line, a separator, the costs and the unknown sizes;
/// never under eight rows.
pub open spec fn summary_height_spec(kinds: nat, removal: bool, frozen: nat, aur: nat, unknown: nat) -> nat {
    let h = 2 + 1 + kinds + (if !removal && frozen > 0 { 1nat } else { 0 }) + (if aur > 0 { 1nat } else { 0 }) + 1
        + 2 + (if unknown > 0 { 1nat } else { 0 });
    if h < 8 { 8 } else { h }
}

pub fn summary_height(plan: &Plan, removal: bool, frozen: usize) -> (r: u16)
    ensures
        r as nat == summary_height_spec(
            kinds_listed(plan@.rows, removal, all_kinds()).len(),
            removal,
            frozen as nat,
            plan@.aur_count,
            plan@.unknown,
        ),
{
    let kinds = summary_kinds(plan, removal);
    proof {
        lemma_kinds_listed_len(plan@.rows, removal, all_kinds());
    }
    let h: u16 = 2 + 1 + (kinds.len() as u16) + (if !removal && frozen > 0 { 1 } else { 0 }) + (if plan.aur_count > 0 {
        1
    } else {
        0
    }) + 1 + 2 + (if plan.unknown > 0 { 1 } else { 0 });
    if h < 8 {
        8
    } else {
        h
    }
}

proof fn lemma_kinds_listed_len(rows: Seq<RowView>, removal: bool, ks: Seq<Kind>)
    ensures
        kinds_listed(rows, removal, ks).len() <= ks.len(),
    decreases ks.len(),
{
    if ks.len() > 0 {
        lemma_kinds_listed_len(rows, removal, ks.drop_last());
    }
}


// ---------------------------------------------------------------------------
// What is left to know after a run
// ---------------------------------------------------------------------------

/// A line of the notes under the operations.
pub enum Note {
    /// An error paru reported.
    Failed(String),
    /// Configuration files waiting to be merged…
    Merge(String),
    /// …why it matters…
    MergeWhy(String),
    /// …and how: a label, the command, what it needs.
    MergeHow(String, String, String),
    /// A reboot the plan calls for, once the run succeeded.
    Reboot(String),
    Warning(String),
}

pub enum NoteView {
    Failed(Seq<char>),
    Merge(Seq<char>),
    MergeWhy(Seq<char>),
    MergeHow(Seq<char>, Seq<char>, Seq<char>),
    Reboot(Seq<char>),
    Warning(Seq<char>),
}

impl View for Note {
    type V = NoteView;

    open spec fn view(&self) -> NoteView {
        match self {
            Note::Failed(s) => NoteView::Failed(s@),
            Note::Merge(s) => NoteView::Merge(s@),
            Note::MergeWhy(s) => NoteView::MergeWhy(s@),
            Note::MergeHow(a, b, c) => NoteView::MergeHow(a@, b@, c@),
            Note::Reboot(s) => NoteView::Reboot(s@),
            Note::Warning(s) => NoteView::Warning(s@),
        }
    }
}

pub open spec fn note_views(v: Seq<Note>) -> Seq<NoteView> {
    v.map_values(|n: Note| n@)
}

/// The notes after a run: every error; the configuration files to merge,
/// with why and how; the reboot the plan calls for, inferred from the plan
/// since pacman does not say so, and only once the run succeeded; then the
/// first four warnings.
pub open spec fn notes_spec(
    l: Lang,
    errors: Seq<Seq<char>>,
    pacnew: Seq<Seq<char>>,
    warnings: Seq<Seq<char>>,
    reboot: Seq<Seq<char>>,
) -> Seq<NoteView> {
    errors.map_values(|e: Seq<char>| NoteView::Failed(e)) + (if pacnew.len() > 0 {
        seq![
            NoteView::Merge(
                subst(translate(l, "{0} configuration file(s) to merge: {1}"@), seq![dec(pacnew.len()), join(pacnew, ", "@)]),
            ),
            NoteView::MergeWhy(translate(l, "Your version was kept; the new one waits beside it, unapplied."@)),
            NoteView::MergeHow(
                translate(l, "Compare and merge:"@),
                "sudo pacdiff -s"@,
                translate(l, "(pacman-contrib) — without it, the new configuration never applies."@),
            ),
        ]
    } else {
        seq![]
    }) + (if reboot.len() > 0 {
        seq![NoteView::Reboot(subst(translate(l, "Reboot required: {0}"@), seq![join(reboot, ", "@)]))]
    } else {
        seq![]
    }) + warnings.take(if warnings.len() < 4 { warnings.len() as int } else { 4 }).map_values(
        |w: Seq<char>| NoteView::Warning(w),
    )
}

/// The names a succeeded run of `plan` needs a reboot for; none otherwise.
pub open spec fn reboot_after(exit_code: Option<u32>, plan: Option<Seq<RowView>>) -> Seq<Seq<char>> {
    match (exit_code, plan) {
        (Some(c), Some(rows)) => if c == 0 { names_of(rows, Sel::Reboot) } else { seq![] },
        _ => seq![],
    }
}

fn lines_of(v: &Vec<String>) -> (r: Vec<Vec<char>>)
    ensures
        views(r@) == strs(v@),
{
    let mut out: Vec<Vec<char>> = Vec::new();
    let mut i: usize = 0;
    while i < v.len()
        invariant
            i <= v.len(),
            views(out@) == strs(v@).take(i as int),
        decreases v.len() - i,
    {
        let ghost before = views(out@);
        out.push(chars_of(v[i].as_str()));
        assert(views(out@) =~= before.push(v@[i as int]@));
        assert(strs(v@).take(i + 1) =~= strs(v@).take(i as int).push(v@[i as int]@));
        i = i + 1;
    }
    assert(strs(v@).take(v.len() as int) =~= strs(v@));
    out
}

pub fn note_lines(l: Lang, j: &Journal, exit_code: Option<u32>, plan: Option<&Plan>) -> (r: Vec<Note>)
    ensures
        note_views(r@) == notes_spec(
            l,
            j@.errors,
            j@.pacnew,
            j@.warnings,
            reboot_after(
                exit_code,
                match plan {
                    Some(p) => Some(p@.rows),
                    None => None,
                },
            ),
        ),
{
    let ghost es = strs(j.errors@);
    let mut out: Vec<Note> = Vec::new();
    let mut i: usize = 0;
    while i < j.errors.len()
        invariant
            i <= j.errors.len(),
            es == strs(j.errors@),
            note_views(out@) == es.take(i as int).map_values(|e: Seq<char>| NoteView::Failed(e)),
        decreases j.errors.len() - i,
    {
        let ghost before = note_views(out@);
        out.push(Note::Failed(j.errors[i].clone()));
        assert(note_views(out@) =~= before.push(NoteView::Failed(es[i as int])));
        assert(es.take(i + 1).map_values(|e: Seq<char>| NoteView::Failed(e)) =~= es.take(i as int).map_values(
            |e: Seq<char>| NoteView::Failed(e),
        ).push(NoteView::Failed(es[i as int])));
        i = i + 1;
    }
    assert(es.take(j.errors.len() as int) =~= es);
    let ghost part1 = note_views(out@);
    if j.pacnew.len() > 0 {
        let n = fmt_usize(j.pacnew.len());
        let files = join_str(lines_of(&j.pacnew).as_slice(), ", ");
        out.push(Note::Merge(fill2(l, "{0} configuration file(s) to merge: {1}", n.as_slice(), files.as_slice())));
        out.push(Note::MergeWhy(t(l, "Your version was kept; the new one waits beside it, unapplied.")));
        out.push(
            Note::MergeHow(
                t(l, "Compare and merge:"),
                crate::text::owned("sudo pacdiff -s"),
                t(l, "(pacman-contrib) — without it, the new configuration never applies."),
            ),
        );
    }
    let ghost part2 = note_views(out@);
    let succeeded = match exit_code {
        Some(c) => c == 0,
        None => false,
    };
    if succeeded {
        if let Some(p) = plan {
            let needed = needs_reboot(p);
            if needed.len() > 0 {
                let names = join_str(lines_of(&needed).as_slice(), ", ");
                out.push(Note::Reboot(fill1(l, "Reboot required: {0}", names.as_slice())));
            }
        }
    }
    let ghost part3 = note_views(out@);
    let ghost ws = strs(j.warnings@);
    let limit: usize = if j.warnings.len() < 4 {
        j.warnings.len()
    } else {
        4
    };
    let mut k: usize = 0;
    while k < limit
        invariant
            k <= limit,
            limit <= j.warnings.len(),
            limit == (if j.warnings.len() < 4 { j.warnings.len() } else { 4 }),
            ws == strs(j.warnings@),
            note_views(out@) == part3 + ws.take(k as int).map_values(|w: Seq<char>| NoteView::Warning(w)),
        decreases limit - k,
    {
        let ghost before = note_views(out@);
        out.push(Note::Warning(j.warnings[k].clone()));
        assert(note_views(out@) =~= before.push(NoteView::Warning(ws[k as int])));
        assert(ws.take(k + 1).map_values(|w: Seq<char>| NoteView::Warning(w)) =~= ws.take(k as int).map_values(
            |w: Seq<char>| NoteView::Warning(w),
        ).push(NoteView::Warning(ws[k as int])));
        k = k + 1;
    }
    proof {
        reveal_strlit("sudo pacdiff -s");
        reveal_strlit(", ");
    }
    assert(note_views(out@) =~= notes_spec(
        l,
        j@.errors,
        j@.pacnew,
        j@.warnings,
        reboot_after(
            exit_code,
            match plan {
                Some(p) => Some(p@.rows),
                None => None,
            },
        ),
    ));
    out
}

/// The footer of the run screen once no question is pending. It names the
/// view one would switch to, not the one on screen, then what the keys do;
/// after the run, how it ended.
pub open spec fn footer_spec(l: Lang, exit_code: Option<u32>, interrupted: bool, raw_visible: bool) -> Seq<char> {
    let toggle = if raw_visible {
        translate(l, "j back to the transcript"@)
    } else {
        translate(l, "j paru's raw output"@)
    };
    match exit_code {
        None => " "@ + toggle + " · "@ + translate(l, "↑↓ scroll · every other key is forwarded to paru"@),
        Some(c) => if c == 0 {
            " "@ + translate(l, "Finished"@) + " · "@ + toggle + " · "@ + translate(
                l,
                "↑↓ PgUp PgDn scroll · Enter to return"@,
            )
        } else {
            " "@ + (if interrupted {
                translate(l, "Interrupted"@)
            } else {
                subst(translate(l, "Failed (code {0})"@), seq![dec(c as nat)])
            }) + " · "@ + toggle + " · "@ + translate(l, "↑↓ PgUp PgDn scroll · Enter back to the table"@)
        },
    }
}

pub fn run_footer(l: Lang, exit_code: Option<u32>, interrupted: bool, raw_visible: bool) -> (r: String)
    ensures
        r@ == footer_spec(l, exit_code, interrupted, raw_visible),
{
    let toggle = if raw_visible {
        t(l, "j back to the transcript")
    } else {
        t(l, "j paru's raw output")
    };
    let sep = chars_of(" · ");
    let mut v = chars_of(" ");
    match exit_code {
        None => {
            append(&mut v, chars_of(toggle.as_str()).as_slice());
            append(&mut v, sep.as_slice());
            append(&mut v, chars_of(t(l, "↑↓ scroll · every other key is forwarded to paru").as_str()).as_slice());
        },
        Some(c) => {
            if c == 0 {
                append(&mut v, chars_of(t(l, "Finished").as_str()).as_slice());
            } else if interrupted {
                append(&mut v, chars_of(t(l, "Interrupted").as_str()).as_slice());
            } else {
                let code = fmt_u64(c as u64);
                append(&mut v, chars_of(fill1(l, "Failed (code {0})", code.as_slice()).as_str()).as_slice());
            }
            append(&mut v, sep.as_slice());
            append(&mut v, chars_of(toggle.as_str()).as_slice());
            append(&mut v, sep.as_slice());
            let tail = if c == 0 {
                t(l, "↑↓ PgUp PgDn scroll · Enter to return")
            } else {
                t(l, "↑↓ PgUp PgDn scroll · Enter back to the table")
            };
            append(&mut v, chars_of(tail.as_str()).as_slice());
        },
    }
    let r = string_of(v.as_slice());
    assert(r@ =~= footer_spec(l, exit_code, interrupted, raw_visible));
    r
}

} // verus!
