//! Reconstruction of what paru does, as a stream of events.
//!
//! The child process's output is read line by line and turned into typed
//! events: what was downloaded, verified, installed, which hooks ran. The
//! interface retells the operation from them in its own words.
//!
//! The child's locale is forced to C: the vocabulary read here is pacman's
//! English, which is stable. None of it reaches the screen as is: it all goes
//! back through the translation layer.

use vstd::prelude::*;
use crate::i18n::{Lang, t, tf, translate, subst};
use crate::theme::{human_size, size_text};
use crate::history::{pow10, slice_rows};
use crate::text::{
    chars_of, string_of, owned, eq_lit, seq_eq, slice, append, split_once, split_once_at,
    rsplit_once, rsplit_once_at, strip_prefix, strip_suffix, without_prefix, without_suffix,
    trim, trimmed, trim_start, trimmed_start, trim_end, trimmed_end, trim_end_matches,
    trimmed_end_matches, contains, has_str, has_char, views, strs, join, join_str, words, split_ws,
    begins_str, finishes_str, starts_with, ends_with, parse_nat, parse_u32, parse_u8, is_digit,
    all_digits, value, pieces, split_char, replace, replaced_str, swap_char, swapped_char,
    ascii_lower_seq, ascii_lowered, find, find_in,
};

verus! {

// ---------------------------------------------------------------------------
// Phases and actions
// ---------------------------------------------------------------------------

#[derive(Debug, Clone, Copy, PartialEq, Eq, Structural)]
pub enum Phase {
    Starting,
    Syncing,
    Downloading,
    Verifying,
    Installing,
    Hooks,
    Building,
}

impl Phase {
    /// The message naming the phase.
    pub open spec fn key(self) -> Seq<char> {
        match self {
            Phase::Starting => "preparing"@,
            Phase::Syncing => "syncing repositories"@,
            Phase::Downloading => "downloading"@,
            Phase::Verifying => "verifying"@,
            Phase::Installing => "installing"@,
            Phase::Hooks => "post-transaction hooks"@,
            Phase::Building => "building"@,
        }
    }

    pub fn label(self, l: Lang) -> (r: String)
        ensures
            r@ == translate(l, self.key()),
    {
        t(
            l,
            match self {
                Phase::Starting => "preparing",
                Phase::Syncing => "syncing repositories",
                Phase::Downloading => "downloading",
                Phase::Verifying => "verifying",
                Phase::Installing => "installing",
                Phase::Hooks => "post-transaction hooks",
                Phase::Building => "building",
            },
        )
    }
}

#[derive(Debug, Clone, Copy, PartialEq, Eq, Structural)]
pub enum Action {
    Downloaded,
    Verified,
    Installed,
    Upgraded,
    Downgraded,
    Reinstalled,
    Removed,
    Hook,
    Built,
}

impl Action {
    pub open spec fn verb_key(self) -> Seq<char> {
        match self {
            Action::Downloaded => "Downloaded"@,
            Action::Verified => "Verified"@,
            Action::Installed => "Installed"@,
            Action::Upgraded => "Upgraded"@,
            Action::Downgraded => "Downgraded"@,
            Action::Reinstalled => "Reinstalled"@,
            Action::Removed => "Removed"@,
            Action::Hook => "Hook"@,
            Action::Built => "Building"@,
        }
    }

    pub fn verb(self, l: Lang) -> (r: String)
        ensures
            r@ == translate(l, self.verb_key()),
    {
        t(
            l,
            match self {
                Action::Downloaded => "Downloaded",
                Action::Verified => "Verified",
                Action::Installed => "Installed",
                Action::Upgraded => "Upgraded",
                Action::Downgraded => "Downgraded",
                Action::Reinstalled => "Reinstalled",
                Action::Removed => "Removed",
                Action::Hook => "Hook",
                Action::Built => "Building",
            },
        )
    }

    pub open spec fn symbol_text(self) -> Seq<char> {
        match self {
            Action::Downloaded => "⤓"@,
            Action::Verified => "✓"@,
            Action::Installed => "+"@,
            Action::Upgraded => "↑"@,
            Action::Downgraded => "↓"@,
            Action::Reinstalled => "⟳"@,
            Action::Removed => "−"@,
            Action::Hook => "⚙"@,
            Action::Built => "⚒"@,
        }
    }

    pub fn symbol(self) -> (r: &'static str)
        ensures
            r@ == self.symbol_text(),
    {
        match self {
            Action::Downloaded => "⤓",
            Action::Verified => "✓",
            Action::Installed => "+",
            Action::Upgraded => "↑",
            Action::Downgraded => "↓",
            Action::Reinstalled => "⟳",
            Action::Removed => "−",
            Action::Hook => "⚙",
            Action::Built => "⚒",
        }
    }

    /// The actions that change what is installed.
    pub open spec fn changes_system(self) -> bool {
        match self {
            Action::Installed | Action::Upgraded | Action::Downgraded | Action::Reinstalled
            | Action::Removed => true,
            _ => false,
        }
    }
}

// ---------------------------------------------------------------------------
// What the journal records
// ---------------------------------------------------------------------------

#[derive(Debug, Clone)]
pub struct Event {
    pub action: Action,
    pub target: String,
    /// Version, size, or extra detail depending on the action.
    pub detail: String,
}

pub struct EventView {
    pub action: Action,
    pub target: Seq<char>,
    pub detail: Seq<char>,
}

impl View for Event {
    type V = EventView;

    open spec fn view(&self) -> EventView {
        EventView { action: self.action, target: self.target@, detail: self.detail@ }
    }
}

pub open spec fn event_views(v: Seq<Event>) -> Seq<EventView> {
    v.map_values(|e: Event| e@)
}

/// One row of the table paru prints before asking to proceed: the only place
/// where the AUR side of a transaction is spelled out.
#[derive(Debug, Clone)]
pub struct Resolution {
    pub name: String,
    /// `extra`, `aur`, … as paru prefixes it.
    pub repo: String,
    pub from: Option<String>,
    pub to: String,
    /// A build dependency, installed to compile something rather than wanted.
    pub make_only: bool,
}

pub struct ResView {
    pub name: Seq<char>,
    pub repo: Seq<char>,
    pub from: Option<Seq<char>>,
    pub to: Seq<char>,
    pub make_only: bool,
}

pub open spec fn opt_view(o: Option<String>) -> Option<Seq<char>> {
    match o {
        Some(s) => Some(s@),
        None => None,
    }
}

impl View for Resolution {
    type V = ResView;

    open spec fn view(&self) -> ResView {
        ResView {
            name: self.name@,
            repo: self.repo@,
            from: opt_view(self.from),
            to: self.to@,
            make_only: self.make_only,
        }
    }
}

pub open spec fn res_views(v: Seq<Resolution>) -> Seq<ResView> {
    v.map_values(|r: Resolution| r@)
}

/// One of the numbered answers paru offers.
#[derive(Debug, Clone)]
pub struct Candidate {
    pub number: u32,
    pub name: String,
    /// Where it comes from — `AUR`, `extra`, … as paru groups them.
    pub group: String,
}

pub struct CandView {
    pub number: u32,
    pub name: Seq<char>,
    pub group: Seq<char>,
}

impl View for Candidate {
    type V = CandView;

    open spec fn view(&self) -> CandView {
        CandView { number: self.number, name: self.name@, group: self.group@ }
    }
}

pub open spec fn cand_views(v: Seq<Candidate>) -> Seq<CandView> {
    v.map_values(|c: Candidate| c@)
}

/// A numbered question paru is waiting on: which of several packages should
/// provide something.
#[derive(Debug, Clone)]
pub struct Choice {
    /// What is being chosen for, as paru names it.
    pub about: String,
    pub candidates: Vec<Candidate>,
    /// The number that applies if one just presses Enter.
    pub default: Option<u32>,
}

pub struct ChoiceView {
    pub about: Seq<char>,
    pub candidates: Seq<CandView>,
    pub default: Option<u32>,
}

impl View for Choice {
    type V = ChoiceView;

    open spec fn view(&self) -> ChoiceView {
        ChoiceView {
            about: self.about@,
            candidates: cand_views(self.candidates@),
            default: self.default,
        }
    }
}

// ---------------------------------------------------------------------------
// Reading single lines
// ---------------------------------------------------------------------------

/// `str::parse::<u32>`.
pub open spec fn u32_of(s: Seq<char>) -> Option<u32> {
    match parse_nat(s) {
        Some(v) => if v <= u32::MAX {
            Some(v as u32)
        } else {
            None
        },
        None => None,
    }
}

/// `:: There are 2 providers available for plakar:` → `plakar`.
pub open spec fn providers_spec(l: Seq<char>) -> Option<Seq<char>> {
    match strip_prefix(l, ":: "@) {
        Some(r1) => match strip_prefix(r1, "There are "@) {
            Some(r2) => match split_once(r2, " "@) {
                Some((_, r3)) => match strip_prefix(r3, "providers available for "@) {
                    Some(target) => Some(trim_end_matches(target, ":"@)),
                    None => None,
                },
                None => None,
            },
            None => None,
        },
        None => None,
    }
}

fn providers_question(l: &[char]) -> (r: Option<Vec<char>>)
    ensures
        match r {
            Some(v) => providers_spec(l@) == Some(v@),
            None => providers_spec(l@) is None,
        },
{
    let r1 = without_prefix(l, ":: ")?;
    let r2 = without_prefix(r1.as_slice(), "There are ")?;
    let (_, r3) = split_once_at(r2.as_slice(), " ")?;
    let target = without_prefix(r3.as_slice(), "providers available for ")?;
    Some(trimmed_end_matches(target.as_slice(), ":"))
}

/// `:: Repository AUR:` → `AUR`, the source the next answers belong to.
pub open spec fn group_spec(l: Seq<char>) -> Option<Seq<char>> {
    match strip_prefix(l, ":: "@) {
        Some(r1) => match strip_prefix(r1, "Repository "@) {
            Some(r2) => Some(trim(trim_end_matches(r2, ":"@))),
            None => None,
        },
        None => None,
    }
}

fn group_heading(l: &[char]) -> (r: Option<Vec<char>>)
    ensures
        match r {
            Some(v) => group_spec(l@) == Some(v@),
            None => group_spec(l@) is None,
        },
{
    let r1 = without_prefix(l, ":: ")?;
    let r2 = without_prefix(r1.as_slice(), "Repository ")?;
    let g = trimmed_end_matches(r2.as_slice(), ":");
    Some(trimmed(g.as_slice()))
}

/// `3)` → 3: a word that numbers an answer.
pub open spec fn answer_number(w: Seq<char>) -> Option<u32> {
    match strip_suffix(w, ")"@) {
        Some(n) => u32_of(n),
        None => None,
    }
}

/// A name extended by one more word.
pub open spec fn join_word(name: Seq<char>, w: Seq<char>) -> Seq<char> {
    if name.len() == 0 {
        w
    } else {
        name + seq![' '] + w
    }
}

/// The answers read from the words so far: a numbered word opens an answer,
/// any other word extends the name of the last one.
pub open spec fn answers(ws: Seq<Seq<char>>, group: Seq<char>) -> Seq<CandView>
    decreases ws.len(),
{
    if ws.len() == 0 {
        seq![]
    } else {
        let acc = answers(ws.drop_last(), group);
        let w = ws.last();
        match answer_number(w) {
            Some(n) => acc.push(CandView { number: n, name: seq![], group }),
            None => if acc.len() == 0 {
                acc
            } else {
                acc.update(
                    acc.len() - 1,
                    CandView {
                        number: acc.last().number,
                        name: join_word(acc.last().name, w),
                        group: acc.last().group,
                    },
                )
            },
        }
    }
}

pub open spec fn named(c: CandView) -> bool {
    c.name.len() > 0
}

/// `    1) plakar  2) plakar-git` — several answers may share a line; an
/// answer with no name is dropped.
pub open spec fn candidates_spec(l: Seq<char>, group: Seq<char>) -> Seq<CandView> {
    answers(words(l), group).filter(|c: CandView| named(c))
}

fn answer_number_exec(w: &[char]) -> (r: Option<u32>)
    ensures
        r == answer_number(w@),
{
    let n = without_suffix(w, ")")?;
    parse_u32(n.as_slice())
}

fn read_candidates(l: &[char], group: &[char]) -> (r: Vec<Candidate>)
    ensures
        cand_views(r@) == candidates_spec(l@, group@),
{
    let ws = split_ws(l);
    let ghost wv = views(ws@);
    let mut out: Vec<Candidate> = Vec::new();
    let mut i: usize = 0;
    assert(wv.take(0) =~= seq![]);
    assert(cand_views(out@) =~= seq![]);
    while i < ws.len()
        invariant
            i <= ws.len(),
            wv == views(ws@),
            wv == words(l@),
            cand_views(out@) == answers(wv.take(i as int), group@),
        decreases ws.len() - i,
    {
        let w = &ws[i];
        assert(wv.take(i + 1).drop_last() =~= wv.take(i as int));
        assert(wv.take(i + 1).last() == w@);
        let ghost before = cand_views(out@);
        match answer_number_exec(w.as_slice()) {
            Some(number) => {
                out.push(
                    Candidate { number, name: String::new(), group: string_of(group) },
                );
                assert(cand_views(out@) =~= before.push(
                    CandView { number, name: seq![], group: group@ },
                ));
            },
            None => {
                if out.len() > 0 {
                    let last = out.pop().unwrap();
                    let mut nm = chars_of(last.name.as_str());
                    if nm.len() > 0 {
                        nm.push(' ');
                    }
                    append(&mut nm, w.as_slice());
                    assert(nm@ =~= join_word(last.name@, w@));
                    let c = Candidate {
                        number: last.number,
                        name: string_of(nm.as_slice()),
                        group: last.group,
                    };
                    out.push(c);
                    assert(cand_views(out@) =~= before.update(
                        before.len() - 1,
                        CandView {
                            number: before.last().number,
                            name: join_word(before.last().name, w@),
                            group: before.last().group,
                        },
                    ));
                }
            },
        }
        i = i + 1;
    }
    assert(wv.take(ws.len() as int) =~= wv);
    let ghost all = cand_views(out@);
    let mut kept: Vec<Candidate> = Vec::new();
    let mut k: usize = 0;
    assert(all.take(0) =~= seq![]);
    assert(all.take(0).filter(|c: CandView| named(c)) =~= seq![]);
    assert(cand_views(kept@) =~= seq![]);
    while k < out.len()
        invariant
            k <= out.len(),
            all == cand_views(out@),
            cand_views(kept@) == all.take(k as int).filter(|c: CandView| named(c)),
        decreases out.len() - k,
    {
        let c = &out[k];
        assert(all.take(k + 1) =~= all.take(k as int).push(c@));
        proof {
            all.take(k as int).lemma_filter_push(c@, |c: CandView| named(c));
        }
        if !c.name.as_str().is_empty() {
            let ghost before = cand_views(kept@);
            let copy = Candidate {
                number: c.number,
                name: owned(c.name.as_str()),
                group: owned(c.group.as_str()),
            };
            kept.push(copy);
            assert(cand_views(kept@) =~= before.push(c@));
        }
        k = k + 1;
    }
    assert(all.take(out.len() as int) =~= all);
    kept
}

/// `Enter a number (default=1):` → 1.
pub open spec fn default_spec(l: Seq<char>) -> Option<u32> {
    match split_once(l, "(default="@) {
        Some((_, rest)) => match split_once(rest, ")"@) {
            Some((n, _)) => u32_of(trim(n)),
            None => None,
        },
        None => None,
    }
}

/// The default answer of a numbered question.
///
/// Public because the prompt rarely reaches the journal as a line: it is
/// written without a newline, so the run screen reads it off the emulated
/// cursor line instead.
pub fn read_default(l: &str) -> (r: Option<u32>)
    ensures
        r == default_spec(l@),
{
    let v = chars_of(l);
    read_default_chars(v.as_slice())
}

fn read_default_chars(l: &[char]) -> (r: Option<u32>)
    ensures
        r == default_spec(l@),
{
    let (_, rest) = split_once_at(l, "(default=")?;
    let (n, _) = split_once_at(rest.as_slice(), ")")?;
    let n = trimmed(n.as_slice());
    parse_u32(n.as_slice())
}

/// The text after `prefix`, and an optional ` Make`, opens with `(`.
pub open spec fn header_after(l: Seq<char>, prefix: Seq<char>) -> bool {
    match strip_prefix(l, prefix) {
        Some(rest) => {
            let rest2 = match strip_prefix(rest, " Make"@) {
                Some(x) => x,
                None => rest,
            };
            starts_with(trim_start(rest2), "("@)
        },
        None => false,
    }
}

/// `Repo (1)`, `Aur Make (2)`, … the heading of one section of paru's table.
/// The count in parentheses tells it apart from a package whose name starts
/// the same way.
pub open spec fn header_spec(l: Seq<char>) -> bool {
    header_after(l, "Repo"@) || header_after(l, "Aur"@)
}

fn header_after_exec(l: &[char], prefix: &str) -> (r: bool)
    ensures
        r == header_after(l@, prefix@),
{
    match without_prefix(l, prefix) {
        Some(rest) => {
            let rest2 = match without_prefix(rest.as_slice(), " Make") {
                Some(x) => x,
                None => rest,
            };
            let s = trimmed_start(rest2.as_slice());
            begins_str(s.as_slice(), "(")
        },
        None => false,
    }
}

fn is_resolution_header(l: &[char]) -> (r: bool)
    ensures
        r == header_spec(l@),
{
    header_after_exec(l, "Repo") || header_after_exec(l, "Aur")
}

/// One row of that table: `extra/go  2:1.26.6-1  Yes`.
///
/// The first field carries `repo/name`, a trailing `Yes`/`No` is the
/// make-only flag, and what remains is one version for an install or two for
/// an upgrade.
pub open spec fn resolution_spec(l: Seq<char>) -> Option<ResView> {
    let f = words(l);
    if f.len() < 2 {
        None
    } else {
        match split_once(f[0], "/"@) {
            Some((repo, name)) => if repo.len() == 0 || name.len() == 0 {
                None
            } else {
                let rest = f.skip(1);
                let make_only = rest.last() == "Yes"@;
                let cols = if rest.last() == "Yes"@ || rest.last() == "No"@ {
                    rest.drop_last()
                } else {
                    rest
                };
                if cols.len() == 1 {
                    Some(ResView { name, repo, from: None, to: cols[0], make_only })
                } else if cols.len() == 2 {
                    Some(ResView { name, repo, from: Some(cols[0]), to: cols[1], make_only })
                } else {
                    None
                }
            },
            None => None,
        }
    }
}

fn read_resolution(l: &[char]) -> (r: Option<Resolution>)
    ensures
        match r {
            Some(v) => resolution_spec(l@) == Some(v@),
            None => resolution_spec(l@) is None,
        },
{
    let f = split_ws(l);
    let ghost fv = views(f@);
    if f.len() < 2 {
        return None;
    }
    let (repo, name) = split_once_at(f[0].as_slice(), "/")?;
    if repo.len() == 0 || name.len() == 0 {
        return None;
    }
    let n = f.len();
    let last = &f[n - 1];
    let yes = eq_lit(last.as_slice(), "Yes");
    let no = eq_lit(last.as_slice(), "No");
    let end: usize = if yes || no {
        n - 1
    } else {
        n
    };
    let ghost rest = fv.skip(1);
    assert(rest.last() == last@);
    let ghost cols = if yes || no {
        rest.drop_last()
    } else {
        rest
    };
    assert(cols =~= fv.subrange(1, end as int));
    if end == 2 {
        assert(cols[0] == f@[1]@);
        Some(
            Resolution {
                name: string_of(name.as_slice()),
                repo: string_of(repo.as_slice()),
                from: None,
                to: string_of(f[1].as_slice()),
                make_only: yes,
            },
        )
    } else if end == 3 {
        assert(cols[0] == f@[1]@);
        assert(cols[1] == f@[2]@);
        Some(
            Resolution {
                name: string_of(name.as_slice()),
                repo: string_of(repo.as_slice()),
                from: Some(string_of(f[1].as_slice())),
                to: string_of(f[2].as_slice()),
                make_only: yes,
            },
        )
    } else {
        None
    }
}

// ---------------------------------------------------------------------------
// Package files, counters, bars
// ---------------------------------------------------------------------------

/// The text before `.pkg.tar`, or the whole word.
pub open spec fn file_stem(word: Seq<char>) -> Seq<char> {
    match split_once(word, ".pkg.tar"@) {
        Some((a, _)) => a,
        None => word,
    }
}

/// `name-version-release-architecture.pkg.tar.*` → `name`: the last three
/// dash-separated segments are dropped, so a name that carries dashes itself
/// (`python-pbs-installer`) survives whole.
pub open spec fn name_from_file_spec(word: Seq<char>) -> Option<Seq<char>> {
    let parts = pieces(file_stem(word), '-');
    if parts.len() < 4 {
        None
    } else {
        Some(join(parts.take(parts.len() - 3), "-"@))
    }
}

/// Recovers a package name from the file being downloaded.
pub fn name_from_file(word: &str) -> (r: Option<String>)
    ensures
        opt_view(r) == name_from_file_spec(word@),
{
    let v = chars_of(word);
    match name_from_file_chars(v.as_slice()) {
        Some(n) => Some(string_of(n.as_slice())),
        None => None,
    }
}

fn name_from_file_chars(word: &[char]) -> (r: Option<Vec<char>>)
    ensures
        match r {
            Some(v) => name_from_file_spec(word@) == Some(v@),
            None => name_from_file_spec(word@) is None,
        },
{
    let base = match split_once_at(word, ".pkg.tar") {
        Some((a, _)) => a,
        None => slice(word, 0, word.len()),
    };
    assert(word@.subrange(0, word@.len() as int) =~= word@);
    let parts = split_char(base.as_slice(), '-');
    if parts.len() < 4 {
        return None;
    }
    let kept = slice_rows(parts.as_slice(), parts.len() - 3);
    Some(join_str(kept.as_slice(), "-"))
}

/// The text before the first `[`, or all of it.
pub open spec fn before_bracket(s: Seq<char>) -> Seq<char> {
    match split_once(s, "["@) {
        Some((a, _)) => a,
        None => s,
    }
}

/// `(3/7) label [###] 100%` → `(3, 7, "label")`. pacman pads large counters
/// (`( 3/17)`), which the reading tolerates; the bar after the label is cut
/// off.
pub open spec fn counter_spec(l: Seq<char>) -> Option<(u32, u32, Seq<char>)> {
    match strip_prefix(l, "("@) {
        Some(rest) => match split_once(rest, ")"@) {
            Some((inside, after)) => match split_once(inside, "/"@) {
                Some((n, m)) => match (u32_of(trim(n)), u32_of(trim(m))) {
                    (Some(a), Some(b)) => Some((a, b, trim(before_bracket(after)))),
                    _ => None,
                },
                None => None,
            },
            None => None,
        },
        None => None,
    }
}

pub fn read_counter(l: &str) -> (r: Option<(u32, u32, String)>)
    ensures
        match r {
            Some((a, b, label)) => counter_spec(l@) == Some((a, b, label@)),
            None => counter_spec(l@) is None,
        },
{
    let v = chars_of(l);
    match read_counter_chars(v.as_slice()) {
        Some((a, b, label)) => Some((a, b, string_of(label.as_slice()))),
        None => None,
    }
}

fn read_counter_chars(l: &[char]) -> (r: Option<(u32, u32, Vec<char>)>)
    ensures
        match r {
            Some((a, b, label)) => counter_spec(l@) == Some((a, b, label@)),
            None => counter_spec(l@) is None,
        },
{
    let rest = without_prefix(l, "(")?;
    let (inside, after) = split_once_at(rest.as_slice(), ")")?;
    let (n, m) = split_once_at(inside.as_slice(), "/")?;
    let head = match split_once_at(after.as_slice(), "[") {
        Some((a, _)) => a,
        None => after,
    };
    let label = trimmed(head.as_slice());
    let nt = trimmed(n.as_slice());
    let mt = trimmed(m.as_slice());
    let a = parse_u32(nt.as_slice())?;
    let b = parse_u32(mt.as_slice())?;
    Some((a, b, label))
}

/// The run of ASCII digits that ends `s`.
pub open spec fn trailing_digits(s: Seq<char>) -> Seq<char>
    decreases s.len(),
{
    if s.len() > 0 && is_digit(s.last()) {
        trailing_digits(s.drop_last()).push(s.last())
    } else {
        seq![]
    }
}

/// The percentage that ends a pacman bar, recognisable by its brackets.
pub open spec fn percent_spec(l: Seq<char>) -> Option<u8> {
    if !contains(l, "["@) {
        None
    } else {
        match strip_suffix(trim_end(l), "%"@) {
            Some(before) => match parse_nat(trailing_digits(before)) {
                Some(v) => if v <= 100 {
                    Some(v as u8)
                } else {
                    None
                },
                None => None,
            },
            None => None,
        }
    }
}

fn trailing_digits_exec(s: &[char]) -> (r: Vec<char>)
    ensures
        r@ == trailing_digits(s@),
{
    let mut i: usize = s.len();
    assert(s@.take(i as int) =~= s@);
    assert(s@.skip(i as int) =~= seq![]);
    while i > 0 && '0' <= s[i - 1] && s[i - 1] <= '9'
        invariant
            i <= s.len(),
            trailing_digits(s@) == trailing_digits(s@.take(i as int)) + s@.skip(i as int),
        decreases i,
    {
        let ghost t = s@.take(i as int);
        assert(t.last() == s@[i - 1]);
        assert(t.drop_last() =~= s@.take(i - 1));
        assert(trailing_digits(t.drop_last()).push(t.last()) + s@.skip(i as int)
            =~= trailing_digits(s@.take(i - 1)) + s@.skip(i - 1));
        i = i - 1;
    }
    proof {
        let t = s@.take(i as int);
        if i > 0 {
            assert(t.last() == s@[i - 1]);
        }
        assert(trailing_digits(t) =~= seq![]);
        assert(seq![] + s@.skip(i as int) =~= s@.skip(i as int));
        assert(s@.skip(i as int) =~= s@.subrange(i as int, s@.len() as int));
    }
    slice(s, i, s.len())
}

/// Extracts the percentage from a pacman bar.
pub fn read_percent(l: &str) -> (r: Option<u8>)
    ensures
        r == percent_spec(l@),
{
    let v = chars_of(l);
    read_percent_chars(v.as_slice())
}

fn read_percent_chars(l: &[char]) -> (r: Option<u8>)
    ensures
        r == percent_spec(l@),
{
    if !has_char(l, '[') {
        proof {
            crate::text::lemma_contains_char(l@, '[');
            reveal_strlit("[");
            assert("["@ =~= seq!['[']);
        }
        return None;
    }
    proof {
        crate::text::lemma_contains_char(l@, '[');
        reveal_strlit("[");
        assert("["@ =~= seq!['[']);
    }
    let e = trimmed_end(l);
    let before = without_suffix(e.as_slice(), "%")?;
    let digits = trailing_digits_exec(before.as_slice());
    match parse_u8(digits.as_slice()) {
        Some(p) => if p <= 100 {
            Some(p)
        } else {
            None
        },
        None => None,
    }
}

// ---------------------------------------------------------------------------
// Sizes and rates
// ---------------------------------------------------------------------------

/// Bytes in one of the units pacman prints.
pub open spec fn unit_bytes(u: Seq<char>) -> Option<nat> {
    if u == "B"@ {
        Some(1)
    } else if u == "KiB"@ {
        Some(1024)
    } else if u == "MiB"@ {
        Some(1048576)
    } else if u == "GiB"@ {
        Some(1073741824)
    } else {
        None
    }
}

fn unit_bytes_exec(u: &[char]) -> (r: Option<u64>)
    ensures
        match r {
            Some(m) => unit_bytes(u@) == Some(m as nat) && 1 <= m <= 1073741824,
            None => unit_bytes(u@) is None,
        },
{
    if eq_lit(u, "B") {
        Some(1)
    } else if eq_lit(u, "KiB") {
        Some(1024)
    } else if eq_lit(u, "MiB") {
        Some(1048576)
    } else if eq_lit(u, "GiB") {
        Some(1073741824)
    } else {
        None
    }
}

/// A decimal number as a size is written: an optional sign, digits, and at
/// most one point, with at least one digit.
pub struct DecimalView {
    pub neg: bool,
    pub whole: Seq<char>,
    pub frac: Seq<char>,
}

pub open spec fn decimal_spec(s: Seq<char>) -> Option<DecimalView> {
    let neg = s.len() > 0 && s[0] == '-';
    let body = if s.len() > 0 && (s[0] == '-' || s[0] == '+') {
        s.skip(1)
    } else {
        s
    };
    match split_once(body, "."@) {
        Some((a, b)) => if all_digits(a) && all_digits(b) && a.len() + b.len() > 0 {
            Some(DecimalView { neg, whole: a, frac: b })
        } else {
            None
        },
        None => if all_digits(body) && body.len() > 0 {
            Some(DecimalView { neg, whole: body, frac: seq![] })
        } else {
            None
        },
    }
}

/// The size in bytes, truncated: `x · m` rounded toward zero.
pub open spec fn magnitude(d: DecimalView, m: nat) -> nat {
    ((value(d.whole) * pow10(d.frac.len()) + value(d.frac)) * m) / pow10(d.frac.len())
}

/// A value forced into the range of `i64`, as a float-to-integer conversion does.
pub open spec fn clamp_i64(v: int) -> int {
    if v > i64::MAX {
        i64::MAX as int
    } else if v < i64::MIN {
        i64::MIN as int
    } else {
        v
    }
}

pub open spec fn scaled(d: DecimalView, m: nat) -> int {
    clamp_i64(
        if d.neg {
            -magnitude(d, m)
        } else {
            magnitude(d, m) as int
        },
    )
}

/// The first size announced from word `i` on: a unit with a number before it.
/// The rate reads `1863 KiB/s`: its unit carries a suffix, which is what tells
/// it apart from a size.
pub open spec fn size_from(ws: Seq<Seq<char>>, i: int) -> Option<int>
    decreases ws.len() - i,
{
    if i < 0 || i >= ws.len() {
        None
    } else {
        let here = match unit_bytes(ws[i]) {
            Some(m) => if i >= 1 {
                match decimal_spec(swap_char(ws[i - 1], ',', '.')) {
                    Some(d) => Some(scaled(d, m)),
                    None => None,
                }
            } else {
                None
            },
            None => None,
        };
        match here {
            Some(v) => Some(v),
            None => size_from(ws, i + 1),
        }
    }
}

/// Size announced on a download line (`638.5 KiB`).
pub open spec fn size_spec(l: Seq<char>) -> Option<int> {
    size_from(words(l), 0)
}

proof fn lemma_value_prepend(c: char, s: Seq<char>)
    ensures
        value(seq![c] + s) == ((c as u32) - ('0' as u32)) as nat * pow10(s.len()) + value(s),
    decreases s.len(),
{
    let dc = ((c as u32) - ('0' as u32)) as nat;
    if s.len() == 0 {
        let t = seq![c] + s;
        assert(t.drop_last() =~= seq![]);
        assert(t.last() == c);
        assert(value(t) == value(t.drop_last()) * 10 + dc);
        assert(value(Seq::<char>::empty()) == 0);
        assert(pow10(0) == 1);
        assert(dc * 1 == dc);
    } else {
        let t = seq![c] + s;
        assert(t.drop_last() =~= seq![c] + s.drop_last());
        assert(t.last() == s.last());
        lemma_value_prepend(c, s.drop_last());
        assert(value(t) == value(t.drop_last()) * 10 + ((s.last() as u32) - ('0' as u32)) as nat);
        assert(value(s) == value(s.drop_last()) * 10 + ((s.last() as u32) - ('0' as u32)) as nat);
        let p = pow10((s.len() - 1) as nat);
        assert(pow10(s.len()) == 10 * p);
        let v0 = value(s.drop_last());
        let dl = ((s.last() as u32) - ('0' as u32)) as nat;
        assert((dc * p + v0) * 10 + dl == dc * (10 * p) + (v0 * 10 + dl)) by (nonlinear_arith);
    }
}

proof fn lemma_pow10_positive(n: nat)
    ensures
        pow10(n) > 0,
    decreases n,
{
    if n > 0 {
        lemma_pow10_positive((n - 1) as nat);
    }
}

/// One more leading digit of the fraction: the truncated product is got from
/// the digit and the truncated product of the rest.
proof fn lemma_frac_step(c: char, s: Seq<char>, m: nat)
    ensures
        (value(seq![c] + s) * m) / pow10((s.len() + 1) as nat) == (((c as u32) - ('0' as u32))
            as nat * m + (value(s) * m) / pow10(s.len())) / 10,
{
    let dc = ((c as u32) - ('0' as u32)) as nat;
    let p = pow10(s.len());
    lemma_pow10_positive(s.len());
    lemma_value_prepend(c, s);
    assert(pow10((s.len() + 1) as nat) == 10 * p);
    let x = (value(seq![c] + s) * m) as int;
    assert(x == value(s) * m + (dc * m) * p) by (nonlinear_arith)
        requires
            x == (value(seq![c] + s) * m) as int,
            value(seq![c] + s) == dc * p + value(s),
    ;
    assert(x >= 0);
    vstd::arithmetic::div_mod::lemma_div_denominator(x, p as int, 10);
    vstd::arithmetic::div_mod::lemma_hoist_over_denominator((value(s) * m) as int, (dc * m) as int, p);
    assert(p * 10 == 10 * p);
}

/// The whole part comes out of the division untouched.
proof fn lemma_magnitude(w: nat, f: nat, p: nat, m: nat)
    requires
        p > 0,
    ensures
        ((w * p + f) * m) / p == w * m + (f * m) / p,
        ((w * p + f) * m) / p >= w * m,
{
    vstd::arithmetic::div_mod::lemma_hoist_over_denominator((f * m) as int, (w * m) as int, p);
    assert((f * m) + (w * m) * p == (w * p + f) * m) by (nonlinear_arith);
    assert((f * m) / p >= 0) by {
        vstd::arithmetic::div_mod::lemma_div_pos_is_pos((f * m) as int, p as int);
    }
}

/// `⌊0.f · m⌋`, read from the last digit of the fraction back to the first.
fn fraction_times(f: &[char], m: u64) -> (r: u64)
    requires
        all_digits(f@),
        1 <= m <= 1099511627776,
    ensures
        r as nat == (value(f@) * (m as nat)) / pow10(f@.len()),
        r < m,
{
    let mut g: u64 = 0;
    let mut j: usize = f.len();
    assert(f@.skip(j as int) =~= seq![]);
    assert(value(seq![]) == 0);
    while j > 0
        invariant
            j <= f.len(),
            all_digits(f@),
            1 <= m <= 1099511627776,
            g < m,
            g as nat == (value(f@.skip(j as int)) * (m as nat)) / pow10(f@.skip(j as int).len()),
        decreases j,
    {
        let c = f[j - 1];
        assert(is_digit(f@[j - 1]));
        let dc: u64 = (c as u32 - '0' as u32) as u64;
        let ghost rest = f@.skip(j as int);
        assert(f@.skip(j - 1) =~= seq![c] + rest);
        proof {
            lemma_frac_step(c, rest, m as nat);
        }
        assert(dc * m + g < 10 * m) by (nonlinear_arith)
            requires
                dc <= 9,
                g < m,
        ;
        g = (dc * m + g) / 10;
        j = j - 1;
    }
    assert(f@.skip(0) =~= f@);
    g
}

fn all_digits_exec(s: &[char]) -> (r: bool)
    ensures
        r == all_digits(s@),
{
    let mut i: usize = 0;
    while i < s.len()
        invariant
            i <= s.len(),
            forall|k: int| 0 <= k < i ==> is_digit(#[trigger] s@[k]),
        decreases s.len() - i,
    {
        if !('0' <= s[i] && s[i] <= '9') {
            return false;
        }
        i = i + 1;
    }
    true
}

/// The sign and the two digit runs of a number word.
pub(crate) fn decimal_parts(s: &[char]) -> (r: Option<(bool, Vec<char>, Vec<char>)>)
    ensures
        match r {
            Some((n, w, f)) => decimal_spec(s@) == Some(DecimalView { neg: n, whole: w@, frac: f@ }),
            None => decimal_spec(s@) is None,
        },
{
    let neg = s.len() > 0 && s[0] == '-';
    let body = if s.len() > 0 && (s[0] == '-' || s[0] == '+') {
        assert(s@.skip(1) =~= s@.subrange(1, s@.len() as int));
        slice(s, 1, s.len())
    } else {
        assert(s@ =~= s@.subrange(0, s@.len() as int));
        slice(s, 0, s.len())
    };
    let (whole, frac) = match split_once_at(body.as_slice(), ".") {
        Some((a, b)) => (a, b),
        None => (body, Vec::new()),
    };
    if !all_digits_exec(whole.as_slice()) || !all_digits_exec(frac.as_slice()) || whole.len()
        + frac.len() == 0 {
        return None;
    }
    Some((neg, whole, frac))
}

/// `⌊x · m⌋` for the unsigned number `x` with these digit runs, or `None`
/// when it exceeds `u64`.
pub(crate) fn scaled_magnitude(whole: &[char], frac: &[char], m: u64) -> (r: Option<u64>)
    requires
        all_digits(whole@),
        all_digits(frac@),
        1 <= m <= 1099511627776,
    ensures
        match r {
            Some(v) => v as nat == magnitude(DecimalView { neg: false, whole: whole@, frac: frac@ }, m as nat),
            None => magnitude(DecimalView { neg: false, whole: whole@, frac: frac@ }, m as nat) > u64::MAX,
        },
{
    let ghost d = DecimalView { neg: false, whole: whole@, frac: frac@ };
    let ghost p = pow10(frac@.len());
    proof {
        lemma_pow10_positive(frac@.len());
    }
    let limit: u64 = 0xffff_ffff_ffff_ffffu64 / m;
    assert(limit >= 9) by (nonlinear_arith)
        requires
            limit == 0xffff_ffff_ffff_ffffu64 / m,
            1 <= m <= 1099511627776,
    ;
    let w: u64 = if whole.len() == 0 {
        assert(value(whole@) == 0);
        0
    } else {
        match crate::text::digits_up_to(whole, limit) {
            Some(w) => w,
            None => {
                proof {
                    lemma_magnitude(value(whole@), value(frac@), p, m as nat);
                    assert(value(whole@) * m > u64::MAX) by (nonlinear_arith)
                        requires
                            value(whole@) > limit,
                            limit == 0xffff_ffff_ffff_ffffu64 / m,
                            m >= 1,
                    ;
                }
                return None;
            },
        }
    };
    assert(w * m <= 0xffff_ffff_ffff_ffffu64) by (nonlinear_arith)
        requires
            w <= limit,
            limit == 0xffff_ffff_ffff_ffffu64 / m,
            m >= 1,
    ;
    let g = fraction_times(frac, m);
    proof {
        lemma_magnitude(value(whole@), value(frac@), p, m as nat);
    }
    (w * m).checked_add(g)
}

/// The size a number word gives in a unit of `m` bytes.
pub(crate) fn decimal_size(s: &[char], m: u64) -> (r: Option<i64>)
    requires
        1 <= m <= 1073741824,
    ensures
        match r {
            Some(v) => decimal_spec(s@) is Some && v == scaled(decimal_spec(s@).unwrap(), m as nat),
            None => decimal_spec(s@) is None,
        },
{
    let (neg, whole, frac) = decimal_parts(s)?;
    let ghost d = decimal_spec(s@).unwrap();
    assert(magnitude(d, m as nat) == magnitude(
        DecimalView { neg: false, whole: whole@, frac: frac@ },
        m as nat,
    ));
    match scaled_magnitude(whole.as_slice(), frac.as_slice(), m) {
        None => Some(
            if neg {
                i64::MIN
            } else {
                i64::MAX
            },
        ),
        Some(v) => if neg {
            if v >= 0x8000_0000_0000_0000u64 {
                Some(i64::MIN)
            } else {
                Some(-(v as i64))
            }
        } else if v > 0x7fff_ffff_ffff_ffffu64 {
            Some(i64::MAX)
        } else {
            Some(v as i64)
        },
    }
}

pub fn read_size(l: &str) -> (r: Option<i64>)
    ensures
        match r {
            Some(v) => size_spec(l@) == Some(v as int),
            None => size_spec(l@) is None,
        },
{
    let v = chars_of(l);
    read_size_chars(v.as_slice())
}

fn read_size_chars(l: &[char]) -> (r: Option<i64>)
    ensures
        match r {
            Some(v) => size_spec(l@) == Some(v as int),
            None => size_spec(l@) is None,
        },
{
    let ws = split_ws(l);
    let ghost wv = views(ws@);
    let mut i: usize = 0;
    while i < ws.len()
        invariant
            i <= ws.len(),
            wv == views(ws@),
            wv == words(l@),
            size_from(wv, 0) == size_from(wv, i as int),
        decreases ws.len() - i,
    {
        if let Some(m) = unit_bytes_exec(ws[i].as_slice()) {
            if i >= 1 {
                let n = swapped_char(ws[i - 1].as_slice(), ',', '.');
                if let Some(v) = decimal_size(n.as_slice(), m) {
                    return Some(v);
                }
            }
        }
        i = i + 1;
    }
    None
}

/// `str::ends_with("/s")` at word `i`, first such word from `i` on.
pub open spec fn rate_from(ws: Seq<Seq<char>>, i: int) -> Option<int>
    decreases ws.len() - i,
{
    if i < 0 || i >= ws.len() {
        None
    } else if ends_with(ws[i], "/s"@) {
        Some(i)
    } else {
        rate_from(ws, i + 1)
    }
}

/// The announced rate (`1863 KiB/s`), as pacman writes it.
pub open spec fn speed_spec(l: Seq<char>) -> Option<Seq<char>> {
    let ws = words(l);
    match rate_from(ws, 0) {
        Some(i) => {
            let u = trim_end_matches(ws[i], "/s"@);
            if unit_bytes(u) is Some && i >= 1 {
                Some(ws[i - 1] + " "@ + u + "/s"@)
            } else {
                None
            }
        },
        None => None,
    }
}

pub fn read_speed(l: &str) -> (r: Option<String>)
    ensures
        opt_view(r) == speed_spec(l@),
{
    let v = chars_of(l);
    match read_speed_chars(v.as_slice()) {
        Some(s) => Some(string_of(s.as_slice())),
        None => None,
    }
}

fn read_speed_chars(l: &[char]) -> (r: Option<Vec<char>>)
    ensures
        match r {
            Some(v) => speed_spec(l@) == Some(v@),
            None => speed_spec(l@) is None,
        },
{
    let ws = split_ws(l);
    let ghost wv = views(ws@);
    let mut i: usize = 0;
    while i < ws.len()
        invariant
            i <= ws.len(),
            wv == views(ws@),
            wv == words(l@),
            rate_from(wv, 0) == rate_from(wv, i as int),
        decreases ws.len() - i,
    {
        if finishes_str(ws[i].as_slice(), "/s") {
            let u = trimmed_end_matches(ws[i].as_slice(), "/s");
            if unit_bytes_exec(u.as_slice()).is_none() || i == 0 {
                return None;
            }
            let mut out = slice(ws[i - 1].as_slice(), 0, ws[i - 1].len());
            out.push(' ');
            append(&mut out, u.as_slice());
            let sfx = chars_of("/s");
            append(&mut out, sfx.as_slice());
            proof {
                reveal_strlit(" ");
                assert(" "@ =~= seq![' ']);
                assert(ws@[i - 1]@ =~= ws@[i - 1]@.subrange(0, ws@[i - 1]@.len() as int));
                assert(out@ =~= wv[i - 1] + " "@ + u@ + "/s"@);
            }
            return Some(out);
        }
        i = i + 1;
    }
    None
}

// ---------------------------------------------------------------------------
// Warnings
// ---------------------------------------------------------------------------

/// pacman's common warnings restated as plain sentences, through the
/// translation layer. Unrecognised messages pass through as they are: an
/// English sentence beats a lost one.
pub open spec fn warning_text(l: Lang, text: Seq<char>) -> Seq<char> {
    match split_once(text, ": ignoring package upgrade ("@) {
        Some((package, rest)) => subst(
            translate(l, "{0}: upgrade skipped ({1})"@),
            seq![package, replace(trim_end_matches(rest, ")"@), "=>"@, "→"@)],
        ),
        None => match strip_prefix(text, "directory permissions differ on "@) {
            Some(path) => subst(translate(l, "permissions differ on {0}"@), seq![path]),
            None => match strip_prefix(text, "could not get file information for "@) {
                Some(rest) => subst(translate(l, "file information unreadable: {0}"@), seq![rest]),
                None => if ends_with(text, "is up to date -- skipping"@) {
                    let package = if words(text).len() > 0 {
                        words(text)[0]
                    } else {
                        text
                    };
                    subst(translate(l, "{0}: already up to date, skipped"@), seq![package])
                } else {
                    text
                },
            },
        },
    }
}

pub(crate) fn fill1(l: Lang, key: &str, a: &[char]) -> (r: String)
    ensures
        r@ == subst(translate(l, key@), seq![a@]),
{
    let s = string_of(a);
    let args: [&str; 1] = [s.as_str()];
    let r = tf(l, key, &args);
    assert(args@.map_values(|x: &str| x@) =~= seq![a@]);
    r
}

pub(crate) fn fill2(l: Lang, key: &str, a: &[char], b: &[char]) -> (r: String)
    ensures
        r@ == subst(translate(l, key@), seq![a@, b@]),
{
    let s = string_of(a);
    let u = string_of(b);
    let args: [&str; 2] = [s.as_str(), u.as_str()];
    let r = tf(l, key, &args);
    assert(args@.map_values(|x: &str| x@) =~= seq![a@, b@]);
    r
}

pub fn translate_warning(l: Lang, text: &str) -> (r: String)
    ensures
        r@ == warning_text(l, text@),
{
    let v = chars_of(text);
    let r = translate_warning_chars(l, v.as_slice());
    string_of(r.as_slice())
}

fn translate_warning_chars(l: Lang, text: &[char]) -> (r: Vec<char>)
    ensures
        r@ == warning_text(l, text@),
{
    if let Some((package, rest)) = split_once_at(text, ": ignoring package upgrade (") {
        let trimmed = trimmed_end_matches(rest.as_slice(), ")");
        proof {
            reveal_strlit("=>");
        }
        let versions = replaced_str(trimmed.as_slice(), "=>", "→");
        let s = fill2(l, "{0}: upgrade skipped ({1})", package.as_slice(), versions.as_slice());
        return chars_of(s.as_str());
    }
    if let Some(path) = without_prefix(text, "directory permissions differ on ") {
        let s = fill1(l, "permissions differ on {0}", path.as_slice());
        return chars_of(s.as_str());
    }
    if let Some(rest) = without_prefix(text, "could not get file information for ") {
        let s = fill1(l, "file information unreadable: {0}", rest.as_slice());
        return chars_of(s.as_str());
    }
    if finishes_str(text, "is up to date -- skipping") {
        let ws = split_ws(text);
        let package = if ws.len() > 0 {
            slice(ws[0].as_slice(), 0, ws[0].len())
        } else {
            slice(text, 0, text.len())
        };
        assert(text@ =~= text@.subrange(0, text@.len() as int));
        proof {
            if ws.len() > 0 {
                assert(ws@[0]@ =~= ws@[0]@.subrange(0, ws@[0]@.len() as int));
            }
        }
        let s = fill1(l, "{0}: already up to date, skipped", package.as_slice());
        return chars_of(s.as_str());
    }
    slice(text, 0, text.len())
}

// ---------------------------------------------------------------------------
// The journal
// ---------------------------------------------------------------------------

/// What is known about download progress.
pub struct Downloads {
    /// Names of packages whose file is complete.
    pub finished: Vec<String>,
    pub last: String,
    /// Bytes already fetched, accumulated over completed files.
    pub bytes: i64,
    /// Rate announced by pacman on the last line read.
    pub speed: Option<String>,
}

#[verifier::ext_equal]
pub struct DownloadsView {
    pub finished: Seq<Seq<char>>,
    pub last: Seq<char>,
    pub bytes: int,
    pub speed: Option<Seq<char>>,
}

impl View for Downloads {
    type V = DownloadsView;

    open spec fn view(&self) -> DownloadsView {
        DownloadsView {
            finished: strs(self.finished@),
            last: self.last@,
            bytes: self.bytes as int,
            speed: opt_view(self.speed),
        }
    }
}

impl Default for Downloads {
    fn default() -> (r: Downloads)
        ensures
            r@ == (DownloadsView { finished: seq![], last: seq![], bytes: 0, speed: None }),
    {
        let r = Downloads { finished: Vec::new(), last: String::new(), bytes: 0, speed: None };
        assert(r@.finished =~= seq![]);
        r
    }
}

/// The most events kept: a talkative build would otherwise grow them without end.
pub const MAX_EVENTS: usize = 2000;

pub struct Journal {
    pub phase: Phase,
    /// Events in order, the oldest dropped beyond `MAX_EVENTS`.
    pub events: Vec<Event>,
    pub downloads: Downloads,
    /// `(N/M)` counter of the current phase.
    pub counter: Option<(u32, u32)>,
    /// Percentage of the current item, never of the transaction.
    pub percent: Option<u8>,
    /// Last step announced by makepkg.
    pub compilation: Option<String>,
    pub warnings: Vec<String>,
    pub errors: Vec<String>,
    /// Configuration files laid down next to yours, waiting to be merged.
    pub pacnew: Vec<String>,
    /// What paru resolved, read from the table it prints before asking.
    pub resolution: Vec<Resolution>,
    /// True while that table is being read.
    pub in_resolution: bool,
    /// A numbered question paru is currently waiting on.
    pub choice: Option<Choice>,
    /// Group heading the numbered answers are currently under.
    pub group: String,
    /// Known sizes by file name; a later entry for a name overrides an
    /// earlier one.
    pub sizes: Vec<(String, i64)>,
    /// Language the journal words its own texts in.
    pub lang: Lang,
}

pub open spec fn choice_view(c: Option<Choice>) -> Option<ChoiceView> {
    match c {
        Some(c) => Some(c@),
        None => None,
    }
}

/// The sizes recorded so far, each name mapped to its latest size.
pub open spec fn size_map(e: Seq<(Seq<char>, int)>) -> Map<Seq<char>, int>
    decreases e.len(),
{
    if e.len() == 0 {
        Map::empty()
    } else {
        size_map(e.drop_last()).insert(e.last().0, e.last().1)
    }
}

pub open spec fn size_entries(v: Seq<(String, i64)>) -> Seq<(Seq<char>, int)> {
    v.map_values(|e: (String, i64)| (e.0@, e.1 as int))
}

#[verifier::ext_equal]
pub struct JournalView {
    pub lang: Lang,
    pub phase: Phase,
    pub events: Seq<EventView>,
    pub downloads: DownloadsView,
    pub counter: Option<(u32, u32)>,
    pub percent: Option<u8>,
    pub compilation: Option<Seq<char>>,
    pub warnings: Seq<Seq<char>>,
    pub errors: Seq<Seq<char>>,
    pub pacnew: Seq<Seq<char>>,
    pub resolution: Seq<ResView>,
    pub in_resolution: bool,
    pub choice: Option<ChoiceView>,
    pub group: Seq<char>,
    pub sizes: Map<Seq<char>, int>,
}

impl View for Journal {
    type V = JournalView;

    open spec fn view(&self) -> JournalView {
        JournalView {
            lang: self.lang,
            phase: self.phase,
            events: event_views(self.events@),
            downloads: self.downloads@,
            counter: self.counter,
            percent: self.percent,
            compilation: opt_view(self.compilation),
            warnings: strs(self.warnings@),
            errors: strs(self.errors@),
            pacnew: strs(self.pacnew@),
            resolution: res_views(self.resolution@),
            in_resolution: self.in_resolution,
            choice: choice_view(self.choice),
            group: self.group@,
            sizes: size_map(size_entries(self.sizes@)),
        }
    }
}

/// A journal before the first line.
pub open spec fn fresh(l: Lang) -> JournalView {
    JournalView {
        lang: l,
        phase: Phase::Starting,
        events: seq![],
        downloads: DownloadsView { finished: seq![], last: seq![], bytes: 0, speed: None },
        counter: None,
        percent: None,
        compilation: None,
        warnings: seq![],
        errors: seq![],
        pacnew: seq![],
        resolution: seq![],
        in_resolution: false,
        choice: None,
        group: seq![],
        sizes: Map::empty(),
    }
}

/// The events with one more, the oldest dropped once the bound is reached.
pub open spec fn push_ev(evs: Seq<EventView>, e: EventView) -> Seq<EventView> {
    if evs.len() >= MAX_EVENTS {
        evs.skip(1).push(e)
    } else {
        evs.push(e)
    }
}

/// An event recorded. Once anything actually happens, a pending question has
/// been answered.
pub open spec fn with_event(j: JournalView, a: Action, target: Seq<char>, detail: Seq<char>) -> JournalView {
    JournalView {
        choice: None,
        events: push_ev(j.events, EventView { action: a, target, detail }),
        ..j
    }
}

/// A value forced into `i64`: the byte total saturates rather than wraps.
pub open spec fn sat_add(a: int, b: int) -> int {
    clamp_i64(a + b)
}

proof fn lemma_size_map_push(e: Seq<(Seq<char>, int)>, k: Seq<char>, v: int)
    ensures
        size_map(e.push((k, v))) == size_map(e).insert(k, v),
{
    assert(e.push((k, v)).drop_last() =~= e);
}

proof fn lemma_size_map_absent(e: Seq<(Seq<char>, int)>, k: Seq<char>)
    requires
        forall|j: int| 0 <= j < e.len() ==> e[j].0 != k,
    ensures
        !size_map(e).dom().contains(k),
    decreases e.len(),
{
    if e.len() > 0 {
        assert(e.last() == e[e.len() - 1]);
        assert forall|j: int| 0 <= j < e.drop_last().len() implies e.drop_last()[j].0 != k by {
            assert(e.drop_last()[j] == e[j]);
        }
        lemma_size_map_absent(e.drop_last(), k);
    }
}

proof fn lemma_size_map_last(e: Seq<(Seq<char>, int)>, i: int, k: Seq<char>)
    requires
        0 <= i < e.len(),
        e[i].0 == k,
        forall|j: int| i < j < e.len() ==> e[j].0 != k,
    ensures
        size_map(e).dom().contains(k),
        size_map(e)[k] == e[i].1,
    decreases e.len(),
{
    if i < e.len() - 1 {
        assert(e.last() == e[e.len() - 1]);
        assert(e.drop_last()[i] == e[i]);
        assert forall|j: int| i < j < e.drop_last().len() implies e.drop_last()[j].0 != k by {
            assert(e.drop_last()[j] == e[j]);
        }
        lemma_size_map_last(e.drop_last(), i, k);
    }
}

proof fn lemma_size_map_update(e: Seq<(Seq<char>, int)>, i: int, k: Seq<char>, v: int)
    requires
        0 <= i < e.len(),
        e[i].0 == k,
        forall|j: int| i < j < e.len() ==> e[j].0 != k,
    ensures
        size_map(e.update(i, (k, v))) == size_map(e).insert(k, v),
    decreases e.len(),
{
    let u = e.update(i, (k, v));
    if i == e.len() - 1 {
        assert(u.drop_last() =~= e.drop_last());
        assert(size_map(e).insert(k, v) =~= size_map(e.drop_last()).insert(k, v));
    } else {
        assert(u.drop_last() =~= e.drop_last().update(i, (k, v)));
        assert(e.last() == e[e.len() - 1]);
        assert(u.last() == e.last());
        assert forall|j: int| i < j < e.drop_last().len() implies e.drop_last()[j].0 != k by {
            assert(e.drop_last()[j] == e[j]);
        }
        lemma_size_map_update(e.drop_last(), i, k, v);
        assert(size_map(u) =~= size_map(e).insert(k, v));
    }
}

/// `v` holds the text `s`.
fn listed(v: &Vec<String>, s: &[char]) -> (r: bool)
    ensures
        r == strs(v@).contains(s@),
{
    let mut i: usize = 0;
    while i < v.len()
        invariant
            i <= v.len(),
            forall|k: int| 0 <= k < i ==> strs(v@)[k] != s@,
        decreases v.len() - i,
    {
        let w = chars_of(v[i].as_str());
        if seq_eq(w.as_slice(), s) {
            assert(strs(v@)[i as int] == s@);
            return true;
        }
        i = i + 1;
    }
    false
}

// ---------------------------------------------------------------------------
// What one line does to the journal
// ---------------------------------------------------------------------------

/// The phase a `:: …` heading announces, by pacman's own C-locale wording.
/// paru's own phases (AUR search, devel) carry no work and announce none.
pub open spec fn phase_of(b: Seq<char>) -> Option<Phase> {
    if starts_with(b, "synchronizing package databases"@) {
        Some(Phase::Syncing)
    } else if starts_with(b, "retrieving packages"@) {
        Some(Phase::Downloading)
    } else if starts_with(b, "processing package changes"@) {
        Some(Phase::Installing)
    } else if starts_with(b, "running post-transaction hooks"@) {
        Some(Phase::Hooks)
    } else if starts_with(b, "checking"@) || starts_with(b, "loading"@) {
        Some(Phase::Verifying)
    } else {
        None
    }
}

/// A new phase resets its counter and percentage; the same phase again
/// changes nothing.
pub open spec fn new_phase_spec(j: JournalView, text: Seq<char>) -> JournalView {
    match phase_of(ascii_lower_seq(text)) {
        Some(p) => if p != j.phase {
            JournalView { phase: p, counter: None, percent: None, ..j }
        } else {
            j
        },
        None => j,
    }
}

/// An error, recorded once.
pub open spec fn error_spec(j: JournalView, e: Seq<char>) -> JournalView {
    if j.errors.contains(e) {
        j
    } else {
        JournalView { errors: j.errors.push(e), ..j }
    }
}

/// The path of a configuration file pacman did not dare overwrite: the last
/// word up to `.pacnew`.
pub open spec fn pacnew_path(text: Seq<char>) -> Option<Seq<char>> {
    match find(text, ".pacnew"@) {
        Some(e) => {
            let head = text.take(e + ".pacnew"@.len());
            Some(
                match rsplit_once(head, " "@) {
                    Some((_, a)) => a,
                    None => head,
                },
            )
        },
        None => None,
    }
}

/// A warning: a `.pacnew` file is kept apart, as the only trace of a
/// configuration to merge by hand; anything else is restated, once.
pub open spec fn warning_spec(j: JournalView, text: Seq<char>) -> JournalView {
    let kept = match pacnew_path(text) {
        Some(path) => path.len() > 0 && !j.pacnew.contains(path),
        None => false,
    };
    if kept {
        JournalView { pacnew: j.pacnew.push(pacnew_path(text).unwrap()), ..j }
    } else {
        let a = warning_text(j.lang, text);
        if j.warnings.contains(a) {
            j
        } else {
            JournalView { warnings: j.warnings.push(a), ..j }
        }
    }
}

/// A makepkg step (`==> …`). Its warnings and errors travel through the same
/// marker and are filed as such. A build has no measurable progress, so the
/// counter inherited from the phase before it is dropped.
pub open spec fn build_spec(j: JournalView, step: Seq<char>) -> JournalView {
    if step.len() == 0 {
        j
    } else {
        match strip_prefix(step, "WARNING:"@) {
            Some(w) => warning_spec(j, trim(w)),
            None => match strip_prefix(step, "ERROR:"@) {
                Some(e) => error_spec(j, trim(e)),
                None => {
                    let j1 = if j.phase != Phase::Building {
                        JournalView { counter: None, percent: None, ..j }
                    } else {
                        j
                    };
                    with_event(
                        JournalView { phase: Phase::Building, compilation: Some(step), ..j1 },
                        Action::Built,
                        step,
                        seq![],
                    )
                },
            },
        }
    }
}

/// The message naming a check, from the lower-cased label.
pub open spec fn check_key(b: Seq<char>) -> Option<Seq<char>> {
    if starts_with(b, "checking keys in keyring"@) {
        Some("keyring keys"@)
    } else if starts_with(b, "checking package integrity"@) {
        Some("package integrity"@)
    } else if starts_with(b, "loading package files"@) {
        Some("loading files"@)
    } else if starts_with(b, "checking for file conflicts"@) {
        Some("file conflicts"@)
    } else if starts_with(b, "checking available disk space"@) {
        Some("available disk space"@)
    } else {
        None
    }
}

/// The action a lower-cased label opens with, and that opening verb.
pub open spec fn verb_of(b: Seq<char>) -> Option<(Action, Seq<char>)> {
    if starts_with(b, "upgrading "@) {
        Some((Action::Upgraded, "upgrading "@))
    } else if starts_with(b, "downgrading "@) {
        Some((Action::Downgraded, "downgrading "@))
    } else if starts_with(b, "reinstalling "@) {
        Some((Action::Reinstalled, "reinstalling "@))
    } else if starts_with(b, "installing "@) {
        Some((Action::Installed, "installing "@))
    } else if starts_with(b, "removing "@) {
        Some((Action::Removed, "removing "@))
    } else {
        None
    }
}

/// The last event already says this.
pub open spec fn last_is(j: JournalView, a: Action, target: Seq<char>) -> bool {
    j.events.len() > 0 && j.events.last().action == a && j.events.last().target == target
}

/// An event, unless it repeats the last one (pacman redraws its bars).
pub open spec fn unless_last(j: JournalView, a: Action, target: Seq<char>) -> JournalView {
    if last_is(j, a, target) {
        j
    } else {
        with_event(j, a, target, seq![])
    }
}

/// A `(N/M) <verb> <target>` label turned into an event.
pub open spec fn action_spec(j: JournalView, label: Seq<char>) -> JournalView {
    let l = trim(label);
    let b = ascii_lower_seq(l);
    match check_key(b) {
        Some(k) => unless_last(j, Action::Verified, translate(j.lang, k)),
        None => match verb_of(b) {
            Some((a, verb)) => unless_last(j, a, trim(l.skip(verb.len() as int))),
            None => if j.phase == Phase::Hooks {
                unless_last(j, Action::Hook, trim_end_matches(trim_end_matches(l, "."@), "…"@))
            } else {
                j
            },
        },
    }
}

/// The first word from `i` on that names a package file.
pub open spec fn pkg_from(ws: Seq<Seq<char>>, i: int) -> Option<int>
    decreases ws.len() - i,
{
    if i < 0 || i >= ws.len() {
        None
    } else if contains(ws[i], ".pkg.tar"@) {
        Some(i)
    } else {
        pkg_from(ws, i + 1)
    }
}

/// The size recorded for a file, 0 if none.
pub open spec fn known_size(j: JournalView, file: Seq<char>) -> int {
    if j.sizes.dom().contains(file) {
        j.sizes[file]
    } else {
        0
    }
}

/// A bar line for a file being fetched: its size and the rate are noted, and a
/// file at 100 % counts as downloaded, once.
pub open spec fn download_spec(j: JournalView, l: Seq<char>, percent: u8) -> JournalView {
    let ws = words(l);
    match pkg_from(ws, 0) {
        None => j,
        Some(i) => {
            let file = ws[i];
            let j1 = match size_spec(l) {
                Some(sz) => JournalView { sizes: j.sizes.insert(file, sz), ..j },
                None => j,
            };
            let j2 = match speed_spec(l) {
                Some(v) => JournalView {
                    downloads: DownloadsView { speed: Some(v), ..j1.downloads },
                    ..j1
                },
                None => j1,
            };
            if percent < 100 {
                j2
            } else {
                match name_from_file_spec(file) {
                    None => j2,
                    Some(name) => if j2.downloads.finished.contains(name) {
                        j2
                    } else {
                        let size = known_size(j2, file);
                        let j3 = JournalView {
                            downloads: DownloadsView {
                                bytes: sat_add(j2.downloads.bytes, size),
                                last: file,
                                finished: j2.downloads.finished.push(name),
                                speed: j2.downloads.speed,
                            },
                            ..j2
                        };
                        with_event(j3, Action::Downloaded, name, size_text(j.lang, size))
                    },
                }
            }
        },
    }
}

/// makepkg's step marker, `==>` or `->`.
pub open spec fn marker(l: Seq<char>) -> Option<Seq<char>> {
    match strip_prefix(l, "==>"@) {
        Some(r) => Some(r),
        None => strip_prefix(l, "->"@),
    }
}

/// A line that is no part of a table nor of a question.
pub open spec fn plain_spec(j: JournalView, l: Seq<char>) -> JournalView {
    match strip_prefix(l, ":: "@) {
        Some(r) => new_phase_spec(j, trim(r)),
        None => match marker(l) {
            Some(r) => build_spec(j, trim(r)),
            None => match strip_prefix(l, "warning: "@) {
                Some(r) => warning_spec(j, trim(r)),
                None => match strip_prefix(l, "error: "@) {
                    Some(r) => error_spec(j, trim(r)),
                    None => match counter_spec(l) {
                        Some((n, m, label)) => action_spec(
                            JournalView { counter: Some((n, m)), percent: percent_spec(l), ..j },
                            label,
                        ),
                        None => match percent_spec(l) {
                            Some(p) => download_spec(
                                JournalView { percent: Some(p), ..j },
                                l,
                                p,
                            ),
                            None => j,
                        },
                    },
                },
            },
        },
    }
}

/// A numbered question arrives over several lines: the question, the group
/// headings, the answers, the default. Any other line goes on.
pub open spec fn question_spec(j: JournalView, l: Seq<char>) -> JournalView {
    match providers_spec(l) {
        Some(about) => JournalView {
            choice: Some(ChoiceView { about, candidates: seq![], default: None }),
            group: seq![],
            ..j
        },
        None => match j.choice {
            Some(c) => match group_spec(l) {
                Some(g) => JournalView { group: g, ..j },
                None => {
                    let found = candidates_spec(l, j.group);
                    if found.len() > 0 {
                        JournalView {
                            choice: Some(ChoiceView { candidates: c.candidates + found, ..c }),
                            ..j
                        }
                    } else {
                        match default_spec(l) {
                            Some(n) => JournalView {
                                choice: Some(ChoiceView { default: Some(n), ..c }),
                                ..j
                            },
                            None => plain_spec(j, l),
                        }
                    }
                },
            },
            None => plain_spec(j, l),
        },
    }
}

/// What one line of output does to the journal.
///
/// paru's resolution table is read first: its rows look like nothing in
/// particular. Only the first heading of a table starts it afresh (a table has
/// several sections), and anything that is not a row ends it.
pub open spec fn step(j: JournalView, line: Seq<char>) -> JournalView {
    let l = trim(line);
    if l.len() == 0 {
        j
    } else if header_spec(l) {
        if !j.in_resolution {
            JournalView { resolution: seq![], in_resolution: true, ..j }
        } else {
            j
        }
    } else if j.in_resolution && resolution_spec(l) is Some {
        JournalView { resolution: j.resolution.push(resolution_spec(l).unwrap()), ..j }
    } else {
        question_spec(
            if j.in_resolution {
                JournalView { in_resolution: false, ..j }
            } else {
                j
            },
            l,
        )
    }
}

/// The journal after a sequence of lines.
pub open spec fn replay(j: JournalView, ls: Seq<Seq<char>>) -> JournalView
    decreases ls.len(),
{
    if ls.len() == 0 {
        j
    } else {
        step(replay(j, ls.drop_last()), ls.last())
    }
}

/// The packages among the events that changed the system.
pub open spec fn handled_of(evs: Seq<EventView>) -> Seq<Seq<char>>
    decreases evs.len(),
{
    if evs.len() == 0 {
        seq![]
    } else if evs.last().action.changes_system() {
        handled_of(evs.drop_last()).push(evs.last().target)
    } else {
        handled_of(evs.drop_last())
    }
}

impl Journal {
    /// A journal before the first line, wording its texts in `l`.
    pub fn new(l: Lang) -> (r: Journal)
        ensures
            r@ == fresh(l),
    {
        let r = Journal {
            phase: Phase::Starting,
            events: Vec::new(),
            downloads: Downloads::default(),
            counter: None,
            percent: None,
            compilation: None,
            warnings: Vec::new(),
            errors: Vec::new(),
            pacnew: Vec::new(),
            resolution: Vec::new(),
            in_resolution: false,
            choice: None,
            group: String::new(),
            sizes: Vec::new(),
            lang: l,
        };
        assert(size_entries(r.sizes@) =~= seq![]);
        assert(r@.events =~= seq![]);
        assert(r@.warnings =~= seq![]);
        assert(r@.errors =~= seq![]);
        assert(r@.pacnew =~= seq![]);
        assert(r@.resolution =~= seq![]);
        r
    }

    fn push_event(&mut self, action: Action, target: String, detail: String)
        ensures
            final(self)@ == with_event(old(self)@, action, target@, detail@),
    {
        self.choice = None;
        let ghost before = event_views(self.events@);
        if self.events.len() >= MAX_EVENTS {
            self.events.remove(0);
            assert(event_views(self.events@) =~= before.skip(1));
        }
        self.events.push(Event { action, target, detail });
        proof {
            if before.len() >= MAX_EVENTS {
                assert(event_views(self.events@) =~= before.skip(1).push(
                    EventView { action, target: target@, detail: detail@ },
                ));
            } else {
                assert(event_views(self.events@) =~= before.push(
                    EventView { action, target: target@, detail: detail@ },
                ));
            }
        }
    }

    fn record_size(&mut self, file: &[char], size: i64)
        ensures
            final(self)@ == (JournalView {
                sizes: old(self)@.sizes.insert(file@, size as int),
                ..old(self)@
            }),
    {
        let ghost e = size_entries(self.sizes@);
        let mut i: usize = self.sizes.len();
        while i > 0
            invariant
                i <= self.sizes.len(),
                *self == *old(self),
                e == size_entries(self.sizes@),
                forall|j: int| i <= j < e.len() ==> e[j].0 != file@,
            decreases i,
        {
            let w = chars_of(self.sizes[i - 1].0.as_str());
            if seq_eq(w.as_slice(), file) {
                let k = string_of(file);
                self.sizes.set(i - 1, (k, size));
                proof {
                    lemma_size_map_update(e, i - 1, file@, size as int);
                    assert(size_entries(self.sizes@) =~= e.update(i - 1, (file@, size as int)));
                }
                return;
            }
            i = i - 1;
        }
        let k = string_of(file);
        self.sizes.push((k, size));
        proof {
            lemma_size_map_push(e, file@, size as int);
            assert(size_entries(self.sizes@) =~= e.push((file@, size as int)));
        }
    }

    fn size_of(&self, file: &[char]) -> (r: i64)
        ensures
            r == (if self@.sizes.dom().contains(file@) {
                self@.sizes[file@]
            } else {
                0
            }),
    {
        let ghost e = size_entries(self.sizes@);
        let mut i: usize = self.sizes.len();
        while i > 0
            invariant
                i <= self.sizes.len(),
                e == size_entries(self.sizes@),
                forall|j: int| i <= j < e.len() ==> e[j].0 != file@,
            decreases i,
        {
            let w = chars_of(self.sizes[i - 1].0.as_str());
            if seq_eq(w.as_slice(), file) {
                proof {
                    lemma_size_map_last(e, i - 1, file@);
                }
                return self.sizes[i - 1].1;
            }
            i = i - 1;
        }
        proof {
            lemma_size_map_absent(e, file@);
        }
        0
    }
}

fn phase_of_exec(b: &[char]) -> (r: Option<Phase>)
    ensures
        r == phase_of(b@),
{
    if begins_str(b, "synchronizing package databases") {
        Some(Phase::Syncing)
    } else if begins_str(b, "retrieving packages") {
        Some(Phase::Downloading)
    } else if begins_str(b, "processing package changes") {
        Some(Phase::Installing)
    } else if begins_str(b, "running post-transaction hooks") {
        Some(Phase::Hooks)
    } else if begins_str(b, "checking") || begins_str(b, "loading") {
        Some(Phase::Verifying)
    } else {
        None
    }
}

fn check_key_exec(b: &[char]) -> (r: Option<&'static str>)
    ensures
        match r {
            Some(k) => check_key(b@) == Some(k@),
            None => check_key(b@) is None,
        },
{
    if begins_str(b, "checking keys in keyring") {
        Some("keyring keys")
    } else if begins_str(b, "checking package integrity") {
        Some("package integrity")
    } else if begins_str(b, "loading package files") {
        Some("loading files")
    } else if begins_str(b, "checking for file conflicts") {
        Some("file conflicts")
    } else if begins_str(b, "checking available disk space") {
        Some("available disk space")
    } else {
        None
    }
}

fn verb_of_exec(b: &[char]) -> (r: Option<(Action, &'static str)>)
    ensures
        match r {
            Some((a, v)) => verb_of(b@) == Some((a, v@)),
            None => verb_of(b@) is None,
        },
{
    if begins_str(b, "upgrading ") {
        Some((Action::Upgraded, "upgrading "))
    } else if begins_str(b, "downgrading ") {
        Some((Action::Downgraded, "downgrading "))
    } else if begins_str(b, "reinstalling ") {
        Some((Action::Reinstalled, "reinstalling "))
    } else if begins_str(b, "installing ") {
        Some((Action::Installed, "installing "))
    } else if begins_str(b, "removing ") {
        Some((Action::Removed, "removing "))
    } else {
        None
    }
}

fn sat_add_exec(a: i64, b: i64) -> (r: i64)
    ensures
        r == sat_add(a as int, b as int),
{
    match a.checked_add(b) {
        Some(v) => v,
        None => if b > 0 {
            i64::MAX
        } else {
            i64::MIN
        },
    }
}

impl Journal {
    fn new_phase(&mut self, text: &[char])
        ensures
            final(self)@ == new_phase_spec(old(self)@, text@),
    {
        let b = ascii_lowered(text);
        match phase_of_exec(b.as_slice()) {
            Some(p) => if p != self.phase {
                self.phase = p;
                self.counter = None;
                self.percent = None;
            },
            None => {},
        }
    }

    fn add_error(&mut self, e: &[char])
        ensures
            final(self)@ == error_spec(old(self)@, e@),
    {
        if !listed(&self.errors, e) {
            let ghost before = strs(self.errors@);
            self.errors.push(string_of(e));
            assert(strs(self.errors@) =~= before.push(e@));
        }
    }

    fn warning(&mut self, text: &[char])
        ensures
            final(self)@ == warning_spec(old(self)@, text@),
    {
        let pat = chars_of(".pacnew");
        if let Some(e) = find_in(text, pat.as_slice()) {
            let n = pat.len();
            let tl = text.len();
            assert(e + n <= tl);
            let head = slice(text, 0, e + n);
            assert(head@ =~= text@.take(e + ".pacnew"@.len()));
            let path = match rsplit_once_at(head.as_slice(), " ") {
                Some((_, a)) => a,
                None => head,
            };
            if path.len() > 0 && !listed(&self.pacnew, path.as_slice()) {
                let ghost before = strs(self.pacnew@);
                self.pacnew.push(string_of(path.as_slice()));
                assert(strs(self.pacnew@) =~= before.push(path@));
                return;
            }
        }
        let a = translate_warning_chars(self.lang, text);
        if !listed(&self.warnings, a.as_slice()) {
            let ghost before = strs(self.warnings@);
            self.warnings.push(string_of(a.as_slice()));
            assert(strs(self.warnings@) =~= before.push(a@));
        }
    }

    fn build(&mut self, step: &[char])
        ensures
            final(self)@ == build_spec(old(self)@, step@),
    {
        if step.len() == 0 {
            return;
        }
        if let Some(w) = without_prefix(step, "WARNING:") {
            let w = trimmed(w.as_slice());
            self.warning(w.as_slice());
            return;
        }
        if let Some(e) = without_prefix(step, "ERROR:") {
            let e = trimmed(e.as_slice());
            self.add_error(e.as_slice());
            return;
        }
        if self.phase != Phase::Building {
            self.counter = None;
            self.percent = None;
        }
        self.phase = Phase::Building;
        self.compilation = Some(string_of(step));
        self.push_event(Action::Built, string_of(step), String::new());
    }

    fn unless_last(&mut self, a: Action, target: &[char])
        ensures
            final(self)@ == unless_last(old(self)@, a, target@),
    {
        let n = self.events.len();
        if n > 0 && self.events[n - 1].action == a {
            let w = chars_of(self.events[n - 1].target.as_str());
            if seq_eq(w.as_slice(), target) {
                assert(event_views(self.events@).last() == self.events@[n - 1]@);
                return;
            }
        }
        proof {
            if n > 0 {
                assert(event_views(self.events@).last() == self.events@[n - 1]@);
            }
        }
        self.push_event(a, string_of(target), String::new());
    }

    /// Turns a `(N/M) <verb> <target>` label into an event.
    fn action_transaction(&mut self, label: &[char])
        ensures
            final(self)@ == action_spec(old(self)@, label@),
    {
        let l = trimmed(label);
        let b = ascii_lowered(l.as_slice());
        if let Some(k) = check_key_exec(b.as_slice()) {
            let wording = t(self.lang, k);
            let w = chars_of(wording.as_str());
            self.unless_last(Action::Verified, w.as_slice());
            return;
        }
        if let Some((a, verb)) = verb_of_exec(b.as_slice()) {
            let v = chars_of(verb);
            assert(starts_with(b@, verb@));
            assert(b@.len() == l@.len());
            let rest = slice(l.as_slice(), v.len(), l.len());
            assert(rest@ =~= l@.skip(verb@.len() as int));
            let name = trimmed(rest.as_slice());
            self.unless_last(a, name.as_slice());
            return;
        }
        if self.phase == Phase::Hooks {
            let a = trimmed_end_matches(l.as_slice(), ".");
            let name = trimmed_end_matches(a.as_slice(), "…");
            self.unless_last(Action::Hook, name.as_slice());
        }
    }

    /// Bar line for a file currently being fetched.
    fn download_line(&mut self, l: &[char], percent: u8)
        ensures
            final(self)@ == download_spec(old(self)@, l@, percent),
    {
        let ws = split_ws(l);
        let ghost wv = views(ws@);
        let mut i: usize = 0;
        while i < ws.len() && !has_str(ws[i].as_slice(), ".pkg.tar")
            invariant
                i <= ws.len(),
                wv == views(ws@),
                wv == words(l@),
                pkg_from(wv, 0) == pkg_from(wv, i as int),
            decreases ws.len() - i,
        {
            i = i + 1;
        }
        if i == ws.len() {
            return;
        }
        let file = &ws[i];
        assert(file@ == wv[i as int]);
        if let Some(size) = read_size_chars(l) {
            self.record_size(file.as_slice(), size);
        }
        if let Some(v) = read_speed_chars(l) {
            self.downloads.speed = Some(string_of(v.as_slice()));
        }
        if percent < 100 {
            return;
        }
        let name = match name_from_file_chars(file.as_slice()) {
            Some(n) => n,
            None => return,
        };
        if listed(&self.downloads.finished, name.as_slice()) {
            return;
        }
        let size = self.size_of(file.as_slice());
        self.downloads.bytes = sat_add_exec(self.downloads.bytes, size);
        self.downloads.last = string_of(file.as_slice());
        let ghost before = strs(self.downloads.finished@);
        self.downloads.finished.push(string_of(name.as_slice()));
        assert(strs(self.downloads.finished@) =~= before.push(name@));
        let detail = human_size(self.lang, size);
        self.push_event(Action::Downloaded, string_of(name.as_slice()), detail);
    }

    fn plain(&mut self, l: &[char])
        ensures
            final(self)@ == plain_spec(old(self)@, l@),
    {
        if let Some(r) = without_prefix(l, ":: ") {
            let text = trimmed(r.as_slice());
            self.new_phase(text.as_slice());
            return;
        }
        let mark = match without_prefix(l, "==>") {
            Some(r) => Some(r),
            None => without_prefix(l, "->"),
        };
        if let Some(r) = mark {
            let step = trimmed(r.as_slice());
            self.build(step.as_slice());
            return;
        }
        if let Some(r) = without_prefix(l, "warning: ") {
            let w = trimmed(r.as_slice());
            self.warning(w.as_slice());
            return;
        }
        if let Some(r) = without_prefix(l, "error: ") {
            let e = trimmed(r.as_slice());
            self.add_error(e.as_slice());
            return;
        }
        if let Some((n, m, label)) = read_counter_chars(l) {
            self.counter = Some((n, m));
            self.percent = read_percent_chars(l);
            self.action_transaction(label.as_slice());
            return;
        }
        if let Some(p) = read_percent_chars(l) {
            self.percent = Some(p);
            self.download_line(l, p);
        }
    }

    fn question(&mut self, l: &[char])
        ensures
            final(self)@ == question_spec(old(self)@, l@),
    {
        if let Some(about) = providers_question(l) {
            self.choice = Some(
                Choice { about: string_of(about.as_slice()), candidates: Vec::new(), default: None },
            );
            self.group = String::new();
            assert(self@.choice.unwrap().candidates =~= seq![]);
            return;
        }
        if self.choice.is_some() {
            if let Some(g) = group_heading(l) {
                self.group = string_of(g.as_slice());
                return;
            }
            let grp = chars_of(self.group.as_str());
            let mut found = read_candidates(l, grp.as_slice());
            if found.len() > 0 {
                let c = self.choice.take().unwrap();
                let mut cands = c.candidates;
                let ghost before = cand_views(cands@);
                let ghost add = cand_views(found@);
                cands.append(&mut found);
                assert(cand_views(cands@) =~= before + add);
                self.choice = Some(Choice { about: c.about, candidates: cands, default: c.default });
                return;
            }
            if let Some(n) = read_default_chars(l) {
                let c = self.choice.take().unwrap();
                self.choice = Some(Choice { about: c.about, candidates: c.candidates, default: Some(n) });
                return;
            }
        }
        self.plain(l);
    }

    /// Reads one line of the child's output.
    pub fn analyze(&mut self, line: &str)
        ensures
            final(self)@ == step(old(self)@, line@),
    {
        let v = chars_of(line);
        let l = trimmed(v.as_slice());
        if l.len() == 0 {
            return;
        }
        if is_resolution_header(l.as_slice()) {
            if !self.in_resolution {
                self.resolution = Vec::new();
                self.in_resolution = true;
                assert(res_views(self.resolution@) =~= seq![]);
            }
            return;
        }
        if self.in_resolution {
            match read_resolution(l.as_slice()) {
                Some(r) => {
                    let ghost before = res_views(self.resolution@);
                    self.resolution.push(r);
                    assert(res_views(self.resolution@) =~= before.push(r@));
                    return;
                },
                None => {
                    self.in_resolution = false;
                },
            }
        }
        self.question(l.as_slice());
    }

    /// Packages the transaction has already handled (downloads aside).
    pub fn handled(&self) -> (r: Vec<String>)
        ensures
            strs(r@) == handled_of(self@.events),
    {
        let ghost evs = event_views(self.events@);
        let mut r: Vec<String> = Vec::new();
        let mut i: usize = 0;
        assert(evs.take(0) =~= seq![]);
        assert(strs(r@) =~= seq![]);
        while i < self.events.len()
            invariant
                i <= self.events.len(),
                evs == event_views(self.events@),
                strs(r@) == handled_of(evs.take(i as int)),
            decreases self.events.len() - i,
        {
            let e = &self.events[i];
            assert(evs.take(i + 1).drop_last() =~= evs.take(i as int));
            assert(evs.take(i + 1).last() == e@);
            let changes = match e.action {
                Action::Installed | Action::Upgraded | Action::Downgraded | Action::Reinstalled
                | Action::Removed => true,
                _ => false,
            };
            if changes {
                let ghost before = strs(r@);
                r.push(e.target.clone());
                assert(strs(r@) =~= before.push(e.target@));
            }
            i = i + 1;
        }
        assert(evs.take(self.events.len() as int) =~= evs);
        r
    }
}

impl Default for Journal {
    fn default() -> (r: Journal)
        ensures
            r@ == fresh(Lang::En),
    {
        Journal::new(Lang::En)
    }
}

// ---------------------------------------------------------------------------
// Laws
// ---------------------------------------------------------------------------

pub open spec fn no_dup(s: Seq<Seq<char>>) -> bool {
    forall|i: int, j: int| 0 <= i < j < s.len() ==> s[i] != s[j]
}

/// What every line keeps true of a journal: the events stay bounded, and a
/// file, an error, a warning or a `.pacnew` is recorded once.
pub open spec fn journal_inv(j: JournalView) -> bool {
    &&& j.events.len() <= MAX_EVENTS
    &&& no_dup(j.downloads.finished)
    &&& no_dup(j.errors)
    &&& no_dup(j.warnings)
    &&& no_dup(j.pacnew)
}

/// A list left as it was, or grown by one element it did not hold.
pub open spec fn grows_by_one_new(old: Seq<Seq<char>>, new: Seq<Seq<char>>) -> bool {
    new == old || exists|x: Seq<char>| !old.contains(x) && new == #[trigger] old.push(x)
}

/// The invariant holds after the change, the events changed only if the
/// pending question went with them, and the errors, warnings and `.pacnew`
/// files each gained at most one new entry.
pub open spec fn kept(j: JournalView, k: JournalView) -> bool {
    &&& journal_inv(k)
    &&& (k.events == j.events || k.choice is None)
    &&& grows_by_one_new(j.errors, k.errors)
    &&& grows_by_one_new(j.warnings, k.warnings)
    &&& grows_by_one_new(j.pacnew, k.pacnew)
}

proof fn lemma_push_new(s: Seq<Seq<char>>, x: Seq<char>)
    requires
        no_dup(s),
        !s.contains(x),
    ensures
        no_dup(s.push(x)),
{
    assert forall|i: int, k: int| 0 <= i < k < s.push(x).len() implies s.push(x)[i] != s.push(x)[k] by {
        if k == s.len() {
            assert(s.push(x)[i] == s[i]);
            if s[i] == x {
                assert(s.contains(x));
            }
        } else {
            assert(s.push(x)[i] == s[i] && s.push(x)[k] == s[k]);
        }
    }
}

proof fn lemma_error(j: JournalView, e: Seq<char>)
    requires
        journal_inv(j),
    ensures
        kept(j, error_spec(j, e)),
{
    if !j.errors.contains(e) {
        lemma_push_new(j.errors, e);
    }
}

proof fn lemma_warning(j: JournalView, text: Seq<char>)
    requires
        journal_inv(j),
    ensures
        kept(j, warning_spec(j, text)),
{
    match pacnew_path(text) {
        Some(path) => if path.len() > 0 && !j.pacnew.contains(path) {
            lemma_push_new(j.pacnew, path);
        } else {
            let a = warning_text(j.lang, text);
            if !j.warnings.contains(a) {
                lemma_push_new(j.warnings, a);
            }
        },
        None => {
            let a = warning_text(j.lang, text);
            if !j.warnings.contains(a) {
                lemma_push_new(j.warnings, a);
            }
        },
    }
}

proof fn lemma_build(j: JournalView, st: Seq<char>)
    requires
        journal_inv(j),
    ensures
        kept(j, build_spec(j, st)),
{
    if st.len() > 0 {
        match strip_prefix(st, "WARNING:"@) {
            Some(w) => lemma_warning(j, trim(w)),
            None => match strip_prefix(st, "ERROR:"@) {
                Some(e) => lemma_error(j, trim(e)),
                None => {},
            },
        }
    }
}

proof fn lemma_action(j: JournalView, label: Seq<char>)
    requires
        journal_inv(j),
    ensures
        kept(j, action_spec(j, label)),
{
}

proof fn lemma_download(j: JournalView, l: Seq<char>, percent: u8)
    requires
        journal_inv(j),
    ensures
        kept(j, download_spec(j, l, percent)),
{
    let ws = words(l);
    match pkg_from(ws, 0) {
        None => {},
        Some(i) => {
            let file = ws[i];
            let j1 = match size_spec(l) {
                Some(sz) => JournalView { sizes: j.sizes.insert(file, sz), ..j },
                None => j,
            };
            let j2 = match speed_spec(l) {
                Some(v) => JournalView {
                    downloads: DownloadsView { speed: Some(v), ..j1.downloads },
                    ..j1
                },
                None => j1,
            };
            if percent >= 100 {
                match name_from_file_spec(file) {
                    None => {},
                    Some(name) => if !j2.downloads.finished.contains(name) {
                        lemma_push_new(j2.downloads.finished, name);
                    },
                }
            }
        },
    }
}

proof fn lemma_plain(j: JournalView, l: Seq<char>)
    requires
        journal_inv(j),
    ensures
        kept(j, plain_spec(j, l)),
{
    match strip_prefix(l, ":: "@) {
        Some(r) => {},
        None => match marker(l) {
            Some(r) => lemma_build(j, trim(r)),
            None => match strip_prefix(l, "warning: "@) {
                Some(r) => lemma_warning(j, trim(r)),
                None => match strip_prefix(l, "error: "@) {
                    Some(r) => lemma_error(j, trim(r)),
                    None => match counter_spec(l) {
                        Some((n, m, label)) => lemma_action(
                            JournalView { counter: Some((n, m)), percent: percent_spec(l), ..j },
                            label,
                        ),
                        None => match percent_spec(l) {
                            Some(p) => lemma_download(JournalView { percent: Some(p), ..j }, l, p),
                            None => {},
                        },
                    },
                },
            },
        },
    }
}

/// Whatever line comes, the journal stays bounded and records each file,
/// error, warning and `.pacnew` once; one line adds at most one new error,
/// one new warning and one new `.pacnew` file; a blank line changes nothing;
/// and once anything actually happens — an event is recorded — a pending
/// question has been answered.
pub proof fn law_step_keeps_the_journal(j: JournalView, line: Seq<char>)
    requires
        journal_inv(j),
    ensures
        journal_inv(step(j, line)),
        step(j, line).events != j.events ==> step(j, line).choice is None,
        grows_by_one_new(j.errors, step(j, line).errors),
        grows_by_one_new(j.warnings, step(j, line).warnings),
        grows_by_one_new(j.pacnew, step(j, line).pacnew),
        trim(line).len() == 0 ==> step(j, line) == j,
{
    let l = trim(line);
    if l.len() > 0 && !header_spec(l) && !(j.in_resolution && resolution_spec(l) is Some) {
        let j0 = if j.in_resolution {
            JournalView { in_resolution: false, ..j }
        } else {
            j
        };
        if providers_spec(l) is None {
            match j0.choice {
                Some(c) => if group_spec(l) is None && candidates_spec(l, j0.group).len() == 0
                    && default_spec(l) is None {
                    lemma_plain(j0, l);
                },
                None => lemma_plain(j0, l),
            }
        }
    }
}

/// A fresh journal satisfies the invariant.
pub proof fn law_fresh_journal(l: Lang)
    ensures
        journal_inv(fresh(l)),
{
}

/// A word: at least one character, none of them whitespace.
pub open spec fn is_word(s: Seq<char>) -> bool {
    s.len() > 0 && forall|k: int| 0 <= k < s.len() ==> !crate::text::is_ws(#[trigger] s[k])
}

proof fn lemma_not_prefix(b: Seq<char>, p: Seq<char>, k: int)
    requires
        0 <= k < p.len(),
        k < b.len(),
        b[k] != p[k],
    ensures
        !starts_with(b, p),
{
    if starts_with(b, p) {
        assert(b.subrange(0, p.len() as int)[k] == b[k]);
    }
}

/// The label `verb name`, trimmed and lower-cased as the journal reads it,
/// opens with the verb, and the name is what follows it.
proof fn lemma_label(v: Seq<char>, name: Seq<char>)
    requires
        v.len() > 0,
        !crate::text::is_ws(v[0]),
        forall|k: int| 0 <= k < v.len() ==> crate::text::ascii_lower(#[trigger] v[k]) == v[k],
        is_word(name),
    ensures
        trim(v + name) == v + name,
        trim(name) == name,
        (v + name).skip(v.len() as int) == name,
        starts_with(crate::text::ascii_lower_seq(v + name), v),
        forall|k: int| 0 <= k < v.len() ==> crate::text::ascii_lower_seq(v + name)[k] == v[k],
{
    let s = v + name;
    assert(!crate::text::is_ws(s[0]));
    assert(s.last() == name[name.len() - 1]);
    assert(trim(s) == s) by {
        assert(crate::text::trim_start(s) == s);
    }
    assert(name.last() == name[name.len() - 1]);
    assert(trim(name) == name) by {
        assert(crate::text::trim_start(name) == name);
    }
    assert(s.skip(v.len() as int) =~= name);
    let b = crate::text::ascii_lower_seq(s);
    assert forall|k: int| 0 <= k < v.len() implies b[k] == v[k] by {
        assert(s[k] == v[k]);
    }
    assert(b.subrange(0, v.len() as int) =~= v);
}

/// The event a verb of pacman's gives to the package it names.
proof fn lemma_verb_event(j: JournalView, v: Seq<char>, a: Action, name: Seq<char>)
    requires
        is_word(name),
        trim(v + name) == v + name,
        (v + name).skip(v.len() as int) == name,
        trim(name) == name,
        check_key(crate::text::ascii_lower_seq(v + name)) is None,
        verb_of(crate::text::ascii_lower_seq(v + name)) == Some((a, v)),
    ensures
        action_spec(j, v + name).events.len() > 0,
        action_spec(j, v + name).events.last().action == a,
        action_spec(j, v + name).events.last().target == name,
{
}

pub open spec fn pacman_verb(i: int) -> Seq<char> {
    if i == 0 {
        "removing "@
    } else if i == 1 {
        "installing "@
    } else if i == 2 {
        "upgrading "@
    } else if i == 3 {
        "downgrading "@
    } else {
        "reinstalling "@
    }
}

proof fn lemma_not_a_check(b: Seq<char>)
    requires
        b.len() > 0,
        b[0] != 'c',
        b[0] != 'l',
    ensures
        check_key(b) is None,
{
    reveal_strlit("checking keys in keyring");
    reveal_strlit("checking package integrity");
    reveal_strlit("loading package files");
    reveal_strlit("checking for file conflicts");
    reveal_strlit("checking available disk space");
    lemma_not_prefix(b, "checking keys in keyring"@, 0);
    lemma_not_prefix(b, "checking package integrity"@, 0);
    lemma_not_prefix(b, "loading package files"@, 0);
    lemma_not_prefix(b, "checking for file conflicts"@, 0);
    lemma_not_prefix(b, "checking available disk space"@, 0);
}

#[verifier::rlimit(40)]
proof fn lemma_verb_at(j: JournalView, name: Seq<char>, i: int, a: Action)
    requires
        0 <= i < 5,
        is_word(name),
        a == (if i == 0 {
            Action::Removed
        } else if i == 1 {
            Action::Installed
        } else if i == 2 {
            Action::Upgraded
        } else if i == 3 {
            Action::Downgraded
        } else {
            Action::Reinstalled
        }),
    ensures
        action_spec(j, pacman_verb(i) + name).events.len() > 0,
        action_spec(j, pacman_verb(i) + name).events.last().action == a,
        action_spec(j, pacman_verb(i) + name).events.last().target == name,
{
    let v = pacman_verb(i);
    reveal_strlit("removing ");
    reveal_strlit("installing ");
    reveal_strlit("upgrading ");
    reveal_strlit("downgrading ");
    reveal_strlit("reinstalling ");
    lemma_label(v, name);
    let b = crate::text::ascii_lower_seq(v + name);
    assert(b.len() == v.len() + name.len());
    assert(b[0] == v[0]);
    lemma_not_a_check(b);
    if i == 0 {
        assert(b[2] == v[2]);
        lemma_not_prefix(b, "upgrading "@, 0);
        lemma_not_prefix(b, "downgrading "@, 0);
        lemma_not_prefix(b, "reinstalling "@, 2);
        lemma_not_prefix(b, "installing "@, 0);
    } else if i == 1 {
        lemma_not_prefix(b, "upgrading "@, 0);
        lemma_not_prefix(b, "downgrading "@, 0);
        lemma_not_prefix(b, "reinstalling "@, 0);
    } else if i == 3 {
        lemma_not_prefix(b, "upgrading "@, 0);
    } else if i == 4 {
        lemma_not_prefix(b, "upgrading "@, 0);
        lemma_not_prefix(b, "downgrading "@, 0);
    }
    lemma_verb_event(j, v, a, name);
}

/// Each verb pacman prints before a package, in a `(N/M) …` line, becomes
/// the event it names, on that package: `removing x` retells a removal of
/// `x`, never anything else; likewise installing, upgrading, downgrading and
/// reinstalling.
pub proof fn law_each_verb_its_event(j: JournalView, name: Seq<char>)
    requires
        is_word(name),
    ensures
        action_spec(j, "removing "@ + name).events.len() > 0,
        action_spec(j, "removing "@ + name).events.last().action == Action::Removed,
        action_spec(j, "removing "@ + name).events.last().target == name,
        action_spec(j, "installing "@ + name).events.len() > 0,
        action_spec(j, "installing "@ + name).events.last().action == Action::Installed,
        action_spec(j, "installing "@ + name).events.last().target == name,
        action_spec(j, "upgrading "@ + name).events.len() > 0,
        action_spec(j, "upgrading "@ + name).events.last().action == Action::Upgraded,
        action_spec(j, "upgrading "@ + name).events.last().target == name,
        action_spec(j, "downgrading "@ + name).events.len() > 0,
        action_spec(j, "downgrading "@ + name).events.last().action == Action::Downgraded,
        action_spec(j, "downgrading "@ + name).events.last().target == name,
        action_spec(j, "reinstalling "@ + name).events.len() > 0,
        action_spec(j, "reinstalling "@ + name).events.last().action == Action::Reinstalled,
        action_spec(j, "reinstalling "@ + name).events.last().target == name,
{
    lemma_verb_at(j, name, 0, Action::Removed);
    lemma_verb_at(j, name, 1, Action::Installed);
    lemma_verb_at(j, name, 2, Action::Upgraded);
    lemma_verb_at(j, name, 3, Action::Downgraded);
    lemma_verb_at(j, name, 4, Action::Reinstalled);
}

/// A line of pacman's numbered progress, `(N/M) verb name …`, read whole:
/// when no question is pending and no resolution table is being read, it
/// adds the event its verb names, on the package it names.
pub proof fn law_counter_lines_retell_their_verb(
    j: JournalView,
    line: Seq<char>,
    n: u32,
    m: u32,
    i: int,
    name: Seq<char>,
)
    requires
        j.choice is None,
        !j.in_resolution,
        line.len() > 0,
        line[0] == '(',
        !crate::text::is_ws(line.last()),
        0 <= i < 5,
        is_word(name),
        counter_spec(line) == Some((n, m, pacman_verb(i) + name)),
    ensures
        step(j, line).events.len() > 0,
        step(j, line).events.last().target == name,
        step(j, line).events.last().action == (if i == 0 {
            Action::Removed
        } else if i == 1 {
            Action::Installed
        } else if i == 2 {
            Action::Upgraded
        } else if i == 3 {
            Action::Downgraded
        } else {
            Action::Reinstalled
        }),
{
    reveal_strlit("Repo");
    reveal_strlit("Aur");
    reveal_strlit(":: ");
    reveal_strlit("==>");
    reveal_strlit("->");
    reveal_strlit("warning: ");
    reveal_strlit("error: ");
    assert(crate::text::trim_start(line) == line);
    assert(line.last() == line[line.len() - 1]);
    assert(trim(line) == line);
    lemma_not_prefix(line, "Repo"@, 0);
    lemma_not_prefix(line, "Aur"@, 0);
    lemma_not_prefix(line, ":: "@, 0);
    lemma_not_prefix(line, "==>"@, 0);
    lemma_not_prefix(line, "->"@, 0);
    lemma_not_prefix(line, "warning: "@, 0);
    lemma_not_prefix(line, "error: "@, 0);
    assert(!header_spec(line));
    assert(providers_spec(line) is None);
    let a = if i == 0 {
        Action::Removed
    } else if i == 1 {
        Action::Installed
    } else if i == 2 {
        Action::Upgraded
    } else if i == 3 {
        Action::Downgraded
    } else {
        Action::Reinstalled
    };
    let j1 = JournalView { counter: Some((n, m)), percent: percent_spec(line), ..j };
    lemma_verb_at(j1, name, i, a);
    assert(plain_spec(j, line) == action_spec(j1, pacman_verb(i) + name));
}

} // verus!
