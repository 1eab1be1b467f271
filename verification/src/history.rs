//! Transaction history, and rollback.
//!
//! One single source: pacman's log, `/var/log/pacman.log`. On Arch everything
//! that touches packages goes through libalpm and lands in that file — pacman,
//! paru, a dependency pulled in by an install script — so reading it gives a
//! complete, retroactive history, with nothing to record ourselves.
//!
//! A rollback "undoes" nothing: it builds the inverse transaction and has
//! pacman carry it out from the packages still present in the caches.

use vstd::prelude::*;
use crate::i18n::{Lang, t, tf, translate, subst, french, has_key_at};
use vstd::string::StringSliceAdditionalSpecFns;
use crate::text::{
    chars_of, string_of, owned, eq_lit, seq_eq, slice, append, concat, find, find_in, split_once,
    split_once_at, rsplit_once, rsplit_once_at, strip_prefix, strip_suffix, without_prefix,
    without_suffix, trim_start, trimmed_start, trim_start_matches, trim_end_matches,
    trimmed_start_matches, trimmed_end_matches, contains, has_str, has_char, views, strs,
    join, join_str, dec, fmt_usize, fmt_i64, dec_int, words, split_ws, begins_str, starts_with,
    ends_with, lines, str_lines, parse_int, parse_i64, swap_char, swapped_char, lowercase,
    lowered, has, is_digit, no_space,
};

verus! {

// ---------------------------------------------------------------------------
// Operations and transactions
// ---------------------------------------------------------------------------

#[derive(Debug, Clone, Copy, PartialEq, Eq, Structural)]
pub enum Act {
    Installed,
    Upgraded,
    Downgraded,
    Removed,
    Reinstalled,
}

impl Act {
    pub open spec fn symbol_text(self) -> Seq<char> {
        match self {
            Act::Installed => "+"@,
            Act::Upgraded => "↑"@,
            Act::Downgraded => "↓"@,
            Act::Removed => "−"@,
            Act::Reinstalled => "⟳"@,
        }
    }

    pub fn symbol(self) -> (r: &'static str)
        ensures
            r@ == self.symbol_text(),
    {
        match self {
            Act::Installed => "+",
            Act::Upgraded => "↑",
            Act::Downgraded => "↓",
            Act::Removed => "−",
            Act::Reinstalled => "⟳",
        }
    }

    /// The past participle, as pacman's log writes it and as the key of its
    /// translation.
    pub open spec fn verb(self) -> Seq<char> {
        match self {
            Act::Installed => "installed"@,
            Act::Upgraded => "upgraded"@,
            Act::Downgraded => "downgraded"@,
            Act::Removed => "removed"@,
            Act::Reinstalled => "reinstalled"@,
        }
    }

    pub open spec fn plural_key(self) -> Seq<char> {
        match self {
            Act::Installed => "plural|installed"@,
            Act::Upgraded => "plural|upgraded"@,
            Act::Downgraded => "plural|downgraded"@,
            Act::Removed => "plural|removed"@,
            Act::Reinstalled => "plural|reinstalled"@,
        }
    }

    pub fn label(self, l: Lang) -> (r: String)
        ensures
            r@ == translate(l, self.verb()),
    {
        t(
            l,
            match self {
                Act::Installed => "installed",
                Act::Upgraded => "upgraded",
                Act::Downgraded => "downgraded",
                Act::Removed => "removed",
                Act::Reinstalled => "reinstalled",
            },
        )
    }

    /// The label agreed with a count: French past participles inflect, so the
    /// plural is a message of its own.
    pub open spec fn label_n_text(self, l: Lang, n: nat) -> Seq<char> {
        if n <= 1 {
            translate(l, self.verb())
        } else {
            translate(l, self.plural_key())
        }
    }

    pub fn label_n(self, l: Lang, n: usize) -> (r: String)
        ensures
            r@ == self.label_n_text(l, n as nat),
            n >= 2 ==> french(self.plural_key()) is Some,
    {
        if n <= 1 {
            return self.label(l);
        }
        proof {
            lemma_plural_translated(self);
        }
        t(
            l,
            match self {
                Act::Installed => "plural|installed",
                Act::Upgraded => "plural|upgraded",
                Act::Downgraded => "plural|downgraded",
                Act::Removed => "plural|removed",
                Act::Reinstalled => "plural|reinstalled",
            },
        )
    }
}

/// Every plural form has its own entry in the French table.
pub proof fn lemma_plural_translated(a: Act)
    ensures
        french(a.plural_key()) is Some,
{
    let i: int = match a {
        Act::Installed => 238,
        Act::Upgraded => 239,
        Act::Downgraded => 240,
        Act::Removed => 241,
        Act::Reinstalled => 242,
    };
    assert(has_key_at(a.plural_key(), i));
    crate::i18n::lemma_present_key_translates(a.plural_key(), i);
}

/// An optional string, by its characters.
pub open spec fn opt(o: Option<String>) -> Option<Seq<char>> {
    match o {
        Some(s) => Some(s@),
        None => None,
    }
}

#[derive(Debug, Clone)]
pub struct Operation {
    pub act: Act,
    pub name: String,
    /// Version before the operation. Absent for an installation.
    pub before: Option<String>,
    /// Version after. Absent for a removal.
    pub after: Option<String>,
}

/// An operation, by the values it holds.
pub struct OpView {
    pub act: Act,
    pub name: Seq<char>,
    pub before: Option<Seq<char>>,
    pub after: Option<Seq<char>>,
}

impl View for Operation {
    type V = OpView;

    open spec fn view(&self) -> OpView {
        OpView {
            act: self.act,
            name: self.name@,
            before: opt(self.before),
            after: opt(self.after),
        }
    }
}

#[derive(Debug, Clone)]
pub struct Transaction {
    /// Raw timestamp from the log, verbatim: `2026-08-18T00:38:46+0200`.
    pub timestamp: String,
    /// Seconds since the epoch, for the relative display.
    pub instant: Option<i64>,
    /// Command line behind the transaction, when the log carries it.
    pub command: Option<String>,
    pub operations: Vec<Operation>,
    pub warnings: Vec<String>,
    /// Time between opening and closing, in seconds.
    pub duration: Option<i64>,
    /// False when the log carries no close: the transaction was interrupted.
    pub completed: bool,
}

/// A transaction, by the values it holds.
pub struct TxView {
    pub timestamp: Seq<char>,
    pub instant: Option<int>,
    pub command: Option<Seq<char>>,
    pub operations: Seq<OpView>,
    pub warnings: Seq<Seq<char>>,
    pub duration: Option<int>,
    pub completed: bool,
}

pub open spec fn ops(v: Seq<Operation>) -> Seq<OpView> {
    v.map_values(|o: Operation| o@)
}

pub open spec fn opt_int(o: Option<i64>) -> Option<int> {
    match o {
        Some(v) => Some(v as int),
        None => None,
    }
}

impl View for Transaction {
    type V = TxView;

    open spec fn view(&self) -> TxView {
        TxView {
            timestamp: self.timestamp@,
            instant: opt_int(self.instant),
            command: opt(self.command),
            operations: ops(self.operations@),
            warnings: strs(self.warnings@),
            duration: opt_int(self.duration),
            completed: self.completed,
        }
    }
}

pub open spec fn txs(v: Seq<Transaction>) -> Seq<TxView> {
    v.map_values(|t: Transaction| t@)
}

/// How many operations of a kind a list holds.
pub open spec fn count_act(o: Seq<OpView>, a: Act) -> nat
    decreases o.len(),
{
    if o.len() == 0 {
        0
    } else {
        count_act(o.drop_last(), a) + if o.last().act == a {
            1nat
        } else {
            0nat
        }
    }
}

/// `x`, `x y`, or `x y … (+3)` — a list row has no room for the rest.
pub open spec fn list_text(names: Seq<Seq<char>>) -> Seq<char> {
    if names.len() == 0 {
        "—"@
    } else if names.len() <= 2 {
        join(names, " "@)
    } else {
        join(names.take(2), " "@) + " … (+"@ + dec((names.len() - 2) as nat) + ")"@
    }
}

pub fn list(names: &[Vec<char>]) -> (r: Vec<char>)
    ensures
        r@ == list_text(views(names@)),
{
    if names.len() == 0 {
        return chars_of("—");
    }
    if names.len() <= 2 {
        return join_str(names, " ");
    }
    let first = slice_rows(names, 2);
    let mut r = join_str(first.as_slice(), " ");
    append(&mut r, chars_of(" … (+").as_slice());
    append(&mut r, fmt_usize(names.len() - 2).as_slice());
    append(&mut r, chars_of(")").as_slice());
    assert(views(first@) =~= views(names@).take(2));
    r
}

/// The first `n` rows of a list, copied.
pub(crate) fn slice_rows(rows: &[Vec<char>], n: usize) -> (r: Vec<Vec<char>>)
    requires
        n <= rows.len(),
    ensures
        views(r@) == views(rows@).take(n as int),
{
    let mut r: Vec<Vec<char>> = Vec::new();
    let mut i: usize = 0;
    while i < n
        invariant
            i <= n <= rows.len(),
            views(r@) == views(rows@).take(i as int),
        decreases n - i,
    {
        let c = slice(rows[i].as_slice(), 0, rows[i].len());
        assert(c@ =~= rows@[i as int]@);
        let ghost before = views(r@);
        r.push(c);
        assert(views(r@) =~= before.push(c@));
        assert(views(rows@).take(i + 1) =~= views(rows@).take(i as int).push(rows@[i as int]@));
        i = i + 1;
    }
    r
}

// ---------------------------------------------------------------------------
// Package files
// ---------------------------------------------------------------------------

/// `fastfetch-2.66.0-1-x86_64.pkg.tar.zst` → `fastfetch-2.66.0-1`: the text
/// before `.pkg.tar`, without its last `-` segment (the architecture). It is
/// the key that identifies one precise version of a package.
pub open spec fn version_key_spec(file: Seq<char>) -> Option<Seq<char>> {
    let stem = match split_once(file, ".pkg.tar"@) {
        Some((a, _)) => a,
        None => file,
    };
    match rsplit_once(stem, "-"@) {
        Some((base, _)) => Some(base),
        None => None,
    }
}

pub fn version_key(file: &str) -> (r: Option<String>)
    ensures
        opt(r) == version_key_spec(file@),
{
    match version_key_chars(&chars_of(file)) {
        Some(k) => Some(string_of(k.as_slice())),
        None => None,
    }
}

fn version_key_chars(file: &[char]) -> (r: Option<Vec<char>>)
    ensures
        match r {
            Some(k) => version_key_spec(file@) == Some(k@),
            None => version_key_spec(file@) is None,
        },
{
    let stem = match split_once_at(file, ".pkg.tar") {
        Some((a, _)) => a,
        None => slice(file, 0, file.len()),
    };
    assert(file@.subrange(0, file@.len() as int) =~= file@);
    match rsplit_once_at(stem.as_slice(), "-") {
        Some((base, _)) => Some(base),
        None => None,
    }
}

/// `/var/cache/pacman/pkg/fastfetch-2.66.0-1-x86_64.pkg.tar.zst` →
/// `fastfetch`. Anything that is not a package file is kept as it is.
pub open spec fn package_from_path_spec(target: Seq<char>) -> Seq<char> {
    if !contains(target, ".pkg.tar"@) {
        target
    } else {
        let base = match rsplit_once(target, "/"@) {
            Some((_, b)) => b,
            None => target,
        };
        match version_key_spec(base) {
            Some(key) => match rsplit_once(key, "-"@) {
                Some((x, _)) => match rsplit_once(x, "-"@) {
                    Some((name, _)) => name,
                    None => key,
                },
                None => key,
            },
            None => base,
        }
    }
}

pub fn package_from_path(target: &[char]) -> (r: Vec<char>)
    ensures
        r@ == package_from_path_spec(target@),
{
    assert(target@.subrange(0, target@.len() as int) =~= target@);
    if !has_str(target, ".pkg.tar") {
        return slice(target, 0, target.len());
    }
    let base = match rsplit_once_at(target, "/") {
        Some((_, b)) => b,
        None => slice(target, 0, target.len()),
    };
    match version_key_chars(base.as_slice()) {
        Some(key) => match rsplit_once_at(key.as_slice(), "-") {
            Some((x, _)) => match rsplit_once_at(x.as_slice(), "-") {
                Some((name, _)) => name,
                None => key,
            },
            None => key,
        },
        None => base,
    }
}

// ---------------------------------------------------------------------------
// Reading the log
// ---------------------------------------------------------------------------

/// `[value] rest` → `(value, rest)`, the rest without its leading whitespace.
pub open spec fn bracketed_spec(line: Seq<char>) -> Option<(Seq<char>, Seq<char>)> {
    match strip_prefix(line, "["@) {
        Some(rest) => match find(rest, "]"@) {
            Some(e) => Some((rest.take(e), trim_start(rest.skip(e + 1)))),
            None => None,
        },
        None => None,
    }
}

pub fn bracketed(line: &[char]) -> (r: Option<(Vec<char>, Vec<char>)>)
    ensures
        match r {
            Some((a, b)) => bracketed_spec(line@) == Some((a@, b@)),
            None => bracketed_spec(line@) is None,
        },
{
    let rest = match without_prefix(line, "[") {
        Some(r) => r,
        None => return None,
    };
    let close = chars_of("]");
    proof {
        reveal_strlit("]");
    }
    match find_in(rest.as_slice(), close.as_slice()) {
        Some(e) => {
            assert(crate::text::occurs_at(rest@, close@, e as int));
            let n = rest.len();
            let tail = slice(rest.as_slice(), e + 1, n);
            assert(tail@ =~= rest@.skip(e + 1));
            Some((slice(rest.as_slice(), 0, e), trimmed_start(tail.as_slice())))
        },
        None => None,
    }
}

/// `upgraded fastfetch (2.66.0-1 -> 2.67.1-1)` → the matching operation.
pub open spec fn operation_spec(contents: Seq<char>) -> Option<OpView> {
    match split_once(contents, " "@) {
        Some((verb, rest)) => {
            let act = if verb == "installed"@ {
                Some(Act::Installed)
            } else if verb == "upgraded"@ {
                Some(Act::Upgraded)
            } else if verb == "downgraded"@ {
                Some(Act::Downgraded)
            } else if verb == "removed"@ {
                Some(Act::Removed)
            } else if verb == "reinstalled"@ {
                Some(Act::Reinstalled)
            } else {
                None
            };
            match act {
                Some(a) => match split_once(rest, " ("@) {
                    Some((name, versions)) => match strip_suffix(versions, ")"@) {
                        Some(v) => match split_once(v, " -> "@) {
                            Some((x, y)) => Some(
                                OpView { act: a, name, before: Some(x), after: Some(y) },
                            ),
                            None => if a == Act::Removed {
                                Some(OpView { act: a, name, before: Some(v), after: None })
                            } else {
                                Some(OpView { act: a, name, before: None, after: Some(v) })
                            },
                        },
                        None => None,
                    },
                    None => None,
                },
                None => None,
            }
        },
        None => None,
    }
}

/// A log line's operation, as pacman writes it: `verb name (before -> after)`.
pub open spec fn op_line(verb: Seq<char>, name: Seq<char>, before: Seq<char>, after: Seq<char>) -> Seq<char> {
    verb + " "@ + (name + " ("@ + (before + " -> "@ + after + ")"@))
}

proof fn lemma_op_line(verb: Seq<char>, name: Seq<char>, before: Seq<char>, after: Seq<char>)
    requires
        no_space(verb),
        no_space(name),
        no_space(before),
    ensures
        split_once(op_line(verb, name, before, after), " "@) == Some(
            (verb, name + " ("@ + (before + " -> "@ + after + ")"@)),
        ),
        split_once(name + " ("@ + (before + " -> "@ + after + ")"@), " ("@) == Some(
            (name, before + " -> "@ + after + ")"@),
        ),
        strip_suffix(before + " -> "@ + after + ")"@, ")"@) == Some(before + " -> "@ + after),
        split_once(before + " -> "@ + after, " -> "@) == Some((before, after)),
{
    reveal_strlit(" ");
    reveal_strlit(" (");
    reveal_strlit(" -> ");
    reveal_strlit(")");
    crate::text::lemma_split_after_word(verb, " "@, name + " ("@ + (before + " -> "@ + after + ")"@));
    crate::text::lemma_split_after_word(name, " ("@, before + " -> "@ + after + ")"@);
    crate::text::lemma_split_after_word(before, " -> "@, after);
    let v = before + " -> "@ + after + ")"@;
    assert(")"@.is_suffix_of(v)) by {
        assert(v.subrange(v.len() - 1, v.len() as int) =~= ")"@);
    }
    assert(v.take(v.len() - 1) =~= before + " -> "@ + after);
}

/// Each verb of pacman's log gives its own act, with the name and both
/// versions as written: `downgraded` is a downgrade, never an upgrade.
pub proof fn law_each_verb_its_act(name: Seq<char>, before: Seq<char>, after: Seq<char>)
    requires
        no_space(name),
        no_space(before),
    ensures
        operation_spec(op_line("installed"@, name, before, after)) == Some(
            OpView { act: Act::Installed, name, before: Some(before), after: Some(after) },
        ),
        operation_spec(op_line("upgraded"@, name, before, after)) == Some(
            OpView { act: Act::Upgraded, name, before: Some(before), after: Some(after) },
        ),
        operation_spec(op_line("downgraded"@, name, before, after)) == Some(
            OpView { act: Act::Downgraded, name, before: Some(before), after: Some(after) },
        ),
        operation_spec(op_line("removed"@, name, before, after)) == Some(
            OpView { act: Act::Removed, name, before: Some(before), after: Some(after) },
        ),
        operation_spec(op_line("reinstalled"@, name, before, after)) == Some(
            OpView { act: Act::Reinstalled, name, before: Some(before), after: Some(after) },
        ),
{
    reveal_strlit("installed");
    reveal_strlit("upgraded");
    reveal_strlit("downgraded");
    reveal_strlit("removed");
    reveal_strlit("reinstalled");
    lemma_op_line("installed"@, name, before, after);
    lemma_op_line("upgraded"@, name, before, after);
    lemma_op_line("downgraded"@, name, before, after);
    lemma_op_line("removed"@, name, before, after);
    lemma_op_line("reinstalled"@, name, before, after);
}

fn act_of(verb: &[char]) -> (r: Option<Act>)
    ensures
        r == (if verb@ == "installed"@ {
            Some(Act::Installed)
        } else if verb@ == "upgraded"@ {
            Some(Act::Upgraded)
        } else if verb@ == "downgraded"@ {
            Some(Act::Downgraded)
        } else if verb@ == "removed"@ {
            Some(Act::Removed)
        } else if verb@ == "reinstalled"@ {
            Some(Act::Reinstalled)
        } else {
            None
        }),
{
    if eq_lit(verb, "installed") {
        Some(Act::Installed)
    } else if eq_lit(verb, "upgraded") {
        Some(Act::Upgraded)
    } else if eq_lit(verb, "downgraded") {
        Some(Act::Downgraded)
    } else if eq_lit(verb, "removed") {
        Some(Act::Removed)
    } else if eq_lit(verb, "reinstalled") {
        Some(Act::Reinstalled)
    } else {
        None
    }
}

pub fn operation(contents: &[char]) -> (r: Option<Operation>)
    ensures
        match r {
            Some(o) => operation_spec(contents@) == Some(o@),
            None => operation_spec(contents@) is None,
        },
{
    let (verb, rest) = match split_once_at(contents, " ") {
        Some(p) => p,
        None => return None,
    };
    let act = match act_of(verb.as_slice()) {
        Some(a) => a,
        None => return None,
    };
    let (name, versions) = match split_once_at(rest.as_slice(), " (") {
        Some(p) => p,
        None => return None,
    };
    let v = match without_suffix(versions.as_slice(), ")") {
        Some(v) => v,
        None => return None,
    };
    let (before, after) = match split_once_at(v.as_slice(), " -> ") {
        Some((x, y)) => (Some(string_of(x.as_slice())), Some(string_of(y.as_slice()))),
        None => {
            if act == Act::Removed {
                (Some(string_of(v.as_slice())), None)
            } else {
                (None, Some(string_of(v.as_slice())))
            }
        },
    };
    Some(Operation { act, name: string_of(name.as_slice()), before, after })
}

// ---------------------------------------------------------------------------
// Time
// ---------------------------------------------------------------------------

/// Bytes read one by one as characters: digits and signs are ASCII, and any
/// other byte reads as something that is neither.
pub open spec fn bytes_text(b: Seq<u8>) -> Seq<char> {
    b.map_values(|x: u8| x as char)
}

/// The integer written in bytes `[a, e)` of a timestamp, if that range exists
/// and holds one.
pub open spec fn field(b: Seq<u8>, a: int, e: int) -> Option<int> {
    if 0 <= a <= e <= b.len() {
        parse_int(bytes_text(b.subrange(a, e)))
    } else {
        None
    }
}

/// Division by five as the machine does it, rounding towards zero.
pub open spec fn tdiv5(a: int) -> int {
    if a >= 0 {
        a / 5
    } else {
        -((-a) / 5)
    }
}

/// The year, counted from March so that the leap day ends it.
pub open spec fn march_year(y: int, m: int) -> int {
    y - if m <= 2 {
        1int
    } else {
        0int
    }
}

/// The month shifted so that March is zero.
pub open spec fn march_month(m: int) -> int {
    m + if m > 2 {
        -3int
    } else {
        9int
    }
}

/// Day of the March-based year.
pub open spec fn day_of_year(m: int, d: int) -> int {
    tdiv5(153 * march_month(m) + 2) + d - 1
}

/// Day of the 400-year era.
pub open spec fn day_of_era(y: int, m: int, d: int) -> int {
    let y = march_year(y, m);
    let yoe = y - (y / 400) * 400;
    yoe * 365 + yoe / 4 - yoe / 100 + day_of_year(m, d)
}

/// Days between 1970-01-01 and the given date (Hinnant's algorithm).
pub open spec fn days_from_civil_spec(y: int, m: int, d: int) -> int {
    (march_year(y, m) / 400) * 146097 + day_of_era(y, m, d) - 719468
}

pub open spec fn in_i64(v: int) -> bool {
    i64::MIN <= v <= i64::MAX
}

/// Every intermediate value of the computation fits in an `i64`.
pub open spec fn civil_fits(y: int, m: int, d: int) -> bool {
    let y2 = march_year(y, m);
    let era = y2 / 400;
    let num = 153 * march_month(m) + 2;
    &&& in_i64(y2)
    &&& (y2 < 0 ==> in_i64(y2 - 399))
    &&& in_i64(153 * march_month(m))
    &&& in_i64(num)
    &&& in_i64(tdiv5(num) + d)
    &&& in_i64(day_of_year(m, d))
    &&& in_i64(day_of_era(y, m, d))
    &&& in_i64(era * 146097)
    &&& in_i64(era * 146097 + day_of_era(y, m, d))
    &&& in_i64(days_from_civil_spec(y, m, d))
}

/// `2026-08-18T00:38:46+0200` → seconds since the epoch. The date and time
/// sit at fixed places; a `+hhmm` or `-hhmm` offset that follows is taken
/// away to recover the absolute instant (a missing part of it counts as 0).
pub open spec fn epoch_spec(b: Seq<u8>) -> Option<int> {
    if b.len() < 19 {
        None
    } else {
        match (field(b, 0, 4), field(b, 5, 7), field(b, 8, 10), field(b, 11, 13), field(b, 14, 16), field(b, 17, 19)) {
            (Some(y), Some(mo), Some(d), Some(h), Some(mi), Some(s)) => {
                let local = days_from_civil_spec(y, mo, d) * 86400 + h * 3600 + mi * 60 + s;
                let sign = if b.len() > 19 && b[19] == 43u8 {
                    1int
                } else if b.len() > 19 && b[19] == 45u8 {
                    -1int
                } else {
                    0int
                };
                let hh = match field(b, 20, 22) {
                    Some(v) => v,
                    None => 0,
                };
                let mm = match field(b, 22, 24) {
                    Some(v) => v,
                    None => 0,
                };
                Some(local - sign * (hh * 3600 + mm * 60))
            },
            _ => None,
        }
    }
}

pub open spec fn pow10(n: nat) -> nat
    decreases n,
{
    if n == 0 {
        1
    } else {
        10 * pow10((n - 1) as nat)
    }
}

proof fn lemma_value_bound(d: Seq<char>)
    requires
        crate::text::all_digits(d),
    ensures
        crate::text::value(d) < pow10(d.len()),
    decreases d.len(),
{
    if d.len() > 0 {
        assert(crate::text::all_digits(d.drop_last())) by {
            assert forall|i: int| 0 <= i < d.drop_last().len() implies is_digit(
                #[trigger] d.drop_last()[i],
            ) by {
                assert(d.drop_last()[i] == d[i]);
            }
        }
        lemma_value_bound(d.drop_last());
        assert(is_digit(d[d.len() - 1]));
    }
}

proof fn lemma_small_field(b: Seq<u8>, a: int, e: int)
    requires
        0 <= a <= e <= b.len(),
        e - a <= 4,
    ensures
        field(b, a, e) matches Some(v) ==> -9999 <= v <= 9999,
        e - a == 2 ==> (field(b, a, e) matches Some(v) ==> -9 <= v <= 99),
{
    let s = bytes_text(b.subrange(a, e));
    assert(pow10(0) == 1 && pow10(1) == 10 && pow10(2) == 100 && pow10(3) == 1000 && pow10(4)
        == 10000) by {
        reveal_with_fuel(pow10, 5);
    }
    if s.len() > 0 && s[0] == '-' && s.skip(1).len() > 0 && crate::text::all_digits(s.skip(1)) {
        lemma_value_bound(s.skip(1));
    } else {
        let d = if s.len() > 0 && s[0] == '+' {
            s.skip(1)
        } else {
            s
        };
        if d.len() > 0 && crate::text::all_digits(d) {
            lemma_value_bound(d);
        }
    }
}

fn field_of(b: &[u8], a: usize, e: usize) -> (r: Option<i64>)
    requires
        a <= e,
        e - a <= 4,
    ensures
        opt_int(r) == field(b@, a as int, e as int),
        r matches Some(v) ==> -9999 <= v <= 9999,
        e - a == 2 ==> (r matches Some(v) ==> -9 <= v <= 99),
{
    if e > b.len() {
        return None;
    }
    proof {
        lemma_small_field(b@, a as int, e as int);
    }
    let mut text: Vec<char> = Vec::new();
    let mut i: usize = a;
    while i < e
        invariant
            a <= i <= e <= b.len(),
            text@ == bytes_text(b@.subrange(a as int, i as int)),
        decreases e - i,
    {
        text.push(b[i] as char);
        assert(bytes_text(b@.subrange(a as int, i + 1)) =~= bytes_text(
            b@.subrange(a as int, i as int),
        ).push(b@[i as int] as char));
        i = i + 1;
    }
    parse_i64(text.as_slice())
}

/// Dates small enough for a timestamp stay within five million days.
pub proof fn lemma_small_dates(y: int, m: int, d: int)
    requires
        -9999 <= y <= 9999,
        -9 <= m <= 99,
        -9999 <= d <= 9999,
    ensures
        civil_fits(y, m, d),
        -5_000_000 <= days_from_civil_spec(y, m, d) <= 5_000_000,
{
    let y2 = march_year(y, m);
    let era = y2 / 400;
    let yoe = y2 - era * 400;
    let num = 153 * march_month(m) + 2;
    assert(2 <= num <= 153 * 108 + 2);
    assert(tdiv5(num) == num / 5);
    assert(0 <= num / 5 <= 3400) by (nonlinear_arith)
        requires
            2 <= num <= 153 * 108 + 2,
    ;
    assert(-26 <= era <= 25 && 0 <= yoe < 400) by (nonlinear_arith)
        requires
            era == y2 / 400,
            yoe == y2 - era * 400,
            -10000 <= y2 <= 9999,
    ;
    assert(0 <= yoe * 365 + yoe / 4 - yoe / 100 <= 146096) by (nonlinear_arith)
        requires
            0 <= yoe < 400,
    ;
    assert(-26 * 146097 <= era * 146097 <= 25 * 146097) by (nonlinear_arith)
        requires
            -26 <= era <= 25,
    ;
}

/// Days between 1970-01-01 and the given date, for every date whose
/// computation stays within the machine's integers.
pub fn days_from_civil(y: i64, m: i64, d: i64) -> (r: i64)
    requires
        civil_fits(y as int, m as int, d as int),
    ensures
        r == days_from_civil_spec(y as int, m as int, d as int),
{
    let y2: i64 = y - if m <= 2 {
        1
    } else {
        0
    };
    let era: i64 = if y2 >= 0 {
        (y2 as u64 / 400) as i64
    } else {
        let back: u64 = (-(y2 + 1)) as u64 + 400;
        -((back / 400) as i64)
    };
    assert(era == y2 / 400) by (nonlinear_arith)
        requires
            y2 >= 0 ==> era == y2 / 400,
            y2 < 0 ==> era == -((399 - y2) / 400),
    ;
    assert(y2 - 399 <= era * 400 <= y2) by (nonlinear_arith)
        requires
            era == y2 / 400,
    ;
    let yoe: i64 = y2 - era * 400;
    assert(0 <= yoe < 400);
    let adj: i64 = if m > 2 {
        -3
    } else {
        9
    };
    let num: i64 = 153 * (m + adj) + 2;
    let q: i64 = if num >= 0 {
        (num as u64 / 5) as i64
    } else {
        let back: u64 = (-(num + 1)) as u64 + 1;
        assert(back == -num);
        -((back / 5) as i64)
    };
    assert(q == tdiv5(num as int));
    let doy: i64 = q + d - 1;
    assert(0 <= yoe * 365 + yoe / 4 - yoe / 100 <= 146096) by (nonlinear_arith)
        requires
            0 <= yoe < 400,
    ;
    let doe: i64 = yoe * 365 + (yoe as u64 / 4) as i64 - (yoe as u64 / 100) as i64 + doy;
    era * 146097 + doe - 719468
}

/// `2026-08-18T00:38:46+0200` → seconds since the epoch.
#[verifier::spinoff_prover]
#[verifier::rlimit(40)]
pub fn epoch(ts: &str) -> (r: Option<i64>)
    ensures
        opt_int(r) == epoch_spec(ts.spec_bytes()),
        r matches Some(v) ==> -1_000_000_000_000 <= v <= 1_000_000_000_000,
{
    let b = ts.as_bytes();
    if b.len() < 19 {
        return None;
    }
    let y = match field_of(b, 0, 4) {
        Some(v) => v,
        None => return None,
    };
    let mo = match field_of(b, 5, 7) {
        Some(v) => v,
        None => return None,
    };
    let d = match field_of(b, 8, 10) {
        Some(v) => v,
        None => return None,
    };
    let h = match field_of(b, 11, 13) {
        Some(v) => v,
        None => return None,
    };
    let mi = match field_of(b, 14, 16) {
        Some(v) => v,
        None => return None,
    };
    let s = match field_of(b, 17, 19) {
        Some(v) => v,
        None => return None,
    };
    proof {
        lemma_small_dates(y as int, mo as int, d as int);
    }
    let days = days_from_civil(y, mo, d);
    assert(-500_000_000_000 <= days * 86400 <= 500_000_000_000) by (nonlinear_arith)
        requires
            -5_000_000 <= days <= 5_000_000,
    ;
    let mut seconds: i64 = days * 86400 + h * 3600 + mi * 60 + s;
    let sign: i64 = if b.len() > 19 && b[19] == 43u8 {
        1
    } else if b.len() > 19 && b[19] == 45u8 {
        -1
    } else {
        0
    };
    if sign != 0 {
        let hh = match field_of(b, 20, 22) {
            Some(v) => v,
            None => 0,
        };
        let mm = match field_of(b, 22, 24) {
            Some(v) => v,
            None => 0,
        };
        assert(-99 * 3600 - 99 * 60 <= hh * 3600 + mm * 60 <= 99 * 3600 + 99 * 60) by (nonlinear_arith)
            requires
                -9 <= hh <= 99,
                -9 <= mm <= 99,
        ;
        let shift: i64 = hh * 3600 + mm * 60;
        let delta: i64 = if sign > 0 {
            shift
        } else {
            -shift
        };
        seconds = seconds - delta;
    }
    Some(seconds)
}

/// The date without the time zone or the seconds: the first 16 bytes of the
/// timestamp with the `T` turned into a space, or the timestamp as it is when
/// it is shorter than that or the cut would fall inside a character.
pub open spec fn short_date_spec(ts: Seq<char>) -> Seq<char> {
    let b = vstd::utf8::encode_utf8(ts);
    if b.len() >= 16 && vstd::utf8::is_char_boundary(b, 16) {
        swap_char(vstd::utf8::decode_utf8(b.subrange(0, 16)), 'T', ' ')
    } else {
        ts
    }
}

pub fn short_date(timestamp: &str) -> (r: String)
    ensures
        r@ == short_date_spec(timestamp@),
{
    proof {
        vstd::utf8::encode_utf8_valid_utf8(timestamp@);
    }
    let bytes = timestamp.as_bytes();
    if bytes.len() >= 16 && timestamp.is_char_boundary(16) {
        let (a, _) = timestamp.split_at(16);
        proof {
            vstd::utf8::encode_utf8_decode_utf8(a@);
        }
        let v = chars_of(a);
        assert(a.spec_bytes() =~= timestamp.spec_bytes().subrange(0, 16));
        string_of(swapped_char(v.as_slice(), 'T', ' ').as_slice())
    } else {
        owned(timestamp)
    }
}

/// "3 h ago", "2 d ago": an absolute date on its own forces the reader to do
/// the arithmetic just to know whether it is recent. Empty when there is no
/// instant or it lies in the future.
pub open spec fn relative_text(l: Lang, instant: Option<int>, now: int) -> Seq<char> {
    match instant {
        None => seq![],
        Some(t) => {
            let d = now - t;
            if d < 0 {
                seq![]
            } else if d <= 59 {
                translate(l, "just now"@)
            } else if d <= 3599 {
                subst(translate(l, "{0} min ago"@), seq![dec((d / 60) as nat)])
            } else if d <= 86399 {
                subst(translate(l, "{0} h ago"@), seq![dec((d / 3600) as nat)])
            } else if d <= 2591999 {
                subst(translate(l, "{0} d ago"@), seq![dec((d / 86400) as nat)])
            } else {
                subst(translate(l, "{0} months ago"@), seq![dec((d / 2592000) as nat)])
            }
        },
    }
}

/// The relative age of an instant, seen from `now` (seconds since the epoch).
pub fn relative_time_at(l: Lang, instant: Option<i64>, now: i64) -> (r: String)
    ensures
        r@ == relative_text(l, opt_int(instant), now as int),
{
    let t0 = match instant {
        Some(t0) => t0,
        None => return String::new(),
    };
    let d: i128 = now as i128 - t0 as i128;
    if d < 0 {
        return String::new();
    }
    let (key, unit): (&str, i128) = if d <= 59 {
        return t(l, "just now");
    } else if d <= 3599 {
        ("{0} min ago", 60)
    } else if d <= 86399 {
        ("{0} h ago", 3600)
    } else if d <= 2591999 {
        ("{0} d ago", 86400)
    } else {
        ("{0} months ago", 2592000)
    };
    let n = (d / unit) as u64;
    let digits = string_of(crate::text::fmt_u64(n).as_slice());
    let args = [digits.as_str()];
    let r = tf(l, key, &args);
    assert(args@.map_values(|a: &str| a@) =~= seq![dec(n as nat)]);
    r
}

/// Seconds since the epoch by the system clock, when it is past the epoch.
#[verifier::external_body]
fn now_secs() -> Option<i64> {
    match std::time::SystemTime::now().duration_since(std::time::UNIX_EPOCH) {
        Ok(d) => Some(d.as_secs() as i64),
        Err(_) => None,
    }
}

/// The relative age of an instant, seen from the system clock (from the
/// instant itself when the clock reads before the epoch).
pub fn relative_time(l: Lang, instant: Option<i64>) -> (r: String)
    ensures
        instant is None ==> r@ == Seq::<char>::empty(),
        instant matches Some(t0) ==> exists|now: i64| r@ == relative_text(l, opt_int(instant), now as int),
{
    let t0 = match instant {
        Some(t0) => t0,
        None => return String::new(),
    };
    let now = match now_secs() {
        Some(n) => n,
        None => t0,
    };
    relative_time_at(l, instant, now)
}

// ---------------------------------------------------------------------------
// The log, line by line
// ---------------------------------------------------------------------------

/// What has been read of the log so far: closed (or abandoned) transactions,
/// the one still open, and the last command announced by pacman.
pub struct HistState {
    pub done: Seq<TxView>,
    pub cur: Option<TxView>,
    pub cmd: Option<Seq<char>>,
}

pub open spec fn trim_quotes(c: Seq<char>) -> Seq<char> {
    trim_end_matches(trim_start_matches(c, "'"@), "'"@)
}

pub open spec fn epoch_of(ts: Seq<char>) -> Option<int> {
    epoch_spec(vstd::utf8::encode_utf8(ts))
}

/// A transaction as it opens.
pub open spec fn opened(ts: Seq<char>, cmd: Option<Seq<char>>) -> TxView {
    TxView {
        timestamp: ts,
        instant: epoch_of(ts),
        command: cmd,
        operations: seq![],
        warnings: seq![],
        duration: None,
        completed: false,
    }
}

/// A transaction as it closes at `ts`.
pub open spec fn closed(t: TxView, ts: Seq<char>) -> TxView {
    TxView {
        completed: true,
        duration: match (t.instant, epoch_of(ts)) {
            (Some(a), Some(b)) => Some(b - a),
            _ => None,
        },
        ..t
    }
}

/// One line of the log. Lines that are not `[time] [TAG] contents` are
/// ignored: the log format is not an API, and showing less beats reporting
/// something false. `[PACMAN] Running '…'` announces the command behind the
/// next transaction; `[ALPM]` lines open and close transactions and carry
/// their warnings and operations. A transaction still open when the next one
/// starts was interrupted: it is kept as it is, not completed.
pub open spec fn step(s: HistState, line: Seq<char>) -> HistState {
    match bracketed_spec(line) {
        None => s,
        Some((ts, rest)) => match bracketed_spec(rest) {
            None => s,
            Some((tag, contents)) => if tag == "PACMAN"@ {
                match strip_prefix(contents, "Running "@) {
                    Some(c) => HistState { cmd: Some(trim_quotes(c)), ..s },
                    None => s,
                }
            } else if tag != "ALPM"@ {
                s
            } else if contents == "transaction started"@ {
                HistState {
                    done: match s.cur {
                        Some(t) => s.done.push(t),
                        None => s.done,
                    },
                    cur: Some(opened(ts, s.cmd)),
                    cmd: None,
                }
            } else {
                match s.cur {
                    None => s,
                    Some(t) => if contents == "transaction completed"@ {
                        HistState { done: s.done.push(closed(t, ts)), cur: None, cmd: s.cmd }
                    } else {
                        match strip_prefix(contents, "warning: "@) {
                            Some(w) => HistState {
                                cur: Some(TxView { warnings: t.warnings.push(w), ..t }),
                                ..s
                            },
                            None => match operation_spec(contents) {
                                Some(op) => HistState {
                                    cur: Some(TxView { operations: t.operations.push(op), ..t }),
                                    ..s
                                },
                                None => s,
                            },
                        }
                    }
                }
            },
        },
    }
}

pub open spec fn initial() -> HistState {
    HistState { done: seq![], cur: None, cmd: None }
}

/// The state after reading the given lines in order.
pub open spec fn run(ls: Seq<Seq<char>>) -> HistState
    decreases ls.len(),
{
    if ls.len() == 0 {
        initial()
    } else {
        step(run(ls.drop_last()), ls.last())
    }
}

/// Every transaction read, the one left open at the end included.
pub open spec fn all_read(s: HistState) -> Seq<TxView> {
    match s.cur {
        Some(t) => s.done.push(t),
        None => s.done,
    }
}

/// Most recent first, without the transactions that hold no operation (a
/// bare `-Sy`, or a transaction cancelled before writing anything).
pub open spec fn newest_first(all: Seq<TxView>) -> Seq<TxView>
    decreases all.len(),
{
    if all.len() == 0 {
        seq![]
    } else {
        (if all.last().operations.len() > 0 {
            seq![all.last()]
        } else {
            seq![]
        }) + newest_first(all.drop_last())
    }
}

/// The transactions a log holds, most recent first.
pub open spec fn history_of(text: Seq<char>) -> Seq<TxView> {
    newest_first(all_read(run(lines(text))))
}

pub open spec fn cur_view(c: Option<Transaction>) -> Option<TxView> {
    match c {
        Some(t) => Some(t@),
        None => None,
    }
}

pub open spec fn state_of(done: Seq<Transaction>, cur: Option<Transaction>, cmd: Option<String>) -> HistState {
    HistState { done: txs(done), cur: cur_view(cur), cmd: opt(cmd) }
}

pub open spec fn instant_ok(c: Option<Transaction>) -> bool {
    c matches Some(t) ==> (t.instant matches Some(v) ==> -1_000_000_000_000 <= v <= 1_000_000_000_000)
}

fn step_line(
    done: Vec<Transaction>,
    cur: Option<Transaction>,
    cmd: Option<String>,
    line: &[char],
) -> (r: (Vec<Transaction>, Option<Transaction>, Option<String>))
    requires
        instant_ok(cur),
    ensures
        state_of(r.0@, r.1, r.2) == step(state_of(done@, cur, cmd), line@),
        instant_ok(r.1),
{
    let ghost s = state_of(done@, cur, cmd);
    let (ts, rest) = match bracketed(line) {
        Some(p) => p,
        None => return (done, cur, cmd),
    };
    let (tag, contents) = match bracketed(rest.as_slice()) {
        Some(p) => p,
        None => return (done, cur, cmd),
    };
    if eq_lit(tag.as_slice(), "PACMAN") {
        match without_prefix(contents.as_slice(), "Running ") {
            Some(c) => {
                let a = trimmed_start_matches(c.as_slice(), "'");
                let b = trimmed_end_matches(a.as_slice(), "'");
                return (done, cur, Some(string_of(b.as_slice())));
            },
            None => return (done, cur, cmd),
        }
    }
    if !eq_lit(tag.as_slice(), "ALPM") {
        return (done, cur, cmd);
    }
    if eq_lit(contents.as_slice(), "transaction started") {
        let mut done = done;
        match cur {
            Some(t) => {
                let ghost before = txs(done@);
                done.push(t);
                assert(txs(done@) =~= before.push(t@));
            },
            None => {},
        }
        let stamp = string_of(ts.as_slice());
        let instant = epoch(stamp.as_str());
        proof {
            vstd::utf8::encode_utf8_valid_utf8(ts@);
        }
        let t = Transaction {
            timestamp: stamp,
            instant,
            command: cmd,
            operations: Vec::new(),
            warnings: Vec::new(),
            duration: None,
            completed: false,
        };
        assert(t@.operations =~= seq![]);
        assert(t@.warnings =~= seq![]);
        return (done, Some(t), None);
    }
    let mut t = match cur {
        Some(t) => t,
        None => return (done, None, cmd),
    };
    if eq_lit(contents.as_slice(), "transaction completed") {
        t.completed = true;
        let stamp = string_of(ts.as_slice());
        let end = epoch(stamp.as_str());
        t.duration = match (t.instant, end) {
            (Some(a), Some(b)) => Some(b - a),
            _ => None,
        };
        let mut done = done;
        let ghost before = txs(done@);
        let ghost tv = t@;
        done.push(t);
        assert(txs(done@) =~= before.push(tv));
        return (done, None, cmd);
    }
    match without_prefix(contents.as_slice(), "warning: ") {
        Some(w) => {
            let ghost before = strs(t.warnings@);
            t.warnings.push(string_of(w.as_slice()));
            assert(strs(t.warnings@) =~= before.push(w@));
            return (done, Some(t), cmd);
        },
        None => {},
    }
    match operation(contents.as_slice()) {
        Some(op) => {
            let ghost before = ops(t.operations@);
            let ghost ov = op@;
            t.operations.push(op);
            assert(ops(t.operations@) =~= before.push(ov));
            (done, Some(t), cmd)
        },
        None => (done, Some(t), cmd),
    }
}

/// Extracts the transactions of pacman's log, most recent first.
pub fn analyze(text: &str) -> (r: Vec<Transaction>)
    ensures
        txs(r@) == history_of(text@),
{
    let ls = str_lines(text);
    let mut done: Vec<Transaction> = Vec::new();
    let mut cur: Option<Transaction> = None;
    let mut cmd: Option<String> = None;
    let mut i: usize = 0;
    assert(views(ls@).take(0) =~= seq![]);
    assert(txs(done@) =~= seq![]);
    while i < ls.len()
        invariant
            i <= ls.len(),
            views(ls@) == lines(text@),
            instant_ok(cur),
            state_of(done@, cur, cmd) == run(views(ls@).take(i as int)),
        decreases ls.len() - i,
    {
        assert(views(ls@).take(i + 1).drop_last() =~= views(ls@).take(i as int));
        assert(views(ls@).take(i + 1).last() == ls@[i as int]@);
        let r = step_line(done, cur, cmd, ls[i].as_slice());
        done = r.0;
        cur = r.1;
        cmd = r.2;
        i = i + 1;
    }
    assert(views(ls@).take(ls.len() as int) =~= views(ls@));
    let mut all = done;
    match cur {
        Some(t) => {
            let ghost before = txs(all@);
            let ghost tv = t@;
            all.push(t);
            assert(txs(all@) =~= before.push(tv));
        },
        None => {},
    }
    let mut out: Vec<Transaction> = Vec::new();
    let ghost whole = txs(all@);
    assert(txs(out@) + newest_first(txs(all@)) =~= newest_first(whole));
    while all.len() > 0
        invariant
            txs(out@) + newest_first(txs(all@)) == newest_first(whole),
        decreases all.len(),
    {
        let ghost before_all = txs(all@);
        let t = all.pop().unwrap();
        assert(txs(all@) =~= before_all.drop_last());
        assert(before_all.last() == t@);
        if t.operations.len() > 0 {
            let ghost before = txs(out@);
            let ghost tv = t@;
            out.push(t);
            assert(txs(out@) =~= before.push(tv));
            assert(txs(out@) + newest_first(txs(all@)) =~= before + (seq![tv] + newest_first(
                txs(all@),
            )));
        } else {
            assert(txs(out@) + newest_first(txs(all@)) =~= txs(out@) + (seq![] + newest_first(
                txs(all@),
            )));
        }
    }
    assert(txs(out@) + seq![] =~= txs(out@));
    out
}

// ---------------------------------------------------------------------------
// What a transaction says
// ---------------------------------------------------------------------------

/// pacman options whose value follows, and must therefore not be taken for a
/// target: `--ignore firefox` leaves firefox out, it is not what is installed.
pub const OPTIONS_WITH_VALUE: [&'static str; 14] = [
    "--ignore",
    "--ignoregroup",
    "--assume-installed",
    "--overwrite",
    "--dbpath",
    "--root",
    "--sysroot",
    "--cachedir",
    "--config",
    "--logfile",
    "--gpgdir",
    "--hookdir",
    "--arch",
    "--print-format",
];

pub open spec fn takes_value(w: Seq<char>) -> bool {
    exists|i: int| 0 <= i < OPTIONS_WITH_VALUE@.len() && OPTIONS_WITH_VALUE@[i]@ == w
}

fn takes_value_exec(w: &[char]) -> (r: bool)
    ensures
        r == takes_value(w@),
{
    let mut i: usize = 0;
    while i < OPTIONS_WITH_VALUE.len()
        invariant
            i <= OPTIONS_WITH_VALUE@.len(),
            forall|j: int| 0 <= j < i ==> OPTIONS_WITH_VALUE@[j]@ != w@,
        decreases OPTIONS_WITH_VALUE@.len() - i,
    {
        if eq_lit(w, OPTIONS_WITH_VALUE[i]) {
            return true;
        }
        i = i + 1;
    }
    false
}

/// The targets of a command line, given its words after the program name:
/// neither the options nor the value that follows an option taking one, nor
/// an absolute path that is not a package (the value of an option not listed
/// here); a package file counts by its package name.
pub open spec fn targets_from(ws: Seq<Seq<char>>, skip: bool) -> Seq<Seq<char>>
    decreases ws.len(),
{
    if ws.len() == 0 {
        seq![]
    } else {
        let w = ws[0];
        let rest = ws.drop_first();
        if skip {
            targets_from(rest, false)
        } else if takes_value(w) {
            targets_from(rest, true)
        } else if starts_with(w, "-"@) || w == "--"@ {
            targets_from(rest, false)
        } else if starts_with(w, "/"@) && !contains(w, ".pkg.tar"@) {
            targets_from(rest, false)
        } else {
            seq![package_from_path_spec(w)] + targets_from(rest, false)
        }
    }
}

/// The words after the first one (the program), none when there is none.
pub open spec fn after_first(ws: Seq<Seq<char>>) -> Seq<Seq<char>> {
    if ws.len() == 0 {
        ws
    } else {
        ws.skip(1)
    }
}

/// The words that are options.
pub open spec fn flags_of(ws: Seq<Seq<char>>) -> Seq<Seq<char>>
    decreases ws.len(),
{
    if ws.len() == 0 {
        seq![]
    } else if starts_with(ws.last(), "-"@) {
        flags_of(ws.drop_last()).push(ws.last())
    } else {
        flags_of(ws.drop_last())
    }
}

/// A short option cluster (`-Syu`) holds the letter `c`.
pub open spec fn short_has(ws: Seq<Seq<char>>, c: char) -> bool {
    exists|i: int|
        0 <= i < ws.len() && starts_with(ws[i], "-"@) && !starts_with(ws[i], "--"@) && #[trigger] ws[i].contains(c)
}

/// What triggered a transaction, described plainly from its command line.
pub open spec fn trigger_text(l: Lang, command: Option<Seq<char>>) -> Seq<char> {
    match command {
        None => translate(l, "unknown origin"@),
        Some(cmd) => {
            let ws = words(cmd);
            let targets = targets_from(after_first(ws), false);
            let flags = join(flags_of(ws), " "@);
            let sync = short_has(ws, 'S') || ws.contains("--sync"@);
            let upgrade = short_has(ws, 'u') || ws.contains("--upgrade"@) || ws.contains(
                "--sysupgrade"@,
            );
            let from_file = short_has(ws, 'U') || (ws.contains("--upgrade"@) && !sync);
            let removing = short_has(ws, 'R') || ws.contains("--remove"@);
            if sync && upgrade && targets.len() == 0 {
                translate(l, "system upgrade"@)
            } else if sync && upgrade {
                subst(translate(l, "system upgrade · {0}"@), seq![list_text(targets)])
            } else if from_file {
                subst(translate(l, "install from file · {0}"@), seq![list_text(targets)])
            } else if removing {
                subst(translate(l, "removal · {0}"@), seq![list_text(targets)])
            } else if sync {
                subst(translate(l, "install · {0}"@), seq![list_text(targets)])
            } else if targets.len() > 0 {
                list_text(targets)
            } else if flags.len() == 0 {
                translate(l, "unknown origin"@)
            } else {
                "pacman "@ + flags
            }
        },
    }
}

fn short_has_exec(ws: &[Vec<char>], c: char) -> (r: bool)
    ensures
        r == short_has(views(ws@), c),
{
    let mut i: usize = 0;
    while i < ws.len()
        invariant
            i <= ws.len(),
            forall|j: int|
                0 <= j < i ==> !(starts_with(views(ws@)[j], "-"@) && !starts_with(
                    views(ws@)[j],
                    "--"@,
                ) && #[trigger] views(ws@)[j].contains(c)),
        decreases ws.len() - i,
    {
        let w = ws[i].as_slice();
        assert(views(ws@)[i as int] == w@);
        if begins_str(w, "-") && !begins_str(w, "--") && has_char(w, c) {
            return true;
        }
        i = i + 1;
    }
    false
}

fn has_word(ws: &[Vec<char>], lit: &str) -> (r: bool)
    ensures
        r == views(ws@).contains(lit@),
{
    let mut i: usize = 0;
    while i < ws.len()
        invariant
            i <= ws.len(),
            forall|j: int| 0 <= j < i ==> views(ws@)[j] != lit@,
        decreases ws.len() - i,
    {
        assert(views(ws@)[i as int] == ws@[i as int]@);
        if eq_lit(ws[i].as_slice(), lit) {
            return true;
        }
        i = i + 1;
    }
    false
}

fn fill(l: Lang, key: &str, arg: &[char]) -> (r: Vec<char>)
    ensures
        r@ == subst(translate(l, key@), seq![arg@]),
{
    let a = string_of(arg);
    let args = [a.as_str()];
    let r = tf(l, key, &args);
    assert(args@.map_values(|x: &str| x@) =~= seq![arg@]);
    chars_of(r.as_str())
}

impl Transaction {
    pub fn count(&self, a: Act) -> (r: usize)
        ensures
            r == count_act(ops(self.operations@), a),
    {
        let mut n: usize = 0;
        let mut i: usize = 0;
        while i < self.operations.len()
            invariant
                i <= self.operations.len(),
                n == count_act(ops(self.operations@).take(i as int), a),
                n <= i,
            decreases self.operations.len() - i,
        {
            assert(ops(self.operations@).take(i + 1).drop_last() =~= ops(self.operations@).take(
                i as int,
            ));
            if self.operations[i].act == a {
                n = n + 1;
            }
            i = i + 1;
        }
        assert(ops(self.operations@).take(i as int) =~= ops(self.operations@));
        n
    }

    /// What triggered the transaction, described plainly.
    ///
    /// Copying the command line out does not inform: it is often unreadable
    /// (thirty `--ignore` flags) or full of absolute paths when paru installs
    /// what it has just built. The intent is extracted instead.
    #[verifier::spinoff_prover]
    #[verifier::rlimit(40)]
    pub fn trigger(&self, l: Lang) -> (r: String)
        ensures
            r@ == trigger_text(l, opt(self.command)),
    {
        let cmd = match &self.command {
            Some(c) => chars_of(c.as_str()),
            None => return t(l, "unknown origin"),
        };
        let ws = split_ws(cmd.as_slice());
        let ghost w = views(ws@);
        // The targets: neither the options, nor the value following `--ignore`.
        let mut targets: Vec<Vec<char>> = Vec::new();
        let mut skip = false;
        let mut i: usize = if ws.len() > 0 {
            1
        } else {
            0
        };
        assert(w.skip(i as int) =~= after_first(w));
        assert(views(targets@) + targets_from(w.skip(i as int), false) =~= targets_from(
            after_first(w),
            false,
        ));
        while i < ws.len()
            invariant
                w == views(ws@),
                i <= ws.len(),
                views(targets@) + targets_from(w.skip(i as int), skip) == targets_from(
                    after_first(w),
                    false,
                ),
            decreases ws.len() - i,
        {
            let m = ws[i].as_slice();
            let ghost rest = w.skip(i as int);
            assert(rest[0] == m@);
            assert(rest.drop_first() =~= w.skip(i + 1));
            if skip {
                skip = false;
            } else if takes_value_exec(m) {
                skip = true;
            } else if begins_str(m, "-") || eq_lit(m, "--") {
            } else if begins_str(m, "/") && !has_str(m, ".pkg.tar") {
            } else {
                let p = package_from_path(m);
                let ghost before = views(targets@);
                targets.push(p);
                assert(views(targets@) =~= before.push(p@));
                assert(before.push(p@) + targets_from(w.skip(i + 1), false) =~= before + (seq![
                    p@,
                ] + targets_from(w.skip(i + 1), false)));
            }
            i = i + 1;
        }
        assert(w.skip(i as int) =~= seq![]);
        assert(views(targets@) + seq![] =~= views(targets@));
        let ghost tg = views(targets@);
        // The options, for the plain fallback.
        let mut flags: Vec<Vec<char>> = Vec::new();
        let mut k: usize = 0;
        while k < ws.len()
            invariant
                w == views(ws@),
                k <= ws.len(),
                views(flags@) == flags_of(w.take(k as int)),
            decreases ws.len() - k,
        {
            assert(w.take(k + 1).drop_last() =~= w.take(k as int));
            assert(w.take(k + 1).last() == ws@[k as int]@);
            if begins_str(ws[k].as_slice(), "-") {
                let c = slice(ws[k].as_slice(), 0, ws[k].len());
                assert(c@ =~= ws@[k as int]@);
                let ghost before = views(flags@);
                flags.push(c);
                assert(views(flags@) =~= before.push(c@));
            }
            k = k + 1;
        }
        assert(w.take(ws.len() as int) =~= w);
        let flags = join_str(flags.as_slice(), " ");
        let sync = short_has_exec(ws.as_slice(), 'S') || has_word(ws.as_slice(), "--sync");
        let upgrade = short_has_exec(ws.as_slice(), 'u') || has_word(ws.as_slice(), "--upgrade")
            || has_word(ws.as_slice(), "--sysupgrade");
        let from_file = short_has_exec(ws.as_slice(), 'U') || (has_word(
            ws.as_slice(),
            "--upgrade",
        ) && !sync);
        let removing = short_has_exec(ws.as_slice(), 'R') || has_word(ws.as_slice(), "--remove");
        let what = if sync && upgrade && targets.len() == 0 {
            chars_of(t(l, "system upgrade").as_str())
        } else if sync && upgrade {
            fill(l, "system upgrade · {0}", list(targets.as_slice()).as_slice())
        } else if from_file {
            fill(l, "install from file · {0}", list(targets.as_slice()).as_slice())
        } else if removing {
            fill(l, "removal · {0}", list(targets.as_slice()).as_slice())
        } else if sync {
            fill(l, "install · {0}", list(targets.as_slice()).as_slice())
        } else if targets.len() > 0 {
            list(targets.as_slice())
        } else if flags.len() == 0 {
            chars_of(t(l, "unknown origin").as_str())
        } else {
            concat(chars_of("pacman ").as_slice(), flags.as_slice())
        };
        string_of(what.as_slice())
    }

    /// True when the transaction mentions the searched text, whatever the
    /// case: in a package name or in the command.
    pub open spec fn matches_spec(self, filter: Seq<char>) -> bool {
        let f = lowercase(filter);
        (exists|i: int|
            0 <= i < self.operations@.len() && contains(
                lowercase(#[trigger] self.operations@[i].name@),
                f,
            )) || match self.command {
            Some(c) => contains(lowercase(c@), f),
            None => false,
        }
    }

    pub fn matches_text(&self, filter: &str) -> (r: bool)
        ensures
            r == self.matches_spec(filter@),
    {
        let f = lowered(&chars_of(filter));
        let mut i: usize = 0;
        while i < self.operations.len()
            invariant
                i <= self.operations.len(),
                f@ == lowercase(filter@),
                forall|j: int|
                    0 <= j < i ==> !contains(lowercase(#[trigger] self.operations@[j].name@), f@),
            decreases self.operations.len() - i,
        {
            let n = lowered(&chars_of(self.operations[i].name.as_str()));
            if has(n.as_slice(), f.as_slice()) {
                return true;
            }
            i = i + 1;
        }
        match &self.command {
            Some(c) => {
                let lc = lowered(&chars_of(c.as_str()));
                has(lc.as_slice(), f.as_slice())
            },
            None => false,
        }
    }

    /// One-line summary: what the transaction changed, in numbers.
    pub fn summary(&self, l: Lang) -> (r: String)
        ensures
            r@ == summary_text(l, ops(self.operations@)),
    {
        let mut parts: Vec<Vec<char>> = Vec::new();
        let ghost o = ops(self.operations@);
        let acts = [Act::Upgraded, Act::Installed, Act::Removed, Act::Downgraded, Act::Reinstalled];
        let mut k: usize = 0;
        assert(views(parts@) =~= seq![]);
        while k < 5
            invariant
                k <= 5,
                o == ops(self.operations@),
                acts@ == seq![Act::Upgraded, Act::Installed, Act::Removed, Act::Downgraded, Act::Reinstalled],
                views(parts@) == parts_upto(l, o, k as int),
            decreases 5 - k,
        {
            let act = acts[k];
            assert(act == summary_act(k as int));
            let n = self.count(act);
            if n > 0 {
                let mut p = fmt_usize(n);
                p.push(' ');
                let label = act.label_n(l, n);
                append(&mut p, chars_of(label.as_str()).as_slice());
                assert(p@ =~= dec(n as nat) + seq![' '] + act.label_n_text(l, n as nat));
                let ghost before = views(parts@);
                parts.push(p);
                assert(views(parts@) =~= before.push(p@));
                assert(parts_upto(l, o, k + 1) == parts_upto(l, o, k as int).push(p@));
            } else {
                assert(parts_upto(l, o, k + 1) == parts_upto(l, o, k as int));
            }
            k = k + 1;
        }
        if parts.len() == 0 {
            t(l, "no change")
        } else {
            string_of(join_str(parts.as_slice(), " · ").as_slice())
        }
    }
}

/// The act counted at step `k` of a summary.
pub open spec fn summary_act(k: int) -> Act {
    if k == 0 {
        Act::Upgraded
    } else if k == 1 {
        Act::Installed
    } else if k == 2 {
        Act::Removed
    } else if k == 3 {
        Act::Downgraded
    } else {
        Act::Reinstalled
    }
}

/// `"3 upgraded"` for every kind present among the first `k` of the summary
/// order (upgrades, installs, removals, downgrades, reinstalls).
pub open spec fn parts_upto(l: Lang, o: Seq<OpView>, k: int) -> Seq<Seq<char>>
    decreases k,
{
    if k <= 0 {
        seq![]
    } else {
        let a = summary_act(k - 1);
        let n = count_act(o, a);
        if n > 0 {
            parts_upto(l, o, k - 1).push(dec(n) + seq![' '] + a.label_n_text(l, n))
        } else {
            parts_upto(l, o, k - 1)
        }
    }
}

/// `"3 upgraded · 1 installed"`, or "no change".
pub open spec fn summary_text(l: Lang, o: Seq<OpView>) -> Seq<char> {
    let parts = parts_upto(l, o, 5);
    if parts.len() == 0 {
        translate(l, "no change"@)
    } else {
        join(parts, " · "@)
    }
}

// ---------------------------------------------------------------------------
// Rollback
// ---------------------------------------------------------------------------

#[derive(Debug, Clone)]
pub enum Source {
    /// The package file of the version to restore, found in a local cache.
    File(String),
    /// Nothing to reinstall: removing what was added is enough.
    Remove,
    /// Version not found: this part of the rollback cannot happen.
    Missing,
}

pub enum SourceView {
    File(Seq<char>),
    Remove,
    Missing,
}

impl View for Source {
    type V = SourceView;

    open spec fn view(&self) -> SourceView {
        match self {
            Source::File(p) => SourceView::File(p@),
            Source::Remove => SourceView::Remove,
            Source::Missing => SourceView::Missing,
        }
    }
}

#[derive(Debug, Clone)]
pub struct Rollback {
    pub name: String,
    /// Version currently installed, according to the transaction.
    pub current: Option<String>,
    /// Version the rollback would restore.
    pub target: Option<String>,
    pub source: Source,
}

pub struct RbView {
    pub name: Seq<char>,
    pub current: Option<Seq<char>>,
    pub target: Option<Seq<char>>,
    pub source: SourceView,
}

impl View for Rollback {
    type V = RbView;

    open spec fn view(&self) -> RbView {
        RbView {
            name: self.name@,
            current: opt(self.current),
            target: opt(self.target),
            source: self.source@,
        }
    }
}

pub open spec fn rbs(v: Seq<Rollback>) -> Seq<RbView> {
    v.map_values(|r: Rollback| r@)
}

impl Rollback {
    pub fn is_possible(&self) -> (r: bool)
        ensures
            r == !(self.source@ is Missing),
    {
        match self.source {
            Source::Missing => false,
            _ => true,
        }
    }
}

/// Index of the package versions present in the local caches: version key
/// (`name-version`) → path of the file. Built once, not on every frame.
///
/// Two locations feed it, in order: pacman's cache, then paru's clones. The
/// first file found for a key wins, so a repository package wins over a
/// locally built namesake — that is the one pacman would reinstall.
#[derive(Debug, Clone)]
pub struct Caches {
    versions: Vec<(String, String)>,
}

pub open spec fn entry_views(v: Seq<(String, String)>) -> Seq<(Seq<char>, Seq<char>)> {
    v.map_values(|e: (String, String)| (e.0@, e.1@))
}

/// The file recorded for `key`, the last entry carrying it.
pub open spec fn lookup(e: Seq<(Seq<char>, Seq<char>)>, key: Seq<char>) -> Option<Seq<char>>
    decreases e.len(),
{
    if e.len() == 0 {
        None
    } else if e.last().0 == key {
        Some(e.last().1)
    } else {
        lookup(e.drop_last(), key)
    }
}

/// A file the index takes: a package, not its signature.
pub open spec fn indexable(file_name: Seq<char>) -> bool {
    !ends_with(file_name, ".sig"@) && contains(file_name, ".pkg.tar"@)
}

impl Caches {
    pub closed spec fn entries(self) -> Seq<(Seq<char>, Seq<char>)> {
        entry_views(self.versions@)
    }

    /// No key is recorded twice.
    pub closed spec fn wf(self) -> bool {
        forall|i: int, j: int|
            0 <= i < j < self.versions@.len() ==> self.versions@[i].0@ != self.versions@[j].0@
    }

    /// The file recorded for a version key.
    pub open spec fn file_for(self, key: Seq<char>) -> Option<Seq<char>> {
        lookup(self.entries(), key)
    }

    /// An empty index: nothing is recoverable.
    pub fn new() -> (r: Caches)
        ensures
            r.wf(),
            forall|k: Seq<char>| r.file_for(k) is None,
    {
        let r = Caches { versions: Vec::new() };
        assert(r.entries() =~= seq![]);
        r
    }

    /// Records one file found in a cache directory, unless it is not a
    /// package file or its version is already known.
    pub fn add(&mut self, file_name: &str, path: &str)
        requires
            old(self).wf(),
        ensures
            final(self).wf(),
            forall|k: Seq<char>|
                #![trigger final(self).file_for(k)]
                final(self).file_for(k) == (if indexable(file_name@) && version_key_spec(file_name@)
                    == Some(k) && old(self).file_for(k) is None {
                    Some(path@)
                } else {
                    old(self).file_for(k)
                }),
    {
        let name = chars_of(file_name);
        if crate::text::finishes_str(name.as_slice(), ".sig") || !has_str(name.as_slice(), ".pkg.tar") {
            return;
        }
        let key = match version_key_chars(name.as_slice()) {
            Some(k) => k,
            None => return,
        };
        let mut i: usize = 0;
        while i < self.versions.len()
            invariant
                i <= self.versions.len(),
                self.versions@ == old(self).versions@,
                old(self).wf(),
                indexable(file_name@),
                version_key_spec(file_name@) == Some(key@),
                forall|j: int| 0 <= j < i ==> self.versions@[j].0@ != key@,
            decreases self.versions.len() - i,
        {
            if eq_lit(key.as_slice(), self.versions[i].0.as_str()) {
                proof {
                    assert(self.entries()[i as int].0 == key@);
                    lemma_lookup_found(self.entries(), key@, i as int);
                    assert(self.entries() =~= old(self).entries());
                    assert(old(self).file_for(key@) is Some);
                    assert forall|k2: Seq<char>|
                        #![trigger self.file_for(k2)]
                        self.file_for(k2) == (if indexable(file_name@) && version_key_spec(
                            file_name@,
                        ) == Some(k2) && old(self).file_for(k2) is None {
                            Some(path@)
                        } else {
                            old(self).file_for(k2)
                        }) by {
                        if version_key_spec(file_name@) == Some(k2) {
                            assert(k2 == key@);
                        }
                    }
                }
                return;
            }
            i = i + 1;
        }
        proof {
            lemma_lookup_absent(self.entries(), key@);
        }
        let ghost before = self.entries();
        let k = string_of(key.as_slice());
        self.versions.push((k, owned(path)));
        assert(self.entries() =~= before.push((key@, path@)));
        assert forall|k2: Seq<char>| #[trigger] self.file_for(k2) == (if k2 == key@ {
            Some(path@)
        } else {
            old(self).file_for(k2)
        }) by {
            assert(self.entries().drop_last() =~= before);
        }
    }

    /// The cached file of a given version of a package.
    pub fn find(&self, name: &str, version: &str) -> (r: Option<String>)
        ensures
            opt(r) == self.file_for(name@ + seq!['-'] + version@),
    {
        let mut key = chars_of(name);
        key.push('-');
        append(&mut key, chars_of(version).as_slice());
        assert(key@ =~= name@ + seq!['-'] + version@);
        let ghost k = key@;
        let mut i: usize = self.versions.len();
        assert(self.entries().take(i as int) =~= self.entries());
        while i > 0
            invariant
                i <= self.versions.len(),
                k == key@,
                k == name@ + seq!['-'] + version@,
                lookup(self.entries(), k) == lookup(self.entries().take(i as int), k),
            decreases i,
        {
            let ghost e = self.entries().take(i as int);
            assert(e.last() == (self.versions@[i - 1].0@, self.versions@[i - 1].1@));
            assert(e.drop_last() =~= self.entries().take(i - 1));
            if eq_lit(key.as_slice(), self.versions[i - 1].0.as_str()) {
                assert(lookup(e, k) == Some(e.last().1));
                return Some(owned(self.versions[i - 1].1.as_str()));
            }
            i = i - 1;
        }
        None
    }
}

impl Default for Caches {
    /// An empty index.
    fn default() -> (r: Caches)
        ensures
            r.wf(),
            forall|k: Seq<char>| r.file_for(k) is None,
    {
        Caches::new()
    }
}

proof fn lemma_lookup_found(e: Seq<(Seq<char>, Seq<char>)>, key: Seq<char>, i: int)
    requires
        0 <= i < e.len(),
        e[i].0 == key,
    ensures
        lookup(e, key) is Some,
    decreases e.len(),
{
    if e.last().0 != key {
        assert(e.drop_last()[i] == e[i]);
        lemma_lookup_found(e.drop_last(), key, i);
    }
}

proof fn lemma_lookup_absent(e: Seq<(Seq<char>, Seq<char>)>, key: Seq<char>)
    requires
        forall|j: int| 0 <= j < e.len() ==> e[j].0 != key,
    ensures
        lookup(e, key) is None,
    decreases e.len(),
{
    if e.len() > 0 {
        assert(e.last() == e[e.len() - 1]);
        assert forall|j: int| 0 <= j < e.drop_last().len() implies e.drop_last()[j].0 != key by {
            assert(e.drop_last()[j] == e[j]);
        }
        lemma_lookup_absent(e.drop_last(), key);
    }
}

/// The inverse of one operation, when it has one: what was installed is
/// removed, what was upgraded, downgraded or removed comes back at its earlier
/// version if a cache still holds it. A reinstall has no inverse.
pub open spec fn inverse(c: Caches, op: OpView) -> Option<RbView> {
    match op.act {
        Act::Installed => Some(
            RbView { name: op.name, current: op.after, target: None, source: SourceView::Remove },
        ),
        Act::Reinstalled => None,
        _ => Some(
            RbView {
                name: op.name,
                current: op.after,
                target: op.before,
                source: match op.before {
                    Some(v) => match c.file_for(op.name + seq!['-'] + v) {
                        Some(p) => SourceView::File(p),
                        None => SourceView::Missing,
                    },
                    None => SourceView::Missing,
                },
            },
        ),
    }
}

/// The inverse of each operation of a transaction, in order.
pub open spec fn inverse_all(c: Caches, o: Seq<OpView>) -> Seq<RbView>
    decreases o.len(),
{
    if o.len() == 0 {
        seq![]
    } else {
        match inverse(c, o.last()) {
            Some(r) => inverse_all(c, o.drop_last()).push(r),
            None => inverse_all(c, o.drop_last()),
        }
    }
}

/// How a rollback of a transaction would go, said before the list of its
/// operations: on a large upgrade what matters is whether it is possible at
/// all, not the last line of the list.
#[derive(Debug, Clone, Copy, PartialEq, Eq, Structural)]
pub enum Outlook {
    /// The transaction only reinstalled: there is nothing to undo.
    NothingToUndo,
    /// None of the versions involved is still in a cache.
    Impossible,
    /// Every part of the rollback can happen.
    Complete,
    /// Some versions are gone from the caches; those packages stay as they are.
    Partial,
}

pub struct Verdict {
    pub outlook: Outlook,
    /// The sentence shown to the user.
    pub text: String,
}

pub struct VerdictView {
    pub outlook: Outlook,
    pub text: Seq<char>,
}

impl View for Verdict {
    type V = VerdictView;

    open spec fn view(&self) -> VerdictView {
        VerdictView { outlook: self.outlook, text: self.text@ }
    }
}

/// The packages whose version to restore is in no cache, in order.
pub open spec fn missing_names(v: Seq<RbView>) -> Seq<Seq<char>>
    decreases v.len(),
{
    if v.len() == 0 {
        seq![]
    } else {
        let rest = missing_names(v.drop_last());
        if v.last().source is Missing {
            rest.push(v.last().name)
        } else {
            rest
        }
    }
}

pub proof fn lemma_missing_bounded(v: Seq<RbView>)
    ensures
        missing_names(v).len() <= v.len(),
    decreases v.len(),
{
    if v.len() > 0 {
        lemma_missing_bounded(v.drop_last());
    }
}

/// The verdict on a rollback, from its parts.
pub open spec fn verdict_spec(l: Lang, v: Seq<RbView>) -> VerdictView {
    let missing = missing_names(v).len();
    let restorable = v.len() - missing;
    if v.len() == 0 {
        VerdictView {
            outlook: Outlook::NothingToUndo,
            text: translate(l, "Nothing to undo: this transaction only reinstalled."@),
        }
    } else if restorable <= 0 {
        VerdictView {
            outlook: Outlook::Impossible,
            text: translate(l, "Impossible: none of the versions involved is still in cache."@),
        }
    } else if missing == 0 {
        VerdictView {
            outlook: Outlook::Complete,
            text: subst(
                translate(l, "{0} package(s) restorable — a complete rollback is possible."@),
                seq![dec(restorable as nat)],
            ),
        }
    } else {
        VerdictView {
            outlook: Outlook::Partial,
            text: subst(
                translate(l, "{0} restorable of {1} — {2} out of cache, left as they are."@),
                seq![dec(restorable as nat), dec(v.len()), dec(missing)],
            ),
        }
    }
}

/// Names of the packages a rollback would leave as they are, for want of a
/// cached version: each is marked in place in the list of operations.
pub fn out_of_cache(rollbacks: &[Rollback]) -> (r: Vec<String>)
    ensures
        strs(r@) == missing_names(rbs(rollbacks@)),
{
    let mut out: Vec<String> = Vec::new();
    let mut i: usize = 0;
    assert(strs(out@) =~= seq![]);
    while i < rollbacks.len()
        invariant
            i <= rollbacks.len(),
            strs(out@) == missing_names(rbs(rollbacks@.take(i as int))),
        decreases rollbacks.len() - i,
    {
        assert(rbs(rollbacks@.take(i + 1)).drop_last() =~= rbs(rollbacks@.take(i as int)));
        if !rollbacks[i].is_possible() {
            let ghost before = strs(out@);
            out.push(rollbacks[i].name.clone());
            assert(strs(out@) =~= before.push(rollbacks@[i as int].name@));
        }
        i = i + 1;
    }
    assert(rollbacks@.take(rollbacks.len() as int) =~= rollbacks@);
    out
}

/// The verdict on rolling a transaction back, given its inverse.
pub fn rollback_verdict(l: Lang, rollbacks: &[Rollback]) -> (r: Verdict)
    ensures
        r@ == verdict_spec(l, rbs(rollbacks@)),
{
    let missing = out_of_cache(rollbacks).len();
    proof {
        lemma_missing_bounded(rbs(rollbacks@));
    }
    let restorable = rollbacks.len() - missing;
    if rollbacks.len() == 0 {
        Verdict {
            outlook: Outlook::NothingToUndo,
            text: t(l, "Nothing to undo: this transaction only reinstalled."),
        }
    } else if restorable == 0 {
        Verdict {
            outlook: Outlook::Impossible,
            text: t(l, "Impossible: none of the versions involved is still in cache."),
        }
    } else if missing == 0 {
        let n = string_of(fmt_usize(restorable).as_slice());
        let args: [&str; 1] = [n.as_str()];
        let text = tf(l, "{0} package(s) restorable — a complete rollback is possible.", &args);
        assert(args@.map_values(|x: &str| x@) =~= seq![dec(restorable as nat)]);
        Verdict { outlook: Outlook::Complete, text }
    } else {
        let a = string_of(fmt_usize(restorable).as_slice());
        let b = string_of(fmt_usize(rollbacks.len()).as_slice());
        let c = string_of(fmt_usize(missing).as_slice());
        let args: [&str; 3] = [a.as_str(), b.as_str(), c.as_str()];
        let text = tf(l, "{0} restorable of {1} — {2} out of cache, left as they are.", &args);
        assert(args@.map_values(|x: &str| x@) =~= seq![
            dec(restorable as nat),
            dec(rollbacks.len() as nat),
            dec(missing as nat),
        ]);
        Verdict { outlook: Outlook::Partial, text }
    }
}

/// How long a transaction took, in words a reader takes in at a glance.
pub open spec fn duration_spec(l: Lang, d: int) -> Seq<char> {
    if d < 1 {
        translate(l, "less than a second"@)
    } else if d < 60 {
        dec(d as nat) + " s"@
    } else {
        dec((d / 60) as nat) + " min "@ + dec((d % 60) as nat) + " s"@
    }
}

pub fn duration_text(l: Lang, d: i64) -> (r: String)
    ensures
        r@ == duration_spec(l, d as int),
{
    if d < 1 {
        t(l, "less than a second")
    } else if d < 60 {
        let mut v = crate::text::fmt_u64(d as u64);
        append(&mut v, chars_of(" s").as_slice());
        string_of(v.as_slice())
    } else {
        let mut v = crate::text::fmt_u64((d / 60) as u64);
        append(&mut v, chars_of(" min ").as_slice());
        append(&mut v, crate::text::fmt_u64((d % 60) as u64).as_slice());
        append(&mut v, chars_of(" s").as_slice());
        string_of(v.as_slice())
    }
}

/// Inverse of a past transaction.
pub fn rollback_plan(caches: &Caches, t: &Transaction) -> (r: Vec<Rollback>)
    ensures
        rbs(r@) == inverse_all(*caches, ops(t.operations@)),
{
    let mut out: Vec<Rollback> = Vec::new();
    let mut i: usize = 0;
    assert(rbs(out@) =~= seq![]);
    while i < t.operations.len()
        invariant
            i <= t.operations.len(),
            rbs(out@) == inverse_all(*caches, ops(t.operations@).take(i as int)),
        decreases t.operations.len() - i,
    {
        let op = &t.operations[i];
        assert(ops(t.operations@).take(i + 1).drop_last() =~= ops(t.operations@).take(i as int));
        assert(ops(t.operations@).take(i + 1).last() == op@);
        let rollback = match op.act {
            Act::Installed => Some(
                Rollback {
                    name: owned(op.name.as_str()),
                    current: copy_opt(&op.after),
                    target: None,
                    source: Source::Remove,
                },
            ),
            Act::Reinstalled => None,
            _ => {
                let target = copy_opt(&op.before);
                let source = match &op.before {
                    Some(v) => match caches.find(op.name.as_str(), v.as_str()) {
                        Some(p) => Source::File(p),
                        None => Source::Missing,
                    },
                    None => Source::Missing,
                };
                Some(
                    Rollback {
                        name: owned(op.name.as_str()),
                        current: copy_opt(&op.after),
                        target,
                        source,
                    },
                )
            },
        };
        match rollback {
            Some(r) => {
                let ghost before = rbs(out@);
                let ghost rv = r@;
                out.push(r);
                assert(rbs(out@) =~= before.push(rv));
            },
            None => {},
        }
        i = i + 1;
    }
    assert(ops(t.operations@).take(i as int) =~= ops(t.operations@));
    out
}

fn copy_opt(o: &Option<String>) -> (r: Option<String>)
    ensures
        opt(r) == opt(*o),
{
    match o {
        Some(s) => Some(owned(s.as_str())),
        None => None,
    }
}

/// A path as a shell word: quoted when it holds a space.
pub open spec fn quote_spec(path: Seq<char>) -> Seq<char> {
    if path.contains(' ') {
        seq!['\''] + path + seq!['\'']
    } else {
        path
    }
}

pub fn quote(path: &str) -> (r: String)
    ensures
        r@ == quote_spec(path@),
{
    let p = chars_of(path);
    if has_char(p.as_slice(), ' ') {
        let mut v: Vec<char> = Vec::new();
        v.push('\'');
        append(&mut v, p.as_slice());
        v.push('\'');
        assert(v@ =~= seq!['\''] + p@ + seq!['\'']);
        string_of(v.as_slice())
    } else {
        owned(path)
    }
}

/// The cache files a rollback reinstalls, quoted, in order.
pub open spec fn files_of(r: Seq<RbView>) -> Seq<Seq<char>>
    decreases r.len(),
{
    if r.len() == 0 {
        seq![]
    } else {
        match r.last().source {
            SourceView::File(p) => files_of(r.drop_last()).push(quote_spec(p)),
            _ => files_of(r.drop_last()),
        }
    }
}

/// The packages a rollback removes, in order.
pub open spec fn removals_of(r: Seq<RbView>) -> Seq<Seq<char>>
    decreases r.len(),
{
    if r.len() == 0 {
        seq![]
    } else {
        match r.last().source {
            SourceView::Remove => removals_of(r.drop_last()).push(r.last().name),
            _ => removals_of(r.drop_last()),
        }
    }
}

/// What one step of a rollback contributes: the quoted cache file to
/// reinstall, or the package to remove.
pub proof fn law_one_step_contributes_its_own(x: RbView)
    ensures
        files_of(seq![x]) == (match x.source {
            SourceView::File(p) => seq![quote_spec(p)],
            _ => Seq::<Seq<char>>::empty(),
        }),
        removals_of(seq![x]) == (match x.source {
            SourceView::Remove => seq![x.name],
            _ => Seq::<Seq<char>>::empty(),
        }),
{
    let one = seq![x];
    assert(one.drop_last() =~= Seq::<RbView>::empty());
    assert(one.last() == x);
    assert(files_of(Seq::<RbView>::empty()) == Seq::<Seq<char>>::empty());
    assert(removals_of(Seq::<RbView>::empty()) == Seq::<Seq<char>>::empty());
    match x.source {
        SourceView::File(p) => {
            assert(Seq::<Seq<char>>::empty().push(quote_spec(p)) =~= seq![quote_spec(p)]);
        },
        SourceView::Remove => {
            assert(Seq::<Seq<char>>::empty().push(x.name) =~= seq![x.name]);
        },
        _ => {},
    }
}

/// A rollback's files and removals are those of its parts, in order: a
/// rollback split in two reinstalls every file of the first part, then every
/// file of the second, and likewise removes — none dropped, none repeated.
pub proof fn law_files_and_removals_add_up(a: Seq<RbView>, b: Seq<RbView>)
    ensures
        files_of(a + b) == files_of(a) + files_of(b),
        removals_of(a + b) == removals_of(a) + removals_of(b),
    decreases b.len(),
{
    if b.len() == 0 {
        assert(a + b =~= a);
        assert(files_of(a) + files_of(b) =~= files_of(a));
        assert(removals_of(a) + removals_of(b) =~= removals_of(a));
    } else {
        assert((a + b).drop_last() =~= a + b.drop_last());
        assert((a + b).last() == b.last());
        law_files_and_removals_add_up(a, b.drop_last());
        match b.last().source {
            SourceView::File(p) => {
                assert(files_of(a) + files_of(b.drop_last()).push(quote_spec(p)) =~= (files_of(a) + files_of(
                    b.drop_last(),
                )).push(quote_spec(p)));
            },
            SourceView::Remove => {
                assert(removals_of(a) + removals_of(b.drop_last()).push(b.last().name) =~= (removals_of(a)
                    + removals_of(b.drop_last())).push(b.last().name));
            },
            _ => {},
        }
    }
}

/// The steps of a rollback: installation first, then removal, each when
/// there is something to do. Plain `-R`, without `-s`: the transaction already
/// listed the dependencies that arrived with the package, so naming them is
/// the exact inverse.
pub open spec fn steps_of(r: Seq<RbView>) -> Seq<Seq<char>> {
    let files = files_of(r);
    let removals = removals_of(r);
    (if files.len() > 0 {
        seq!["pacman -U --noconfirm "@ + join(files, " "@)]
    } else {
        seq![]
    }) + (if removals.len() > 0 {
        seq!["pacman -R --noconfirm "@ + join(removals, " "@)]
    } else {
        seq![]
    })
}

/// The rollback command. pacman does not mix installation and removal in one
/// invocation: when both are needed they are chained through `sh -c`,
/// installation first — if a removal then became impossible because the
/// restored version still depends on it, pacman refuses instead of breaking
/// the system.
pub open spec fn rollback_command_spec(r: Seq<RbView>) -> Option<Seq<Seq<char>>> {
    let steps = steps_of(r);
    if steps.len() == 0 {
        None
    } else if steps.len() == 1 {
        Some(seq!["sudo"@] + words(steps[0]))
    } else {
        Some(seq!["sudo"@, "sh"@, "-c"@, join(steps, " && "@)])
    }
}

fn files_and_removals(rollbacks: &[Rollback]) -> (r: (Vec<Vec<char>>, Vec<Vec<char>>))
    ensures
        views(r.0@) == files_of(rbs(rollbacks@)),
        views(r.1@) == removals_of(rbs(rollbacks@)),
{
    let mut files: Vec<Vec<char>> = Vec::new();
    let mut removals: Vec<Vec<char>> = Vec::new();
    let mut i: usize = 0;
    assert(views(files@) =~= seq![]);
    assert(views(removals@) =~= seq![]);
    while i < rollbacks.len()
        invariant
            i <= rollbacks.len(),
            views(files@) == files_of(rbs(rollbacks@).take(i as int)),
            views(removals@) == removals_of(rbs(rollbacks@).take(i as int)),
        decreases rollbacks.len() - i,
    {
        let r = &rollbacks[i];
        assert(rbs(rollbacks@).take(i + 1).drop_last() =~= rbs(rollbacks@).take(i as int));
        assert(rbs(rollbacks@).take(i + 1).last() == r@);
        match &r.source {
            Source::File(p) => {
                let q = quote(p.as_str());
                let c = chars_of(q.as_str());
                let ghost before = views(files@);
                files.push(c);
                assert(views(files@) =~= before.push(c@));
            },
            Source::Remove => {
                let c = chars_of(r.name.as_str());
                let ghost before = views(removals@);
                removals.push(c);
                assert(views(removals@) =~= before.push(c@));
            },
            Source::Missing => {},
        }
        i = i + 1;
    }
    assert(rbs(rollbacks@).take(i as int) =~= rbs(rollbacks@));
    (files, removals)
}

pub fn rollback_command(rollbacks: &[Rollback]) -> (r: Option<Vec<String>>)
    ensures
        match r {
            Some(cmd) => rollback_command_spec(rbs(rollbacks@)) == Some(strs(cmd@)),
            None => rollback_command_spec(rbs(rollbacks@)) is None,
        },
{
    let (files, removals) = files_and_removals(rollbacks);
    let mut steps: Vec<Vec<char>> = Vec::new();
    if files.len() > 0 {
        let s = concat(
            chars_of("pacman -U --noconfirm ").as_slice(),
            join_str(files.as_slice(), " ").as_slice(),
        );
        steps.push(s);
    }
    if removals.len() > 0 {
        let s = concat(
            chars_of("pacman -R --noconfirm ").as_slice(),
            join_str(removals.as_slice(), " ").as_slice(),
        );
        let ghost before = views(steps@);
        steps.push(s);
        assert(views(steps@) =~= before.push(s@));
    }
    assert(views(steps@) =~= steps_of(rbs(rollbacks@)));
    if steps.len() == 0 {
        None
    } else if steps.len() == 1 {
        let mut cmd: Vec<String> = Vec::new();
        cmd.push(owned("sudo"));
        let ws = split_ws(steps[0].as_slice());
        let mut i: usize = 0;
        while i < ws.len()
            invariant
                i <= ws.len(),
                strs(cmd@) == seq!["sudo"@] + views(ws@).take(i as int),
            decreases ws.len() - i,
        {
            let ghost before = strs(cmd@);
            let w = string_of(ws[i].as_slice());
            cmd.push(w);
            assert(strs(cmd@) =~= before.push(w@));
            assert(views(ws@).take(i + 1) =~= views(ws@).take(i as int).push(ws@[i as int]@));
            i = i + 1;
        }
        assert(views(ws@).take(ws.len() as int) =~= views(ws@));
        Some(cmd)
    } else {
        let mut cmd: Vec<String> = Vec::new();
        cmd.push(owned("sudo"));
        cmd.push(owned("sh"));
        cmd.push(owned("-c"));
        cmd.push(string_of(join_str(steps.as_slice(), " && ").as_slice()));
        assert(strs(cmd@) =~= seq!["sudo"@, "sh"@, "-c"@, join(views(steps@), " && "@)]);
        Some(cmd)
    }
}

/// Readable form of the rollback command: cache paths are counted, not
/// listed. The real command is still the one that runs.
pub open spec fn readable_spec(l: Lang, r: Seq<RbView>) -> Seq<char> {
    let files = files_of(r).len();
    let removals = removals_of(r);
    join(
        (if files > 0 {
            seq![
                subst(
                    translate(l, "sudo pacman -U ({0} package(s) taken from the local caches)"@),
                    seq![dec(files)],
                ),
            ]
        } else {
            seq![]
        }) + (if removals.len() > 0 {
            seq!["sudo pacman -R "@ + list_text(removals)]
        } else {
            seq![]
        }),
        " && "@,
    )
}

pub fn readable_command(l: Lang, rollbacks: &[Rollback]) -> (r: String)
    ensures
        r@ == readable_spec(l, rbs(rollbacks@)),
{
    let (files, removals) = files_and_removals(rollbacks);
    let mut steps: Vec<Vec<char>> = Vec::new();
    if files.len() > 0 {
        let n = fmt_usize(files.len());
        let s = fill(l, "sudo pacman -U ({0} package(s) taken from the local caches)", n.as_slice());
        steps.push(s);
    }
    if removals.len() > 0 {
        let s = concat(chars_of("sudo pacman -R ").as_slice(), list(removals.as_slice()).as_slice());
        let ghost before = views(steps@);
        steps.push(s);
        assert(views(steps@) =~= before.push(s@));
    }
    let ghost fl = files_of(rbs(rollbacks@)).len();
    assert(views(steps@) =~= (if fl > 0 {
        seq![
            subst(
                translate(l, "sudo pacman -U ({0} package(s) taken from the local caches)"@),
                seq![dec(fl)],
            ),
        ]
    } else {
        seq![]
    }) + (if removals_of(rbs(rollbacks@)).len() > 0 {
        seq!["sudo pacman -R "@ + list_text(removals_of(rbs(rollbacks@)))]
    } else {
        seq![]
    }));
    string_of(join_str(steps.as_slice(), " && ").as_slice())
}


/// Undoing an operation takes the package back to where it was: the
/// rollback starts from the version the operation left and aims at the one
/// before it; an installation is undone by a removal; a reinstall has nothing
/// to undo.
pub proof fn law_rollback_inverts(c: Caches, op: OpView)
    ensures
        (op.act == Act::Reinstalled) <==> inverse(c, op) is None,
        inverse(c, op) matches Some(r) ==> r.name == op.name && r.current == op.after,
        op.act == Act::Installed ==> (inverse(c, op) matches Some(r) && r.target is None && r.source
            == SourceView::Remove),
        op.act != Act::Installed && op.act != Act::Reinstalled ==> (inverse(c, op) matches Some(r)
            && r.target == op.before),
{
}

/// How many operations of a list have something to undo.
pub open spec fn undoable(o: Seq<OpView>) -> nat
    decreases o.len(),
{
    if o.len() == 0 {
        0
    } else {
        undoable(o.drop_last()) + if o.last().act == Act::Reinstalled {
            0nat
        } else {
            1nat
        }
    }
}

/// A rollback has one step per operation that has something to undo, no
/// more, no fewer.
pub proof fn law_one_step_per_operation(c: Caches, o: Seq<OpView>)
    ensures
        inverse_all(c, o).len() == undoable(o),
    decreases o.len(),
{
    if o.len() > 0 {
        law_one_step_per_operation(c, o.drop_last());
    }
}

} // verus!
