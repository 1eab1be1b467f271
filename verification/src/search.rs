//! Finding a package, in the repositories and in the AUR.
//!
//! The repositories are searched through libalpm, the AUR through its RPC
//! endpoint, both on a background thread. This module holds what is decided
//! about the results: how the query is sent, how the two sources are merged,
//! and in which order the results are shown.

use vstd::prelude::*;
use crate::i18n::{Lang, t, translate};
use crate::journal::{clamp_i64, decimal_spec, scaled, decimal_size};
use crate::json::{Leaf, LeafView, leaf_views, cell, cell_at, json_leaf, json_column, leaf_at, column_at, opt_leaf};
use vstd::string::StringSliceAdditionalSpecFns;
use crate::plan::{lex_lt, lemma_lex_irreflexive, lemma_lex_transitive, lemma_lex_total};
use crate::text::{
    chars_of, string_of, owned, seq_eq, str_eq, trim, trimmed, starts_with, contains, begins,
    has, lowercase, lowered, strs, all_digits, value,
};

verus! {

/// One result, whatever it came from.
#[derive(Debug, Clone)]
pub struct Hit {
    pub name: String,
    pub version: String,
    /// A repository name, or `aur`.
    pub repo: String,
    pub description: String,
    /// Version currently installed, when it is.
    pub installed: Option<String>,
    /// AUR only: how many people voted for it.
    pub votes: Option<u32>,
    /// AUR only: how used it is, in thousandths of the AUR's popularity score.
    pub popularity: Option<i64>,
    /// AUR only: flagged out of date by a user, which is a warning worth having.
    pub out_of_date: bool,
    /// AUR only: absent means the package is orphaned — nobody maintains it.
    pub maintainer: Option<String>,
    pub url: Option<String>,
}

pub open spec fn os(o: Option<String>) -> Option<Seq<char>> {
    match o {
        Some(s) => Some(s@),
        None => None,
    }
}

pub struct HitView {
    pub name: Seq<char>,
    pub version: Seq<char>,
    pub repo: Seq<char>,
    pub description: Seq<char>,
    pub installed: Option<Seq<char>>,
    pub votes: Option<u32>,
    pub popularity: Option<i64>,
    pub out_of_date: bool,
    pub maintainer: Option<Seq<char>>,
    pub url: Option<Seq<char>>,
}

impl View for Hit {
    type V = HitView;

    open spec fn view(&self) -> HitView {
        HitView {
            name: self.name@,
            version: self.version@,
            repo: self.repo@,
            description: self.description@,
            installed: os(self.installed),
            votes: self.votes,
            popularity: self.popularity,
            out_of_date: self.out_of_date,
            maintainer: os(self.maintainer),
            url: os(self.url),
        }
    }
}

pub open spec fn hit_views(v: Seq<Hit>) -> Seq<HitView> {
    v.map_values(|h: Hit| h@)
}

impl Hit {
    pub fn is_aur(&self) -> (r: bool)
        ensures
            r == (self.repo@ == "aur"@),
    {
        crate::text::eq_lit(chars_of(self.repo.as_str()).as_slice(), "aur")
    }
}

// ---------------------------------------------------------------------------
// The query
// ---------------------------------------------------------------------------

/// Bytes sent as they are: letters, digits and `-_.~`.
pub open spec fn unreserved(b: u8) -> bool {
    (65 <= b <= 90) || (97 <= b <= 122) || (48 <= b <= 57) || b == 45 || b == 95 || b == 46 || b
        == 126
}

pub open spec fn hex_digit(n: u8) -> char {
    if n < 10 {
        (48 + n) as char
    } else {
        (55 + n) as char
    }
}

pub open spec fn encoded_byte(b: u8) -> Seq<char> {
    if unreserved(b) {
        seq![b as char]
    } else {
        seq!['%', hex_digit(b / 16), hex_digit(b % 16)]
    }
}

/// Percent-encoding of the query's bytes: a search term is whatever someone
/// typed, and a space would cut the URL in half.
pub open spec fn url_encoded(bs: Seq<u8>) -> Seq<char>
    decreases bs.len(),
{
    if bs.len() == 0 {
        seq![]
    } else {
        url_encoded(bs.drop_last()) + encoded_byte(bs.last())
    }
}

fn hex_exec(n: u8) -> (c: char)
    requires
        n < 16,
    ensures
        c == hex_digit(n),
{
    if n < 10 {
        (48 + n) as char
    } else {
        (55 + n) as char
    }
}

pub fn urlencode(s: &str) -> (r: String)
    ensures
        r@ == url_encoded(s.spec_bytes()),
{
    let bytes = s.as_bytes();
    let mut out: Vec<char> = Vec::new();
    let mut i: usize = 0;
    assert(bytes@.take(0) =~= seq![]);
    while i < bytes.len()
        invariant
            i <= bytes.len(),
            bytes@ == s.spec_bytes(),
            out@ == url_encoded(bytes@.take(i as int)),
        decreases bytes.len() - i,
    {
        let b = bytes[i];
        assert(bytes@.take(i + 1).drop_last() =~= bytes@.take(i as int));
        assert(bytes@.take(i + 1).last() == b);
        if (65 <= b && b <= 90) || (97 <= b && b <= 122) || (48 <= b && b <= 57) || b == 45 || b
            == 95 || b == 46 || b == 126 {
            out.push(b as char);
        } else {
            out.push('%');
            out.push(hex_exec(b / 16));
            out.push(hex_exec(b % 16));
        }
        assert(out@ =~= url_encoded(bytes@.take(i + 1)));
        i = i + 1;
    }
    assert(bytes@.take(bytes.len() as int) =~= bytes@);
    string_of(out.as_slice())
}

// ---------------------------------------------------------------------------
// Ordering the results
// ---------------------------------------------------------------------------

/// How closely a name answers the query: the exact name, a prefix, a
/// substring, or a match on the description alone.
pub open spec fn relevance(name: Seq<char>, query: Seq<char>) -> nat {
    let q = lowercase(query);
    let n = lowercase(name);
    if n == q {
        0
    } else if starts_with(n, q) {
        1
    } else if contains(n, q) {
        2
    } else {
        3
    }
}

/// The sort key of a result: what was probably meant first.
///
/// Relevance comes before origin: ranking every repository package above
/// every AUR one buries the AUR package of the very name searched under an
/// unrelated repository one. Within the same relevance, the reviewed source
/// wins, then the AUR's own popularity — the only quality signal it has —
/// then the name.
pub struct RankView {
    pub relevance: nat,
    pub aur: bool,
    pub unpopularity: int,
    pub name: Seq<char>,
}

pub open spec fn rank_spec(h: HitView, query: Seq<char>) -> RankView {
    RankView {
        relevance: relevance(h.name, query),
        aur: h.repo == "aur"@,
        unpopularity: clamp_i64(
            -(match h.popularity {
                Some(p) => p as int,
                None => 0,
            }),
        ),
        name: h.name,
    }
}

pub open spec fn rank_lt(a: RankView, b: RankView) -> bool {
    if a.relevance != b.relevance {
        a.relevance < b.relevance
    } else if a.aur != b.aur {
        !a.aur
    } else if a.unpopularity != b.unpopularity {
        a.unpopularity < b.unpopularity
    } else {
        lex_lt(a.name, b.name)
    }
}

pub open spec fn hit_lt(a: HitView, b: HitView, query: Seq<char>) -> bool {
    rank_lt(rank_spec(a, query), rank_spec(b, query))
}

pub open spec fn insert_hit(s: Seq<HitView>, x: HitView, query: Seq<char>) -> Seq<HitView>
    decreases s.len(),
{
    if s.len() == 0 {
        seq![x]
    } else if hit_lt(x, s.last(), query) {
        insert_hit(s.drop_last(), x, query).push(s.last())
    } else {
        s.push(x)
    }
}

/// The results in rank order; results of equal rank keep their order.
pub open spec fn sort_hits_spec(s: Seq<HitView>, query: Seq<char>) -> Seq<HitView>
    decreases s.len(),
{
    if s.len() == 0 {
        seq![]
    } else {
        insert_hit(sort_hits_spec(s.drop_last(), query), s.last(), query)
    }
}

proof fn lemma_insert_hit_at(s: Seq<HitView>, x: HitView, query: Seq<char>, k: int)
    requires
        0 <= k <= s.len(),
        forall|j: int| k <= j < s.len() ==> hit_lt(x, #[trigger] s[j], query),
        k == 0 || !hit_lt(x, s[k - 1], query),
    ensures
        insert_hit(s, x, query) == s.insert(k, x),
    decreases s.len() - k,
{
    if s.len() == 0 {
        assert(s.insert(k, x) =~= seq![x]);
    } else if k == s.len() {
        assert(s.insert(k, x) =~= s.push(x));
    } else {
        assert(hit_lt(x, s[s.len() - 1], query));
        assert(s.last() == s[s.len() - 1]);
        let d = s.drop_last();
        assert forall|j: int| k <= j < d.len() implies hit_lt(x, #[trigger] d[j], query) by {
            assert(d[j] == s[j]);
        }
        if k > 0 {
            assert(d[k - 1] == s[k - 1]);
        }
        lemma_insert_hit_at(d, x, query, k);
        assert(d.insert(k, x).push(s.last()) =~= s.insert(k, x));
    }
}

fn relevance_exec(name: &str, query: &str) -> (r: u8)
    ensures
        r as nat == relevance(name@, query@),
{
    let q = lowered(chars_of(query).as_slice());
    let n = lowered(chars_of(name).as_slice());
    if seq_eq(n.as_slice(), q.as_slice()) {
        0
    } else if begins(n.as_slice(), q.as_slice()) {
        1
    } else if has(n.as_slice(), q.as_slice()) {
        2
    } else {
        3
    }
}

fn unpopularity(p: Option<i64>) -> (r: i64)
    ensures
        r == clamp_i64(
            -(match p {
                Some(v) => v as int,
                None => 0,
            }),
        ),
{
    match p {
        Some(v) => if v == i64::MIN {
            i64::MAX
        } else {
            -v
        },
        None => 0,
    }
}

fn hit_lt_exec(a: &Hit, b: &Hit, query: &str) -> (r: bool)
    ensures
        r == hit_lt(a@, b@, query@),
{
    let ra = relevance_exec(a.name.as_str(), query);
    let rb = relevance_exec(b.name.as_str(), query);
    if ra != rb {
        return ra < rb;
    }
    let aa = a.is_aur();
    let ab = b.is_aur();
    if aa != ab {
        return !aa;
    }
    let pa = unpopularity(a.popularity);
    let pb = unpopularity(b.popularity);
    if pa != pb {
        return pa < pb;
    }
    crate::plan::text_lt(a.name.as_str(), b.name.as_str())
}

fn sort_hits(hits: Vec<Hit>, query: &str) -> (r: Vec<Hit>)
    ensures
        hit_views(r@) == sort_hits_spec(hit_views(hits@), query@),
{
    let ghost all = hit_views(hits@);
    let mut rest = hits;
    let mut out: Vec<Hit> = Vec::new();
    assert(all.take(0) =~= seq![]);
    assert(hit_views(out@) =~= seq![]);
    assert(all.skip(0) =~= all);
    while rest.len() > 0
        invariant
            all.len() == hit_views(out@).len() + rest.len(),
            hit_views(rest@) == all.skip(all.len() - rest.len()),
            hit_views(out@) == sort_hits_spec(all.take(all.len() - rest.len()), query@),
        decreases rest.len(),
    {
        let ghost done = all.len() - rest.len();
        let ghost old_rest = rest@;
        let x = rest.remove(0);
        assert(all[done] == x@) by {
            assert(all.skip(done)[0] == all[done]);
            assert(hit_views(old_rest)[0] == old_rest[0]@);
        }
        assert(rest@ =~= old_rest.subrange(1, old_rest.len() as int));
        assert forall|j: int| 0 <= j < rest@.len() implies hit_views(rest@)[j] == all.skip(done + 1)[j] by {
            assert(rest@[j] == old_rest[j + 1]);
            assert(hit_views(old_rest)[j + 1] == all.skip(done)[j + 1]);
        }
        assert(hit_views(rest@) =~= all.skip(done + 1));
        let ghost s = hit_views(out@);
        let mut k: usize = out.len();
        while k > 0 && hit_lt_exec(&x, &out[k - 1], query)
            invariant
                k <= out.len(),
                s == hit_views(out@),
                forall|j: int| k <= j < s.len() ==> hit_lt(x@, #[trigger] s[j], query@),
            decreases k,
        {
            k = k - 1;
        }
        proof {
            lemma_insert_hit_at(s, x@, query@, k as int);
        }
        out.insert(k, x);
        assert(hit_views(out@) =~= s.insert(k as int, x@));
        assert(all.take(done + 1).drop_last() =~= all.take(done));
        assert(all.take(done + 1).last() == x@);
    }
    assert(all.take(all.len() as int) =~= all);
    out
}

// ---------------------------------------------------------------------------
// Putting the results together
// ---------------------------------------------------------------------------

/// The most results kept.
pub const MAX_HITS: usize = 200;

/// The version installed under that name, from `(name, version)` pairs.
pub open spec fn installed_version(installed: Seq<(Seq<char>, Seq<char>)>, name: Seq<char>) -> Option<Seq<char>>
    decreases installed.len(),
{
    if installed.len() == 0 {
        None
    } else if installed[0].0 == name {
        Some(installed[0].1)
    } else {
        installed_version(installed.drop_first(), name)
    }
}

pub open spec fn with_installed(h: HitView, installed: Seq<(Seq<char>, Seq<char>)>) -> HitView {
    HitView { installed: installed_version(installed, h.name), ..h }
}

pub open spec fn pair_seq(v: Seq<(String, String)>) -> Seq<(Seq<char>, Seq<char>)> {
    v.map_values(|p: (String, String)| (p.0@, p.1@))
}

/// The results as shown: each marked with the version installed, ranked,
/// at most `MAX_HITS` of them.
pub open spec fn ranked_spec(hits: Seq<HitView>, query: Seq<char>, installed: Seq<(Seq<char>, Seq<char>)>) -> Seq<HitView> {
    let marked = hits.map_values(|h: HitView| with_installed(h, installed));
    let sorted = sort_hits_spec(marked, query);
    if sorted.len() > MAX_HITS {
        sorted.take(MAX_HITS as int)
    } else {
        sorted
    }
}

fn installed_of(installed: &[(String, String)], name: &str) -> (r: Option<String>)
    ensures
        os(r) == installed_version(pair_seq(installed@), name@),
{
    let ghost iv = pair_seq(installed@);
    let mut i: usize = 0;
    assert(iv.skip(0) =~= iv);
    while i < installed.len()
        invariant
            i <= installed.len(),
            iv == pair_seq(installed@),
            installed_version(iv, name@) == installed_version(iv.skip(i as int), name@),
        decreases installed.len() - i,
    {
        let ghost rest = iv.skip(i as int);
        assert(rest[0] == iv[i as int]);
        assert(rest.drop_first() =~= iv.skip(i + 1));
        if str_eq(installed[i].0.as_str(), name) {
            return Some(installed[i].1.clone());
        }
        i = i + 1;
    }
    assert(iv.skip(installed.len() as int) =~= seq![]);
    None
}

/// Marks, ranks and bounds the results of a search.
pub fn ranked(hits: Vec<Hit>, query: &str, installed: &[(String, String)]) -> (r: Vec<Hit>)
    ensures
        hit_views(r@) == ranked_spec(hit_views(hits@), query@, pair_seq(installed@)),
{
    let ghost hv = hit_views(hits@);
    let ghost iv = pair_seq(installed@);
    let mut rest = hits;
    let mut marked: Vec<Hit> = Vec::new();
    assert(hit_views(marked@) =~= hv.map_values(|h: HitView| with_installed(h, iv)).take(0));
    while rest.len() > 0
        invariant
            hv.len() == marked@.len() + rest.len(),
            iv == pair_seq(installed@),
            hit_views(rest@) == hv.skip(hv.len() - rest.len()),
            hit_views(marked@) == hv.map_values(|h: HitView| with_installed(h, iv)).take(hv.len() - rest.len()),
        decreases rest.len(),
    {
        let ghost done = hv.len() - rest.len();
        let ghost old_rest = rest@;
        let mut h = rest.remove(0);
        assert(hv[done] == h@) by {
            assert(hv.skip(done)[0] == hv[done]);
            assert(hit_views(old_rest)[0] == old_rest[0]@);
        }
        assert(rest@ =~= old_rest.subrange(1, old_rest.len() as int));
        assert forall|j: int| 0 <= j < rest@.len() implies hit_views(rest@)[j] == hv.skip(done + 1)[j] by {
            assert(rest@[j] == old_rest[j + 1]);
            assert(hit_views(old_rest)[j + 1] == hv.skip(done)[j + 1]);
        }
        assert(hit_views(rest@) =~= hv.skip(done + 1));
        h.installed = installed_of(installed, h.name.as_str());
        let ghost before = hit_views(marked@);
        let ghost hvv = h@;
        marked.push(h);
        assert(hit_views(marked@) =~= before.push(hvv));
        assert(hv.map_values(|x: HitView| with_installed(x, iv)).take(done + 1) =~= hv.map_values(
            |x: HitView| with_installed(x, iv),
        ).take(done).push(with_installed(hv[done], iv)));
    }
    assert(hv.map_values(|h: HitView| with_installed(h, iv)).take(hv.len() as int) =~= hv.map_values(
        |h: HitView| with_installed(h, iv),
    ));
    let mut sorted = sort_hits(marked, query);
    if sorted.len() > MAX_HITS {
        let ghost before = hit_views(sorted@);
        sorted.truncate(MAX_HITS);
        assert(hit_views(sorted@) =~= before.take(MAX_HITS as int));
    }
    sorted
}

/// What a search answers: the repository results, then the AUR's. An AUR
/// outage does not throw away results already in hand; with none, its error
/// is the answer.
pub open spec fn run_spec(
    query: Seq<char>,
    installed: Seq<(Seq<char>, Seq<char>)>,
    repo: Seq<HitView>,
    aur: Result<Seq<HitView>, Seq<char>>,
) -> Result<Seq<HitView>, Seq<char>> {
    match aur {
        Ok(a) => Ok(ranked_spec(repo + a, query, installed)),
        Err(e) => if repo.len() == 0 {
            Err(e)
        } else {
            Ok(ranked_spec(repo, query, installed))
        },
    }
}

pub open spec fn aur_view(r: Result<Vec<Hit>, String>) -> Result<Seq<HitView>, Seq<char>> {
    match r {
        Ok(v) => Ok(hit_views(v@)),
        Err(e) => Err(e@),
    }
}

pub fn run(query: &str, installed: &[(String, String)], repo: Vec<Hit>, aur: Result<Vec<Hit>, String>) -> (r: Result<Vec<Hit>, String>)
    ensures
        aur_view(r) == run_spec(query@, pair_seq(installed@), hit_views(repo@), aur_view(aur)),
{
    let mut hits = repo;
    match aur {
        Ok(mut a) => {
            let ghost before = hit_views(hits@);
            let ghost add = hit_views(a@);
            hits.append(&mut a);
            assert(hit_views(hits@) =~= before + add);
        },
        Err(e) => if hits.len() == 0 {
            return Err(e);
        },
    }
    Ok(ranked(hits, query, installed))
}

// ---------------------------------------------------------------------------
// The search in progress
// ---------------------------------------------------------------------------

pub enum State {
    /// Nothing asked yet.
    Idle,
    Running,
    Done(Vec<Hit>),
    Failed(String),
}

pub struct Search {
    /// What the user typed, kept between searches so it can be refined.
    pub query: String,
    pub state: State,
}

impl Search {
    pub fn new() -> (r: Search)
        ensures
            r.query@ == Seq::<char>::empty(),
            r.state is Idle,
    {
        Search { query: String::new(), state: State::Idle }
    }

    /// Starts a search: returns the query to run. Anything shorter than two
    /// characters is refused: the AUR would answer with thousands of results,
    /// and the wait would buy nothing useful.
    pub fn start(&mut self, l: Lang, query: &str) -> (r: Option<String>)
        ensures
            trim(query@).len() < 2 ==> r is None && final(self).query == old(self).query
                && (final(self).state matches State::Failed(m) && m@ == translate(
                l,
                "Type at least two characters to search."@,
            )),
            trim(query@).len() >= 2 ==> (r matches Some(q) && q@ == trim(query@))
                && final(self).query@ == trim(query@) && final(self).state is Running,
    {
        let q = trimmed(chars_of(query).as_slice());
        if q.len() < 2 {
            self.state = State::Failed(t(l, "Type at least two characters to search."));
            return None;
        }
        self.query = string_of(q.as_slice());
        self.state = State::Running;
        Some(string_of(q.as_slice()))
    }

    /// The answer has arrived.
    pub fn finish(&mut self, result: Result<Vec<Hit>, String>)
        ensures
            final(self).query == old(self).query,
            match result {
                Ok(h) => final(self).state matches State::Done(v) && hit_views(v@) == hit_views(h@),
                Err(e) => final(self).state matches State::Failed(m) && m@ == e@,
            },
    {
        self.state = match result {
            Ok(h) => State::Done(h),
            Err(e) => State::Failed(e),
        };
    }

    /// The search thread went away without answering.
    pub fn interrupted(&mut self, l: Lang)
        ensures
            final(self).query == old(self).query,
            final(self).state matches State::Failed(m) && m@ == translate(l, "Search interrupted."@),
    {
        self.state = State::Failed(t(l, "Search interrupted."));
    }

    pub fn hits(&self) -> (r: &[Hit])
        ensures
            match self.state {
                State::Done(v) => r@ == v@,
                _ => r@.len() == 0,
            },
    {
        match &self.state {
            State::Done(h) => h.as_slice(),
            _ => &[],
        }
    }
}

// ---------------------------------------------------------------------------
// Laws
// ---------------------------------------------------------------------------

proof fn lemma_rank_asymmetric(a: RankView, b: RankView)
    requires
        rank_lt(a, b),
    ensures
        !rank_lt(b, a),
{
    if a.relevance == b.relevance && a.aur == b.aur && a.unpopularity == b.unpopularity {
        if lex_lt(b.name, a.name) {
            lemma_lex_transitive(a.name, b.name, a.name);
            lemma_lex_irreflexive(a.name);
        }
    }
}

proof fn lemma_rank_negatively_transitive(a: RankView, b: RankView, c: RankView)
    requires
        rank_lt(c, a),
    ensures
        rank_lt(c, b) || rank_lt(b, a),
{
    lemma_lex_total(a.name, b.name);
    lemma_lex_total(b.name, c.name);
    if lex_lt(c.name, a.name) && !lex_lt(c.name, b.name) && !lex_lt(b.name, a.name) {
        if b.name != c.name && b.name != a.name {
            lemma_lex_transitive(b.name, c.name, a.name);
        }
    }
}

pub open spec fn hits_ranked(r: Seq<HitView>, query: Seq<char>) -> bool {
    forall|i: int, j: int| 0 <= i < j < r.len() ==> !hit_lt(#[trigger] r[j], #[trigger] r[i], query)
}

proof fn lemma_insert_hit(s: Seq<HitView>, x: HitView, query: Seq<char>)
    requires
        hits_ranked(s, query),
    ensures
        hits_ranked(insert_hit(s, x, query), query),
        insert_hit(s, x, query).to_multiset() == s.to_multiset().insert(x),
    decreases s.len(),
{
    broadcast use vstd::seq_lib::group_to_multiset_ensures;

    if s.len() == 0 {
        assert(seq![x] =~= Seq::<HitView>::empty().push(x));
    } else {
        let d = s.drop_last();
        let e = s.last();
        assert(s =~= d.push(e));
        assert(hits_ranked(d, query)) by {
            assert forall|i: int, j: int| 0 <= i < j < d.len() implies !hit_lt(#[trigger] d[j], #[trigger] d[i], query) by {
                assert(d[i] == s[i] && d[j] == s[j]);
            }
        }
        if hit_lt(x, e, query) {
            lemma_insert_hit(d, x, query);
            let m = insert_hit(d, x, query);
            let r = m.push(e);
            assert forall|k: int| 0 <= k < m.len() implies !hit_lt(e, #[trigger] m[k], query) by {
                assert(m.to_multiset().contains(m[k]));
                assert(d.to_multiset().insert(x).contains(m[k]));
                if m[k] == x {
                    lemma_rank_asymmetric(rank_spec(x, query), rank_spec(e, query));
                } else {
                    assert(d.to_multiset().contains(m[k]));
                    assert(d.contains(m[k]));
                    let i = choose|i: int| 0 <= i < d.len() && d[i] == m[k];
                    assert(s[i] == m[k]);
                    assert(s[s.len() - 1] == e);
                }
            }
            assert forall|i: int, j: int| 0 <= i < j < r.len() implies !hit_lt(#[trigger] r[j], #[trigger] r[i], query) by {
                if j == r.len() - 1 {
                    assert(r[j] == e);
                    assert(r[i] == m[i]);
                } else {
                    assert(r[i] == m[i] && r[j] == m[j]);
                }
            }
            assert(m.push(e).to_multiset() =~= m.to_multiset().insert(e));
            assert(s.to_multiset() =~= d.to_multiset().insert(e));
            assert(r.to_multiset() =~= s.to_multiset().insert(x));
        } else {
            let r = s.push(x);
            assert forall|i: int, j: int| 0 <= i < j < r.len() implies !hit_lt(#[trigger] r[j], #[trigger] r[i], query) by {
                if j == r.len() - 1 {
                    assert(r[j] == x);
                    assert(r[i] == s[i]);
                    if i < s.len() - 1 {
                        assert(!hit_lt(s[s.len() - 1], s[i], query));
                        if hit_lt(x, s[i], query) {
                            lemma_rank_negatively_transitive(rank_spec(s[i], query), rank_spec(e, query), rank_spec(x, query));
                        }
                    }
                } else {
                    assert(r[i] == s[i] && r[j] == s[j]);
                }
            }
        }
    }
}

/// Results come in order of what was probably meant — relevance, then the
/// reviewed source, then popularity, then the name — and ranking neither
/// loses nor invents a result.
pub proof fn law_results_in_rank_order(s: Seq<HitView>, query: Seq<char>)
    ensures
        hits_ranked(sort_hits_spec(s, query), query),
        sort_hits_spec(s, query).to_multiset() == s.to_multiset(),
    decreases s.len(),
{
    broadcast use vstd::seq_lib::group_to_multiset_ensures;

    if s.len() == 0 {
        assert(sort_hits_spec(s, query) =~= s);
    } else {
        law_results_in_rank_order(s.drop_last(), query);
        lemma_insert_hit(sort_hits_spec(s.drop_last(), query), s.last(), query);
        assert(s =~= s.drop_last().push(s.last()));
    }
}

/// The hits, each marked with the version installed.
pub open spec fn marked_hits(hits: Seq<HitView>, installed: Seq<(Seq<char>, Seq<char>)>) -> Seq<HitView> {
    hits.map_values(|h: HitView| with_installed(h, installed))
}

/// The results shown are the best ones: they come in rank order, each is one
/// of the hits given (marked with what is installed), as many are kept as the
/// bound allows, and a hit left out never outranks one that is kept.
pub proof fn law_the_best_results_are_kept(hits: Seq<HitView>, query: Seq<char>, installed: Seq<(Seq<char>, Seq<char>)>)
    ensures
        hits_ranked(ranked_spec(hits, query, installed), query),
        ranked_spec(hits, query, installed).to_multiset().subset_of(marked_hits(hits, installed).to_multiset()),
        ranked_spec(hits, query, installed).len() == (if hits.len() > MAX_HITS {
            MAX_HITS as int
        } else {
            hits.len() as int
        }),
        forall|x: HitView, k: int|
            #![trigger hit_lt(x, ranked_spec(hits, query, installed)[k], query)]
            marked_hits(hits, installed).to_multiset().count(x) > ranked_spec(hits, query, installed).to_multiset().count(x)
                && 0 <= k < ranked_spec(hits, query, installed).len() ==> !hit_lt(
                x,
                ranked_spec(hits, query, installed)[k],
                query,
            ),
{
    broadcast use vstd::seq_lib::group_to_multiset_ensures;

    let m = marked_hits(hits, installed);
    let s = sort_hits_spec(m, query);
    assert(m == hits.map_values(|h: HitView| with_installed(h, installed)));
    let r = ranked_spec(hits, query, installed);
    law_results_in_rank_order(m, query);
    assert(s.len() == s.to_multiset().len());
    assert(m.len() == m.to_multiset().len());
    assert(m.len() == hits.len());
    if s.len() > MAX_HITS {
        let n = MAX_HITS as int;
        assert(r == s.take(n));
        assert(s =~= s.take(n) + s.skip(n));
        vstd::seq_lib::lemma_multiset_commutative(s.take(n), s.skip(n));
        assert(hits_ranked(r, query)) by {
            assert forall|i: int, j: int| 0 <= i < j < r.len() implies !hit_lt(#[trigger] r[j], #[trigger] r[i], query) by {
                assert(r[i] == s[i] && r[j] == s[j]);
            }
        }
        assert forall|x: HitView, k: int|
            m.to_multiset().count(x) > r.to_multiset().count(x) && 0 <= k < r.len() implies !hit_lt(x, r[k], query) by {
            assert(s.skip(n).to_multiset().count(x) > 0);
            assert(s.skip(n).contains(x));
            let j = choose|j: int| 0 <= j < s.skip(n).len() && s.skip(n)[j] == x;
            assert(s[n + j] == x);
            assert(r[k] == s[k]);
        }
    } else {
        assert(r == s);
    }
}

/// At most two hundred results are shown.
pub proof fn law_results_are_bounded(hits: Seq<HitView>, query: Seq<char>, installed: Seq<(Seq<char>, Seq<char>)>)
    ensures
        ranked_spec(hits, query, installed).len() <= MAX_HITS,
{
}


// ---------------------------------------------------------------------------
// The AUR's answer
// ---------------------------------------------------------------------------

/// The fields of the AUR's results, one column per field, in the order of
/// the results.
pub struct AurColumns {
    pub name: Vec<Leaf>,
    pub version: Vec<Leaf>,
    pub description: Vec<Leaf>,
    pub votes: Vec<Leaf>,
    pub popularity: Vec<Leaf>,
    pub out_of_date: Vec<Leaf>,
    pub maintainer: Vec<Leaf>,
    pub url: Vec<Leaf>,
}

pub struct AurColumnsView {
    pub name: Seq<LeafView>,
    pub version: Seq<LeafView>,
    pub description: Seq<LeafView>,
    pub votes: Seq<LeafView>,
    pub popularity: Seq<LeafView>,
    pub out_of_date: Seq<LeafView>,
    pub maintainer: Seq<LeafView>,
    pub url: Seq<LeafView>,
}

impl View for AurColumns {
    type V = AurColumnsView;

    open spec fn view(&self) -> AurColumnsView {
        AurColumnsView {
            name: leaf_views(self.name@),
            version: leaf_views(self.version@),
            description: leaf_views(self.description@),
            votes: leaf_views(self.votes@),
            popularity: leaf_views(self.popularity@),
            out_of_date: leaf_views(self.out_of_date@),
            maintainer: leaf_views(self.maintainer@),
            url: leaf_views(self.url@),
        }
    }
}

pub open spec fn text_or_empty(x: LeafView) -> Seq<char> {
    match x {
        LeafView::Text(t) => t,
        _ => seq![],
    }
}

pub open spec fn text_opt(x: LeafView) -> Option<Seq<char>> {
    match x {
        LeafView::Text(t) => Some(t),
        _ => None,
    }
}

/// A vote count: a whole number that fits 64 bits, kept to its low 32 bits
/// as an integer cast does.
pub open spec fn votes_of(x: LeafView) -> Option<u32> {
    match x {
        LeafView::Number(t) => if t.len() > 0 && all_digits(t) && value(t) <= u64::MAX {
            Some((value(t) % 0x1_0000_0000) as u32)
        } else {
            None
        },
        _ => None,
    }
}

/// The popularity in thousandths, from its decimal writing.
pub open spec fn popularity_of(x: LeafView) -> Option<i64> {
    match x {
        LeafView::Number(t) => match decimal_spec(t) {
            Some(d) => Some(scaled(d, 1000) as i64),
            None => None,
        },
        _ => None,
    }
}

/// Flagged out of date: the field is there and not null.
pub open spec fn flagged(x: LeafView) -> bool {
    !(x is Absent || x is Null)
}

/// Result `i` of the answer; it needs a name and a version field.
pub open spec fn aur_entry(c: AurColumnsView, i: int) -> Option<HitView> {
    match cell(c.name, i) {
        LeafView::Text(n) => if cell(c.version, i) is Absent {
            None
        } else {
            Some(
                HitView {
                    name: n,
                    version: text_or_empty(cell(c.version, i)),
                    repo: "aur"@,
                    description: text_or_empty(cell(c.description, i)),
                    installed: None,
                    votes: votes_of(cell(c.votes, i)),
                    popularity: popularity_of(cell(c.popularity, i)),
                    out_of_date: flagged(cell(c.out_of_date, i)),
                    maintainer: text_opt(cell(c.maintainer, i)),
                    url: text_opt(cell(c.url, i)),
                },
            )
        },
        _ => None,
    }
}

/// The first `n` results that read, in order.
pub open spec fn aur_entries(c: AurColumnsView, n: nat) -> Seq<HitView>
    decreases n,
{
    if n == 0 {
        seq![]
    } else {
        match aur_entry(c, n - 1) {
            Some(h) => aur_entries(c, (n - 1) as nat).push(h),
            None => aur_entries(c, (n - 1) as nat),
        }
    }
}

/// What an AUR answer gives: nothing said means the AUR did not answer; text
/// that is not JSON is unreadable; an `error` text is the answer; no result
/// array means no result.
pub open spec fn aur_answer(
    l: Lang,
    blank: bool,
    error: Option<LeafView>,
    columns: Option<Option<AurColumnsView>>,
) -> Result<Seq<HitView>, Seq<char>> {
    if blank {
        Err(translate(l, "The AUR did not answer (network?)."@))
    } else {
        match (error, columns) {
            (Some(LeafView::Text(e)), _) => Err(e),
            (Some(_), Some(Some(c))) => Ok(aur_entries(c, c.name.len())),
            (Some(_), Some(None)) => Ok(seq![]),
            _ => Err(translate(l, "Unreadable AUR answer."@)),
        }
    }
}

pub open spec fn opt_columns(c: Option<Option<AurColumns>>) -> Option<Option<AurColumnsView>> {
    match c {
        Some(Some(v)) => Some(Some(v@)),
        Some(None) => Some(None),
        None => None,
    }
}

fn leaf_u32(x: &Leaf) -> (r: Option<u32>)
    ensures
        r == votes_of(x@),
{
    match x {
        Leaf::Number(t) => {
            let d = chars_of(t.as_str());
            match crate::text::digits_up_to(d.as_slice(), u64::MAX) {
                Some(v) => Some((v % 0x1_0000_0000) as u32),
                None => None,
            }
        },
        _ => None,
    }
}

fn leaf_thousandths(x: &Leaf) -> (r: Option<i64>)
    ensures
        r == popularity_of(x@),
{
    match x {
        Leaf::Number(t) => {
            let d = chars_of(t.as_str());
            decimal_size(d.as_slice(), 1000)
        },
        _ => None,
    }
}

fn leaf_text(x: &Leaf) -> (r: Option<String>)
    ensures
        match r {
            Some(s) => text_opt(x@) == Some(s@),
            None => text_opt(x@) is None,
        },
{
    match x {
        Leaf::Text(t) => Some(t.clone()),
        _ => None,
    }
}

/// The results an AUR answer gives, from what was read of it: `blank` when
/// it said nothing, `error` what is at `/error`, `columns` the fields of the
/// results (`None` when the text is not JSON, `Some(None)` when there is no
/// result array).
pub fn read_aur(l: Lang, blank: bool, error: Option<Leaf>, columns: Option<Option<AurColumns>>) -> (r: Result<Vec<Hit>, String>)
    ensures
        aur_view(r) == aur_answer(l, blank, opt_leaf(error), opt_columns(columns)),
{
    if blank {
        return Err(t(l, "The AUR did not answer (network?)."));
    }
    let c = match (error, columns) {
        (Some(Leaf::Text(e)), _) => return Err(e),
        (Some(_), Some(Some(c))) => c,
        (Some(_), Some(None)) => {
            let none: Vec<Hit> = Vec::new();
            assert(hit_views(none@) =~= seq![]);
            return Ok(none);
        },
        _ => return Err(t(l, "Unreadable AUR answer.")),
    };
    let ghost cv = c@;
    let mut out: Vec<Hit> = Vec::new();
    let mut i: usize = 0;
    while i < c.name.len()
        invariant
            i <= c.name.len(),
            cv == c@,
            hit_views(out@) == aur_entries(cv, i as nat),
        decreases c.name.len() - i,
    {
        let ghost before = hit_views(out@);
        let name = cell_at(&c.name, i);
        let version = cell_at(&c.version, i);
        if let Leaf::Text(n) = name {
            match version {
                Leaf::Absent => {},
                v => {
                    let h = Hit {
                        name: n,
                        version: match leaf_text(&v) {
                            Some(s) => s,
                            None => String::new(),
                        },
                        repo: owned("aur"),
                        description: match leaf_text(&cell_at(&c.description, i)) {
                            Some(s) => s,
                            None => String::new(),
                        },
                        installed: None,
                        votes: leaf_u32(&cell_at(&c.votes, i)),
                        popularity: leaf_thousandths(&cell_at(&c.popularity, i)),
                        out_of_date: match cell_at(&c.out_of_date, i) {
                            Leaf::Absent => false,
                            Leaf::Null => false,
                            _ => true,
                        },
                        maintainer: leaf_text(&cell_at(&c.maintainer, i)),
                        url: leaf_text(&cell_at(&c.url, i)),
                    };
                    proof {
                        reveal_strlit("aur");
                    }
                    let ghost hv = h@;
                    out.push(h);
                    assert(hit_views(out@) =~= before.push(hv));
                },
            }
        }
        i = i + 1;
    }
    Ok(out)
}

/// The fields of the results as serde_json finds them, each column at
/// `/results`; a missing column reads as empty.
pub open spec fn named_columns(body: Seq<char>) -> Option<Option<AurColumnsView>> {
    let col = |f: Seq<char>|
        match json_column(body, "/results"@, f) {
            Some(Some(v)) => v,
            _ => seq![],
        };
    match json_column(body, "/results"@, "Name"@) {
        Some(Some(names)) => Some(
            Some(
                AurColumnsView {
                    name: names,
                    version: col("Version"@),
                    description: col("Description"@),
                    votes: col("NumVotes"@),
                    popularity: col("Popularity"@),
                    out_of_date: col("OutOfDate"@),
                    maintainer: col("Maintainer"@),
                    url: col("URL"@),
                },
            ),
        ),
        Some(None) => Some(None),
        None => None,
    }
}

fn column(body: &str, field: &str) -> (r: Vec<Leaf>)
    ensures
        leaf_views(r@) == (match json_column(body@, "/results"@, field@) {
            Some(Some(v)) => v,
            _ => seq![],
        }),
{
    match column_at(body, "/results", field) {
        Some(Some(v)) => v,
        _ => {
            let e: Vec<Leaf> = Vec::new();
            assert(leaf_views(e@) =~= seq![]);
            e
        },
    }
}

/// The results of an AUR search, from what fetching them gave: the error of
/// the fetch itself, or the text of the answer.
pub fn aur_hits(l: Lang, fetched: Result<String, String>) -> (r: Result<Vec<Hit>, String>)
    ensures
        aur_view(r) == (match fetched {
            Err(e) => Err(e@),
            Ok(body) => aur_answer(
                l,
                trim(body@).len() == 0,
                json_leaf(body@, "/error"@),
                named_columns(body@),
            ),
        }),
{
    let body = match fetched {
        Err(e) => return Err(e),
        Ok(b) => b,
    };
    if trimmed(chars_of(body.as_str()).as_slice()).len() == 0 {
        return read_aur(l, true, None, None);
    }
    let error = leaf_at(body.as_str(), "/error");
    let columns = match column_at(body.as_str(), "/results", "Name") {
        Some(Some(names)) => Some(
            Some(
                AurColumns {
                    name: names,
                    version: column(body.as_str(), "Version"),
                    description: column(body.as_str(), "Description"),
                    votes: column(body.as_str(), "NumVotes"),
                    popularity: column(body.as_str(), "Popularity"),
                    out_of_date: column(body.as_str(), "OutOfDate"),
                    maintainer: column(body.as_str(), "Maintainer"),
                    url: column(body.as_str(), "URL"),
                },
            ),
        ),
        Some(None) => Some(None),
        None => None,
    };
    read_aur(l, false, error, columns)
}

} // verus!
