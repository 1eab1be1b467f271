//! Reading what paru prints through its pseudo terminal.
//!
//! paru runs inside a pseudo terminal, so that it behaves exactly as it would
//! in a real one. What comes back is a byte stream: it is cut into lines here,
//! cleaned of terminal escapes, and handed to the journal. The same module
//! decides what the run screen shows of the progress and of a pending
//! question.

use vstd::prelude::*;
use crate::i18n::{Lang, t, translate, subst};
use crate::journal::{Journal, JournalView, Phase, fresh};
use crate::text::{
    chars_of, string_of, owned, slice, append, trim, trimmed, contains, has_str, ends_with,
    finishes_str, strs, lowercase, lowered,
};

verus! {

// ---------------------------------------------------------------------------
// Escape sequences
// ---------------------------------------------------------------------------

/// After a CSI introducer: up to and including the final byte, between `@`
/// and `~`.
pub open spec fn csi_end(s: Seq<char>, i: int) -> int
    decreases s.len() - i,
{
    if i < 0 || i >= s.len() {
        s.len() as int
    } else if '@' <= s[i] && s[i] <= '~' {
        i + 1
    } else {
        csi_end(s, i + 1)
    }
}

/// After a string escape (OSC and its cousins): up to and including BEL, or
/// ESC `\`.
pub open spec fn string_end(s: Seq<char>, i: int) -> int
    decreases s.len() - i,
{
    if i < 0 || i >= s.len() {
        s.len() as int
    } else if s[i] == '\x07' {
        i + 1
    } else if s[i] == '\x1b' && i + 1 < s.len() && s[i + 1] == '\\' {
        i + 2
    } else {
        string_end(s, i + 1)
    }
}

pub open spec fn min_len(s: Seq<char>, k: int) -> int {
    if k < s.len() {
        k
    } else {
        s.len() as int
    }
}

/// Where the text resumes after an escape starting at `i`. A charset
/// designation (`ESC ( B`) takes two characters after the ESC, not one:
/// dropping only the first left the `B` on screen.
pub open spec fn escape_end(s: Seq<char>, i: int) -> int {
    if i + 1 >= s.len() {
        s.len() as int
    } else if s[i + 1] == '[' {
        csi_end(s, i + 2)
    } else if s[i + 1] == '(' || s[i + 1] == ')' || s[i + 1] == '*' || s[i + 1] == '+' {
        min_len(s, i + 3)
    } else if s[i + 1] == ']' || s[i + 1] == 'P' || s[i + 1] == '_' || s[i + 1] == '^' || s[i
        + 1] == 'X' {
        string_end(s, i + 2)
    } else {
        i + 2
    }
}

pub proof fn lemma_csi_end(s: Seq<char>, i: int)
    requires
        0 <= i <= s.len(),
    ensures
        i <= csi_end(s, i) <= s.len(),
    decreases s.len() - i,
{
    if i < s.len() {
        lemma_csi_end(s, i + 1);
    }
}

pub proof fn lemma_string_end(s: Seq<char>, i: int)
    requires
        0 <= i <= s.len(),
    ensures
        i <= string_end(s, i) <= s.len(),
    decreases s.len() - i,
{
    if i < s.len() {
        lemma_string_end(s, i + 1);
    }
}

pub proof fn lemma_escape_end(s: Seq<char>, i: int)
    requires
        0 <= i < s.len(),
    ensures
        i < escape_end(s, i) <= s.len(),
{
    if i + 1 < s.len() {
        if s[i + 1] == '[' {
            lemma_csi_end(s, i + 2);
        } else if s[i + 1] == ']' || s[i + 1] == 'P' || s[i + 1] == '_' || s[i + 1] == '^'
            || s[i + 1] == 'X' {
            lemma_string_end(s, i + 2);
        }
    }
}

/// The text from `i` on, without its escape sequences.
pub open spec fn stripped_from(s: Seq<char>, i: int) -> Seq<char>
    decreases s.len() - i,
{
    if i < 0 || i >= s.len() {
        seq![]
    } else if s[i] != '\x1b' {
        seq![s[i]] + stripped_from(s, i + 1)
    } else {
        proof {
            lemma_escape_end(s, i);
        }
        stripped_from(s, escape_end(s, i))
    }
}

pub open spec fn stripped(s: Seq<char>) -> Seq<char> {
    stripped_from(s, 0)
}

/// Strips ANSI escape sequences from a line before analysing it.
pub fn strip_ansi(s: &str) -> (r: String)
    ensures
        r@ == stripped(s@),
{
    let v = chars_of(s);
    let out = strip_chars(v.as_slice());
    string_of(out.as_slice())
}

fn strip_chars(s: &[char]) -> (r: Vec<char>)
    ensures
        r@ == stripped(s@),
{
    let mut out: Vec<char> = Vec::new();
    let mut i: usize = 0;
    assert(out@ + stripped_from(s@, 0) =~= stripped_from(s@, 0));
    while i < s.len()
        invariant
            i <= s.len(),
            out@ + stripped_from(s@, i as int) == stripped(s@),
        decreases s.len() - i,
    {
        let c = s[i];
        if c != '\x1b' {
            out.push(c);
            assert(out@ + stripped_from(s@, i + 1) =~= stripped(s@));
            i = i + 1;
        } else {
            proof {
                lemma_escape_end(s@, i as int);
            }
            let next = escape_end_exec(s, i);
            i = next;
        }
    }
    assert(out@ + seq![] =~= out@);
    out
}

fn escape_end_exec(s: &[char], i: usize) -> (r: usize)
    requires
        i < s.len(),
        s@[i as int] == '\x1b',
    ensures
        r == escape_end(s@, i as int),
{
    if i + 1 >= s.len() {
        return s.len();
    }
    let k = s[i + 1];
    if k == '[' {
        let mut j: usize = i + 2;
        while j < s.len() && !('@' <= s[j] && s[j] <= '~')
            invariant
                i + 2 <= j <= s.len(),
                csi_end(s@, i + 2) == csi_end(s@, j as int),
            decreases s.len() - j,
        {
            j = j + 1;
        }
        if j < s.len() {
            j + 1
        } else {
            j
        }
    } else if k == '(' || k == ')' || k == '*' || k == '+' {
        if s.len() - i > 3 {
            i + 3
        } else {
            s.len()
        }
    } else if k == ']' || k == 'P' || k == '_' || k == '^' || k == 'X' {
        let mut j: usize = i + 2;
        while j < s.len() && s[j] != '\x07' && !(s[j] == '\x1b' && j + 1 < s.len() && s[j + 1]
            == '\\')
            invariant
                i + 2 <= j <= s.len(),
                string_end(s@, i + 2) == string_end(s@, j as int),
            decreases s.len() - j,
        {
            j = j + 1;
        }
        if j >= s.len() {
            j
        } else if s[j] == '\x07' {
            j + 1
        } else {
            j + 2
        }
    } else {
        i + 2
    }
}

// ---------------------------------------------------------------------------
// Lines from a byte stream
// ---------------------------------------------------------------------------

/// What `String::from_utf8_lossy` makes of a run of bytes: their UTF-8
/// decoding, each invalid sequence replaced by U+FFFD.
pub uninterp spec fn lossy(b: Seq<u8>) -> Seq<char>;

/// std's `String::from_utf8_lossy`. Its documentation promises the decoding
/// itself when the bytes are valid UTF-8; what it makes of invalid bytes is
/// left to the name.
#[verifier::external_body]
fn decode_lossy(b: &[u8]) -> (r: String)
    ensures
        r@ == lossy(b@),
        vstd::utf8::valid_utf8(b@) ==> r@ == vstd::utf8::decode_utf8(b@),
{
    String::from_utf8_lossy(b).into_owned()
}

/// The longest line kept whole: a line with no end must not grow the buffer
/// indefinitely.
pub const MAX_LINE: usize = 8192;

/// One byte read: a line feed or a carriage return ends the line under
/// construction — the carriage return is how pacman rewrites its progress
/// bars, and the successive percentages live there — and an empty line is
/// no line.
pub open spec fn split_step(buf: Seq<u8>, o: u8) -> (Seq<u8>, Seq<Seq<u8>>) {
    if o == 10 || o == 13 {
        (
            seq![],
            if buf.len() > 0 {
                seq![buf]
            } else {
                seq![]
            },
        )
    } else if buf.len() < MAX_LINE {
        (buf.push(o), seq![])
    } else {
        (buf, seq![])
    }
}

/// The buffer, and the raw lines completed, after reading `bytes`.
pub open spec fn feed(buf: Seq<u8>, bytes: Seq<u8>) -> (Seq<u8>, Seq<Seq<u8>>)
    decreases bytes.len(),
{
    if bytes.len() == 0 {
        (buf, seq![])
    } else {
        let before = feed(buf, bytes.drop_last());
        let after = split_step(before.0, bytes.last());
        (after.0, before.1 + after.1)
    }
}

/// A completed line as text: decoded only once whole, so that a read cut in
/// the middle of a multi-byte character does not garble it, then cleaned.
pub open spec fn line_text(raw: Seq<u8>) -> Seq<char> {
    stripped(lossy(raw))
}

pub open spec fn line_texts(raws: Seq<Seq<u8>>) -> Seq<Seq<char>> {
    raws.map_values(|r: Seq<u8>| line_text(r))
}

/// Rebuilds lines of text from a byte stream.
pub struct LineSplitter {
    buffer: Vec<u8>,
}

impl LineSplitter {
    /// The bytes of the line under construction.
    pub closed spec fn pending(self) -> Seq<u8> {
        self.buffer@
    }

    pub fn new() -> (r: LineSplitter)
        ensures
            r.pending() == Seq::<u8>::empty(),
    {
        LineSplitter { buffer: Vec::new() }
    }

    /// Reads a chunk of bytes and returns the lines it completes.
    pub fn push(&mut self, bytes: &[u8]) -> (rows: Vec<String>)
        ensures
            final(self).pending() == feed(old(self).pending(), bytes@).0,
            strs(rows@) == line_texts(feed(old(self).pending(), bytes@).1),
    {
        let ghost start = self.buffer@;
        let mut rows: Vec<String> = Vec::new();
        let mut i: usize = 0;
        assert(bytes@.take(0) =~= seq![]);
        assert(strs(rows@) =~= seq![]);
        while i < bytes.len()
            invariant
                i <= bytes.len(),
                self.buffer@ == feed(start, bytes@.take(i as int)).0,
                strs(rows@) == line_texts(feed(start, bytes@.take(i as int)).1),
            decreases bytes.len() - i,
        {
            let o = bytes[i];
            assert(bytes@.take(i + 1).drop_last() =~= bytes@.take(i as int));
            assert(bytes@.take(i + 1).last() == o);
            let ghost done = feed(start, bytes@.take(i as int)).1;
            if o == 10u8 || o == 13u8 {
                let mut raw: Vec<u8> = Vec::new();
                std::mem::swap(&mut raw, &mut self.buffer);
                if raw.len() > 0 {
                    let text = decode_lossy(raw.as_slice());
                    let line = strip_ansi(text.as_str());
                    let ghost before = strs(rows@);
                    rows.push(line);
                    assert(strs(rows@) =~= before.push(line_text(raw@)));
                    assert(line_texts(done + seq![raw@]) =~= line_texts(done).push(line_text(raw@)));
                } else {
                    assert(done + seq![] =~= done);
                }
            } else if self.buffer.len() < MAX_LINE {
                self.buffer.push(o);
                assert(done + seq![] =~= done);
            } else {
                assert(done + seq![] =~= done);
            }
            i = i + 1;
        }
        assert(bytes@.take(bytes.len() as int) =~= bytes@);
        rows
    }
}

/// Reading a stream in chunks gives what reading it whole gives: the buffer
/// carries what a chunk leaves unfinished over to the next.
pub proof fn law_chunks_do_not_matter(buf: Seq<u8>, a: Seq<u8>, b: Seq<u8>)
    ensures
        feed(buf, a + b) == (feed(feed(buf, a).0, b).0, feed(buf, a).1 + feed(feed(buf, a).0, b).1),
    decreases b.len(),
{
    if b.len() == 0 {
        assert(a + b =~= a);
        assert(feed(buf, a).1 + seq![] =~= feed(buf, a).1);
    } else {
        assert((a + b).drop_last() =~= a + b.drop_last());
        assert((a + b).last() == b.last());
        law_chunks_do_not_matter(buf, a, b.drop_last());
        let mid = feed(feed(buf, a).0, b.drop_last());
        let st = split_step(mid.0, b.last());
        assert(feed(buf, a).1 + mid.1 + st.1 =~= feed(buf, a).1 + (mid.1 + st.1));
    }
}

/// A byte that ends a line: a line feed or a carriage return.
pub open spec fn is_end(o: u8) -> bool {
    o == 10 || o == 13
}

/// Position of the first line end, or the length when there is none.
pub open spec fn first_end(b: Seq<u8>) -> int
    decreases b.len(),
{
    if b.len() == 0 {
        0
    } else if is_end(b[0]) {
        0
    } else {
        1 + first_end(b.drop_first())
    }
}

pub proof fn lemma_first_end(b: Seq<u8>)
    ensures
        0 <= first_end(b) <= b.len(),
        forall|i: int| 0 <= i < first_end(b) ==> !is_end(#[trigger] b[i]),
        first_end(b) < b.len() ==> is_end(b[first_end(b)]),
    decreases b.len(),
{
    if b.len() > 0 && !is_end(b[0]) {
        lemma_first_end(b.drop_first());
        assert forall|i: int| 0 <= i < first_end(b) implies !is_end(#[trigger] b[i]) by {
            if i > 0 {
                assert(b[i] == b.drop_first()[i - 1]);
            }
        }
    }
}

/// The stream read from its start: the non-empty runs of bytes that a line
/// end closes, in order, and the run still open after the last end.
pub open spec fn runs(b: Seq<u8>) -> (Seq<u8>, Seq<Seq<u8>>)
    decreases b.len(),
{
    let k = first_end(b);
    if k < 0 || k >= b.len() {
        (b, seq![])
    } else {
        let rest = runs(b.skip(k + 1));
        (rest.0, (if k > 0 { seq![b.take(k)] } else { seq![] }) + rest.1)
    }
}

/// No run of the stream is longer than the longest line kept whole.
pub open spec fn runs_fit(b: Seq<u8>) -> bool
    decreases b.len(),
{
    let k = first_end(b);
    &&& k <= MAX_LINE
    &&& (0 <= k < b.len() ==> runs_fit(b.skip(k + 1)))
}

proof fn lemma_feed_plain(buf: Seq<u8>, r: Seq<u8>)
    requires
        forall|i: int| 0 <= i < r.len() ==> !is_end(#[trigger] r[i]),
        buf.len() + r.len() <= MAX_LINE,
    ensures
        feed(buf, r) == (buf + r, Seq::<Seq<u8>>::empty()),
    decreases r.len(),
{
    if r.len() == 0 {
        assert(buf + r =~= buf);
    } else {
        assert forall|i: int| 0 <= i < r.drop_last().len() implies !is_end(#[trigger] r.drop_last()[i]) by {
            assert(r.drop_last()[i] == r[i]);
        }
        lemma_feed_plain(buf, r.drop_last());
        assert(!is_end(r[r.len() - 1]));
        assert((buf + r.drop_last()).push(r.last()) =~= buf + r);
        assert(Seq::<Seq<u8>>::empty() + Seq::<Seq<u8>>::empty() =~= Seq::<Seq<u8>>::empty());
    }
}

proof fn lemma_feed_runs(b: Seq<u8>)
    requires
        runs_fit(b),
    ensures
        feed(seq![], b) == runs(b),
    decreases b.len(),
{
    lemma_first_end(b);
    let k = first_end(b);
    if k >= b.len() {
        lemma_feed_plain(seq![], b);
        assert(Seq::<u8>::empty() + b =~= b);
    } else {
        let head = b.take(k);
        let tail = b.skip(k);
        let rest = b.skip(k + 1);
        assert(b =~= head + tail);
        assert(tail =~= seq![b[k]] + rest);
        law_chunks_do_not_matter(seq![], head, tail);
        lemma_feed_plain(seq![], head);
        assert(Seq::<u8>::empty() + head =~= head);
        law_chunks_do_not_matter(head, seq![b[k]], rest);
        assert(seq![b[k]].drop_last() =~= Seq::<u8>::empty());
        assert(feed(head, seq![b[k]]) == split_step(head, b[k])) by {
            assert(feed(head, Seq::<u8>::empty()) == (head, Seq::<Seq<u8>>::empty()));
            assert(Seq::<Seq<u8>>::empty() + split_step(head, b[k]).1 =~= split_step(head, b[k]).1);
        }
        lemma_feed_runs(rest);
        let first: Seq<Seq<u8>> = if k > 0 { seq![head] } else { seq![] };
        assert(split_step(head, b[k]) == (Seq::<u8>::empty(), first));
        assert(Seq::<Seq<u8>>::empty() + (first + runs(rest).1) =~= first + runs(rest).1);
    }
}

/// A stream whose runs all fit is cut into exactly its non-empty runs, each
/// decoded whole, however the reads split it — even inside a character; what
/// the last line end leaves stays pending.
pub proof fn law_lines_are_the_runs(a: Seq<u8>, b: Seq<u8>)
    requires
        runs_fit(a + b),
    ensures
        feed(feed(seq![], a).0, b).0 == runs(a + b).0,
        feed(seq![], a).1 + feed(feed(seq![], a).0, b).1 == runs(a + b).1,
        line_texts(feed(seq![], a).1) + line_texts(feed(feed(seq![], a).0, b).1) == line_texts(runs(a + b).1),
{
    law_chunks_do_not_matter(seq![], a, b);
    lemma_feed_runs(a + b);
    let x = feed(seq![], a).1;
    let y = feed(feed(seq![], a).0, b).1;
    assert(line_texts(x + y) =~= line_texts(x) + line_texts(y));
}

// ---------------------------------------------------------------------------
// Questions
// ---------------------------------------------------------------------------

/// A question put to the user, on the lower-cased line the cursor sits on.
///
/// The possible answers between brackets (`[Y/n]` in any language), a
/// question mark, or — for `Enter a number (default=1):` — a trailing colon.
/// A colon is enough because the line is the one the cursor stays on: the
/// cursor only stays put on something written without a newline, which is
/// what a prompt is.
pub open spec fn question_spec(b: Seq<char>) -> bool {
    contains(b, "[y/n]"@) || contains(b, "[o/n]"@) || contains(b, "[n/y]"@) || contains(b, "[n/o]"@)
        || ends_with(b, "?"@) || ends_with(b, ":"@)
}

pub fn is_question(bottom: &str) -> (r: bool)
    ensures
        r == question_spec(bottom@),
{
    let b = chars_of(bottom);
    has_str(b.as_slice(), "[y/n]") || has_str(b.as_slice(), "[o/n]") || has_str(b.as_slice(), "[n/y]")
        || has_str(b.as_slice(), "[n/o]") || finishes_str(b.as_slice(), "?") || finishes_str(
        b.as_slice(),
        ":",
    )
}

pub struct Prompt {
    pub text: String,
    /// True for a password entry: nothing must appear.
    pub masked: bool,
}

pub struct PromptView {
    pub text: Seq<char>,
    pub masked: bool,
}

/// What the cursor line says of a pending question. sudo does not echo the
/// password being typed: that has to be signalled, or the interface looks
/// frozen.
pub open spec fn prompt_spec(line: Seq<char>) -> Option<PromptView> {
    let t = trim(line);
    let b = lowercase(t);
    if t.len() == 0 {
        None
    } else if contains(b, "password"@) || contains(b, "mot de passe"@) {
        Some(PromptView { text: t, masked: true })
    } else if question_spec(b) {
        Some(PromptView { text: t, masked: false })
    } else {
        None
    }
}

/// Detects that the process is waiting for input, from the text of the line
/// the cursor sits on. The cursor is trusted rather than a pattern searched
/// across the screen: a question already answered stays displayed higher up
/// but no longer holds the cursor.
pub fn prompt_at(line: &str) -> (r: Option<Prompt>)
    ensures
        match r {
            Some(p) => prompt_spec(line@) == Some(PromptView { text: p.text@, masked: p.masked }),
            None => prompt_spec(line@) is None,
        },
{
    let v = chars_of(line);
    let tv = trimmed(v.as_slice());
    if tv.len() == 0 {
        return None;
    }
    let b = lowered(tv.as_slice());
    if has_str(b.as_slice(), "password") || has_str(b.as_slice(), "mot de passe") {
        return Some(Prompt { text: string_of(tv.as_slice()), masked: true });
    }
    let bs = string_of(b.as_slice());
    if is_question(bs.as_str()) {
        return Some(Prompt { text: string_of(tv.as_slice()), masked: false });
    }
    None
}

// ---------------------------------------------------------------------------
// Progress
// ---------------------------------------------------------------------------

/// Progress in a form the screen can show.
pub struct Progress {
    /// Fraction done, as a numerator over a denominator; absent when nothing
    /// is measurable (an AUR build).
    pub fraction: Option<(u64, u64)>,
    /// Phase name, for the displays that have no access to the journal.
    pub label: String,
    /// Current item over total, when pacman gives it.
    pub counter: Option<(u32, u32)>,
}

pub struct ProgressView {
    pub fraction: Option<(int, int)>,
    pub label: Seq<char>,
    pub counter: Option<(u32, u32)>,
}

/// The fraction `((n − 1) + percent / 100) / m`, kept between 0 and 1: the
/// phase counter gives the measurable progress, the percentage only refines
/// the position inside the current item.
pub open spec fn fraction_spec(n: u32, m: u32, percent: Option<u8>) -> (int, int) {
    let p = match percent {
        Some(v) => v as int,
        None => 0,
    };
    let done = 100 * (n - 1) + p;
    (
        if done < 0 {
            0
        } else if done > 100 * m {
            100 * m
        } else {
            done
        },
        100 * m,
    )
}

/// The process has announced nothing yet: no phase after the start, no
/// counter, no build step. A journal before its first line is in this state.
pub open spec fn announced_nothing(j: JournalView) -> bool {
    &&& j.phase == Phase::Starting
    &&& j.counter is None
    &&& j.compilation is None
}

/// Progress to display, or none while the process has announced nothing yet.
/// Once the process has finished successfully it is 100 % whatever the phases
/// said: the last one paru announces is a search for AUR updates, with no
/// counter.
pub open spec fn progress_spec(exit_code: Option<u32>, j: JournalView) -> Option<ProgressView> {
    if exit_code == Some(0u32) {
        Some(ProgressView { fraction: Some((1, 1)), label: translate(j.lang, "finished"@), counter: None })
    } else if announced_nothing(j) {
        None
    } else {
        Some(progress_of(j))
    }
}

/// Progress read from what the journal has gathered.
pub open spec fn progress_of(j: JournalView) -> ProgressView {
        match j.counter {
            Some((n, m)) => if m > 0 {
                ProgressView {
                    fraction: Some(fraction_spec(n, m, j.percent)),
                    label: translate(j.lang, j.phase.key()),
                    counter: Some((n, m)),
                }
            } else {
                unmeasured(j)
            },
            None => unmeasured(j),
        }
}

/// No measurable progress: the step makepkg announced during a build, the
/// phase otherwise.
pub open spec fn unmeasured(j: JournalView) -> ProgressView {
    ProgressView {
        fraction: None,
        label: match j.compilation {
            Some(c) => if j.phase == Phase::Building {
                c
            } else {
                translate(j.lang, j.phase.key())
            },
            None => translate(j.lang, j.phase.key()),
        },
        counter: None,
    }
}

/// What a progress value shows, by its numbers and text.
pub open spec fn progress_view(p: Progress) -> ProgressView {
    ProgressView {
        fraction: match p.fraction {
            Some((a, b)) => Some((a as int, b as int)),
            None => None,
        },
        label: p.label@,
        counter: p.counter,
    }
}

pub fn progress(exit_code: Option<u32>, j: &Journal) -> (r: Option<Progress>)
    ensures
        progress_spec(exit_code, j@) == (match r {
            Some(p) => Some(progress_view(p)),
            None => None,
        }),
        exit_code is None && j@ == fresh(j@.lang) ==> r is None,
{
    if exit_code == Some(0u32) {
        return Some(Progress { fraction: Some((1, 1)), label: t(j.lang, "finished"), counter: None });
    }
    if j.phase == Phase::Starting && j.counter.is_none() && j.compilation.is_none() {
        return None;
    }
    if let Some((n, m)) = j.counter {
        if m > 0 {
            let p: u64 = match j.percent {
                Some(v) => v as u64,
                None => 0,
            };
            let total: u64 = 100 * (m as u64);
            let base: u64 = 100 * (n as u64);
            let done: u64 = if base + p < 100 {
                0
            } else if base + p - 100 > total {
                total
            } else {
                base + p - 100
            };
            return Some(
                Progress {
                    fraction: Some((done, total)),
                    label: j.phase.label(j.lang),
                    counter: Some((n, m)),
                },
            );
        }
    }
    let label = match &j.compilation {
        Some(c) => if j.phase == Phase::Building {
            c.clone()
        } else {
            j.phase.label(j.lang)
        },
        None => j.phase.label(j.lang),
    };
    Some(Progress { fraction: None, label, counter: None })
}

/// The step shown in the header. Once the process has ended, the last phase
/// is no longer a step in progress: presenting it as one would suggest there
/// is still work left.
pub open spec fn step_text_spec(exit_code: Option<u32>, j: JournalView) -> Seq<char> {
    match exit_code {
        None => translate(j.lang, j.phase.key()),
        Some(c) => if c == 0 {
            translate(j.lang, "every step succeeded"@)
        } else {
            subst(translate(j.lang, "interrupted during: {0}"@), seq![translate(j.lang, j.phase.key())])
        },
    }
}

pub fn step_text(exit_code: Option<u32>, j: &Journal) -> (r: String)
    ensures
        r@ == step_text_spec(exit_code, j@),
{
    match exit_code {
        None => j.phase.label(j.lang),
        Some(c) => if c == 0 {
            t(j.lang, "every step succeeded")
        } else {
            let s = j.phase.label(j.lang);
            crate::journal::fill1(j.lang, "interrupted during: {0}", chars_of(s.as_str()).as_slice())
        },
    }
}

/// Rows scrolled back into history after moving by `delta`, never below the
/// bottom of the screen.
pub fn scroll_after(scroll: usize, delta: isize) -> (r: usize)
    requires
        scroll + delta <= usize::MAX,
    ensures
        r == (if scroll + delta < 0 {
            0
        } else {
            scroll + delta
        }),
{
    if delta < 0 {
        let d: usize = (0 - (delta as i128)) as usize;
        if d > scroll {
            0
        } else {
            scroll - d
        }
    } else {
        scroll + (delta as usize)
    }
}

/// The size given to the pseudo terminal: at least 4 rows and 20 columns.
pub fn pty_size(rows: u16, cols: u16) -> (r: (u16, u16))
    ensures
        r.0 == (if rows < 4 {
            4
        } else {
            rows
        }),
        r.1 == (if cols < 20 {
            20
        } else {
            cols
        }),
{
    (
        if rows < 4 {
            4
        } else {
            rows
        },
        if cols < 20 {
            20
        } else {
            cols
        },
    )
}

/// A line with no escape character comes out of the cleaning unchanged.
pub proof fn law_plain_text_is_kept(s: Seq<char>)
    requires
        !s.contains('\x1b'),
    ensures
        stripped(s) == s,
{
    lemma_plain_from(s, 0);
    assert(s.skip(0) =~= s);
}

proof fn lemma_plain_from(s: Seq<char>, i: int)
    requires
        0 <= i <= s.len(),
        !s.contains('\x1b'),
    ensures
        stripped_from(s, i) == s.skip(i),
    decreases s.len() - i,
{
    if i < s.len() {
        if s[i] == '\x1b' {
            assert(s.contains('\x1b'));
        }
        lemma_plain_from(s, i + 1);
        assert(seq![s[i]] + s.skip(i + 1) =~= s.skip(i));
    } else {
        assert(s.skip(i) =~= seq![]);
    }
}

} // verus!
