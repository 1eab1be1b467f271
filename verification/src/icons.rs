//! Glyphs from the Material Design set carried by Nerd Fonts, on by default.
//!
//! The one place they cannot work is a bare TTY after a botched upgrade: no
//! patched font is loaded there and every glyph comes out an empty box. That
//! case is detected — `TERM=linux` and its kin mean a console. Outside a
//! console the font cannot be interrogated, so `--no-icons` or `icons = false`
//! in the config file remain for anyone without one.
//!
//! Nothing here carries meaning on its own: every icon sits next to the word
//! it decorates.

use vstd::prelude::*;
use crate::app::Tab;
use crate::text::{
    chars_of, eq_lit, is_ws, lines, split_once, starts_with, str_lines, split_once_at, trim, trimmed,
    views, strs, begins_str,
};

verus! {

/// Whether glyphs are drawn, given the decision taken at startup if any:
/// nothing is drawn until something has been decided.
pub fn enabled(setting: Option<bool>) -> (r: bool)
    ensures
        r == (match setting {
            Some(v) => v,
            None => false,
        }),
{
    match setting {
        Some(v) => v,
        None => false,
    }
}

/// A terminal that cannot draw a patched font, whatever is installed: no
/// `TERM` at all, `linux`, `dumb`, or a `vt…` model. Multiplexers are not
/// listed: they run inside a terminal that may well have the font.
pub open spec fn console(term: Seq<char>) -> bool {
    term.len() == 0 || term == "linux"@ || term == "dumb"@ || starts_with(term, "vt"@)
}

pub fn in_console(term: &str) -> (r: bool)
    ensures
        r == console(term@),
{
    let v = chars_of(term);
    v.len() == 0 || eq_lit(v.as_slice(), "linux") || eq_lit(v.as_slice(), "dumb") || begins_str(
        v.as_slice(),
        "vt",
    )
}

/// A yes in the config file or the environment.
pub open spec fn yes(v: Seq<char>) -> bool {
    v == "1"@ || v == "true"@ || v == "yes"@
}

fn is_yes(v: &[char]) -> (r: bool)
    ensures
        r == yes(v@),
{
    eq_lit(v, "1") || eq_lit(v, "true") || eq_lit(v, "yes")
}

/// Whether a config line sets `icons`: not a comment once trimmed, and
/// `icons` before its first `=`.
pub open spec fn icons_line(l: Seq<char>) -> bool {
    let l = trim(l);
    !starts_with(l, "#"@) && match split_once(l, "="@) {
        Some((k, _)) => trim(k) == "icons"@,
        None => false,
    }
}

/// Value of the first line that sets `icons`, if there is one.
pub open spec fn config_value(ls: Seq<Seq<char>>) -> Option<bool>
    decreases ls.len(),
{
    if ls.len() == 0 {
        None
    } else if icons_line(ls[0]) {
        match split_once(trim(ls[0]), "="@) {
            Some((_, v)) => Some(yes(trim(v))),
            None => None,
        }
    } else {
        config_value(ls.drop_first())
    }
}

/// Reads `icons = …` from the contents of `~/.config/nalarch/config`, one
/// `key = value` per line. `None` when the key is absent, which is not the
/// same as `false`: an unset option leaves the console check to decide.
pub fn from_config(contents: &str) -> (r: Option<bool>)
    ensures
        r == config_value(lines(contents@)),
{
    let ls = str_lines(contents);
    let mut i: usize = 0;
    assert(views(ls@).skip(0) =~= views(ls@));
    while i < ls.len()
        invariant
            i <= ls.len(),
            config_value(views(ls@).skip(i as int)) == config_value(lines(contents@)),
        decreases ls.len() - i,
    {
        let ghost rest = views(ls@).skip(i as int);
        assert(rest[0] == ls@[i as int]@);
        assert(rest.drop_first() =~= views(ls@).skip(i + 1));
        let l = trimmed(ls[i].as_slice());
        if !begins_str(l.as_slice(), "#") {
            if let Some((k, v)) = split_once_at(l.as_slice(), "=") {
                let key = trimmed(k.as_slice());
                if eq_lit(key.as_slice(), "icons") {
                    let val = trimmed(v.as_slice());
                    return Some(is_yes(val.as_slice()));
                }
            }
        }
        i = i + 1;
    }
    None
}

/// The decision taken at startup: `--no-icons` beats `--icons`, which beats
/// `NALARCH_ICONS`, which beats the config file, which beats the console
/// check. An explicit yes is honoured even in a console.
pub open spec fn decision(
    args: Seq<Seq<char>>,
    env: Option<Seq<char>>,
    config: Option<bool>,
    term: Seq<char>,
) -> bool {
    if args.contains("--no-icons"@) {
        false
    } else if args.contains("--icons"@) {
        true
    } else {
        match env {
            Some(v) => yes(v),
            None => match config {
                Some(v) => v,
                None => !console(term),
            },
        }
    }
}

fn has_arg(args: &[String], lit: &str) -> (r: bool)
    ensures
        r == strs(args@).contains(lit@),
{
    let mut i: usize = 0;
    while i < args.len()
        invariant
            i <= args.len(),
            forall|j: int| 0 <= j < i ==> strs(args@)[j] != lit@,
        decreases args.len() - i,
    {
        if eq_lit(&chars_of(args[i].as_str()), lit) {
            assert(strs(args@)[i as int] == lit@);
            return true;
        }
        i = i + 1;
    }
    false
}

/// Decides whether glyphs are drawn, from the arguments, the `NALARCH_ICONS`
/// variable, the config file's setting and `TERM`.
pub fn decide(args: &[String], env: Option<&str>, config: Option<bool>, term: &str) -> (r: bool)
    ensures
        r == decision(
            strs(args@),
            match env {
                Some(v) => Some(v@),
                None => None,
            },
            config,
            term@,
        ),
{
    if has_arg(args, "--no-icons") {
        false
    } else if has_arg(args, "--icons") {
        true
    } else {
        match env {
            Some(v) => is_yes(&chars_of(v)),
            None => match config {
                Some(v) => v,
                None => !in_console(term),
            },
        }
    }
}

/// An icon plus its trailing space, or nothing at all.
pub open spec fn glyph_text(on: bool, c: char) -> Seq<char> {
    if on {
        seq![c, ' ']
    } else {
        seq![]
    }
}

pub fn glyph(on: bool, c: char) -> (r: String)
    ensures
        r@ == glyph_text(on, c),
{
    let mut v: Vec<char> = Vec::new();
    if on {
        v.push(c);
        v.push(' ');
    }
    assert(v@ =~= glyph_text(on, c));
    crate::text::string_of(v.as_slice())
}

pub open spec fn tab_glyph(t: Tab) -> char {
    match t {
        Tab::Updates => '\u{f06b0}',
        Tab::Installed => '\u{f03d7}',
        Tab::Orphans => '\u{f02a0}',
        Tab::History => '\u{f02da}',
        Tab::Search => '\u{f0349}',
        Tab::Cache => '\u{f01bc}',
    }
}

/// The glyph of a tab: a clock with a refresh arrow for updates, a closed box
/// for what is installed, a ghost for orphans, a clock running backwards for
/// the history, a magnifier for search, stacked discs for the cache.
pub fn tab(on: bool, t: Tab) -> (r: String)
    ensures
        r@ == glyph_text(on, tab_glyph(t)),
{
    glyph(
        on,
        match t {
            Tab::Updates => '\u{f06b0}',
            Tab::Installed => '\u{f03d7}',
            Tab::Orphans => '\u{f02a0}',
            Tab::History => '\u{f02da}',
            Tab::Search => '\u{f0349}',
            Tab::Cache => '\u{f01bc}',
        },
    )
}

/// Repository marker. Unknown repositories get no icon rather than a wrong
/// one: third-party repositories are common, and inventing a glyph for each
/// would say something the tool does not know.
pub open spec fn repo_text(on: bool, name: Seq<char>) -> Seq<char> {
    if name == "core"@ {
        glyph_text(on, '\u{f0498}')
    } else if name == "extra"@ {
        glyph_text(on, '\u{f03d6}')
    } else if name == "multilib"@ {
        glyph_text(on, '\u{f0487}')
    } else if name == "aur"@ {
        glyph_text(on, '\u{f08c7}')
    } else {
        seq![]
    }
}

pub fn repo(on: bool, name: &str) -> (r: String)
    ensures
        r@ == repo_text(on, name@),
{
    let n = chars_of(name);
    if eq_lit(n.as_slice(), "core") {
        glyph(on, '\u{f0498}')
    } else if eq_lit(n.as_slice(), "extra") {
        glyph(on, '\u{f03d6}')
    } else if eq_lit(n.as_slice(), "multilib") {
        glyph(on, '\u{f0487}')
    } else if eq_lit(n.as_slice(), "aur") {
        glyph(on, '\u{f08c7}')
    } else {
        String::new()
    }
}

/// Width the repository column reserves for its glyph, so that turning icons
/// on does not shift everything to its right.
pub fn repo_width(on: bool) -> (r: usize)
    ensures
        r == (if on {
            2usize
        } else {
            0usize
        }),
{
    if on {
        2
    } else {
        0
    }
}

} // verus!
