//! Terminal styling for reports: every styled fragment is the text wrapped in an ANSI
//! select-graphic-rendition sequence and a reset.
use vstd::prelude::*;

verus! {

/// The report styles: the state colours and their bold variants, action, metadata and heading.
#[derive(Clone, Copy, PartialEq, Eq, Debug)]
pub enum Tone {
    /// state: OK / present / accepted
    Good,
    /// state: failed / missing / blocked / rejecting diagnostics
    Bad,
    /// state: uncertain or degraded
    Warn,
    /// the next action (fix / next / hint labels)
    Action,
    /// metadata (vantage, seq numbers, captured logs)
    Meta,
    /// headings and verdict titles
    Head,
    /// bold OK
    OkBold,
    /// bold failure
    BadBold,
}

/// The escape sequence that opens a style: effects first (bold `1`, dimmed `2`), then the
/// foreground colour (`32` green, `31` red, `33` yellow, `36` cyan).
pub open spec fn sgr_open(t: Tone) -> Seq<char> {
    match t {
        Tone::Good => seq!['\x1b', '[', '3', '2', 'm'],
        Tone::Bad => seq!['\x1b', '[', '3', '1', 'm'],
        Tone::Warn => seq!['\x1b', '[', '3', '3', 'm'],
        Tone::Action => seq!['\x1b', '[', '3', '6', 'm'],
        Tone::Meta => seq!['\x1b', '[', '2', 'm'],
        Tone::Head => seq!['\x1b', '[', '1', 'm'],
        Tone::OkBold => seq!['\x1b', '[', '1', 'm', '\x1b', '[', '3', '2', 'm'],
        Tone::BadBold => seq!['\x1b', '[', '1', 'm', '\x1b', '[', '3', '1', 'm'],
    }
}

/// The reset sequence written after a styled fragment.
pub open spec fn sgr_reset() -> Seq<char> {
    seq!['\x1b', '[', '0', 'm']
}

/// `text` wrapped in the style's codes.
pub open spec fn painted(t: Tone, text: Seq<char>) -> Seq<char> {
    sgr_open(t) + text + sgr_reset()
}

/// What a style sets: an optional foreground colour among the eight standard ANSI colours
/// (`0` black, `1` red, `2` green, `3` yellow, `4` blue, `5` magenta, `6` cyan, `7` white),
/// and the bold and dimmed effects.
#[derive(Clone, Copy, PartialEq, Eq, Debug)]
pub struct Look {
    pub color: Option<u8>,
    pub bold: bool,
    pub dimmed: bool,
}

/// The look of each report style.
pub open spec fn look_of(t: Tone) -> Look {
    match t {
        Tone::Good => Look { color: Some(2), bold: false, dimmed: false },
        Tone::Bad => Look { color: Some(1), bold: false, dimmed: false },
        Tone::Warn => Look { color: Some(3), bold: false, dimmed: false },
        Tone::Action => Look { color: Some(6), bold: false, dimmed: false },
        Tone::Meta => Look { color: None, bold: false, dimmed: true },
        Tone::Head => Look { color: None, bold: true, dimmed: false },
        Tone::OkBold => Look { color: Some(2), bold: true, dimmed: false },
        Tone::BadBold => Look { color: Some(1), bold: true, dimmed: false },
    }
}

pub fn look(t: Tone) -> (l: Look)
    ensures
        l == look_of(t),
{
    match t {
        Tone::Good => Look { color: Some(2), bold: false, dimmed: false },
        Tone::Bad => Look { color: Some(1), bold: false, dimmed: false },
        Tone::Warn => Look { color: Some(3), bold: false, dimmed: false },
        Tone::Action => Look { color: Some(6), bold: false, dimmed: false },
        Tone::Meta => Look { color: None, bold: false, dimmed: true },
        Tone::Head => Look { color: None, bold: true, dimmed: false },
        Tone::OkBold => Look { color: Some(2), bold: true, dimmed: false },
        Tone::BadBold => Look { color: Some(1), bold: true, dimmed: false },
    }
}

/// A colour index that names one of the eight standard colours.
pub open spec fn look_ok(l: Look) -> bool {
    match l.color {
        Some(i) => i < 8,
        None => true,
    }
}

/// The codes that open a look: the effects (bold `1`, then dimmed `2`), then the foreground
/// colour `3i`.
pub open spec fn look_open(l: Look) -> Seq<char> {
    (if l.bold { seq!['\x1b', '[', '1', 'm'] } else { seq![] }) + (if l.dimmed {
        seq!['\x1b', '[', '2', 'm']
    } else {
        seq![]
    }) + match l.color {
        Some(i) => seq!['\x1b', '[', '3', ((('0' as u8) + i) as char), 'm'],
        None => seq![],
    }
}

/// `text` in a look: its opening codes, the text, and a reset unless the look sets nothing.
pub open spec fn in_look(l: Look, text: Seq<char>) -> Seq<char> {
    look_open(l) + text + if l.color is None && !l.bold && !l.dimmed {
        seq![]
    } else {
        sgr_reset()
    }
}

/// Formats an `anstyle::Style` built from the look (`Ansi256Color(i).into_ansi()` for the
/// colour, `Effects::set` for bold and dimmed) around `text`: `{}` writes the effect codes,
/// then the foreground colour code; `{:#}` writes `ESC[0m` unless the style is plain.
#[verifier::external_body]
fn render(l: Look, text: &str) -> (r: String)
    requires
        look_ok(l),
    ensures
        r@ == in_look(l, text@),
{
    let fg = match l.color {
        Some(i) => anstyle::Ansi256Color(i).into_ansi().map(anstyle::Color::Ansi),
        None => None,
    };
    let fx = anstyle::Effects::new().set(anstyle::Effects::BOLD, l.bold).set(anstyle::Effects::DIMMED, l.dimmed);
    let st = anstyle::Style::new().fg_color(fg).effects(fx);
    format!("{st}{text}{st:#}")
}

/// Wraps `text` in `t`'s escape codes with a reset at the end.
pub fn paint(t: Tone, text: &str) -> (r: String)
    ensures
        r@ == painted(t, text@),
{
    let l = look(t);
    assert(in_look(l, text@) =~= painted(t, text@));
    render(l, text)
}

/// One-column verdict glyph at the start of list-like lines.
#[derive(Clone, Copy, PartialEq, Eq, Debug)]
pub enum Status {
    Good,
    Bad,
    Skip,
    Warn,
}

pub open spec fn glyph_spec(s: Status) -> Seq<char> {
    match s {
        Status::Good => painted(Tone::Good, seq!['✓']),
        Status::Bad => painted(Tone::Bad, seq!['✗']),
        Status::Skip => painted(Tone::Meta, seq!['–']),
        Status::Warn => painted(Tone::Warn, seq!['!']),
    }
}

impl Status {
    pub fn glyph(self) -> (r: String)
        ensures
            r@ == glyph_spec(self),
    {
        let (t, g) = match self {
            Status::Good => (Tone::Good, "✓"),
            Status::Bad => (Tone::Bad, "✗"),
            Status::Skip => (Tone::Meta, "–"),
            Status::Warn => (Tone::Warn, "!"),
        };
        proof {
            reveal_strlit("✓");
            reveal_strlit("✗");
            reveal_strlit("–");
            reveal_strlit("!");
        }
        paint(t, g)
    }
}

/// `{bold title} {dim meta}`.
pub fn heading(title: &str, meta: &str) -> (r: String)
    ensures
        r@ == painted(Tone::Head, title@) + seq![' '] + painted(Tone::Meta, meta@),
{
    let mut r = paint(Tone::Head, title);
    r.append(" ");
    let m = paint(Tone::Meta, meta);
    r.append(m.as_str());
    proof {
        reveal_strlit(" ");
    }
    r
}

} // verus!

verus! {

use crate::strs::{pad_right, push_padded, push_spaces, spaces, views};

/// Row `i` of a hanging-indent block: the first row carries the styled label padded to 9
/// columns, later rows are indented to the same text column.
pub open spec fn labeled_row(label: Seq<char>, t: Tone, i: int, line: Seq<char>) -> Seq<char> {
    if i == 0 {
        seq![' ', ' '] + painted(t, pad_right(label, 9)) + seq![' '] + line + seq!['\n']
    } else {
        seq![' ', ' '] + spaces(9) + seq![' '] + line + seq!['\n']
    }
}

/// The first `n` rows of a hanging-indent block.
pub open spec fn labeled_rows(label: Seq<char>, t: Tone, lines: Seq<Seq<char>>, n: int) -> Seq<char>
    decreases n,
{
    if n <= 0 {
        seq![]
    } else {
        labeled_rows(label, t, lines, n - 1) + labeled_row(label, t, n - 1, lines[n - 1])
    }
}

/// A hanging-indent block: `  <label padded to 9> first-line`, continuation lines aligned
/// to the text column; every line ends with a newline.
pub fn labeled_block(label: &str, t: Tone, lines: &Vec<String>) -> (r: String)
    ensures
        r@ == labeled_rows(label@, t, views(lines@), lines@.len() as int),
{
    let mut out = String::new();
    let mut i: usize = 0;
    while i < lines.len()
        invariant
            i <= lines@.len(),
            out@ == labeled_rows(label@, t, views(lines@), i as int),
        decreases lines@.len() - i,
    {
        let ghost before = out@;
        if i == 0 {
            out.append("  ");
            let mut padded = String::new();
            push_padded(&mut padded, label, 9);
            let p = paint(t, padded.as_str());
            out.append(p.as_str());
            out.append(" ");
        } else {
            out.append("  ");
            push_spaces(&mut out, 9);
            out.append(" ");
        }
        out.append(lines[i].as_str());
        out.append("\n");
        proof {
            reveal_strlit("  ");
            reveal_strlit(" ");
            reveal_strlit("\n");
            assert(views(lines@)[i as int] == lines@[i as int]@);
            assert(out@ =~= before + labeled_row(label@, t, i as int, lines@[i as int]@));
        }
        i = i + 1;
    }
    out
}

} // verus!
