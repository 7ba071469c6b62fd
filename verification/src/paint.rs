//! Colored terminal output.
//!
//! Every highlighter of the library first cuts its input into [`Piece`]s, each a run
//! of text with the paint it is shown in, and then [`render`]s them.  Painting goes
//! through the `colored` crate, which decides from the process environment whether
//! escape codes are written at all; so the contracts here say, of each piece, that it
//! is shown either as its bare text or wrapped in the escape codes of its paint.
use vstd::prelude::*;
use colored::Colorize;
use crate::text::{string_of, copy_chars};

verus! {

/// A foreground color of the terminal palette.
#[derive(Clone, Copy, Debug, PartialEq, Eq, Structural)]
pub enum Hue {
    Green,
    Yellow,
    Blue,
    Magenta,
    Cyan,
    White,
    BrightBlack,
}

/// How a piece of text is shown.
#[derive(Clone, Copy, Debug, PartialEq, Eq, Structural)]
pub enum Paint {
    Plain,
    Fg(Hue),
    BoldFg(Hue),
}

/// A run of output text together with its paint.
#[derive(Debug)]
pub struct Piece {
    pub text: Vec<char>,
    pub paint: Paint,
}

/// The mathematical value of a [`Piece`].
pub struct Span {
    pub text: Seq<char>,
    pub paint: Paint,
}

impl View for Piece {
    type V = Span;

    open spec fn view(&self) -> Span {
        Span { text: self.text@, paint: self.paint }
    }
}

pub open spec fn span(text: Seq<char>, paint: Paint) -> Span {
    Span { text, paint }
}

pub open spec fn spans_of(ps: Seq<Piece>) -> Seq<Span> {
    ps.map_values(|p: Piece| p@)
}

/// The SGR number of a hue.
pub open spec fn hue_code(h: Hue) -> Seq<char> {
    match h {
        Hue::Green => seq!['3', '2'],
        Hue::Yellow => seq!['3', '3'],
        Hue::Blue => seq!['3', '4'],
        Hue::Magenta => seq!['3', '5'],
        Hue::Cyan => seq!['3', '6'],
        Hue::White => seq!['3', '7'],
        Hue::BrightBlack => seq!['9', '0'],
    }
}

/// The escape sequence that switches a paint on.
pub open spec fn style_seq(p: Paint) -> Seq<char> {
    match p {
        Paint::Plain => seq![],
        Paint::Fg(h) => seq!['\x1b', '['] + hue_code(h) + seq!['m'],
        Paint::BoldFg(h) => seq!['\x1b', '[', '1', ';'] + hue_code(h) + seq!['m'],
    }
}

/// The escape sequence that resets all attributes.
pub open spec fn reset_seq() -> Seq<char> {
    seq!['\x1b', '[', '0', 'm']
}

/// `s` with the style sequence inserted after every reset sequence it holds, so that
/// a reset inside painted text does not end the paint.
pub open spec fn reset_escaped(s: Seq<char>, style: Seq<char>) -> Seq<char>
    decreases s.len(),
{
    if s.len() == 0 {
        seq![]
    } else if s.len() >= 4 && s.take(4) == reset_seq() {
        reset_seq() + style + reset_escaped(s.skip(4), style)
    } else {
        seq![s[0]] + reset_escaped(s.skip(1), style)
    }
}

/// `text` shown in paint `p` on a terminal that takes colors.
pub open spec fn painted(p: Paint, text: Seq<char>) -> Seq<char> {
    style_seq(p) + reset_escaped(text, style_seq(p)) + reset_seq()
}

/// How a span is shown, where `colors` tells whether escape codes were written.
pub open spec fn shown(s: Span, colors: bool) -> Seq<char> {
    if colors && s.paint != Paint::Plain {
        painted(s.paint, s.text)
    } else {
        s.text
    }
}

/// The spans shown one after the other, the i-th with colors as `colors[i]` says.
pub open spec fn shown_all(ss: Seq<Span>, colors: Seq<bool>) -> Seq<char>
    decreases ss.len(),
{
    if ss.len() == 0 {
        seq![]
    } else {
        shown_all(ss.drop_last(), colors.drop_last()) + shown(ss.last(), colors.last())
    }
}

/// The text of the spans, without any escape codes.
pub open spec fn plain_text(ss: Seq<Span>) -> Seq<char>
    decreases ss.len(),
{
    if ss.len() == 0 {
        seq![]
    } else {
        plain_text(ss.drop_last()) + ss.last().text
    }
}

/// `out` is what the terminal gets for `ss`: each span either bare or painted.
pub open spec fn is_rendering(ss: Seq<Span>, out: Seq<char>) -> bool {
    exists|colors: Seq<bool>| colors.len() == ss.len() && out == #[trigger] shown_all(ss, colors)
}

/// `colored`: `Colorize::color` on a string slice, then `Display` through `to_string`.
/// Colors are written only when the environment allows them; then the text is wrapped
/// in the foreground's escape code and a reset, with the code repeated after every
/// reset that the text itself holds.
#[verifier::external_body]
fn colored_fg(text: &str, hue: Hue) -> (res: String)
    ensures
        res@ == text@ || res@ == painted(Paint::Fg(hue), text@),
{
    let c = match hue {
        Hue::Green => colored::Color::Green,
        Hue::Yellow => colored::Color::Yellow,
        Hue::Blue => colored::Color::Blue,
        Hue::Magenta => colored::Color::Magenta,
        Hue::Cyan => colored::Color::Cyan,
        Hue::White => colored::Color::White,
        Hue::BrightBlack => colored::Color::BrightBlack,
    };
    text.color(c).to_string()
}

/// `colored`: `Colorize::color` and then `Colorize::bold` on a string slice, shown with
/// `to_string`; as [`colored_fg`], with the bold attribute before the color code.
#[verifier::external_body]
fn colored_bold_fg(text: &str, hue: Hue) -> (res: String)
    ensures
        res@ == text@ || res@ == painted(Paint::BoldFg(hue), text@),
{
    let c = match hue {
        Hue::Green => colored::Color::Green,
        Hue::Yellow => colored::Color::Yellow,
        Hue::Blue => colored::Color::Blue,
        Hue::Magenta => colored::Color::Magenta,
        Hue::Cyan => colored::Color::Cyan,
        Hue::White => colored::Color::White,
        Hue::BrightBlack => colored::Color::BrightBlack,
    };
    text.color(c).bold().to_string()
}

/// A piece holding a copy of `text`.
pub fn piece(text: &[char], paint: Paint) -> (res: Piece)
    ensures
        res@ == span(text@, paint),
{
    Piece { text: copy_chars(text), paint }
}

/// A piece of one character.
pub fn piece1(c: char, paint: Paint) -> (res: Piece)
    ensures
        res@ == span(seq![c], paint),
{
    let mut v: Vec<char> = Vec::new();
    v.push(c);
    assert(v@ =~= seq![c]);
    Piece { text: v, paint }
}

/// The paint to use, given whether colors are turned off.
pub open spec fn tint(no_color: bool, p: Paint) -> Paint {
    if no_color {
        Paint::Plain
    } else {
        p
    }
}

pub fn tint_exec(no_color: bool, p: Paint) -> (res: Paint)
    ensures
        res == tint(no_color, p),
{
    if no_color {
        Paint::Plain
    } else {
        p
    }
}

/// Appends a piece with a copy of `text`.
pub fn push_text(out: &mut Vec<Piece>, text: &[char], paint: Paint)
    ensures
        spans_of(final(out)@) == spans_of(old(out)@).push(span(text@, paint)),
{
    push_piece(out, piece(text, paint));
}

/// Appends a piece of one character.
pub fn push_char_piece(out: &mut Vec<Piece>, c: char, paint: Paint)
    ensures
        spans_of(final(out)@) == spans_of(old(out)@).push(span(seq![c], paint)),
{
    push_piece(out, piece1(c, paint));
}

/// Appends a piece to a list of pieces.
pub fn push_piece(out: &mut Vec<Piece>, p: Piece)
    ensures
        spans_of(final(out)@) == spans_of(old(out)@).push(p@),
{
    let ghost before = out@;
    out.push(p);
    assert(spans_of(out@) =~= spans_of(before).push(p@));
}

/// Shows a single piece on the terminal.
fn render_piece(p: &Piece) -> (res: String)
    ensures
        res@ == shown(p@, false) || res@ == shown(p@, true),
{
    let s = string_of(p.text.as_slice());
    match p.paint {
        Paint::Plain => s,
        Paint::Fg(h) => colored_fg(s.as_str(), h),
        Paint::BoldFg(h) => colored_bold_fg(s.as_str(), h),
    }
}

/// The text that the terminal gets for a list of pieces.
pub fn render(ps: &Vec<Piece>) -> (res: String)
    ensures
        is_rendering(spans_of(ps@), res@),
{
    let mut out = String::new();
    let ghost mut colors: Seq<bool> = seq![];
    let mut i: usize = 0;
    while i < ps.len()
        invariant
            i <= ps@.len(),
            colors.len() == i,
            out@ == shown_all(spans_of(ps@).take(i as int), colors),
        decreases ps@.len() - i,
    {
        let r = render_piece(&ps[i]);
        let ghost c: bool = r@ != shown(ps@[i as int]@, false);
        proof {
            let ss = spans_of(ps@).take(i + 1);
            assert(ss.drop_last() =~= spans_of(ps@).take(i as int));
            assert(colors.push(c).drop_last() =~= colors);
        }
        out.append(r.as_str());
        proof {
            colors = colors.push(c);
        }
        i = i + 1;
    }
    assert(spans_of(ps@).take(ps@.len() as int) =~= spans_of(ps@));
    out
}

/// The text of a list of pieces, with no escape codes.
pub fn render_plain(ps: &Vec<Piece>) -> (res: String)
    ensures
        res@ == plain_text(spans_of(ps@)),
{
    let mut out = String::new();
    let mut i: usize = 0;
    while i < ps.len()
        invariant
            i <= ps@.len(),
            out@ == plain_text(spans_of(ps@).take(i as int)),
        decreases ps@.len() - i,
    {
        let s = string_of(ps[i].text.as_slice());
        proof {
            let ss = spans_of(ps@).take(i + 1);
            assert(ss.drop_last() =~= spans_of(ps@).take(i as int));
        }
        out.append(s.as_str());
        i = i + 1;
    }
    assert(spans_of(ps@).take(ps@.len() as int) =~= spans_of(ps@));
    out
}

} // verus!
