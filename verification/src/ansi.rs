//! Reading terminal color codes back: the text of highlighted output cut into runs of
//! one color, for showing it in a window.
use vstd::prelude::*;
use crate::highlight::{upto, sub_chars, find_from, lemma_upto};
use crate::query::{all_digits, digits_value};
use crate::text::{chars_of, string_of};

verus! {

/// The colors of the window's palette.
#[derive(Clone, Copy, Debug, PartialEq, Eq, Structural)]
pub enum Shade {
    Text,
    Red,
    Green,
    Peach,
    Blue,
    Mauve,
    Sapphire,
    Subtext,
    Pink,
    Teal,
    DarkGray,
    Gray,
    LightRed,
    LightGreen,
    LightYellow,
    LightBlue,
}

/// A run of text shown in one color.
#[derive(Debug)]
pub struct StyledSegment {
    pub text: String,
    pub color: Shade,
}

/// The mathematical value of a [`StyledSegment`].
pub struct Run {
    pub text: Seq<char>,
    pub color: Shade,
}

pub open spec fn runs_of(v: Seq<StyledSegment>) -> Seq<Run> {
    v.map_values(|s: StyledSegment| Run { text: s.text@, color: s.color })
}

/// The palette color of an SGR foreground code.
pub open spec fn ansi_shade(code: u8) -> Option<Shade> {
    if code == 30 { Some(Shade::DarkGray) }
    else if code == 31 { Some(Shade::Red) }
    else if code == 32 { Some(Shade::Green) }
    else if code == 33 { Some(Shade::Peach) }
    else if code == 34 { Some(Shade::Blue) }
    else if code == 35 { Some(Shade::Mauve) }
    else if code == 36 { Some(Shade::Sapphire) }
    else if code == 37 { Some(Shade::Subtext) }
    else if code == 90 { Some(Shade::Gray) }
    else if code == 91 { Some(Shade::LightRed) }
    else if code == 92 { Some(Shade::LightGreen) }
    else if code == 93 { Some(Shade::LightYellow) }
    else if code == 94 { Some(Shade::LightBlue) }
    else if code == 95 { Some(Shade::Pink) }
    else if code == 96 { Some(Shade::Teal) }
    else if code == 97 { Some(Shade::Text) }
    else { None }
}

pub fn ansi_shade_exec(code: u8) -> (res: Option<Shade>)
    ensures
        res == ansi_shade(code),
{
    if code == 30 { Some(Shade::DarkGray) }
    else if code == 31 { Some(Shade::Red) }
    else if code == 32 { Some(Shade::Green) }
    else if code == 33 { Some(Shade::Peach) }
    else if code == 34 { Some(Shade::Blue) }
    else if code == 35 { Some(Shade::Mauve) }
    else if code == 36 { Some(Shade::Sapphire) }
    else if code == 37 { Some(Shade::Subtext) }
    else if code == 90 { Some(Shade::Gray) }
    else if code == 91 { Some(Shade::LightRed) }
    else if code == 92 { Some(Shade::LightGreen) }
    else if code == 93 { Some(Shade::LightYellow) }
    else if code == 94 { Some(Shade::LightBlue) }
    else if code == 95 { Some(Shade::Pink) }
    else if code == 96 { Some(Shade::Teal) }
    else if code == 97 { Some(Shade::Text) }
    else { None }
}

/// What `str::parse::<u8>` gives: an optional `+` and at least one decimal digit,
/// nothing else, of a value below 256.
pub open spec fn parsed_u8(s: Seq<char>) -> Option<u8> {
    let digits = if s.len() > 0 && s[0] == '+' { s.skip(1) } else { s };
    if digits.len() == 0 || !all_digits(digits) || digits_value(digits) > 255 {
        None
    } else {
        Some(digits_value(digits) as u8)
    }
}

/// std: `str::parse::<u8>`, which reads an optional `+` followed by decimal digits and
/// nothing else, and fails where the value is above 255.
#[verifier::external_body]
fn parse_u8(s: &str) -> (res: Option<u8>)
    ensures
        res == parsed_u8(s@),
{
    s.parse::<u8>().ok()
}

/// The foreground after one `;`-separated part of a code: `0` resets it, `1` (bold)
/// leaves it, a known color number sets it; anything else leaves it.
pub open spec fn apply_part(fg: Option<Shade>, part: Seq<char>) -> Option<Shade> {
    if part == seq!['0'] {
        None
    } else if part == seq!['1'] {
        fg
    } else {
        match parsed_u8(part) {
            Some(n) => match ansi_shade(n) {
                Some(c) => Some(c),
                None => fg,
            },
            None => fg,
        }
    }
}

/// The foreground after the parts of a code from position `p` on.
pub open spec fn apply_code(fg: Option<Shade>, code: Seq<char>, p: int) -> Option<Shade>
    decreases code.len() - p,
{
    if p < 0 || p > code.len() {
        fg
    } else {
        let k = upto(code, p, ';');
        let f2 = apply_part(fg, code.subrange(p, k));
        if p <= k < code.len() {
            apply_code(f2, code, k + 1)
        } else {
            f2
        }
    }
}

pub open spec fn flushed(buf: Seq<char>, fg: Option<Shade>) -> Seq<Run> {
    if buf.len() > 0 {
        seq![Run { text: buf, color: match fg { Some(c) => c, None => Shade::Text } }]
    } else {
        seq![]
    }
}

/// The runs of text from position `i` on, with `buf` pending in foreground `fg`.  An
/// escape character always takes the character after it: with `[` they begin a code,
/// read up to `m`; with anything else the escape is kept as text and the character after
/// it is dropped.
pub open spec fn ansi_from(s: Seq<char>, i: int, buf: Seq<char>, fg: Option<Shade>) -> Seq<Run>
    decreases s.len() - i,
{
    if i < 0 || i >= s.len() {
        flushed(buf, fg)
    } else if s[i] == '\x1b' && i + 1 < s.len() && s[i + 1] == '[' {
        let m = upto(s, i + 2, 'm');
        let code = s.subrange(i + 2, m);
        let next = if m < s.len() { m + 1 } else { s.len() as int };
        if i < next <= s.len() {
            flushed(buf, fg) + ansi_from(s, next, seq![], apply_code(fg, code, 0))
        } else {
            flushed(buf, fg)
        }
    } else if s[i] == '\x1b' {
        ansi_from(s, if i + 2 <= s.len() { i + 2 } else { s.len() as int }, buf.push(s[i]), fg)
    } else {
        ansi_from(s, i + 1, buf.push(s[i]), fg)
    }
}

/// The text of runs, one after the other.
pub open spec fn runs_text(rs: Seq<Run>) -> Seq<char>
    decreases rs.len(),
{
    if rs.len() == 0 {
        seq![]
    } else {
        runs_text(rs.drop_last()) + rs.last().text
    }
}

/// The runs of one color that highlighted text shows.
pub open spec fn ansi_runs(s: Seq<char>) -> Seq<Run> {
    ansi_from(s, 0, seq![], None)
}

fn push_run(out: &mut Vec<StyledSegment>, buf: &Vec<char>, fg: Option<Shade>)
    ensures
        runs_of(final(out)@) == runs_of(old(out)@) + flushed(buf@, fg),
{
    let ghost before = runs_of(out@);
    if buf.len() > 0 {
        let color = match fg {
            Some(c) => c,
            None => Shade::Text,
        };
        let ghost ob = out@;
        out.push(StyledSegment { text: string_of(buf.as_slice()), color });
        assert(runs_of(out@) =~= runs_of(ob) + flushed(buf@, fg));
    } else {
        assert(runs_of(out@) =~= before + flushed(buf@, fg));
    }
}

/// Applies the parts of a code to the foreground.
fn apply_code_exec(fg: Option<Shade>, code: &Vec<char>) -> (res: Option<Shade>)
    ensures
        res == apply_code(fg, code@, 0),
{
    let ghost c = code@;
    let n = code.len();
    let mut f = fg;
    let mut p: usize = 0;
    loop
        invariant
            n == c.len(),
            c == code@,
            p <= n,
            apply_code(fg, c, 0) == apply_code(f, c, p as int),
        decreases n - p,
    {
        proof {
            lemma_upto(c, p as int, ';');
        }
        let k = find_from(code, p, ';');
        let part = sub_chars(code, p, k);
        let part_s = string_of(part.as_slice());
        let is0 = part.len() == 1 && part[0] == '0';
        let is1 = part.len() == 1 && part[0] == '1';
        proof {
            if is0 { assert(part@ =~= seq!['0']); }
            if is1 { assert(part@ =~= seq!['1']); }
            if part@ == seq!['0'] || part@ == seq!['1'] { assert(part@.len() == 1); }
        }
        if is0 {
            f = None;
        } else if is1 {
        } else {
            match parse_u8(part_s.as_str()) {
                Some(num) => {
                    match ansi_shade_exec(num) {
                        Some(col) => {
                            f = Some(col);
                        },
                        None => {},
                    }
                },
                None => {},
            }
        }
        if k < n {
            p = k + 1;
        } else {
            return f;
        }
    }
}

/// Cuts highlighted text into runs of one color, reading the escape codes that
/// terminal colors are written with.
pub fn parse_ansi(text: &str) -> (res: Vec<StyledSegment>)
    ensures
        runs_of(res@) == ansi_runs(text@),
{
    let cs = chars_of(text);
    let ghost s = cs@;
    let n = cs.len();
    let mut out: Vec<StyledSegment> = Vec::new();
    let mut buf: Vec<char> = Vec::new();
    let mut fg: Option<Shade> = None;
    let mut i: usize = 0;
    assert(runs_of(out@) =~= seq![]);
    while i < n
        invariant
            n == s.len(),
            s == cs@,
            i <= n,
            runs_of(out@) + ansi_from(s, i as int, buf@, fg) == ansi_runs(s),
        decreases n - i,
    {
        let ghost before = runs_of(out@);
        let ghost b0 = buf@;
        let ghost f0 = fg;
        if cs[i] == '\x1b' && i + 1 < n && cs[i + 1] == '[' {
            proof {
                lemma_upto(s, i + 2, 'm');
            }
            push_run(&mut out, &buf, fg);
            buf = Vec::new();
            let m = find_from(&cs, i + 2, 'm');
            let code = sub_chars(&cs, i + 2, m);
            fg = apply_code_exec(fg, &code);
            let old_i = i;
            i = if m < n { m + 1 } else { n };
            proof {
                assert(ansi_from(s, old_i as int, b0, f0) == flushed(b0, f0) + ansi_from(s, i as int, buf@, fg));
                assert(before + ansi_from(s, old_i as int, b0, f0) =~= runs_of(out@) + ansi_from(s, i as int, buf@, fg));
            }
        } else if cs[i] == '\x1b' {
            buf.push(cs[i]);
            i = if n - i >= 2 { i + 2 } else { n };
        } else {
            buf.push(cs[i]);
            i = i + 1;
        }
    }
    push_run(&mut out, &buf, fg);
    proof {
        assert(ansi_from(s, i as int, buf@, fg) == flushed(buf@, fg));
    }
    out
}

} // verus!
