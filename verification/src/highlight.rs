//! Syntax highlighting of JSON and XML text.
use vstd::prelude::*;
use crate::text::{chars_of, concat_chars, decimal, decimal_chars};
use crate::json::{JsonData, JsonKind, json_model, models, object_entries, array_items, json_kind, json_entries, json_items, json_str, json_number_text, json_bool};
use serde_json::Value;
use crate::xml::{XmlEvent, XmlKind, xml_events, pending_events, well_ended, is_terminal, tag_name, tag_attributes, unescaped_xml, xml_reader, xml_read_event, xml_unescape, xml_attributes};
use crate::text::{trim, trim_spec, string_of};
use crate::errors::SpruceError;
use crate::paint::{tint, tint_exec, push_text, push_char_piece, render_plain, plain_text, Hue, Paint, Piece, Span, span, spans_of, is_rendering, render, piece, piece1, push_piece};

verus! {

// ---------------------------------------------------------------------------
// Character helpers
// ---------------------------------------------------------------------------

pub open spec fn is_digit(c: char) -> bool {
    '0' <= c && c <= '9'
}

/// A character that continues a number once one has begun.
pub open spec fn is_num_char(c: char) -> bool {
    is_digit(c) || c == '.' || c == '-' || c == 'e' || c == 'E' || c == '+'
}

/// The first position at or after `k` that does not hold a number character.
pub open spec fn num_end(s: Seq<char>, k: int) -> int
    decreases s.len() - k,
{
    if 0 <= k < s.len() && is_num_char(s[k]) {
        num_end(s, k + 1)
    } else {
        k
    }
}

pub open spec fn min(a: int, b: int) -> int {
    if a <= b {
        a
    } else {
        b
    }
}

pub open spec fn lit_true() -> Seq<char> {
    seq!['t', 'r', 'u', 'e']
}

pub open spec fn lit_false() -> Seq<char> {
    seq!['f', 'a', 'l', 's', 'e']
}

pub open spec fn lit_null() -> Seq<char> {
    seq!['n', 'u', 'l', 'l']
}

pub open spec fn one(c: char, p: Paint) -> Seq<Span> {
    seq![span(seq![c], p)]
}

// ---------------------------------------------------------------------------
// JSON
// ---------------------------------------------------------------------------

/// Whether `c` is white space between JSON tokens.
pub open spec fn is_json_space(c: char) -> bool {
    c == ' ' || c == '\t' || c == '\n' || c == '\r'
}

/// The position of the quote that closes a string whose characters start at `k`, or
/// the length of `s` where none does; `esc` says that a backslash escapes the character
/// at `k`.
pub open spec fn string_close(s: Seq<char>, k: int, esc: bool) -> int
    decreases s.len() - k,
{
    if k < 0 || k >= s.len() {
        s.len() as int
    } else if esc {
        string_close(s, k + 1, false)
    } else if s[k] == '\\' {
        string_close(s, k + 1, true)
    } else if s[k] == '"' {
        k
    } else {
        string_close(s, k + 1, false)
    }
}

/// The first position at or after `k` that does not hold JSON white space.
pub open spec fn skip_space(s: Seq<char>, k: int) -> int
    decreases s.len() - k,
{
    if 0 <= k < s.len() && is_json_space(s[k]) {
        skip_space(s, k + 1)
    } else {
        k
    }
}

/// Whether the string that the quote at `i` opens is an object key: after its closing
/// quote and any white space comes a colon.
pub open spec fn opens_key(s: Seq<char>, i: int) -> bool {
    let q = string_close(s, i + 1, false);
    let c = skip_space(s, q + 1);
    q < s.len() && 0 <= c < s.len() && s[c] == ':'
}

/// One step of the JSON highlighter at position `i`: the spans it emits, the next
/// position, and whether it is then inside a string, just after a backslash there, and
/// inside a key.
///
/// Keys are cyan and other strings green, quotes included, with their escapes in
/// yellow; brackets are bold white, commas and colons white; numbers and the keywords
/// `true`, `false` and `null` magenta.  A keyword is recognised from as many letters
/// as it has, read from its first letter on.
pub open spec fn hj_step(s: Seq<char>, i: int, ins: bool, esc: bool, key: bool) -> (Seq<Span>, int, bool, bool, bool) {
    let ch = s[i];
    if ins {
        let p = if key { Paint::Fg(Hue::Cyan) } else { Paint::Fg(Hue::Green) };
        if esc {
            (one(ch, Paint::Fg(Hue::Yellow)), i + 1, true, false, key)
        } else if ch == '\\' {
            (one(ch, Paint::Fg(Hue::Yellow)), i + 1, true, true, key)
        } else if ch == '"' {
            (one(ch, p), i + 1, false, false, false)
        } else {
            (one(ch, p), i + 1, true, false, key)
        }
    } else if ch == '"' {
        let k = opens_key(s, i);
        (one(ch, if k { Paint::Fg(Hue::Cyan) } else { Paint::Fg(Hue::Green) }), i + 1, true, false, k)
    } else if ch == '{' || ch == '}' || ch == '[' || ch == ']' {
        (one(ch, Paint::BoldFg(Hue::White)), i + 1, false, esc, key)
    } else if ch == ',' {
        (one(ch, Paint::Fg(Hue::White)), i + 1, false, esc, key)
    } else if ch == ':' {
        if i + 1 < s.len() && s[i + 1] == ' ' {
            (one(ch, Paint::Fg(Hue::White)) + one(' ', Paint::Plain), i + 2, false, esc, key)
        } else {
            (one(ch, Paint::Fg(Hue::White)), i + 1, false, esc, key)
        }
    } else if is_digit(ch) || ch == '-' || ch == '.' {
        let e = num_end(s, i + 1);
        (seq![span(s.subrange(i, e), Paint::Fg(Hue::Magenta))], e, false, esc, key)
    } else if ch == 't' || ch == 'f' || ch == 'n' {
        let word = if ch == 't' { lit_true() } else if ch == 'f' { lit_false() } else { lit_null() };
        let e = min(i + word.len(), s.len() as int);
        let w = s.subrange(i, e);
        let p = if w == word { Paint::Fg(Hue::Magenta) } else { Paint::Plain };
        (seq![span(w, p)], e, false, esc, key)
    } else {
        (one(ch, Paint::Plain), i + 1, false, esc, key)
    }
}

/// The spans of the JSON highlighter from position `i` on.
pub open spec fn hj_from(s: Seq<char>, i: int, ins: bool, esc: bool, key: bool) -> Seq<Span>
    decreases s.len() - i,
{
    if 0 <= i < s.len() {
        let (sp, j, a, b, c) = hj_step(s, i, ins, esc, key);
        if i < j <= s.len() {
            sp + hj_from(s, j, a, b, c)
        } else {
            seq![]
        }
    } else {
        seq![]
    }
}

/// The spans into which the highlighter cuts JSON text.
pub open spec fn json_spans(s: Seq<char>) -> Seq<Span> {
    hj_from(s, 0, false, false, false)
}

pub proof fn lemma_num_end(s: Seq<char>, k: int)
    requires
        0 <= k <= s.len(),
    ensures
        k <= num_end(s, k) <= s.len(),
        forall|j: int| k <= j < num_end(s, k) ==> is_num_char(#[trigger] s[j]),
    decreases s.len() - k,
{
    if k < s.len() && is_num_char(s[k]) {
        lemma_num_end(s, k + 1);
    }
}

/// The position of the quote that closes a string whose characters start at `k`.
fn find_string_close(cs: &Vec<char>, k: usize) -> (res: usize)
    requires
        k <= cs@.len(),
    ensures
        res == string_close(cs@, k as int, false),
        k <= res <= cs@.len(),
{
    let mut j = k;
    let mut e = false;
    while j < cs.len()
        invariant
            k <= j <= cs@.len(),
            string_close(cs@, k as int, false) == string_close(cs@, j as int, e),
        decreases cs@.len() - j,
    {
        if e {
            e = false;
        } else if cs[j] == '\\' {
            e = true;
        } else if cs[j] == '"' {
            return j;
        }
        j = j + 1;
    }
    j
}

/// The first position at or after `k` that does not hold JSON white space.
fn skip_json_space(cs: &Vec<char>, k: usize) -> (res: usize)
    requires
        k <= cs@.len(),
    ensures
        res == skip_space(cs@, k as int),
{
    let mut j = k;
    while j < cs.len() && (cs[j] == ' ' || cs[j] == '\t' || cs[j] == '\n' || cs[j] == '\r')
        invariant
            k <= j <= cs@.len(),
            skip_space(cs@, k as int) == skip_space(cs@, j as int),
        decreases cs@.len() - j,
    {
        j = j + 1;
    }
    j
}

/// Whether the string that the quote at `i` opens is an object key.
fn is_key_at(cs: &Vec<char>, i: usize) -> (res: bool)
    requires
        i < cs@.len(),
    ensures
        res == opens_key(cs@, i as int),
{
    let n = cs.len();
    let q = find_string_close(cs, i + 1);
    if q >= n {
        return false;
    }
    let c = skip_json_space(cs, q + 1);
    c < n && cs[c] == ':'
}

/// The characters `cs[from..to]`.
pub fn sub_chars(cs: &Vec<char>, from: usize, to: usize) -> (res: Vec<char>)
    requires
        from <= to <= cs@.len(),
    ensures
        res@ == cs@.subrange(from as int, to as int),
{
    let mut out: Vec<char> = Vec::new();
    let mut i = from;
    while i < to
        invariant
            from <= i <= to <= cs@.len(),
            out@ == cs@.subrange(from as int, i as int),
        decreases to - i,
    {
        out.push(cs[i]);
        i = i + 1;
        assert(out@ =~= cs@.subrange(from as int, i as int));
    }
    out
}

/// Whether `cs[from..to]` spells `word`.
fn spells(cs: &Vec<char>, from: usize, to: usize, word: &Vec<char>) -> (res: bool)
    requires
        from <= to <= cs@.len(),
    ensures
        res == (cs@.subrange(from as int, to as int) == word@),
{
    if to - from != word.len() {
        assert(cs@.subrange(from as int, to as int).len() != word@.len());
        return false;
    }
    let mut k: usize = 0;
    while k < word.len()
        invariant
            to - from == word@.len(),
            from <= to <= cs@.len(),
            k <= word@.len(),
            forall|j: int| 0 <= j < k ==> cs@[from + j] == word@[j],
        decreases word@.len() - k,
    {
        if cs[from + k] != word[k] {
            assert(cs@.subrange(from as int, to as int)[k as int] != word@[k as int]);
            return false;
        }
        k = k + 1;
    }
    assert(cs@.subrange(from as int, to as int) =~= word@);
    true
}

fn word_true() -> (res: Vec<char>)
    ensures
        res@ == lit_true(),
{
    let v = vec!['t', 'r', 'u', 'e'];
    assert(v@ =~= lit_true());
    v
}

fn word_false() -> (res: Vec<char>)
    ensures
        res@ == lit_false(),
{
    let v = vec!['f', 'a', 'l', 's', 'e'];
    assert(v@ =~= lit_false());
    v
}

fn word_null() -> (res: Vec<char>)
    ensures
        res@ == lit_null(),
{
    let v = vec!['n', 'u', 'l', 'l'];
    assert(v@ =~= lit_null());
    v
}

/// Cuts JSON text into the pieces in which it is highlighted.
pub fn json_pieces(json: &str) -> (res: Vec<Piece>)
    ensures
        spans_of(res@) == json_spans(json@),
{
    let cs = chars_of(json);
    let ghost s = cs@;
    let n = cs.len();
    let t = word_true();
    let f = word_false();
    let nl = word_null();
    let mut out: Vec<Piece> = Vec::new();
    let mut i: usize = 0;
    let mut ins = false;
    let mut esc = false;
    let mut key = false;
    assert(spans_of(out@) =~= seq![]);
    while i < n
        invariant
            n == s.len(),
            s == cs@,
            s == json@,
            i <= n,
            t@ == lit_true(),
            f@ == lit_false(),
            nl@ == lit_null(),
            spans_of(out@) + hj_from(s, i as int, ins, esc, key) == json_spans(s),
        decreases n - i,
    {
        let ghost before = spans_of(out@);
        let ghost old_ins = ins;
        let ghost old_esc = esc;
        let ghost old_key = key;
        let ghost (sp, j, a, b, c) = hj_step(s, i as int, ins, esc, key);
        let ch = cs[i];
        let next: usize;
        if ins {
            let p = if key { Paint::Fg(Hue::Cyan) } else { Paint::Fg(Hue::Green) };
            if esc {
                push_piece(&mut out, piece1(ch, Paint::Fg(Hue::Yellow)));
                esc = false;
            } else if ch == '\\' {
                push_piece(&mut out, piece1(ch, Paint::Fg(Hue::Yellow)));
                esc = true;
            } else if ch == '"' {
                push_piece(&mut out, piece1(ch, p));
                ins = false;
                key = false;
            } else {
                push_piece(&mut out, piece1(ch, p));
            }
            next = i + 1;
        } else if ch == '"' {
            ins = true;
            esc = false;
            key = is_key_at(&cs, i);
            if key {
                push_piece(&mut out, piece1(ch, Paint::Fg(Hue::Cyan)));
            } else {
                push_piece(&mut out, piece1(ch, Paint::Fg(Hue::Green)));
            }
            next = i + 1;
        } else if ch == '{' || ch == '}' || ch == '[' || ch == ']' {
            push_piece(&mut out, piece1(ch, Paint::BoldFg(Hue::White)));
            next = i + 1;
        } else if ch == ',' {
            push_piece(&mut out, piece1(ch, Paint::Fg(Hue::White)));
            next = i + 1;
        } else if ch == ':' {
            push_piece(&mut out, piece1(ch, Paint::Fg(Hue::White)));
            if i + 1 < n && cs[i + 1] == ' ' {
                push_piece(&mut out, piece1(' ', Paint::Plain));
                next = i + 2;
            } else {
                next = i + 1;
            }
        } else if ('0' <= ch && ch <= '9') || ch == '-' || ch == '.' {
            proof {
                lemma_num_end(s, i + 1);
            }
            let mut k = i + 1;
            while k < n && (('0' <= cs[k] && cs[k] <= '9') || cs[k] == '.' || cs[k] == '-'
                || cs[k] == 'e' || cs[k] == 'E' || cs[k] == '+')
                invariant
                    n == s.len(),
                    s == cs@,
                    i + 1 <= k <= n,
                    num_end(s, i + 1) == num_end(s, k as int),
                decreases n - k,
            {
                k = k + 1;
            }
            push_piece(&mut out, piece(sub_chars(&cs, i, k).as_slice(), Paint::Fg(Hue::Magenta)));
            next = k;
        } else if ch == 't' || ch == 'f' || ch == 'n' {
            let word = if ch == 't' { &t } else if ch == 'f' { &f } else { &nl };
            let e = if n - i >= word.len() { i + word.len() } else { n };
            let paint = if spells(&cs, i, e, word) { Paint::Fg(Hue::Magenta) } else { Paint::Plain };
            push_piece(&mut out, piece(sub_chars(&cs, i, e).as_slice(), paint));
            next = e;
        } else {
            push_piece(&mut out, piece1(ch, Paint::Plain));
            next = i + 1;
        }
        proof {
            assert(j == next);
            assert(a == ins && b == esc && c == key);
            assert(spans_of(out@) =~= before + sp);
            assert(hj_from(s, i as int, old_ins, old_esc, old_key) == sp + hj_from(s, j, a, b, c));
            assert(before + hj_from(s, i as int, old_ins, old_esc, old_key) =~= spans_of(out@) + hj_from(
                s,
                j,
                a,
                b,
                c,
            ));
        }
        i = next;
    }
    assert(spans_of(out@) =~= json_spans(s));
    out
}

/// Highlights JSON syntax with color.  With `no_color` the text comes back as it is.
pub fn highlight_json(json: &str, no_color: bool) -> (res: String)
    ensures
        no_color ==> res@ == json@,
        !no_color ==> is_rendering(json_spans(json@), res@),
{
    if no_color {
        return json.to_string();
    }
    let ps = json_pieces(json);
    render(&ps)
}

// ---------------------------------------------------------------------------
// XML
// ---------------------------------------------------------------------------

/// The first position at or after `k` that holds `c`, or the length of `s`.
pub open spec fn upto(s: Seq<char>, k: int, c: char) -> int
    decreases s.len() - k,
{
    if k < 0 || k >= s.len() {
        s.len() as int
    } else if s[k] == c {
        k
    } else {
        upto(s, k + 1, c)
    }
}

/// The end of a processing instruction whose text runs from `k`: just after the first
/// `?>`, or the end of the input.
pub open spec fn pi_end(s: Seq<char>, k: int) -> int
    decreases s.len() - k,
{
    if k < 0 || k >= s.len() {
        s.len() as int
    } else if s[k] == '?' && k + 1 < s.len() && s[k + 1] == '>' {
        k + 2
    } else {
        pi_end(s, k + 1)
    }
}

/// The end of a comment whose body runs from `k`: just after the first `-->` found by
/// taking dashes two at a time, or the end of the input.
pub open spec fn comment_end(s: Seq<char>, k: int) -> int
    decreases s.len() - k,
{
    if k < 0 || k >= s.len() {
        s.len() as int
    } else if s[k] == '-' && k + 1 < s.len() && s[k + 1] == '-' {
        if k + 2 < s.len() && s[k + 2] == '>' {
            k + 3
        } else {
            comment_end(s, k + 2)
        }
    } else {
        comment_end(s, k + 1)
    }
}

/// Whether the scan of an opening tag stops at `k`: at the end of the input, at `>`, or
/// at `/` right before `>`.
pub open spec fn tag_stop(s: Seq<char>, k: int) -> bool {
    k >= s.len() || s[k] == '>' || (s[k] == '/' && k + 1 < s.len() && s[k + 1] == '>')
}

/// An attribute name, shown yellow; nothing for an empty one.
pub open spec fn attr_name_spans(pend: Seq<char>) -> Seq<Span> {
    if pend.len() > 0 {
        seq![span(pend, Paint::Fg(Hue::Yellow))]
    } else {
        seq![]
    }
}

/// The scan of an opening tag from `k`, with the pending name `pend` and whether the
/// tag's name has ended (`attrs`): the spans emitted, where the scan stops, the name
/// left pending there and whether it is an attribute's.
///
/// The tag's name runs up to the first space after it and is shown blue; after it,
/// attribute names and quoted values are yellow, `=` white, spaces plain.
pub open spec fn tag_scan(s: Seq<char>, k: int, pend: Seq<char>, attrs: bool) -> (Seq<Span>, int, Seq<char>, bool)
    decreases s.len() - k,
{
    if k < 0 || tag_stop(s, k) {
        (seq![], k, pend, attrs)
    } else {
        let c = s[k];
        if !attrs {
            if c == ' ' && pend.len() > 0 {
                let r = tag_scan(s, k + 1, seq![], true);
                (seq![span(pend, Paint::Fg(Hue::Blue)), span(seq![' '], Paint::Plain)] + r.0, r.1, r.2, r.3)
            } else {
                tag_scan(s, k + 1, pend.push(c), false)
            }
        } else if c == '=' {
            let r = tag_scan(s, k + 1, seq![], true);
            (attr_name_spans(pend) + seq![span(seq!['='], Paint::Fg(Hue::White))] + r.0, r.1, r.2, r.3)
        } else if c == '"' {
            let ve = upto(s, k + 1, '"');
            let after = if ve < s.len() { ve + 1 } else { s.len() as int };
            if k < after <= s.len() {
                let r = tag_scan(s, after, seq![], true);
                (attr_name_spans(pend) + seq![
                    span(seq!['"'], Paint::Fg(Hue::Yellow)),
                    span(s.subrange(k + 1, ve), Paint::Fg(Hue::Yellow)),
                    span(seq!['"'], Paint::Fg(Hue::Yellow)),
                ] + r.0, r.1, r.2, r.3)
            } else {
                (seq![], k, pend, attrs)
            }
        } else if c == ' ' {
            let r = tag_scan(s, k + 1, seq![], true);
            (attr_name_spans(pend) + seq![span(seq![' '], Paint::Plain)] + r.0, r.1, r.2, r.3)
        } else {
            tag_scan(s, k + 1, pend.push(c), true)
        }
    }
}

/// The first position at or after `k` that holds `<` or `>`, or the length of `s`.
pub open spec fn text_end(s: Seq<char>, k: int) -> int
    decreases s.len() - k,
{
    if k < 0 || k >= s.len() {
        s.len() as int
    } else if s[k] == '<' || s[k] == '>' {
        k
    } else {
        text_end(s, k + 1)
    }
}

/// One step of the XML highlighter at position `i`: the spans it emits and the next
/// position.
///
/// Tag names are blue; attributes (names, and values with their quotes) yellow; the
/// text between tags green; `<`, `/` and `>` of tags bold white; comments bright black;
/// processing instructions blue.  A `<` with nothing after it is shown as `>`; closing
/// tags and opening tags are always shown with a final `>`, whether or not the input
/// has one.
pub open spec fn hx_step(s: Seq<char>, i: int) -> (Seq<Span>, int) {
    let ch = s[i];
    let n = s.len() as int;
    let wb = Paint::BoldFg(Hue::White);
    if ch == '<' {
        if i + 1 < n {
            let next = s[i + 1];
            if next == '/' {
                let e = upto(s, i + 2, '>');
                let after = if e < n { e + 1 } else { n };
                (seq![
                    span(seq!['<'], wb),
                    span(seq!['/'], wb),
                    span(s.subrange(i + 2, e), Paint::Fg(Hue::Blue)),
                    span(seq!['>'], wb),
                ], after)
            } else if next == '?' {
                let e = pi_end(s, i + 1);
                (seq![
                    span(seq!['<'], Paint::Fg(Hue::Blue)),
                    span(s.subrange(i + 1, e), Paint::Fg(Hue::Blue)),
                ], e)
            } else if next == '!' {
                let e = comment_end(s, i + 2);
                (seq![span(s.subrange(i, e), Paint::Fg(Hue::BrightBlack))], e)
            } else {
                let r = tag_scan(s, i + 1, seq![], false);
                let name = if r.2.len() > 0 {
                    seq![span(r.2, if r.3 { Paint::Fg(Hue::Yellow) } else { Paint::Fg(Hue::Blue) })]
                } else {
                    seq![]
                };
                let slash = r.1 < n && s[r.1] == '/';
                let k1 = if slash { r.1 + 1 } else { r.1 };
                let k2 = if k1 < n && s[k1] == '>' { k1 + 1 } else { k1 };
                let sl = if slash { seq![span(seq!['/'], wb)] } else { seq![] };
                (seq![span(seq!['<'], wb)] + r.0 + name + sl + seq![span(seq!['>'], wb)], k2)
            }
        } else {
            (seq![span(seq!['>'], wb)], i + 1)
        }
    } else if ch == '>' {
        (seq![span(seq!['>'], wb)], i + 1)
    } else {
        let e = text_end(s, i);
        (seq![span(s.subrange(i, e), Paint::Fg(Hue::Green))], e)
    }
}

/// The spans of the XML highlighter from position `i` on.
pub open spec fn hx_from(s: Seq<char>, i: int) -> Seq<Span>
    decreases s.len() - i,
{
    if 0 <= i < s.len() {
        let (sp, j) = hx_step(s, i);
        if i < j <= s.len() {
            sp + hx_from(s, j)
        } else {
            seq![]
        }
    } else {
        seq![]
    }
}

/// The spans into which the highlighter cuts XML text.
pub open spec fn xml_spans(s: Seq<char>) -> Seq<Span> {
    hx_from(s, 0)
}

/// The first position at or after `k` holding `c`, or the length.
pub fn find_from(cs: &Vec<char>, k: usize, c: char) -> (res: usize)
    requires
        k <= cs@.len(),
    ensures
        res == upto(cs@, k as int, c),
        k <= res <= cs@.len(),
{
    let mut j = k;
    while j < cs.len() && cs[j] != c
        invariant
            k <= j <= cs@.len(),
            upto(cs@, k as int, c) == upto(cs@, j as int, c),
        decreases cs@.len() - j,
    {
        j = j + 1;
    }
    j
}

fn find_pi_end(cs: &Vec<char>, k: usize) -> (res: usize)
    requires
        k <= cs@.len(),
    ensures
        res == pi_end(cs@, k as int),
        k <= res <= cs@.len(),
{
    let n = cs.len();
    let mut j = k;
    while j < n
        invariant
            n == cs@.len(),
            k <= j <= n,
            pi_end(cs@, k as int) == pi_end(cs@, j as int),
        decreases n - j,
    {
        if cs[j] == '?' && j + 1 < n && cs[j + 1] == '>' {
            return j + 2;
        }
        j = j + 1;
    }
    j
}

fn find_comment_end(cs: &Vec<char>, k: usize) -> (res: usize)
    requires
        k <= cs@.len(),
    ensures
        res == comment_end(cs@, k as int),
        k <= res <= cs@.len(),
{
    let n = cs.len();
    let mut j = k;
    while j < n
        invariant
            n == cs@.len(),
            k <= j <= n,
            comment_end(cs@, k as int) == comment_end(cs@, j as int),
        decreases n - j,
    {
        if cs[j] == '-' && j + 1 < n && cs[j + 1] == '-' {
            if j + 2 < n && cs[j + 2] == '>' {
                return j + 3;
            }
            j = j + 2;
        } else {
            j = j + 1;
        }
    }
    j
}

pub proof fn lemma_upto(s: Seq<char>, k: int, c: char)
    requires
        0 <= k <= s.len(),
    ensures
        k <= upto(s, k, c) <= s.len(),
    decreases s.len() - k,
{
    if k < s.len() && s[k] != c {
        lemma_upto(s, k + 1, c);
    }
}

pub proof fn lemma_pi_end(s: Seq<char>, k: int)
    requires
        0 <= k <= s.len(),
    ensures
        k <= pi_end(s, k) <= s.len(),
    decreases s.len() - k,
{
    if k < s.len() && !(s[k] == '?' && k + 1 < s.len() && s[k + 1] == '>') {
        lemma_pi_end(s, k + 1);
    }
}

pub proof fn lemma_comment_end(s: Seq<char>, k: int)
    requires
        0 <= k <= s.len(),
    ensures
        k <= comment_end(s, k) <= s.len(),
    decreases s.len() - k,
{
    if k < s.len() {
        if s[k] == '-' && k + 1 < s.len() && s[k + 1] == '-' {
            if !(k + 2 < s.len() && s[k + 2] == '>') {
                lemma_comment_end(s, k + 2);
            }
        } else {
            lemma_comment_end(s, k + 1);
        }
    }
}

pub proof fn lemma_tag_scan(s: Seq<char>, k: int, pend: Seq<char>, attrs: bool)
    requires
        0 <= k <= s.len(),
    ensures
        k <= tag_scan(s, k, pend, attrs).1 <= s.len(),
        tag_stop(s, tag_scan(s, k, pend, attrs).1),
    decreases s.len() - k,
{
    if !tag_stop(s, k) {
        let c = s[k];
        if !attrs {
            if c == ' ' && pend.len() > 0 {
                lemma_tag_scan(s, k + 1, seq![], true);
            } else {
                lemma_tag_scan(s, k + 1, pend.push(c), false);
            }
        } else if c == '=' || c == ' ' {
            lemma_tag_scan(s, k + 1, seq![], true);
        } else if c == '"' {
            lemma_upto(s, k + 1, '"');
            let ve = upto(s, k + 1, '"');
            let after = if ve < s.len() { ve + 1 } else { s.len() as int };
            lemma_tag_scan(s, after, seq![], true);
        } else {
            lemma_tag_scan(s, k + 1, pend.push(c), true);
        }
    }
}

pub proof fn lemma_text_end(s: Seq<char>, k: int)
    requires
        0 <= k <= s.len(),
    ensures
        k <= text_end(s, k) <= s.len(),
    decreases s.len() - k,
{
    if k < s.len() && s[k] != '<' && s[k] != '>' {
        lemma_text_end(s, k + 1);
    }
}

/// The first position at or after `k` that holds `<` or `>`.
fn find_text_end(cs: &Vec<char>, k: usize) -> (res: usize)
    requires
        k <= cs@.len(),
    ensures
        res == text_end(cs@, k as int),
{
    let mut j = k;
    while j < cs.len() && cs[j] != '<' && cs[j] != '>'
        invariant
            k <= j <= cs@.len(),
            text_end(cs@, k as int) == text_end(cs@, j as int),
        decreases cs@.len() - j,
    {
        j = j + 1;
    }
    j
}

/// Appends the yellow piece of a pending attribute name, if it has any characters.
fn push_attr_name(out: &mut Vec<Piece>, pend: &Vec<char>)
    ensures
        spans_of(final(out)@) == spans_of(old(out)@) + attr_name_spans(pend@),
{
    let ghost before = spans_of(out@);
    if pend.len() > 0 {
        push_piece(out, piece(pend.as_slice(), Paint::Fg(Hue::Yellow)));
        assert(spans_of(out@) =~= before + attr_name_spans(pend@));
    } else {
        assert(spans_of(out@) =~= before + attr_name_spans(pend@));
    }
}

/// Scans an opening tag from `k`, appending its pieces to `out`; returns where the scan
/// stopped, the name left pending and whether it is an attribute's.
fn scan_tag(cs: &Vec<char>, k: usize, out: &mut Vec<Piece>) -> (res: (usize, Vec<char>, bool))
    requires
        k <= cs@.len(),
    ensures
        ({
            let r = tag_scan(cs@, k as int, seq![], false);
            &&& res.0 == r.1
            &&& res.1@ == r.2
            &&& res.2 == r.3
            &&& spans_of(final(out)@) == spans_of(old(out)@) + r.0
        }),
{
    let ghost s = cs@;
    let ghost start = spans_of(out@);
    let n = cs.len();
    let mut j = k;
    let mut pend: Vec<char> = Vec::new();
    let mut attrs = false;
    proof {
        lemma_tag_scan(s, k as int, seq![], false);
    }
    while !(j >= n || cs[j] == '>' || (cs[j] == '/' && j + 1 < n && cs[j + 1] == '>'))
        invariant
            n == s.len(),
            s == cs@,
            k <= j <= n,
            ({
                let total = tag_scan(s, k as int, seq![], false);
                let r = tag_scan(s, j as int, pend@, attrs);
                &&& total.1 == r.1
                &&& total.2 == r.2
                &&& total.3 == r.3
                &&& start + total.0 == spans_of(out@) + r.0
            }),
        decreases n - j,
    {
        let ghost before = spans_of(out@);
        let ghost r0 = tag_scan(s, j as int, pend@, attrs);
        let c = cs[j];
        if !attrs {
            if c == ' ' && pend.len() > 0 {
                let ghost r1 = tag_scan(s, j + 1, seq![], true);
                push_piece(out, piece(pend.as_slice(), Paint::Fg(Hue::Blue)));
                push_piece(out, piece1(' ', Paint::Plain));
                pend = Vec::new();
                attrs = true;
                j = j + 1;
                proof {
                    assert(spans_of(out@) + r1.0 =~= before + r0.0);
                    assert(pend@ =~= seq![]);
                }
            } else {
                pend.push(c);
                j = j + 1;
            }
        } else if c == '=' || c == ' ' {
            let ghost r1 = tag_scan(s, j + 1, seq![], true);
            push_attr_name(out, &pend);
            push_piece(out, piece1(c, if c == '=' { Paint::Fg(Hue::White) } else { Paint::Plain }));
            pend = Vec::new();
            j = j + 1;
            proof {
                assert(spans_of(out@) + r1.0 =~= before + r0.0);
                assert(pend@ =~= seq![]);
            }
        } else if c == '"' {
            let ve = find_from(cs, j + 1, '"');
            let after = if ve < n { ve + 1 } else { n };
            let ghost r1 = tag_scan(s, after as int, seq![], true);
            push_attr_name(out, &pend);
            push_piece(out, piece1('"', Paint::Fg(Hue::Yellow)));
            push_piece(out, piece(sub_chars(cs, j + 1, ve).as_slice(), Paint::Fg(Hue::Yellow)));
            push_piece(out, piece1('"', Paint::Fg(Hue::Yellow)));
            pend = Vec::new();
            j = after;
            proof {
                assert(spans_of(out@) + r1.0 =~= before + r0.0);
                assert(pend@ =~= seq![]);
            }
        } else {
            pend.push(c);
            j = j + 1;
        }
    }
    (j, pend, attrs)
}

/// Cuts XML text into the pieces in which it is highlighted.
pub fn xml_pieces(xml: &str) -> (res: Vec<Piece>)
    ensures
        spans_of(res@) == xml_spans(xml@),
{
    let cs = chars_of(xml);
    let ghost s = cs@;
    let n = cs.len();
    let mut out: Vec<Piece> = Vec::new();
    let mut i: usize = 0;
    assert(spans_of(out@) =~= seq![]);
    while i < n
        invariant
            n == s.len(),
            s == cs@,
            s == xml@,
            i <= n,
            spans_of(out@) + hx_from(s, i as int) == xml_spans(s),
        decreases n - i,
    {
        let ghost before = spans_of(out@);
        let ghost (sp, j) = hx_step(s, i as int);
        let ch = cs[i];
        let next: usize;
        if ch == '<' {
            if i + 1 < n {
                let nx = cs[i + 1];
                if nx == '/' {
                    let e = find_from(&cs, i + 2, '>');
                    push_piece(&mut out, piece1('<', Paint::BoldFg(Hue::White)));
                    push_piece(&mut out, piece1('/', Paint::BoldFg(Hue::White)));
                    push_piece(&mut out, piece(sub_chars(&cs, i + 2, e).as_slice(), Paint::Fg(Hue::Blue)));
                    push_piece(&mut out, piece1('>', Paint::BoldFg(Hue::White)));
                    next = if e < n { e + 1 } else { n };
                } else if nx == '?' {
                    let e = find_pi_end(&cs, i + 1);
                    push_piece(&mut out, piece1('<', Paint::Fg(Hue::Blue)));
                    push_piece(&mut out, piece(sub_chars(&cs, i + 1, e).as_slice(), Paint::Fg(Hue::Blue)));
                    next = e;
                } else if nx == '!' {
                    let e = find_comment_end(&cs, i + 2);
                    push_piece(&mut out, piece(sub_chars(&cs, i, e).as_slice(), Paint::Fg(Hue::BrightBlack)));
                    next = e;
                } else {
                    let ghost mid0 = spans_of(out@);
                    push_piece(&mut out, piece1('<', Paint::BoldFg(Hue::White)));
                    let (k, tag, in_attrs) = scan_tag(&cs, i + 1, &mut out);
                    proof {
                        lemma_tag_scan(s, i + 1, seq![], false);
                    }
                    if tag.len() > 0 {
                        let paint = if in_attrs { Paint::Fg(Hue::Yellow) } else { Paint::Fg(Hue::Blue) };
                        push_piece(&mut out, piece(tag.as_slice(), paint));
                    }
                    let mut k1 = k;
                    if k1 < n && cs[k1] == '/' {
                        push_piece(&mut out, piece1('/', Paint::BoldFg(Hue::White)));
                        k1 = k1 + 1;
                    }
                    if k1 < n && cs[k1] == '>' {
                        k1 = k1 + 1;
                    }
                    push_piece(&mut out, piece1('>', Paint::BoldFg(Hue::White)));
                    next = k1;
                    proof {
                        assert(spans_of(out@) =~= before + sp);
                    }
                }
            } else {
                push_piece(&mut out, piece1('>', Paint::BoldFg(Hue::White)));
                next = i + 1;
            }
        } else if ch == '>' {
            push_piece(&mut out, piece1('>', Paint::BoldFg(Hue::White)));
            next = i + 1;
        } else {
            let e = find_text_end(&cs, i);
            proof {
                lemma_text_end(s, i + 1);
            }
            push_piece(&mut out, piece(sub_chars(&cs, i, e).as_slice(), Paint::Fg(Hue::Green)));
            next = e;
        }
        proof {
            lemma_pi_end(s, i + 1);
            if i + 2 <= n {
                lemma_comment_end(s, i + 2);
                lemma_upto(s, i + 2, '>');
            }
            assert(j == next);
            assert(spans_of(out@) =~= before + sp);
            assert(hx_from(s, i as int) == sp + hx_from(s, j));
            assert(before + hx_from(s, i as int) =~= spans_of(out@) + hx_from(s, j));
        }
        i = next;
    }
    assert(spans_of(out@) =~= xml_spans(s));
    out
}

/// Highlights XML syntax with color.  With `no_color` the text comes back as it is.
pub fn highlight_xml(xml: &str, no_color: bool) -> (res: String)
    ensures
        no_color ==> res@ == xml@,
        !no_color ==> is_rendering(xml_spans(xml@), res@),
{
    if no_color {
        return xml.to_string();
    }
    let ps = xml_pieces(xml);
    render(&ps)
}

// ---------------------------------------------------------------------------
// JSON tree
// ---------------------------------------------------------------------------

/// The branch drawn before a child: the last child closes the branch.
pub open spec fn connector(last: bool) -> Seq<char> {
    if last {
        seq!['└', '─', '─', ' ']
    } else {
        seq!['├', '─', '─', ' ']
    }
}

/// What the lines below a child are prefixed with.
pub open spec fn continuation(last: bool) -> Seq<char> {
    if last {
        seq![' ', ' ', ' ', ' ']
    } else {
        seq!['│', ' ', ' ', ' ']
    }
}

pub open spec fn text_span(t: Seq<char>) -> Span {
    span(t, Paint::Plain)
}

/// Whether every number in JSON data is written with digits, signs, points and exponent
/// marks alone.
pub open spec fn numeric_numbers(d: JsonData) -> bool
    decreases d, 1nat, 0nat,
{
    match d {
        JsonData::Number(t) => forall|i: int| 0 <= i < t.len() ==> is_num_char(#[trigger] t[i]),
        JsonData::Object(_) => numeric_entries(d, 0),
        JsonData::Array(_) => numeric_items(d, 0),
        _ => true,
    }
}

/// Whether the numbers in the values of the object `d` from its `i`-th entry on are
/// written with number characters alone.
pub open spec fn numeric_entries(d: JsonData, i: nat) -> bool
    decreases d, 0nat, object_entries(d).len() - i,
{
    let es = object_entries(d);
    if i < es.len() {
        proof {
            assert(decreases_to!(d => es));
        }
        numeric_numbers(es[i as int].1) && numeric_entries(d, i + 1)
    } else {
        true
    }
}

/// Whether the numbers in the items of the array `d` from its `i`-th on are written
/// with number characters alone.
pub open spec fn numeric_items(d: JsonData, i: nat) -> bool
    decreases d, 0nat, array_items(d).len() - i,
{
    let items = array_items(d);
    if i < items.len() {
        proof {
            assert(decreases_to!(d => items));
        }
        numeric_numbers(items[i as int]) && numeric_items(d, i + 1)
    } else {
        true
    }
}

proof fn lemma_numeric_entries(d: JsonData, i: nat)
    requires
        d is Object,
        i <= object_entries(d).len(),
        forall|k: int| i <= k < object_entries(d).len() ==> numeric_numbers(#[trigger] object_entries(d)[k].1),
    ensures
        numeric_entries(d, i),
    decreases object_entries(d).len() - i,
{
    if i < object_entries(d).len() {
        lemma_numeric_entries(d, i + 1);
    }
}

proof fn lemma_numeric_items(d: JsonData, i: nat)
    requires
        d is Array,
        i <= array_items(d).len(),
        forall|k: int| i <= k < array_items(d).len() ==> numeric_numbers(#[trigger] array_items(d)[k]),
    ensures
        numeric_items(d, i),
    decreases array_items(d).len() - i,
{
    if i < array_items(d).len() {
        lemma_numeric_items(d, i + 1);
    }
}

/// The spans of the tree of JSON data drawn under `prefix`; an empty prefix marks the
/// root, whose scalars end without a line break and whose array items carry an extra
/// space after the branch.
pub open spec fn jt_spans(d: JsonData, prefix: Seq<char>, nc: bool) -> Seq<Span>
    decreases d, 1nat, 0nat,
{
    let nl = if prefix.len() == 0 { seq![] } else { seq!['\n'] };
    let magenta = tint(nc, Paint::Fg(Hue::Magenta));
    match d {
        JsonData::Object(es) => {
            seq![text_span(seq!['{', '\n'])] + jt_entries(d, 0, prefix, nc) + (if es.len() > 0 {
                seq![text_span(prefix)]
            } else {
                seq![]
            }) + seq![text_span(seq!['}', '\n'])]
        },
        JsonData::Array(items) => {
            seq![text_span(seq!['[', '\n'])] + jt_items(d, 0, prefix, nc) + (if items.len() > 0 {
                seq![text_span(prefix)]
            } else {
                seq![]
            }) + seq![text_span(seq![']', '\n'])]
        },
        JsonData::Str(t) => seq![
            span(seq!['"'] + t + seq!['"'], tint(nc, Paint::Fg(Hue::Green))),
            text_span(nl),
        ],
        JsonData::Number(t) => seq![span(t, magenta), text_span(nl)],
        JsonData::Bool(b) => seq![
            span(if b { lit_true() } else { lit_false() }, magenta),
            text_span(nl),
        ],
        JsonData::Null => seq![span(lit_null(), magenta), text_span(nl)],
    }
}

/// The spans of the entries of the object `d` from the `i`-th on.
pub open spec fn jt_entries(d: JsonData, i: nat, prefix: Seq<char>, nc: bool) -> Seq<Span>
    decreases d, 0nat, object_entries(d).len() - i,
{
    let es = object_entries(d);
    if i < es.len() {
        let last = i == es.len() - 1;
        proof {
            assert(decreases_to!(d => es));
        }
        seq![
            text_span(prefix + connector(last)),
            span(es[i as int].0, tint(nc, Paint::Fg(Hue::Cyan))),
            text_span(seq![':', ' ']),
        ] + jt_spans(es[i as int].1, prefix + continuation(last), nc) + jt_entries(d, i + 1, prefix, nc)
    } else {
        seq![]
    }
}

/// The spans of the items of the array `d` from the `i`-th on.
pub open spec fn jt_items(d: JsonData, i: nat, prefix: Seq<char>, nc: bool) -> Seq<Span>
    decreases d, 0nat, array_items(d).len() - i,
{
    let items = array_items(d);
    if i < items.len() {
        let last = i == items.len() - 1;
        let idx = seq!['['] + decimal(i) + seq![']'];
        let head = if prefix.len() == 0 {
            seq![
                text_span(prefix + connector(last) + seq![' ']),
                span(idx, tint(nc, Paint::BoldFg(Hue::White))),
                text_span(seq![' ']),
            ]
        } else {
            seq![
                text_span(prefix + connector(last)),
                span(idx, tint(nc, Paint::BoldFg(Hue::White))),
                text_span(seq![' ']),
            ]
        };
        proof {
            assert(decreases_to!(d => items));
        }
        head + jt_spans(items[i as int], prefix + continuation(last), nc) + jt_items(d, i + 1, prefix, nc)
    } else {
        seq![]
    }
}

fn lit_connector(last: bool) -> (res: Vec<char>)
    ensures
        res@ == connector(last),
{
    let v = if last { vec!['└', '─', '─', ' '] } else { vec!['├', '─', '─', ' '] };
    assert(v@ =~= connector(last));
    v
}

fn lit_continuation(last: bool) -> (res: Vec<char>)
    ensures
        res@ == continuation(last),
{
    let v = if last { vec![' ', ' ', ' ', ' '] } else { vec!['│', ' ', ' ', ' '] };
    assert(v@ =~= continuation(last));
    v
}

fn push_two(out: &mut Vec<Piece>, a: char, b: char)
    ensures
        spans_of(final(out)@) == spans_of(old(out)@).push(text_span(seq![a, b])),
{
    let v = vec![a, b];
    assert(v@ =~= seq![a, b]);
    push_text(out, v.as_slice(), Paint::Plain);
}

/// Appends the pieces of the tree of `v` drawn under `prefix`.
fn tree_pieces(v: &Value, prefix: &Vec<char>, nc: bool, out: &mut Vec<Piece>)
    ensures
        spans_of(final(out)@) == spans_of(old(out)@) + jt_spans(json_model(*v), prefix@, nc),
        numeric_numbers(json_model(*v)),
    decreases json_model(*v),
{
    let ghost d = json_model(*v);
    let ghost start = spans_of(out@);
    let nl: Vec<char> = if prefix.len() == 0 { Vec::new() } else { vec!['\n'] };
    assert(nl@ =~= (if prefix@.len() == 0 { seq![] } else { seq!['\n'] }));
    let magenta = tint_exec(nc, Paint::Fg(Hue::Magenta));
    match json_kind(v) {
        JsonKind::Object => {
            push_two(out, '{', '\n');
            let entries = json_entries(v);
            let ghost es = object_entries(d);
            let ghost base = spans_of(out@);
            let n = entries.len();
            let mut i: usize = 0;
            assert(base + jt_entries(d, 0, prefix@, nc) =~= spans_of(out@) + jt_entries(d, 0, prefix@, nc));
            while i < n
                invariant
                    d == json_model(*v),
                    d is Object,
                    es == object_entries(d),
                    n == entries@.len(),
                    n == es.len(),
                    i <= n,
                    forall|k: int|
                        0 <= k < entries@.len() ==> (#[trigger] entries@[k]).0@ == es[k].0
                            && json_model(*entries@[k].1) == es[k].1,
                    spans_of(out@) + jt_entries(d, i as nat, prefix@, nc) == base + jt_entries(d, 0, prefix@, nc),
                    forall|k: int| 0 <= k < i ==> numeric_numbers(#[trigger] es[k].1),
                decreases n - i,
            {
                let ghost before = spans_of(out@);
                let last = i == n - 1;
                let (key, child) = entries[i];
                let head = concat_chars(prefix, &lit_connector(last));
                push_text(out, head.as_slice(), Paint::Plain);
                let kc = chars_of(key.as_str());
                push_text(out, kc.as_slice(), tint_exec(nc, Paint::Fg(Hue::Cyan)));
                push_two(out, ':', ' ');
                let child_prefix = concat_chars(prefix, &lit_continuation(last));
                proof {
                    assert(decreases_to!(d => es));
                    assert(decreases_to!(es => es[i as int]));
                    assert(decreases_to!(es[i as int] => es[i as int].1));
                }
                tree_pieces(child, &child_prefix, nc, out);
                proof {
                    assert(spans_of(out@) + jt_entries(d, (i + 1) as nat, prefix@, nc) =~= before + jt_entries(
                        d,
                        i as nat,
                        prefix@,
                        nc,
                    ));
                }
                i = i + 1;
            }
            if n > 0 {
                push_text(out, prefix.as_slice(), Paint::Plain);
            }
            push_two(out, '}', '\n');
            proof {
                assert(spans_of(out@) =~= start + jt_spans(d, prefix@, nc));
                lemma_numeric_entries(d, 0);
            }
        },
        JsonKind::Array => {
            push_two(out, '[', '\n');
            let items = json_items(v);
            let ghost its = array_items(d);
            let ghost base = spans_of(out@);
            let n = items.len();
            let mut i: usize = 0;
            assert(base + jt_items(d, 0, prefix@, nc) =~= spans_of(out@) + jt_items(d, 0, prefix@, nc));
            while i < n
                invariant
                    d == json_model(*v),
                    d is Array,
                    its == array_items(d),
                    its == models(items@),
                    n == items@.len(),
                    i <= n,
                    spans_of(out@) + jt_items(d, i as nat, prefix@, nc) == base + jt_items(d, 0, prefix@, nc),
                    forall|k: int| 0 <= k < i ==> numeric_numbers(#[trigger] its[k]),
                decreases n - i,
            {
                let ghost before = spans_of(out@);
                let last = i == n - 1;
                let mut head = concat_chars(prefix, &lit_connector(last));
                if prefix.len() == 0 {
                    head.push(' ');
                }
                assert(head@ =~= (if prefix@.len() == 0 {
                    prefix@ + connector(last) + seq![' ']
                } else {
                    prefix@ + connector(last)
                }));
                push_text(out, head.as_slice(), Paint::Plain);
                let mut idx: Vec<char> = vec!['['];
                let digits = decimal_chars(i);
                idx = concat_chars(&idx, &digits);
                idx.push(']');
                push_text(out, idx.as_slice(), tint_exec(nc, Paint::BoldFg(Hue::White)));
                push_char_piece(out, ' ', Paint::Plain);
                let child_prefix = concat_chars(prefix, &lit_continuation(last));
                proof {
                    assert(json_model(items@[i as int]) == its[i as int]);
                    assert(decreases_to!(d => its));
                    assert(decreases_to!(its => its[i as int]));
                }
                tree_pieces(&items[i], &child_prefix, nc, out);
                proof {
                    assert(idx@ =~= seq!['['] + decimal(i as nat) + seq![']']);
                    assert(i < its.len());
                    assert(last == (i == its.len() - 1));
                    assert(spans_of(out@) + jt_items(d, (i + 1) as nat, prefix@, nc) =~= before + jt_items(
                        d,
                        i as nat,
                        prefix@,
                        nc,
                    ));
                }
                i = i + 1;
            }
            if n > 0 {
                push_text(out, prefix.as_slice(), Paint::Plain);
            }
            push_two(out, ']', '\n');
            proof {
                assert(spans_of(out@) =~= start + jt_spans(d, prefix@, nc));
                lemma_numeric_items(d, 0);
            }
        },
        JsonKind::String => {
            let t = chars_of(json_str(v));
            let mut q: Vec<char> = vec!['"'];
            q = concat_chars(&q, &t);
            q.push('"');
            push_text(out, q.as_slice(), tint_exec(nc, Paint::Fg(Hue::Green)));
            push_text(out, nl.as_slice(), Paint::Plain);
            proof {
                assert(q@ =~= seq!['"'] + t@ + seq!['"']);
                assert(spans_of(out@) =~= start + jt_spans(d, prefix@, nc));
            }
        },
        JsonKind::Number => {
            let t = json_number_text(v);
            let tc = chars_of(t.as_str());
            push_text(out, tc.as_slice(), magenta);
            push_text(out, nl.as_slice(), Paint::Plain);
            proof {
                assert(spans_of(out@) =~= start + jt_spans(d, prefix@, nc));
            }
        },
        JsonKind::Bool => {
            let b = json_bool(v);
            let w = if b { word_true() } else { word_false() };
            push_text(out, w.as_slice(), magenta);
            push_text(out, nl.as_slice(), Paint::Plain);
            proof {
                assert(spans_of(out@) =~= start + jt_spans(d, prefix@, nc));
            }
        },
        JsonKind::Null => {
            let w = word_null();
            push_text(out, w.as_slice(), magenta);
            push_text(out, nl.as_slice(), Paint::Plain);
            proof {
                assert(spans_of(out@) =~= start + jt_spans(d, prefix@, nc));
            }
        },
    }
}

/// The pieces of the tree view of a JSON value drawn under `prefix`.
pub fn json_tree_pieces(value: &Value, prefix: &str, no_color: bool) -> (res: Vec<Piece>)
    ensures
        spans_of(res@) == jt_spans(json_model(*value), prefix@, no_color),
        numeric_numbers(json_model(*value)),
{
    let mut out: Vec<Piece> = Vec::new();
    let p = chars_of(prefix);
    tree_pieces(value, &p, no_color, &mut out);
    assert(spans_of(out@) =~= jt_spans(json_model(*value), prefix@, no_color));
    out
}

/// `out` is the tree of JSON data drawn under `prefix`: its plain text without colors, a
/// rendering of its spans with them.  Whether the drawn value is the last of its
/// parent's (`is_last`) does not change the drawing.
pub open spec fn json_tree_drawn(d: JsonData, prefix: Seq<char>, is_last: bool, no_color: bool, out: Seq<char>) -> bool {
    if no_color {
        out == plain_text(jt_spans(d, prefix, no_color))
    } else {
        is_rendering(jt_spans(d, prefix, no_color), out)
    }
}

/// Formats a JSON value as a human-readable tree.  `is_last` has no effect on the
/// drawing.
pub fn format_json_tree(value: &Value, prefix: &str, is_last: bool, no_color: bool) -> (res: String)
    ensures
        json_tree_drawn(json_model(*value), prefix@, is_last, no_color, res@),
        numeric_numbers(json_model(*value)),
{
    let ps = json_tree_pieces(value, prefix, no_color);
    if no_color {
        render_plain(&ps)
    } else {
        render(&ps)
    }
}

// ---------------------------------------------------------------------------
// XML tree
// ---------------------------------------------------------------------------

pub open spec fn repeat(s: Seq<char>, n: nat) -> Seq<char>
    decreases n,
{
    if n == 0 {
        seq![]
    } else {
        repeat(s, (n - 1) as nat) + s
    }
}

pub open spec fn bar() -> Seq<char> {
    seq!['│', ' ', ' ', ' ']
}

pub open spec fn branch() -> Seq<char> {
    seq!['├', '─', '─', ' ']
}

/// What a line at depth `level` of the XML tree begins with.
pub open spec fn line_prefix(level: nat) -> Seq<char> {
    repeat(bar(), if level > 0 { (level - 1) as nat } else { 0 }) + branch()
}

/// The spans of the attribute list from the `j`-th attribute on: with colors, the key and
/// the quoted value in yellow; without, `@key="value"`.  Attributes are separated by
/// a comma and a space.
pub open spec fn attr_spans(attrs: Seq<(Seq<char>, Seq<char>)>, j: nat, nc: bool) -> Seq<Span>
    decreases attrs.len() - j,
{
    if j < attrs.len() {
        let (k, v) = attrs[j as int];
        let sep = if j > 0 { seq![text_span(seq![',', ' '])] } else { seq![] };
        let quoted = seq!['"'] + v + seq!['"'];
        let one = if nc {
            seq![text_span(seq!['@'] + k + seq!['='] + quoted)]
        } else {
            seq![
                span(k, Paint::Fg(Hue::Yellow)),
                text_span(seq!['=']),
                span(quoted, Paint::Fg(Hue::Yellow)),
            ]
        };
        sep + one + attr_spans(attrs, j + 1, nc)
    } else {
        seq![]
    }
}

pub open spec fn empty_mark() -> Seq<char> {
    seq![' ', '(', 'e', 'm', 'p', 't', 'y', ')', '\n']
}

/// The spans of the tree line of a tag.
pub open spec fn tag_line(level: nat, name: Seq<char>, attrs: Seq<(Seq<char>, Seq<char>)>, nc: bool, empty: bool) -> Seq<Span> {
    seq![text_span(line_prefix(level)), span(name, tint(nc, Paint::Fg(Hue::Blue)))] + (if attrs.len() > 0 {
        seq![text_span(seq![' ', '['])] + attr_spans(attrs, 0, nc) + seq![text_span(seq![']'])]
    } else {
        seq![]
    }) + seq![text_span(if empty { empty_mark() } else { seq!['\n'] })]
}

/// The text of a text event: its unescaped text, or nothing where unescaping fails.
pub open spec fn event_text(raw: Seq<char>) -> Seq<char> {
    match unescaped_xml(raw) {
        Some(t) => t,
        None => seq![],
    }
}

/// The outcome of drawing an XML tree: its spans, or the reader's error message.
pub enum Drawn {
    Spans(Seq<Span>),
    Failed(Seq<char>),
}

pub open spec fn prepend(sp: Seq<Span>, d: Drawn) -> Drawn {
    match d {
        Drawn::Spans(rest) => Drawn::Spans(sp + rest),
        Drawn::Failed(m) => Drawn::Failed(m),
    }
}

/// One deeper, except at the largest depth a machine word holds.
pub open spec fn deeper(level: nat) -> nat {
    if level < usize::MAX {
        level + 1
    } else {
        level
    }
}

/// The XML tree drawn from the `i`-th event on, at depth `level`: a line for every start
/// tag (which deepens the depth), every empty tag, and every text that is not blank
/// after trimming; end tags make it shallower.
pub open spec fn xt_from(evs: Seq<XmlEvent>, i: int, level: nat, nc: bool) -> Drawn
    decreases evs.len() - i,
{
    if 0 <= i < evs.len() {
        let e = evs[i];
        let c = e.content@;
        match e.kind {
            XmlKind::Start => {
                let name = tag_name(c);
                prepend(tag_line(level, name, tag_attributes(c, name), nc, false), xt_from(evs, i + 1, deeper(level), nc))
            },
            XmlKind::Empty => {
                let name = tag_name(c);
                prepend(tag_line(level, name, tag_attributes(c, name), nc, true), xt_from(evs, i + 1, level, nc))
            },
            XmlKind::Text => {
                let t = trim_spec(event_text(c));
                if t.len() > 0 {
                    prepend(seq![
                        text_span(line_prefix(level)),
                        span(seq!['"'] + t + seq!['"'], tint(nc, Paint::Fg(Hue::Green))),
                        text_span(seq!['\n']),
                    ], xt_from(evs, i + 1, level, nc))
                } else {
                    xt_from(evs, i + 1, level, nc)
                }
            },
            XmlKind::End => xt_from(evs, i + 1, if level > 0 { (level - 1) as nat } else { 0 }, nc),
            XmlKind::Eof => Drawn::Spans(seq![]),
            XmlKind::Error => Drawn::Failed(c),
            _ => xt_from(evs, i + 1, level, nc),
        }
    } else {
        Drawn::Spans(seq![])
    }
}

/// The tree of an XML text.
pub open spec fn xml_tree(text: Seq<char>, nc: bool) -> Drawn {
    xt_from(xml_events(text), 0, 0, nc)
}

fn push_line_prefix(out: &mut Vec<Piece>, level: usize)
    ensures
        spans_of(final(out)@) == spans_of(old(out)@).push(text_span(line_prefix(level as nat))),
{
    let n = if level > 0 { level - 1 } else { 0 };
    let b = vec!['│', ' ', ' ', ' '];
    assert(b@ =~= bar());
    let mut p: Vec<char> = Vec::new();
    let mut k: usize = 0;
    while k < n
        invariant
            k <= n,
            b@ == bar(),
            p@ == repeat(bar(), k as nat),
        decreases n - k,
    {
        p = concat_chars(&p, &b);
        k = k + 1;
    }
    let br = vec!['├', '─', '─', ' '];
    assert(br@ =~= branch());
    p = concat_chars(&p, &br);
    push_text(out, p.as_slice(), Paint::Plain);
}

/// The name of a tag with the given content.
pub fn tag_name_of(content: &str) -> (res: Vec<char>)
    ensures
        res@ == tag_name(content@),
{
    let cs = chars_of(content);
    let mut e: usize = 0;
    while e < cs.len() && !(cs[e] == ' ' || cs[e] == '\r' || cs[e] == '\n' || cs[e] == '\t')
        invariant
            e <= cs@.len(),
            forall|j: int| 0 <= j < e ==> !crate::xml::is_xml_space(#[trigger] cs@[j]),
        decreases cs@.len() - e,
    {
        e = e + 1;
    }
    proof {
        lemma_tag_name(cs@, e as int);
    }
    sub_chars(&cs, 0, e)
}

/// Appends the pieces of the tree line of a tag.
fn push_tag_line(out: &mut Vec<Piece>, level: usize, content: &str, nc: bool, empty: bool)
    ensures
        ({
            let name = tag_name(content@);
            spans_of(final(out)@) == spans_of(old(out)@) + tag_line(level as nat, name, tag_attributes(content@, name), nc, empty)
        }),
{
    let ghost start = spans_of(out@);
    let name = tag_name_of(content);
    let name_s = string_of(name.as_slice());
    let attrs = xml_attributes(content, name_s.as_str());
    let ghost av = tag_attributes(content@, name@);
    push_line_prefix(out, level);
    push_text(out, name.as_slice(), tint_exec(nc, Paint::Fg(Hue::Blue)));
    let ghost mid = spans_of(out@);
    if attrs.len() > 0 {
        push_two(out, ' ', '[');
        let ghost base = spans_of(out@);
        let mut j: usize = 0;
        assert(base + attr_spans(av, 0, nc) =~= spans_of(out@) + attr_spans(av, 0, nc));
        while j < attrs.len()
            invariant
                j <= attrs@.len(),
                attrs@.len() == av.len(),
                forall|i: int|
                    0 <= i < attrs@.len() ==> (#[trigger] attrs@[i]).0@ == av[i].0 && attrs@[i].1@ == av[i].1,
                spans_of(out@) + attr_spans(av, j as nat, nc) == base + attr_spans(av, 0, nc),
            decreases attrs@.len() - j,
        {
            let ghost before = spans_of(out@);
            if j > 0 {
                push_two(out, ',', ' ');
            }
            let k = chars_of(attrs[j].0.as_str());
            let v = chars_of(attrs[j].1.as_str());
            let mut quoted: Vec<char> = vec!['"'];
            quoted = concat_chars(&quoted, &v);
            quoted.push('"');
            if nc {
                let mut one: Vec<char> = vec!['@'];
                one = concat_chars(&one, &k);
                one.push('=');
                one = concat_chars(&one, &quoted);
                push_text(out, one.as_slice(), Paint::Plain);
                assert(one@ =~= seq!['@'] + k@ + seq!['='] + (seq!['"'] + v@ + seq!['"']));
            } else {
                push_text(out, k.as_slice(), Paint::Fg(Hue::Yellow));
                push_char_piece(out, '=', Paint::Plain);
                push_text(out, quoted.as_slice(), Paint::Fg(Hue::Yellow));
            }
            proof {
                assert(quoted@ =~= seq!['"'] + v@ + seq!['"']);
                assert(spans_of(out@) + attr_spans(av, (j + 1) as nat, nc) =~= before + attr_spans(av, j as nat, nc));
            }
            j = j + 1;
        }
        push_char_piece(out, ']', Paint::Plain);
    }
    if empty {
        let m = vec![' ', '(', 'e', 'm', 'p', 't', 'y', ')', '\n'];
        assert(m@ =~= empty_mark());
        push_text(out, m.as_slice(), Paint::Plain);
    } else {
        push_char_piece(out, '\n', Paint::Plain);
    }
    proof {
        assert(spans_of(out@) =~= start + tag_line(level as nat, name@, av, nc, empty));
    }
}

proof fn lemma_tag_name(s: Seq<char>, e: int)
    requires
        0 <= e <= s.len(),
        forall|j: int| 0 <= j < e ==> !crate::xml::is_xml_space(#[trigger] s[j]),
        e == s.len() || crate::xml::is_xml_space(s[e]),
    ensures
        tag_name(s) == s.take(e),
    decreases e,
{
    if e > 0 {
        assert(!crate::xml::is_xml_space(s[0]));
        lemma_tag_name(s.skip(1), e - 1);
        assert(s.take(e) =~= seq![s[0]] + s.skip(1).take(e - 1));
    } else {
        assert(s.take(0) =~= seq![]);
    }
}

/// The text of a text event, unescaped, or empty where it does not unescape.
pub fn text_of_event(raw: &str) -> (res: String)
    ensures
        res@ == event_text(raw@),
{
    match xml_unescape(raw) {
        Ok(t) => t,
        Err(_) => String::new(),
    }
}

proof fn lemma_prepend_assoc(a: Seq<Span>, b: Seq<Span>, d: Drawn)
    ensures
        prepend(a, prepend(b, d)) == prepend(a + b, d),
{
    match d {
        Drawn::Spans(r) => {
            assert(a + (b + r) =~= (a + b) + r);
        },
        Drawn::Failed(_) => {},
    }
}

/// The pieces of the tree view of an XML text, or the reader's error.
pub fn xml_tree_pieces(xml: &str, no_color: bool) -> (res: Result<Vec<Piece>, SpruceError>)
    ensures
        match xml_tree(xml@, no_color) {
            Drawn::Spans(sp) => res matches Ok(ps) && spans_of(ps@) == sp,
            Drawn::Failed(m) => res matches Err(SpruceError::XmlParse(msg)) && msg@ == m,
        },
{
    let mut r = xml_reader(xml);
    let ghost evs = pending_events(r);
    let ghost mut i: int = 0;
    let mut level: usize = 0;
    let mut out: Vec<Piece> = Vec::new();
    assert(evs.skip(0) =~= evs);
    assert(prepend(spans_of(out@), xt_from(evs, 0, 0, no_color)) =~= xt_from(evs, 0, 0, no_color)) by {
        assert(spans_of(out@) =~= seq![]);
        match xt_from(evs, 0, 0, no_color) {
            Drawn::Spans(sp) => { assert(seq![] + sp =~= sp); },
            Drawn::Failed(m) => {},
        }
    }
    loop
        invariant
            evs == xml_events(xml@),
            well_ended(evs),
            0 <= i < evs.len(),
            pending_events(r) == evs.skip(i),
            xml_tree(xml@, no_color) == prepend(spans_of(out@), xt_from(evs, i, level as nat, no_color)),
        decreases evs.len() - i,
    {
        let ghost before = spans_of(out@);
        let ghost old_level = level;
        let ev = xml_read_event(&mut r);
        assert(ev == evs[i]);
        assert(pending_events(r) =~= evs.skip(i + 1));
        let ghost c = ev.content@;
        let ghost mut delta: Seq<Span> = seq![];
        match ev.kind {
            XmlKind::Start => {
                push_tag_line(&mut out, level, ev.content.as_str(), no_color, false);
                proof {
                    delta = tag_line(level as nat, tag_name(c), tag_attributes(c, tag_name(c)), no_color, false);
                }
                level = if level < usize::MAX { level + 1 } else { level };
            },
            XmlKind::Empty => {
                push_tag_line(&mut out, level, ev.content.as_str(), no_color, true);
                proof {
                    delta = tag_line(level as nat, tag_name(c), tag_attributes(c, tag_name(c)), no_color, true);
                }
            },
            XmlKind::Text => {
                let text = text_of_event(ev.content.as_str());
                let t = chars_of(trim(text.as_str()));
                if t.len() > 0 {
                    push_line_prefix(&mut out, level);
                    let mut q: Vec<char> = vec!['"'];
                    q = concat_chars(&q, &t);
                    q.push('"');
                    push_text(&mut out, q.as_slice(), tint_exec(no_color, Paint::Fg(Hue::Green)));
                    push_char_piece(&mut out, '\n', Paint::Plain);
                    assert(q@ =~= seq!['"'] + t@ + seq!['"']);
                    proof {
                        delta = seq![
                            text_span(line_prefix(level as nat)),
                            span(seq!['"'] + t@ + seq!['"'], tint(no_color, Paint::Fg(Hue::Green))),
                            text_span(seq!['\n']),
                        ];
                    }
                }
            },
            XmlKind::End => {
                if level > 0 {
                    level = level - 1;
                }
            },
            XmlKind::Eof => {
                proof {
                    assert(spans_of(out@) + seq![] =~= spans_of(out@));
                }
                return Ok(out);
            },
            XmlKind::Error => {
                return Err(SpruceError::XmlParse(ev.content));
            },
            _ => {},
        }
        proof {
            assert(!is_terminal(evs[i].kind));
            assert(i + 1 < evs.len());
            assert(spans_of(out@) =~= before + delta);
            match xt_from(evs, i + 1, level as nat, no_color) {
                Drawn::Spans(rest) => { assert(seq![] + rest =~= rest); },
                Drawn::Failed(_) => {},
            }
            assert(xt_from(evs, i, old_level as nat, no_color) == prepend(delta, xt_from(evs, i + 1, level as nat, no_color)));
            lemma_prepend_assoc(before, delta, xt_from(evs, i + 1, level as nat, no_color));
        }
        proof {
            i = i + 1;
        }
    }
}

/// `res` is the tree view of an XML text: the plain text of its spans without colors, a
/// rendering of them with colors, or the reader's error.
pub open spec fn xml_tree_drawn(content: Seq<char>, no_color: bool, res: Result<String, SpruceError>) -> bool {
    match xml_tree(content, no_color) {
        Drawn::Spans(sp) => res matches Ok(out) && (if no_color {
            out@ == plain_text(sp)
        } else {
            is_rendering(sp, out@)
        }),
        Drawn::Failed(m) => res matches Err(SpruceError::XmlParse(msg)) && msg@ == m,
    }
}

/// Draws the tree view of an XML text.
pub fn format_xml_tree(xml: &str, no_color: bool) -> (res: Result<String, SpruceError>)
    ensures
        xml_tree_drawn(xml@, no_color, res),
{
    let ps = xml_tree_pieces(xml, no_color)?;
    if no_color {
        Ok(render_plain(&ps))
    } else {
        Ok(render(&ps))
    }
}

} // verus!
