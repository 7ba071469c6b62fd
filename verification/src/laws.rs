//! What holds of the library as a whole.
use vstd::prelude::*;
use crate::ansi::{Run, Shade, runs_text, ansi_runs, ansi_from, flushed, apply_code};
use crate::errors::SpruceError;
use crate::format::{Written, fx_from, pretty_xml, format_xml_result, Detection, DataFormat, detection, name_json, name_xml, format_json_result, reindented, tree_json_result, tree_xml_result};
use crate::highlight::{tag_scan, tag_stop, attr_name_spans, hx_step, hx_from, xml_spans, pi_end, lemma_pi_end, lemma_comment_end, lemma_text_end, numeric_numbers, numeric_entries, numeric_items, is_num_char, lit_true, lit_false, lit_null, json_tree_drawn, xml_tree_drawn, xml_tree, Drawn, json_spans, hj_from, hj_step, upto, lemma_upto, jt_spans, jt_entries, jt_items, connector, continuation, text_span, tag_line, attr_spans, empty_mark, line_prefix, is_digit};
use crate::json::{
    JsonData, lemma_sorted_insert, has_key, value_at, keys_sorted, sorted_insert, key_lt, object_entries, array_items, parsed_json,
    compact_json, pretty_json,
};
use crate::paint::{Span, Paint, Hue, span, plain_text, shown, shown_all, is_rendering, style_seq, reset_seq, reset_escaped, tint};
use crate::query::{Step, trim_quotes, parsed_isize, all_digits, digits_value, digit_value, node_json, attr_entries, child_entries, text_key, NodeView, eval_steps, eval_all, child_values, path_steps, flush, bracket_step, query_path, whole_query, attr_insert, attr_lookup, json_query, xml_query, query_json_result, query_xml_result};
use crate::xml::{XmlEvent, XmlKind, xml_events, write_effect};
use crate::text::{lowercase, decimal, digit_char, is_white_space, leading_white, trailing_white, trim_spec, trim_start_spec};

verus! {

// ---------------------------------------------------------------------------
// Colors
// ---------------------------------------------------------------------------

pub open spec fn esc() -> char {
    '\x1b'
}

/// `s` with the escape sequences `ESC [ ... m` taken out.
pub open spec fn strip_ansi(s: Seq<char>) -> Seq<char>
    decreases s.len(),
{
    if s.len() == 0 {
        seq![]
    } else if s[0] == esc() && s.len() >= 2 && s[1] == '[' {
        let m = upto(s, 2, 'm');
        if 2 <= m < s.len() {
            strip_ansi(s.skip(m + 1))
        } else {
            seq![]
        }
    } else {
        seq![s[0]] + strip_ansi(s.skip(1))
    }
}

pub open spec fn no_esc(s: Seq<char>) -> bool {
    !s.contains(esc())
}

proof fn lemma_plain_text_concat(a: Seq<Span>, b: Seq<Span>)
    ensures
        plain_text(a + b) == plain_text(a) + plain_text(b),
    decreases b.len(),
{
    if b.len() == 0 {
        assert(a + b =~= a);
    } else {
        lemma_plain_text_concat(a, b.drop_last());
        assert((a + b).drop_last() =~= a + b.drop_last());
    }
}

proof fn lemma_strip_plain_prefix(x: Seq<char>, y: Seq<char>)
    requires
        no_esc(x),
    ensures
        strip_ansi(x + y) == x + strip_ansi(y),
    decreases x.len(),
{
    if x.len() > 0 {
        assert(x[0] != esc()) by {
            assert(x.contains(x[0]));
        }
        assert(no_esc(x.skip(1))) by {
            if x.skip(1).contains(esc()) {
                let j = choose|j: int| 0 <= j < x.skip(1).len() && x.skip(1)[j] == esc();
                assert(x[j + 1] == esc());
            }
        }
        lemma_strip_plain_prefix(x.skip(1), y);
        assert((x + y).skip(1) =~= x.skip(1) + y);
        assert(x =~= seq![x[0]] + x.skip(1));
    }
}

proof fn lemma_reset_escaped_plain(t: Seq<char>, style: Seq<char>)
    requires
        no_esc(t),
    ensures
        reset_escaped(t, style) == t,
    decreases t.len(),
{
    if t.len() > 0 {
        assert(t[0] != esc()) by {
            assert(t.contains(t[0]));
        }
        if t.len() >= 4 {
            assert(t.take(4)[0] != reset_seq()[0]);
        }
        assert(no_esc(t.skip(1))) by {
            if t.skip(1).contains(esc()) {
                let j = choose|j: int| 0 <= j < t.skip(1).len() && t.skip(1)[j] == esc();
                assert(t[j + 1] == esc());
            }
        }
        lemma_reset_escaped_plain(t.skip(1), style);
        assert(t =~= seq![t[0]] + t.skip(1));
    }
}

proof fn lemma_strip_code(code: Seq<char>, y: Seq<char>)
    requires
        !code.contains('m'),
    ensures
        strip_ansi(seq![esc(), '['] + code + seq!['m'] + y) == strip_ansi(y),
{
    let s = seq![esc(), '['] + code + seq!['m'] + y;
    let m: int = code.len() as int + 2;
    assert(s[m] == 'm');
    assert forall|j: int| 2 <= j < m implies s[j] != 'm' by {
        assert(s[j] == code[j - 2]);
        assert(code.contains(code[j - 2]));
    }
    lemma_upto_first(s, 2, m, 'm');
    assert(s.skip(m + 1) =~= y);
}

proof fn lemma_upto_first(s: Seq<char>, k: int, m: int, c: char)
    requires
        0 <= k <= m < s.len(),
        s[m] == c,
        forall|j: int| k <= j < m ==> s[j] != c,
    ensures
        upto(s, k, c) == m,
    decreases m - k,
{
    if k < m {
        lemma_upto_first(s, k + 1, m, c);
    }
}

proof fn lemma_hue_code_no_m(p: Paint)
    requires
        p != Paint::Plain,
    ensures
        style_seq(p) == seq![esc(), '['] + (style_seq(p).subrange(2, style_seq(p).len() - 1)) + seq!['m'],
        !style_seq(p).subrange(2, style_seq(p).len() - 1).contains('m'),
{
    let st = style_seq(p);
    let code = st.subrange(2, st.len() - 1);
    assert(st =~= seq![esc(), '['] + code + seq!['m']);
    assert forall|j: int| 0 <= j < code.len() implies code[j] != 'm' by {}
}

proof fn lemma_strip_shown(s: Span, on: bool, y: Seq<char>)
    requires
        no_esc(s.text),
    ensures
        strip_ansi(shown(s, on) + y) == s.text + strip_ansi(y),
{
    if on && s.paint != Paint::Plain {
        let st = style_seq(s.paint);
        lemma_reset_escaped_plain(s.text, st);
        lemma_hue_code_no_m(s.paint);
        let code = st.subrange(2, st.len() - 1);
        let rest = s.text + reset_seq() + y;
        assert(shown(s, on) + y =~= seq![esc(), '['] + code + seq!['m'] + rest);
        lemma_strip_code(code, rest);
        lemma_strip_plain_prefix(s.text, reset_seq() + y);
        assert(s.text + reset_seq() + y =~= s.text + (reset_seq() + y));
        assert(!seq!['0'].contains('m')) by {
            assert forall|j: int| 0 <= j < 1 implies seq!['0'][j] != 'm' by {}
        }
        lemma_strip_code(seq!['0'], y);
        assert(reset_seq() + y =~= seq![esc(), '['] + seq!['0'] + seq!['m'] + y);
    } else {
        lemma_strip_plain_prefix(s.text, y);
    }
}

proof fn lemma_strip_shown_all(ss: Seq<Span>, colors: Seq<bool>, y: Seq<char>)
    requires
        colors.len() == ss.len(),
        forall|i: int| 0 <= i < ss.len() ==> no_esc(#[trigger] ss[i].text),
    ensures
        strip_ansi(shown_all(ss, colors) + y) == plain_text(ss) + strip_ansi(y),
    decreases ss.len(),
{
    if ss.len() == 0 {
        assert(shown_all(ss, colors) + y =~= y);
        assert(plain_text(ss) + strip_ansi(y) =~= strip_ansi(y));
    } else {
        let last = ss.last();
        lemma_strip_shown(last, colors.last(), y);
        lemma_strip_shown_all(ss.drop_last(), colors.drop_last(), shown(last, colors.last()) + y);
        assert(shown_all(ss, colors) + y =~= shown_all(ss.drop_last(), colors.drop_last()) + (shown(
            last,
            colors.last(),
        ) + y));
        assert(plain_text(ss) + strip_ansi(y) =~= plain_text(ss.drop_last()) + (last.text + strip_ansi(y)));
    }
}

proof fn lemma_plain_parts_no_esc(ss: Seq<Span>)
    requires
        no_esc(plain_text(ss)),
    ensures
        forall|i: int| 0 <= i < ss.len() ==> no_esc(#[trigger] ss[i].text),
    decreases ss.len(),
{
    if ss.len() > 0 {
        let p = plain_text(ss.drop_last());
        let t = ss.last().text;
        assert(plain_text(ss) == p + t);
        assert(no_esc(p)) by {
            if p.contains(esc()) {
                let j = choose|j: int| 0 <= j < p.len() && p[j] == esc();
                assert((p + t)[j] == esc());
            }
        }
        assert(no_esc(t)) by {
            if t.contains(esc()) {
                let j = choose|j: int| 0 <= j < t.len() && t[j] == esc();
                assert((p + t)[p.len() + j] == esc());
            }
        }
        lemma_plain_parts_no_esc(ss.drop_last());
        assert forall|i: int| 0 <= i < ss.len() implies no_esc(#[trigger] ss[i].text) by {
            if i < ss.len() - 1 {
                assert(ss[i] == ss.drop_last()[i]);
            }
        }
    }
}

/// Colors only add escape codes: whatever the terminal gets for highlighted pieces
/// whose text holds no escape character, taking the escape codes out gives back the
/// plain text.
pub proof fn law_colors_only_add_escape_codes(ss: Seq<Span>, out: Seq<char>)
    requires
        no_esc(plain_text(ss)),
        is_rendering(ss, out),
    ensures
        strip_ansi(out) == plain_text(ss),
{
    lemma_plain_parts_no_esc(ss);
    let colors = choose|colors: Seq<bool>| colors.len() == ss.len() && out == #[trigger] shown_all(ss, colors);
    lemma_strip_shown_all(ss, colors, seq![]);
    assert(out + seq![] =~= out);
    assert(plain_text(ss) + seq![] =~= plain_text(ss));
}

/// Every step of the JSON highlighter emits exactly the characters it moves over.
proof fn lemma_hj_step_text(s: Seq<char>, i: int, ins: bool, esc_: bool, key: bool)
    requires
        0 <= i < s.len(),
    ensures
        i < hj_step(s, i, ins, esc_, key).1 <= s.len(),
        plain_text(hj_step(s, i, ins, esc_, key).0) == s.subrange(i, hj_step(s, i, ins, esc_, key).1),
{
    let (sp, j, a, b, c) = hj_step(s, i, ins, esc_, key);
    crate::highlight::lemma_num_end(s, i + 1);
    let ch = s[i];
    reveal_with_fuel(plain_text, 3);
    if sp.len() == 1 {
        assert(plain_text(sp) =~= sp[0].text) by {
            assert(sp.drop_last() =~= seq![]);
        }
    } else {
        assert(sp.len() == 2);
        assert(plain_text(sp) =~= sp[0].text + sp[1].text) by {
            assert(sp.drop_last().drop_last() =~= seq![]);
        }
    }
    assert(plain_text(sp) =~= s.subrange(i, j));
}

proof fn lemma_hj_from_text(s: Seq<char>, i: int, ins: bool, esc_: bool, key: bool)
    requires
        0 <= i <= s.len(),
    ensures
        plain_text(hj_from(s, i, ins, esc_, key)) == s.skip(i),
    decreases s.len() - i,
{
    if i < s.len() {
        let (sp, j, a, b, c) = hj_step(s, i, ins, esc_, key);
        lemma_hj_step_text(s, i, ins, esc_, key);
        lemma_hj_from_text(s, j, a, b, c);
        lemma_plain_text_concat(sp, hj_from(s, j, a, b, c));
        assert(s.skip(i) =~= s.subrange(i, j) + s.skip(j));
    } else {
        assert(s.skip(i) =~= seq![]);
    }
}

/// The JSON highlighter keeps the text: its pieces, put together without colors, give
/// back the input character for character.
pub proof fn law_json_highlight_keeps_text(s: Seq<char>)
    ensures
        plain_text(json_spans(s)) == s,
{
    lemma_hj_from_text(s, 0, false, false, false);
    assert(s.skip(0) =~= s);
}

// ---------------------------------------------------------------------------
// XML highlighting keeps the text
// ---------------------------------------------------------------------------

/// Whether the scan of an opening tag from `k` (as [`tag_scan`] makes it) finds a close
/// quote for every attribute value it opens and reaches the tag's `>` or `/>`.
pub open spec fn tag_closes(s: Seq<char>, k: int, pend: Seq<char>, attrs: bool) -> bool
    decreases s.len() - k,
{
    if k < 0 || k >= s.len() {
        false
    } else if tag_stop(s, k) {
        true
    } else {
        let c = s[k];
        if !attrs {
            if c == ' ' && pend.len() > 0 {
                tag_closes(s, k + 1, seq![], true)
            } else {
                tag_closes(s, k + 1, pend.push(c), false)
            }
        } else if c == '=' || c == ' ' {
            tag_closes(s, k + 1, seq![], true)
        } else if c == '"' {
            let ve = upto(s, k + 1, '"');
            proof {
                lemma_upto(s, k + 1, '"');
            }
            ve < s.len() && tag_closes(s, ve + 1, seq![], true)
        } else {
            tag_closes(s, k + 1, pend.push(c), true)
        }
    }
}

/// Whether the construct that starts at `i` is closed as the highlighter reads it: a
/// `<` is not the last character, a closing tag has its `>`, and an opening tag closes
/// its attribute values and itself.
pub open spec fn step_closes(s: Seq<char>, i: int) -> bool {
    if s[i] == '<' {
        if i + 1 < s.len() {
            let next = s[i + 1];
            if next == '/' {
                upto(s, i + 2, '>') < s.len()
            } else if next == '?' || next == '!' {
                true
            } else {
                tag_closes(s, i + 1, seq![], false)
            }
        } else {
            false
        }
    } else {
        true
    }
}

/// Whether every construct of XML text from position `i` on is closed, as the
/// highlighter reads it.
pub open spec fn xml_closed_from(s: Seq<char>, i: int) -> bool
    decreases s.len() - i,
{
    if 0 <= i < s.len() {
        let j = hx_step(s, i).1;
        step_closes(s, i) && (i < j <= s.len() ==> xml_closed_from(s, j))
    } else {
        true
    }
}

proof fn lemma_plain_one(a: Span)
    ensures
        plain_text(seq![a]) == a.text,
{
    assert(seq![a].drop_last() =~= Seq::<Span>::empty());
    assert(plain_text(Seq::<Span>::empty()) =~= Seq::<char>::empty());
    assert(plain_text(seq![a]) =~= a.text);
}

proof fn lemma_plain_cons(a: Span, rest: Seq<Span>)
    ensures
        plain_text(seq![a] + rest) == a.text + plain_text(rest),
{
    lemma_plain_one(a);
    lemma_plain_text_concat(seq![a], rest);
}

proof fn lemma_attr_name_plain(pend: Seq<char>, rest: Seq<Span>)
    ensures
        plain_text(attr_name_spans(pend) + rest) == pend + plain_text(rest),
{
    if pend.len() > 0 {
        lemma_plain_cons(span(pend, Paint::Fg(Hue::Yellow)), rest);
    } else {
        assert(attr_name_spans(pend) + rest =~= rest);
        assert(pend + plain_text(rest) =~= plain_text(rest));
    }
}

proof fn lemma_tag_text(s: Seq<char>, k: int, pend: Seq<char>, attrs: bool)
    requires
        0 <= k <= s.len(),
        tag_closes(s, k, pend, attrs),
    ensures
        ({
            let r = tag_scan(s, k, pend, attrs);
            &&& plain_text(r.0) + r.2 == pend + s.subrange(k, r.1)
            &&& k <= r.1 < s.len()
            &&& tag_stop(s, r.1)
        }),
    decreases s.len() - k,
{
    if tag_stop(s, k) {
        assert(plain_text(Seq::<Span>::empty()) =~= Seq::<char>::empty());
        assert(pend + s.subrange(k, k) =~= pend);
    } else {
        let c = s[k];
        if !attrs {
            if c == ' ' && pend.len() > 0 {
                lemma_tag_text(s, k + 1, seq![], true);
                let r = tag_scan(s, k + 1, seq![], true);
                lemma_plain_cons(span(pend, Paint::Fg(Hue::Blue)), seq![span(seq![' '], Paint::Plain)] + r.0);
                lemma_plain_cons(span(seq![' '], Paint::Plain), r.0);
                assert(seq![span(pend, Paint::Fg(Hue::Blue)), span(seq![' '], Paint::Plain)] + r.0 =~= seq![span(pend, Paint::Fg(Hue::Blue))] + (seq![span(seq![' '], Paint::Plain)] + r.0));
                assert(s.subrange(k, r.1) =~= seq![' '] + s.subrange(k + 1, r.1));
                assert(pend + (seq![' '] + plain_text(r.0)) + r.2 =~= pend + (seq![' '] + (plain_text(r.0) + r.2)));
                assert(seq![] + s.subrange(k + 1, r.1) =~= s.subrange(k + 1, r.1));
            } else {
                lemma_tag_text(s, k + 1, pend.push(c), false);
                let r = tag_scan(s, k + 1, pend.push(c), false);
                assert(pend.push(c) + s.subrange(k + 1, r.1) =~= pend + s.subrange(k, r.1));
            }
        } else if c == '=' || c == ' ' {
            lemma_tag_text(s, k + 1, seq![], true);
            let r = tag_scan(s, k + 1, seq![], true);
            let mark = if c == '=' { span(seq!['='], Paint::Fg(Hue::White)) } else { span(seq![' '], Paint::Plain) };
            lemma_plain_cons(mark, r.0);
            lemma_attr_name_plain(pend, seq![mark] + r.0);
            assert(attr_name_spans(pend) + seq![mark] + r.0 =~= attr_name_spans(pend) + (seq![mark] + r.0));
            assert(s.subrange(k, r.1) =~= seq![c] + s.subrange(k + 1, r.1));
            assert(mark.text =~= seq![c]);
            assert(pend + (seq![c] + plain_text(r.0)) + r.2 =~= pend + (seq![c] + (plain_text(r.0) + r.2)));
            assert(seq![] + s.subrange(k + 1, r.1) =~= s.subrange(k + 1, r.1));
        } else if c == '"' {
            let ve = upto(s, k + 1, '"');
            lemma_upto(s, k + 1, '"');
            lemma_upto_hit(s, k + 1, '"');
            lemma_tag_text(s, ve + 1, seq![], true);
            let r = tag_scan(s, ve + 1, seq![], true);
            let q = span(seq!['"'], Paint::Fg(Hue::Yellow));
            let v = span(s.subrange(k + 1, ve), Paint::Fg(Hue::Yellow));
            lemma_plain_cons(q, r.0);
            lemma_plain_cons(v, seq![q] + r.0);
            lemma_plain_cons(q, seq![v] + (seq![q] + r.0));
            assert(seq![q, v, q] + r.0 =~= seq![q] + (seq![v] + (seq![q] + r.0)));
            lemma_attr_name_plain(pend, seq![q, v, q] + r.0);
            assert(attr_name_spans(pend) + seq![q, v, q] + r.0 =~= attr_name_spans(pend) + (seq![q, v, q] + r.0));
            assert(s[ve] == '"');
            assert(s.subrange(k, r.1) =~= seq!['"'] + s.subrange(k + 1, ve) + seq!['"'] + s.subrange(ve + 1, r.1));
            assert(pend + (seq!['"'] + (s.subrange(k + 1, ve) + (seq!['"'] + plain_text(r.0)))) + r.2 =~= pend + (
            seq!['"'] + s.subrange(k + 1, ve) + seq!['"'] + (plain_text(r.0) + r.2)));
            assert(seq![] + s.subrange(ve + 1, r.1) =~= s.subrange(ve + 1, r.1));
        } else {
            lemma_tag_text(s, k + 1, pend.push(c), true);
            let r = tag_scan(s, k + 1, pend.push(c), true);
            assert(pend.push(c) + s.subrange(k + 1, r.1) =~= pend + s.subrange(k, r.1));
        }
    }
}

proof fn lemma_close_tag_text(s: Seq<char>, i: int)
    requires
        0 <= i,
        i + 1 < s.len(),
        s[i] == '<',
        s[i + 1] == '/',
        upto(s, i + 2, '>') < s.len(),
    ensures
        i < hx_step(s, i).1 <= s.len(),
        plain_text(hx_step(s, i).0) == s.subrange(i, hx_step(s, i).1),
{
    let (sp, j) = hx_step(s, i);
    let wb = Paint::BoldFg(Hue::White);
    let e = upto(s, i + 2, '>');
    lemma_upto(s, i + 2, '>');
    lemma_upto_hit(s, i + 2, '>');
    let a = span(seq!['<'], wb);
    let b = span(seq!['/'], wb);
    let c = span(s.subrange(i + 2, e), Paint::Fg(Hue::Blue));
    let d = span(seq!['>'], wb);
    lemma_plain_one(d);
    lemma_plain_cons(c, seq![d]);
    lemma_plain_cons(b, seq![c] + seq![d]);
    lemma_plain_cons(a, seq![b] + (seq![c] + seq![d]));
    assert(sp =~= seq![a] + (seq![b] + (seq![c] + seq![d])));
    assert(j == e + 1);
    assert(s.subrange(i, e + 1) =~= seq!['<', '/'] + s.subrange(i + 2, e) + seq!['>']);
    assert(plain_text(sp) =~= s.subrange(i, j));
}

proof fn lemma_name_plain(r2: Seq<char>, r3: bool, rest: Seq<Span>)
    ensures
        plain_text((if r2.len() > 0 {
            seq![span(r2, if r3 { Paint::Fg(Hue::Yellow) } else { Paint::Fg(Hue::Blue) })]
        } else {
            seq![]
        }) + rest) == r2 + plain_text(rest),
{
    if r2.len() > 0 {
        lemma_plain_cons(span(r2, if r3 { Paint::Fg(Hue::Yellow) } else { Paint::Fg(Hue::Blue) }), rest);
    } else {
        assert(Seq::<Span>::empty() + rest =~= rest);
        assert(r2 + plain_text(rest) =~= plain_text(rest));
    }
}

#[verifier::rlimit(30)]
proof fn lemma_open_tag_text(s: Seq<char>, i: int)
    requires
        0 <= i,
        i + 1 < s.len(),
        s[i] == '<',
        s[i + 1] != '/' && s[i + 1] != '?' && s[i + 1] != '!',
        tag_closes(s, i + 1, seq![], false),
    ensures
        i < hx_step(s, i).1 <= s.len(),
        plain_text(hx_step(s, i).0) == s.subrange(i, hx_step(s, i).1),
{
    let (sp, j) = hx_step(s, i);
    let n = s.len() as int;
    let wb = Paint::BoldFg(Hue::White);
    lemma_tag_text(s, i + 1, seq![], false);
    let r = tag_scan(s, i + 1, seq![], false);
    let name = if r.2.len() > 0 {
        seq![span(r.2, if r.3 { Paint::Fg(Hue::Yellow) } else { Paint::Fg(Hue::Blue) })]
    } else {
        seq![]
    };
    let slash = r.1 < n && s[r.1] == '/';
    let sl = if slash { seq![span(seq!['/'], wb)] } else { seq![] };
    let z = span(seq!['>'], wb);
    let tail = if slash { seq!['/', '>'] } else { seq!['>'] };
    lemma_plain_one(z);
    assert(plain_text(sl + seq![z]) == tail) by {
        if slash {
            lemma_plain_cons(span(seq!['/'], wb), seq![z]);
            assert(seq!['/'] + seq!['>'] =~= tail);
        } else {
            assert(sl + seq![z] =~= seq![z]);
        }
    }
    lemma_name_plain(r.2, r.3, sl + seq![z]);
    lemma_plain_text_concat(r.0, name + (sl + seq![z]));
    lemma_plain_cons(span(seq!['<'], wb), r.0 + (name + (sl + seq![z])));
    assert(sp =~= seq![span(seq!['<'], wb)] + (r.0 + (name + (sl + seq![z]))));
    assert(plain_text(sp) =~= seq!['<'] + (plain_text(r.0) + r.2) + tail);
    assert(Seq::<char>::empty() + s.subrange(i + 1, r.1) =~= s.subrange(i + 1, r.1));
    assert(s.subrange(i, j) =~= seq!['<'] + s.subrange(i + 1, r.1) + tail);
}

proof fn lemma_hx_step_text(s: Seq<char>, i: int)
    requires
        0 <= i < s.len(),
        step_closes(s, i),
    ensures
        i < hx_step(s, i).1 <= s.len(),
        plain_text(hx_step(s, i).0) == s.subrange(i, hx_step(s, i).1),
{
    let (sp, j) = hx_step(s, i);
    let ch = s[i];
    if ch == '<' {
        let next = s[i + 1];
        if next == '/' {
            lemma_close_tag_text(s, i);
        } else if next == '?' {
            let e = pi_end(s, i + 1);
            lemma_pi_end(s, i + 1);
            let a = span(seq!['<'], Paint::Fg(Hue::Blue));
            let b = span(s.subrange(i + 1, e), Paint::Fg(Hue::Blue));
            lemma_plain_one(b);
            lemma_plain_cons(a, seq![b]);
            assert(sp =~= seq![a] + seq![b]);
            assert(plain_text(sp) =~= s.subrange(i, j));
        } else if next == '!' {
            lemma_comment_end(s, i + 2);
            lemma_plain_one(sp[0]);
            assert(sp =~= seq![sp[0]]);
        } else {
            lemma_open_tag_text(s, i);
        }
    } else if ch == '>' {
        lemma_plain_one(sp[0]);
        assert(sp =~= seq![sp[0]]);
        assert(s.subrange(i, i + 1) =~= seq!['>']);
    } else {
        lemma_text_end(s, i + 1);
        lemma_plain_one(sp[0]);
        assert(sp =~= seq![sp[0]]);
    }
}

proof fn lemma_hx_from_text(s: Seq<char>, i: int)
    requires
        0 <= i <= s.len(),
        xml_closed_from(s, i),
    ensures
        plain_text(hx_from(s, i)) == s.skip(i),
    decreases s.len() - i,
{
    if i < s.len() {
        let (sp, j) = hx_step(s, i);
        lemma_hx_step_text(s, i);
        lemma_hx_from_text(s, j);
        lemma_plain_text_concat(sp, hx_from(s, j));
        assert(s.skip(i) =~= s.subrange(i, j) + s.skip(j));
    } else {
        assert(s.skip(i) =~= Seq::<char>::empty());
        assert(plain_text(Seq::<Span>::empty()) =~= Seq::<char>::empty());
    }
}

/// The XML highlighter keeps the text where every construct is closed: its pieces, put
/// together without colors, give back the input character for character, wherever no
/// `<` ends the text, every closing tag has its `>`, and every opening tag its `>` and
/// a close quote for each attribute value it opens.
pub proof fn law_xml_highlight_keeps_closed_text(s: Seq<char>)
    requires
        xml_closed_from(s, 0),
    ensures
        plain_text(xml_spans(s)) == s,
{
    lemma_hx_from_text(s, 0);
    assert(s.skip(0) =~= s);
}

/// Highlighted JSON shows the input: whatever the terminal gets for JSON text without
/// escape characters, taking the escape codes out gives back the text.
pub proof fn law_json_colors_strip_to_input(s: Seq<char>, out: Seq<char>)
    requires
        no_esc(s),
        is_rendering(json_spans(s), out),
    ensures
        strip_ansi(out) == s,
{
    law_json_highlight_keeps_text(s);
    law_colors_only_add_escape_codes(json_spans(s), out);
}

/// Colors are decoration: for the same JSON input and indentation, formatting with
/// colors succeeds exactly where formatting without them does, fails with the same
/// error, and gives output that, with the escape codes taken out, is the plain output
/// (where that holds no escape character).
pub proof fn law_format_json_color_is_decoration(
    content: Seq<char>,
    indent: usize,
    colored: Result<String, SpruceError>,
    plain: Result<String, SpruceError>,
)
    requires
        format_json_result(content, indent, false, colored),
        format_json_result(content, indent, true, plain),
        plain matches Ok(p) ==> no_esc(p@),
    ensures
        colored is Ok <==> plain is Ok,
        colored matches Err(a) ==> plain matches Err(b) && a@ == b@,
        colored matches Ok(c) ==> plain matches Ok(p) && strip_ansi(c@) == p@,
{
    if let Some(d) = parsed_json(content) {
        let t = if indent == 0 { compact_json(d) } else { pretty_json(d) };
        let f = if indent != 2 { reindented(t, indent as nat) } else { Some(t) };
        if let Some(ft) = f {
            if let Ok(c) = colored {
                law_json_colors_strip_to_input(ft, c@);
            }
        }
    }
}

/// Colors are decoration for JSON queries too: with and without colors a query on the
/// same input succeeds or fails alike, and the colored answer, with the escape codes
/// taken out, is the plain one (where that holds no escape character).
pub proof fn law_query_json_color_is_decoration(
    content: Seq<char>,
    query: Seq<char>,
    colored: Result<String, SpruceError>,
    plain: Result<String, SpruceError>,
)
    requires
        query_json_result(content, query, false, colored),
        query_json_result(content, query, true, plain),
        plain matches Ok(p) ==> no_esc(p@),
    ensures
        colored is Ok <==> plain is Ok,
        colored matches Err(a) ==> plain matches Err(b) && a@ == b@,
        colored matches Ok(c) ==> plain matches Ok(p) && strip_ansi(c@) == p@,
{
    if let Some(d) = parsed_json(content) {
        if let Ok(r) = json_query(d, query) {
            if let Ok(c) = colored {
                law_json_colors_strip_to_input(pretty_json(r), c@);
            }
        }
    }
}

/// Colors are decoration for XML queries as well, whose answers are JSON.
pub proof fn law_query_xml_color_is_decoration(
    content: Seq<char>,
    query: Seq<char>,
    colored: Result<String, SpruceError>,
    plain: Result<String, SpruceError>,
)
    requires
        query_xml_result(content, query, false, colored),
        query_xml_result(content, query, true, plain),
        plain matches Ok(p) ==> no_esc(p@),
    ensures
        colored is Ok <==> plain is Ok,
        colored matches Err(a) ==> plain matches Err(b) && a@ == b@,
        colored matches Ok(c) ==> plain matches Ok(p) && strip_ansi(c@) == p@,
{
    if let Ok(d) = xml_query(content, query) {
        if let Ok(c) = colored {
            law_json_colors_strip_to_input(pretty_json(d), c@);
        }
    }
}

/// The texts of spans, without their paints.
pub open spec fn span_texts(ss: Seq<Span>) -> Seq<Seq<char>> {
    ss.map_values(|s: Span| s.text)
}

proof fn lemma_texts_concat(a: Seq<Span>, b: Seq<Span>)
    ensures
        span_texts(a + b) == span_texts(a) + span_texts(b),
{
    assert(span_texts(a + b) =~= span_texts(a) + span_texts(b));
}

proof fn lemma_same_texts_same_plain(a: Seq<Span>, b: Seq<Span>)
    requires
        span_texts(a) == span_texts(b),
    ensures
        plain_text(a) == plain_text(b),
    decreases a.len(),
{
    assert(a.len() == span_texts(a).len());
    assert(b.len() == span_texts(b).len());
    if a.len() > 0 {
        assert(span_texts(a.drop_last()) =~= span_texts(a).drop_last());
        assert(span_texts(b.drop_last()) =~= span_texts(b).drop_last());
        assert(a.last().text == span_texts(a)[a.len() - 1]);
        assert(b.last().text == span_texts(b)[b.len() - 1]);
        lemma_same_texts_same_plain(a.drop_last(), b.drop_last());
    }
}

proof fn lemma_jt_spans_texts(d: JsonData, prefix: Seq<char>)
    ensures
        span_texts(jt_spans(d, prefix, true)) == span_texts(jt_spans(d, prefix, false)),
    decreases d, 1nat, 0nat,
{
    match d {
        JsonData::Object(es) => {
            lemma_jt_entries_texts(d, 0, prefix);
            let tail = if es.len() > 0 { seq![text_span(prefix)] } else { seq![] };
            let head = seq![text_span(seq!['{', '\n'])];
            let end = seq![text_span(seq!['}', '\n'])];
            lemma_texts_concat(head, jt_entries(d, 0, prefix, true));
            lemma_texts_concat(head, jt_entries(d, 0, prefix, false));
            lemma_texts_concat(head + jt_entries(d, 0, prefix, true), tail);
            lemma_texts_concat(head + jt_entries(d, 0, prefix, false), tail);
            lemma_texts_concat(head + jt_entries(d, 0, prefix, true) + tail, end);
            lemma_texts_concat(head + jt_entries(d, 0, prefix, false) + tail, end);
        },
        JsonData::Array(items) => {
            lemma_jt_items_texts(d, 0, prefix);
            let tail = if items.len() > 0 { seq![text_span(prefix)] } else { seq![] };
            let head = seq![text_span(seq!['[', '\n'])];
            let end = seq![text_span(seq![']', '\n'])];
            lemma_texts_concat(head, jt_items(d, 0, prefix, true));
            lemma_texts_concat(head, jt_items(d, 0, prefix, false));
            lemma_texts_concat(head + jt_items(d, 0, prefix, true), tail);
            lemma_texts_concat(head + jt_items(d, 0, prefix, false), tail);
            lemma_texts_concat(head + jt_items(d, 0, prefix, true) + tail, end);
            lemma_texts_concat(head + jt_items(d, 0, prefix, false) + tail, end);
        },
        _ => {
            assert(span_texts(jt_spans(d, prefix, true)) =~= span_texts(jt_spans(d, prefix, false)));
        },
    }
}

proof fn lemma_jt_entries_texts(d: JsonData, i: nat, prefix: Seq<char>)
    ensures
        span_texts(jt_entries(d, i, prefix, true)) == span_texts(jt_entries(d, i, prefix, false)),
    decreases d, 0nat, object_entries(d).len() - i,
{
    let es = object_entries(d);
    if i < es.len() {
        let last = i == es.len() - 1;
        assert(decreases_to!(d => es));
        let child = es[i as int].1;
        let cp = prefix + continuation(last);
        lemma_jt_spans_texts(child, cp);
        lemma_jt_entries_texts(d, i + 1, prefix);
        let h1 = seq![
            text_span(prefix + connector(last)),
            span(es[i as int].0, tint(true, Paint::Fg(Hue::Cyan))),
            text_span(seq![':', ' ']),
        ];
        let h2 = seq![
            text_span(prefix + connector(last)),
            span(es[i as int].0, tint(false, Paint::Fg(Hue::Cyan))),
            text_span(seq![':', ' ']),
        ];
        assert(span_texts(h1) =~= span_texts(h2));
        lemma_texts_concat(h1, jt_spans(child, cp, true));
        lemma_texts_concat(h2, jt_spans(child, cp, false));
        lemma_texts_concat(h1 + jt_spans(child, cp, true), jt_entries(d, i + 1, prefix, true));
        lemma_texts_concat(h2 + jt_spans(child, cp, false), jt_entries(d, i + 1, prefix, false));
    }
}

proof fn lemma_jt_items_texts(d: JsonData, i: nat, prefix: Seq<char>)
    ensures
        span_texts(jt_items(d, i, prefix, true)) == span_texts(jt_items(d, i, prefix, false)),
    decreases d, 0nat, array_items(d).len() - i,
{
    let items = array_items(d);
    if i < items.len() {
        let last = i == items.len() - 1;
        assert(decreases_to!(d => items));
        let child = items[i as int];
        let cp = prefix + continuation(last);
        let idx = seq!['['] + decimal(i) + seq![']'];
        lemma_jt_spans_texts(child, cp);
        lemma_jt_items_texts(d, i + 1, prefix);
        let lead = if prefix.len() == 0 { prefix + connector(last) + seq![' '] } else { prefix + connector(last) };
        let h1 = seq![text_span(lead), span(idx, tint(true, Paint::BoldFg(Hue::White))), text_span(seq![' '])];
        let h2 = seq![text_span(lead), span(idx, tint(false, Paint::BoldFg(Hue::White))), text_span(seq![' '])];
        assert(span_texts(h1) =~= span_texts(h2));
        lemma_texts_concat(h1, jt_spans(child, cp, true));
        lemma_texts_concat(h2, jt_spans(child, cp, false));
        lemma_texts_concat(h1 + jt_spans(child, cp, true), jt_items(d, i + 1, prefix, true));
        lemma_texts_concat(h2 + jt_spans(child, cp, false), jt_items(d, i + 1, prefix, false));
    }
}

/// The JSON tree view does not depend on whether the drawn value is the last of its
/// parent's: drawn without colors, the tree of a value under a prefix is one text for
/// either `is_last`.
pub proof fn law_json_tree_ignores_is_last(
    d: JsonData,
    prefix: Seq<char>,
    last1: bool,
    last2: bool,
    out1: Seq<char>,
    out2: Seq<char>,
)
    requires
        json_tree_drawn(d, prefix, last1, true, out1),
        json_tree_drawn(d, prefix, last2, true, out2),
    ensures
        out1 == out2,
{
}

/// Colors are decoration in the JSON tree view under any prefix: the colored tree, with
/// the escape codes taken out, is the plain tree (where that holds no escape character),
/// whatever `is_last` each call was given.
pub proof fn law_json_tree_drawn_color_is_decoration(
    d: JsonData,
    prefix: Seq<char>,
    last1: bool,
    last2: bool,
    colored: Seq<char>,
    plain: Seq<char>,
)
    requires
        json_tree_drawn(d, prefix, last1, false, colored),
        json_tree_drawn(d, prefix, last2, true, plain),
        no_esc(plain),
    ensures
        strip_ansi(colored) == plain,
{
    lemma_jt_spans_texts(d, prefix);
    lemma_same_texts_same_plain(jt_spans(d, prefix, true), jt_spans(d, prefix, false));
    law_colors_only_add_escape_codes(jt_spans(d, prefix, false), colored);
}

/// Whether no string and no object key in JSON data holds an escape character.
pub open spec fn esc_free_text(d: JsonData) -> bool
    decreases d, 1nat, 0nat,
{
    match d {
        JsonData::Str(t) => no_esc(t),
        JsonData::Object(_) => esc_free_entries(d, 0),
        JsonData::Array(_) => esc_free_items(d, 0),
        _ => true,
    }
}

/// Whether no key and no string in the entries of the object `d` from the `i`-th on
/// holds an escape character.
pub open spec fn esc_free_entries(d: JsonData, i: nat) -> bool
    decreases d, 0nat, object_entries(d).len() - i,
{
    let es = object_entries(d);
    if i < es.len() {
        proof {
            assert(decreases_to!(d => es));
        }
        no_esc(es[i as int].0) && esc_free_text(es[i as int].1) && esc_free_entries(d, i + 1)
    } else {
        true
    }
}

/// Whether no string in the items of the array `d` from the `i`-th on holds an escape
/// character.
pub open spec fn esc_free_items(d: JsonData, i: nat) -> bool
    decreases d, 0nat, array_items(d).len() - i,
{
    let items = array_items(d);
    if i < items.len() {
        proof {
            assert(decreases_to!(d => items));
        }
        esc_free_text(items[i as int]) && esc_free_items(d, i + 1)
    } else {
        true
    }
}

/// Whether no span's text holds an escape character.
pub open spec fn spans_clean(ss: Seq<Span>) -> bool {
    forall|i: int| 0 <= i < ss.len() ==> no_esc(#[trigger] ss[i].text)
}

proof fn lemma_no_esc_concat(x: Seq<char>, y: Seq<char>)
    requires
        no_esc(x),
        no_esc(y),
    ensures
        no_esc(x + y),
{
    if (x + y).contains(esc()) {
        let j = choose|j: int| 0 <= j < (x + y).len() && (x + y)[j] == esc();
        if j < x.len() {
            assert(x[j] == esc());
            assert(x.contains(esc()));
        } else {
            assert(y[j - x.len()] == esc());
            assert(y.contains(esc()));
        }
    }
}

proof fn lemma_no_esc_chars(s: Seq<char>)
    requires
        forall|i: int| 0 <= i < s.len() ==> #[trigger] s[i] != esc(),
    ensures
        no_esc(s),
{
    if s.contains(esc()) {
        let j = choose|j: int| 0 <= j < s.len() && s[j] == esc();
        assert(s[j] != esc());
    }
}

proof fn lemma_clean_concat(a: Seq<Span>, b: Seq<Span>)
    requires
        spans_clean(a),
        spans_clean(b),
    ensures
        spans_clean(a + b),
{
    assert forall|i: int| 0 <= i < (a + b).len() implies no_esc(#[trigger] (a + b)[i].text) by {
        if i < a.len() {
            assert((a + b)[i] == a[i]);
        } else {
            assert((a + b)[i] == b[i - a.len()]);
        }
    }
}

proof fn lemma_clean_plain(ss: Seq<Span>)
    requires
        spans_clean(ss),
    ensures
        no_esc(plain_text(ss)),
    decreases ss.len(),
{
    if ss.len() == 0 {
        lemma_no_esc_chars(plain_text(ss));
    } else {
        assert(spans_clean(ss.drop_last())) by {
            assert forall|i: int| 0 <= i < ss.drop_last().len() implies no_esc(#[trigger] ss.drop_last()[i].text) by {
                assert(ss.drop_last()[i] == ss[i]);
            }
        }
        lemma_clean_plain(ss.drop_last());
        assert(no_esc(ss[ss.len() - 1].text));
        lemma_no_esc_concat(plain_text(ss.drop_last()), ss.last().text);
    }
}

proof fn lemma_decimal_no_esc(n: nat)
    ensures
        no_esc(decimal(n)),
    decreases n,
{
    if n < 10 {
        lemma_no_esc_chars(decimal(n));
    } else {
        lemma_decimal_no_esc(n / 10);
        lemma_no_esc_chars(seq![crate::text::digit_char(n % 10)]);
        assert(decimal(n) =~= decimal(n / 10) + seq![crate::text::digit_char(n % 10)]);
        lemma_no_esc_concat(decimal(n / 10), seq![crate::text::digit_char(n % 10)]);
    }
}

proof fn lemma_marks_no_esc(last: bool)
    ensures
        no_esc(connector(last)),
        no_esc(continuation(last)),
        no_esc(seq!['{', '\n']),
        no_esc(seq!['}', '\n']),
        no_esc(seq!['[', '\n']),
        no_esc(seq![']', '\n']),
        no_esc(seq![':', ' ']),
        no_esc(seq![' ']),
        no_esc(seq!['\n']),
        no_esc(seq!['"']),
        no_esc(seq!['[']),
        no_esc(seq![']']),
        no_esc(seq![]),
        no_esc(lit_true()),
        no_esc(lit_false()),
        no_esc(lit_null()),
{
    lemma_no_esc_chars(connector(last));
    lemma_no_esc_chars(continuation(last));
    lemma_no_esc_chars(seq!['{', '\n']);
    lemma_no_esc_chars(seq!['}', '\n']);
    lemma_no_esc_chars(seq!['[', '\n']);
    lemma_no_esc_chars(seq![']', '\n']);
    lemma_no_esc_chars(seq![':', ' ']);
    lemma_no_esc_chars(seq![' ']);
    lemma_no_esc_chars(seq!['\n']);
    lemma_no_esc_chars(seq!['"']);
    lemma_no_esc_chars(seq!['[']);
    lemma_no_esc_chars(seq![']']);
    lemma_no_esc_chars(seq![]);
    lemma_no_esc_chars(lit_true());
    lemma_no_esc_chars(lit_false());
    lemma_no_esc_chars(lit_null());
}

proof fn lemma_jt_clean(d: JsonData, prefix: Seq<char>, nc: bool)
    requires
        numeric_numbers(d),
        esc_free_text(d),
        no_esc(prefix),
    ensures
        spans_clean(jt_spans(d, prefix, nc)),
    decreases d, 1nat, 0nat,
{
    lemma_marks_no_esc(true);
    match d {
        JsonData::Object(es) => {
            lemma_jt_entries_clean(d, 0, prefix, nc);
            let head = seq![text_span(seq!['{', '\n'])];
            let tail = if es.len() > 0 { seq![text_span(prefix)] } else { seq![] };
            let end = seq![text_span(seq!['}', '\n'])];
            lemma_clean_concat(head, jt_entries(d, 0, prefix, nc));
            lemma_clean_concat(head + jt_entries(d, 0, prefix, nc), tail);
            lemma_clean_concat(head + jt_entries(d, 0, prefix, nc) + tail, end);
        },
        JsonData::Array(items) => {
            lemma_jt_items_clean(d, 0, prefix, nc);
            let head = seq![text_span(seq!['[', '\n'])];
            let tail = if items.len() > 0 { seq![text_span(prefix)] } else { seq![] };
            let end = seq![text_span(seq![']', '\n'])];
            lemma_clean_concat(head, jt_items(d, 0, prefix, nc));
            lemma_clean_concat(head + jt_items(d, 0, prefix, nc), tail);
            lemma_clean_concat(head + jt_items(d, 0, prefix, nc) + tail, end);
        },
        JsonData::Str(t) => {
            lemma_no_esc_concat(seq!['"'], t);
            lemma_no_esc_concat(seq!['"'] + t, seq!['"']);
        },
        JsonData::Number(t) => {
            assert forall|i: int| 0 <= i < t.len() implies #[trigger] t[i] != esc() by {
                assert(is_num_char(t[i]));
            }
            lemma_no_esc_chars(t);
        },
        _ => {},
    }
}

proof fn lemma_jt_entries_clean(d: JsonData, i: nat, prefix: Seq<char>, nc: bool)
    requires
        numeric_entries(d, i),
        esc_free_entries(d, i),
        no_esc(prefix),
    ensures
        spans_clean(jt_entries(d, i, prefix, nc)),
    decreases d, 0nat, object_entries(d).len() - i,
{
    let es = object_entries(d);
    if i < es.len() {
        let last = i == es.len() - 1;
        assert(decreases_to!(d => es));
        lemma_marks_no_esc(last);
        lemma_no_esc_concat(prefix, connector(last));
        lemma_no_esc_concat(prefix, continuation(last));
        lemma_jt_clean(es[i as int].1, prefix + continuation(last), nc);
        lemma_jt_entries_clean(d, i + 1, prefix, nc);
        let h = seq![
            text_span(prefix + connector(last)),
            span(es[i as int].0, tint(nc, Paint::Fg(Hue::Cyan))),
            text_span(seq![':', ' ']),
        ];
        assert(spans_clean(h));
        lemma_clean_concat(h, jt_spans(es[i as int].1, prefix + continuation(last), nc));
        lemma_clean_concat(h + jt_spans(es[i as int].1, prefix + continuation(last), nc), jt_entries(d, i + 1, prefix, nc));
    }
}

proof fn lemma_jt_items_clean(d: JsonData, i: nat, prefix: Seq<char>, nc: bool)
    requires
        numeric_items(d, i),
        esc_free_items(d, i),
        no_esc(prefix),
    ensures
        spans_clean(jt_items(d, i, prefix, nc)),
    decreases d, 0nat, array_items(d).len() - i,
{
    let items = array_items(d);
    if i < items.len() {
        let last = i == items.len() - 1;
        assert(decreases_to!(d => items));
        lemma_marks_no_esc(last);
        lemma_no_esc_concat(prefix, connector(last));
        lemma_no_esc_concat(prefix + connector(last), seq![' ']);
        lemma_no_esc_concat(prefix, continuation(last));
        lemma_decimal_no_esc(i);
        lemma_no_esc_concat(seq!['['], decimal(i));
        lemma_no_esc_concat(seq!['['] + decimal(i), seq![']']);
        lemma_jt_clean(items[i as int], prefix + continuation(last), nc);
        lemma_jt_items_clean(d, i + 1, prefix, nc);
        let idx = seq!['['] + decimal(i) + seq![']'];
        let lead = if prefix.len() == 0 { prefix + connector(last) + seq![' '] } else { prefix + connector(last) };
        let h = seq![text_span(lead), span(idx, tint(nc, Paint::BoldFg(Hue::White))), text_span(seq![' '])];
        assert(spans_clean(h));
        lemma_clean_concat(h, jt_spans(items[i as int], prefix + continuation(last), nc));
        lemma_clean_concat(h + jt_spans(items[i as int], prefix + continuation(last), nc), jt_items(d, i + 1, prefix, nc));
    }
}

/// Colors are decoration in the JSON tree view of data whose keys and strings hold no
/// escape character, under a prefix that holds none: the plain tree holds no escape
/// character, and the colored tree, with the escape codes taken out, is the plain tree.
/// (The numbers of any value that the tree is drawn from are written with number
/// characters alone, as [`format_json_tree`](crate::highlight::format_json_tree) ensures.)
pub proof fn law_json_tree_of_clean_data_color_is_decoration(
    d: JsonData,
    prefix: Seq<char>,
    last1: bool,
    last2: bool,
    colored: Seq<char>,
    plain: Seq<char>,
)
    requires
        json_tree_drawn(d, prefix, last1, false, colored),
        json_tree_drawn(d, prefix, last2, true, plain),
        numeric_numbers(d),
        esc_free_text(d),
        no_esc(prefix),
    ensures
        no_esc(plain),
        strip_ansi(colored) == plain,
{
    lemma_jt_clean(d, prefix, true);
    lemma_clean_plain(jt_spans(d, prefix, true));
    law_json_tree_drawn_color_is_decoration(d, prefix, last1, last2, colored, plain);
}

/// The XML tree view of the `tree` command is the XML tree drawing: without colors both
/// give the same text or the same error; with colors both fail alike or give texts that,
/// with the escape codes taken out, are the same (where the drawn text holds no escape
/// character).
pub proof fn law_tree_xml_is_xml_tree_drawing(
    content: Seq<char>,
    no_color: bool,
    a: Result<String, SpruceError>,
    b: Result<String, SpruceError>,
)
    requires
        tree_xml_result(content, no_color, a),
        xml_tree_drawn(content, no_color, b),
        xml_tree(content, no_color) matches Drawn::Spans(sp) ==> no_esc(plain_text(sp)),
    ensures
        a is Ok <==> b is Ok,
        a matches Err(x) ==> b matches Err(y) && x@ == y@,
        no_color ==> (a matches Ok(p) ==> b matches Ok(q) && p@ == q@),
        !no_color ==> (a matches Ok(p) ==> b matches Ok(q) && strip_ansi(p@) == strip_ansi(q@)),
{
    if let Drawn::Spans(sp) = xml_tree(content, no_color) {
        if !no_color {
            if let Ok(p) = a {
                if let Ok(q) = b {
                    law_colors_only_add_escape_codes(sp, p@);
                    law_colors_only_add_escape_codes(sp, q@);
                }
            }
        }
    }
}

/// Colors are decoration in the JSON tree view: with and without colors the tree of the
/// same input is drawn or refused alike, and the colored tree, with the escape codes
/// taken out, is the plain tree (where that holds no escape character).
pub proof fn law_tree_json_color_is_decoration(
    content: Seq<char>,
    colored: Result<String, SpruceError>,
    plain: Result<String, SpruceError>,
)
    requires
        tree_json_result(content, false, colored),
        tree_json_result(content, true, plain),
        plain matches Ok(p) ==> no_esc(p@),
    ensures
        colored is Ok <==> plain is Ok,
        colored matches Err(a) ==> plain matches Err(b) && a@ == b@,
        colored matches Ok(c) ==> plain matches Ok(p) && strip_ansi(c@) == p@,
{
    if let Some(d) = parsed_json(content) {
        lemma_jt_spans_texts(d, seq![]);
        lemma_same_texts_same_plain(jt_spans(d, seq![], true), jt_spans(d, seq![], false));
        if let Ok(c) = colored {
            law_colors_only_add_escape_codes(jt_spans(d, seq![], false), c@);
        }
    }
}

// ---------------------------------------------------------------------------
// Reading colors back
// ---------------------------------------------------------------------------

/// Every escape character of `s` from position `i` on begins an escape sequence: a `[`
/// follows it.
pub open spec fn escapes_lead_codes(s: Seq<char>, i: int) -> bool {
    forall|j: int| i <= j < s.len() && #[trigger] s[j] == esc() ==> j + 1 < s.len() && s[j + 1] == '['
}

proof fn lemma_runs_text_concat(a: Seq<Run>, b: Seq<Run>)
    ensures
        runs_text(a + b) == runs_text(a) + runs_text(b),
    decreases b.len(),
{
    if b.len() == 0 {
        assert(a + b =~= a);
    } else {
        lemma_runs_text_concat(a, b.drop_last());
        assert((a + b).drop_last() =~= a + b.drop_last());
    }
}

proof fn lemma_flushed_text(buf: Seq<char>, fg: Option<Shade>)
    ensures
        runs_text(flushed(buf, fg)) == buf,
{
    let r = flushed(buf, fg);
    if buf.len() > 0 {
        assert(r.drop_last() =~= seq![]);
        assert(runs_text(r.drop_last()) =~= seq![]);
        assert(r.last().text == buf);
        assert(runs_text(r) =~= buf);
    } else {
        assert(buf =~= seq![]);
    }
}

proof fn lemma_upto_skip(s: Seq<char>, i: int, k: int, c: char)
    requires
        0 <= i <= s.len(),
        0 <= k,
    ensures
        upto(s.skip(i), k, c) == upto(s, i + k, c) - i,
    decreases s.len() - (i + k),
{
    if i + k < s.len() && s[i + k] != c {
        lemma_upto_skip(s, i, k + 1, c);
    }
}

proof fn lemma_ansi_from_text(s: Seq<char>, i: int, buf: Seq<char>, fg: Option<Shade>)
    requires
        0 <= i <= s.len(),
        escapes_lead_codes(s, i),
    ensures
        runs_text(ansi_from(s, i, buf, fg)) == buf + strip_ansi(s.skip(i)),
    decreases s.len() - i,
{
    let t = s.skip(i);
    if i >= s.len() {
        lemma_flushed_text(buf, fg);
        assert(t.len() == 0);
        assert(buf + strip_ansi(t) =~= buf);
    } else if s[i] == esc() {
        assert(i + 1 < s.len() && s[i + 1] == '[');
        let m = upto(s, i + 2, 'm');
        lemma_upto(s, i + 2, 'm');
        lemma_upto_skip(s, i, 2, 'm');
        let next = if m < s.len() { m + 1 } else { s.len() as int };
        let f2 = apply_code(fg, s.subrange(i + 2, m), 0);
        lemma_ansi_from_text(s, next, seq![], f2);
        lemma_flushed_text(buf, fg);
        lemma_runs_text_concat(flushed(buf, fg), ansi_from(s, next, seq![], f2));
        assert(t[0] == esc() && t[1] == '[');
        if m < s.len() {
            assert(t.skip(m - i + 1) =~= s.skip(m + 1));
        } else {
            assert(s.skip(next) =~= seq![]);
            assert(seq![] + strip_ansi(s.skip(next)) =~= seq![]);
        }
    } else {
        lemma_ansi_from_text(s, i + 1, buf.push(s[i]), fg);
        assert(t[0] == s[i]);
        assert(t.skip(1) =~= s.skip(i + 1));
        assert(buf.push(s[i]) + strip_ansi(s.skip(i + 1)) =~= buf + (seq![s[i]] + strip_ansi(t.skip(1))));
    }
}

/// Reading colors back drops exactly the escape codes: where every escape character
/// begins an escape sequence, the runs of one color that a text is cut into spell the
/// text with its escape codes taken out.
pub proof fn law_ansi_runs_spell_stripped_text(s: Seq<char>)
    requires
        escapes_lead_codes(s, 0),
    ensures
        runs_text(ansi_runs(s)) == strip_ansi(s),
{
    lemma_ansi_from_text(s, 0, seq![], None);
    assert(s.skip(0) =~= s);
    assert(seq![] + strip_ansi(s) =~= strip_ansi(s));
}

proof fn lemma_leads_concat(a: Seq<char>, b: Seq<char>)
    requires
        escapes_lead_codes(a, 0),
        escapes_lead_codes(b, 0),
    ensures
        escapes_lead_codes(a + b, 0),
{
    let s = a + b;
    assert forall|j: int| 0 <= j < s.len() && #[trigger] s[j] == esc() implies j + 1 < s.len() && s[j + 1] == '[' by {
        if j < a.len() {
            assert(a[j] == esc());
            assert(s[j + 1] == a[j + 1]);
        } else {
            assert(b[j - a.len()] == esc());
            assert(s[j + 1] == b[j + 1 - a.len()]);
        }
    }
}

proof fn lemma_plain_leads(t: Seq<char>)
    requires
        no_esc(t),
    ensures
        escapes_lead_codes(t, 0),
{
    assert forall|j: int| 0 <= j < t.len() && #[trigger] t[j] == esc() implies j + 1 < t.len() && t[j + 1] == '[' by {
        assert(t.contains(t[j]));
    }
}

proof fn lemma_code_leads(code: Seq<char>)
    requires
        no_esc(code),
    ensures
        escapes_lead_codes(seq![esc(), '['] + code + seq!['m'], 0),
{
    let s = seq![esc(), '['] + code + seq!['m'];
    assert forall|j: int| 0 <= j < s.len() && #[trigger] s[j] == esc() implies j + 1 < s.len() && s[j + 1] == '[' by {
        if j > 0 {
            if j == 1 {
            } else if j < s.len() - 1 {
                assert(s[j] == code[j - 2]);
                assert(code.contains(code[j - 2]));
            }
        }
    }
}

proof fn lemma_shown_leads(sp: Span, on: bool)
    requires
        no_esc(sp.text),
    ensures
        escapes_lead_codes(shown(sp, on), 0),
{
    if on && sp.paint != Paint::Plain {
        let st = style_seq(sp.paint);
        lemma_reset_escaped_plain(sp.text, st);
        lemma_hue_code_no_m(sp.paint);
        let code = st.subrange(2, st.len() - 1);
        assert(no_esc(code)) by {
            assert forall|j: int| 0 <= j < code.len() implies code[j] != esc() by {}
        }
        lemma_code_leads(code);
        lemma_plain_leads(sp.text);
        assert(no_esc(seq!['0'])) by {
            assert forall|j: int| 0 <= j < 1 implies seq!['0'][j] != esc() by {}
        }
        lemma_code_leads(seq!['0']);
        assert(reset_seq() =~= seq![esc(), '['] + seq!['0'] + seq!['m']);
        lemma_leads_concat(st, sp.text);
        lemma_leads_concat(st + sp.text, reset_seq());
        assert(shown(sp, on) =~= st + sp.text + reset_seq());
    } else {
        lemma_plain_leads(sp.text);
    }
}

proof fn lemma_shown_all_leads(ss: Seq<Span>, colors: Seq<bool>)
    requires
        colors.len() == ss.len(),
        forall|i: int| 0 <= i < ss.len() ==> no_esc(#[trigger] ss[i].text),
    ensures
        escapes_lead_codes(shown_all(ss, colors), 0),
    decreases ss.len(),
{
    if ss.len() == 0 {
        assert(shown_all(ss, colors) =~= seq![]);
    } else {
        lemma_shown_all_leads(ss.drop_last(), colors.drop_last());
        lemma_shown_leads(ss.last(), colors.last());
        lemma_leads_concat(shown_all(ss.drop_last(), colors.drop_last()), shown(ss.last(), colors.last()));
    }
}

/// The window shows the text of highlighted output: the runs of one color that the
/// terminal text of highlighted pieces is read back into spell the pieces' plain text,
/// where that holds no escape character.
pub proof fn law_colors_read_back_to_text(ss: Seq<Span>, out: Seq<char>)
    requires
        no_esc(plain_text(ss)),
        is_rendering(ss, out),
    ensures
        runs_text(ansi_runs(out)) == plain_text(ss),
{
    lemma_plain_parts_no_esc(ss);
    let colors = choose|colors: Seq<bool>| colors.len() == ss.len() && out == #[trigger] shown_all(ss, colors);
    lemma_shown_all_leads(ss, colors);
    law_ansi_runs_spell_stripped_text(out);
    law_colors_only_add_escape_codes(ss, out);
}

// ---------------------------------------------------------------------------
// Format detection
// ---------------------------------------------------------------------------

/// An explicit format hint wins over the file name and the content.
pub proof fn law_detect_hint_wins(content: Seq<char>, path: Option<Seq<char>>, hint: Seq<char>)
    ensures
        lowercase(hint) == name_json() ==> detection(content, path, Some(hint)) == Detection::Found(DataFormat::Json),
        lowercase(hint) == name_xml() ==> detection(content, path, Some(hint)) == Detection::Found(DataFormat::Xml),
{
}

/// Without a hint or a telling file name, content that begins (after white space) with
/// `{` or `[` is JSON and content that begins with `<` is XML.
pub proof fn law_detect_by_content(content: Seq<char>)
    ensures
        ({
            let t = crate::text::trim_start_spec(content);
            &&& t.len() > 0 && (t[0] == '{' || t[0] == '[') ==> detection(content, None, None) == Detection::Found(DataFormat::Json)
            &&& t.len() > 0 && t[0] == '<' ==> detection(content, None, None) == Detection::Found(DataFormat::Xml)
        }),
{
}

// ---------------------------------------------------------------------------
// Queries
// ---------------------------------------------------------------------------

pub open spec fn no_wildcard(steps: Seq<Step>) -> bool {
    forall|i: int| 0 <= i < steps.len() ==> !(#[trigger] steps[i] is Wildcard)
}

proof fn lemma_eval_same_rest(d: JsonData, s1: Seq<Step>, i: int, s2: Seq<Step>, j: int)
    requires
        0 <= i <= s1.len(),
        0 <= j <= s2.len(),
        s1.skip(i) == s2.skip(j),
    ensures
        eval_steps(d, s1, i) == eval_steps(d, s2, j),
    decreases s1.len() - i, 0nat, 0nat,
{
    assert(s1.len() - i == s2.skip(j).len());
    if i < s1.len() {
        assert(s1[i] == s1.skip(i)[0]);
        assert(s2[j] == s2.skip(j)[0]);
        assert(s1.skip(i + 1) =~= s1.skip(i).skip(1));
        assert(s2.skip(j + 1) =~= s2.skip(j).skip(1));
        match s1[i] {
            Step::Key(k) => match d {
                JsonData::Object(es) => if has_key(es, k) {
                    lemma_eval_same_rest(value_at(es, k), s1, i + 1, s2, j + 1);
                },
                _ => {},
            },
            Step::Index(n) => match d {
                JsonData::Array(items) => {
                    let idx = if n < 0 { items.len() + n } else { n as int };
                    if !(n < 0 && items.len() == 0) && 0 <= idx < items.len() {
                        lemma_eval_same_rest(items[idx], s1, i + 1, s2, j + 1);
                    }
                },
                _ => {},
            },
            Step::Wildcard => match d {
                JsonData::Object(_) | JsonData::Array(_) => {
                    lemma_eval_all_same_rest(child_values(d), s1, i + 1, s2, j + 1);
                },
                _ => {},
            },
        }
    }
}

proof fn lemma_eval_all_same_rest(xs: Seq<JsonData>, s1: Seq<Step>, i: int, s2: Seq<Step>, j: int)
    requires
        0 <= i <= s1.len(),
        0 <= j <= s2.len(),
        s1.skip(i) == s2.skip(j),
    ensures
        eval_all(xs, s1, i) == eval_all(xs, s2, j),
    decreases s1.len() - i, 1nat, xs.len(),
{
    if xs.len() > 0 {
        lemma_eval_all_same_rest(xs.drop_last(), s1, i, s2, j);
        lemma_eval_same_rest(xs.last(), s1, i, s2, j);
    }
}

proof fn lemma_eval_steps_shift(d: JsonData, steps: Seq<Step>, i: int)
    requires
        0 <= i <= steps.len(),
    ensures
        eval_steps(d, steps, i) == eval_steps(d, steps.skip(i), 0),
{
    assert(steps.skip(i).skip(0) =~= steps.skip(i));
    lemma_eval_same_rest(d, steps, i, steps.skip(i), 0);
}

proof fn lemma_eval_steps_concat(d: JsonData, a: Seq<Step>, b: Seq<Step>, i: int)
    requires
        0 <= i <= a.len(),
        no_wildcard(a),
    ensures
        eval_steps(d, a + b, i) == match eval_steps(d, a, i) {
            Ok(r) => eval_steps(r, b, 0),
            Err(e) => Err(e),
        },
    decreases a.len() - i,
{
    if i == a.len() {
        lemma_eval_steps_shift(d, a + b, i);
        assert((a + b).skip(i) =~= b);
    } else {
        assert((a + b)[i] == a[i]);
        assert(!(a[i] is Wildcard));
        match a[i] {
            Step::Key(k) => match d {
                JsonData::Object(es) => if has_key(es, k) {
                    lemma_eval_steps_concat(value_at(es, k), a, b, i + 1);
                },
                _ => {},
            },
            Step::Index(n) => match d {
                JsonData::Array(items) => {
                    let idx = if n < 0 { items.len() + n } else { n as int };
                    if !(n < 0 && items.len() == 0) && 0 <= idx < items.len() {
                        lemma_eval_steps_concat(items[idx], a, b, i + 1);
                    }
                },
                _ => {},
            },
            Step::Wildcard => {},
        }
    }
}

/// Queries chain: applying the steps `a` and then, to their result, the steps `b` is
/// applying `a` followed by `b`, where `a` has no wildcard (a wildcard ends a query).
pub proof fn law_query_steps_chain(d: JsonData, a: Seq<Step>, b: Seq<Step>)
    requires
        no_wildcard(a),
    ensures
        eval_steps(d, a + b, 0) == match eval_steps(d, a, 0) {
            Ok(r) => eval_steps(r, b, 0),
            Err(e) => Err(e),
        },
{
    lemma_eval_steps_concat(d, a, b, 0);
}

/// A path that chains with another: it begins with neither `.` nor `[`, holds no white
/// space and no `*`, and every `[` in it is closed by a `]` in it.
pub open spec fn chainable_path(p: Seq<char>) -> bool {
    &&& p.len() > 0
    &&& p[0] != '.' && p[0] != '['
    &&& forall|i: int| 0 <= i < p.len() ==> !is_white_space(#[trigger] p[i]) && p[i] != '*'
    &&& forall|i: int| 0 <= i < p.len() && #[trigger] p[i] == '[' ==> upto(p, i, ']') < p.len()
}

proof fn lemma_upto_hit(s: Seq<char>, k: int, c: char)
    requires
        0 <= k <= s.len(),
    ensures
        upto(s, k, c) < s.len() ==> s[upto(s, k, c)] == c,
        k < s.len() && s[k] != c ==> upto(s, k, c) > k,
    decreases s.len() - k,
{
    if k < s.len() && s[k] != c {
        lemma_upto_hit(s, k + 1, c);
        lemma_upto(s, k + 1, c);
    }
}

proof fn lemma_upto_extend(p: Seq<char>, r: Seq<char>, j: int, c: char)
    requires
        0 <= j <= p.len(),
        upto(p, j, c) < p.len(),
    ensures
        upto(p + r, j, c) == upto(p, j, c),
    decreases p.len() - j,
{
    assert((p + r)[j] == p[j]);
    if p[j] != c {
        lemma_upto_extend(p, r, j + 1, c);
    }
}

proof fn lemma_path_steps_skip(t: Seq<char>, off: int, k: int, key: Seq<char>)
    requires
        0 <= off <= t.len(),
        0 <= k <= t.len() - off,
    ensures
        path_steps(t, off + k, key) == path_steps(t.skip(off), k, key),
    decreases t.len() - off - k,
{
    let u = t.skip(off);
    if off + k < t.len() {
        assert(u[k] == t[off + k]);
        if t[off + k] == '.' {
            lemma_path_steps_skip(t, off, k + 1, seq![]);
        } else if t[off + k] == '[' {
            lemma_upto_skip(t, off, k, ']');
            lemma_upto(t, off + k, ']');
            let end = upto(t, off + k, ']');
            let next = if end < t.len() { end + 1 } else { t.len() as int };
            if off + k < next && off + k < end {
                assert(u.subrange(k + 1, end - off) =~= t.subrange(off + k + 1, end));
                lemma_path_steps_skip(t, off, next - off, seq![]);
            }
        } else {
            lemma_path_steps_skip(t, off, k + 1, key.push(t[off + k]));
        }
    }
}

proof fn lemma_path_steps_join(p: Seq<char>, q: Seq<char>, j: int, key: Seq<char>)
    requires
        0 <= j <= p.len(),
        forall|i: int| 0 <= i < p.len() && #[trigger] p[i] == '[' ==> upto(p, i, ']') < p.len(),
    ensures
        path_steps(p + seq!['.'] + q, j, key) == path_steps(p, j, key) + path_steps(q, 0, seq![]),
    decreases p.len() - j,
{
    let t = p + seq!['.'] + q;
    if j == p.len() {
        assert(t[j] == '.');
        lemma_path_steps_skip(t, p.len() as int + 1, 0, seq![]);
        assert(t.skip(p.len() as int + 1) =~= q);
    } else {
        assert(t[j] == p[j]);
        if p[j] == '.' {
            lemma_path_steps_join(p, q, j + 1, seq![]);
            assert(flush(key) + path_steps(p, j + 1, seq![]) + path_steps(q, 0, seq![]) =~= flush(key) + (
            path_steps(p, j + 1, seq![]) + path_steps(q, 0, seq![])));
        } else if p[j] == '[' {
            lemma_upto(p, j, ']');
            lemma_upto_hit(p, j, ']');
            lemma_upto_extend(p, seq!['.'] + q, j, ']');
            assert(p + (seq!['.'] + q) =~= t);
            let end = upto(p, j, ']');
            assert(j < end < p.len());
            assert(t.subrange(j + 1, end) =~= p.subrange(j + 1, end));
            lemma_path_steps_join(p, q, end + 1, seq![]);
            let st = flush(key) + bracket_step(p.subrange(j + 1, end));
            assert(st + path_steps(p, end + 1, seq![]) + path_steps(q, 0, seq![]) =~= st + (path_steps(p, end + 1, seq![])
                + path_steps(q, 0, seq![])));
        } else {
            lemma_path_steps_join(p, q, j + 1, key.push(p[j]));
        }
    }
}

proof fn lemma_no_star_no_wildcard(s: Seq<char>, p: int, key: Seq<char>)
    requires
        0 <= p <= s.len(),
        forall|i: int| 0 <= i < s.len() ==> #[trigger] s[i] != '*',
        forall|i: int| 0 <= i < key.len() ==> #[trigger] key[i] != '*',
    ensures
        no_wildcard(path_steps(s, p, key)),
    decreases s.len() - p,
{
    if key == seq!['*'] {
        assert(key[0] == '*');
    }
    if p < s.len() {
        if s[p] == '.' {
            lemma_no_star_no_wildcard(s, p + 1, seq![]);
        } else if s[p] == '[' {
            lemma_upto(s, p, ']');
            lemma_upto_hit(s, p, ']');
            let end = upto(s, p, ']');
            let next = if end < s.len() { end + 1 } else { s.len() as int };
            if p < next <= s.len() && p < end {
                let inner = s.subrange(p + 1, end);
                if inner == seq!['*'] {
                    assert(inner.len() == 1);
                    assert(inner[0] == s[p + 1]);
                }
                lemma_no_star_no_wildcard(s, next, seq![]);
            }
        } else {
            lemma_no_star_no_wildcard(s, p + 1, key.push(s[p]));
        }
    }
}

proof fn lemma_dot_query(p: Seq<char>)
    requires
        chainable_path(p),
    ensures
        json_query_path_of(seq!['.'] + p) == p,
{
    let q = seq!['.'] + p;
    assert(!is_white_space(q[0]));
    assert(q.last() == p.last());
    assert(!is_white_space(p[p.len() - 1]));
    assert(leading_white(q) == 0);
    assert(trim_start_spec(q) =~= q);
    assert(trailing_white(q) == 0);
    assert(trim_spec(q) =~= q);
    assert(q.skip(1) =~= p);
}

/// The path a non-whole query reads.
pub open spec fn json_query_path_of(query: Seq<char>) -> Seq<char> {
    query_path(trim_spec(query))
}

/// Queries chain through their text: asking `.p.q` of JSON data is asking `.p` and then
/// `.q` of its answer, for chainable paths `p` and `q`.
pub proof fn law_query_text_chain(d: JsonData, p: Seq<char>, q: Seq<char>)
    requires
        chainable_path(p),
        chainable_path(q),
    ensures
        json_query(d, seq!['.'] + p + seq!['.'] + q) == match json_query(d, seq!['.'] + p) {
            Ok(r) => json_query(r, seq!['.'] + q),
            Err(e) => Err(e),
        },
{
    let t = p + seq!['.'] + q;
    assert(seq!['.'] + p + seq!['.'] + q =~= seq!['.'] + t);
    assert(chainable_path(t)) by {
        assert(t[0] == p[0]);
        assert forall|i: int| 0 <= i < t.len() implies !is_white_space(#[trigger] t[i]) && t[i] != '*' by {
            if i < p.len() {
                assert(t[i] == p[i]);
            } else if i > p.len() {
                assert(t[i] == q[i - p.len() - 1]);
            }
        }
        assert forall|i: int| 0 <= i < t.len() && #[trigger] t[i] == '[' implies upto(t, i, ']') < t.len() by {
            if i < p.len() {
                assert(t[i] == p[i]);
                lemma_upto_extend(p, seq!['.'] + q, i, ']');
                assert(p + (seq!['.'] + q) =~= t);
                lemma_upto(p, i, ']');
            } else {
                assert(i > p.len());
                assert(t[i] == q[i - p.len() - 1]);
                lemma_upto_skip(t, p.len() as int + 1, i - p.len() - 1, ']');
                assert(t.skip(p.len() as int + 1) =~= q);
                lemma_upto(q, i - p.len() - 1, ']');
            }
        }
    }
    lemma_dot_query(p);
    lemma_dot_query(q);
    lemma_dot_query(t);
    assert(!whole_query(seq!['.'] + p)) by { assert((seq!['.'] + p).len() >= 2); }
    assert(!whole_query(seq!['.'] + q)) by { assert((seq!['.'] + q).len() >= 2); }
    assert(!whole_query(seq!['.'] + t)) by { assert((seq!['.'] + t).len() >= 2); }
    lemma_path_steps_join(p, q, 0, seq![]);
    lemma_no_star_no_wildcard(p, 0, seq![]);
    law_query_steps_chain(d, path_steps(p, 0, seq![]), path_steps(q, 0, seq![]));
}

/// A negative index counts from the end: `[-1]` selects the last item of an array.
pub proof fn law_negative_index_from_end(items: Seq<JsonData>, n: isize)
    requires
        n < 0,
        -n <= items.len(),
    ensures
        eval_steps(JsonData::Array(items), seq![Step::Index(n)], 0) == Ok::<JsonData, crate::errors::Failure>(
            items[items.len() + n],
        ),
{
    assert(eval_steps(items[items.len() + n], seq![Step::Index(n)], 1) == Ok::<JsonData, crate::errors::Failure>(
        items[items.len() + n],
    ));
}

// ---------------------------------------------------------------------------
// Reads after writes
// ---------------------------------------------------------------------------

/// Reading an element's attribute gives what was last set for its key, and setting one
/// key leaves the others as they were.
pub proof fn law_attribute_read_after_write(attrs: Seq<(Seq<char>, Seq<char>)>, k: Seq<char>, v: Seq<char>, k2: Seq<char>)
    ensures
        attr_lookup(attr_insert(attrs, k, v), k) == Some(v),
        k2 != k ==> attr_lookup(attr_insert(attrs, k, v), k2) == attr_lookup(attrs, k2),
    decreases attrs.len(),
{
    let r = attr_insert(attrs, k, v);
    if attrs.len() == 0 {
        assert(r.skip(1) =~= seq![]);
        if k2 != k {
            assert(r[0].0 != k2);
            assert(attr_lookup(r, k2) == attr_lookup(r.skip(1), k2));
        }
    } else {
        if attrs[0].0 == k {
            assert(r.skip(1) =~= attrs.skip(1));
            if k2 != k {
                assert(attr_lookup(r, k2) == attr_lookup(r.skip(1), k2));
                assert(attr_lookup(attrs, k2) == attr_lookup(attrs.skip(1), k2));
            }
        } else {
            law_attribute_read_after_write(attrs.skip(1), k, v, k2);
            assert(r.skip(1) =~= attr_insert(attrs.skip(1), k, v));
            assert(r[0] == attrs[0]);
        }
    }
}

/// In the entries of a JSON object built by inserting into sorted entries, the key
/// inserted is there with the value inserted, and every other key keeps its value.
pub proof fn law_object_read_after_write(es: Seq<(Seq<char>, JsonData)>, k: Seq<char>, v: JsonData, k2: Seq<char>)
    requires
        keys_sorted(es),
    ensures
        has_key(sorted_insert(es, k, v), k),
        value_at(sorted_insert(es, k, v), k) == v,
        k2 != k ==> has_key(sorted_insert(es, k, v), k2) == has_key(es, k2),
        k2 != k ==> value_at(sorted_insert(es, k, v), k2) == value_at(es, k2),
    decreases es.len(),
{
    let r = sorted_insert(es, k, v);
    if es.len() == 0 {
        assert(r[0].0 == k);
        assert(r.skip(1) =~= seq![]);
        if k2 != k {
            assert(!has_key(r, k2));
            assert(value_at(r, k2) == value_at(r.skip(1), k2));
        }
    } else if es[0].0 == k {
        assert(r[0].0 == k);
        assert(r.skip(1) =~= es.skip(1));
        if k2 != k {
            assert(value_at(r, k2) == value_at(r.skip(1), k2));
            assert(value_at(es, k2) == value_at(es.skip(1), k2));
            assert(has_key(r, k2) == has_key(es, k2)) by {
                if has_key(es, k2) {
                    let i = choose|i: int| 0 <= i < es.len() && (#[trigger] es[i]).0 == k2;
                    assert(r[i].0 == k2);
                }
                if has_key(r, k2) {
                    let i = choose|i: int| 0 <= i < r.len() && (#[trigger] r[i]).0 == k2;
                    assert(es[i].0 == k2);
                }
            }
        }
    } else if key_lt(k, es[0].0) {
        assert(r[0].0 == k);
        assert(r.skip(1) =~= es);
        if k2 != k {
            assert(value_at(r, k2) == value_at(r.skip(1), k2));
            assert(has_key(r, k2) == has_key(es, k2)) by {
                if has_key(es, k2) {
                    let i = choose|i: int| 0 <= i < es.len() && (#[trigger] es[i]).0 == k2;
                    assert(r[i + 1].0 == k2);
                }
                if has_key(r, k2) {
                    let i = choose|i: int| 0 <= i < r.len() && (#[trigger] r[i]).0 == k2;
                    assert(es[i - 1].0 == k2);
                }
            }
        }
    } else {
        let rest = es.skip(1);
        assert(keys_sorted(rest)) by {
            assert forall|i: int, j: int| 0 <= i < j < rest.len() implies key_lt(#[trigger] rest[i].0, #[trigger] rest[j].0) by {
                assert(rest[i] == es[i + 1] && rest[j] == es[j + 1]);
            }
        }
        law_object_read_after_write(rest, k, v, k2);
        let r2 = sorted_insert(rest, k, v);
        assert(r =~= seq![es[0]] + r2);
        assert(r.skip(1) =~= r2);
        let i0 = choose|i: int| 0 <= i < r2.len() && (#[trigger] r2[i]).0 == k;
        assert(r[i0 + 1].0 == k);
        if k2 != k {
            assert(has_key(r, k2) == has_key(es, k2)) by {
                if has_key(es, k2) {
                    let i = choose|i: int| 0 <= i < es.len() && (#[trigger] es[i]).0 == k2;
                    if i == 0 {
                        assert(r[0].0 == k2);
                    } else {
                        assert(rest[i - 1].0 == k2);
                        let i2 = choose|i2: int| 0 <= i2 < r2.len() && (#[trigger] r2[i2]).0 == k2;
                        assert(r[i2 + 1].0 == k2);
                    }
                }
                if has_key(r, k2) {
                    let i = choose|i: int| 0 <= i < r.len() && (#[trigger] r[i]).0 == k2;
                    if i == 0 {
                        assert(es[0].0 == k2);
                    } else {
                        assert(r2[i - 1].0 == k2);
                        let i2 = choose|i2: int| 0 <= i2 < rest.len() && (#[trigger] rest[i2]).0 == k2;
                        assert(es[i2 + 1].0 == k2);
                    }
                }
            }
        }
    }
}

// ---------------------------------------------------------------------------
// Quoted keys in brackets
// ---------------------------------------------------------------------------

/// A bracket that holds a quoted key is that key, even when the key is made of digits:
/// for a key `k` with no quote and no `]` in it, the path `['k']` has the one step
/// `Key(k)`.
pub proof fn law_quoted_bracket_is_key(k: Seq<char>)
    requires
        forall|i: int| 0 <= i < k.len() ==> #[trigger] k[i] != '\'' && k[i] != ']',
    ensures
        path_steps(seq!['[', '\''] + k + seq!['\'', ']'], 0, seq![]) == seq![Step::Key(k)],
{
    let s = seq!['[', '\''] + k + seq!['\'', ']'];
    let n = k.len() as int;
    assert(s.len() == n + 4);
    assert(s[0] == '[');
    assert(s[n + 3] == ']');
    assert forall|j: int| 0 <= j < n + 3 implies s[j] != ']' by {
        if 2 <= j < n + 2 {
            assert(s[j] == k[j - 2]);
        }
    }
    lemma_upto_first(s, 0, n + 3, ']');
    let inner = s.subrange(1, n + 3);
    assert(inner =~= seq!['\''] + k + seq!['\'']);
    assert(inner != seq!['*']) by {
        assert(inner.len() != 1);
    }
    assert(parsed_isize(inner) is None) by {
        assert(inner[0] == '\'');
        assert(!is_digit(inner[0]));
        assert(!all_digits(inner));
    }
    let kq = k + seq!['\''];
    assert(inner.skip(1) =~= kq);
    assert(trim_quotes(kq) == k) by {
        if n == 0 {
            assert(kq =~= seq!['\'']);
            assert(kq.skip(1) =~= k);
            assert(trim_quotes(k) == k);
        } else {
            assert(kq[0] == k[0]);
            assert(kq.last() == '\'');
            assert(kq.drop_last() =~= k);
            assert(k.last() == k[n - 1]);
            assert(trim_quotes(k) == k);
            assert(trim_quotes(kq) == trim_quotes(kq.drop_last()));
        }
    }
    assert(path_steps(s, n + 4, seq![]) == Seq::<Step>::empty());
    assert(path_steps(s, 0, seq![]) =~= seq![Step::Key(k)]);
}

proof fn lemma_plain_key_steps(k: Seq<char>, p: int)
    requires
        0 <= p <= k.len(),
        forall|i: int| 0 <= i < k.len() ==> #[trigger] k[i] != '.' && k[i] != '[',
    ensures
        path_steps(k, p, k.subrange(0, p)) == flush(k),
    decreases k.len() - p,
{
    if p < k.len() {
        assert(k.subrange(0, p).push(k[p]) =~= k.subrange(0, p + 1));
        lemma_plain_key_steps(k, p + 1);
    } else {
        assert(k.subrange(0, p) =~= k);
    }
}

/// A path without dots and brackets is one key, or the wildcard where it is `*`.
pub proof fn law_plain_path_is_one_key(k: Seq<char>)
    requires
        k.len() > 0,
        forall|i: int| 0 <= i < k.len() ==> #[trigger] k[i] != '.' && k[i] != '[',
    ensures
        path_steps(k, 0, seq![]) == (if k == seq!['*'] {
            seq![Step::Wildcard]
        } else {
            seq![Step::Key(k)]
        }),
{
    lemma_plain_key_steps(k, 0);
    assert(k.subrange(0, 0) =~= Seq::<char>::empty());
}

proof fn lemma_decimal_digits(n: nat)
    ensures
        decimal(n).len() > 0,
        all_digits(decimal(n)),
        digits_value(decimal(n)) == n,
    decreases n,
{
    let d = decimal(n);
    if n < 10 {
        assert(d.drop_last() =~= Seq::<char>::empty());
        assert(digits_value(Seq::<char>::empty()) == 0);
        assert(d.last() == digit_char(n));
        assert(digit_value(digit_char(n)) == n);
        assert(digits_value(d) == digits_value(d.drop_last()) * 10 + digit_value(d.last()));
        assert(is_digit(d[0]));
    } else {
        lemma_decimal_digits(n / 10);
        assert(d.drop_last() =~= decimal(n / 10));
        assert(digit_value(digit_char(n % 10)) == n % 10);
        assert(is_digit(digit_char(n % 10)));
        assert forall|i: int| 0 <= i < d.len() implies is_digit(#[trigger] d[i]) by {
            if i < d.len() - 1 {
                assert(d[i] == decimal(n / 10)[i]);
            }
        }
        assert(d.last() == digit_char(n % 10));
        assert(digits_value(d) == digits_value(d.drop_last()) * 10 + digit_value(d.last()));
        assert((n / 10) * 10 + n % 10 == n);
    }
}

/// A bracket that holds a number is an index: for `n` in the range of `isize`, the path
/// `[n]` (or `[-n]`) has the one step `Index(n)` (or `Index(-n)`).
pub proof fn law_number_bracket_is_index(n: nat, negative: bool)
    requires
        if negative { n <= isize::MAX + 1 } else { n <= isize::MAX },
    ensures
        path_steps(seq!['['] + (if negative { seq!['-'] } else { seq![] }) + decimal(n) + seq![']'], 0, seq![]) == seq![
            Step::Index((if negative { -n } else { n as int }) as isize),
        ],
{
    let sign: Seq<char> = if negative { seq!['-'] } else { seq![] };
    let inner = sign + decimal(n);
    let s = seq!['['] + inner + seq![']'];
    assert(s =~= seq!['['] + sign + decimal(n) + seq![']']);
    lemma_decimal_digits(n);
    let m = inner.len() as int;
    assert(s.len() == m + 2);
    assert(s[m + 1] == ']');
    assert forall|j: int| 0 <= j < m + 1 implies s[j] != ']' by {
        if j > 0 {
            assert(s[j] == inner[j - 1]);
            if !negative || j > 1 {
                assert(inner[j - 1] == decimal(n)[j - 1 - sign.len()]);
                assert(is_digit(decimal(n)[j - 1 - sign.len()]));
            }
        }
    }
    lemma_upto_first(s, 0, m + 1, ']');
    assert(s.subrange(1, m + 1) =~= inner);
    let dg = decimal(n);
    assert(is_digit(dg[0]));
    if negative {
        assert(inner[0] == '-');
        assert(inner.skip(1) =~= dg);
    } else {
        assert(inner =~= dg);
        assert(inner[0] != '-' && inner[0] != '+');
    }
    assert(parsed_isize(inner) == Some(((if negative { -n } else { n as int }) as isize)));
    assert(inner != seq!['*']) by {
        if inner.len() == 1 {
            assert(!negative);
            assert(inner[0] != '*');
        }
    }
    assert(path_steps(s, m + 2, seq![]) == Seq::<Step>::empty());
    assert(path_steps(s, 0, seq![]) =~= seq![Step::Index((if negative { -n } else { n as int }) as isize)]);
}

// ---------------------------------------------------------------------------
// Trees of booleans
// ---------------------------------------------------------------------------

/// The tree of a boolean shows its own value: the word `true` where it holds and
/// `false` where it does not, then a line break unless it stands at the root.
pub proof fn law_tree_bool_shows_value(b: bool, prefix: Seq<char>, nc: bool)
    ensures
        plain_text(jt_spans(JsonData::Bool(b), prefix, nc)) == (if b {
            seq!['t', 'r', 'u', 'e']
        } else {
            seq!['f', 'a', 'l', 's', 'e']
        }) + (if prefix.len() == 0 {
            seq![]
        } else {
            seq!['\n']
        }),
{
    let ss = jt_spans(JsonData::Bool(b), prefix, nc);
    assert(ss =~= seq![ss[0]] + seq![ss[1]]);
    lemma_plain_cons(ss[0], seq![ss[1]]);
    lemma_plain_one(ss[1]);
}

/// The tree of any other scalar shows it as it is: a string between double quotes, a
/// number by its text, null as `null`; each followed by a line break unless it stands at
/// the root.
pub proof fn law_tree_scalar_shows_value(d: JsonData, prefix: Seq<char>, nc: bool)
    requires
        !(d is Object || d is Array || d is Bool),
    ensures
        plain_text(jt_spans(d, prefix, nc)) == match d {
            JsonData::Str(t) => seq!['"'] + t + seq!['"'],
            JsonData::Number(t) => t,
            _ => seq!['n', 'u', 'l', 'l'],
        } + (if prefix.len() == 0 {
            seq![]
        } else {
            seq!['\n']
        }),
{
    let ss = jt_spans(d, prefix, nc);
    assert(ss =~= seq![ss[0]] + seq![ss[1]]);
    lemma_plain_cons(ss[0], seq![ss[1]]);
    lemma_plain_one(ss[1]);
}

/// An object with one boolean entry is drawn as `{`, the last-branch line `key: true`
/// or `key: false`, and `}`.
pub proof fn law_tree_bool_entry(k: Seq<char>, b: bool, nc: bool)
    ensures
        plain_text(jt_spans(JsonData::Object(seq![(k, JsonData::Bool(b))]), seq![], nc)) == seq!['{', '\n', '└', '─', '─', ' ']
            + k + seq![':', ' '] + (if b {
            seq!['t', 'r', 'u', 'e']
        } else {
            seq!['f', 'a', 'l', 's', 'e']
        }) + seq!['\n', '}', '\n'],
{
    let d = JsonData::Object(seq![(k, JsonData::Bool(b))]);
    let empty: Seq<char> = seq![];
    let word = if b { seq!['t', 'r', 'u', 'e'] } else { seq!['f', 'a', 'l', 's', 'e'] };
    let head = seq![
        text_span(empty + connector(true)),
        span(k, tint(nc, Paint::Fg(Hue::Cyan))),
        text_span(seq![':', ' ']),
    ];
    let val = jt_spans(JsonData::Bool(b), empty + continuation(true), nc);
    assert(jt_entries(d, 1, empty, nc) == Seq::<Span>::empty());
    let e0 = jt_entries(d, 0, empty, nc);
    assert(e0 == head + val + Seq::<Span>::empty());
    assert(head + val + Seq::<Span>::empty() =~= head + val);
    law_tree_bool_shows_value(b, empty + continuation(true), nc);
    assert(plain_text(val) == word + seq!['\n']);
    assert(plain_text(head) == connector(true) + k + seq![':', ' ']) by {
        assert(head =~= seq![head[0]] + (seq![head[1]] + seq![head[2]]));
        lemma_plain_cons(head[0], seq![head[1]] + seq![head[2]]);
        lemma_plain_cons(head[1], seq![head[2]]);
        lemma_plain_one(head[2]);
        assert(empty + connector(true) =~= connector(true));
        assert(connector(true) + (k + seq![':', ' ']) =~= connector(true) + k + seq![':', ' ']);
    }
    lemma_plain_text_concat(head, val);
    let open = seq![text_span(seq!['{', '\n'])];
    let gap = seq![text_span(empty)];
    let close = seq![text_span(seq!['}', '\n'])];
    assert(jt_spans(d, empty, nc) == open + e0 + gap + close);
    lemma_plain_text_concat(open + e0 + gap, close);
    lemma_plain_text_concat(open + e0, gap);
    lemma_plain_text_concat(open, e0);
    lemma_plain_one(open[0]);
    lemma_plain_one(gap[0]);
    lemma_plain_one(close[0]);
    assert(connector(true) =~= seq!['└', '─', '─', ' ']);
    assert(plain_text(jt_spans(d, empty, nc)) =~= seq!['{', '\n', '└', '─', '─', ' '] + k + seq![':', ' '] + word
        + seq!['\n', '}', '\n']);
}

// ---------------------------------------------------------------------------
// Attributes of elements as JSON
// ---------------------------------------------------------------------------

/// The JSON key under which an attribute `k` stands: `@k`.
pub open spec fn at_key(k: Seq<char>) -> Seq<char> {
    seq!['@'] + k
}

proof fn lemma_at_key_injective(a: Seq<char>, b: Seq<char>)
    ensures
        at_key(a) == at_key(b) ==> a == b,
{
    if at_key(a) == at_key(b) {
        assert(at_key(a).skip(1) =~= a);
        assert(at_key(b).skip(1) =~= b);
    }
}

proof fn lemma_attr_entries_hold(attrs: Seq<(Seq<char>, Seq<char>)>, j: int, base: Seq<(Seq<char>, JsonData)>)
    requires
        0 <= j <= attrs.len(),
        keys_sorted(base),
        forall|a: int, b: int| 0 <= a < b < attrs.len() ==> #[trigger] attrs[a].0 != #[trigger] attrs[b].0,
    ensures
        keys_sorted(attr_entries(attrs, j, base)),
        forall|a: int|
            0 <= a < j ==> has_key(attr_entries(attrs, j, base), #[trigger] at_key(attrs[a].0)) && value_at(
                attr_entries(attrs, j, base),
                at_key(attrs[a].0),
            ) == JsonData::Str(attrs[a].1),
        forall|x: Seq<char>|
            (forall|a: int| 0 <= a < j ==> x != #[trigger] at_key(attrs[a].0)) ==> has_key(
                attr_entries(attrs, j, base),
                x,
            ) == has_key(base, x) && value_at(attr_entries(attrs, j, base), x) == value_at(base, x),
    decreases j,
{
    if j > 0 {
        lemma_attr_entries_hold(attrs, j - 1, base);
        let prev = attr_entries(attrs, j - 1, base);
        let k = at_key(attrs[j - 1].0);
        let v = JsonData::Str(attrs[j - 1].1);
        assert(attr_entries(attrs, j, base) == sorted_insert(prev, k, v));
        lemma_sorted_insert(prev, k, v);
        assert forall|a: int| 0 <= a < j implies has_key(attr_entries(attrs, j, base), #[trigger] at_key(attrs[a].0))
            && value_at(attr_entries(attrs, j, base), at_key(attrs[a].0)) == JsonData::Str(attrs[a].1) by {
            law_object_read_after_write(prev, k, v, at_key(attrs[a].0));
            if a < j - 1 {
                lemma_at_key_injective(attrs[a].0, attrs[j - 1].0);
                assert(attrs[a].0 != attrs[j - 1].0);
            }
        }
        assert forall|x: Seq<char>| (forall|a: int| 0 <= a < j ==> x != #[trigger] at_key(attrs[a].0)) implies has_key(
            attr_entries(attrs, j, base),
            x,
        ) == has_key(base, x) && value_at(attr_entries(attrs, j, base), x) == value_at(base, x) by {
            law_object_read_after_write(prev, k, v, x);
            assert(x != at_key(attrs[j - 1].0));
            assert forall|a: int| 0 <= a < j - 1 implies x != #[trigger] at_key(attrs[a].0) by {
                assert(x != at_key(attrs[a].0));
            }
        }
    }
}

/// An element without children turns, where it has attributes, into a JSON object,
/// never into its bare name or text: the object holds `@k` with the value `v` of each
/// attribute `k="v"`, and `#text` with its text where it has any.
pub proof fn law_attribute_leaf_json(n: NodeView)
    requires
        n.children.len() == 0,
        n.attrs.len() > 0,
        forall|a: int, b: int| 0 <= a < b < n.attrs.len() ==> #[trigger] n.attrs[a].0 != #[trigger] n.attrs[b].0,
    ensures
        node_json(n) is Object,
        forall|a: int|
            0 <= a < n.attrs.len() ==> has_key(object_entries(node_json(n)), #[trigger] at_key(n.attrs[a].0))
                && value_at(object_entries(node_json(n)), at_key(n.attrs[a].0)) == JsonData::Str(n.attrs[a].1),
        n.text.len() > 0 ==> has_key(object_entries(node_json(n)), seq!['#', 't', 'e', 'x', 't'])
            && value_at(object_entries(node_json(n)), seq!['#', 't', 'e', 'x', 't']) == JsonData::Str(n.text),
{
    let base: Seq<(Seq<char>, JsonData)> = if n.text.len() > 0 {
        seq![(text_key(), JsonData::Str(n.text))]
    } else {
        seq![]
    };
    assert(keys_sorted(base));
    lemma_attr_entries_hold(n.attrs, n.attrs.len() as int, base);
    if n.text.len() > 0 {
        let tk = seq!['#', 't', 'e', 'x', 't'];
        assert(tk =~= text_key());
        assert forall|a: int| 0 <= a < n.attrs.len() implies tk != #[trigger] at_key(n.attrs[a].0) by {
            assert(at_key(n.attrs[a].0)[0] == '@');
            assert(tk[0] == '#');
        }
        assert(base[0].0 == tk);
        assert(has_key(base, tk));
        assert(value_at(base, tk) == JsonData::Str(n.text));
    }
}

/// An element with neither children nor attributes turns into a JSON string: its text
/// where it has any, else its name.
pub proof fn law_bare_leaf_json(n: NodeView)
    requires
        n.children.len() == 0,
        n.attrs.len() == 0,
    ensures
        node_json(n) == JsonData::Str(if n.text.len() > 0 { n.text } else { n.name }),
{
}

/// Whether no child of `n` after the `j`-th one has its name.
pub open spec fn last_of_name(n: NodeView, j: int, end: int) -> bool {
    forall|l: int| j < l < end ==> (#[trigger] n.children[l]).name != n.children[j].name
}

proof fn lemma_child_entries_hold(n: NodeView, m: nat, base: Seq<(Seq<char>, JsonData)>)
    requires
        m <= n.children.len(),
        keys_sorted(base),
    ensures
        keys_sorted(child_entries(n, m, base)),
        forall|j: int|
            0 <= j < m && last_of_name(n, j, m as int) ==> has_key(child_entries(n, m, base), (#[trigger] n.children[j]).name)
                && value_at(child_entries(n, m, base), n.children[j].name) == node_json(n.children[j]),
        forall|x: Seq<char>|
            (forall|j: int| 0 <= j < m ==> x != (#[trigger] n.children[j]).name) ==> has_key(child_entries(n, m, base), x)
                == has_key(base, x) && value_at(child_entries(n, m, base), x) == value_at(base, x),
    decreases m,
{
    if m > 0 {
        lemma_child_entries_hold(n, (m - 1) as nat, base);
        let prev = child_entries(n, (m - 1) as nat, base);
        let c = n.children[m - 1];
        assert(child_entries(n, m, base) == sorted_insert(prev, c.name, node_json(c)));
        lemma_sorted_insert(prev, c.name, node_json(c));
        assert forall|j: int| 0 <= j < m && last_of_name(n, j, m as int) implies has_key(
            child_entries(n, m, base),
            (#[trigger] n.children[j]).name,
        ) && value_at(child_entries(n, m, base), n.children[j].name) == node_json(n.children[j]) by {
            law_object_read_after_write(prev, c.name, node_json(c), n.children[j].name);
            if j < m - 1 {
                assert(n.children[m - 1].name != n.children[j].name);
                assert(last_of_name(n, j, m - 1)) by {
                    assert forall|l: int| j < l < m - 1 implies (#[trigger] n.children[l]).name != n.children[j].name by {
                        assert(n.children[l].name != n.children[j].name);
                    }
                }
            }
        }
        assert forall|x: Seq<char>| (forall|j: int| 0 <= j < m ==> x != (#[trigger] n.children[j]).name) implies has_key(
            child_entries(n, m, base),
            x,
        ) == has_key(base, x) && value_at(child_entries(n, m, base), x) == value_at(base, x) by {
            law_object_read_after_write(prev, c.name, node_json(c), x);
            assert(x != n.children[m - 1].name);
            assert forall|j: int| 0 <= j < m - 1 implies x != (#[trigger] n.children[j]).name by {
                assert(x != n.children[j].name);
            }
        }
    }
}

/// An element with children turns into a JSON object that holds each child by name,
/// with the JSON of the last child of that name; an attribute `k="v"` as `@k` with `v`,
/// and its text as `#text`, unless a child bears that name.
pub proof fn law_element_json_holds_children(n: NodeView)
    requires
        n.children.len() > 0,
        forall|a: int, b: int| 0 <= a < b < n.attrs.len() ==> #[trigger] n.attrs[a].0 != #[trigger] n.attrs[b].0,
    ensures
        node_json(n) is Object,
        forall|j: int|
            0 <= j < n.children.len() && last_of_name(n, j, n.children.len() as int) ==> has_key(
                object_entries(node_json(n)),
                (#[trigger] n.children[j]).name,
            ) && value_at(object_entries(node_json(n)), n.children[j].name) == node_json(n.children[j]),
        forall|a: int|
            0 <= a < n.attrs.len() && (forall|j: int| 0 <= j < n.children.len() ==> (#[trigger] n.children[j]).name != at_key(n.attrs[a].0))
                ==> has_key(object_entries(node_json(n)), #[trigger] at_key(n.attrs[a].0)) && value_at(
                object_entries(node_json(n)),
                at_key(n.attrs[a].0),
            ) == JsonData::Str(n.attrs[a].1),
        n.text.len() > 0 && (forall|j: int| 0 <= j < n.children.len() ==> (#[trigger] n.children[j]).name != seq!['#', 't', 'e', 'x', 't'])
            ==> has_key(object_entries(node_json(n)), seq!['#', 't', 'e', 'x', 't']) && value_at(
            object_entries(node_json(n)),
            seq!['#', 't', 'e', 'x', 't'],
        ) == JsonData::Str(n.text),
{
    let m0: Seq<(Seq<char>, JsonData)> = if n.text.len() > 0 {
        seq![(text_key(), JsonData::Str(n.text))]
    } else {
        seq![]
    };
    let ae = attr_entries(n.attrs, n.attrs.len() as int, m0);
    lemma_attr_entries_hold(n.attrs, n.attrs.len() as int, m0);
    lemma_child_entries_hold(n, n.children.len(), ae);
    let tk = seq!['#', 't', 'e', 'x', 't'];
    assert(tk =~= text_key());
    if n.text.len() > 0 {
        assert forall|a: int| 0 <= a < n.attrs.len() implies tk != #[trigger] at_key(n.attrs[a].0) by {
            assert(at_key(n.attrs[a].0)[0] == '@');
            assert(tk[0] == '#');
        }
        assert(m0[0].0 == tk);
        assert(has_key(m0, tk));
    }
}

proof fn lemma_sorted_insert_keys(es: Seq<(Seq<char>, JsonData)>, k: Seq<char>, v: JsonData)
    ensures
        forall|i: int|
            0 <= i < sorted_insert(es, k, v).len() ==> (#[trigger] sorted_insert(es, k, v)[i]).0 == k || has_key(
                es,
                sorted_insert(es, k, v)[i].0,
            ),
    decreases es.len(),
{
    let r = sorted_insert(es, k, v);
    if es.len() == 0 {
    } else if es[0].0 == k {
        assert forall|i: int| 0 <= i < r.len() implies (#[trigger] r[i]).0 == k || has_key(es, r[i].0) by {
            if i > 0 {
                assert(r[i] == es[i]);
            }
        }
    } else if key_lt(k, es[0].0) {
        assert forall|i: int| 0 <= i < r.len() implies (#[trigger] r[i]).0 == k || has_key(es, r[i].0) by {
            if i > 0 {
                assert(r[i] == es[i - 1]);
            }
        }
    } else {
        let rest = es.skip(1);
        lemma_sorted_insert_keys(rest, k, v);
        let r2 = sorted_insert(rest, k, v);
        assert(r =~= seq![es[0]] + r2);
        assert forall|i: int| 0 <= i < r.len() implies (#[trigger] r[i]).0 == k || has_key(es, r[i].0) by {
            if i == 0 {
                assert(es[0].0 == r[0].0);
            } else {
                assert(r[i] == r2[i - 1]);
                if r2[i - 1].0 != k {
                    let x = choose|x: int| 0 <= x < rest.len() && (#[trigger] rest[x]).0 == r2[i - 1].0;
                    assert(es[x + 1] == rest[x]);
                }
            }
        }
    }
}

proof fn lemma_attr_entries_keys(attrs: Seq<(Seq<char>, Seq<char>)>, j: int, base: Seq<(Seq<char>, JsonData)>)
    requires
        0 <= j <= attrs.len(),
    ensures
        forall|i: int|
            0 <= i < attr_entries(attrs, j, base).len() ==> has_key(base, (#[trigger] attr_entries(attrs, j, base)[i]).0)
                || exists|a: int| 0 <= a < j && attr_entries(attrs, j, base)[i].0 == #[trigger] at_key(attrs[a].0),
    decreases j,
{
    if j > 0 {
        lemma_attr_entries_keys(attrs, j - 1, base);
        let prev = attr_entries(attrs, j - 1, base);
        let k = at_key(attrs[j - 1].0);
        let v = JsonData::Str(attrs[j - 1].1);
        let r = attr_entries(attrs, j, base);
        assert(r == sorted_insert(prev, k, v));
        lemma_sorted_insert_keys(prev, k, v);
        assert forall|i: int| 0 <= i < r.len() implies has_key(base, (#[trigger] r[i]).0) || exists|a: int|
            0 <= a < j && r[i].0 == #[trigger] at_key(attrs[a].0) by {
            if r[i].0 == k {
                assert(r[i].0 == at_key(attrs[j - 1].0));
            } else {
                let x = choose|x: int| 0 <= x < prev.len() && (#[trigger] prev[x]).0 == r[i].0;
                assert(prev[x].0 == r[i].0);
                if !has_key(base, prev[x].0) {
                    let a = choose|a: int| 0 <= a < j - 1 && prev[x].0 == #[trigger] at_key(attrs[a].0);
                    assert(r[i].0 == at_key(attrs[a].0));
                }
            }
        }
    }
}

proof fn lemma_child_entries_keys(n: NodeView, m: nat, base: Seq<(Seq<char>, JsonData)>)
    requires
        m <= n.children.len(),
    ensures
        forall|i: int|
            0 <= i < child_entries(n, m, base).len() ==> has_key(base, (#[trigger] child_entries(n, m, base)[i]).0)
                || exists|j: int| 0 <= j < m && child_entries(n, m, base)[i].0 == (#[trigger] n.children[j]).name,
    decreases m,
{
    if m > 0 {
        lemma_child_entries_keys(n, (m - 1) as nat, base);
        let prev = child_entries(n, (m - 1) as nat, base);
        let c = n.children[m - 1];
        let r = child_entries(n, m, base);
        assert(r == sorted_insert(prev, c.name, node_json(c)));
        lemma_sorted_insert_keys(prev, c.name, node_json(c));
        assert forall|i: int| 0 <= i < r.len() implies has_key(base, (#[trigger] r[i]).0) || exists|j: int|
            0 <= j < m && r[i].0 == (#[trigger] n.children[j]).name by {
            if r[i].0 == c.name {
                assert(r[i].0 == n.children[m - 1].name);
            } else {
                let x = choose|x: int| 0 <= x < prev.len() && (#[trigger] prev[x]).0 == r[i].0;
                assert(prev[x].0 == r[i].0);
                if !has_key(base, prev[x].0) {
                    let j = choose|j: int| 0 <= j < m - 1 && prev[x].0 == (#[trigger] n.children[j]).name;
                    assert(r[i].0 == n.children[j].name);
                }
            }
        }
    }
}

/// Whether `x` names something of the element `n` in its JSON: its text as `#text`
/// where it has text, an attribute `k` as `@k`, or a child by its name.
pub open spec fn names_part_of(n: NodeView, x: Seq<char>) -> bool {
    ||| n.text.len() > 0 && x == seq!['#', 't', 'e', 'x', 't']
    ||| exists|a: int| 0 <= a < n.attrs.len() && x == #[trigger] at_key(n.attrs[a].0)
    ||| exists|j: int| 0 <= j < n.children.len() && x == (#[trigger] n.children[j]).name
}

/// The JSON object of an element holds nothing but its parts: each of its keys is
/// `#text`, `@k` for an attribute `k`, or the name of a child.
pub proof fn law_element_json_holds_nothing_else(n: NodeView)
    requires
        node_json(n) is Object,
    ensures
        forall|i: int|
            0 <= i < object_entries(node_json(n)).len() ==> names_part_of(n, (#[trigger] object_entries(node_json(n))[i]).0),
{
    let m0: Seq<(Seq<char>, JsonData)> = if n.text.len() > 0 {
        seq![(text_key(), JsonData::Str(n.text))]
    } else {
        seq![]
    };
    let tk = seq!['#', 't', 'e', 'x', 't'];
    assert(tk =~= text_key());
    assert forall|x: Seq<char>| has_key(m0, x) implies n.text.len() > 0 && x == tk by {
        let i = choose|i: int| 0 <= i < m0.len() && (#[trigger] m0[i]).0 == x;
    }
    let ae = attr_entries(n.attrs, n.attrs.len() as int, m0);
    lemma_attr_entries_keys(n.attrs, n.attrs.len() as int, m0);
    let es = object_entries(node_json(n));
    if n.children.len() == 0 {
        assert(es == ae);
        assert forall|i: int| 0 <= i < es.len() implies names_part_of(n, (#[trigger] es[i]).0) by {
            assert(ae[i] == es[i]);
        }
    } else {
        lemma_child_entries_keys(n, n.children.len(), ae);
        assert(es == child_entries(n, n.children.len(), ae));
        assert forall|i: int| 0 <= i < es.len() implies names_part_of(n, (#[trigger] es[i]).0) by {
            let ce = child_entries(n, n.children.len(), ae);
            assert(ce[i] == es[i]);
            if has_key(ae, es[i].0) {
                let x = choose|x: int| 0 <= x < ae.len() && (#[trigger] ae[x]).0 == es[i].0;
                assert(ae[x].0 == es[i].0);
            }
        }
    }
}

// ---------------------------------------------------------------------------
// Tree lines of tags
// ---------------------------------------------------------------------------

/// Whether `w` stands in `t` from position `p` on.
pub open spec fn stands_at(t: Seq<char>, w: Seq<char>, p: int) -> bool {
    0 <= p && p + w.len() <= t.len() && t.subrange(p, p + w.len()) == w
}

/// How a tree line writes the attribute `k="v"`: `@k="v"` without colors, `k="v"` with.
pub open spec fn attr_written(k: Seq<char>, v: Seq<char>, nc: bool) -> Seq<char> {
    (if nc { seq!['@'] } else { seq![] }) + k + seq!['=', '"'] + v + seq!['"']
}

proof fn lemma_stands_within(a: Seq<char>, b: Seq<char>, c: Seq<char>, w: Seq<char>, p: int)
    requires
        stands_at(b, w, p),
    ensures
        stands_at(a + b + c, w, a.len() + p),
{
    let t = a + b + c;
    assert(t.subrange(a.len() + p, a.len() + p + w.len()) =~= b.subrange(p, p + w.len()));
}

proof fn lemma_attr_spans_list(attrs: Seq<(Seq<char>, Seq<char>)>, i: nat, nc: bool, j: int)
    requires
        i <= j < attrs.len(),
    ensures
        exists|p: int| stands_at(plain_text(attr_spans(attrs, i, nc)), attr_written(attrs[j].0, attrs[j].1, nc), p),
    decreases attrs.len() - i,
{
    let (k, v) = attrs[i as int];
    let sep = if i > 0 { seq![text_span(seq![',', ' '])] } else { seq![] };
    let quoted = seq!['"'] + v + seq!['"'];
    let one = if nc {
        seq![text_span(seq!['@'] + k + seq!['='] + quoted)]
    } else {
        seq![span(k, Paint::Fg(Hue::Yellow)), text_span(seq!['=']), span(quoted, Paint::Fg(Hue::Yellow))]
    };
    let rest = attr_spans(attrs, i + 1, nc);
    assert(attr_spans(attrs, i, nc) == sep + one + rest);
    lemma_plain_text_concat(sep + one, rest);
    lemma_plain_text_concat(sep, one);
    let w = attr_written(k, v, nc);
    assert(plain_text(one) == w) by {
        if nc {
            lemma_plain_one(one[0]);
            assert(seq!['@'] + k + seq!['='] + quoted =~= w);
        } else {
            assert(one =~= seq![one[0]] + (seq![one[1]] + seq![one[2]]));
            lemma_plain_cons(one[0], seq![one[1]] + seq![one[2]]);
            lemma_plain_cons(one[1], seq![one[2]]);
            lemma_plain_one(one[2]);
            assert(k + (seq!['='] + quoted) =~= w);
        }
    }
    let t = plain_text(attr_spans(attrs, i, nc));
    if j == i {
        assert(stands_at(seq![] + w + seq![], w, 0)) by {
            assert(seq![] + w + seq![] =~= w);
            assert(w.subrange(0, w.len() as int) =~= w);
        }
        lemma_stands_within(plain_text(sep), w, plain_text(rest), w, 0);
        assert(stands_at(t, w, plain_text(sep).len() as int));
    } else {
        lemma_attr_spans_list(attrs, i + 1, nc, j);
        let wj = attr_written(attrs[j].0, attrs[j].1, nc);
        let p = choose|p: int| stands_at(plain_text(rest), wj, p);
        lemma_stands_within(plain_text(sep) + plain_text(one), plain_text(rest), seq![], wj, p);
        assert(plain_text(sep) + plain_text(one) + plain_text(rest) + seq![] =~= t);
        assert(stands_at(t, wj, (plain_text(sep) + plain_text(one)).len() + p));
    }
}

proof fn lemma_tag_line_text(level: nat, name: Seq<char>, attrs: Seq<(Seq<char>, Seq<char>)>, nc: bool, empty: bool)
    ensures
        plain_text(tag_line(level, name, attrs, nc, empty)) == line_prefix(level) + name + (if attrs.len() > 0 {
            seq![' ', '['] + plain_text(attr_spans(attrs, 0, nc)) + seq![']']
        } else {
            seq![]
        }) + (if empty { empty_mark() } else { seq!['\n'] }),
{
    let head = seq![text_span(line_prefix(level)), span(name, tint(nc, Paint::Fg(Hue::Blue)))];
    let a = attr_spans(attrs, 0, nc);
    let mid = if attrs.len() > 0 {
        seq![text_span(seq![' ', '['])] + a + seq![text_span(seq![']'])]
    } else {
        seq![]
    };
    let tail = seq![text_span(if empty { empty_mark() } else { seq!['\n'] })];
    assert(tag_line(level, name, attrs, nc, empty) == head + mid + tail);
    lemma_plain_text_concat(head + mid, tail);
    lemma_plain_text_concat(head, mid);
    lemma_plain_one(tail[0]);
    assert(head =~= seq![head[0]] + seq![head[1]]);
    lemma_plain_cons(head[0], seq![head[1]]);
    lemma_plain_one(head[1]);
    if attrs.len() > 0 {
        let o = text_span(seq![' ', '[']);
        let c = text_span(seq![']']);
        lemma_plain_text_concat(seq![o] + a, seq![c]);
        lemma_plain_cons(o, a);
        lemma_plain_one(c);
    } else {
        assert(plain_text(mid) =~= Seq::<char>::empty());
    }
}

/// The tree line of a tag lists every attribute of the tag, after ` [`, whether or not
/// the tag is empty.
pub proof fn law_tag_line_lists_attributes(
    level: nat,
    name: Seq<char>,
    attrs: Seq<(Seq<char>, Seq<char>)>,
    nc: bool,
    empty: bool,
    j: int,
)
    requires
        0 <= j < attrs.len(),
    ensures
        exists|p: int|
            stands_at(plain_text(tag_line(level, name, attrs, nc, empty)), seq![' ', '['], p),
        exists|p: int|
            stands_at(plain_text(tag_line(level, name, attrs, nc, empty)), attr_written(attrs[j].0, attrs[j].1, nc), p),
{
    lemma_tag_line_text(level, name, attrs, nc, empty);
    let lead = line_prefix(level) + name;
    let list = plain_text(attr_spans(attrs, 0, nc));
    let end = if empty { empty_mark() } else { seq!['\n'] };
    let t = plain_text(tag_line(level, name, attrs, nc, empty));
    assert(t =~= lead + (seq![' ', '['] + list + seq![']']) + end);
    assert(t =~= (lead + seq![' ', '[']) + list + (seq![']'] + end));
    assert(stands_at(t, seq![' ', '['], lead.len() as int)) by {
        assert(t.subrange(lead.len() as int, lead.len() as int + 2) =~= seq![' ', '[']);
    }
    lemma_attr_spans_list(attrs, 0, nc, j);
    let w = attr_written(attrs[j].0, attrs[j].1, nc);
    let p = choose|p: int| stands_at(list, w, p);
    lemma_stands_within(lead + seq![' ', '['], list, seq![']'] + end, w, p);
}

/// The tree line of an empty tag is the line of the same tag, its attributes and all,
/// with ` (empty)` put before the line break that ends it.
pub proof fn law_empty_tag_line(level: nat, name: Seq<char>, attrs: Seq<(Seq<char>, Seq<char>)>, nc: bool)
    ensures
        plain_text(tag_line(level, name, attrs, nc, false)).last() == '\n',
        plain_text(tag_line(level, name, attrs, nc, true)) == plain_text(tag_line(level, name, attrs, nc, false)).drop_last()
            + seq![' ', '(', 'e', 'm', 'p', 't', 'y', ')', '\n'],
{
    lemma_tag_line_text(level, name, attrs, nc, true);
    lemma_tag_line_text(level, name, attrs, nc, false);
    let x = line_prefix(level) + name + (if attrs.len() > 0 {
        seq![' ', '['] + plain_text(attr_spans(attrs, 0, nc)) + seq![']']
    } else {
        seq![]
    });
    assert((x + seq!['\n']).drop_last() =~= x);
    assert(empty_mark() =~= seq![' ', '(', 'e', 'm', 'p', 't', 'y', ')', '\n']);
}

// ---------------------------------------------------------------------------
// Pretty-printed XML
// ---------------------------------------------------------------------------

/// How an event of kind `k` with text `c` is written: a tag between `<` and `>` (an end
/// tag after `</`, an empty one closed by `/>`), text as it stands, CDATA, a comment, a
/// declaration or processing instruction between `<?` and `?>`, a document type
/// declaration as `<!DOCTYPE c>`.
pub open spec fn event_written(k: XmlKind, c: Seq<char>) -> Seq<char> {
    match k {
        XmlKind::Start => seq!['<'] + c + seq!['>'],
        XmlKind::End => seq!['<', '/'] + c + seq!['>'],
        XmlKind::Empty => seq!['<'] + c + seq!['/', '>'],
        XmlKind::Text => c,
        XmlKind::CData => seq!['<', '!', '[', 'C', 'D', 'A', 'T', 'A', '['] + c + seq![']', ']', '>'],
        XmlKind::Comment => seq!['<', '!', '-', '-'] + c + seq!['-', '-', '>'],
        XmlKind::Decl => seq!['<', '?'] + c + seq!['?', '>'],
        XmlKind::PI => seq!['<', '?'] + c + seq!['?', '>'],
        XmlKind::DocType => seq!['<', '!', 'D', 'O', 'C', 'T', 'Y', 'P', 'E', ' '] + c + seq!['>'],
        _ => seq![],
    }
}

proof fn lemma_fx_extends(evs: Seq<XmlEvent>, i: int, text: Seq<char>, level: nat, brk: bool, step: nat, t: Seq<char>)
    requires
        fx_from(evs, i, text, level, brk, step) == Written::Text(t),
    ensures
        text.len() <= t.len(),
        t.subrange(0, text.len() as int) == text,
    decreases evs.len() - i,
{
    if 0 <= i < evs.len() {
        let k = evs[i].kind;
        let c = evs[i].content@;
        if k == XmlKind::Eof {
            assert(t.subrange(0, text.len() as int) =~= text);
        } else if k == XmlKind::Error {
        } else if crate::xml::writable(k) {
            let r = write_effect(text, level, brk, step, k, c);
            lemma_fx_extends(evs, i + 1, r.0, r.1, r.2, step, t);
            assert(r.0.subrange(0, text.len() as int) =~= text);
            assert(t.subrange(0, text.len() as int) =~= r.0.subrange(0, text.len() as int));
        } else {
            lemma_fx_extends(evs, i + 1, text, level, brk, step, t);
        }
    } else {
        assert(t.subrange(0, text.len() as int) =~= text);
    }
}

proof fn lemma_effect_ends_with(text: Seq<char>, level: nat, brk: bool, step: nat, k: XmlKind, c: Seq<char>)
    requires
        k != XmlKind::Eof,
        k != XmlKind::Error,
    ensures
        ({
            let r = write_effect(text, level, brk, step, k, c).0;
            let w = event_written(k, c);
            &&& w.len() <= r.len()
            &&& r.subrange(r.len() - w.len(), r.len() as int) == w
        }),
{
    let r = write_effect(text, level, brk, step, k, c).0;
    let w = event_written(k, c);
    let l = if k == XmlKind::End && level >= step { (level - step) as nat } else if k == XmlKind::End { 0 } else { level };
    let lead = if brk { seq!['\n'] + crate::xml::spaces(l) } else { seq![] };
    if k == XmlKind::Text || k == XmlKind::CData {
        assert(r =~= text + w);
    } else {
        assert(r =~= (text + lead) + w);
    }
    assert(r.subrange(r.len() - w.len(), r.len() as int) =~= w);
}

proof fn lemma_fx_writes(
    evs: Seq<XmlEvent>,
    i: int,
    text: Seq<char>,
    level: nat,
    brk: bool,
    step: nat,
    t: Seq<char>,
    e: int,
)
    requires
        fx_from(evs, i, text, level, brk, step) == Written::Text(t),
        0 <= i <= e < evs.len(),
        forall|j: int| i <= j <= e ==> (#[trigger] evs[j].kind) != XmlKind::Eof && evs[j].kind != XmlKind::Error,
    ensures
        exists|p: int| stands_at(t, event_written(evs[e].kind, evs[e].content@), p),
    decreases e - i,
{
    let k = evs[i].kind;
    let c = evs[i].content@;
    assert(k != XmlKind::Eof && k != XmlKind::Error);
    assert(crate::xml::writable(k));
    let r = write_effect(text, level, brk, step, k, c);
    assert(fx_from(evs, i + 1, r.0, r.1, r.2, step) == Written::Text(t));
    if i == e {
        lemma_effect_ends_with(text, level, brk, step, k, c);
        lemma_fx_extends(evs, i + 1, r.0, r.1, r.2, step, t);
        let w = event_written(k, c);
        let p = r.0.len() - w.len();
        assert(t.subrange(p, p + w.len()) =~= r.0.subrange(p, r.0.len() as int));
        assert(stands_at(t, w, p));
    } else {
        lemma_fx_writes(evs, i + 1, r.0, r.1, r.2, step, t, e);
    }
}

/// `s` without its spaces and line breaks.
pub open spec fn squeezed(s: Seq<char>) -> Seq<char>
    decreases s.len(),
{
    if s.len() == 0 {
        seq![]
    } else if s.last() == ' ' || s.last() == '\n' {
        squeezed(s.drop_last())
    } else {
        squeezed(s.drop_last()).push(s.last())
    }
}

/// The events from the `i`-th on, up to the first end of input or error, each as it is
/// written, one after the other.
pub open spec fn events_written(evs: Seq<XmlEvent>, i: int) -> Seq<char>
    decreases evs.len() - i,
{
    if 0 <= i < evs.len() && evs[i].kind != XmlKind::Eof && evs[i].kind != XmlKind::Error {
        event_written(evs[i].kind, evs[i].content@) + events_written(evs, i + 1)
    } else {
        seq![]
    }
}

proof fn lemma_squeezed_concat(a: Seq<char>, b: Seq<char>)
    ensures
        squeezed(a + b) == squeezed(a) + squeezed(b),
    decreases b.len(),
{
    if b.len() == 0 {
        assert(a + b =~= a);
        assert(squeezed(a) + squeezed(b) =~= squeezed(a));
    } else {
        lemma_squeezed_concat(a, b.drop_last());
        assert((a + b).drop_last() =~= a + b.drop_last());
        assert((a + b).last() == b.last());
        if !(b.last() == ' ' || b.last() == '\n') {
            assert(squeezed(a) + squeezed(b.drop_last()).push(b.last()) =~= (squeezed(a) + squeezed(b.drop_last())).push(
                b.last(),
            ));
        }
    }
}

proof fn lemma_squeezed_blank(s: Seq<char>)
    requires
        forall|i: int| 0 <= i < s.len() ==> #[trigger] s[i] == ' ' || s[i] == '\n',
    ensures
        squeezed(s) == Seq::<char>::empty(),
    decreases s.len(),
{
    if s.len() > 0 {
        assert(s.last() == s[s.len() - 1]);
        lemma_squeezed_blank(s.drop_last());
    }
}

proof fn lemma_effect_squeezed(text: Seq<char>, level: nat, brk: bool, step: nat, k: XmlKind, c: Seq<char>)
    requires
        k != XmlKind::Eof,
        k != XmlKind::Error,
    ensures
        squeezed(write_effect(text, level, brk, step, k, c).0) == squeezed(text) + squeezed(event_written(k, c)),
{
    let r = write_effect(text, level, brk, step, k, c).0;
    let w = event_written(k, c);
    let l = if k == XmlKind::End && level >= step { (level - step) as nat } else if k == XmlKind::End { 0 } else { level };
    let lead = if brk { seq!['\n'] + crate::xml::spaces(l) } else { seq![] };
    if k == XmlKind::Text || k == XmlKind::CData {
        assert(r =~= text + w);
        lemma_squeezed_concat(text, w);
    } else {
        assert(r =~= (text + lead) + w);
        lemma_squeezed_concat(text + lead, w);
        lemma_squeezed_concat(text, lead);
        assert forall|i: int| 0 <= i < lead.len() implies #[trigger] lead[i] == ' ' || lead[i] == '\n' by {
            if brk && i > 0 {
                assert(lead[i] == crate::xml::spaces(l)[i - 1]);
            }
        }
        lemma_squeezed_blank(lead);
        assert(squeezed(text) + squeezed(lead) =~= squeezed(text));
    }
}

proof fn lemma_fx_squeezed(evs: Seq<XmlEvent>, i: int, text: Seq<char>, level: nat, brk: bool, step: nat, t: Seq<char>)
    requires
        fx_from(evs, i, text, level, brk, step) == Written::Text(t),
        0 <= i,
    ensures
        squeezed(t) == squeezed(text) + squeezed(events_written(evs, i)),
    decreases evs.len() - i,
{
    if i < evs.len() && evs[i].kind != XmlKind::Eof && evs[i].kind != XmlKind::Error {
        let k = evs[i].kind;
        let c = evs[i].content@;
        assert(crate::xml::writable(k));
        let r = write_effect(text, level, brk, step, k, c);
        lemma_fx_squeezed(evs, i + 1, r.0, r.1, r.2, step, t);
        lemma_effect_squeezed(text, level, brk, step, k, c);
        lemma_squeezed_concat(event_written(k, c), events_written(evs, i + 1));
        assert(squeezed(text) + squeezed(event_written(k, c)) + squeezed(events_written(evs, i + 1)) =~= squeezed(text)
            + (squeezed(event_written(k, c)) + squeezed(events_written(evs, i + 1))));
    } else {
        assert(squeezed(text) + squeezed(events_written(evs, i)) =~= squeezed(text));
    }
}

/// Pretty-printing XML changes nothing but white space between what it writes: where
/// [`crate::format::format_xml`] without colors succeeds, its output without spaces and
/// line breaks is the events that it read, each as it is written, in their order, without
/// spaces and line breaks.
pub proof fn law_format_xml_only_adds_white_space(content: Seq<char>, indent: usize, res: Result<String, SpruceError>)
    requires
        format_xml_result(content, indent, true, res),
        res is Ok,
    ensures
        squeezed(res->Ok_0@) == squeezed(events_written(xml_events(content), 0)),
{
    match pretty_xml(content, indent as nat) {
        Written::Text(t) => {
            lemma_fx_squeezed(xml_events(content), 0, seq![], 0, false, indent as nat, t);
            assert(squeezed(seq![]) + squeezed(events_written(xml_events(content), 0)) =~= squeezed(
                events_written(xml_events(content), 0),
            ));
        },
        _ => {},
    }
}

/// Pretty-printing XML writes every event that it reads before the end of input: where
/// [`crate::format::format_xml`] without colors succeeds, each such event stands in its
/// output as it is written (so a document type declaration `<!DOCTYPE d>` of the input is
/// `<!DOCTYPE d>` in the output).
pub proof fn law_format_xml_writes_every_event(
    content: Seq<char>,
    indent: usize,
    res: Result<String, SpruceError>,
    e: int,
)
    requires
        format_xml_result(content, indent, true, res),
        res is Ok,
        0 <= e < xml_events(content).len(),
        forall|j: int|
            0 <= j <= e ==> (#[trigger] xml_events(content)[j].kind) != XmlKind::Eof && xml_events(content)[j].kind
                != XmlKind::Error,
    ensures
        exists|p: int|
            stands_at(res->Ok_0@, event_written(xml_events(content)[e].kind, xml_events(content)[e].content@), p),
{
    match pretty_xml(content, indent as nat) {
        Written::Text(t) => {
            lemma_fx_writes(xml_events(content), 0, seq![], 0, false, indent as nat, t, e);
        },
        _ => {},
    }
}

} // verus!
