//! Format detection, pretty-printing and tree views.
use vstd::prelude::*;
use crate::errors::{SpruceError, XmlStep};
use crate::highlight::{format_json_tree, format_xml_tree, jt_spans, xml_tree, Drawn, tag_name_of, highlight_xml, xml_spans, highlight_json, json_spans, upto, sub_chars};
use crate::json::{parsed_json, compact_json, pretty_json, json_from_str, json_to_string, json_to_string_pretty};
use crate::text::{leading_white, utf8_len, utf8_width_exec, is_white_space, is_white_space_exec, trim_end, trim_end_spec};
use crate::paint::{is_rendering, plain_text};
use crate::xml::{XmlEvent, XmlKind, xml_events, pending_events, well_ended, is_terminal, writable, write_effect, writer_text, writer_level, writer_break, writer_step, xml_reader, xml_read_event, xml_writer, xml_write, xml_writer_bytes, string_from_utf8};
use crate::text::{lit, chars_of, chars_eq, chars_end_with, ends_with, lowercase, prefix, prefix_chars, string_of, to_lowercase, trim_start, trim_start_spec};

verus! {

/// The two data formats.
#[derive(Clone, Copy, Debug, PartialEq, Eq, Structural)]
pub enum DataFormat {
    Json,
    Xml,
}

impl DataFormat {
    /// The format's name, as the command line writes it.
    pub fn as_str(&self) -> (res: &'static str)
        ensures
            res@ == format_name(*self),
    {
        match self {
            DataFormat::Json => {
                proof {
                    reveal_strlit("json");
                }
                let r = "json";
                assert(r@ =~= format_name(DataFormat::Json));
                r
            },
            DataFormat::Xml => {
                proof {
                    reveal_strlit("xml");
                }
                let r = "xml";
                assert(r@ =~= format_name(DataFormat::Xml));
                r
            },
        }
    }
}

pub open spec fn name_json() -> Seq<char> {
    seq!['j', 's', 'o', 'n']
}

pub open spec fn name_xml() -> Seq<char> {
    seq!['x', 'm', 'l']
}

pub open spec fn ext_json() -> Seq<char> {
    seq!['.', 'j', 's', 'o', 'n']
}

pub open spec fn ext_xml() -> Seq<char> {
    seq!['.', 'x', 'm', 'l']
}

pub open spec fn format_name(f: DataFormat) -> Seq<char> {
    match f {
        DataFormat::Json => name_json(),
        DataFormat::Xml => name_xml(),
    }
}

/// What format detection concludes.
pub enum Detection {
    Found(DataFormat),
    /// The hint, lower-cased, is not a format name.
    Unknown(Seq<char>),
    /// Nothing tells the format; the first twenty characters of the trimmed content.
    Undetected(Seq<char>),
}

pub open spec fn opt_view(o: Option<&str>) -> Option<Seq<char>> {
    match o {
        Some(s) => Some(s@),
        None => None,
    }
}

/// Format detection: an explicit hint wins, then the file's extension, then the first
/// character of the content after white space (`{` or `[` for JSON, `<` for XML).
pub open spec fn detection(content: Seq<char>, path: Option<Seq<char>>, hint: Option<Seq<char>>) -> Detection {
    match hint {
        Some(t) => {
            let l = lowercase(t);
            if l == name_json() {
                Detection::Found(DataFormat::Json)
            } else if l == name_xml() {
                Detection::Found(DataFormat::Xml)
            } else {
                Detection::Unknown(l)
            }
        },
        None => {
            let by_path = match path {
                Some(p) => {
                    let lp = lowercase(p);
                    if ends_with(lp, ext_json()) {
                        Some(DataFormat::Json)
                    } else if ends_with(lp, ext_xml()) {
                        Some(DataFormat::Xml)
                    } else {
                        None
                    }
                },
                None => None,
            };
            match by_path {
                Some(f) => Detection::Found(f),
                None => {
                    let tr = trim_start_spec(content);
                    if tr.len() > 0 && (tr[0] == '{' || tr[0] == '[') {
                        Detection::Found(DataFormat::Json)
                    } else if tr.len() > 0 && tr[0] == '<' {
                        Detection::Found(DataFormat::Xml)
                    } else {
                        Detection::Undetected(prefix(tr, 20))
                    }
                },
            }
        },
    }
}

/// The result of [`detect_format`] for a detection.
pub open spec fn detect_result_matches(d: Detection, res: Result<DataFormat, SpruceError>) -> bool {
    match d {
        Detection::Found(f) => res == Ok::<DataFormat, SpruceError>(f),
        Detection::Unknown(l) => res matches Err(SpruceError::UnknownFormatType(m)) && m@ == l,
        Detection::Undetected(p) => res matches Err(SpruceError::UndetectedFormat(m)) && m@ == p,
    }
}

/// Auto-detects the format from an explicit hint, the file's extension, or the content.
pub fn detect_format(content: &str, file_path: Option<&str>, hint: Option<&str>) -> (res: Result<DataFormat, SpruceError>)
    ensures
        detect_result_matches(detection(content@, opt_view(file_path), opt_view(hint)), res),
{
    proof {
        reveal_strlit("json");
        reveal_strlit("xml");
        reveal_strlit(".json");
        reveal_strlit(".xml");
    }
    let json = lit("json");
    let xml = lit("xml");
    assert(json@ =~= name_json());
    assert(xml@ =~= name_xml());
    if let Some(t) = hint {
        let l = to_lowercase(t);
        let lc = chars_of(l.as_str());
        if chars_eq(&lc, &json) {
            return Ok(DataFormat::Json);
        } else if chars_eq(&lc, &xml) {
            return Ok(DataFormat::Xml);
        } else {
            return Err(SpruceError::UnknownFormatType(l));
        }
    }
    if let Some(path) = file_path {
        let lower = to_lowercase(path);
        let lc = chars_of(lower.as_str());
        let ej = lit(".json");
        let ex = lit(".xml");
        assert(ej@ =~= ext_json());
        assert(ex@ =~= ext_xml());
        if chars_end_with(&lc, &ej) {
            return Ok(DataFormat::Json);
        }
        if chars_end_with(&lc, &ex) {
            return Ok(DataFormat::Xml);
        }
    }
    let trimmed = trim_start(content);
    let tc = chars_of(trimmed);
    if tc.len() > 0 && (tc[0] == '{' || tc[0] == '[') {
        return Ok(DataFormat::Json);
    }
    if tc.len() > 0 && tc[0] == '<' {
        return Ok(DataFormat::Xml);
    }
    let start = prefix_chars(&tc, 20);
    Err(SpruceError::UndetectedFormat(string_of(start.as_slice())))
}

// ---------------------------------------------------------------------------
// JSON pretty-printing
// ---------------------------------------------------------------------------

/// The lines of `s` from position `p` on, as `str::lines` cuts them: at each `\n`, with
/// a `\r` right before it dropped; no line after a final `\n`.
pub open spec fn lines_from(s: Seq<char>, p: int) -> Seq<Seq<char>>
    decreases s.len() - p,
{
    if p < 0 || p >= s.len() {
        seq![]
    } else {
        let k = upto(s, p, '\n');
        let raw = s.subrange(p, k);
        if p <= k < s.len() {
            let line = if raw.len() > 0 && raw.last() == '\r' { raw.drop_last() } else { raw };
            seq![line] + lines_from(s, k + 1)
        } else {
            seq![raw]
        }
    }
}

pub open spec fn text_lines(s: Seq<char>) -> Seq<Seq<char>> {
    lines_from(s, 0)
}

/// The number of bytes of the white space that a line begins with.
pub open spec fn lead_width(line: Seq<char>) -> nat {
    utf8_len(line.take(leading_white(line) as int))
}

/// A line with its leading white space replaced by `indent` spaces for every two bytes
/// of it, and a line break.
pub open spec fn reindented_line(line: Seq<char>, indent: nat) -> Seq<char> {
    crate::xml::spaces((lead_width(line) / 2) * indent) + crate::text::trim_start_spec(line) + seq!['\n']
}

pub open spec fn joined_lines(ls: Seq<Seq<char>>, indent: nat) -> Seq<char>
    decreases ls.len(),
{
    if ls.len() == 0 {
        seq![]
    } else {
        joined_lines(ls.drop_last(), indent) + reindented_line(ls.last(), indent)
    }
}

/// Whether the new indentation of every line fits the address space.
pub open spec fn indent_fits(ls: Seq<Seq<char>>, indent: nat) -> bool {
    forall|i: int| 0 <= i < ls.len() ==> (lead_width(#[trigger] ls[i]) / 2) * indent <= isize::MAX
}

/// Text re-indented with `indent` spaces per level, where every two bytes of leading
/// white space count as a level; `None` where an indentation would not fit.
pub open spec fn reindented(t: Seq<char>, indent: nat) -> Option<Seq<char>> {
    if indent_fits(text_lines(t), indent) {
        Some(trim_end_spec(joined_lines(text_lines(t), indent)))
    } else {
        None
    }
}

proof fn lemma_lines_step(s: Seq<char>, p: int)
    requires
        0 <= p < s.len(),
    ensures
        p <= upto(s, p, '\n') <= s.len(),
{
    crate::highlight::lemma_upto(s, p, '\n');
}

/// Appends a line re-indented as [`reindented_line`] says; `false`, appending nothing of
/// use, where its indentation would not fit.
fn push_reindented_line(out: &mut Vec<char>, line: &Vec<char>, indent: usize) -> (ok: bool)
    ensures
        ok == ((lead_width(line@) / 2) * (indent as nat) <= isize::MAX),
        ok ==> final(out)@ == old(out)@ + reindented_line(line@, indent as nat),
{
    let ghost l = line@;
    // leading white space and its width in bytes
    let mut lw: usize = 0;
    let mut width: u128 = 0;
    while lw < line.len() && is_white_space_exec(line[lw])
        invariant
            lw <= line@.len(),
            line@ == l,
            forall|j: int| 0 <= j < lw ==> is_white_space(#[trigger] l[j]),
            width == utf8_len(l.take(lw as int)),
            width <= 4 * lw,
        decreases line@.len() - lw,
    {
        proof {
            assert(l.take(lw + 1).drop_last() =~= l.take(lw as int));
        }
        width = width + utf8_width_exec(line[lw]) as u128;
        lw = lw + 1;
    }
    proof {
        lemma_leading_white(l, lw as int);
    }
    let half = width / 2;
    if indent > 0 && half > (isize::MAX as u128) / (indent as u128) {
        proof {
            assert(half * indent > isize::MAX) by (nonlinear_arith)
                requires
                    indent > 0,
                    half > (isize::MAX as u128) / (indent as u128),
            ;
        }
        return false;
    }
    assert(half * indent <= isize::MAX) by (nonlinear_arith)
        requires
            !(indent > 0 && half > (isize::MAX as u128) / (indent as u128)),
    ;
    let count = (half as usize) * indent;
    let mut j: usize = 0;
    let ghost before = out@;
    while j < count
        invariant
            j <= count,
            out@ == before + crate::xml::spaces(j as nat),
        decreases count - j,
    {
        out.push(' ');
        j = j + 1;
        assert(out@ =~= before + crate::xml::spaces(j as nat));
    }
    let rest = sub_chars(&line, lw, line.len());
    let mut q: usize = 0;
    while q < rest.len()
        invariant
            q <= rest@.len(),
            out@ == before + crate::xml::spaces(count as nat) + rest@.take(q as int),
        decreases rest@.len() - q,
    {
        out.push(rest[q]);
        q = q + 1;
        assert(out@ =~= before + crate::xml::spaces(count as nat) + rest@.take(q as int));
    }
    out.push('\n');
    proof {
        assert(rest@.take(rest@.len() as int) =~= rest@);
        assert(rest@ =~= crate::text::trim_start_spec(l));
        assert(out@ =~= before + reindented_line(l, indent as nat));
    }
    true
}

/// Re-indents text as [`reindented`] says.
pub fn reindent(text: &str, indent: usize) -> (res: Option<String>)
    ensures
        match reindented(text@, indent as nat) {
            Some(t) => res matches Some(r) && r@ == t,
            None => res is None,
        },
{
    let cs = crate::text::chars_of(text);
    let ghost s = cs@;
    let n = cs.len();
    let mut out: Vec<char> = Vec::new();
    let ghost mut done: Seq<Seq<char>> = seq![];
    let mut p: usize = 0;
    while p < n
        invariant
            n == s.len(),
            s == cs@,
            s == text@,
            p <= n,
            text_lines(s) == done + lines_from(s, p as int),
            out@ == joined_lines(done, indent as nat),
            indent_fits(done, indent as nat),
        decreases n - p,
    {
        proof {
            lemma_lines_step(s, p as int);
        }
        let k = crate::highlight::find_from(&cs, p, '\n');
        let mut line = sub_chars(&cs, p, k);
        if k < n && line.len() > 0 && line[line.len() - 1] == '\r' {
            line.pop();
        }
        let ghost l = line@;
        assert(l == lines_from(s, p as int)[0]);
        let ok = push_reindented_line(&mut out, &line, indent);
        if !ok {
            proof {
                assert(text_lines(s)[done.len() as int] == l);
            }
            return None;
        }
        proof {
            let nd = done.push(l);
            assert(nd.drop_last() =~= done);
            assert forall|i: int| 0 <= i < nd.len() implies (lead_width(#[trigger] nd[i]) / 2) * (indent as nat) <= isize::MAX by {
                if i < done.len() {
                    assert(nd[i] == done[i]);
                }
            }
            assert(text_lines(s) =~= nd + lines_from(s, if k < n { k + 1 } else { n as int }));
            done = nd;
        }
        p = if k < n { k + 1 } else { n };
    }
    assert(done =~= text_lines(s));
    let joined = crate::text::string_of(out.as_slice());
    let t = trim_end(joined.as_str());
    Some(t.to_string())
}

proof fn lemma_leading_white(l: Seq<char>, lw: int)
    requires
        0 <= lw <= l.len(),
        forall|j: int| 0 <= j < lw ==> is_white_space(#[trigger] l[j]),
        lw == l.len() || !is_white_space(l[lw]),
    ensures
        leading_white(l) == lw,
        crate::text::trim_start_spec(l) == l.skip(lw),
    decreases lw,
{
    if lw > 0 {
        assert(is_white_space(l[0]));
        lemma_leading_white(l.skip(1), lw - 1);
        assert(l.skip(1).skip(lw - 1) =~= l.skip(lw));
    }
}

/// What [`format_json`] gives.
pub open spec fn format_json_result(content: Seq<char>, indent: usize, no_color: bool, res: Result<String, SpruceError>) -> bool {
    match parsed_json(content) {
        None => res matches Err(SpruceError::JsonParse),
        Some(d) => {
            let t = if indent == 0 { compact_json(d) } else { pretty_json(d) };
            let f = if indent != 2 { reindented(t, indent as nat) } else { Some(t) };
            match f {
                None => res matches Err(SpruceError::IndentTooDeep),
                Some(ft) => res matches Ok(out) && (if no_color {
                    out@ == ft
                } else {
                    is_rendering(json_spans(ft), out@)
                }),
            }
        },
    }
}

/// Formats JSON with the given indentation (`0` for one line); with colors unless
/// `no_color`.
pub fn format_json(content: &str, indent: usize, no_color: bool) -> (res: Result<String, SpruceError>)
    ensures
        format_json_result(content@, indent, no_color, res),
{
    let value = match json_from_str(content) {
        Ok(v) => v,
        Err(_) => {
            return Err(SpruceError::JsonParse);
        },
    };
    let ser = if indent == 0 { json_to_string(&value) } else { json_to_string_pretty(&value) };
    let formatted = match ser {
        Ok(s) => s,
        Err(_) => {
            return Err(SpruceError::JsonSerialize);
        },
    };
    let formatted = if indent != 2 {
        match reindent(formatted.as_str(), indent) {
            Some(r) => r,
            None => {
                return Err(SpruceError::IndentTooDeep);
            },
        }
    } else {
        formatted
    };
    Ok(highlight_json(formatted.as_str(), no_color))
}

// ---------------------------------------------------------------------------
// XML pretty-printing
// ---------------------------------------------------------------------------

/// The outcome of pretty-printing XML: the text, the reader's error message, or an
/// indentation deeper than the address space.
pub enum Written {
    Text(Seq<char>),
    Failed(Seq<char>),
    TooDeep,
}

/// Pretty-printing from the `i`-th event on, the writer holding `text` at indentation
/// `level` with line break `brk`: every event, the XML declaration included, is written again,
/// up to the end of input.
pub open spec fn fx_from(evs: Seq<XmlEvent>, i: int, text: Seq<char>, level: nat, brk: bool, step: nat) -> Written
    decreases evs.len() - i,
{
    if 0 <= i < evs.len() {
        let k = evs[i].kind;
        let c = evs[i].content@;
        if k == XmlKind::Eof {
            Written::Text(text)
        } else if k == XmlKind::Error {
            Written::Failed(c)
        } else if writable(k) {
            if k == XmlKind::Start && level + step > isize::MAX {
                Written::TooDeep
            } else {
                let r = write_effect(text, level, brk, step, k, c);
                fx_from(evs, i + 1, r.0, r.1, r.2, step)
            }
        } else {
            fx_from(evs, i + 1, text, level, brk, step)
        }
    } else {
        Written::Text(text)
    }
}

/// XML text pretty-printed with `indent` spaces per level.
pub open spec fn pretty_xml(text: Seq<char>, indent: nat) -> Written {
    fx_from(xml_events(text), 0, seq![], 0, false, indent)
}

/// The step of XML output that writes an event of kind `k`.
pub open spec fn step_of(k: XmlKind) -> XmlStep {
    match k {
        XmlKind::Start => XmlStep::StartElement,
        XmlKind::End => XmlStep::EndElement,
        XmlKind::Empty => XmlStep::EmptyElement,
        XmlKind::Text => XmlStep::Text,
        XmlKind::CData => XmlStep::CData,
        XmlKind::Comment => XmlStep::Comment,
        XmlKind::PI => XmlStep::PI,
        XmlKind::Decl => XmlStep::Decl,
        _ => XmlStep::DocType,
    }
}

/// The step of XML output that writes an event of kind `k`.
fn write_step(k: XmlKind) -> (res: XmlStep)
    requires
        writable(k),
    ensures
        res == step_of(k),
{
    match k {
        XmlKind::Start => XmlStep::StartElement,
        XmlKind::End => XmlStep::EndElement,
        XmlKind::Empty => XmlStep::EmptyElement,
        XmlKind::Text => XmlStep::Text,
        XmlKind::CData => XmlStep::CData,
        XmlKind::Comment => XmlStep::Comment,
        XmlKind::PI => XmlStep::PI,
        XmlKind::Decl => XmlStep::Decl,
        _ => XmlStep::DocType,
    }
}

/// The written XML as a string, highlighted unless `no_color`.
fn finish_xml(w: quick_xml::Writer<Vec<u8>>, no_color: bool) -> (res: Result<String, SpruceError>)
    ensures
        res matches Ok(out) && (if no_color {
            out@ == writer_text(w)
        } else {
            is_rendering(xml_spans(writer_text(w)), out@)
        }),
{
    let bytes = xml_writer_bytes(w);
    proof {
        vstd::utf8::encode_utf8_valid_utf8(writer_text(w));
        vstd::utf8::encode_utf8_decode_utf8(writer_text(w));
    }
    let formatted = match string_from_utf8(bytes) {
        Ok(s) => s,
        Err(_) => {
            return Err(SpruceError::XmlNotUtf8);
        },
    };
    if no_color {
        Ok(formatted)
    } else {
        Ok(highlight_xml(formatted.as_str(), false))
    }
}

/// What [`format_xml`] gives.
pub open spec fn format_xml_result(content: Seq<char>, indent: usize, no_color: bool, res: Result<String, SpruceError>) -> bool {
    match pretty_xml(content, indent as nat) {
        Written::Text(t) => res matches Ok(out) && (if no_color {
            out@ == t
        } else {
            is_rendering(xml_spans(t), out@)
        }),
        Written::Failed(m) => res matches Err(SpruceError::XmlParse(msg)) && msg@ == m,
        Written::TooDeep => res matches Err(SpruceError::IndentTooDeep),
    }
}

/// Formats XML with the given indentation; with colors unless `no_color`.
pub fn format_xml(content: &str, indent: usize, no_color: bool) -> (res: Result<String, SpruceError>)
    ensures
        format_xml_result(content@, indent, no_color, res),
{
    let mut r = xml_reader(content);
    let mut w = xml_writer(indent);
    let ghost evs = pending_events(r);
    let ghost mut i: int = 0;
    let mut level: usize = 0;
    assert(evs.skip(0) =~= evs);
    loop
        invariant
            evs == xml_events(content@),
            well_ended(evs),
            0 <= i < evs.len(),
            pending_events(r) == evs.skip(i),
            writer_step(w) == indent,
            writer_level(w) == level,
            pretty_xml(content@, indent as nat) == fx_from(evs, i, writer_text(w), level as nat, writer_break(w), indent as nat),
        decreases evs.len() - i,
    {
        let ev = xml_read_event(&mut r);
        assert(ev == evs[i]);
        assert(pending_events(r) =~= evs.skip(i + 1));
        match ev.kind {
            XmlKind::Eof => {
                return finish_xml(w, no_color);
            },
            XmlKind::Error => {
                return Err(SpruceError::XmlParse(ev.content));
            },
            _ => {
                if ev.kind == XmlKind::Start && (indent > (isize::MAX as usize) || level > (isize::MAX as usize) - indent) {
                    return Err(SpruceError::IndentTooDeep);
                }
                let name = tag_name_of(ev.content.as_str());
                let name_s = crate::text::string_of(name.as_slice());
                match xml_write(&mut w, &ev, name_s.as_str()) {
                    Ok(()) => {},
                    Err(_) => {
                        return Err(SpruceError::XmlWrite(write_step(ev.kind)));
                    },
                }
                if ev.kind == XmlKind::Start {
                    level = level + indent;
                } else if ev.kind == XmlKind::End {
                    level = if level >= indent { level - indent } else { 0 };
                }
            },
        }
        proof {
            assert(!is_terminal(evs[i].kind));
            i = i + 1;
        }
    }
}

// ---------------------------------------------------------------------------
// Tree views
// ---------------------------------------------------------------------------

/// What [`tree_json`] gives.
pub open spec fn tree_json_result(content: Seq<char>, no_color: bool, res: Result<String, SpruceError>) -> bool {
    match parsed_json(content) {
        None => res matches Err(SpruceError::JsonParse),
        Some(d) => res matches Ok(out) && (if no_color {
            out@ == plain_text(jt_spans(d, seq![], no_color))
        } else {
            is_rendering(jt_spans(d, seq![], no_color), out@)
        }),
    }
}

/// Generates the tree view of JSON text.
pub fn tree_json(content: &str, no_color: bool) -> (res: Result<String, SpruceError>)
    ensures
        tree_json_result(content@, no_color, res),
{
    let value = match json_from_str(content) {
        Ok(v) => v,
        Err(_) => {
            return Err(SpruceError::JsonParse);
        },
    };
    proof {
        reveal_strlit("");
    }
    let empty = "";
    assert(empty@ =~= seq![]);
    Ok(format_json_tree(&value, empty, false, no_color))
}

/// What [`tree_xml`] gives.
pub open spec fn tree_xml_result(content: Seq<char>, no_color: bool, res: Result<String, SpruceError>) -> bool {
    match xml_tree(content, no_color) {
        Drawn::Spans(sp) => res matches Ok(out) && (if no_color {
            out@ == plain_text(sp)
        } else {
            is_rendering(sp, out@)
        }),
        Drawn::Failed(m) => res matches Err(SpruceError::XmlParse(msg)) && msg@ == m,
    }
}

/// Generates the tree view of XML text.
pub fn tree_xml(content: &str, no_color: bool) -> (res: Result<String, SpruceError>)
    ensures
        tree_xml_result(content@, no_color, res),
{
    format_xml_tree(content, no_color)
}

} // verus!
