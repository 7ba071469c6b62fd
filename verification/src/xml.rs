//! XML events, read and written by `quick_xml`.
//!
//! The library reads a document as the sequence of events that a `quick_xml::Reader`
//! gives for it and writes events back through a `quick_xml::Writer`.  Both are opaque
//! to the verifier: [`pending_events`] names the events a reader has still to give, and
//! the `writer_*` names the state of a writer; the trusted functions below say what
//! each call does to them.
use vstd::prelude::*;
use quick_xml::events::{BytesCData, BytesDecl, BytesEnd, BytesPI, BytesStart, BytesText, Event};

verus! {

#[verifier::external_type_specification]
#[verifier::external_body]
#[verifier::reject_recursive_types(R)]
pub struct ExXmlReader<R>(quick_xml::Reader<R>);

#[verifier::external_type_specification]
#[verifier::external_body]
#[verifier::reject_recursive_types(W)]
pub struct ExXmlWriter<W>(quick_xml::Writer<W>);

#[verifier::external_type_specification]
#[verifier::external_body]
pub struct ExIoError(std::io::Error);

#[verifier::external_type_specification]
#[verifier::external_body]
pub struct ExEscapeError(quick_xml::escape::EscapeError);

#[verifier::external_type_specification]
#[verifier::external_body]
pub struct ExFromUtf8Error(std::string::FromUtf8Error);

/// The kind of an XML event.
#[derive(Clone, Copy, Debug, PartialEq, Eq, Structural)]
pub enum XmlKind {
    Start,
    End,
    Empty,
    Text,
    CData,
    Comment,
    Decl,
    PI,
    DocType,
    Eof,
    Error,
}

/// An event of an XML reader: its kind and its text.  The text is what the event
/// holds between its delimiters (for a tag `<a x="1">`, `a x="1"`; for text, the text
/// as it stands, with its entity references); for an error, the reader's message.
#[derive(Debug)]
pub struct XmlEvent {
    pub kind: XmlKind,
    pub content: String,
}

/// The events that a reader made by [`xml_reader`] gives for a text, one per read, up
/// to and including the first end of input or error.
pub uninterp spec fn xml_events(text: Seq<char>) -> Seq<XmlEvent>;

/// The events that a reader has still to give, up to and including the first end of
/// input or error.
pub uninterp spec fn pending_events(r: quick_xml::Reader<&[u8]>) -> Seq<XmlEvent>;

/// What `quick_xml::escape::unescape` gives for a text: `None` where it fails.
pub uninterp spec fn unescaped_xml(raw: Seq<char>) -> Option<Seq<char>>;

/// What `BytesStart::attributes` yields, in document order, for a tag with the given
/// content and name: each attribute as its key and raw value, or `None` for an error.
pub uninterp spec fn tag_attribute_items(content: Seq<char>, name: Seq<char>) -> Seq<Option<(Seq<char>, Seq<char>)>>;

/// The items that are not errors.
pub open spec fn ok_items(items: Seq<Option<(Seq<char>, Seq<char>)>>) -> Seq<(Seq<char>, Seq<char>)>
    decreases items.len(),
{
    if items.len() == 0 {
        seq![]
    } else {
        let r = ok_items(items.drop_last());
        match items.last() {
            Some(p) => r.push(p),
            None => r,
        }
    }
}

/// The attributes of a tag that are read without error, as (key, raw value) pairs in
/// document order.
pub open spec fn tag_attributes(content: Seq<char>, name: Seq<char>) -> Seq<(Seq<char>, Seq<char>)> {
    ok_items(tag_attribute_items(content, name))
}

/// The text that a writer has written, as characters.
pub uninterp spec fn writer_text(w: quick_xml::Writer<Vec<u8>>) -> Seq<char>;

/// The writer's current indentation, in indent characters.
pub uninterp spec fn writer_level(w: quick_xml::Writer<Vec<u8>>) -> nat;

/// Whether the writer's next tag starts on a new line.
pub uninterp spec fn writer_break(w: quick_xml::Writer<Vec<u8>>) -> bool;

/// The number of indent characters per level that the writer was made with.
pub uninterp spec fn writer_step(w: quick_xml::Writer<Vec<u8>>) -> nat;

pub open spec fn is_terminal(k: XmlKind) -> bool {
    k == XmlKind::Eof || k == XmlKind::Error
}

/// A stream of events that ends with its first end of input or error.
pub open spec fn well_ended(evs: Seq<XmlEvent>) -> bool {
    &&& evs.len() > 0
    &&& is_terminal(evs.last().kind)
    &&& forall|i: int| 0 <= i < evs.len() - 1 ==> !is_terminal(#[trigger] evs[i].kind)
}

/// Whether a byte of a tag is XML white space.
pub open spec fn is_xml_space(c: char) -> bool {
    c == ' ' || c == '\r' || c == '\n' || c == '\t'
}

/// The name of a tag with the given content: its content up to the first XML white
/// space, as `quick_xml` takes it.
pub open spec fn tag_name(content: Seq<char>) -> Seq<char>
    decreases content.len(),
{
    if content.len() == 0 || is_xml_space(content[0]) {
        seq![]
    } else {
        seq![content[0]] + tag_name(content.skip(1))
    }
}

/// `quick_xml::Reader::from_str` on a text, configured with `trim_text(true)`.
#[verifier::external_body]
pub(crate) fn xml_reader<'a>(text: &'a str) -> (res: quick_xml::Reader<&'a [u8]>)
    ensures
        pending_events(res) == xml_events(text@),
        well_ended(pending_events(res)),
{
    let mut r = quick_xml::Reader::from_str(text);
    r.config_mut().trim_text(true);
    r
}

/// `quick_xml::Reader::read_event`, with the event's bytes (or the error's message)
/// taken as text.
#[verifier::external_body]
pub(crate) fn xml_read_event(r: &mut quick_xml::Reader<&[u8]>) -> (res: XmlEvent)
    requires
        pending_events(*old(r)).len() > 0,
    ensures
        res == pending_events(*old(r))[0],
        pending_events(*final(r)) == pending_events(*old(r)).drop_first(),
{
    match r.read_event() {
        Ok(e) => {
            let kind = match &e {
                Event::Start(_) => XmlKind::Start, Event::End(_) => XmlKind::End,
                Event::Empty(_) => XmlKind::Empty, Event::Text(_) => XmlKind::Text,
                Event::CData(_) => XmlKind::CData, Event::Comment(_) => XmlKind::Comment,
                Event::Decl(_) => XmlKind::Decl, Event::PI(_) => XmlKind::PI,
                Event::DocType(_) => XmlKind::DocType, Event::Eof => XmlKind::Eof,
            };
            XmlEvent { kind, content: String::from_utf8_lossy(&e).into_owned() }
        },
        Err(e) => XmlEvent { kind: XmlKind::Error, content: e.to_string() },
    }
}

/// `quick_xml::escape::unescape`.
#[verifier::external_body]
pub(crate) fn xml_unescape(raw: &str) -> (res: Result<String, quick_xml::escape::EscapeError>)
    ensures
        res is Ok <==> unescaped_xml(raw@) is Some,
        res matches Ok(s) ==> unescaped_xml(raw@) == Some(s@),
{
    quick_xml::escape::unescape(raw).map(|s| s.into_owned())
}

pub open spec fn item_view(o: Option<(String, String)>) -> Option<(Seq<char>, Seq<char>)> {
    match o {
        Some(p) => Some((p.0@, p.1@)),
        None => None,
    }
}

/// `BytesStart::attributes` of the tag with the given content and name: each item it
/// yields, an attribute as its key and raw value, an error as `None`.
#[verifier::external_body]
fn xml_attribute_items(content: &str, name: &str) -> (res: Vec<Option<(String, String)>>)
    ensures
        res@.map_values(|o: Option<(String, String)>| item_view(o)) == tag_attribute_items(content@, name@),
{
    let mut out = Vec::new();
    for a in BytesStart::from_content(content, name.len()).attributes() {
        out.push(match a {
            Ok(a) => Some((String::from_utf8_lossy(a.key.as_ref()).into_owned(), String::from_utf8_lossy(&a.value).into_owned())),
            Err(_) => None,
        });
    }
    out
}

/// The attributes of a tag that are read without error, each as its key and raw value.
pub fn xml_attributes(content: &str, name: &str) -> (res: Vec<(String, String)>)
    ensures
        res@.len() == tag_attributes(content@, name@).len(),
        forall|i: int|
            0 <= i < res@.len() ==> (#[trigger] res@[i]).0@ == tag_attributes(content@, name@)[i].0
                && res@[i].1@ == tag_attributes(content@, name@)[i].1,
{
    let items = xml_attribute_items(content, name);
    let ghost iv = items@.map_values(|o: Option<(String, String)>| item_view(o));
    let mut out: Vec<(String, String)> = Vec::new();
    let mut i: usize = 0;
    while i < items.len()
        invariant
            i <= items@.len(),
            iv == items@.map_values(|o: Option<(String, String)>| item_view(o)),
            out@.len() == ok_items(iv.take(i as int)).len(),
            forall|j: int|
                0 <= j < out@.len() ==> (#[trigger] out@[j]).0@ == ok_items(iv.take(i as int))[j].0
                    && out@[j].1@ == ok_items(iv.take(i as int))[j].1,
        decreases items@.len() - i,
    {
        proof {
            assert(iv.take(i + 1).drop_last() =~= iv.take(i as int));
            assert(iv.take(i + 1).last() == item_view(items@[i as int]));
        }
        match &items[i] {
            Some(p) => {
                out.push((p.0.clone(), p.1.clone()));
            },
            None => {},
        }
        i = i + 1;
    }
    assert(iv.take(items@.len() as int) =~= iv);
    out
}

/// `quick_xml::Writer::new_with_indent` over an empty vector, indenting with spaces.
#[verifier::external_body]
pub(crate) fn xml_writer(indent: usize) -> (res: quick_xml::Writer<Vec<u8>>)
    ensures
        writer_text(res) == Seq::<char>::empty(),
        writer_level(res) == 0,
        !writer_break(res),
        writer_step(res) == indent,
{
    quick_xml::Writer::new_with_indent(Vec::new(), b' ', indent)
}

/// `n` spaces.
pub open spec fn spaces(n: nat) -> Seq<char> {
    Seq::new(n, |i: int| ' ')
}

/// What a writer at indentation `level` writes for an element-like event: a new line and
/// the indentation first when `brk` asks for it, then the event's text in its delimiters.
pub open spec fn wrapped(brk: bool, level: nat, before: Seq<char>, content: Seq<char>, after: Seq<char>) -> Seq<char> {
    (if brk { seq!['\n'] + spaces(level) } else { seq![] }) + before + content + after
}

/// Whether a writer can be given an event of this kind.
pub open spec fn writable(k: XmlKind) -> bool {
    k == XmlKind::Start || k == XmlKind::End || k == XmlKind::Empty || k == XmlKind::Text
        || k == XmlKind::CData || k == XmlKind::Comment || k == XmlKind::Decl || k == XmlKind::PI
        || k == XmlKind::DocType
}

/// A writer's (text, level, line break) after it writes an event, as
/// `Writer::write_event` does with indentation on: a start tag deepens the indentation
/// after it is written, an end tag lessens it (not below zero) before; text and CDATA
/// are written where they stand and keep the next tag on the same line; every other
/// event puts the next tag on a new line.  The XML declaration is written as a
/// processing instruction is, between `<?` and `?>`.
pub open spec fn write_effect(text: Seq<char>, level: nat, brk: bool, step: nat, k: XmlKind, c: Seq<char>) -> (Seq<char>, nat, bool) {
    if k == XmlKind::Start {
        (text + wrapped(brk, level, seq!['<'], c, seq!['>']), level + step, true)
    } else if k == XmlKind::End {
        let l = if level >= step { (level - step) as nat } else { 0 };
        (text + wrapped(brk, l, seq!['<', '/'], c, seq!['>']), l, true)
    } else if k == XmlKind::Empty {
        (text + wrapped(brk, level, seq!['<'], c, seq!['/', '>']), level, true)
    } else if k == XmlKind::Text {
        (text + c, level, false)
    } else if k == XmlKind::CData {
        (text + seq!['<', '!', '[', 'C', 'D', 'A', 'T', 'A', '['] + c + seq![']', ']', '>'], level, false)
    } else if k == XmlKind::Comment {
        (text + wrapped(brk, level, seq!['<', '!', '-', '-'], c, seq!['-', '-', '>']), level, true)
    } else if k == XmlKind::Decl || k == XmlKind::PI {
        (text + wrapped(brk, level, seq!['<', '?'], c, seq!['?', '>']), level, true)
    } else {
        (text + wrapped(brk, level, seq!['<', '!', 'D', 'O', 'C', 'T', 'Y', 'P', 'E', ' '], c, seq!['>']), level, true)
    }
}

/// `quick_xml::Writer::write_event` of the event rebuilt from its kind and text (for
/// tags, with the given name).  The indentation of a start tag must stay within what a
/// vector can hold.  The writer's only failures are those of the `std::io::Write` it
/// writes into, and writing into a vector appends to it; so the write succeeds, and the
/// writer's state changes as [`write_effect`] says.
#[verifier::external_body]
pub(crate) fn xml_write(w: &mut quick_xml::Writer<Vec<u8>>, ev: &XmlEvent, name: &str) -> (res: Result<(), std::io::Error>)
    requires
        writable(ev.kind),
        ev.kind == XmlKind::Start ==> writer_level(*old(w)) + writer_step(*old(w)) <= isize::MAX,
    ensures
        res is Ok,
        ({
            let r = write_effect(
                writer_text(*old(w)),
                writer_level(*old(w)),
                writer_break(*old(w)),
                writer_step(*old(w)),
                ev.kind,
                ev.content@,
            );
            &&& writer_text(*final(w)) == r.0
            &&& writer_level(*final(w)) == r.1
            &&& writer_break(*final(w)) == r.2
            &&& writer_step(*final(w)) == writer_step(*old(w))
        }),
{
    let c = ev.content.as_str();
    let e = match ev.kind {
        XmlKind::Start => Event::Start(BytesStart::from_content(c, name.len())),
        XmlKind::End => Event::End(BytesEnd::new(c)),
        XmlKind::Empty => Event::Empty(BytesStart::from_content(c, name.len())),
        XmlKind::Text => Event::Text(BytesText::from_escaped(c)),
        XmlKind::CData => Event::CData(BytesCData::new(c)),
        XmlKind::Comment => Event::Comment(BytesText::from_escaped(c)),
        XmlKind::Decl => Event::Decl(BytesDecl::from_start(BytesStart::from_content(c, name.len()))),
        XmlKind::PI => Event::PI(BytesPI::new(c)),
        _ => Event::DocType(BytesText::from_escaped(c)),
    };
    w.write_event(e)
}

/// `quick_xml::Writer::into_inner`: the bytes written, which are the UTF-8 encoding of
/// the text written.
#[verifier::external_body]
pub(crate) fn xml_writer_bytes(w: quick_xml::Writer<Vec<u8>>) -> (res: Vec<u8>)
    ensures
        res@ == vstd::utf8::encode_utf8(writer_text(w)),
{
    w.into_inner()
}

/// std: `String::from_utf8`.
#[verifier::external_body]
pub(crate) fn string_from_utf8(bytes: Vec<u8>) -> (res: Result<String, std::string::FromUtf8Error>)
    ensures
        res is Ok <==> vstd::utf8::valid_utf8(bytes@),
        res matches Ok(s) ==> s@ == vstd::utf8::decode_utf8(bytes@),
{
    String::from_utf8(bytes)
}

} // verus!
