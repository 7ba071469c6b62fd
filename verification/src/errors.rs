//! The errors of the library.
use vstd::prelude::*;
use crate::json::{JsonKind, kind_word};
use crate::text::{lit, concat_chars, decimal, decimal_chars, string_of};

verus! {

/// The step of XML output that failed.
#[derive(Clone, Copy, Debug, PartialEq, Eq, Structural)]
pub enum XmlStep {
    StartElement,
    EndElement,
    EmptyElement,
    Text,
    CData,
    Comment,
    PI,
    DocType,
    Decl,
}

/// Why an operation of the library failed.
#[derive(Debug)]
pub enum SpruceError {
    /// The format hint, lower-cased, names neither JSON nor XML.
    UnknownFormatType(String),
    /// Neither hint, file name nor content tells the format; holds the first characters
    /// of the content after its leading white space.
    UndetectedFormat(String),
    /// The input is not JSON.
    JsonParse,
    /// A JSON value could not be written out.
    JsonSerialize,
    /// The result of a query could not be written out.
    QueryResultSerialize,
    /// The XML reader failed, with its message.
    XmlParse(String),
    /// Writing XML output failed at the given step.
    XmlWrite(XmlStep),
    /// The XML output is not UTF-8.
    XmlNotUtf8,
    /// Indentation wider than the address space would be needed.
    IndentTooDeep,
    /// A JSON object has no such key.
    KeyNotFound(String),
    /// A key was applied to a value that is not an object.
    KeyOnNonObject(JsonKind, String),
    /// A negative index was applied to an empty array.
    IndexEmptyArray(isize),
    /// An index, after counting negative ones from the end, lies outside the array.
    IndexOutOfBounds(isize, usize),
    /// An index was applied to a value that is not an array.
    IndexOnNonArray(JsonKind, isize),
    /// A wildcard was applied to a value that is neither array nor object.
    WildcardOnScalar(JsonKind),
    /// An XML query matched no node.
    NoMatch(String),
    /// No matched node carries the queried attribute.
    AttributeNotFound(String),
    /// The window was asked to run a query with no query expression.
    EmptyQuery,
    /// A `text()` query matched elements, none of which holds text.
    NoText(String),
}

/// The mathematical value of a [`SpruceError`], with text as character sequences.
pub enum Failure {
    UnknownFormatType(Seq<char>),
    UndetectedFormat(Seq<char>),
    JsonParse,
    JsonSerialize,
    QueryResultSerialize,
    XmlParse(Seq<char>),
    XmlWrite(XmlStep),
    XmlNotUtf8,
    IndentTooDeep,
    KeyNotFound(Seq<char>),
    KeyOnNonObject(JsonKind, Seq<char>),
    IndexEmptyArray(isize),
    IndexOutOfBounds(isize, usize),
    IndexOnNonArray(JsonKind, isize),
    WildcardOnScalar(JsonKind),
    NoMatch(Seq<char>),
    AttributeNotFound(Seq<char>),
    EmptyQuery,
    NoText(Seq<char>),
}

impl View for SpruceError {
    type V = Failure;

    open spec fn view(&self) -> Failure {
        match self {
            SpruceError::UnknownFormatType(s) => Failure::UnknownFormatType(s@),
            SpruceError::UndetectedFormat(s) => Failure::UndetectedFormat(s@),
            SpruceError::JsonParse => Failure::JsonParse,
            SpruceError::JsonSerialize => Failure::JsonSerialize,
            SpruceError::QueryResultSerialize => Failure::QueryResultSerialize,
            SpruceError::XmlParse(s) => Failure::XmlParse(s@),
            SpruceError::XmlWrite(st) => Failure::XmlWrite(*st),
            SpruceError::XmlNotUtf8 => Failure::XmlNotUtf8,
            SpruceError::IndentTooDeep => Failure::IndentTooDeep,
            SpruceError::KeyNotFound(s) => Failure::KeyNotFound(s@),
            SpruceError::KeyOnNonObject(k, s) => Failure::KeyOnNonObject(*k, s@),
            SpruceError::IndexEmptyArray(i) => Failure::IndexEmptyArray(*i),
            SpruceError::IndexOutOfBounds(i, n) => Failure::IndexOutOfBounds(*i, *n),
            SpruceError::IndexOnNonArray(k, i) => Failure::IndexOnNonArray(*k, *i),
            SpruceError::WildcardOnScalar(k) => Failure::WildcardOnScalar(*k),
            SpruceError::NoMatch(s) => Failure::NoMatch(s@),
            SpruceError::AttributeNotFound(s) => Failure::AttributeNotFound(s@),
            SpruceError::EmptyQuery => Failure::EmptyQuery,
            SpruceError::NoText(s) => Failure::NoText(s@),
        }
    }
}

/// What messages show for a signed integer: its decimal digits, after a minus sign
/// where it is negative.
pub open spec fn signed_decimal(i: int) -> Seq<char> {
    if i < 0 {
        seq!['-'] + decimal((-i) as nat)
    } else {
        decimal(i as nat)
    }
}

/// The message for a failed step of XML output.
pub open spec fn step_message(st: XmlStep) -> Seq<char> {
    match st {
        XmlStep::StartElement => "Failed to write XML start element"@,
        XmlStep::EndElement => "Failed to write XML end element"@,
        XmlStep::EmptyElement => "Failed to write XML empty element"@,
        XmlStep::Text => "Failed to write XML text"@,
        XmlStep::CData => "Failed to write XML CDATA"@,
        XmlStep::Comment => "Failed to write XML comment"@,
        XmlStep::PI => "Failed to write XML PI"@,
        XmlStep::DocType => "Failed to write XML DocType"@,
        XmlStep::Decl => "Failed to write XML declaration"@,
    }
}

/// The text that `{:?}` shows for a string: the string in double quotes, with
/// quotes, backslashes and characters that do not print escaped.
pub uninterp spec fn debug_text(s: Seq<char>) -> Seq<char>;

/// The message that tells a user what went wrong.
pub open spec fn error_message(f: Failure) -> Seq<char> {
    match f {
        Failure::UnknownFormatType(t) => "Unknown format type '"@ + t + "'. Use 'json' or 'xml'."@,
        Failure::UndetectedFormat(p) =>
            "Unable to detect format. Use --type json or --type xml to specify.\nContent starts with: "@
                + debug_text(p),
        Failure::JsonParse => "Failed to parse JSON"@,
        Failure::JsonSerialize => "Failed to serialize JSON"@,
        Failure::QueryResultSerialize => "Failed to serialize query result"@,
        Failure::XmlParse(m) => "XML parse error: "@ + m,
        Failure::XmlWrite(st) => step_message(st),
        Failure::XmlNotUtf8 => "XML output is not valid UTF-8"@,
        Failure::IndentTooDeep => "Indent too wide for the output to fit in memory"@,
        Failure::KeyNotFound(k) => "Key '"@ + k + "' not found"@,
        Failure::KeyOnNonObject(kind, k) => "Cannot index into "@ + kind_word(kind) + " with key '"@ + k + "'"@,
        Failure::IndexEmptyArray(i) => "Cannot index empty array with "@ + signed_decimal(i as int),
        Failure::IndexOutOfBounds(i, n) =>
            "Index "@ + signed_decimal(i as int) + " out of bounds (length "@ + decimal(n as nat) + ")"@,
        Failure::IndexOnNonArray(kind, i) =>
            "Cannot index into "@ + kind_word(kind) + " with ["@ + signed_decimal(i as int) + "]"@,
        Failure::WildcardOnScalar(kind) => "Cannot use wildcard on "@ + kind_word(kind),
        Failure::NoMatch(q) => "Query '"@ + q + "' did not match any nodes"@,
        Failure::AttributeNotFound(a) => "Attribute '"@ + a + "' not found on matched nodes"@,
        Failure::EmptyQuery => "Type a query expression first"@,
        Failure::NoText(q) => "Query '"@ + q + "' matched no node with text"@,
    }
}

/// std: `Debug` of a `str`, written with `format!("{:?}", ..)`.
#[verifier::external_body]
fn debug_quoted(s: &str) -> (res: String)
    ensures
        res@ == debug_text(s@),
{
    format!("{:?}", s)
}

/// The decimal digits of a signed integer, after a minus sign where it is negative.
fn signed_decimal_chars(i: isize) -> (res: Vec<char>)
    ensures
        res@ == signed_decimal(i as int),
{
    if i < 0 {
        let a: usize = ((-(i + 1)) as usize) + 1;
        let digits = decimal_chars(a);
        let mut minus: Vec<char> = Vec::new();
        minus.push('-');
        concat_chars(&minus, &digits)
    } else {
        decimal_chars(i as usize)
    }
}

/// `a`, then the characters of `b`.
fn join(a: Vec<char>, b: &str) -> (res: Vec<char>)
    ensures
        res@ == a@ + b@,
{
    concat_chars(&a, &lit(b))
}

/// `a`, then `b`.
fn join_chars(a: Vec<char>, b: &Vec<char>) -> (res: Vec<char>)
    ensures
        res@ == a@ + b@,
{
    concat_chars(&a, b)
}

impl XmlStep {
    /// The message for this failed step.
    pub fn message(&self) -> (res: &'static str)
        ensures
            res@ == step_message(*self),
    {
        match self {
            XmlStep::StartElement => "Failed to write XML start element",
            XmlStep::EndElement => "Failed to write XML end element",
            XmlStep::EmptyElement => "Failed to write XML empty element",
            XmlStep::Text => "Failed to write XML text",
            XmlStep::CData => "Failed to write XML CDATA",
            XmlStep::Comment => "Failed to write XML comment",
            XmlStep::PI => "Failed to write XML PI",
            XmlStep::DocType => "Failed to write XML DocType",
            XmlStep::Decl => "Failed to write XML declaration",
        }
    }
}

impl SpruceError {
    /// The message that tells a user what went wrong.
    pub fn message(&self) -> (res: String)
        ensures
            res@ == error_message(self@),
    {
        let cs: Vec<char> = match self {
            SpruceError::UnknownFormatType(t) =>
                join(join(lit("Unknown format type '"), t.as_str()), "'. Use 'json' or 'xml'."),
            SpruceError::UndetectedFormat(p) => {
                let shown = debug_quoted(p.as_str());
                join(lit("Unable to detect format. Use --type json or --type xml to specify.\nContent starts with: "), shown.as_str())
            },
            SpruceError::JsonParse => lit("Failed to parse JSON"),
            SpruceError::JsonSerialize => lit("Failed to serialize JSON"),
            SpruceError::QueryResultSerialize => lit("Failed to serialize query result"),
            SpruceError::XmlParse(m) => join(lit("XML parse error: "), m.as_str()),
            SpruceError::XmlWrite(st) => lit(st.message()),
            SpruceError::XmlNotUtf8 => lit("XML output is not valid UTF-8"),
            SpruceError::IndentTooDeep => lit("Indent too wide for the output to fit in memory"),
            SpruceError::KeyNotFound(k) => join(join(lit("Key '"), k.as_str()), "' not found"),
            SpruceError::KeyOnNonObject(kind, k) =>
                join(join(join(join(lit("Cannot index into "), kind.as_str()), " with key '"), k.as_str()), "'"),
            SpruceError::IndexEmptyArray(i) =>
                join_chars(lit("Cannot index empty array with "), &signed_decimal_chars(*i)),
            SpruceError::IndexOutOfBounds(i, n) =>
                join(join_chars(join(join_chars(lit("Index "), &signed_decimal_chars(*i)), " out of bounds (length "), &decimal_chars(*n)), ")"),
            SpruceError::IndexOnNonArray(kind, i) =>
                join(join_chars(join(join(lit("Cannot index into "), kind.as_str()), " with ["), &signed_decimal_chars(*i)), "]"),
            SpruceError::WildcardOnScalar(kind) => join(lit("Cannot use wildcard on "), kind.as_str()),
            SpruceError::NoMatch(q) => join(join(lit("Query '"), q.as_str()), "' did not match any nodes"),
            SpruceError::AttributeNotFound(a) => join(join(lit("Attribute '"), a.as_str()), "' not found on matched nodes"),
            SpruceError::EmptyQuery => lit("Type a query expression first"),
            SpruceError::NoText(q) => join(join(lit("Query '"), q.as_str()), "' matched no node with text"),
        };
        string_of(cs.as_slice())
    }
}

} // verus!
