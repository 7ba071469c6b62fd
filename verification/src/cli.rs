//! The commands of the command line, and what each computes from its input.
use vstd::prelude::*;
use crate::errors::SpruceError;
use crate::format::{DataFormat, format_json, format_xml, tree_json, tree_xml};
use crate::query::{query_json, query_xml};

verus! {

/// The command line: one of the commands.
#[derive(Debug)]
pub struct Cli {
    pub command: Commands,
}

/// The commands.
#[derive(Debug)]
pub enum Commands {
    /// Pretty-print JSON or XML with syntax highlighting.
    Format {
        file: Option<String>,
        indent: usize,
        output: Option<String>,
        format_type: Option<String>,
        no_color: bool,
    },
    /// Query data using JSON dot-notation or XPath-like paths.
    Query {
        query: String,
        file: Option<String>,
        output: Option<String>,
        format_type: Option<String>,
        no_color: bool,
    },
    /// Display the data structure as a tree.
    Tree {
        file: Option<String>,
        format_type: Option<String>,
        no_color: bool,
    },
}

/// What the `format` command shows for content of the given format.
pub fn format_content(fmt: DataFormat, content: &str, indent: usize, no_color: bool) -> (res: Result<String, SpruceError>)
    ensures
        (match fmt {
            DataFormat::Json => crate::format::format_json_result(content@, indent, no_color, res),
            DataFormat::Xml => crate::format::format_xml_result(content@, indent, no_color, res),
        }),
{
    match fmt {
        DataFormat::Json => format_json(content, indent, no_color),
        DataFormat::Xml => format_xml(content, indent, no_color),
    }
}

/// What the `query` command shows for content of the given format.
pub fn query_content(fmt: DataFormat, content: &str, query: &str, no_color: bool) -> (res: Result<String, SpruceError>)
    ensures
        (match fmt {
            DataFormat::Json => crate::query::query_json_result(content@, query@, no_color, res),
            DataFormat::Xml => crate::query::query_xml_result(content@, query@, no_color, res),
        }),
{
    match fmt {
        DataFormat::Json => query_json(content, query, no_color),
        DataFormat::Xml => query_xml(content, query, no_color),
    }
}

/// What the `tree` command shows for content of the given format.
pub fn tree_content(fmt: DataFormat, content: &str, no_color: bool) -> (res: Result<String, SpruceError>)
    ensures
        (match fmt {
            DataFormat::Json => crate::format::tree_json_result(content@, no_color, res),
            DataFormat::Xml => crate::format::tree_xml_result(content@, no_color, res),
        }),
{
    match fmt {
        DataFormat::Json => tree_json(content, no_color),
        DataFormat::Xml => tree_xml(content, no_color),
    }
}

} // verus!
