use spruce::errors::SpruceError;
use spruce::format::{detect_format, format_json, format_xml, reindent, tree_json, tree_xml, DataFormat};
use spruce::cli::{format_content, tree_content};

#[test]
fn detect_hint_wins_case_insensitive() {
    assert_eq!(detect_format("<a/>", Some("data.xml"), Some("JSON")).unwrap(), DataFormat::Json);
    assert_eq!(detect_format("{}", None, Some("Xml")).unwrap(), DataFormat::Xml);
}

#[test]
fn detect_unknown_hint() {
    match detect_format("{}", None, Some("YAML")) {
        Err(SpruceError::UnknownFormatType(t)) => assert_eq!(t, "yaml"),
        other => panic!("unexpected {:?}", other),
    }
}

#[test]
fn detect_by_extension() {
    assert_eq!(detect_format("<a/>", Some("dir/Data.JSON"), None).unwrap(), DataFormat::Json);
    assert_eq!(detect_format("{}", Some("feed.xml"), None).unwrap(), DataFormat::Xml);
}

#[test]
fn detect_by_content() {
    assert_eq!(detect_format("  \n\t{\"a\":1}", None, None).unwrap(), DataFormat::Json);
    assert_eq!(detect_format("[1]", Some("noext"), None).unwrap(), DataFormat::Json);
    assert_eq!(detect_format("\u{3000} <root/>", None, None).unwrap(), DataFormat::Xml);
}

#[test]
fn detect_fails_with_content_start() {
    match detect_format("   hello world, this is plain text", None, None) {
        Err(SpruceError::UndetectedFormat(start)) => assert_eq!(start, "hello world, this is"),
        other => panic!("unexpected {:?}", other),
    }
    match detect_format("", None, None) {
        Err(SpruceError::UndetectedFormat(start)) => assert_eq!(start, ""),
        other => panic!("unexpected {:?}", other),
    }
}

#[test]
fn format_names() {
    assert_eq!(DataFormat::Json.as_str(), "json");
    assert_eq!(DataFormat::Xml.as_str(), "xml");
}

#[test]
fn format_json_default_indent() {
    let out = format_json("{\"name\":\"Spruce\",\"version\":\"0.1.0\"}", 2, true).unwrap();
    assert_eq!(out, "{\n  \"name\": \"Spruce\",\n  \"version\": \"0.1.0\"\n}");
}

#[test]
fn format_json_custom_indent() {
    let out = format_json("{\"a\":[1,2]}", 4, true).unwrap();
    assert_eq!(out, "{\n    \"a\": [\n        1,\n        2\n    ]\n}");
    let out = format_json("{\"a\":[1,2]}", 1, true).unwrap();
    assert_eq!(out, "{\n \"a\": [\n  1,\n  2\n ]\n}");
}

#[test]
fn format_json_compact() {
    let out = format_json("{ \"b\" : 2, \"a\" : 1 }", 0, true).unwrap();
    assert_eq!(out, "{\"a\":1,\"b\":2}");
}

#[test]
fn format_json_rejects_invalid() {
    assert!(matches!(format_json("{\"a\":", 2, true), Err(SpruceError::JsonParse)));
}

#[test]
fn format_json_indent_too_wide() {
    assert!(matches!(format_json("{\"a\":1}", usize::MAX, true), Err(SpruceError::IndentTooDeep)));
}

#[test]
fn reindent_counts_two_bytes_per_level() {
    assert_eq!(reindent("{\n  \"a\": {\n    \"b\": 1\n  }\n}\n", 3).unwrap(), "{\n   \"a\": {\n      \"b\": 1\n   }\n}");
    assert_eq!(reindent("a\r\n   b", 2).unwrap(), "a\n  b");
    assert_eq!(reindent("", 2).unwrap(), "");
}

#[test]
fn format_xml_pretty() {
    let out = format_xml("<root><a>1</a><b/></root>", 2, true).unwrap();
    assert_eq!(out, "<root>\n  <a>1</a>\n  <b/>\n</root>");
}

#[test]
fn format_xml_keeps_declaration() {
    let out = format_xml("<?xml version=\"1.0\"?>\n<r x=\"1\"/>", 4, true).unwrap();
    assert_eq!(out, "<?xml version=\"1.0\"?>\n<r x=\"1\"/>");
    let out = format_xml("<?xml version=\"1.0\"?><a/>", 2, true).unwrap();
    assert_eq!(out, "<?xml version=\"1.0\"?>\n<a/>");
    let out = format_xml("<?xml version=\"1.0\" encoding=\"UTF-8\"?><a><b/></a>", 2, true).unwrap();
    assert_eq!(out, "<?xml version=\"1.0\" encoding=\"UTF-8\"?>\n<a>\n  <b/>\n</a>");
}

#[test]
fn format_xml_keeps_comments_and_cdata() {
    let out = format_xml("<r><!-- c --><![CDATA[x<y]]></r>", 1, true).unwrap();
    assert_eq!(out, "<r>\n <!-- c --><![CDATA[x<y]]></r>");
}

#[test]
fn format_xml_reports_errors() {
    assert!(matches!(format_xml("<a></b>", 2, true), Err(SpruceError::XmlParse(_))));
}

#[test]
fn format_xml_indent_too_deep() {
    assert!(matches!(format_xml("<a><b/></a>", usize::MAX, true), Err(SpruceError::IndentTooDeep)));
}

#[test]
fn tree_json_view() {
    let out = tree_json("{\"a\":[1,true],\"b\":null}", true).unwrap();
    assert_eq!(out, "{\n├── a: [\n│   ├── [0] 1\n│   └── [1] true\n│   ]\n└── b: null\n}\n");
}

#[test]
fn tree_json_root_array_and_scalar() {
    assert_eq!(tree_json("[\"x\"]", true).unwrap(), "[\n└──  [0] \"x\"\n]\n");
    assert_eq!(tree_json("42", true).unwrap(), "42");
    assert_eq!(tree_json("{}", true).unwrap(), "{\n}\n");
    assert!(matches!(tree_json("nope", true), Err(SpruceError::JsonParse)));
}

#[test]
fn tree_xml_view() {
    let out = tree_xml("<root><item id=\"1\">hi &amp; bye</item><e/></root>", true).unwrap();
    assert_eq!(out, "├── root\n├── item [@id=\"1\"]\n│   ├── \"hi & bye\"\n├── e (empty)\n");
}

#[test]
fn tree_xml_reports_errors() {
    assert!(matches!(tree_xml("<a></b>", true), Err(SpruceError::XmlParse(_))));
}

#[test]
fn commands_dispatch_on_format() {
    assert_eq!(format_content(DataFormat::Json, "[1]", 0, true).unwrap(), "[1]");
    assert_eq!(format_content(DataFormat::Xml, "<a/>", 2, true).unwrap(), "<a/>");
    assert_eq!(tree_content(DataFormat::Json, "null", true).unwrap(), "null");
}

#[test]
fn formatted_output_can_be_queried() {
    let data = "{\"name\":\"Spruce\",\"users\":[{\"email\":\"a@x\"}]}";
    let formatted = format_json(data, 2, true).unwrap();
    assert_eq!(
        spruce::query::query_json(&formatted, ".name", true).unwrap(),
        spruce::query::query_json(data, ".name", true).unwrap()
    );
}

#[test]
fn queries_chain_through_their_output() {
    let data = "{\"users\":[{\"email\":\"a@x\"},{\"email\":\"b@y\"}]}";
    let users = spruce::query::query_json(data, ".users", true).unwrap();
    let first = spruce::query::query_json(&users, ".[0].email", true).unwrap();
    assert_eq!(first, "\"a@x\"");
    assert_eq!(first, spruce::query::query_json(data, ".users[0].email", true).unwrap());
}
